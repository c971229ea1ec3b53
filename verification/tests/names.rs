use branchless::opts::{rewrite_args, rewrite_args_for, Revset};
use branchless::reference::{
    CategorizedReferenceName, ReferenceName, ReferenceNameError, ResolvedReferenceInfo,
};
use branchless::text::{ends_with_str, starts_with_str, strip_prefix_or_keep};

fn strings(args: &[&str]) -> Vec<String> {
    args.iter().map(|a| a.to_string()).collect()
}

#[test]
fn reference_name_from_bytes() {
    assert_eq!(ReferenceName::from_bytes(b"refs/heads/master".to_vec()).unwrap().as_str(), "refs/heads/master");
    assert_eq!(
        ReferenceName::from_bytes("refs/heads/caf\u{e9}".as_bytes().to_vec()).unwrap().as_str(),
        "refs/heads/caf\u{e9}"
    );
    match ReferenceName::from_bytes(vec![b'a', 0xff, b'b']) {
        Err(ReferenceNameError::InvalidUtf8(bytes)) => assert_eq!(bytes, vec![b'a', 0xff, b'b']),
        Ok(_) => panic!("taken as a name"),
    }
    assert_eq!(ReferenceName::new("HEAD").as_str(), "HEAD");
}

#[test]
fn branch_name_of_what_head_points_to() {
    let info = ResolvedReferenceInfo {
        oid: None,
        reference_name: Some(ReferenceName::new("refs/heads/feature/x")),
    };
    assert_eq!(info.get_branch_name().unwrap(), Some("feature/x"));
    let info = ResolvedReferenceInfo {
        oid: None,
        reference_name: Some(ReferenceName::new("refs/remotes/origin/x")),
    };
    assert_eq!(info.get_branch_name().unwrap(), Some("refs/remotes/origin/x"));
    let info = ResolvedReferenceInfo { oid: None, reference_name: None };
    assert_eq!(info.get_branch_name().unwrap(), None);
}

#[test]
fn references_are_told_apart_by_their_names() {
    let name = ReferenceName::new("refs/heads/master");
    let kind = CategorizedReferenceName::new(&name);
    assert!(matches!(
        kind,
        CategorizedReferenceName::LocalBranch { name: "refs/heads/master", prefix: "refs/heads/" }
    ));
    assert_eq!(kind.render_full(), "refs/heads/master");
    assert_eq!(kind.render_suffix(), "master");
    assert_eq!(kind.remove_prefix().unwrap(), "master");
    assert_eq!(kind.friendly_describe(), "branch master");

    let name = ReferenceName::new("refs/remotes/origin/main");
    let kind = CategorizedReferenceName::new(&name);
    assert!(matches!(
        kind,
        CategorizedReferenceName::RemoteBranch { name: "refs/remotes/origin/main", prefix: "refs/remotes/" }
    ));
    assert_eq!(kind.render_full(), "refs/remotes/origin/main");
    assert_eq!(kind.render_suffix(), "origin/main");
    assert_eq!(kind.remove_prefix().unwrap(), "origin/main");
    assert_eq!(kind.friendly_describe(), "remote branch origin/main");

    let name = ReferenceName::new("refs/tags/v1");
    let kind = CategorizedReferenceName::new(&name);
    assert!(matches!(kind, CategorizedReferenceName::OtherRef { name: "refs/tags/v1" }));
    assert_eq!(kind.render_full(), "refs/tags/v1");
    assert_eq!(kind.render_suffix(), "refs/tags/v1");
    assert_eq!(kind.friendly_describe(), "ref refs/tags/v1");

    let name = ReferenceName::new("refs/heads/");
    assert_eq!(CategorizedReferenceName::new(&name).render_suffix(), "");
    let odd = CategorizedReferenceName::LocalBranch { name: "elsewhere", prefix: "refs/heads/" };
    assert_eq!(odd.render_suffix(), "elsewhere");
}

#[test]
fn prefixes_and_suffixes_of_text() {
    assert!(starts_with_str("refs/heads/x", "refs/heads/"));
    assert!(!starts_with_str("refs/head", "refs/heads/"));
    assert!(starts_with_str("anything", ""));
    assert!(ends_with_str("program.exe", ".exe"));
    assert!(!ends_with_str("exe", ".exe"));
    assert!(ends_with_str("x", ""));
    assert_eq!(strip_prefix_or_keep("\u{e9}t\u{e9}", "\u{e9}"), "t\u{e9}");
    assert_eq!(strip_prefix_or_keep("abc", "x"), "abc");
}

#[test]
fn the_default_revset_of_the_smartlog() {
    assert_eq!(
        Revset::default_smartlog_revset().0,
        "((draft() | branches() | @) % main()) | branches() | @"
    );
    assert_eq!(Revset::from_str("stack()").to_string(), "stack()");
}

#[test]
fn arguments_are_rewritten_for_a_program_named_after_a_subcommand() {
    assert_eq!(
        rewrite_args(strings(&["/usr/bin/git-branchless-smartlog", "--hidden", "x"]), ""),
        strings(&["git-branchless", "smartlog", "--hidden", "x"])
    );
    assert_eq!(
        rewrite_args(strings(&["git-branchless-init.exe"]), ".exe"),
        strings(&["git-branchless", "init"])
    );
    assert_eq!(
        rewrite_args(strings(&["git-branchless-init.exe"]), ""),
        strings(&["git-branchless", "init.exe"])
    );
    assert_eq!(
        rewrite_args(strings(&["git-branchless-"]), ""),
        strings(&["git-branchless", ""])
    );
}

#[test]
fn other_arguments_stay_as_they_are() {
    assert_eq!(rewrite_args(strings(&[]), ""), strings(&[]));
    assert_eq!(
        rewrite_args(strings(&["/usr/bin/git-branchless", "smartlog"]), ""),
        strings(&["/usr/bin/git-branchless", "smartlog"])
    );
    assert_eq!(rewrite_args(strings(&["..", "x"]), ""), strings(&["..", "x"]));
    assert_eq!(
        rewrite_args(strings(&["git-branchless-next/..", "x"]), ""),
        strings(&["git-branchless-next/..", "x"])
    );
    assert_eq!(
        rewrite_args_for(strings(&["whatever", "x"]), None, ""),
        strings(&["whatever", "x"])
    );
    assert_eq!(
        rewrite_args_for(strings(&["whatever", "x"]), Some("git-branchless-undo"), ""),
        strings(&["git-branchless", "undo", "x"])
    );
    assert_eq!(
        rewrite_args_for(strings(&[]), Some("git-branchless-undo"), ""),
        strings(&[])
    );
}
