use branchless::error::RepoError;
use branchless::message::{comment_byte, get_trailers, message_prettify, text_trailers};
use branchless::oid::{MaybeZeroOid, NonZeroOid};
use branchless::reference::ReferenceName;
use branchless::refs::{
    check_spec, collect_delta_paths, resolve_reference_info, state_is_rebase_underway,
    state_operation_type, Branch, Reference,
};
use branchless::signature::{Signature, Time};
use branchless::store::{BranchType, RawDelta, ReferenceKind, RepositoryState};
use branchless::treeio::Repo;

fn open(name: &str) -> (git2::Repository, Repo) {
    let path = format!("/tmp/branchless-tests/{}", name);
    let raw = git2::Repository::init(&path).unwrap();
    let repo = Repo::from_dir(&path).unwrap();
    (raw, repo)
}

fn non_zero(oid: git2::Oid) -> NonZeroOid {
    match MaybeZeroOid::from_hex(&oid.to_string()).unwrap() {
        MaybeZeroOid::NonZero(oid) => oid,
        MaybeZeroOid::Zero => panic!("zero id"),
    }
}

fn write_commit(raw: &git2::Repository, parents: &[git2::Oid], files: &[(&str, &str)]) -> git2::Oid {
    let mut builder = raw.treebuilder(None).unwrap();
    for (name, contents) in files {
        builder.insert(*name, raw.blob(contents.as_bytes()).unwrap(), 0o100644).unwrap();
    }
    let tree = raw.find_tree(builder.write().unwrap()).unwrap();
    let who = git2::Signature::new("Testy McTestface", "test@example.com", &git2::Time::new(0, 0))
        .unwrap();
    let parents: Vec<git2::Commit> =
        parents.iter().map(|p| raw.find_commit(*p).unwrap()).collect();
    let parents: Vec<&git2::Commit> = parents.iter().collect();
    raw.commit(None, &who, &who, "commit", &tree, &parents).unwrap()
}

#[test]
fn test_branch_debug() {
    let (raw, repo) = open("branch_debug");
    let commit = write_commit(&raw, &[], &[("initial.txt", "initial contents\n")]);
    raw.reference("refs/heads/master", commit, true, "test").unwrap();
    let branch = repo.find_branch("master", BranchType::Local).unwrap().unwrap();
    assert_eq!(branch.debug_string(), "<Branch name=\"master\">");
    assert_eq!(branch.get_oid().unwrap().unwrap().to_hex_string(), commit.to_string());
    assert!(repo.find_branch("no-such-branch", BranchType::Local).unwrap().is_none());
    assert!(repo.find_branch("master", BranchType::Remote).unwrap().is_none());
    let unnamed = Branch { name: None, target: None };
    assert_eq!(unnamed.debug_string(), "<Branch name=\"(could not get branch name)\">");
    assert!(unnamed.get_oid().unwrap().is_none());
}

#[test]
fn head_points_to_a_branch_and_a_commit() {
    let (raw, repo) = open("head_info");
    let commit = write_commit(&raw, &[], &[("a.txt", "a")]);
    raw.reference("refs/heads/trunk", commit, true, "test").unwrap();
    raw.set_head("refs/heads/trunk").unwrap();
    let info = repo.get_head_info().unwrap();
    assert_eq!(info.oid.unwrap().to_hex_string(), commit.to_string());
    assert_eq!(info.get_branch_name().unwrap(), Some("trunk"));

    let head = repo.find_reference(&ReferenceName::new("HEAD")).unwrap().unwrap();
    assert_eq!(head.kind, Some(ReferenceKind::Symbolic));
    assert_eq!(head.get_name().unwrap().as_str(), "HEAD");
    assert_eq!(head.debug_string(), "<Reference name=\"HEAD\">");
    let trunk = repo.find_reference(&ReferenceName::new("refs/heads/trunk")).unwrap().unwrap();
    assert_eq!(trunk.kind, Some(ReferenceKind::Direct));
    let resolved = repo.resolve_reference(&trunk).unwrap();
    assert!(resolved.reference_name.is_none());
    assert_eq!(resolved.oid.unwrap().to_hex_string(), commit.to_string());
    assert_eq!(
        repo.peel_to_commit(&trunk).unwrap().unwrap().get_oid().to_hex_string(),
        commit.to_string()
    );
    assert!(repo.find_reference(&ReferenceName::new("refs/heads/none")).unwrap().is_none());

    raw.set_head_detached(commit).unwrap();
    let info = repo.get_head_info().unwrap();
    assert_eq!(info.oid.unwrap().to_hex_string(), commit.to_string());
    assert_eq!(info.get_branch_name().unwrap(), None);
}

#[test]
fn a_symbolic_reference_resolves_to_the_name_that_its_target_spells() {
    let (raw, repo) = open("resolve_names");
    let commit = write_commit(&raw, &[], &[("a.txt", "a")]);
    raw.reference("refs/heads/trunk", commit, true, "test").unwrap();
    raw.reference_symbolic("refs/heads/alias", "refs/heads/trunk", true, "test").unwrap();
    let alias = repo.find_reference(&ReferenceName::new("refs/heads/alias")).unwrap().unwrap();
    let resolved = repo.resolve_reference(&alias).unwrap();
    assert_eq!(resolved.reference_name.unwrap().as_str(), "refs/heads/trunk");
    assert_eq!(resolved.oid.unwrap().to_hex_string(), commit.to_string());
    let broken = Reference {
        name: b"refs/heads/alias".to_vec(),
        kind: Some(ReferenceKind::Symbolic),
        symbolic_target: None,
        target: None,
    };
    assert!(matches!(repo.resolve_reference(&broken), Err(RepoError::MissingSymbolicTarget)));
    let kindless = Reference { kind: None, ..broken };
    assert!(matches!(repo.resolve_reference(&kindless), Err(RepoError::UnknownReferenceType)));
    let nameless = Reference {
        name: vec![0xff],
        kind: Some(ReferenceKind::Direct),
        symbolic_target: None,
        target: None,
    };
    assert!(matches!(repo.resolve_reference(&nameless), Err(RepoError::InvalidReferenceName)));
}

#[test]
fn unborn_head_has_no_commit() {
    let (raw, repo) = open("head_unborn");
    raw.set_head("refs/heads/not-yet").unwrap();
    let info = repo.get_head_info().unwrap();
    assert!(info.oid.is_none());
    assert_eq!(info.get_branch_name().unwrap(), Some("not-yet"));
    assert!(matches!(repo.get_staged_paths(), Err(RepoError::NoHead)));
}

#[test]
fn staged_paths_are_where_the_index_differs_from_head() {
    let (raw, repo) = open("staged_paths");
    let commit = write_commit(&raw, &[], &[("a.txt", "a"), ("b.txt", "b")]);
    raw.set_head_detached(commit).unwrap();
    let staged = write_commit(&raw, &[], &[("a.txt", "a2"), ("c.txt", "c")]);
    let mut index = raw.index().unwrap();
    index.read_tree(&raw.find_commit(staged).unwrap().tree().unwrap()).unwrap();
    index.write().unwrap();
    let paths = repo.get_staged_paths().unwrap();
    let mut names: Vec<String> =
        paths.to_vec().into_iter().map(|p| String::from_utf8(p).unwrap()).collect();
    names.sort();
    assert_eq!(names, vec!["a.txt", "b.txt", "c.txt"]);
}

#[test]
fn revisions_are_looked_up() {
    let (raw, repo) = open("revparse");
    let commit = write_commit(&raw, &[], &[("a.txt", "a")]);
    raw.reference("refs/heads/trunk", commit, true, "test").unwrap();
    raw.set_head("refs/heads/trunk").unwrap();
    let found = repo.revparse_single_commit("trunk").unwrap().unwrap();
    assert_eq!(found.get_oid().to_hex_string(), commit.to_string());
    let found = repo.revparse_single_commit("@").unwrap().unwrap();
    assert_eq!(found.get_oid().to_hex_string(), commit.to_string());
    assert!(repo.revparse_single_commit("no-such-thing").unwrap().is_none());
    let tree = raw.find_commit(commit).unwrap().tree_id().to_string();
    assert!(repo.revparse_single_commit(&tree).unwrap().is_none());
    assert!(matches!(repo.revparse_single_commit("foo-@"), Err(RepoError::UnsupportedSpec)));
    assert!(check_spec("@"));
    assert!(check_spec("HEAD@{1}"));
    assert!(!check_spec("x@"));
    assert!(check_spec(""));
}

#[test]
fn a_fresh_repository_is_in_no_operation() {
    let (_raw, repo) = open("state_clean");
    assert_eq!(repo.is_rebase_underway().unwrap(), false);
    assert_eq!(repo.get_current_operation_type(), None);
}

#[test]
fn operations_by_the_state_of_the_repository() {
    let rebasing = [
        RepositoryState::Rebase,
        RepositoryState::RebaseInteractive,
        RepositoryState::RebaseMerge,
    ];
    for state in rebasing {
        assert!(state_is_rebase_underway(state));
        assert_eq!(state_operation_type(state), Some("rebase"));
    }
    let others = [
        (RepositoryState::Clean, None),
        (RepositoryState::Bisect, None),
        (RepositoryState::Merge, Some("merge")),
        (RepositoryState::Revert, Some("revert")),
        (RepositoryState::RevertSequence, Some("revert")),
        (RepositoryState::CherryPick, Some("cherry-pick")),
        (RepositoryState::CherryPickSequence, Some("cherry-pick")),
        (RepositoryState::ApplyMailbox, Some("am")),
        (RepositoryState::ApplyMailboxOrRebase, Some("am")),
    ];
    for (state, name) in others {
        assert!(!state_is_rebase_underway(state));
        assert_eq!(state_operation_type(state), name);
    }
}

#[test]
fn what_a_reference_resolves_to() {
    let info = resolve_reference_info(None, Some(ReferenceKind::Direct), None).unwrap();
    assert!(info.oid.is_none() && info.reference_name.is_none());
    let info =
        resolve_reference_info(None, Some(ReferenceKind::Symbolic), Some(b"refs/heads/x".to_vec()))
            .unwrap();
    assert_eq!(info.reference_name.unwrap().as_str(), "refs/heads/x");
    assert!(matches!(
        resolve_reference_info(None, Some(ReferenceKind::Symbolic), Some(vec![0xff])),
        Err(RepoError::InvalidReferenceName)
    ));
    assert!(matches!(
        resolve_reference_info(None, Some(ReferenceKind::Symbolic), None),
        Err(RepoError::MissingSymbolicTarget)
    ));
    assert!(matches!(
        resolve_reference_info(None, None, Some(b"x".to_vec())),
        Err(RepoError::UnknownReferenceType)
    ));
}

#[test]
fn names_of_references() {
    assert!(Reference::is_valid_name("refs/heads/master"));
    assert!(Reference::is_valid_name("HEAD"));
    assert!(!Reference::is_valid_name("refs/heads/with space"));
    assert!(!Reference::is_valid_name("refs/heads/a..b"));
    assert!(!Reference::is_valid_name("refs/heads/nul\0inside"));
    let name = ReferenceName::new("5c41c3d7e736911dbbd53d62c10292b9bc78f838");
    assert_eq!(
        Reference::name_to_oid(&name).unwrap().unwrap().to_hex_string(),
        "5c41c3d7e736911dbbd53d62c10292b9bc78f838"
    );
    let zero = ReferenceName::new("0000000000000000000000000000000000000000");
    assert!(Reference::name_to_oid(&zero).unwrap().is_none());
    assert!(matches!(
        Reference::name_to_oid(&ReferenceName::new("refs/heads/master")),
        Err(RepoError::InvalidReferenceName)
    ));
}

#[test]
fn paths_of_differences() {
    let deltas = vec![
        RawDelta { old_path: Some(b"a".to_vec()), new_path: Some(b"b".to_vec()) },
        RawDelta { old_path: None, new_path: Some(b"a".to_vec()) },
        RawDelta { old_path: None, new_path: None },
    ];
    let mut names = collect_delta_paths(&deltas).to_vec();
    names.sort();
    assert_eq!(names, vec![b"a".to_vec(), b"b".to_vec()]);
}

#[test]
fn messages_are_cleaned_up() {
    assert_eq!(
        message_prettify("  title  \n\n\n# comment\nbody   ", Some('#')).unwrap(),
        "  title\n\nbody\n"
    );
    assert_eq!(
        message_prettify("title\n# kept\n", None).unwrap(),
        "title\n# kept\n"
    );
    assert_eq!(message_prettify("", Some('#')).unwrap(), "");
    assert!(matches!(
        message_prettify("title", Some('\u{20ac}')),
        Err(RepoError::CommentCharNotAscii)
    ));
    assert_eq!(message_prettify("title\n; gone\n", Some(';')).unwrap(), "title\n");
    assert!(matches!(message_prettify("nul\0inside", None), Err(RepoError::Store { .. })));
    assert_eq!(comment_byte('#'), Some(35));
    assert_eq!(comment_byte('\u{ff}'), Some(255));
    assert_eq!(comment_byte('\u{100}'), None);
}

#[test]
fn trailers_of_a_message() {
    let message = b"title\n\nbody\n\nSigned-off-by: A <a@example.com>\nAcked-by: B\n";
    assert_eq!(
        get_trailers(message).unwrap(),
        vec![
            ("Signed-off-by".to_string(), "A <a@example.com>".to_string()),
            ("Acked-by".to_string(), "B".to_string()),
        ]
    );
    assert_eq!(get_trailers(b"title only\n").unwrap(), vec![]);
    assert!(matches!(get_trailers(&[b'a', 0xff]), Err(RepoError::InvalidMessage)));
    assert_eq!(
        text_trailers(vec![
            (b"k".to_vec(), b"v".to_vec()),
            (vec![0xff], b"v".to_vec()),
            (b"k2".to_vec(), vec![0xfe]),
            (b"k3".to_vec(), b"v3".to_vec()),
        ]),
        vec![("k".to_string(), "v".to_string()), ("k3".to_string(), "v3".to_string())]
    );
}

#[test]
fn signatures() {
    let automated = Signature::automated();
    assert_eq!(automated.get_name(), Some("git-branchless"));
    assert_eq!(automated.get_email(), Some("git-branchless@example.com"));
    assert_eq!(automated.get_time(), Time { seconds: 0, offset_minutes: 0 });
    assert_eq!(
        automated.friendly_describe(),
        Some("git-branchless <git-branchless@example.com>".to_string())
    );

    let signature = Signature {
        name: Some("  Someone ".to_string()),
        email: Some("someone@example.com".to_string()),
        time: Time { seconds: 5, offset_minutes: 90 },
    };
    let updated = signature.update_timestamp(1234).unwrap();
    assert_eq!(updated.get_time(), Time { seconds: 1234, offset_minutes: 90 });
    assert_eq!(updated.get_name(), Some("Someone"));
    assert_eq!(updated.get_email(), Some("someone@example.com"));

    let nameless = Signature { name: None, email: Some("e".to_string()), time: Time { seconds: 0, offset_minutes: 0 } };
    assert_eq!(nameless.friendly_describe(), Some("<e>".to_string()));
    assert!(matches!(nameless.update_timestamp(1), Err(RepoError::UndecodableSignature)));
    let addressless = Signature { name: Some("n".to_string()), email: None, time: Time { seconds: 0, offset_minutes: 0 } };
    assert_eq!(addressless.friendly_describe(), Some("n".to_string()));
    assert!(matches!(addressless.update_timestamp(1), Err(RepoError::UndecodableSignature)));
    let nobody = Signature { name: None, email: None, time: Time { seconds: 0, offset_minutes: 0 } };
    assert_eq!(nobody.friendly_describe(), None);
    assert!(matches!(
        Signature::automated().update_timestamp(u64::MAX),
        Err(RepoError::TimeOutOfRange)
    ));
    assert!(matches!(
        Signature { name: Some("<bad>".to_string()), email: Some("e".to_string()), time: Time { seconds: 0, offset_minutes: 0 } }
            .update_timestamp(1),
        Err(RepoError::Store { .. })
    ));
}

#[test]
fn times() {
    assert_eq!(Time { seconds: 7, offset_minutes: -60 }.to_unix_seconds().unwrap(), 7);
    assert!(matches!(
        Time { seconds: -1, offset_minutes: 0 }.to_unix_seconds(),
        Err(RepoError::TimeOutOfRange)
    ));
}
