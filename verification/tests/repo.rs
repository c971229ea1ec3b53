use branchless::entry::FileMode;
use branchless::error::RepoError;
use branchless::oid::{MaybeZeroOid, NonZeroOid};
use branchless::path::PathSet;
use branchless::pathmap::PathMap;
use branchless::repo::{
    dehydrated_commit_message, AmendFastOptions, CherryPickFastError, CherryPickFastOptions, Commit,
};
use branchless::status::{FileStatus, StatusEntry};
use branchless::treeio::{Repo, Tree};

const EMPTY_TREE: &str = "4b825dc642cb6eb9a060e54bf8d69288fbee4904";

fn open(name: &str) -> (git2::Repository, Repo) {
    let path = format!("/tmp/branchless-tests/{}", name);
    let raw = git2::Repository::init(&path).unwrap();
    let repo = Repo::from_dir(&path).unwrap();
    (raw, repo)
}

fn non_zero(oid: git2::Oid) -> NonZeroOid {
    match MaybeZeroOid::from_hex(&oid.to_string()).unwrap() {
        MaybeZeroOid::NonZero(oid) => oid,
        MaybeZeroOid::Zero => panic!("zero id"),
    }
}

fn write_tree(raw: &git2::Repository, files: &[(&str, &str)]) -> git2::Oid {
    let empty = raw.treebuilder(None).unwrap().write().unwrap();
    let empty = raw.find_tree(empty).unwrap();
    let mut update = git2::build::TreeUpdateBuilder::new();
    for (path, contents) in files {
        let blob = raw.blob(contents.as_bytes()).unwrap();
        update.upsert(*path, blob, git2::FileMode::Blob);
    }
    update.create_updated(raw, &empty).unwrap()
}

fn write_commit(raw: &git2::Repository, parents: &[git2::Oid], files: &[(&str, &str)]) -> git2::Oid {
    let tree = raw.find_tree(write_tree(raw, files)).unwrap();
    let who = git2::Signature::new("Testy McTestface", "test@example.com", &git2::Time::new(0, 0))
        .unwrap();
    let parents: Vec<git2::Commit> =
        parents.iter().map(|p| raw.find_commit(*p).unwrap()).collect();
    let parents: Vec<&git2::Commit> = parents.iter().collect();
    raw.commit(None, &who, &who, "commit", &tree, &parents).unwrap()
}

fn find(repo: &Repo, oid: git2::Oid) -> Commit {
    repo.find_commit_or_fail(non_zero(oid)).unwrap()
}

fn entries(repo: &Repo, tree: &Tree) -> Vec<(String, String)> {
    repo.read_tree_items(&tree.get_oid())
        .unwrap()
        .iter()
        .map(|item| {
            (
                String::from_utf8(item.name.clone()).unwrap(),
                item.entry.oid.to_hex_string(),
            )
        })
        .collect()
}

fn path_set(paths: &[&str]) -> PathSet {
    let mut set = PathSet::new();
    for path in paths {
        set.insert(path.as_bytes());
    }
    set
}

fn sorted(set: &PathSet) -> Vec<String> {
    let mut paths: Vec<String> =
        set.to_vec().into_iter().map(|p| String::from_utf8(p).unwrap()).collect();
    paths.sort();
    paths
}

fn put_in_working_copy(raw: &git2::Repository, files: &[(&str, &str)]) {
    let tree = raw.find_object(write_tree(raw, files), None).unwrap();
    let mut how = git2::build::CheckoutBuilder::new();
    how.force().update_index(false);
    raw.checkout_tree(&tree, Some(&mut how)).unwrap();
}

fn clear_working_copy(raw: &git2::Repository) {
    let tree = raw.find_object(write_tree(raw, &[]), None).unwrap();
    let mut how = git2::build::CheckoutBuilder::new();
    how.force().remove_untracked(true).update_index(false);
    raw.checkout_tree(&tree, Some(&mut how)).unwrap();
}

fn stage(raw: &git2::Repository, files: &[(&str, &str)]) {
    let tree = raw.find_tree(write_tree(raw, files)).unwrap();
    let mut index = raw.index().unwrap();
    index.read_tree(&tree).unwrap();
    index.write().unwrap();
}

fn status(
    index_status: FileStatus,
    working_copy_status: FileStatus,
    path: &str,
) -> StatusEntry {
    StatusEntry {
        index_status,
        working_copy_status,
        working_copy_file_mode: FileMode::Blob,
        path: path.as_bytes().to_vec(),
        orig_path: None,
    }
}

#[test]
fn test_cherry_pick_fast() {
    let (raw, repo) = open("cherry_pick_fast");
    let initial = write_commit(&raw, &[], &[("initial.txt", "initial contents\n")]);
    let test1 = write_commit(
        &raw,
        &[initial],
        &[("initial.txt", "initial contents\n"), ("test1.txt", "test1 contents")],
    );
    let initial2 = write_commit(&raw, &[initial], &[("initial.txt", "updated initial contents")]);

    let test1_commit = find(&repo, test1);
    let initial2_commit = find(&repo, initial2);
    let tree = repo
        .cherry_pick_fast(
            &test1_commit,
            &initial2_commit,
            &CherryPickFastOptions { reuse_parent_tree_if_possible: false },
        )
        .unwrap();
    let tree = match tree {
        Ok(tree) => tree,
        Err(_) => panic!("conflict"),
    };
    assert_eq!(tree.get_oid().to_hex_string(), "367f91ddd5df2d1c18742ce3f09b4944944cac3a");
    let names: Vec<String> = entries(&repo, &tree).into_iter().map(|(name, _)| name).collect();
    assert_eq!(names, vec!["initial.txt".to_string(), "test1.txt".to_string()]);
}

#[test]
fn test_amend_fast_from_index() {
    let (raw, repo) = open("amend_fast_from_index");
    let first = write_commit(&raw, &[], &[("initial.txt", "initial contents\n")]);
    let initial = write_commit(&raw, &[first], &[("initial.txt", "initial contents")]);
    stage(&raw, &[("initial.txt", "initial contents")]);
    put_in_working_copy(&raw, &[("initial.txt", "updated contents")]);

    let initial_commit = find(&repo, initial);
    let tree = initial_commit.get_tree();
    assert_eq!(tree.get_oid().to_hex_string(), "01deb7745d411223bbf6b9cb1abaeed451bb25a0");
    assert_eq!(
        entries(&repo, &tree),
        vec![(
            "initial.txt".to_string(),
            "5c41c3d7e736911dbbd53d62c10292b9bc78f838".to_string()
        )]
    );

    let tree = repo
        .amend_fast(
            &initial_commit,
            &AmendFastOptions::FromIndex { paths: vec![b"initial.txt".to_vec()] },
        )
        .unwrap();
    assert_eq!(tree.get_oid().to_hex_string(), "01deb7745d411223bbf6b9cb1abaeed451bb25a0");
    assert_eq!(
        entries(&repo, &tree),
        vec![(
            "initial.txt".to_string(),
            "5c41c3d7e736911dbbd53d62c10292b9bc78f838".to_string()
        )]
    );

    stage(&raw, &[("initial.txt", "updated contents")]);
    let tree = repo
        .amend_fast(
            &initial_commit,
            &AmendFastOptions::FromIndex { paths: vec![b"initial.txt".to_vec()] },
        )
        .unwrap();
    assert_eq!(tree.get_oid().to_hex_string(), "1c15b79a72c3285df172fcfdaceedb7259283eb5");
    assert_eq!(
        entries(&repo, &tree),
        vec![(
            "initial.txt".to_string(),
            "53cd9398c8a2d92f18d279c6cad3f5dde67235e7".to_string()
        )]
    );
    let blob = raw
        .find_blob(git2::Oid::from_str("53cd9398c8a2d92f18d279c6cad3f5dde67235e7").unwrap())
        .unwrap();
    assert_eq!(blob.content(), b"updated contents");
}

#[test]
fn test_amend_fast_from_working_tree() {
    let (raw, repo) = open("amend_fast_from_working_tree");
    let first = write_commit(&raw, &[], &[("initial.txt", "initial contents\n")]);
    let initial = write_commit(&raw, &[first], &[("initial.txt", "initial contents")]);
    put_in_working_copy(&raw, &[("initial.txt", "updated contents")]);

    let initial_commit = find(&repo, initial);
    let tree = repo
        .amend_fast(
            &initial_commit,
            &AmendFastOptions::FromWorkingCopy {
                status_entries: vec![status(
                    FileStatus::Renamed,
                    FileStatus::Unmodified,
                    "initial.txt",
                )],
            },
        )
        .unwrap();
    assert_eq!(tree.get_oid().to_hex_string(), "1c15b79a72c3285df172fcfdaceedb7259283eb5");
    assert_eq!(
        entries(&repo, &tree),
        vec![(
            "initial.txt".to_string(),
            "53cd9398c8a2d92f18d279c6cad3f5dde67235e7".to_string()
        )]
    );

    put_in_working_copy(
        &raw,
        &[("file2.txt", "another file"), ("initial.txt", "updated contents again")],
    );
    let tree = repo
        .amend_fast(
            &initial_commit,
            &AmendFastOptions::FromWorkingCopy {
                status_entries: vec![status(
                    FileStatus::Unmodified,
                    FileStatus::Added,
                    "file2.txt",
                )],
            },
        )
        .unwrap();
    assert_eq!(tree.get_oid().to_hex_string(), "1a9fbbecd825881c3e79f0fb194a1c1e1104fe0f");
    assert_eq!(
        entries(&repo, &tree),
        vec![
            (
                "file2.txt".to_string(),
                "cdcb28483da7783a8b505a074c50632a5481a69b".to_string()
            ),
            (
                "initial.txt".to_string(),
                "5c41c3d7e736911dbbd53d62c10292b9bc78f838".to_string()
            ),
        ]
    );

    clear_working_copy(&raw);
    assert!(repo
        .create_blob_from_path(b"/tmp/branchless-tests/amend_fast_from_working_tree/initial.txt")
        .unwrap()
        .is_none());
    let tree = repo
        .amend_fast(
            &initial_commit,
            &AmendFastOptions::FromWorkingCopy {
                status_entries: vec![status(
                    FileStatus::Unmodified,
                    FileStatus::Deleted,
                    "initial.txt",
                )],
            },
        )
        .unwrap();
    assert_eq!(tree.get_oid().to_hex_string(), "4b825dc642cb6eb9a060e54bf8d69288fbee4904");
    assert_eq!(entries(&repo, &tree), vec![]);
}

#[test]
fn amend_from_working_copy_deletes_the_last_file() {
    let (raw, repo) = open("amend_delete_last_file");
    let first = write_commit(&raw, &[], &[("initial.txt", "initial contents\n")]);
    let initial = write_commit(&raw, &[first], &[("initial.txt", "initial contents")]);
    let initial_commit = find(&repo, initial);
    let tree = repo
        .amend_fast(
            &initial_commit,
            &AmendFastOptions::FromWorkingCopy {
                status_entries: vec![status(
                    FileStatus::Unmodified,
                    FileStatus::Deleted,
                    "initial.txt",
                )],
            },
        )
        .unwrap();
    assert_eq!(tree.get_oid().to_hex_string(), EMPTY_TREE);
    assert_eq!(entries(&repo, &tree), vec![]);
}

#[test]
fn amend_refuses_a_merge_commit() {
    let (raw, repo) = open("amend_merge_commit");
    let a = write_commit(&raw, &[], &[("a.txt", "a")]);
    let b = write_commit(&raw, &[], &[("b.txt", "b")]);
    let merge = write_commit(&raw, &[a, b], &[("a.txt", "a"), ("b.txt", "b")]);
    let res = repo.amend_fast(&find(&repo, merge), &AmendFastOptions::FromIndex { paths: vec![] });
    assert!(matches!(res, Err(RepoError::UnsupportedParentCount)));
}

#[test]
fn cherry_pick_takes_the_tree_of_the_patch_where_its_parent_has_the_tree_of_the_target() {
    let (raw, repo) = open("cherry_pick_elision");
    let base = write_commit(&raw, &[], &[("a.txt", "a")]);
    let patch = write_commit(&raw, &[base], &[("a.txt", "a"), ("b.txt", "b")]);
    let target = write_commit(&raw, &[], &[("a.txt", "a")]);
    let patch_commit = find(&repo, patch);
    let tree = repo
        .cherry_pick_fast(
            &patch_commit,
            &find(&repo, target),
            &CherryPickFastOptions { reuse_parent_tree_if_possible: true },
        )
        .unwrap();
    match tree {
        Ok(tree) => assert_eq!(
            tree.get_oid().to_hex_string(),
            patch_commit.get_tree().get_oid().to_hex_string()
        ),
        Err(_) => panic!("conflict"),
    }
}

#[test]
fn cherry_pick_refuses_a_patch_without_a_parent() {
    let (raw, repo) = open("cherry_pick_root");
    let root = write_commit(&raw, &[], &[("a.txt", "a")]);
    let target = write_commit(&raw, &[], &[("b.txt", "b")]);
    let res = repo.cherry_pick_fast(
        &find(&repo, root),
        &find(&repo, target),
        &CherryPickFastOptions { reuse_parent_tree_if_possible: true },
    );
    assert!(matches!(res, Err(RepoError::UnsupportedParentCount)));
}

#[test]
fn cherry_pick_refuses_a_patch_with_two_parents() {
    let (raw, repo) = open("cherry_pick_merge");
    let a = write_commit(&raw, &[], &[("a.txt", "a")]);
    let b = write_commit(&raw, &[], &[("b.txt", "b")]);
    let merge = write_commit(&raw, &[a, b], &[("a.txt", "a"), ("b.txt", "b")]);
    let res = repo.cherry_pick_fast(
        &find(&repo, merge),
        &find(&repo, a),
        &CherryPickFastOptions { reuse_parent_tree_if_possible: false },
    );
    assert!(matches!(res, Err(RepoError::UnsupportedParentCount)));
}

#[test]
fn cherry_pick_names_the_paths_in_conflict() {
    let (raw, repo) = open("cherry_pick_conflict");
    let base = write_commit(&raw, &[], &[("dir/a.txt", "one\n"), ("keep.txt", "keep")]);
    let patch = write_commit(&raw, &[base], &[("dir/a.txt", "two\n"), ("keep.txt", "keep")]);
    let target = write_commit(&raw, &[base], &[("dir/a.txt", "three\n"), ("keep.txt", "keep")]);
    let res = repo
        .cherry_pick_fast(
            &find(&repo, patch),
            &find(&repo, target),
            &CherryPickFastOptions { reuse_parent_tree_if_possible: true },
        )
        .unwrap();
    match res {
        Err(CherryPickFastError::MergeConflict { conflicting_paths }) => {
            assert_eq!(sorted(&conflicting_paths), vec!["dir/a.txt".to_string()]);
        }
        Ok(_) => panic!("no conflict"),
    }
}

fn full_merge(raw: &git2::Repository, patch: git2::Oid, target: git2::Oid) -> git2::Index {
    raw.cherrypick_commit(
        &raw.find_commit(patch).unwrap(),
        &raw.find_commit(target).unwrap(),
        0,
        None,
    )
    .unwrap()
}

#[test]
fn conflicts_are_those_of_a_merge_of_the_whole_trees() {
    let (raw, repo) = open("cherry_pick_conflicts_full");
    let base = write_commit(
        &raw,
        &[],
        &[("a.txt", "one\n"), ("d/b.txt", "one\n"), ("d/c.txt", "one\n"), ("keep.txt", "k")],
    );
    let patch = write_commit(
        &raw,
        &[base],
        &[("a.txt", "two\n"), ("d/b.txt", "two\n"), ("d/c.txt", "two\n"), ("keep.txt", "k")],
    );
    let target = write_commit(
        &raw,
        &[base],
        &[("a.txt", "three\n"), ("d/c.txt", "one\n"), ("keep.txt", "k2"), ("more.txt", "m")],
    );
    let res = repo
        .cherry_pick_fast(
            &find(&repo, patch),
            &find(&repo, target),
            &CherryPickFastOptions { reuse_parent_tree_if_possible: true },
        )
        .unwrap();
    let full = full_merge(&raw, patch, target);
    assert!(full.has_conflicts());
    let mut want: Vec<String> = Vec::new();
    for conflict in full.conflicts().unwrap() {
        let conflict = conflict.unwrap();
        for side in [conflict.ancestor, conflict.our, conflict.their] {
            if let Some(entry) = side {
                want.push(String::from_utf8(entry.path).unwrap());
            }
        }
    }
    want.sort();
    want.dedup();
    assert_eq!(want, vec!["a.txt".to_string(), "d/b.txt".to_string()]);
    match res {
        Err(CherryPickFastError::MergeConflict { conflicting_paths }) => {
            assert_eq!(sorted(&conflicting_paths), want);
        }
        Ok(_) => panic!("no conflict"),
    }
}

#[test]
fn result_is_that_of_a_merge_of_the_whole_trees() {
    let (raw, repo) = open("cherry_pick_result_full");
    let base = write_commit(
        &raw,
        &[],
        &[("a.txt", "1\n2\n3\n4\n5\n6\n7\n8\n9\n"), ("d/b.txt", "b"), ("d/e/f.txt", "f"), ("old", "o")],
    );
    let patch = write_commit(
        &raw,
        &[base],
        &[("a.txt", "1\n2\n3\n4\n5\n6\n7\n8\nnine\n"), ("d/b.txt", "b"), ("d/e/g.txt", "g"), ("old/now-a-dir", "o")],
    );
    let target = write_commit(
        &raw,
        &[base],
        &[("a.txt", "one\n2\n3\n4\n5\n6\n7\n8\n9\n"), ("d/b.txt", "b2"), ("d/e/f.txt", "f"), ("old", "o"), ("z.txt", "z")],
    );
    let res = repo
        .cherry_pick_fast(
            &find(&repo, patch),
            &find(&repo, target),
            &CherryPickFastOptions { reuse_parent_tree_if_possible: true },
        )
        .unwrap();
    let mut full = full_merge(&raw, patch, target);
    assert!(!full.has_conflicts());
    let want = full.write_tree_to(&raw).unwrap();
    assert_eq!(
        want,
        write_tree(
            &raw,
            &[("a.txt", "one\n2\n3\n4\n5\n6\n7\n8\nnine\n"), ("d/b.txt", "b2"), ("d/e/g.txt", "g"), ("old/now-a-dir", "o"), ("z.txt", "z")],
        )
    );
    match res {
        Ok(tree) => assert_eq!(tree.get_oid().to_hex_string(), want.to_string()),
        Err(_) => panic!("conflict"),
    }
}

#[test]
fn cherry_pick_in_nested_directories_keeps_what_the_patch_does_not_touch() {
    let (raw, repo) = open("cherry_pick_nested");
    let base = write_commit(&raw, &[], &[("src/a/x.txt", "x"), ("src/b/y.txt", "y")]);
    let patch = write_commit(
        &raw,
        &[base],
        &[("src/a/x.txt", "x2"), ("src/a/new.txt", "n"), ("src/b/y.txt", "y")],
    );
    let target = write_commit(
        &raw,
        &[base],
        &[("src/a/x.txt", "x"), ("src/b/y.txt", "y2"), ("top.txt", "t")],
    );
    let res = repo
        .cherry_pick_fast(
            &find(&repo, patch),
            &find(&repo, target),
            &CherryPickFastOptions { reuse_parent_tree_if_possible: true },
        )
        .unwrap();
    let want = write_tree(
        &raw,
        &[("src/a/x.txt", "x2"), ("src/a/new.txt", "n"), ("src/b/y.txt", "y2"), ("top.txt", "t")],
    );
    match res {
        Ok(tree) => assert_eq!(tree.get_oid().to_hex_string(), want.to_string()),
        Err(_) => panic!("conflict"),
    }
}

#[test]
fn cherry_pick_of_a_deletion_removes_the_file_and_its_directory() {
    let (raw, repo) = open("cherry_pick_deletion");
    let base = write_commit(&raw, &[], &[("dir/only.txt", "x"), ("keep.txt", "k")]);
    let patch = write_commit(&raw, &[base], &[("keep.txt", "k")]);
    let target = write_commit(&raw, &[base], &[("dir/only.txt", "x"), ("keep.txt", "k2")]);
    let res = repo
        .cherry_pick_fast(
            &find(&repo, patch),
            &find(&repo, target),
            &CherryPickFastOptions { reuse_parent_tree_if_possible: false },
        )
        .unwrap();
    let want = write_tree(&raw, &[("keep.txt", "k2")]);
    match res {
        Ok(tree) => assert_eq!(tree.get_oid().to_hex_string(), want.to_string()),
        Err(_) => panic!("conflict"),
    }
}

#[test]
fn changed_paths_between_a_tree_and_itself_are_none() {
    let (raw, repo) = open("changed_paths_same");
    let tree = Tree { oid: non_zero(write_tree(&raw, &[("a/b.txt", "b"), ("c.txt", "c")])) };
    let paths = repo.get_changed_paths_between_trees(Some(&tree), Some(&tree)).unwrap();
    assert!(paths.is_empty());
    let paths = repo.get_changed_paths_between_trees(None, None).unwrap();
    assert!(paths.is_empty());
}

#[test]
fn changed_paths_against_no_tree_are_all_paths() {
    let (raw, repo) = open("changed_paths_none");
    let tree = Tree {
        oid: non_zero(write_tree(&raw, &[("a/b.txt", "b"), ("a/d/e.txt", "e"), ("c.txt", "c")])),
    };
    let paths = repo.get_changed_paths_between_trees(None, Some(&tree)).unwrap();
    assert_eq!(
        sorted(&paths),
        vec!["a/b.txt".to_string(), "a/d/e.txt".to_string(), "c.txt".to_string()]
    );
    let paths = repo.get_changed_paths_between_trees(Some(&tree), None).unwrap();
    assert_eq!(
        sorted(&paths),
        vec!["a/b.txt".to_string(), "a/d/e.txt".to_string(), "c.txt".to_string()]
    );
}

#[test]
fn changed_paths_name_what_differs_and_nothing_else() {
    let (raw, repo) = open("changed_paths_diff");
    let old = Tree {
        oid: non_zero(write_tree(
            &raw,
            &[("a/b.txt", "b"), ("a/same.txt", "s"), ("file", "f"), ("gone.txt", "g"), ("u/v.txt", "v")],
        )),
    };
    let new = Tree {
        oid: non_zero(write_tree(
            &raw,
            &[("a/b.txt", "b2"), ("a/same.txt", "s"), ("file/inner.txt", "i"), ("u/v.txt", "v")],
        )),
    };
    let paths = repo.get_changed_paths_between_trees(Some(&old), Some(&new)).unwrap();
    assert_eq!(
        sorted(&paths),
        vec![
            "a/b.txt".to_string(),
            "file".to_string(),
            "file/inner.txt".to_string(),
            "gone.txt".to_string()
        ]
    );
}

#[test]
fn changed_paths_see_a_change_of_mode() {
    let (raw, repo) = open("changed_paths_mode");
    let blob = raw.blob(b"run").unwrap();
    let mut plain = raw.treebuilder(None).unwrap();
    plain.insert("run.sh", blob, 0o100644).unwrap();
    let mut executable = raw.treebuilder(None).unwrap();
    executable.insert("run.sh", blob, 0o100755).unwrap();
    let old = Tree { oid: non_zero(plain.write().unwrap()) };
    let new = Tree { oid: non_zero(executable.write().unwrap()) };
    let paths = repo.get_changed_paths_between_trees(Some(&old), Some(&new)).unwrap();
    assert_eq!(sorted(&paths), vec!["run.sh".to_string()]);
}

#[test]
fn dehydrated_tree_holds_the_requested_paths_only() {
    let (raw, repo) = open("dehydrate_tree");
    let tree = Tree {
        oid: non_zero(write_tree(
            &raw,
            &[("a/b.txt", "b"), ("a/c.txt", "c"), ("d/e/f.txt", "f"), ("g.txt", "g")],
        )),
    };
    let oid = repo
        .dehydrate_tree(&tree, &path_set(&["a/b.txt", "d/e/f.txt", "missing.txt", "a/missing.txt"]))
        .unwrap();
    let want = write_tree(&raw, &[("a/b.txt", "b"), ("d/e/f.txt", "f")]);
    assert_eq!(oid.to_hex_string(), want.to_string());
    let oid = repo.dehydrate_tree(&tree, &path_set(&[])).unwrap();
    assert_eq!(oid.to_hex_string(), EMPTY_TREE);
}

#[test]
fn dehydrating_a_directory_path_takes_the_whole_directory() {
    let (raw, repo) = open("dehydrate_directory");
    let tree = Tree {
        oid: non_zero(write_tree(&raw, &[("a/b.txt", "b"), ("a/c.txt", "c"), ("g.txt", "g")])),
    };
    let oid = repo.dehydrate_tree(&tree, &path_set(&["a"])).unwrap();
    let want = write_tree(&raw, &[("a/b.txt", "b"), ("a/c.txt", "c")]);
    assert_eq!(oid.to_hex_string(), want.to_string());
}

#[test]
fn hydrating_without_overrides_gives_the_base() {
    let (raw, repo) = open("hydrate_nothing");
    let base = write_tree(&raw, &[("a/b.txt", "b"), ("c.txt", "c")]);
    let tree = Tree { oid: non_zero(base) };
    let oid = repo.hydrate_tree(Some(&tree), &PathMap::new()).unwrap();
    assert_eq!(oid.to_hex_string(), base.to_string());
    let oid = repo.hydrate_tree(None, &PathMap::new()).unwrap();
    assert_eq!(oid.to_hex_string(), EMPTY_TREE);
}

#[test]
fn hydrating_with_what_was_dehydrated_gives_the_tree_back() {
    let (raw, repo) = open("hydrate_round_trip");
    let base = write_tree(&raw, &[("a/b.txt", "b"), ("a/c.txt", "c"), ("d.txt", "d")]);
    let tree = Tree { oid: non_zero(base) };
    let paths = ["a/b.txt", "d.txt", "nowhere/x.txt"];
    let dehydrated = Tree { oid: repo.dehydrate_tree(&tree, &path_set(&paths)).unwrap() };
    let mut overrides = PathMap::new();
    for path in paths {
        let entry = repo.get_tree_entry(&dehydrated, path.as_bytes()).unwrap();
        overrides.insert(path.as_bytes(), entry);
    }
    let oid = repo.hydrate_tree(Some(&tree), &overrides).unwrap();
    assert_eq!(oid.to_hex_string(), base.to_string());
}

#[test]
fn hydrating_sets_and_deletes_entries() {
    let (raw, repo) = open("hydrate_overrides");
    let base = Tree {
        oid: non_zero(write_tree(
            &raw,
            &[("a/b.txt", "b"), ("a/c.txt", "c"), ("d/only.txt", "o"), ("e.txt", "e")],
        )),
    };
    let new_blob = non_zero(raw.blob(b"new").unwrap());
    let entry = branchless::entry::TreeEntry { oid: new_blob, mode: FileMode::Blob };
    let mut overrides = PathMap::new();
    overrides.insert(b"a/b.txt", Some(entry));
    overrides.insert(b"x/y/z.txt", Some(entry));
    overrides.insert(b"d/only.txt", None);
    overrides.insert(b"not/there.txt", None);
    let oid = repo.hydrate_tree(Some(&base), &overrides).unwrap();
    let want = write_tree(
        &raw,
        &[("a/b.txt", "new"), ("a/c.txt", "c"), ("e.txt", "e"), ("x/y/z.txt", "new")],
    );
    assert_eq!(oid.to_hex_string(), want.to_string());
}

#[test]
fn hydrating_refuses_a_path_with_an_empty_component() {
    let (raw, repo) = open("hydrate_bad_path");
    let base = Tree { oid: non_zero(write_tree(&raw, &[("a.txt", "a")])) };
    let entry = branchless::entry::TreeEntry {
        oid: non_zero(raw.blob(b"new").unwrap()),
        mode: FileMode::Blob,
    };
    let mut overrides = PathMap::new();
    overrides.insert(b"dir//x.txt", Some(entry));
    assert!(matches!(repo.hydrate_tree(Some(&base), &overrides), Err(RepoError::InvalidPath)));
    let mut overrides = PathMap::new();
    overrides.insert(b"/x.txt", Some(entry));
    assert!(matches!(repo.hydrate_tree(Some(&base), &overrides), Err(RepoError::InvalidPath)));
}

#[test]
fn helper_commit_names_the_commit_it_stands_for() {
    let (raw, repo) = open("dehydrate_commit");
    let base = write_commit(&raw, &[], &[("a.txt", "a"), ("b.txt", "b")]);
    let child = write_commit(&raw, &[base], &[("a.txt", "a2"), ("b.txt", "b")]);
    let commit = find(&repo, child);
    let paths = repo.get_paths_touched_by_commit(&commit).unwrap().unwrap();
    assert_eq!(sorted(&paths), vec!["a.txt".to_string()]);

    let helper = repo.dehydrate_commit(&commit, &paths, true).unwrap();
    assert_eq!(helper.get_parent_count(), 1);
    let written = raw
        .find_commit(git2::Oid::from_str(&helper.get_oid().to_hex_string()).unwrap())
        .unwrap();
    assert_eq!(
        written.message().unwrap(),
        format!(
            "generated by git-branchless: temporary dehydrated commit \
             This commit was originally: NonZeroOid({})",
            child
        )
    );
    assert_eq!(written.message().unwrap(), dehydrated_commit_message(&commit.get_oid()));
    assert_eq!(written.author().name(), Some("git-branchless"));
    assert_eq!(written.author().email(), Some("git-branchless@example.com"));
    assert_eq!(written.author().when().seconds(), 0);
    assert_eq!(written.tree_id(), write_tree(&raw, &[("a.txt", "a2")]));
    assert_eq!(written.parent(0).unwrap().tree_id(), write_tree(&raw, &[("a.txt", "a")]));
    assert_eq!(written.parent(0).unwrap().parent_count(), 0);

    let alone = repo.dehydrate_commit(&commit, &paths, false).unwrap();
    assert_eq!(alone.get_parent_count(), 0);
}

#[test]
fn paths_touched_by_a_commit() {
    let (raw, repo) = open("paths_touched");
    let root = write_commit(&raw, &[], &[("a.txt", "a"), ("d/b.txt", "b")]);
    let same = write_commit(&raw, &[root], &[("a.txt", "a"), ("d/b.txt", "b")]);
    let other = write_commit(&raw, &[], &[("c.txt", "c")]);
    let merge = write_commit(&raw, &[root, other], &[("a.txt", "a")]);

    let paths = repo.get_paths_touched_by_commit(&find(&repo, root)).unwrap().unwrap();
    assert_eq!(sorted(&paths), vec!["a.txt".to_string(), "d/b.txt".to_string()]);
    let paths = repo.get_paths_touched_by_commit(&find(&repo, same)).unwrap().unwrap();
    assert!(paths.is_empty());
    assert!(find(&repo, same).is_empty());
    assert!(!find(&repo, root).is_empty());
    assert!(repo.get_paths_touched_by_commit(&find(&repo, merge)).unwrap().is_none());
    assert_eq!(find(&repo, merge).get_parent_oids().len(), 2);
    assert!(find(&repo, merge).get_only_parent_oid().is_none());
    assert_eq!(
        find(&repo, same).get_only_parent_oid().unwrap().to_hex_string(),
        root.to_string()
    );
}

#[test]
fn commit_touches_a_path() {
    let (raw, repo) = open("touched_path");
    let root = write_commit(&raw, &[], &[("a.txt", "a"), ("d/b.txt", "b")]);
    let child = write_commit(&raw, &[root], &[("a.txt", "a"), ("d/b.txt", "b2")]);
    let commit = find(&repo, child);
    assert_eq!(repo.contains_touched_path(&commit, b"a.txt").unwrap(), Some(false));
    assert_eq!(repo.contains_touched_path(&commit, b"d/b.txt").unwrap(), Some(true));
    assert_eq!(repo.contains_touched_path(&commit, b"d").unwrap(), Some(true));
    assert_eq!(repo.contains_touched_path(&commit, b"nowhere").unwrap(), Some(false));
    assert_eq!(repo.contains_touched_path(&find(&repo, root), b"a.txt").unwrap(), None);
}

#[test]
fn missing_objects_are_not_found() {
    let (raw, repo) = open("missing_objects");
    let blob = non_zero(raw.blob(b"not a commit").unwrap());
    let absent = match MaybeZeroOid::from_hex("0123456789012345678901234567890123456789").unwrap() {
        MaybeZeroOid::NonZero(oid) => oid,
        MaybeZeroOid::Zero => panic!("zero id"),
    };
    assert!(repo.find_commit(absent).unwrap().is_none());
    assert!(matches!(repo.find_commit_or_fail(absent), Err(RepoError::MissingObject)));
    assert!(repo.find_tree(absent).unwrap().is_none());
    assert!(matches!(repo.find_tree_or_fail(absent), Err(RepoError::MissingObject)));
    assert!(repo.find_commit(blob).is_err() || repo.find_commit(blob).unwrap().is_none());
    assert!(repo.create_blob_from_path(b"/tmp/branchless-tests/no-such-file").unwrap().is_none());
    assert_eq!(
        repo.create_blob_from_contents(b"initial contents").unwrap().to_hex_string(),
        "5c41c3d7e736911dbbd53d62c10292b9bc78f838"
    );
    assert!(matches!(
        Repo::from_dir("/tmp/branchless-tests-no-such-directory/x"),
        Err(RepoError::Store { .. })
    ));
}

#[test]
fn cherry_pick_of_a_commit_without_changes_gives_the_tree_of_the_target() {
    let (raw, repo) = open("cherry_pick_empty");
    let base = write_commit(&raw, &[], &[("a.txt", "a"), ("d/b.txt", "b")]);
    let patch = write_commit(&raw, &[base], &[("a.txt", "a"), ("d/b.txt", "b")]);
    let target = write_commit(&raw, &[], &[("a.txt", "a2"), ("d/c.txt", "c")]);
    let res = repo
        .cherry_pick_fast(
            &find(&repo, patch),
            &find(&repo, target),
            &CherryPickFastOptions { reuse_parent_tree_if_possible: true },
        )
        .unwrap();
    match res {
        Ok(tree) => assert_eq!(
            tree.get_oid().to_hex_string(),
            find(&repo, target).get_tree().get_oid().to_hex_string()
        ),
        Err(_) => panic!("conflict"),
    }
}

#[test]
fn patch_trees_of_a_commit_hold_what_it_touches() {
    let (raw, repo) = open("patch_trees");
    let root = write_commit(&raw, &[], &[("a.txt", "a"), ("d/b.txt", "b"), ("d/c.txt", "c")]);
    let child = write_commit(&raw, &[root], &[("a.txt", "a"), ("d/b.txt", "b2"), ("d/c.txt", "c")]);
    let other = write_commit(&raw, &[], &[("x.txt", "x")]);
    let merge = write_commit(&raw, &[child, other], &[("a.txt", "a")]);

    let (old_tree, new_tree) = repo.get_patch_trees_for_commit(&find(&repo, child)).unwrap().unwrap();
    assert_eq!(
        old_tree.unwrap().get_oid().to_hex_string(),
        write_tree(&raw, &[("d/b.txt", "b")]).to_string()
    );
    assert_eq!(
        new_tree.get_oid().to_hex_string(),
        write_tree(&raw, &[("d/b.txt", "b2")]).to_string()
    );
    let (old_tree, new_tree) = repo.get_patch_trees_for_commit(&find(&repo, root)).unwrap().unwrap();
    assert!(old_tree.is_none());
    assert_eq!(
        new_tree.get_oid().to_hex_string(),
        find(&repo, root).get_tree().get_oid().to_hex_string()
    );
    assert!(repo.get_patch_trees_for_commit(&find(&repo, merge)).unwrap().is_none());
}

#[test]
fn amend_from_the_working_copy_takes_a_renamed_file_at_both_paths() {
    let (raw, repo) = open("amend_rename");
    let root = write_commit(&raw, &[], &[("keep.txt", "k"), ("old.txt", "o")]);
    let commit = write_commit(&raw, &[root], &[("keep.txt", "k2"), ("old.txt", "o")]);
    put_in_working_copy(&raw, &[("new.txt", "o")]);
    let entry = StatusEntry {
        index_status: FileStatus::Renamed,
        working_copy_status: FileStatus::Unmodified,
        working_copy_file_mode: FileMode::Blob,
        path: b"new.txt".to_vec(),
        orig_path: Some(b"old.txt".to_vec()),
    };
    let tree = repo
        .amend_fast(
            &find(&repo, commit),
            &AmendFastOptions::FromWorkingCopy { status_entries: vec![entry] },
        )
        .unwrap();
    assert_eq!(
        tree.get_oid().to_hex_string(),
        write_tree(&raw, &[("keep.txt", "k2"), ("new.txt", "o")]).to_string()
    );
    assert!(AmendFastOptions::FromIndex { paths: vec![] }.is_empty());
    assert!(!AmendFastOptions::FromIndex { paths: vec![b"x".to_vec()] }.is_empty());
    assert!(AmendFastOptions::FromWorkingCopy { status_entries: vec![] }.is_empty());
}

#[test]
fn a_tree_with_one_name_twice_is_malformed() {
    let (raw, repo) = open("malformed_tree");
    let blob = raw.blob(b"x").unwrap();
    let mut bytes: Vec<u8> = Vec::new();
    for _ in 0..2 {
        bytes.extend_from_slice(b"100644 twice\0");
        bytes.extend_from_slice(blob.as_bytes());
    }
    let tree = raw.odb().unwrap().write(git2::ObjectType::Tree, &bytes).unwrap();
    let tree = Tree { oid: non_zero(tree) };
    assert!(matches!(
        repo.get_changed_paths_between_trees(None, Some(&tree)),
        Err(RepoError::MalformedTree)
    ));
    assert!(matches!(
        repo.dehydrate_tree(&tree, &path_set(&["twice"])),
        Err(RepoError::MalformedTree)
    ));
    assert!(matches!(
        repo.hydrate_tree(Some(&tree), &PathMap::new()),
        Err(RepoError::MalformedTree)
    ));
}

#[test]
fn trees_nested_too_deeply_are_refused() {
    let (raw, repo) = open("deep_tree");
    let blob = raw.blob(b"x").unwrap();
    let mut builder = raw.treebuilder(None).unwrap();
    builder.insert("leaf", blob, 0o100644).unwrap();
    let mut tree = builder.write().unwrap();
    for _ in 0..1100 {
        let mut builder = raw.treebuilder(None).unwrap();
        builder.insert("d", tree, 0o040000).unwrap();
        tree = builder.write().unwrap();
    }
    let deep = Tree { oid: non_zero(tree) };
    assert!(matches!(
        repo.get_changed_paths_between_trees(None, Some(&deep)),
        Err(RepoError::TooDeep)
    ));
    assert!(repo.get_changed_paths_between_trees(Some(&deep), Some(&deep)).unwrap().is_empty());
}

#[test]
fn a_commit_with_the_zero_id_for_its_tree_is_refused() {
    let (raw, repo) = open("zero_tree");
    let text = "tree 0000000000000000000000000000000000000000\n\
                author A <a@example.com> 0 +0000\n\
                committer A <a@example.com> 0 +0000\n\nmessage\n";
    let commit = raw.odb().unwrap().write(git2::ObjectType::Commit, text.as_bytes()).unwrap();
    assert!(matches!(repo.find_commit(non_zero(commit)), Err(RepoError::ZeroOid)));
}

#[test]
fn amend_needs_a_working_copy() {
    let path = "/tmp/branchless-tests/bare_repository";
    let raw = git2::Repository::init_bare(path).unwrap();
    let repo = Repo::from_dir(path).unwrap();
    let root = write_commit(&raw, &[], &[("a.txt", "a")]);
    let commit = write_commit(&raw, &[root], &[("a.txt", "a2")]);
    assert!(repo.get_working_copy_path().is_none());
    assert!(matches!(
        repo.amend_fast(
            &find(&repo, commit),
            &AmendFastOptions::FromIndex { paths: vec![b"a.txt".to_vec()] }
        ),
        Err(RepoError::NoWorkingCopy)
    ));
}

#[test]
fn a_path_that_begins_with_a_separator_names_nothing_in_a_tree() {
    let (raw, repo) = open("leading_separator");
    let tree = Tree { oid: non_zero(write_tree(&raw, &[("a/b.txt", "b")])) };
    assert!(matches!(repo.get_tree_entry(&tree, b"/a/b.txt"), Err(RepoError::InvalidPath)));
    assert!(matches!(
        repo.dehydrate_tree(&tree, &path_set(&["a/b.txt", "/x"])),
        Err(RepoError::InvalidPath)
    ));
    assert!(repo.get_tree_entry(&tree, b"a/b.txt").unwrap().is_some());
    assert_eq!(repo.get_tree_entry(&tree, b"a").unwrap().unwrap().mode, FileMode::Tree);
    assert!(repo.get_tree_entry(&tree, b"a/none").unwrap().is_none());
    assert!(repo.get_tree_entry(&tree, b"").unwrap().is_none());
}

#[test]
fn changed_paths_against_no_tree_are_leaves_of_one_tree() {
    let (raw, repo) = open("changed_paths_leaves");
    let tree = Tree {
        oid: non_zero(write_tree(&raw, &[("a/b/c.txt", "c"), ("a/d.txt", "d"), ("e.txt", "e")])),
    };
    let paths = sorted(&repo.get_changed_paths_between_trees(None, Some(&tree)).unwrap());
    assert_eq!(paths, vec!["a/b/c.txt".to_string(), "a/d.txt".to_string(), "e.txt".to_string()]);
    for p in &paths {
        for q in &paths {
            assert!(!q.starts_with(&format!("{}/", p)));
        }
    }
}

#[test]
fn a_path_nested_too_deeply_is_not_written() {
    let (raw, repo) = open("deep_write");
    let base = Tree { oid: non_zero(write_tree(&raw, &[("a.txt", "a")])) };
    let entry = branchless::entry::TreeEntry {
        oid: non_zero(raw.blob(b"deep").unwrap()),
        mode: FileMode::Blob,
    };
    let deep = vec!["d"; 1100].join("/");
    let mut overrides = PathMap::new();
    overrides.insert(deep.as_bytes(), Some(entry));
    assert!(matches!(repo.hydrate_tree(Some(&base), &overrides), Err(RepoError::TooDeep)));
    let fine = vec!["d"; 200].join("/");
    let mut overrides = PathMap::new();
    overrides.insert(fine.as_bytes(), Some(entry));
    let oid = repo.hydrate_tree(Some(&base), &overrides).unwrap();
    assert_eq!(
        oid.to_hex_string(),
        write_tree(&raw, &[("a.txt", "a"), (fine.as_str(), "deep")]).to_string()
    );
}

#[test]
fn the_id_of_a_written_tree_goes_by_its_leaves_alone() {
    let (raw, repo) = open("written_id");
    let blob_a = branchless::entry::TreeEntry {
        oid: non_zero(raw.blob(b"a").unwrap()),
        mode: FileMode::Blob,
    };
    let blob_b = branchless::entry::TreeEntry {
        oid: non_zero(raw.blob(b"b").unwrap()),
        mode: FileMode::BlobExecutable,
    };
    let mut one = branchless::sparse::SparseTree::empty();
    assert!(one.try_insert(b"x/a", blob_a));
    assert!(one.try_insert(b"b", blob_b));
    assert!(one.try_insert(b"x/y/a", blob_a));
    let mut other = branchless::sparse::SparseTree::empty();
    assert!(other.try_insert(b"x/y/a", blob_a));
    assert!(other.try_insert(b"b", blob_b));
    assert!(other.try_insert(b"x/a", blob_a));
    let id = repo.write_tree(&one).unwrap();
    assert_eq!(id.to_hex_string(), repo.write_tree(&other).unwrap().to_hex_string());
    let mut update = git2::build::TreeUpdateBuilder::new();
    update.upsert("x/a", raw.blob(b"a").unwrap(), git2::FileMode::Blob);
    update.upsert("x/y/a", raw.blob(b"a").unwrap(), git2::FileMode::Blob);
    update.upsert("b", raw.blob(b"b").unwrap(), git2::FileMode::BlobExecutable);
    let empty = raw.find_tree(raw.treebuilder(None).unwrap().write().unwrap()).unwrap();
    assert_eq!(id.to_hex_string(), update.create_updated(&raw, &empty).unwrap().to_string());
    assert_eq!(
        repo.write_tree(&branchless::sparse::SparseTree::empty()).unwrap().to_hex_string(),
        EMPTY_TREE
    );
}
