use branchless::entry::{FileMode, TreeEntry};
use branchless::index::{
    collect_conflicting_paths, merge_outcome, merged_entry, merged_overrides,
    working_copy_override, zero_id_paths, IndexEntry,
};
use branchless::store::RawConflict;

use branchless::oid::{MaybeZeroOid, NonZeroOid};
use branchless::path::{check_entry_name, child_path, first_end, is_ancestor_of, split_first, PathSet};
use branchless::pathmap::PathMap;
use branchless::repo::{amend_changed_paths, amend_outcome, amended_overrides, path_touched, AmendFastOptions};
use branchless::status::{FileStatus, StatusEntry};
use branchless::sparse::{dehydrate, get_changed_paths, hydrate, SparseTree};

fn oid(n: u8) -> NonZeroOid {
    let mut bytes = [0u8; 20];
    bytes[19] = n;
    match MaybeZeroOid::from_bytes(bytes) {
        MaybeZeroOid::NonZero(oid) => oid,
        MaybeZeroOid::Zero => panic!("zero id"),
    }
}

fn blob(n: u8) -> TreeEntry {
    TreeEntry { oid: oid(n), mode: FileMode::Blob }
}

fn tree(leaves: &[(&str, TreeEntry)]) -> SparseTree {
    let mut tree = SparseTree::empty();
    for (path, entry) in leaves {
        assert!(tree.try_insert(path.as_bytes(), *entry));
    }
    tree
}

fn leaves(tree: &SparseTree) -> Vec<(String, String, FileMode)> {
    let mut out: Vec<(String, String, FileMode)> = tree
        .to_items()
        .into_iter()
        .map(|item| {
            (
                String::from_utf8(item.name).unwrap(),
                item.entry.oid.to_hex_string(),
                item.entry.mode,
            )
        })
        .collect();
    out.sort_by(|a, b| a.0.cmp(&b.0));
    out
}

fn paths(set: &PathSet) -> Vec<String> {
    let mut out: Vec<String> =
        set.to_vec().into_iter().map(|p| String::from_utf8(p).unwrap()).collect();
    out.sort();
    out
}

fn set(paths: &[&str]) -> PathSet {
    let mut out = PathSet::new();
    for path in paths {
        out.insert(path.as_bytes());
    }
    out
}

#[test]
fn a_tree_does_not_differ_from_itself() {
    let t = tree(&[("a/b", blob(1)), ("c", blob(2))]);
    assert!(get_changed_paths(Some(&t), Some(&t)).is_empty());
    assert!(get_changed_paths(None, None).is_empty());
}

#[test]
fn against_nothing_every_path_is_changed() {
    let t = tree(&[("a/b", blob(1)), ("c", blob(2))]);
    assert_eq!(paths(&get_changed_paths(None, Some(&t))), vec!["a/b", "c"]);
    assert_eq!(paths(&get_changed_paths(Some(&t), None)), vec!["a/b", "c"]);
}

#[test]
fn changed_paths_are_where_entries_differ() {
    let old = tree(&[("same", blob(1)), ("content", blob(2)), ("mode", blob(3)), ("gone", blob(4))]);
    let executable = TreeEntry { oid: oid(3), mode: FileMode::BlobExecutable };
    let new = tree(&[("same", blob(1)), ("content", blob(9)), ("mode", executable), ("added", blob(5))]);
    assert_eq!(paths(&get_changed_paths(Some(&old), Some(&new))), vec!["added", "content", "gone", "mode"]);
}

#[test]
fn dehydrated_tree_holds_exactly_the_requested_leaves() {
    let t = tree(&[("a/b", blob(1)), ("a/c", blob(2)), ("d", blob(3))]);
    let kept = dehydrate(&t, &set(&["a/b", "d", "missing", "a"]));
    assert_eq!(
        leaves(&kept),
        vec![
            ("a/b".to_string(), oid(1).to_hex_string(), FileMode::Blob),
            ("d".to_string(), oid(3).to_hex_string(), FileMode::Blob),
        ]
    );
    assert_eq!(dehydrate(&t, &set(&[])).len(), 0);
}

#[test]
fn hydrating_with_nothing_changes_nothing() {
    let t = tree(&[("a/b", blob(1)), ("c", blob(2))]);
    assert_eq!(leaves(&hydrate(Some(&t), &PathMap::new())), leaves(&t));
    assert_eq!(hydrate(None, &PathMap::new()).len(), 0);
}

#[test]
fn hydrating_sets_deletes_and_keeps() {
    let t = tree(&[("a/b", blob(1)), ("a/c", blob(2)), ("d", blob(3))]);
    let mut overrides = PathMap::new();
    overrides.insert(b"a/b", Some(blob(7)));
    overrides.insert(b"d", None);
    overrides.insert(b"new/file", Some(blob(8)));
    overrides.insert(b"absent", None);
    assert_eq!(
        leaves(&hydrate(Some(&t), &overrides)),
        vec![
            ("a/b".to_string(), oid(7).to_hex_string(), FileMode::Blob),
            ("a/c".to_string(), oid(2).to_hex_string(), FileMode::Blob),
            ("new/file".to_string(), oid(8).to_hex_string(), FileMode::Blob),
        ]
    );
}

#[test]
fn hydrating_turns_a_file_into_a_directory_and_back() {
    let t = tree(&[("a", blob(1)), ("d/x", blob(2)), ("d/y", blob(3))]);
    let mut overrides = PathMap::new();
    overrides.insert(b"a/inner", Some(blob(7)));
    overrides.insert(b"d", Some(blob(8)));
    assert_eq!(
        leaves(&hydrate(Some(&t), &overrides)),
        vec![
            ("a/inner".to_string(), oid(7).to_hex_string(), FileMode::Blob),
            ("d".to_string(), oid(8).to_hex_string(), FileMode::Blob),
        ]
    );
}

#[test]
fn deleting_below_a_file_leaves_the_file() {
    let t = tree(&[("a", blob(1))]);
    let mut overrides = PathMap::new();
    overrides.insert(b"a/inner", None);
    assert_eq!(leaves(&hydrate(Some(&t), &overrides)), leaves(&t));
}

#[test]
fn an_override_below_another_makes_the_other_a_directory() {
    let t = tree(&[("a/x", blob(1)), ("a/y", blob(2))]);
    let mut overrides = PathMap::new();
    overrides.insert(b"a", Some(blob(7)));
    overrides.insert(b"a/x", Some(blob(8)));
    assert_eq!(
        leaves(&hydrate(Some(&t), &overrides)),
        vec![("a/x".to_string(), oid(8).to_hex_string(), FileMode::Blob)]
    );
}

#[test]
fn putting_back_what_was_dehydrated_gives_the_tree() {
    let t = tree(&[("a/b", blob(1)), ("a/c", blob(2)), ("d", blob(3))]);
    let requested = ["a/b", "d", "nowhere", "a/b/below"];
    let kept = dehydrate(&t, &set(&requested));
    let mut overrides = PathMap::new();
    for path in requested {
        overrides.insert(path.as_bytes(), kept.get(path.as_bytes()));
    }
    assert_eq!(leaves(&hydrate(Some(&t), &overrides)), leaves(&t));
}

#[test]
fn a_leaf_cannot_lie_below_or_above_another() {
    let mut t = tree(&[("a/b", blob(1))]);
    assert!(!t.try_insert(b"a", blob(2)));
    assert!(!t.try_insert(b"a/b/c", blob(2)));
    assert!(!t.try_insert(b"a/b", blob(2)));
    assert!(t.try_insert(b"a/bc", blob(2)));
    assert!(t.try_insert(b"ab", blob(3)));
    assert_eq!(t.len(), 3);
    t.remove(b"a/b");
    assert!(t.get(b"a/b").is_none());
    assert!(t.try_insert(b"a/b/c", blob(2)));
}

#[test]
fn path_relations() {
    assert!(is_ancestor_of(b"a", b"a/b"));
    assert!(is_ancestor_of(b"a/b", b"a/b/c"));
    assert!(!is_ancestor_of(b"a", b"ab"));
    assert!(!is_ancestor_of(b"a", b"a"));
    assert!(!is_ancestor_of(b"a/b", b"a"));
    assert_eq!(child_path(b"", b"name"), b"name".to_vec());
    assert_eq!(child_path(b"a/b", b"name"), b"a/b/name".to_vec());
    assert_eq!(first_end(b"ab/c"), 2);
    assert_eq!(first_end(b"abc"), 3);
    assert_eq!(first_end(b""), 0);
    assert!(check_entry_name(b"file.txt"));
    assert!(!check_entry_name(b""));
    assert!(!check_entry_name(b"a/b"));
    assert!(!check_entry_name(b"a\0b"));
    assert_eq!(split_first(b"a/b/c"), (b"a".to_vec(), Some(b"b/c".to_vec())));
    assert_eq!(split_first(b"abc"), (b"abc".to_vec(), None));
    assert_eq!(split_first(b"/x"), (b"".to_vec(), Some(b"x".to_vec())));
    assert_eq!(split_first(b"x/"), (b"x".to_vec(), Some(b"".to_vec())));
}

#[test]
fn the_root_of_a_tree_has_the_first_components_as_its_entries() {
    let t = tree(&[("b/x", blob(1)), ("top", blob(2)), ("a/y/z", blob(3)), ("b/w", blob(4))]);
    assert_eq!(paths(&t.heads().unwrap()), vec!["a", "b", "top"]);
    assert_eq!(
        leaves(&t.subtree(b"b")),
        vec![
            ("w".to_string(), oid(4).to_hex_string(), FileMode::Blob),
            ("x".to_string(), oid(1).to_hex_string(), FileMode::Blob),
        ]
    );
    assert_eq!(
        leaves(&t.subtree(b"a")),
        vec![("y/z".to_string(), oid(3).to_hex_string(), FileMode::Blob)]
    );
    assert_eq!(t.subtree(b"top").len(), 0);
    assert_eq!(t.subtree(b"t").len(), 0);
    assert_eq!(t.subtree(b"nowhere").len(), 0);
    assert!(SparseTree::empty().heads().unwrap().is_empty());
    for bad in ["/x", "x/", ""] {
        let mut t = SparseTree::empty();
        assert!(t.try_insert(bad.as_bytes(), blob(1)));
        assert!(t.heads().is_none());
    }
}

#[test]
fn path_map_keeps_the_last_value_of_a_key() {
    let mut map: PathMap<u8> = PathMap::new();
    assert!(map.is_empty());
    map.insert(b"a", 1);
    map.insert(b"b", 2);
    map.insert(b"a", 3);
    assert_eq!(map.len(), 2);
    assert_eq!(map.get(b"a"), Some(3));
    assert_eq!(map.get(b"b"), Some(2));
    assert_eq!(map.get(b"c"), None);
    assert!(map.contains(b"b"));
    map.remove(b"a");
    map.remove(b"nothing");
    assert_eq!(map.len(), 1);
    assert_eq!(map.get(b"a"), None);
    assert_eq!(map.key_at(0), &b"b".to_vec());
    assert_eq!(map.value_at(0), 2);
}

#[test]
fn path_set_holds_each_path_once() {
    let mut a = set(&["x", "y", "x"]);
    assert_eq!(a.len(), 2);
    a.extend(&set(&["y", "z"]));
    assert_eq!(paths(&a), vec!["x", "y", "z"]);
    assert!(a.contains(b"z"));
    assert!(!a.contains(b"w"));
}

#[test]
fn writing_the_changes_into_the_old_tree_gives_the_new_tree() {
    let old = tree(&[("a", blob(1)), ("d/x", blob(2)), ("d/y", blob(3)), ("same/s", blob(4))]);
    let new = tree(&[("a/inner", blob(5)), ("d", blob(6)), ("same/s", blob(4)), ("new", blob(7))]);
    let changed = get_changed_paths(Some(&old), Some(&new));
    assert_eq!(paths(&changed), vec!["a", "a/inner", "d", "d/x", "d/y", "new"]);
    let mut overrides = PathMap::new();
    for path in changed.to_vec() {
        overrides.insert(&path, new.get(&path));
    }
    assert_eq!(leaves(&hydrate(Some(&old), &overrides)), leaves(&new));
}

#[test]
fn trees_cut_down_to_their_changes_differ_as_the_whole_trees_do() {
    let old = tree(&[("a", blob(1)), ("b", blob(2)), ("c/d", blob(3))]);
    let new = tree(&[("a", blob(1)), ("b", blob(9)), ("c/e", blob(3))]);
    let changed = get_changed_paths(Some(&old), Some(&new));
    let cut = get_changed_paths(Some(&dehydrate(&old, &changed)), Some(&dehydrate(&new, &changed)));
    assert_eq!(paths(&cut), paths(&changed));
    assert_eq!(paths(&cut), vec!["b", "c/d", "c/e"]);
}

fn staged(n: u8) -> IndexEntry {
    IndexEntry { oid: MaybeZeroOid::NonZero(oid(n)), file_mode: FileMode::Blob }
}

fn zero() -> IndexEntry {
    IndexEntry { oid: MaybeZeroOid::Zero, file_mode: FileMode::Blob }
}

#[test]
fn an_index_entry_with_the_zero_id_stands_for_nothing() {
    assert!(merged_entry(None).is_none());
    assert!(merged_entry(Some(zero())).is_none());
    assert!(merged_entry(Some(staged(3))).unwrap().equals(&blob(3)));
    assert!(zero().to_tree_entry().is_none());
    let mut found = PathMap::new();
    found.insert(b"gone", None);
    found.insert(b"zero", Some(zero()));
    found.insert(b"kept", Some(staged(3)));
    found.insert(b"d/zero", Some(zero()));
    assert_eq!(paths(&zero_id_paths(&found)), vec!["d/zero", "zero"]);
    assert!(zero_id_paths(&PathMap::new()).is_empty());
    assert!(working_copy_override(None, FileMode::Blob).is_none());
    let entry = working_copy_override(Some(oid(4)), FileMode::BlobExecutable).unwrap();
    assert!(entry.oid.equals(&oid(4)));
    assert_eq!(entry.mode, FileMode::BlobExecutable);
}

#[test]
fn a_merge_with_conflicts_comes_to_the_paths_in_conflict() {
    let conflicts = vec![
        RawConflict { ancestor: Some(b"a".to_vec()), our: Some(b"a".to_vec()), their: Some(b"b".to_vec()) },
        RawConflict { ancestor: None, our: Some(b"c".to_vec()), their: None },
        RawConflict { ancestor: None, our: None, their: None },
    ];
    assert_eq!(paths(&collect_conflicting_paths(&conflicts)), vec!["a", "b", "c"]);
    let target = tree(&[("a", blob(1))]);
    match merge_outcome(true, &conflicts, &PathMap::new(), &target) {
        Err(named) => assert_eq!(paths(&named), vec!["a", "b", "c"]),
        Ok(_) => panic!("no conflict"),
    }
    match merge_outcome(true, &vec![], &PathMap::new(), &target) {
        Err(named) => assert!(named.is_empty()),
        Ok(_) => panic!("no conflict"),
    }
}

#[test]
fn a_merge_without_conflicts_comes_to_the_target_with_what_the_merge_holds() {
    let target = tree(&[("a", blob(1)), ("b", blob(2)), ("c", blob(3)), ("d", blob(4))]);
    let mut found = PathMap::new();
    found.insert(b"a", Some(staged(9)));
    found.insert(b"b", None);
    found.insert(b"c", Some(zero()));
    found.insert(b"e/f", Some(staged(8)));
    let overrides = merged_overrides(&found);
    assert_eq!(overrides.len(), 4);
    assert!(overrides.get(b"a").unwrap().unwrap().equals(&blob(9)));
    assert!(overrides.get(b"b").unwrap().is_none());
    assert!(overrides.get(b"c").unwrap().is_none());
    match merge_outcome(false, &vec![], &found, &target) {
        Ok(merged) => assert_eq!(
            leaves(&merged),
            vec![
                ("a".to_string(), oid(9).to_hex_string(), FileMode::Blob),
                ("d".to_string(), oid(4).to_hex_string(), FileMode::Blob),
                ("e/f".to_string(), oid(8).to_hex_string(), FileMode::Blob),
            ]
        ),
        Err(_) => panic!("conflict"),
    }
}

#[test]
fn an_amend_rewrites_what_the_commit_touches_and_what_is_asked_for() {
    let touched = set(&["a", "b"]);
    let by_index = AmendFastOptions::FromIndex { paths: vec![b"b".to_vec(), b"c".to_vec()] };
    assert_eq!(paths(&amend_changed_paths(&touched, &by_index)), vec!["a", "b", "c"]);
    let entry = StatusEntry {
        index_status: FileStatus::Renamed,
        working_copy_status: FileStatus::Unmodified,
        working_copy_file_mode: FileMode::Blob,
        path: b"new".to_vec(),
        orig_path: Some(b"old".to_vec()),
    };
    let by_status = AmendFastOptions::FromWorkingCopy { status_entries: vec![entry] };
    assert_eq!(paths(&amend_changed_paths(&touched, &by_status)), vec!["a", "b", "new", "old"]);
    let nothing = AmendFastOptions::FromIndex { paths: vec![] };
    assert_eq!(paths(&amend_changed_paths(&touched, &nothing)), vec!["a", "b"]);
}

#[test]
fn an_amend_keeps_what_the_request_does_not_give() {
    let commit = tree(&[("a", blob(1)), ("b", blob(2)), ("c", blob(3)), ("d/e", blob(4))]);
    let changed = set(&["a", "b", "c", "gone", "new"]);
    let parent = dehydrate(&commit, &changed);
    let mut requested = PathMap::new();
    requested.insert(b"b", Some(blob(9)));
    requested.insert(b"c", None);
    requested.insert(b"new", Some(blob(8)));
    requested.insert(b"elsewhere", Some(blob(7)));
    let overrides = amended_overrides(&changed, &requested, &parent);
    assert_eq!(overrides.len(), 5);
    assert!(overrides.get(b"a").unwrap().unwrap().equals(&blob(1)));
    assert!(overrides.get(b"b").unwrap().unwrap().equals(&blob(9)));
    assert!(overrides.get(b"c").unwrap().is_none());
    assert!(overrides.get(b"gone").unwrap().is_none());
    assert!(overrides.get(b"elsewhere").is_none());
    assert_eq!(
        leaves(&amend_outcome(&commit, &changed, &requested, &parent)),
        vec![
            ("a".to_string(), oid(1).to_hex_string(), FileMode::Blob),
            ("b".to_string(), oid(9).to_hex_string(), FileMode::Blob),
            ("d/e".to_string(), oid(4).to_hex_string(), FileMode::Blob),
            ("new".to_string(), oid(8).to_hex_string(), FileMode::Blob),
        ]
    );
}

#[test]
fn a_path_is_touched_where_the_ids_differ() {
    assert!(!path_touched(None, None));
    assert!(path_touched(Some(oid(1)), None));
    assert!(path_touched(None, Some(oid(1))));
    assert!(path_touched(Some(oid(1)), Some(oid(2))));
    assert!(!path_touched(Some(oid(1)), Some(oid(1))));
}
