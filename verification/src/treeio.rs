use vstd::prelude::*;
use crate::bytes::copy_range;
use crate::entry::{FileMode, TreeEntry, MODE_TREE};
use crate::error::RepoError;
use crate::layout::{can_lay_out, TreeItem};
use crate::oid::{MaybeZeroOid, NonZeroOid};
use crate::path::{
    check_entry_name, child_path, first_end, is_ancestor, is_entry_name, is_entry_path,
    lemma_child_is_entry_path, spec_child_path, PathSet,
    SEPARATOR,
};
use crate::sparse::{
    open_along, override_kept, spec_dehydrate, spec_heads, spec_hydrate, spec_subtree, SparseTree,
};
use crate::store::{
    git_discover, git_tree_items, git_write_tree, raw_entries, spec_tree_id, RawTreeItem,
};

verus! {

/// How deeply nested the directories of a tree may be for this library to
/// follow them.
pub const MAX_TREE_DEPTH: usize = 1024;

/// A tree object of the store, known by its id.
#[derive(Clone, Copy, Debug)]
pub struct Tree {
    pub oid: NonZeroOid,
}

impl Tree {
    pub fn get_oid(&self) -> (res: NonZeroOid)
        ensures
            res == self.oid,
    {
        self.oid
    }
}

/// Whether `i` is the place of the first item named `name`.
pub open spec fn is_first_named(items: Seq<TreeItem>, name: Seq<u8>, i: int) -> bool {
    &&& 0 <= i < items.len()
    &&& items[i].name@ == name
    &&& forall|h: int| 0 <= h < i ==> (#[trigger] items[h]).name@ != name
}

/// What the first item named `name` holds, if there is an item of that
/// name.
pub open spec fn spec_entry_named(items: Seq<TreeItem>, name: Seq<u8>) -> Option<TreeEntry> {
    if exists|i: int| is_first_named(items, name, i) {
        Some(items[choose|i: int| is_first_named(items, name, i)].entry)
    } else {
        None
    }
}

/// What the first item named `name` holds, if there is an item of that
/// name.
pub fn entry_named(items: &Vec<TreeItem>, name: &[u8]) -> (res: Option<TreeEntry>)
    ensures
        res == spec_entry_named(items@, name@),
{
    let mut i: usize = 0;
    while i < items.len()
        invariant
            i <= items@.len(),
            forall|h: int| 0 <= h < i ==> (#[trigger] items@[h]).name@ != name@,
        decreases items.len() - i,
    {
        if crate::bytes::bytes_eq(items[i].name.as_slice(), name) {
            proof {
                assert(is_first_named(items@, name@, i as int));
                let c = choose|c: int| is_first_named(items@, name@, c);
                if c < i {
                    assert(items@[c].name@ != name@);
                }
                if i < c {
                    assert(items@[i as int].name@ != name@);
                }
            }
            return Some(items[i].entry);
        }
        i += 1;
    }
    proof {
        assert forall|c: int| !is_first_named(items@, name@, c) by {
            if is_first_named(items@, name@, c) {
                assert(items@[c].name@ != name@);
            }
        }
    }
    None
}

/// What is to be done for one name of a directory.
pub struct NamedChange {
    pub name: Vec<u8>,
    pub change: LevelChange,
}

/// The name and the change of each element.
pub open spec fn change_views(changes: Seq<NamedChange>) -> Seq<(Seq<u8>, LevelChange)> {
    Seq::new(changes.len(), |i: int| (changes[i].name@, changes[i].change))
}

/// What is to be done for the names that the new directory alone holds:
/// for each of its entries under a name that the old directory does not
/// hold, in their order, the change from nothing to that entry.
pub open spec fn spec_new_only(old_items: Seq<TreeItem>, new_items: Seq<TreeItem>) -> Seq<
    (Seq<u8>, LevelChange),
>
    decreases new_items.len(),
{
    if new_items.len() == 0 {
        Seq::empty()
    } else {
        let rest = spec_new_only(old_items, new_items.drop_last());
        let last = new_items.last();
        if spec_entry_named(old_items, last.name@) is None {
            rest.push((last.name@, spec_level_change(None, Some(last.entry))))
        } else {
            rest
        }
    }
}

/// What is to be done for each name when two directories are read side
/// by side: for each entry of the old directory, in their order, the
/// change from that entry to what the new directory holds under its
/// name; then what is to be done for the names that the new directory
/// alone holds.
pub open spec fn spec_pair_entries(old_items: Seq<TreeItem>, new_items: Seq<TreeItem>) -> Seq<
    (Seq<u8>, LevelChange),
> {
    Seq::new(
        old_items.len(),
        |i: int|
            (
                old_items[i].name@,
                spec_level_change(
                    Some(old_items[i].entry),
                    spec_entry_named(new_items, old_items[i].name@),
                ),
            ),
    ) + spec_new_only(old_items, new_items)
}

/// Nothing of an old directory is touched by what the new directory alone
/// holds.
pub proof fn lemma_new_only_sides(old_items: Seq<TreeItem>, new_items: Seq<TreeItem>, k: int)
    requires
        0 <= k < spec_new_only(old_items, new_items).len(),
    ensures
        spec_new_only(old_items, new_items)[k].1.old_leaf is None,
        !spec_new_only(old_items, new_items)[k].1.reads_old(),
    decreases new_items.len(),
{
    if new_items.len() > 0 {
        let rest = spec_new_only(old_items, new_items.drop_last());
        if k < rest.len() {
            lemma_new_only_sides(old_items, new_items.drop_last(), k);
        }
    }
}

/// Where one of two directories holds nothing, no change touches its
/// side.
pub proof fn lemma_pair_sides(old_items: Seq<TreeItem>, new_items: Seq<TreeItem>, k: int)
    requires
        0 <= k < spec_pair_entries(old_items, new_items).len(),
    ensures
        old_items.len() == 0 ==> spec_pair_entries(old_items, new_items)[k].1.old_leaf is None
            && !spec_pair_entries(old_items, new_items)[k].1.reads_old(),
        new_items.len() == 0 ==> spec_pair_entries(old_items, new_items)[k].1.new_leaf is None
            && !spec_pair_entries(old_items, new_items)[k].1.reads_new(),
{
    if old_items.len() == 0 {
        assert(spec_pair_entries(old_items, new_items) =~= spec_new_only(old_items, new_items));
        lemma_new_only_sides(old_items, new_items, k);
    }
    if new_items.len() == 0 {
        assert(spec_new_only(old_items, new_items) =~= Seq::<(Seq<u8>, LevelChange)>::empty());
        assert(spec_entry_named(new_items, old_items[k].name@) is None);
    }
}

/// What is to be done for each name when two directories are read side
/// by side.
pub fn pair_entries(old_items: &Vec<TreeItem>, new_items: &Vec<TreeItem>) -> (res: Vec<NamedChange>)
    ensures
        change_views(res@) == spec_pair_entries(old_items@, new_items@),
{
    let mut out: Vec<NamedChange> = Vec::new();
    let ghost old_part = Seq::new(
        old_items@.len(),
        |i: int|
            (
                old_items@[i].name@,
                spec_level_change(
                    Some(old_items@[i].entry),
                    spec_entry_named(new_items@, old_items@[i].name@),
                ),
            ),
    );
    let mut i: usize = 0;
    while i < old_items.len()
        invariant
            i <= old_items@.len(),
            change_views(out@) == old_part.subrange(0, i as int),
            old_part.len() == old_items@.len(),
            forall|j: int|
                0 <= j < old_part.len() ==> old_part[j] == (
                    old_items@[j].name@,
                    spec_level_change(
                        Some(old_items@[j].entry),
                        spec_entry_named(new_items@, old_items@[j].name@),
                    ),
                ),
        decreases old_items.len() - i,
    {
        let theirs = entry_named(new_items, old_items[i].name.as_slice());
        let change = level_change(Some(old_items[i].entry), theirs);
        let ghost before = change_views(out@);
        out.push(NamedChange { name: crate::bytes::copy_bytes(old_items[i].name.as_slice()), change });
        assert(change_views(out@) =~= before.push(old_part[i as int]));
        assert(change_views(out@) =~= old_part.subrange(0, i as int + 1));
        i += 1;
    }
    assert(old_part.subrange(0, old_items@.len() as int) =~= old_part);
    let mut j: usize = 0;
    assert(new_items@.subrange(0, 0) =~= Seq::<TreeItem>::empty());
    assert(change_views(out@) =~= old_part + spec_new_only(
        old_items@,
        new_items@.subrange(0, 0),
    ));
    while j < new_items.len()
        invariant
            j <= new_items@.len(),
            change_views(out@) == old_part + spec_new_only(
                old_items@,
                new_items@.subrange(0, j as int),
            ),
        decreases new_items.len() - j,
    {
        let ghost before = change_views(out@);
        proof {
            let upto = new_items@.subrange(0, j as int + 1);
            assert(upto.drop_last() =~= new_items@.subrange(0, j as int));
            assert(upto.last() == new_items@[j as int]);
        }
        if entry_named(old_items, new_items[j].name.as_slice()).is_none() {
            let change = level_change(None, Some(new_items[j].entry));
            out.push(
                NamedChange { name: crate::bytes::copy_bytes(new_items[j].name.as_slice()), change },
            );
            assert(change_views(out@) =~= before.push((new_items@[j as int].name@, change)));
            assert(change_views(out@) =~= old_part + spec_new_only(
                old_items@,
                new_items@.subrange(0, j as int + 1),
            ));
        }
        j += 1;
    }
    assert(new_items@.subrange(0, new_items@.len() as int) =~= new_items@);
    out
}

/// The id of the tree object that holds the leaves of a tree, each at
/// its path: the id of the tree object whose entries are the leaves at
/// paths of one component, as they are, and, for each other first
/// component, the directory of what lies inside it, written in the same
/// way. `fuel` bounds how deep the directories go.
pub open spec fn spec_level_id(tree: Map<Seq<u8>, TreeEntry>, fuel: nat) -> Seq<u8>
    decreases fuel, 1nat,
{
    spec_tree_id(spec_level_entries(tree, fuel))
}

/// The entries of the root of a tree as they are written: each leaf at a
/// path of one component as it is, and each other first component as the
/// directory of what lies inside it.
pub open spec fn spec_level_entries(tree: Map<Seq<u8>, TreeEntry>, fuel: nat) -> Map<
    Seq<u8>,
    (Seq<u8>, i32),
>
    decreases fuel, 0nat,
{
    Map::new(
        |name: Seq<u8>| spec_heads(tree).contains(name),
        |name: Seq<u8>|
            if tree.contains_key(name) || fuel == 0 {
                (tree[name].oid@, tree[name].mode.spec_to_i32())
            } else {
                (spec_level_id(spec_subtree(tree, name), (fuel - 1) as nat), MODE_TREE)
            },
    )
}

/// The id under which a tree held in memory is written to the store.
pub open spec fn spec_written_id(tree: Map<Seq<u8>, TreeEntry>) -> Seq<u8> {
    spec_level_id(tree, MAX_TREE_DEPTH as nat)
}

/// A tree without leaves is written under the id of the tree object
/// without entries: where the last leaf of a tree goes, the empty tree
/// object is what is left.
pub proof fn law_empty_tree_is_written_as_the_empty_tree_object()
    ensures
        spec_written_id(Map::empty()) == spec_tree_id(Map::empty()),
{
    let none = Map::<Seq<u8>, TreeEntry>::empty();
    assert(spec_heads(none) =~= Set::<Seq<u8>>::empty());
    assert(spec_level_entries(none, MAX_TREE_DEPTH as nat) =~= Map::<
        Seq<u8>,
        (Seq<u8>, i32),
    >::empty());
}

/// A tree with no override applied is written under the id under which
/// the tree itself is written.
pub proof fn law_hydrate_nothing_keeps_the_written_id(tree: Map<Seq<u8>, TreeEntry>)
    ensures
        spec_written_id(spec_hydrate(tree, Map::empty())) == spec_written_id(tree),
{
    crate::sparse::law_hydrate_nothing(tree);
}

/// Putting back into a tree what was dehydrated from it gives a tree that
/// is written under the id under which the tree itself is written. This
/// holds where none of the paths names a directory of the tree that has
/// leaves below it.
pub proof fn law_round_trip_keeps_the_written_id(
    tree: Map<Seq<u8>, TreeEntry>,
    paths: Set<Seq<u8>>,
)
    requires
        crate::sparse::prefix_free(tree),
        forall|p: Seq<u8>, q: Seq<u8>|
            paths.contains(p) && tree.contains_key(q) ==> !is_ancestor(p, q),
    ensures
        spec_written_id(
            spec_hydrate(tree, crate::sparse::overrides_from(spec_dehydrate(tree, paths), paths)),
        ) == spec_written_id(tree),
{
    crate::sparse::law_dehydrate_hydrate_round_trip(tree, paths);
}

/// Writing into the old tree what the new tree holds at the paths at
/// which the two differ gives a tree that is written under the id under
/// which the new tree is written.
pub proof fn law_changes_give_the_written_id_of_the_new_tree(
    old_tree: Map<Seq<u8>, TreeEntry>,
    new_tree: Map<Seq<u8>, TreeEntry>,
)
    requires
        crate::sparse::prefix_free(old_tree),
        crate::sparse::prefix_free(new_tree),
    ensures
        spec_written_id(
            spec_hydrate(
                old_tree,
                crate::sparse::overrides_from(
                    new_tree,
                    crate::sparse::spec_changed_paths(old_tree, new_tree),
                ),
            ),
        ) == spec_written_id(new_tree),
{
    crate::sparse::law_changes_rebuild_the_new_tree(old_tree, new_tree);
}

/// An open repository.
pub struct Repo {
    pub(crate) inner: git2::Repository,
}

/// A directory above a directory above a path is above that path.
pub proof fn lemma_ancestor_transitive(a: Seq<u8>, b: Seq<u8>, c: Seq<u8>)
    requires
        is_ancestor(a, b),
        is_ancestor(b, c),
    ensures
        is_ancestor(a, c),
{
    assert(c.subrange(0, a.len() as int) =~= b.subrange(0, a.len() as int)) by {
        assert forall|i: int| 0 <= i < a.len() implies c[i] == b[i] by {
            assert(c.subrange(0, b.len() as int)[i] == b[i]);
        }
    }
    assert(c.subrange(0, b.len() as int)[a.len() as int] == b[a.len() as int]);
}

/// Two directories above one path, of the same length, are the same.
pub proof fn lemma_ancestor_by_length(a: Seq<u8>, b: Seq<u8>, c: Seq<u8>)
    requires
        is_ancestor(a, c),
        is_ancestor(b, c),
        a.len() == b.len(),
    ensures
        a == b,
{
    assert(a =~= b);
}

/// Whether a path begins with a separator, so that it names nothing inside
/// a tree.
pub open spec fn begins_with_separator(path: Seq<u8>) -> bool {
    path.len() > 0 && path[0] == SEPARATOR
}

/// Whether two optional trees are the same: both absent, or both there
/// with one id.
pub open spec fn same_tree(a: Option<&Tree>, b: Option<&Tree>) -> bool {
    match (a, b) {
        (Some(x), Some(y)) => x.oid == y.oid,
        (None, None) => true,
        _ => false,
    }
}

/// The paths that the overrides name.
pub fn override_paths(overrides: &crate::sparse::TreeOverrides) -> (res: PathSet)
    ensures
        res@ == overrides@.dom(),
{
    let mut out = PathSet::new();
    let n = overrides.len();
    let mut i: usize = 0;
    while i < n
        invariant
            i <= n,
            n == overrides.key_seq().len(),
            forall|p: Seq<u8>|
                out@.contains(p) <==> crate::sparse::among(overrides.key_seq(), i as int, p),
        decreases n - i,
    {
        let key = overrides.key_at(i);
        proof {
            crate::sparse::lemma_among_step(overrides.key_seq(), i as int);
        }
        out.insert(key.as_slice());
        i += 1;
    }
    proof {
        crate::sparse::lemma_among_all(overrides.key_seq());
        assert(out@ =~= overrides@.dom());
    }
    out
}

/// The name, the bytes of the id and the file mode of each item.
pub open spec fn item_views(items: Seq<TreeItem>) -> Seq<(Seq<u8>, Seq<u8>, FileMode)> {
    Seq::new(items.len(), |i: int| (items[i].name@, items[i].entry.oid@, items[i].entry.mode))
}

/// The entries that a tree object holds, given what the store hands out
/// for it: each entry with its name, its id and the kind that its file
/// mode tells, in their order. An entry with the zero id holds no object
/// and is left out.
pub open spec fn spec_tree_items(raw: Seq<RawTreeItem>) -> Seq<(Seq<u8>, Seq<u8>, FileMode)>
    decreases raw.len(),
{
    if raw.len() == 0 {
        Seq::empty()
    } else {
        let rest = spec_tree_items(raw.drop_last());
        let last = raw.last();
        if crate::oid::all_zero(last.oid@) {
            rest
        } else {
            rest.push((last.name@, last.oid@, FileMode::spec_from_i32(last.mode)))
        }
    }
}

/// The entries that a tree object holds, given what the store hands out
/// for it.
pub fn tree_items_from_raw(raw: &Vec<RawTreeItem>) -> (res: Vec<TreeItem>)
    ensures
        item_views(res@) == spec_tree_items(raw@),
{
    let mut out: Vec<TreeItem> = Vec::new();
    let mut i: usize = 0;
    assert(raw@.subrange(0, 0) =~= Seq::<RawTreeItem>::empty());
    assert(item_views(out@) =~= Seq::<(Seq<u8>, Seq<u8>, FileMode)>::empty());
    while i < raw.len()
        invariant
            i <= raw@.len(),
            item_views(out@) == spec_tree_items(raw@.subrange(0, i as int)),
        decreases raw.len() - i,
    {
        let ghost before = item_views(out@);
        proof {
            let upto = raw@.subrange(0, i as int + 1);
            assert(upto.drop_last() =~= raw@.subrange(0, i as int));
            assert(upto.last() == raw@[i as int]);
        }
        match MaybeZeroOid::from_bytes(raw[i].oid) {
            MaybeZeroOid::NonZero(id) => {
                let name = crate::bytes::copy_bytes(raw[i].name.as_slice());
                let entry = TreeEntry { oid: id, mode: FileMode::from_i32(raw[i].mode) };
                out.push(TreeItem { name, entry });
                assert(item_views(out@) =~= before.push(
                    (raw@[i as int].name@, raw@[i as int].oid@, FileMode::spec_from_i32(
                        raw@[i as int].mode,
                    )),
                ));
            },
            MaybeZeroOid::Zero => {},
        }
        i += 1;
    }
    assert(raw@.subrange(0, raw@.len() as int) =~= raw@);
    out
}

/// The directory that an entry stands for, if it stands for one.
pub open spec fn subtree_of(entry: Option<TreeEntry>) -> Option<NonZeroOid> {
    match entry {
        Some(e) => if e.mode == FileMode::Tree {
            Some(e.oid)
        } else {
            None
        },
        None => None,
    }
}

/// The entry itself, unless it stands for a directory.
pub open spec fn leaf_of(entry: Option<TreeEntry>) -> Option<TreeEntry> {
    match entry {
        Some(e) => if e.mode == FileMode::Tree {
            None
        } else {
            Some(e)
        },
        None => None,
    }
}

/// What is to be done for one name of a directory when two trees are read
/// side by side: the leaf to note for the old tree and for the new one,
/// and the pair of directories to read on with.
pub struct LevelChange {
    pub old_leaf: Option<TreeEntry>,
    pub new_leaf: Option<TreeEntry>,
    pub descend: Option<(Option<NonZeroOid>, Option<NonZeroOid>)>,
}

impl LevelChange {
    /// Whether a directory of the old tree is read on with.
    pub open spec fn reads_old(&self) -> bool {
        self.descend matches Some((Some(_), _))
    }

    /// Whether a directory of the new tree is read on with.
    pub open spec fn reads_new(&self) -> bool {
        self.descend matches Some((_, Some(_)))
    }
}

/// What is to be done for a name under which the old tree holds `ours` and
/// the new tree holds `theirs`. Where the two hold the same, with the same
/// id and mode, nothing is to be done: a directory that did not change is
/// not opened. Else each side that holds something other than a directory
/// has a leaf there, and where a side holds a directory, that directory
/// is read on with, against the directory of the other side if it holds
/// one and against nothing if it does not.
pub open spec fn spec_level_change(ours: Option<TreeEntry>, theirs: Option<TreeEntry>)
    -> LevelChange {
    if ours == theirs {
        LevelChange { old_leaf: None, new_leaf: None, descend: None }
    } else {
        LevelChange {
            old_leaf: leaf_of(ours),
            new_leaf: leaf_of(theirs),
            descend: if subtree_of(ours) is Some || subtree_of(theirs) is Some {
                Some((subtree_of(ours), subtree_of(theirs)))
            } else {
                None
            },
        }
    }
}

/// What is to be done for a name under which the old tree holds `ours` and
/// the new tree holds `theirs`.
pub fn level_change(ours: Option<TreeEntry>, theirs: Option<TreeEntry>) -> (res: LevelChange)
    ensures
        res == spec_level_change(ours, theirs),
{
    if crate::entry::same_entry(&ours, &theirs) {
        return LevelChange { old_leaf: None, new_leaf: None, descend: None };
    }
    let old_subtree = match ours {
        Some(e) => if e.mode.is_tree() {
            Some(e.oid)
        } else {
            None
        },
        None => None,
    };
    let new_subtree = match theirs {
        Some(e) => if e.mode.is_tree() {
            Some(e.oid)
        } else {
            None
        },
        None => None,
    };
    let old_leaf = match ours {
        Some(e) => if e.mode.is_tree() {
            None
        } else {
            Some(e)
        },
        None => None,
    };
    let new_leaf = match theirs {
        Some(e) => if e.mode.is_tree() {
            None
        } else {
            Some(e)
        },
        None => None,
    };
    let descend = if old_subtree.is_some() || new_subtree.is_some() {
        Some((old_subtree, new_subtree))
    } else {
        None
    };
    LevelChange { old_leaf, new_leaf, descend }
}

/// Whether every leaf of `before` is a leaf of `after` with the same
/// entry.
pub open spec fn keeps(before: Map<Seq<u8>, TreeEntry>, after: Map<Seq<u8>, TreeEntry>) -> bool {
    forall|q: Seq<u8>| #[trigger]
        before.contains_key(q) ==> after.contains_key(q) && after[q] == before[q]
}

/// Whether every leaf of `after` that is no leaf of `before` lies at a
/// path that leads to an entry.
pub open spec fn adds_entry_paths(
    before: Map<Seq<u8>, TreeEntry>,
    after: Map<Seq<u8>, TreeEntry>,
) -> bool {
    forall|q: Seq<u8>| #[trigger] after.contains_key(q) ==> before.contains_key(q) || is_entry_path(q)
}

/// What holds of two additions in a row holds of both together.
pub proof fn lemma_adds_entry_paths_transitive(
    a: Map<Seq<u8>, TreeEntry>,
    b: Map<Seq<u8>, TreeEntry>,
    c: Map<Seq<u8>, TreeEntry>,
)
    requires
        adds_entry_paths(a, b),
        adds_entry_paths(b, c),
    ensures
        adds_entry_paths(a, c),
{
    assert forall|q: Seq<u8>| #[trigger] c.contains_key(q) implies a.contains_key(q)
        || is_entry_path(q) by {
        if !is_entry_path(q) {
            assert(b.contains_key(q));
        }
    }
}

/// What is kept twice in a row is kept.
pub proof fn lemma_keeps_transitive(
    a: Map<Seq<u8>, TreeEntry>,
    b: Map<Seq<u8>, TreeEntry>,
    c: Map<Seq<u8>, TreeEntry>,
)
    requires
        keeps(a, b),
        keeps(b, c),
    ensures
        keeps(a, c),
{
}

/// Whether a leaf of `tree` lies at `path`, above it or below it.
pub open spec fn is_touched(tree: Map<Seq<u8>, TreeEntry>, path: Seq<u8>) -> bool {
    exists|q: Seq<u8>| #[trigger]
        tree.contains_key(q) && (q == path || is_ancestor(q, path) || is_ancestor(path, q))
}

/// Whether the items can be added to `tree` as the entries of the
/// directory `dir`: each has the name of an entry, none has the name of
/// an earlier one, and no leaf of `tree` lies where one of them is to go.
pub open spec fn children_fit(tree: Map<Seq<u8>, TreeEntry>, dir: Seq<u8>, items: Seq<TreeItem>)
    -> bool {
    forall|i: int|
        0 <= i < items.len() ==> {
            &&& is_entry_name((#[trigger] items[i]).name@)
            &&& !is_touched(tree, spec_child_path(dir, items[i].name@))
            &&& forall|j: int| 0 <= j < i ==> (#[trigger] items[j]).name@ != items[i].name@
        }
}

/// Whether `path` is where one of the first `n` items goes inside `dir`,
/// under the name of an entry.
pub open spec fn is_child_of(dir: Seq<u8>, items: Seq<TreeItem>, n: int, path: Seq<u8>) -> bool {
    exists|i: int|
        0 <= i < n && i < items.len() && is_entry_name((#[trigger] items[i]).name@) && path
            == spec_child_path(dir, items[i].name@)
}

/// Two entries of one directory lie at one path only where they have one
/// name.
pub proof fn lemma_child_path_injective(dir: Seq<u8>, a: Seq<u8>, b: Seq<u8>)
    requires
        spec_child_path(dir, a) == spec_child_path(dir, b),
    ensures
        a == b,
{
    if dir.len() > 0 {
        let x = spec_child_path(dir, a);
        assert(a =~= x.subrange(dir.len() as int + 1, x.len() as int));
        assert(b =~= x.subrange(dir.len() as int + 1, x.len() as int));
    }
}

/// Of two entries of one directory, neither lies above the other.
pub proof fn lemma_children_apart(dir: Seq<u8>, a: Seq<u8>, b: Seq<u8>)
    requires
        is_entry_name(a),
        is_entry_name(b),
    ensures
        !is_ancestor(spec_child_path(dir, a), spec_child_path(dir, b)),
{
    let ca = spec_child_path(dir, a);
    let cb = spec_child_path(dir, b);
    if is_ancestor(ca, cb) {
        if dir.len() == 0 {
            assert(b.contains(b[a.len() as int]));
        } else {
            let k = ca.len() - dir.len() - 1;
            assert(cb[ca.len() as int] == b[k]);
            assert(b.contains(b[k]));
        }
    }
}

/// Adds each of the items to `tree` as a leaf inside the directory `dir`,
/// in their order, until one does not fit. What was in the tree stays
/// whatever happens.
pub fn add_children(tree: &mut SparseTree, dir: &[u8], items: &Vec<TreeItem>) -> (res: Result<
    (),
    RepoError,
>)
    ensures
        res is Ok <==> children_fit(old(tree)@, dir@, items@),
        res matches Err(e) ==> e is MalformedTree,
        forall|q: Seq<u8>| #[trigger]
            old(tree)@.contains_key(q) ==> final(tree)@.contains_key(q) && final(tree)@[q] == old(
                tree,
            )@[q],
        forall|q: Seq<u8>| #[trigger]
            final(tree)@.contains_key(q) ==> old(tree)@.contains_key(q) || is_child_of(
                dir@,
                items@,
                items@.len() as int,
                q,
            ),
        res is Ok ==> forall|i: int|
            0 <= i < items@.len() ==> final(tree)@.contains_key(
                spec_child_path(dir@, (#[trigger] items@[i]).name@),
            ) && final(tree)@[spec_child_path(dir@, items@[i].name@)] == items@[i].entry,
{
    let mut i: usize = 0;
    while i < items.len()
        invariant
            i <= items@.len(),
            forall|q: Seq<u8>| #[trigger]
                old(tree)@.contains_key(q) ==> tree@.contains_key(q) && tree@[q] == old(tree)@[q],
            forall|q: Seq<u8>| #[trigger]
                tree@.contains_key(q) ==> old(tree)@.contains_key(q) || is_child_of(
                    dir@,
                    items@,
                    i as int,
                    q,
                ),
            forall|j: int|
                0 <= j < i ==> {
                    &&& is_entry_name((#[trigger] items@[j]).name@)
                    &&& !is_touched(old(tree)@, spec_child_path(dir@, items@[j].name@))
                    &&& forall|h: int| 0 <= h < j ==> (#[trigger] items@[h]).name@ != items@[j].name@
                    &&& tree@.contains_key(spec_child_path(dir@, items@[j].name@))
                    &&& tree@[spec_child_path(dir@, items@[j].name@)] == items@[j].entry
                },
        decreases items.len() - i,
    {
        let ghost name = items@[i as int].name@;
        if !check_entry_name(items[i].name.as_slice()) {
            assert(!children_fit(old(tree)@, dir@, items@));
            proof {
                assert forall|q: Seq<u8>| #[trigger] tree@.contains_key(q) implies old(
                    tree,
                )@.contains_key(q) || is_child_of(dir@, items@, items@.len() as int, q) by {
                    if !old(tree)@.contains_key(q) {
                        let j = choose|j: int|
                            0 <= j < i && j < items@.len() && is_entry_name(
                                (#[trigger] items@[j]).name@,
                            ) && q == spec_child_path(dir@, items@[j].name@);
                        assert(0 <= j < items@.len());
                    }
                }
            }
            return Err(RepoError::MalformedTree);
        }
        let path = child_path(dir, items[i].name.as_slice());
        let ghost before = tree@;
        if !tree.try_insert(path.as_slice(), items[i].entry) {
            proof {
                let q = choose|q: Seq<u8>| #[trigger]
                    before.contains_key(q) && (q == path@ || is_ancestor(q, path@) || is_ancestor(
                        path@,
                        q,
                    ));
                if old(tree)@.contains_key(q) {
                    assert(is_touched(old(tree)@, path@));
                } else {
                    let j = choose|j: int|
                        0 <= j < i && j < items@.len() && is_entry_name(
                            (#[trigger] items@[j]).name@,
                        ) && q == spec_child_path(dir@, items@[j].name@);
                    lemma_children_apart(dir@, items@[j].name@, name);
                    lemma_children_apart(dir@, name, items@[j].name@);
                    lemma_child_path_injective(dir@, items@[j].name@, name);
                    assert(items@[j].name@ == items@[i as int].name@);
                }
                assert(!children_fit(old(tree)@, dir@, items@));
                assert forall|q: Seq<u8>| #[trigger] tree@.contains_key(q) implies old(
                    tree,
                )@.contains_key(q) || is_child_of(dir@, items@, items@.len() as int, q) by {
                    if !old(tree)@.contains_key(q) {
                        let j = choose|j: int|
                            0 <= j < i && j < items@.len() && is_entry_name(
                                (#[trigger] items@[j]).name@,
                            ) && q == spec_child_path(dir@, items@[j].name@);
                        assert(0 <= j < items@.len());
                    }
                }
            }
            return Err(RepoError::MalformedTree);
        }
        proof {
            assert forall|q: Seq<u8>| #[trigger] tree@.contains_key(q) implies old(
                tree,
            )@.contains_key(q) || is_child_of(dir@, items@, i as int + 1, q) by {
                if q == path@ {
                    assert(q == spec_child_path(dir@, items@[i as int].name@));
                } else if !old(tree)@.contains_key(q) {
                    assert(before.contains_key(q));
                    let j = choose|j: int|
                        0 <= j < i && j < items@.len() && is_entry_name(
                            (#[trigger] items@[j]).name@,
                        ) && q == spec_child_path(dir@, items@[j].name@);
                    assert(0 <= j < i + 1);
                }
            }
            assert(!is_touched(old(tree)@, path@)) by {
                if is_touched(old(tree)@, path@) {
                    let q = choose|q: Seq<u8>| #[trigger]
                        old(tree)@.contains_key(q) && (q == path@ || is_ancestor(q, path@)
                            || is_ancestor(path@, q));
                    assert(before.contains_key(q));
                }
            }
            assert forall|h: int| 0 <= h < i implies (#[trigger] items@[h]).name@ != name by {
                if items@[h].name@ == name {
                    assert(before.contains_key(spec_child_path(dir@, items@[h].name@)));
                }
            }
            assert forall|j: int| 0 <= j < i implies tree@.contains_key(
                spec_child_path(dir@, (#[trigger] items@[j]).name@),
            ) && tree@[spec_child_path(dir@, items@[j].name@)] == items@[j].entry by {
                let p = spec_child_path(dir@, items@[j].name@);
                assert(before.contains_key(p));
                assert(p != path@);
            }
        }
        i += 1;
    }
    Ok(())
}

impl Repo {
    /// Opens the repository that holds the directory `path`.
    pub fn from_dir(path: &str) -> (res: Result<Repo, RepoError>)
        ensures
            res matches Err(e) ==> e is Store,
    {
        match git_discover(path) {
            Ok(inner) => Ok(Repo { inner }),
            Err(e) => Err(RepoError::from_git(e)),
        }
    }

    /// The entries of the tree object `oid`. An entry whose id is the zero
    /// id counts as absent and is left out.
    pub fn read_tree_items(&self, oid: &NonZeroOid) -> (res: Result<Vec<TreeItem>, RepoError>)
        ensures
            res matches Err(e) ==> e is Store,
    {
        match git_tree_items(&self.inner, &oid.as_bytes()) {
            Ok(raw) => Ok(tree_items_from_raw(&raw)),
            Err(e) => Err(RepoError::from_git(e)),
        }
    }

    /// Reads the tree object `oid` and adds each of its entries to `tree` as
    /// a leaf inside the directory `dir`. Fails where an entry has an
    /// unusable name or cannot stand beside the leaves that are there.
    /// What was in the tree stays whatever happens, and what is added lies
    /// inside `dir` under the name of an entry.
    pub fn insert_children(&self, oid: &NonZeroOid, dir: &[u8], tree: &mut SparseTree) -> (res:
        Result<(), RepoError>)
        ensures
            forall|q: Seq<u8>| #[trigger]
                old(tree)@.contains_key(q) ==> final(tree)@.contains_key(q) && final(tree)@[q]
                    == old(tree)@[q],
            forall|q: Seq<u8>| #[trigger]
                final(tree)@.contains_key(q) ==> old(tree)@.contains_key(q) || (exists|
                    name: Seq<u8>,
                | is_entry_name(name) && q == spec_child_path(dir@, name)),
            res matches Err(e) ==> e is Store || e is MalformedTree,
    {
        let items = match self.read_tree_items(oid) {
            Ok(items) => items,
            Err(e) => {
                return Err(e);
            },
        };
        let res = add_children(tree, dir, &items);
        proof {
            assert forall|q: Seq<u8>| #[trigger] tree@.contains_key(q) implies old(
                tree,
            )@.contains_key(q) || (exists|name: Seq<u8>|
                is_entry_name(name) && q == spec_child_path(dir@, name)) by {
                if !old(tree)@.contains_key(q) {
                    assert(is_child_of(dir@, items@, items@.len() as int, q));
                    let i = choose|i: int|
                        0 <= i < items@.len() && i < items@.len() && is_entry_name(
                            (#[trigger] items@[i]).name@,
                        ) && q == spec_child_path(dir@, items@[i].name@);
                    assert(is_entry_name(items@[i].name@));
                }
            }
        }
        res
    }

    /// Opens every directory of `tree` that lies above `path`: a leaf that
    /// stands for such a directory is replaced by the entries that the
    /// store holds for it. Directories that were open along another path
    /// stay so.
    pub fn expand_along(&self, tree: &mut SparseTree, path: &[u8]) -> (res: Result<(), RepoError>)
        ensures
            res is Ok ==> open_along(final(tree)@, path@),
            res is Ok ==> forall|p: Seq<u8>| #[trigger]
                open_along(old(tree)@, p) ==> open_along(final(tree)@, p),
            res matches Err(e) ==> e is Store || e is MalformedTree || e is InvalidPath,
            path@.len() > 0 && path@[0] == SEPARATOR ==> res is Err,
    {
        if path.len() == 0 {
            return Ok(());
        }
        if path[0] == SEPARATOR {
            return Err(RepoError::InvalidPath);
        }
        let mut k: usize = 1;
        while k < path.len()
            invariant
                1 <= k <= path.len(),
                path@[0] != SEPARATOR,
                forall|q: Seq<u8>| #[trigger]
                    tree@.contains_key(q) && is_ancestor(q, path@) && q.len() < k ==> tree@[q].mode
                        != FileMode::Tree,
                forall|p: Seq<u8>| #[trigger]
                    open_along(old(tree)@, p) ==> open_along(tree@, p),
            decreases path.len() - k,
        {
            if path[k] == SEPARATOR {
                let dir = copy_range(path, 0, k);
                let ghost start = tree@;
                assert(is_ancestor(dir@, path@));
                let found = tree.get(dir.as_slice());
                let mut opened = false;
                if let Some(entry) = found {
                    if entry.mode.is_tree() {
                        tree.remove(dir.as_slice());
                        let ghost without = tree@;
                        self.insert_children(&entry.oid, dir.as_slice(), tree)?;
                        opened = true;
                        proof {
                            assert forall|q: Seq<u8>| #[trigger]
                                tree@.contains_key(q) && !(without.contains_key(q) && tree@[q]
                                    == without[q]) implies is_ancestor(dir@, q) by {
                                let name = choose|name: Seq<u8>|
                                    is_entry_name(name) && q == spec_child_path(dir@, name);
                                assert(q == dir@ + seq![SEPARATOR] + name);
                                assert(q.subrange(0, dir@.len() as int) =~= dir@);
                            }
                            assert forall|q: Seq<u8>| #[trigger]
                                tree@.contains_key(q) && is_ancestor(q, path@) && q.len() < k
                                    + 1 implies tree@[q].mode != FileMode::Tree by {
                                if without.contains_key(q) && tree@[q] == without[q] {
                                    assert(start.contains_key(q));
                                    if q.len() == k {
                                        lemma_ancestor_by_length(q, dir@, path@);
                                    }
                                } else {
                                    assert(is_ancestor(dir@, q));
                                }
                            }
                            assert forall|p: Seq<u8>| #[trigger]
                                open_along(start, p) implies open_along(tree@, p) by {
                                assert forall|q: Seq<u8>| #[trigger]
                                    tree@.contains_key(q) && is_ancestor(q, p) implies tree@[q].mode
                                    != FileMode::Tree by {
                                    if without.contains_key(q) && tree@[q] == without[q] {
                                        assert(start.contains_key(q));
                                    } else {
                                        assert(is_ancestor(dir@, q));
                                        lemma_ancestor_transitive(dir@, q, p);
                                        assert(start.contains_key(dir@));
                                    }
                                }
                            }
                        }
                    }
                }
                proof {
                    if !opened {
                        assert forall|q: Seq<u8>| #[trigger]
                            tree@.contains_key(q) && is_ancestor(q, path@) && q.len() < k
                                + 1 implies tree@[q].mode != FileMode::Tree by {
                            if q.len() == k {
                                lemma_ancestor_by_length(q, dir@, path@);
                            }
                        }
                    }
                }
            }
            k += 1;
        }
        Ok(())
    }

    /// The tree object `root` as a tree in memory in which every directory
    /// above one of `paths` is open. Directories that lie above none of
    /// them stay as they are in the store: one leaf each.
    pub fn load_tree_along(&self, root: &NonZeroOid, paths: &PathSet) -> (res: Result<
        SparseTree,
        RepoError,
    >)
        ensures
            res matches Ok(tree) ==> forall|p: Seq<u8>| #[trigger]
                paths@.contains(p) ==> open_along(tree@, p),
            res matches Err(e) ==> e is Store || e is MalformedTree || e is InvalidPath,
            (exists|p: Seq<u8>| paths@.contains(p) && begins_with_separator(p)) ==> res is Err,
    {
        let mut tree = SparseTree::empty();
        let empty: Vec<u8> = Vec::new();
        self.insert_children(root, empty.as_slice(), &mut tree)?;
        let n = paths.len();
        let mut i: usize = 0;
        while i < n
            invariant
                i <= n,
                n == paths.seq().len(),
                paths@ == paths.seq().to_set(),
                forall|j: int| 0 <= j < i ==> open_along(tree@, #[trigger] paths.seq()[j]),
                forall|j: int| 0 <= j < i ==> !begins_with_separator(#[trigger] paths.seq()[j]),
            decreases n - i,
        {
            let path = paths.get(i);
            let ghost before = tree@;
            self.expand_along(&mut tree, path.as_slice())?;
            proof {
                assert forall|j: int| 0 <= j < i + 1 implies open_along(
                    tree@,
                    #[trigger] paths.seq()[j],
                ) by {
                    if j < i {
                        assert(open_along(before, paths.seq()[j]));
                    }
                }
            }
            i += 1;
        }
        proof {
            assert forall|p: Seq<u8>| #[trigger] paths@.contains(p) implies open_along(tree@, p)
                && !begins_with_separator(p) by {
                assert(paths.seq().contains(p));
                let j = paths.seq().index_of(p);
                assert(paths.seq()[j] == p);
            }
        }
        Ok(tree)
    }

    /// Writes the tree object that holds the leaves of `tree`, each at its
    /// path, and returns its id. A leaf at a path of one component is an
    /// entry as it is, so that a leaf that stands for a whole directory is
    /// taken over by its id; for each other first component a directory is
    /// written of what lies inside it. A tree without leaves gives the
    /// empty tree object. `fuel` bounds how deep the directories may go.
    fn write_level(&self, tree: &SparseTree, fuel: usize) -> (res: Result<NonZeroOid, RepoError>)
        ensures
            res matches Ok(oid) ==> oid@ == spec_level_id(tree@, fuel as nat),
            res matches Err(e) ==> e is Store || e is ZeroOid || e is TooDeep || e is InvalidPath,
            (exists|p: Seq<u8>| tree@.contains_key(p) && !can_lay_out(p)) ==> res is Err,
            fuel == 0 ==> res is Err,
        decreases fuel,
    {
        if fuel == 0 {
            return Err(RepoError::TooDeep);
        }
        let names = match tree.heads() {
            Some(names) => names,
            None => {
                return Err(RepoError::InvalidPath);
            },
        };
        let ghost want = spec_level_entries(tree@, fuel as nat);
        let mut raw: Vec<RawTreeItem> = Vec::new();
        let n = names.len();
        let mut i: usize = 0;
        assert(raw_entries(raw@) =~= Map::<Seq<u8>, (Seq<u8>, i32)>::empty());
        while i < n
            invariant
                i <= n,
                fuel > 0,
                n == names.seq().len(),
                names@ == spec_heads(tree@),
                names@ == names.seq().to_set(),
                want == spec_level_entries(tree@, fuel as nat),
                forall|name: Seq<u8>| #[trigger]
                    raw_entries(raw@).contains_key(name) <==> crate::sparse::among(
                        names.seq(),
                        i as int,
                        name,
                    ),
                forall|name: Seq<u8>| #[trigger]
                    raw_entries(raw@).contains_key(name) ==> raw_entries(raw@)[name] == want[name],
            decreases n - i,
        {
            let name = names.get(i);
            let ghost before = raw@;
            proof {
                crate::sparse::lemma_among_step(names.seq(), i as int);
                assert(spec_heads(tree@).contains(name@));
                assert(want.contains_key(name@));
            }
            let item = match tree.get(name.as_slice()) {
                Some(leaf) => RawTreeItem {
                    name: crate::bytes::copy_bytes(name.as_slice()),
                    oid: leaf.oid.as_bytes(),
                    mode: leaf.mode.to_i32(),
                },
                None => {
                    let inside = tree.subtree(name.as_slice());
                    let oid = self.write_level(&inside, fuel - 1)?;
                    RawTreeItem {
                        name: crate::bytes::copy_bytes(name.as_slice()),
                        oid: oid.as_bytes(),
                        mode: MODE_TREE,
                    }
                },
            };
            raw.push(item);
            proof {
                assert(raw@.drop_last() =~= before);
                assert(raw_entries(raw@) == raw_entries(before).insert(
                    name@,
                    (raw@.last().oid@, raw@.last().mode),
                ));
                assert(raw_entries(raw@)[name@] == want[name@]);
                assert forall|x: Seq<u8>| #[trigger]
                    raw_entries(raw@).contains_key(x) <==> crate::sparse::among(
                        names.seq(),
                        i as int + 1,
                        x,
                    ) by {
                    if x != name@ {
                        assert(raw_entries(raw@).contains_key(x) == raw_entries(
                            before,
                        ).contains_key(x));
                    }
                }
                assert forall|x: Seq<u8>| #[trigger]
                    raw_entries(raw@).contains_key(x) implies raw_entries(raw@)[x] == want[x] by {
                    if x != name@ {
                        assert(raw_entries(before).contains_key(x));
                    }
                }
            }
            i += 1;
        }
        proof {
            crate::sparse::lemma_among_all(names.seq());
            assert(raw_entries(raw@) =~= want);
        }
        match git_write_tree(&self.inner, &raw) {
            Ok(bytes) => match MaybeZeroOid::from_bytes(bytes) {
                MaybeZeroOid::NonZero(oid) => Ok(oid),
                MaybeZeroOid::Zero => Err(RepoError::ZeroOid),
            },
            Err(e) => Err(RepoError::from_git(e)),
        }
    }

    /// Writes a tree held in memory to the store and returns its id: the
    /// hash of its entries, with the directories written level by level.
    /// A tree without leaves is written as the empty tree. Fails on a
    /// path that cannot be laid out, and on directories nested more deeply
    /// than this library follows.
    pub fn write_tree(&self, tree: &SparseTree) -> (res: Result<NonZeroOid, RepoError>)
        ensures
            res matches Ok(oid) ==> oid@ == spec_written_id(tree@),
            res matches Err(e) ==> e is Store || e is ZeroOid || e is TooDeep || e is InvalidPath,
            (exists|p: Seq<u8>| tree@.contains_key(p) && !can_lay_out(p)) ==> res is Err,
    {
        self.write_level(tree, MAX_TREE_DEPTH)
    }

    /// Carries out what is to be done for one name of a directory: adds
    /// the leaves to `old_out` and `new_out` at `path`, and reads on
    /// inside `path` where that is due.
    fn apply_change(
        &self,
        path: &[u8],
        change: &LevelChange,
        old_out: &mut SparseTree,
        new_out: &mut SparseTree,
        fuel: usize,
    ) -> (res: Result<(), RepoError>)
        ensures
            keeps(old(old_out)@, final(old_out)@),
            keeps(old(new_out)@, final(new_out)@),
            is_entry_path(path@) ==> adds_entry_paths(old(old_out)@, final(old_out)@),
            is_entry_path(path@) ==> adds_entry_paths(old(new_out)@, final(new_out)@),
            change.old_leaf is None && !change.reads_old() ==> final(old_out)@ == old(old_out)@,
            change.new_leaf is None && !change.reads_new() ==> final(new_out)@ == old(new_out)@,
            change.old_leaf is None && change.new_leaf is None && change.descend is None
                ==> res is Ok,
            res matches Err(e) ==> e is Store || e is MalformedTree || e is TooDeep,
        decreases fuel, 2nat,
    {
        match change.old_leaf {
            Some(leaf) => {
                if !old_out.try_insert(path, leaf) {
                    return Err(RepoError::MalformedTree);
                }
            },
            None => {},
        }
        match change.new_leaf {
            Some(leaf) => {
                if !new_out.try_insert(path, leaf) {
                    return Err(RepoError::MalformedTree);
                }
            },
            None => {},
        }
        match change.descend {
            Some((old_oid, new_oid)) => {
                let ghost old_before = old_out@;
                let ghost new_before = new_out@;
                let res = self.load_changes(path, old_oid, new_oid, old_out, new_out, fuel);
                proof {
                    lemma_keeps_transitive(old(old_out)@, old_before, old_out@);
                    lemma_keeps_transitive(old(new_out)@, new_before, new_out@);
                    if is_entry_path(path@) {
                        lemma_adds_entry_paths_transitive(old(old_out)@, old_before, old_out@);
                        lemma_adds_entry_paths_transitive(old(new_out)@, new_before, new_out@);
                    }
                }
                res
            },
            None => Ok(()),
        }
    }

    /// Reads the two tree objects side by side and adds to `old_out` and
    /// `new_out`, inside the directory `dir`, the leaves at which they
    /// differ. An entry that both hold with the same id and mode is
    /// passed over without being opened; where both hold a directory with
    /// different ids, the two are read in turn; a directory that faces a
    /// file or nothing is read to its leaves: what is to be done for each
    /// name is what `pair_entries` says of the two lists of entries. What
    /// was in the two trees stays, and nothing is added on a side that has
    /// no tree object.
    /// `fuel` bounds how deep the directories may go.
    fn load_changes(
        &self,
        dir: &[u8],
        old_oid: Option<NonZeroOid>,
        new_oid: Option<NonZeroOid>,
        old_out: &mut SparseTree,
        new_out: &mut SparseTree,
        fuel: usize,
    ) -> (res: Result<(), RepoError>)
        ensures
            fuel == 0 ==> (res matches Err(e) && e is TooDeep),
            fuel > 0 && old_oid is None && new_oid is None ==> res is Ok,
            keeps(old(old_out)@, final(old_out)@),
            keeps(old(new_out)@, final(new_out)@),
            dir@.len() == 0 || is_entry_path(dir@) ==> adds_entry_paths(
                old(old_out)@,
                final(old_out)@,
            ) && adds_entry_paths(old(new_out)@, final(new_out)@),
            old_oid is None ==> final(old_out)@ == old(old_out)@,
            new_oid is None ==> final(new_out)@ == old(new_out)@,
            res matches Err(e) ==> e is Store || e is MalformedTree || e is TooDeep,
        decreases fuel, 1nat,
    {
        if fuel == 0 {
            return Err(RepoError::TooDeep);
        }
        let old_items = match old_oid {
            Some(oid) => match self.read_tree_items(&oid) {
                Ok(items) => items,
                Err(e) => {
                    return Err(e);
                },
            },
            None => Vec::new(),
        };
        let new_items = match new_oid {
            Some(oid) => match self.read_tree_items(&oid) {
                Ok(items) => items,
                Err(e) => {
                    return Err(e);
                },
            },
            None => Vec::new(),
        };
        let pairs = pair_entries(&old_items, &new_items);
        let mut i: usize = 0;
        while i < pairs.len()
            invariant
                i <= pairs@.len(),
                fuel > 0,
                change_views(pairs@) == spec_pair_entries(old_items@, new_items@),
                old_oid is None ==> old_items@.len() == 0,
                new_oid is None ==> new_items@.len() == 0,
                keeps(old(old_out)@, old_out@),
                keeps(old(new_out)@, new_out@),
                dir@.len() == 0 || is_entry_path(dir@) ==> adds_entry_paths(
                    old(old_out)@,
                    old_out@,
                ) && adds_entry_paths(old(new_out)@, new_out@),
                old_oid is None ==> old_out@ == old(old_out)@,
                new_oid is None ==> new_out@ == old(new_out)@,
            decreases pairs.len() - i,
        {
            if !check_entry_name(pairs[i].name.as_slice()) {
                return Err(RepoError::MalformedTree);
            }
            let path = child_path(dir, pairs[i].name.as_slice());
            let ghost old_before = old_out@;
            let ghost new_before = new_out@;
            proof {
                assert(change_views(pairs@)[i as int].1 == pairs@[i as int].change);
                lemma_pair_sides(old_items@, new_items@, i as int);
            }
            let res = self.apply_change(path.as_slice(), &pairs[i].change, old_out, new_out, fuel - 1);
            proof {
                lemma_keeps_transitive(old(old_out)@, old_before, old_out@);
                lemma_keeps_transitive(old(new_out)@, new_before, new_out@);
                if dir@.len() == 0 || is_entry_path(dir@) {
                    lemma_child_is_entry_path(dir@, pairs@[i as int].name@);
                    lemma_adds_entry_paths_transitive(old(old_out)@, old_before, old_out@);
                    lemma_adds_entry_paths_transitive(old(new_out)@, new_before, new_out@);
                }
            }
            if res.is_err() {
                return res;
            }
            i += 1;
        }
        Ok(())
    }

    /// The paths at which two tree objects differ: where one holds a file
    /// that the other does not hold, or holds with other contents or
    /// another mode. No tree holds nothing. Two trees with the same id
    /// are not read at all. Every path given leads to an entry; against no
    /// tree the paths are the leaves of the one tree, of which none lies
    /// above another.
    pub fn get_changed_paths_between_trees(&self, old_tree: Option<&Tree>, new_tree: Option<
        &Tree,
    >) -> (res: Result<PathSet, RepoError>)
        ensures
            same_tree(old_tree, new_tree) ==> res is Ok && res->Ok_0@
                == Set::<Seq<u8>>::empty(),
            res matches Ok(paths) ==> forall|p: Seq<u8>| #[trigger]
                paths@.contains(p) ==> is_entry_path(p),
            (old_tree is None || new_tree is None) ==> (res matches Ok(paths) ==> forall|
                p: Seq<u8>,
                q: Seq<u8>,
            | paths@.contains(p) && paths@.contains(q) ==> !is_ancestor(p, q)),
            res matches Err(e) ==> e is Store || e is MalformedTree || e is TooDeep,
    {
        let old_oid = match old_tree {
            Some(t) => Some(t.oid),
            None => None,
        };
        let new_oid = match new_tree {
            Some(t) => Some(t.oid),
            None => None,
        };
        let unchanged = match (&old_oid, &new_oid) {
            (Some(a), Some(b)) => a.equals(b),
            (None, None) => true,
            _ => false,
        };
        if unchanged {
            return Ok(PathSet::new());
        }
        let mut old_leaves = SparseTree::empty();
        let mut new_leaves = SparseTree::empty();
        let empty: Vec<u8> = Vec::new();
        self.load_changes(
            empty.as_slice(),
            old_oid,
            new_oid,
            &mut old_leaves,
            &mut new_leaves,
            MAX_TREE_DEPTH,
        )?;
        let paths = crate::sparse::get_changed_paths(Some(&old_leaves), Some(&new_leaves));
        let _ = old_leaves.len();
        let _ = new_leaves.len();
        proof {
            assert forall|p: Seq<u8>| #[trigger] paths@.contains(p) implies is_entry_path(p) by {
                assert(old_leaves@.contains_key(p) || new_leaves@.contains_key(p));
            }
            if old_tree is None {
                assert forall|p: Seq<u8>| paths@.contains(p) implies new_leaves@.contains_key(
                    p,
                ) by {
                    assert(!old_leaves@.contains_key(p));
                }
            }
            if new_tree is None {
                assert forall|p: Seq<u8>| paths@.contains(p) implies old_leaves@.contains_key(
                    p,
                ) by {
                    assert(!new_leaves@.contains_key(p));
                }
            }
        }
        Ok(paths)
    }

    /// Writes a tree that holds, of the tree object `tree`, what lies at
    /// `paths` and nothing else, and returns its id: the id under which
    /// the tree as it was read, cut down to the paths, is written.
    pub fn dehydrate_tree(&self, tree: &Tree, paths: &PathSet) -> (res: Result<
        NonZeroOid,
        RepoError,
    >)
        ensures
            res matches Ok(oid) ==> exists|loaded: Map<Seq<u8>, TreeEntry>|
                oid@ == spec_written_id(spec_dehydrate(loaded, paths@)),
            res matches Err(e) ==> e is Store || e is MalformedTree || e is InvalidPath
                || e is ZeroOid || e is TooDeep,
    {
        let loaded = self.load_tree_along(&tree.oid, paths)?;
        let kept = crate::sparse::dehydrate(&loaded, paths);
        let res = self.write_tree(&kept);
        proof {
            if let Ok(oid) = res {
                assert(oid@ == spec_written_id(spec_dehydrate(loaded@, paths@)));
            }
        }
        res
    }

    /// Writes the tree object `base` with the overrides applied, and
    /// returns its id. Only the directories above an override are read and
    /// written anew; the others are taken over by their ids. No base
    /// means the empty tree. The id is that under which the base as it
    /// was read, with the overrides applied, is written.
    pub fn hydrate_tree(&self, base: Option<&Tree>, overrides: &crate::sparse::TreeOverrides) -> (res:
        Result<NonZeroOid, RepoError>)
        ensures
            res matches Ok(oid) ==> exists|loaded: Map<Seq<u8>, TreeEntry>|
                oid@ == spec_written_id(spec_hydrate(loaded, overrides@)),
            base is None ==> (res matches Ok(oid) ==> oid@ == spec_written_id(
                spec_hydrate(Map::empty(), overrides@),
            )),
            res matches Err(e) ==> e is Store || e is MalformedTree || e is InvalidPath
                || e is ZeroOid || e is TooDeep,
            (exists|p: Seq<u8>| override_kept(overrides@, p) && !can_lay_out(p)) ==> res is Err,
    {
        let loaded = match base {
            Some(tree) => {
                let paths = override_paths(overrides);
                self.load_tree_along(&tree.oid, &paths)?
            },
            None => SparseTree::empty(),
        };
        let result = crate::sparse::hydrate(Some(&loaded), overrides);
        proof {
            if exists|p: Seq<u8>| override_kept(overrides@, p) && !can_lay_out(p) {
                let p = choose|p: Seq<u8>| override_kept(overrides@, p) && !can_lay_out(p);
                assert(result@.contains_key(p));
            }
        }
        let res = self.write_tree(&result);
        proof {
            if let Ok(oid) = res {
                assert(oid@ == spec_written_id(spec_hydrate(loaded@, overrides@)));
            }
        }
        res
    }
}

} // verus!
