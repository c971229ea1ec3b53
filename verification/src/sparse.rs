use vstd::prelude::*;
use crate::entry::{same_entry, TreeEntry};
use crate::path::{is_ancestor, is_ancestor_of, PathSet};
use crate::pathmap::PathMap;

verus! {

/// The model of a tree: what it holds at each path that leads to a leaf.
pub type TreeModel = Map<Seq<u8>, TreeEntry>;

/// The model of a set of overrides: for each path named, the entry to set
/// there, or `None` to delete what is there.
pub type OverrideModel = Map<Seq<u8>, Option<TreeEntry>>;

/// Overrides as they are handed to `hydrate`.
pub type TreeOverrides = PathMap<Option<TreeEntry>>;

/// No leaf lies below another leaf.
pub open spec fn prefix_free(tree: TreeModel) -> bool {
    forall|p: Seq<u8>, q: Seq<u8>|
        tree.contains_key(p) && tree.contains_key(q) ==> !is_ancestor(p, q)
}

/// What a tree holds at `path`, if anything.
pub open spec fn entry_at(tree: TreeModel, path: Seq<u8>) -> Option<TreeEntry> {
    if tree.contains_key(path) {
        Some(tree[path])
    } else {
        None
    }
}

/// The paths at which two trees differ: a path is changed where one tree
/// has a leaf and the other has none or another one.
pub open spec fn spec_changed_paths(old_tree: TreeModel, new_tree: TreeModel) -> Set<Seq<u8>> {
    Set::new(|p: Seq<u8>| entry_at(old_tree, p) != entry_at(new_tree, p))
}

/// The tree that holds, of `tree`, the leaves at `paths` and nothing else.
pub open spec fn spec_dehydrate(tree: TreeModel, paths: Set<Seq<u8>>) -> TreeModel {
    tree.restrict(paths)
}

/// Some override names a directory above `path`.
pub open spec fn overridden_above(overrides: OverrideModel, path: Seq<u8>) -> bool {
    exists|p: Seq<u8>| overrides.contains_key(p) && is_ancestor(p, path)
}

/// Some override sets an entry below `path`, so that `path` has to be a
/// directory.
pub open spec fn set_below(overrides: OverrideModel, path: Seq<u8>) -> bool {
    exists|p: Seq<u8>| overrides.contains_key(p) && overrides[p] is Some && is_ancestor(path, p)
}

/// The override at `path` sets an entry that ends up as a leaf.
pub open spec fn override_kept(overrides: OverrideModel, path: Seq<u8>) -> bool {
    &&& overrides.contains_key(path)
    &&& overrides[path] is Some
    &&& !set_below(overrides, path)
}

/// The leaf of the base tree at `path` is left as it is.
pub open spec fn base_kept(base: TreeModel, overrides: OverrideModel, path: Seq<u8>) -> bool {
    &&& base.contains_key(path)
    &&& !overrides.contains_key(path)
    &&& !overridden_above(overrides, path)
    &&& !set_below(overrides, path)
}

/// The base tree with the overrides applied. An override that sets an
/// entry replaces what the base holds at, above and below its path; one
/// that deletes removes what the base holds at and below its path. Where
/// one override sets an entry below the path of another, the path of the
/// other is a directory.
pub open spec fn spec_hydrate(base: TreeModel, overrides: OverrideModel) -> TreeModel {
    Map::new(
        |p: Seq<u8>| override_kept(overrides, p) || base_kept(base, overrides, p),
        |p: Seq<u8>|
            if override_kept(overrides, p) {
                overrides[p]->Some_0
            } else {
                base[p]
            },
    )
}

/// A directory above `path` is open in `tree` when it is no leaf there that
/// stands for a whole directory.
pub open spec fn open_along(tree: TreeModel, path: Seq<u8>) -> bool {
    forall|q: Seq<u8>| #[trigger]
        tree.contains_key(q) && is_ancestor(q, path) ==> tree[q].mode != crate::entry::FileMode::Tree
}

/// The names of the entries of the root of a tree: the first components
/// of the paths of its leaves.
pub open spec fn spec_heads(tree: TreeModel) -> Set<Seq<u8>> {
    Set::new(
        |h: Seq<u8>| exists|p: Seq<u8>| tree.contains_key(p) && crate::path::spec_head(p) == h,
    )
}

/// The path of `tail` inside the directory `name`.
pub open spec fn spec_join(name: Seq<u8>, tail: Seq<u8>) -> Seq<u8> {
    name + seq![crate::path::SEPARATOR] + tail
}

/// What lies inside the directory `name` of a tree: the leaves below it,
/// each at its path from there.
pub open spec fn spec_subtree(tree: TreeModel, name: Seq<u8>) -> TreeModel {
    Map::new(
        |tail: Seq<u8>| tree.contains_key(spec_join(name, tail)),
        |tail: Seq<u8>| tree[spec_join(name, tail)],
    )
}

/// A path below a directory is the path of the directory, a separator,
/// and the rest.
pub proof fn lemma_join_split(name: Seq<u8>, path: Seq<u8>)
    requires
        is_ancestor(name, path),
    ensures
        path == spec_join(name, path.subrange(name.len() as int + 1, path.len() as int)),
{
    assert(path =~= spec_join(name, path.subrange(name.len() as int + 1, path.len() as int)));
}

/// A path put together from a directory and a rest lies below the
/// directory, and the rest is what follows the separator.
pub proof fn lemma_split_join(name: Seq<u8>, tail: Seq<u8>)
    ensures
        tail.len() > 0 ==> is_ancestor(name, spec_join(name, tail)),
        spec_join(name, tail).subrange(name.len() as int + 1, spec_join(name, tail).len() as int)
            == tail,
        spec_join(name, tail).len() == name.len() + 1 + tail.len(),
{
    let p = spec_join(name, tail);
    assert(p.subrange(name.len() as int + 1, p.len() as int) =~= tail);
    assert(p.subrange(0, name.len() as int) =~= name);
}

/// What lies inside a directory of a tree in which no leaf lies below
/// another is such a tree again.
pub proof fn lemma_subtree_prefix_free(tree: TreeModel, name: Seq<u8>)
    requires
        prefix_free(tree),
    ensures
        prefix_free(spec_subtree(tree, name)),
{
    let sub = spec_subtree(tree, name);
    assert forall|p: Seq<u8>, q: Seq<u8>|
        sub.contains_key(p) && sub.contains_key(q) implies !is_ancestor(p, q) by {
        if is_ancestor(p, q) {
            let a = spec_join(name, p);
            let b = spec_join(name, q);
            assert(b.subrange(0, a.len() as int) =~= a);
            assert(b[a.len() as int] == q[p.len() as int]);
            assert(is_ancestor(a, b));
        }
    }
}

/// The overrides that put back, at each of `paths`, what `tree` holds
/// there.
pub open spec fn overrides_from(tree: TreeModel, paths: Set<Seq<u8>>) -> OverrideModel {
    Map::new(|p: Seq<u8>| paths.contains(p), |p: Seq<u8>| entry_at(tree, p))
}

/// A tree held in memory as the list of its leaves. A leaf whose mode is
/// that of a tree stands for a whole directory that was not looked into.
pub struct SparseTree {
    leaves: PathMap<TreeEntry>,
}

impl SparseTree {
    #[verifier::type_invariant]
    closed spec fn inv(self) -> bool {
        prefix_free(self.leaves@)
    }

    /// The leaves of the tree by their paths.
    pub closed spec fn view(&self) -> TreeModel {
        self.leaves@
    }

    /// The paths of the leaves in the order in which they are stored.
    pub closed spec fn path_seq(&self) -> Seq<Seq<u8>> {
        self.leaves.key_seq()
    }

    /// The tree without any leaf.
    pub fn empty() -> (res: SparseTree)
        ensures
            res@ == Map::<Seq<u8>, TreeEntry>::empty(),
    {
        SparseTree { leaves: PathMap::new() }
    }

    /// The number of leaves.
    pub fn len(&self) -> (res: usize)
        ensures
            res == self.path_seq().len(),
            res == self@.dom().len(),
            self@.dom().finite(),
            self.path_seq().no_duplicates(),
            self@.dom() == self.path_seq().to_set(),
            prefix_free(self@),
    {
        proof {
            use_type_invariant(self);
        }
        self.leaves.len()
    }

    /// The path of the leaf stored at position `i`.
    pub fn path_at(&self, i: usize) -> (res: &Vec<u8>)
        requires
            i < self.path_seq().len(),
        ensures
            res@ == self.path_seq()[i as int],
            self@.contains_key(res@),
    {
        self.leaves.key_at(i)
    }

    /// The entry of the leaf stored at position `i`.
    pub fn entry_at_index(&self, i: usize) -> (res: TreeEntry)
        requires
            i < self.path_seq().len(),
        ensures
            self@.contains_key(self.path_seq()[i as int]),
            res == self@[self.path_seq()[i as int]],
    {
        self.leaves.value_at(i)
    }

    /// What the tree holds at `path`, if anything.
    pub fn get(&self, path: &[u8]) -> (res: Option<TreeEntry>)
        ensures
            res == entry_at(self@, path@),
    {
        self.leaves.get(path)
    }

    /// Whether a leaf lies at `path`, above it or below it.
    pub fn touches(&self, path: &[u8]) -> (res: bool)
        ensures
            res == (exists|q: Seq<u8>| #[trigger]
                self@.contains_key(q) && (q == path@ || is_ancestor(q, path@) || is_ancestor(
                    path@,
                    q,
                ))),
    {
        let n = self.leaves.len();
        let mut i: usize = 0;
        while i < n
            invariant
                i <= n,
                n == self.leaves.key_seq().len(),
                self.leaves@.dom() == self.leaves.key_seq().to_set(),
                forall|j: int|
                    0 <= j < i ==> {
                        let q = #[trigger] self.leaves.key_seq()[j];
                        !(q == path@ || is_ancestor(q, path@) || is_ancestor(path@, q))
                    },
            decreases n - i,
        {
            let q = self.leaves.key_at(i);
            if crate::bytes::bytes_eq(q.as_slice(), path) || is_ancestor_of(q.as_slice(), path)
                || is_ancestor_of(path, q.as_slice()) {
                assert(self@.contains_key(q@));
                return true;
            }
            i += 1;
        }
        proof {
            assert forall|q: Seq<u8>| #[trigger] self@.contains_key(q) implies !(q == path@
                || is_ancestor(q, path@) || is_ancestor(path@, q)) by {
                assert(self.leaves.key_seq().to_set().contains(q));
                let j = self.leaves.key_seq().index_of(q);
                assert(self.leaves.key_seq()[j] == q);
            }
        }
        false
    }

    /// The leaves as a list, each with its path.
    pub fn to_items(&self) -> (res: Vec<crate::layout::TreeItem>)
        ensures
            res@.len() == self.path_seq().len(),
            forall|i: int|
                0 <= i < res@.len() ==> (#[trigger] res@[i]).name@ == self.path_seq()[i]
                    && self@.contains_key(self.path_seq()[i]) && res@[i].entry
                    == self@[self.path_seq()[i]],
    {
        let n = self.len();
        let mut out: Vec<crate::layout::TreeItem> = Vec::new();
        let mut i: usize = 0;
        while i < n
            invariant
                i <= n,
                n == self.path_seq().len(),
                out@.len() == i,
                forall|j: int|
                    0 <= j < i ==> (#[trigger] out@[j]).name@ == self.path_seq()[j]
                        && self@.contains_key(self.path_seq()[j]) && out@[j].entry
                        == self@[self.path_seq()[j]],
            decreases n - i,
        {
            let name = crate::bytes::copy_bytes(self.path_at(i).as_slice());
            let entry = self.entry_at_index(i);
            out.push(crate::layout::TreeItem { name, entry });
            i += 1;
        }
        out
    }

    /// The names of the entries of the root of the tree. There are none
    /// to be had where the path of a leaf cannot be laid out: where its
    /// first component is empty, or nothing follows its first separator.
    pub fn heads(&self) -> (res: Option<PathSet>)
        ensures
            res is None <==> exists|p: Seq<u8>|
                self@.contains_key(p) && !crate::layout::can_lay_out(p),
            res matches Some(names) ==> names@ == spec_heads(self@),
    {
        let mut out = PathSet::new();
        let n = self.leaves.len();
        let mut i: usize = 0;
        while i < n
            invariant
                i <= n,
                n == self.leaves.key_seq().len(),
                self.leaves@.dom() == self.leaves.key_seq().to_set(),
                forall|j: int|
                    0 <= j < i ==> crate::layout::can_lay_out(#[trigger] self.leaves.key_seq()[j]),
                forall|h: Seq<u8>|
                    out@.contains(h) <==> exists|j: int|
                        0 <= j < i && crate::path::spec_head(#[trigger] self.leaves.key_seq()[j])
                            == h,
            decreases n - i,
        {
            let key = self.leaves.key_at(i);
            let (head, tail) = crate::path::split_first(key.as_slice());
            let fits = head.len() > 0 && match &tail {
                Some(t) => t.len() > 0,
                None => true,
            };
            if !fits {
                assert(self@.contains_key(key@) && !crate::layout::can_lay_out(key@));
                return None;
            }
            let ghost before = out@;
            out.insert(head.as_slice());
            proof {
                assert forall|h: Seq<u8>| out@.contains(h) <==> exists|j: int|
                    0 <= j < i + 1 && crate::path::spec_head(
                        #[trigger] self.leaves.key_seq()[j],
                    ) == h by {
                    if before.contains(h) {
                        let j = choose|j: int|
                            0 <= j < i && crate::path::spec_head(
                                #[trigger] self.leaves.key_seq()[j],
                            ) == h;
                        assert(0 <= j < i + 1);
                    }
                    if h == head@ {
                        assert(crate::path::spec_head(self.leaves.key_seq()[i as int]) == h);
                    }
                    if exists|j: int|
                        0 <= j < i + 1 && crate::path::spec_head(
                            #[trigger] self.leaves.key_seq()[j],
                        ) == h {
                        let j = choose|j: int|
                            0 <= j < i + 1 && crate::path::spec_head(
                                #[trigger] self.leaves.key_seq()[j],
                            ) == h;
                        if j < i {
                            assert(before.contains(h));
                        }
                    }
                }
            }
            i += 1;
        }
        proof {
            assert forall|p: Seq<u8>| self@.contains_key(p) implies crate::layout::can_lay_out(
                p,
            ) by {
                assert(self.leaves.key_seq().to_set().contains(p));
                let j = self.leaves.key_seq().index_of(p);
                assert(self.leaves.key_seq()[j] == p);
            }
            assert forall|h: Seq<u8>| out@.contains(h) <==> spec_heads(self@).contains(h) by {
                if out@.contains(h) {
                    let j = choose|j: int|
                        0 <= j < n && crate::path::spec_head(
                            #[trigger] self.leaves.key_seq()[j],
                        ) == h;
                    let p = self.leaves.key_seq()[j];
                    assert(self.leaves.key_seq().to_set().contains(p));
                    assert(self@.contains_key(p) && crate::path::spec_head(p) == h);
                }
                if spec_heads(self@).contains(h) {
                    let p = choose|p: Seq<u8>|
                        self@.contains_key(p) && crate::path::spec_head(p) == h;
                    assert(self.leaves.key_seq().to_set().contains(p));
                    let j = self.leaves.key_seq().index_of(p);
                    assert(self.leaves.key_seq()[j] == p);
                }
            }
            assert(out@ =~= spec_heads(self@));
        }
        Some(out)
    }

    /// What lies inside the directory `name` of the tree: the leaves below
    /// it, each at its path from there.
    pub fn subtree(&self, name: &[u8]) -> (res: SparseTree)
        ensures
            res@ == spec_subtree(self@, name@),
    {
        proof {
            use_type_invariant(self);
        }
        let ghost want = spec_subtree(self@, name@);
        let mut leaves: PathMap<TreeEntry> = PathMap::new();
        let n = self.leaves.len();
        let mut i: usize = 0;
        while i < n
            invariant
                i <= n,
                n == self.leaves.key_seq().len(),
                want == spec_subtree(self@, name@),
                forall|t: Seq<u8>| #[trigger]
                    leaves@.contains_key(t) <==> among(
                        self.leaves.key_seq(),
                        i as int,
                        spec_join(name@, t),
                    ),
                forall|t: Seq<u8>| #[trigger] leaves@.contains_key(t) ==> leaves@[t] == want[t],
            decreases n - i,
        {
            let key = self.leaves.key_at(i);
            let value = self.leaves.value_at(i);
            let ghost before = leaves@;
            proof {
                lemma_among_step(self.leaves.key_seq(), i as int);
            }
            if is_ancestor_of(name, key.as_slice()) {
                let from = name.len();
                let to = key.len();
                assert(from < to);
                let tail = crate::bytes::copy_range(key.as_slice(), from + 1, to);
                proof {
                    lemma_join_split(name@, key@);
                }
                leaves.insert(tail.as_slice(), value);
                proof {
                    assert forall|t: Seq<u8>| #[trigger]
                        leaves@.contains_key(t) <==> among(
                            self.leaves.key_seq(),
                            i as int + 1,
                            spec_join(name@, t),
                        ) by {
                        lemma_split_join(name@, t);
                        if t != tail@ {
                            assert(leaves@.contains_key(t) == before.contains_key(t));
                        }
                    }
                    assert forall|t: Seq<u8>| #[trigger] leaves@.contains_key(t) implies leaves@[t]
                        == want[t] by {
                        if t != tail@ {
                            assert(before.contains_key(t));
                        }
                    }
                }
            } else {
                proof {
                    assert forall|t: Seq<u8>| #[trigger]
                        leaves@.contains_key(t) <==> among(
                            self.leaves.key_seq(),
                            i as int + 1,
                            spec_join(name@, t),
                        ) by {
                        lemma_split_join(name@, t);
                        if key@ == spec_join(name@, t) {
                            if t.len() == 0 {
                                assert(key@.len() == name@.len() + 1);
                                assert(key@.subrange(0, name@.len() as int) =~= name@);
                            }
                        }
                    }
                }
            }
            i += 1;
        }
        proof {
            lemma_among_all(self.leaves.key_seq());
            assert forall|t: Seq<u8>| #[trigger] leaves@.contains_key(t) <==> want.contains_key(
                t,
            ) by {
                assert(self@.dom().contains(spec_join(name@, t)) == self@.contains_key(
                    spec_join(name@, t),
                ));
            }
            assert(leaves@ =~= want);
            lemma_subtree_prefix_free(self@, name@);
        }
        SparseTree { leaves }
    }

    /// Removes the leaf at `path`, if there is one.
    pub fn remove(&mut self, path: &[u8])
        ensures
            final(self)@ == old(self)@.remove(path@),
    {
        proof {
            use_type_invariant(&*self);
        }
        let mut leaves: PathMap<TreeEntry> = PathMap::new();
        std::mem::swap(&mut leaves, &mut self.leaves);
        leaves.remove(path);
        self.leaves = leaves;
    }

    /// Adds a leaf at `path`, unless a leaf lies there, above or below. Says
    /// whether the leaf was added.
    pub fn try_insert(&mut self, path: &[u8], entry: TreeEntry) -> (res: bool)
        ensures
            res ==> final(self)@ == old(self)@.insert(path@, entry) && !old(self)@.contains_key(
                path@,
            ),
            !res ==> final(self)@ == old(self)@,
            res == !(exists|q: Seq<u8>| #[trigger]
                old(self)@.contains_key(q) && (q == path@ || is_ancestor(q, path@) || is_ancestor(
                    path@,
                    q,
                ))),
    {
        proof {
            use_type_invariant(&*self);
        }
        if self.touches(path) {
            return false;
        }
        let ghost before = self.leaves@;
        assert(forall|q: Seq<u8>| #[trigger]
            self@.contains_key(q) ==> !(q == path@ || is_ancestor(q, path@) || is_ancestor(
                path@,
                q,
            )));
        let mut leaves: PathMap<TreeEntry> = PathMap::new();
        std::mem::swap(&mut leaves, &mut self.leaves);
        leaves.insert(path, entry);
        proof {
            assert forall|p: Seq<u8>, q: Seq<u8>|
                leaves@.contains_key(p) && leaves@.contains_key(q) implies !is_ancestor(p, q) by {
                if p != path@ {
                    assert(before.contains_key(p));
                    assert(old(self)@.contains_key(p));
                }
                if q != path@ {
                    assert(before.contains_key(q));
                    assert(old(self)@.contains_key(q));
                }
            }
        }
        self.leaves = leaves;
        true
    }
}

/// The model of an optional tree: no tree holds nothing.
pub open spec fn model_of(tree: Option<&SparseTree>) -> TreeModel {
    match tree {
        Some(t) => t@,
        None => Map::empty(),
    }
}

/// `p` is one of the first `i` elements of `keys`.
pub open spec fn among(keys: Seq<Seq<u8>>, i: int, p: Seq<u8>) -> bool {
    exists|j: int| 0 <= j < i && j < keys.len() && #[trigger] keys[j] == p
}

pub proof fn lemma_among_step(keys: Seq<Seq<u8>>, i: int)
    requires
        0 <= i < keys.len(),
    ensures
        forall|p: Seq<u8>| among(keys, i + 1, p) <==> (among(keys, i, p) || p == keys[i]),
{
    assert forall|p: Seq<u8>| among(keys, i + 1, p) <==> (among(keys, i, p) || p
        == keys[i]) by {
        if among(keys, i + 1, p) {
            let j = choose|j: int| 0 <= j < i + 1 && j < keys.len() && #[trigger] keys[j] == p;
            if j < i {
                assert(among(keys, i, p));
            }
        }
        if among(keys, i, p) {
            let j = choose|j: int| 0 <= j < i && j < keys.len() && #[trigger] keys[j] == p;
            assert(0 <= j < i + 1 && keys[j] == p);
        }
        if p == keys[i] {
            assert(0 <= i < i + 1 && keys[i] == p);
        }
    }
}

pub proof fn lemma_among_all(keys: Seq<Seq<u8>>)
    ensures
        forall|p: Seq<u8>| among(keys, keys.len() as int, p) <==> keys.to_set().contains(p),
{
    assert forall|p: Seq<u8>| among(keys, keys.len() as int, p) <==> keys.to_set().contains(
        p,
    ) by {
        if among(keys, keys.len() as int, p) {
            let j = choose|j: int| 0 <= j < keys.len() && j < keys.len() && #[trigger] keys[j] == p;
            assert(keys.contains(p));
        }
        if keys.to_set().contains(p) {
            assert(keys.contains(p));
            let j = keys.index_of(p);
            assert(0 <= j < keys.len() && keys[j] == p);
        }
    }
}

/// The paths at which two trees differ. A tree that is not there holds
/// nothing.
pub fn get_changed_paths(old_tree: Option<&SparseTree>, new_tree: Option<&SparseTree>) -> (res:
    PathSet)
    ensures
        res@ == spec_changed_paths(model_of(old_tree), model_of(new_tree)),
{
    let none = SparseTree::empty();
    let lhs: &SparseTree = match old_tree {
        Some(t) => t,
        None => &none,
    };
    let rhs: &SparseTree = match new_tree {
        Some(t) => t,
        None => &none,
    };
    assert(lhs@ == model_of(old_tree) && rhs@ == model_of(new_tree));
    let mut out = PathSet::new();
    let n = lhs.len();
    let mut i: usize = 0;
    while i < n
        invariant
            i <= n,
            n == lhs.path_seq().len(),
            forall|p: Seq<u8>|
                out@.contains(p) <==> (among(lhs.path_seq(), i as int, p) && entry_at(lhs@, p)
                    != entry_at(rhs@, p)),
        decreases n - i,
    {
        let path = lhs.path_at(i);
        let ours = Some(lhs.entry_at_index(i));
        let theirs = rhs.get(path.as_slice());
        proof {
            lemma_among_step(lhs.path_seq(), i as int);
        }
        if !same_entry(&ours, &theirs) {
            out.insert(path.as_slice());
        }
        i += 1;
    }
    let m = rhs.len();
    let mut k: usize = 0;
    while k < m
        invariant
            k <= m,
            m == rhs.path_seq().len(),
            n == lhs.path_seq().len(),
            forall|p: Seq<u8>|
                out@.contains(p) <==> ((among(lhs.path_seq(), n as int, p) || among(
                    rhs.path_seq(),
                    k as int,
                    p,
                )) && entry_at(lhs@, p) != entry_at(rhs@, p)),
        decreases m - k,
    {
        let path = rhs.path_at(k);
        let theirs = Some(rhs.entry_at_index(k));
        let ours = lhs.get(path.as_slice());
        proof {
            lemma_among_step(rhs.path_seq(), k as int);
        }
        if !same_entry(&ours, &theirs) {
            out.insert(path.as_slice());
        }
        k += 1;
    }
    proof {
        lemma_among_all(lhs.path_seq());
        lemma_among_all(rhs.path_seq());
        assert(out@ =~= spec_changed_paths(lhs@, rhs@));
    }
    out
}

/// The tree that holds, of `tree`, the leaves at `paths` and nothing else:
/// each entry is taken over as it is, and a path at which `tree` has no
/// leaf is left out.
pub fn dehydrate(tree: &SparseTree, paths: &PathSet) -> (res: SparseTree)
    ensures
        res@ == spec_dehydrate(tree@, paths@),
{
    let mut leaves: PathMap<TreeEntry> = PathMap::new();
    let n = tree.len();
    let mut i: usize = 0;
    while i < n
        invariant
            i <= n,
            n == tree.path_seq().len(),
            tree.path_seq().no_duplicates(),
            forall|p: Seq<u8>| #[trigger]
                leaves@.contains_key(p) <==> (among(tree.path_seq(), i as int, p)
                    && paths@.contains(p)),
            forall|p: Seq<u8>| #[trigger] leaves@.contains_key(p) ==> leaves@[p] == tree@[p],
        decreases n - i,
    {
        let path = tree.path_at(i);
        let ghost before = leaves@;
        proof {
            lemma_among_step(tree.path_seq(), i as int);
        }
        if paths.contains(path.as_slice()) {
            leaves.insert(path.as_slice(), tree.entry_at_index(i));
        }
        proof {
            assert forall|p: Seq<u8>| #[trigger]
                leaves@.contains_key(p) <==> (among(tree.path_seq(), i as int + 1, p)
                    && paths@.contains(p)) by {
                if p != path@ {
                    assert(leaves@.contains_key(p) == before.contains_key(p));
                }
            }
        }
        i += 1;
    }
    proof {
        lemma_among_all(tree.path_seq());
        assert forall|p: Seq<u8>| #[trigger]
            leaves@.contains_key(p) <==> spec_dehydrate(tree@, paths@).contains_key(p) by {
            assert(tree@.dom().contains(p) == tree@.contains_key(p));
        }
        assert(leaves@ =~= spec_dehydrate(tree@, paths@));
        lemma_dehydrate_prefix_free(tree@, paths@);
    }
    SparseTree { leaves }
}

/// A part of a tree in which no leaf lies below another has that property
/// too.
pub proof fn lemma_dehydrate_prefix_free(tree: TreeModel, paths: Set<Seq<u8>>)
    requires
        prefix_free(tree),
    ensures
        prefix_free(spec_dehydrate(tree, paths)),
{
}

/// Whether some override names a directory above `path`.
pub fn has_override_above(overrides: &TreeOverrides, path: &[u8]) -> (res: bool)
    ensures
        res == overridden_above(overrides@, path@),
{
    let n = overrides.len();
    let mut i: usize = 0;
    while i < n
        invariant
            i <= n,
            n == overrides.key_seq().len(),
            forall|j: int| 0 <= j < i ==> !is_ancestor(#[trigger] overrides.key_seq()[j], path@),
        decreases n - i,
    {
        let key = overrides.key_at(i);
        if is_ancestor_of(key.as_slice(), path) {
            assert(overrides@.contains_key(key@) && is_ancestor(key@, path@));
            return true;
        }
        i += 1;
    }
    proof {
        assert forall|p: Seq<u8>| overrides@.contains_key(p) implies !is_ancestor(p, path@) by {
            assert(overrides.key_seq().to_set().contains(p));
            let j = overrides.key_seq().index_of(p);
            assert(overrides.key_seq()[j] == p);
        }
    }
    false
}

/// Whether some override sets an entry below `path`.
pub fn has_set_below(overrides: &TreeOverrides, path: &[u8]) -> (res: bool)
    ensures
        res == set_below(overrides@, path@),
{
    let n = overrides.len();
    let mut i: usize = 0;
    while i < n
        invariant
            i <= n,
            n == overrides.key_seq().len(),
            n == overrides.val_seq().len(),
            forall|j: int|
                0 <= j < i ==> !(overrides.val_seq()[j] is Some && is_ancestor(
                    path@,
                    #[trigger] overrides.key_seq()[j],
                )),
        decreases n - i,
    {
        let key = overrides.key_at(i);
        let value = overrides.value_at(i);
        if value.is_some() && is_ancestor_of(path, key.as_slice()) {
            assert(overrides@.contains_key(key@) && overrides@[key@] is Some && is_ancestor(
                path@,
                key@,
            ));
            return true;
        }
        i += 1;
    }
    proof {
        assert forall|p: Seq<u8>|
            overrides@.contains_key(p) && overrides@[p] is Some implies !is_ancestor(
            path@,
            p,
        ) by {
            assert(overrides.key_seq().to_set().contains(p));
            let j = overrides.key_seq().index_of(p);
            assert(overrides.key_seq()[j] == p);
            crate::pathmap::lemma_index_of_unique(overrides.key_seq(), j);
        }
    }
    false
}

/// Applying overrides to a tree in which no leaf lies below another gives
/// such a tree again.
pub proof fn lemma_hydrate_prefix_free(base: TreeModel, overrides: OverrideModel)
    requires
        prefix_free(base),
    ensures
        prefix_free(spec_hydrate(base, overrides)),
{
    let res = spec_hydrate(base, overrides);
    assert forall|p: Seq<u8>, q: Seq<u8>|
        res.contains_key(p) && res.contains_key(q) implies !is_ancestor(p, q) by {
        if is_ancestor(p, q) {
            if override_kept(overrides, q) {
                assert(overrides.contains_key(q) && overrides[q] is Some && is_ancestor(p, q));
                assert(set_below(overrides, p));
            } else {
                assert(base_kept(base, overrides, q));
                if override_kept(overrides, p) {
                    assert(overrides.contains_key(p) && is_ancestor(p, q));
                    assert(overridden_above(overrides, q));
                }
            }
        }
    }
}

/// The base tree with the overrides applied: an entry is set where an
/// override holds one and deleted where it holds none, and what no override
/// touches stays as it is. No base tree means an empty one.
pub fn hydrate(base: Option<&SparseTree>, overrides: &TreeOverrides) -> (res: SparseTree)
    ensures
        res@ == spec_hydrate(model_of(base), overrides@),
{
    let none = SparseTree::empty();
    let tree: &SparseTree = match base {
        Some(t) => t,
        None => &none,
    };
    assert(tree@ == model_of(base));
    let ghost want = spec_hydrate(tree@, overrides@);
    let mut leaves: PathMap<TreeEntry> = PathMap::new();
    let n = tree.len();
    let mut i: usize = 0;
    while i < n
        invariant
            i <= n,
            n == tree.path_seq().len(),
            want == spec_hydrate(tree@, overrides@),
            forall|p: Seq<u8>| #[trigger]
                leaves@.contains_key(p) <==> (among(tree.path_seq(), i as int, p) && base_kept(
                    tree@,
                    overrides@,
                    p,
                )),
            forall|p: Seq<u8>| #[trigger] leaves@.contains_key(p) ==> leaves@[p] == want[p],
        decreases n - i,
    {
        let path = tree.path_at(i);
        let ghost before = leaves@;
        proof {
            lemma_among_step(tree.path_seq(), i as int);
        }
        if !overrides.contains(path.as_slice()) && !has_override_above(overrides, path.as_slice())
            && !has_set_below(overrides, path.as_slice()) {
            leaves.insert(path.as_slice(), tree.entry_at_index(i));
        }
        proof {
            assert forall|p: Seq<u8>| #[trigger]
                leaves@.contains_key(p) <==> (among(tree.path_seq(), i as int + 1, p)
                    && base_kept(tree@, overrides@, p)) by {
                if p != path@ {
                    assert(leaves@.contains_key(p) == before.contains_key(p));
                }
            }
            assert forall|p: Seq<u8>| #[trigger] leaves@.contains_key(p) implies leaves@[p]
                == want[p] by {
                if p != path@ {
                    assert(before.contains_key(p));
                }
            }
        }
        i += 1;
    }
    proof {
        lemma_among_all(tree.path_seq());
    }
    let m = overrides.len();
    let mut k: usize = 0;
    while k < m
        invariant
            k <= m,
            m == overrides.key_seq().len(),
            want == spec_hydrate(tree@, overrides@),
            forall|p: Seq<u8>| #[trigger]
                leaves@.contains_key(p) <==> (base_kept(tree@, overrides@, p) || (among(
                    overrides.key_seq(),
                    k as int,
                    p,
                ) && override_kept(overrides@, p))),
            forall|p: Seq<u8>| #[trigger] leaves@.contains_key(p) ==> leaves@[p] == want[p],
        decreases m - k,
    {
        let path = overrides.key_at(k);
        let value = overrides.value_at(k);
        let ghost before = leaves@;
        proof {
            lemma_among_step(overrides.key_seq(), k as int);
        }
        match value {
            Some(entry) => {
                if !has_set_below(overrides, path.as_slice()) {
                    leaves.insert(path.as_slice(), entry);
                }
            },
            None => {},
        }
        proof {
            assert forall|p: Seq<u8>| #[trigger]
                leaves@.contains_key(p) <==> (base_kept(tree@, overrides@, p) || (among(
                    overrides.key_seq(),
                    k as int + 1,
                    p,
                ) && override_kept(overrides@, p))) by {
                if p != path@ {
                    assert(leaves@.contains_key(p) == before.contains_key(p));
                }
            }
            assert forall|p: Seq<u8>| #[trigger] leaves@.contains_key(p) implies leaves@[p]
                == want[p] by {
                if p != path@ {
                    assert(before.contains_key(p));
                }
            }
        }
        k += 1;
    }
    proof {
        lemma_among_all(overrides.key_seq());
        assert forall|p: Seq<u8>| #[trigger] leaves@.contains_key(p) <==> want.contains_key(p) by {
            if override_kept(overrides@, p) {
                assert(overrides@.dom().contains(p));
            }
        }
        assert(leaves@ =~= want);
        lemma_hydrate_prefix_free(tree@, overrides@);
    }
    SparseTree { leaves }
}

/// A tree does not differ from itself at any path.
pub proof fn law_unchanged_against_itself(tree: TreeModel)
    ensures
        spec_changed_paths(tree, tree) == Set::<Seq<u8>>::empty(),
{
    assert(spec_changed_paths(tree, tree) =~= Set::<Seq<u8>>::empty());
}

/// Against no tree at all, a tree differs at each of its paths and nowhere
/// else.
pub proof fn law_all_changed_against_nothing(tree: TreeModel)
    ensures
        spec_changed_paths(Map::empty(), tree) == tree.dom(),
{
    assert(spec_changed_paths(Map::empty(), tree) =~= tree.dom());
}

/// The changed paths do not depend on which tree is taken as the old one.
pub proof fn law_changed_paths_symmetric(a: TreeModel, b: TreeModel)
    ensures
        spec_changed_paths(a, b) == spec_changed_paths(b, a),
{
    assert(spec_changed_paths(a, b) =~= spec_changed_paths(b, a));
}

/// A dehydrated tree holds a leaf exactly at the requested paths at which
/// the source holds one, and there it holds the same entry.
pub proof fn law_dehydrate_exact(tree: TreeModel, paths: Set<Seq<u8>>, p: Seq<u8>)
    ensures
        entry_at(spec_dehydrate(tree, paths), p) == if paths.contains(p) {
            entry_at(tree, p)
        } else {
            None
        },
{
}

/// Applying no override leaves a tree as it is.
pub proof fn law_hydrate_nothing(base: TreeModel)
    ensures
        spec_hydrate(base, Map::empty()) == base,
{
    assert(spec_hydrate(base, Map::empty()) =~= base);
}

/// Putting back into a tree what was dehydrated from it gives the tree
/// itself. This holds where none of the paths names a directory of the
/// tree that has leaves below it.
pub proof fn law_dehydrate_hydrate_round_trip(tree: TreeModel, paths: Set<Seq<u8>>)
    requires
        prefix_free(tree),
        forall|p: Seq<u8>, q: Seq<u8>|
            paths.contains(p) && tree.contains_key(q) ==> !is_ancestor(p, q),
    ensures
        spec_hydrate(tree, overrides_from(spec_dehydrate(tree, paths), paths)) == tree,
{
    let overrides = overrides_from(spec_dehydrate(tree, paths), paths);
    let res = spec_hydrate(tree, overrides);
    assert forall|p: Seq<u8>| res.contains_key(p) <==> tree.contains_key(p) by {
        if tree.contains_key(p) {
            assert(!set_below(overrides, p)) by {
                if set_below(overrides, p) {
                    let q = choose|q: Seq<u8>|
                        overrides.contains_key(q) && overrides[q] is Some && is_ancestor(p, q);
                    assert(tree.contains_key(q));
                }
            }
            assert(!overridden_above(overrides, p));
            if paths.contains(p) {
                assert(override_kept(overrides, p));
            } else {
                assert(base_kept(tree, overrides, p));
            }
        }
    }
    assert(res =~= tree);
}

/// Writing into the old tree what the new tree holds at the paths at
/// which the two differ gives the new tree: to carry a change over, the
/// changed paths are all that has to be looked at.
pub proof fn law_changes_rebuild_the_new_tree(old_tree: TreeModel, new_tree: TreeModel)
    requires
        prefix_free(old_tree),
        prefix_free(new_tree),
    ensures
        spec_hydrate(
            old_tree,
            overrides_from(new_tree, spec_changed_paths(old_tree, new_tree)),
        ) == new_tree,
{
    let changed = spec_changed_paths(old_tree, new_tree);
    let overrides = overrides_from(new_tree, changed);
    let res = spec_hydrate(old_tree, overrides);
    assert forall|p: Seq<u8>| overrides.contains_key(p) implies old_tree.contains_key(p)
        || new_tree.contains_key(p) by {
        assert(changed.contains(p));
    }
    assert forall|q: Seq<u8>|
        (old_tree.contains_key(q) || new_tree.contains_key(q)) implies !overridden_above(
        overrides,
        q,
    ) || !(old_tree.contains_key(q) && new_tree.contains_key(q)) by {
        if overridden_above(overrides, q) && old_tree.contains_key(q) && new_tree.contains_key(q) {
            let p = choose|p: Seq<u8>| overrides.contains_key(p) && is_ancestor(p, q);
            assert(old_tree.contains_key(p) || new_tree.contains_key(p));
        }
    }
    assert forall|q: Seq<u8>| new_tree.contains_key(q) implies !set_below(overrides, q) by {
        if set_below(overrides, q) {
            let p = choose|p: Seq<u8>|
                overrides.contains_key(p) && overrides[p] is Some && is_ancestor(q, p);
            assert(new_tree.contains_key(p));
        }
    }
    assert forall|q: Seq<u8>| res.contains_key(q) <==> new_tree.contains_key(q) by {
        if new_tree.contains_key(q) {
            if changed.contains(q) {
                assert(override_kept(overrides, q));
            } else {
                assert(old_tree.contains_key(q));
                assert(base_kept(old_tree, overrides, q));
            }
        }
        if res.contains_key(q) && !override_kept(overrides, q) {
            assert(base_kept(old_tree, overrides, q));
            assert(!changed.contains(q));
        }
    }
    assert(res =~= new_tree);
}

/// Two trees cut down to a set of paths differ where the whole trees
/// differ at one of those paths: cutting trees down to the paths at which
/// they differ loses nothing of their difference.
pub proof fn law_dehydrate_keeps_changes(a: TreeModel, b: TreeModel, paths: Set<Seq<u8>>)
    ensures
        spec_changed_paths(spec_dehydrate(a, paths), spec_dehydrate(b, paths))
            == spec_changed_paths(a, b).intersect(paths),
{
    assert(spec_changed_paths(spec_dehydrate(a, paths), spec_dehydrate(b, paths))
        =~= spec_changed_paths(a, b).intersect(paths));
}

/// Where every directory above an override is open in the base, no leaf
/// that stands for a whole directory is lost to an override below it: such
/// a leaf stays unless an override lies at its path or above it.
pub proof fn law_hydrate_keeps_closed_directories(
    base: TreeModel,
    overrides: OverrideModel,
    q: Seq<u8>,
)
    requires
        forall|p: Seq<u8>| #[trigger] overrides.contains_key(p) ==> open_along(base, p),
        base.contains_key(q),
        base[q].mode == crate::entry::FileMode::Tree,
        !overrides.contains_key(q),
        !overridden_above(overrides, q),
    ensures
        entry_at(spec_hydrate(base, overrides), q) == Some(base[q]),
{
    if set_below(overrides, q) {
        let p = choose|p: Seq<u8>|
            overrides.contains_key(p) && overrides[p] is Some && is_ancestor(q, p);
        assert(open_along(base, p));
    }
}

/// A path that no override lies at, above or below keeps what the base
/// holds there.
pub proof fn law_hydrate_keeps_untouched(base: TreeModel, overrides: OverrideModel, p: Seq<u8>)
    requires
        forall|q: Seq<u8>| #[trigger]
            overrides.contains_key(q) ==> q != p && !is_ancestor(q, p) && !is_ancestor(p, q),
    ensures
        entry_at(spec_hydrate(base, overrides), p) == entry_at(base, p),
{
    assert(!overridden_above(overrides, p));
    assert(!set_below(overrides, p));
}

/// An override that sets an entry, with no other override setting one
/// below it, has its entry in the result; one that deletes leaves nothing
/// at its path.
pub proof fn law_hydrate_applies_override(base: TreeModel, overrides: OverrideModel, p: Seq<u8>)
    requires
        overrides.contains_key(p),
        !set_below(overrides, p),
    ensures
        entry_at(spec_hydrate(base, overrides), p) == overrides[p],
{
}

} // verus!
