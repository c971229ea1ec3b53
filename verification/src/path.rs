use vstd::prelude::*;
use crate::bytes::starts_with;
use crate::pathmap::PathMap;

verus! {

/// The byte that separates the components of a path.
pub const SEPARATOR: u8 = 47;

/// Whether `dir` names a directory above `path`: `path` is `dir`, a
/// separator, and something more.
pub open spec fn is_ancestor(dir: Seq<u8>, path: Seq<u8>) -> bool {
    &&& dir.len() < path.len()
    &&& path.subrange(0, dir.len() as int) == dir
    &&& path[dir.len() as int] == SEPARATOR
}

/// Whether `dir` names a directory above `path`.
pub fn is_ancestor_of(dir: &[u8], path: &[u8]) -> (res: bool)
    ensures
        res == is_ancestor(dir@, path@),
{
    if dir.len() >= path.len() {
        return false;
    }
    if path[dir.len()] != SEPARATOR {
        return false;
    }
    starts_with(path, dir)
}

/// Whether `k` is where the first component of `path` ends: at the first
/// separator, or at the end of a path without one.
pub open spec fn is_first_end(path: Seq<u8>, k: int) -> bool {
    &&& 0 <= k <= path.len()
    &&& (k == path.len() || path[k] == SEPARATOR)
    &&& forall|j: int| 0 <= j < k ==> path[j] != SEPARATOR
}

/// A path has one place where its first component ends.
pub proof fn lemma_first_end_unique(path: Seq<u8>, a: int, b: int)
    requires
        is_first_end(path, a),
        is_first_end(path, b),
    ensures
        a == b,
{
    if a < b {
        assert(path[a] != SEPARATOR);
    }
    if b < a {
        assert(path[b] != SEPARATOR);
    }
}

/// The first component of a path: what stands before its first separator.
pub open spec fn spec_head(path: Seq<u8>) -> Seq<u8> {
    path.subrange(0, choose|k: int| is_first_end(path, k))
}

/// What follows the first separator of a path; nothing for a path of one
/// component.
pub open spec fn spec_tail(path: Seq<u8>) -> Option<Seq<u8>> {
    let k = choose|k: int| is_first_end(path, k);
    if k == path.len() {
        None
    } else {
        Some(path.subrange(k + 1, path.len() as int))
    }
}

/// The first component of `path`, and what follows its first separator if
/// it has one.
pub fn split_first(path: &[u8]) -> (res: (Vec<u8>, Option<Vec<u8>>))
    ensures
        res.0@ == spec_head(path@),
        res.1 is Some == spec_tail(path@) is Some,
        res.1 matches Some(t) ==> Some(t@) == spec_tail(path@),
        res.1 matches Some(t) ==> path@ == res.0@ + seq![SEPARATOR] + t@,
        res.1 is None ==> path@ == res.0@,
        !res.0@.contains(SEPARATOR),
{
    let k = first_end(path);
    proof {
        let c = choose|c: int| is_first_end(path@, c);
        lemma_first_end_unique(path@, k as int, c);
    }
    let head = crate::bytes::copy_range(path, 0, k);
    assert(!head@.contains(SEPARATOR));
    if k == path.len() {
        assert(path@ =~= head@);
        (head, None)
    } else {
        let tail = crate::bytes::copy_range(path, k + 1, path.len());
        assert(path@ =~= head@ + seq![SEPARATOR] + tail@);
        (head, Some(tail))
    }
}

/// Where the first component of `path` ends.
pub fn first_end(path: &[u8]) -> (k: usize)
    ensures
        is_first_end(path@, k as int),
{
    let mut k: usize = 0;
    while k < path.len() && path[k] != SEPARATOR
        invariant
            k <= path.len(),
            forall|j: int| 0 <= j < k ==> path@[j] != SEPARATOR,
        decreases path.len() - k,
    {
        k += 1;
    }
    k
}

/// The path of `name` inside the directory `dir`; inside the root, whose
/// path is empty, it is `name` itself.
pub open spec fn spec_child_path(dir: Seq<u8>, name: Seq<u8>) -> Seq<u8> {
    if dir.len() == 0 {
        name
    } else {
        dir + seq![SEPARATOR] + name
    }
}

/// The path of `name` inside the directory `dir`.
pub fn child_path(dir: &[u8], name: &[u8]) -> (res: Vec<u8>)
    ensures
        res@ == spec_child_path(dir@, name@),
{
    if dir.len() == 0 {
        crate::bytes::copy_bytes(name)
    } else {
        let mut out = crate::bytes::copy_bytes(dir);
        out.push(SEPARATOR);
        assert(out@ =~= dir@ + seq![SEPARATOR]);
        let res = crate::bytes::concat_bytes(out.as_slice(), name);
        res
    }
}

/// Whether `name` can be the name of an entry of a tree: it is not empty
/// and holds neither a separator nor a NUL byte.
pub open spec fn is_entry_name(name: Seq<u8>) -> bool {
    &&& name.len() > 0
    &&& !name.contains(SEPARATOR)
    &&& !name.contains(0u8)
}

/// Whether a path leads to an entry of a tree: it is made of the names of
/// entries with one separator between each two, so that it is not empty,
/// neither begins nor ends with a separator, holds no two separators in a
/// row and no NUL byte.
pub open spec fn is_entry_path(path: Seq<u8>) -> bool {
    &&& path.len() > 0
    &&& path[0] != SEPARATOR
    &&& path[path.len() - 1] != SEPARATOR
    &&& !path.contains(0u8)
    &&& forall|i: int|
        0 <= i < path.len() - 1 ==> !(path[i] == SEPARATOR && #[trigger] path[i + 1] == SEPARATOR)
}

/// The path of an entry inside a directory leads to an entry, where the
/// path of the directory does, or is empty for the root.
pub proof fn lemma_child_is_entry_path(dir: Seq<u8>, name: Seq<u8>)
    requires
        dir.len() == 0 || is_entry_path(dir),
        is_entry_name(name),
    ensures
        is_entry_path(spec_child_path(dir, name)),
{
    let c = spec_child_path(dir, name);
    assert forall|k: int| 0 <= k < name.len() implies name[k] != SEPARATOR && name[k] != 0u8 by {
        assert(name.contains(name[k]));
    }
    if dir.len() == 0 {
        assert(!c.contains(0u8));
    } else {
        let n = dir.len() as int;
        assert forall|k: int| 0 <= k < n implies dir[k] != 0u8 by {
            assert(dir.contains(dir[k]));
        }
        assert forall|k: int| 0 <= k < c.len() implies c[k] != 0u8 by {
            if k < n {
                assert(c[k] == dir[k]);
            } else if k > n {
                assert(c[k] == name[k - n - 1]);
            }
        }
        assert(!c.contains(0u8));
        assert forall|i: int| 0 <= i < c.len() - 1 implies !(c[i] == SEPARATOR && #[trigger] c[i
            + 1] == SEPARATOR) by {
            if i + 1 < n {
                assert(c[i] == dir[i] && c[i + 1] == dir[i + 1]);
            } else if i + 1 == n {
                assert(c[i] == dir[n - 1]);
            } else {
                assert(c[i + 1] == name[i - n]);
            }
        }
        assert(c[0] == dir[0]);
        assert(c[c.len() - 1] == name[name.len() - 1]);
    }
}

/// Whether `name` can be the name of an entry of a tree.
pub fn check_entry_name(name: &[u8]) -> (res: bool)
    ensures
        res == is_entry_name(name@),
{
    if name.len() == 0 {
        return false;
    }
    let mut i: usize = 0;
    while i < name.len()
        invariant
            i <= name.len(),
            forall|j: int| 0 <= j < i ==> name@[j] != SEPARATOR && name@[j] != 0u8,
        decreases name.len() - i,
    {
        if name[i] == SEPARATOR || name[i] == 0 {
            assert(name@.contains(name@[i as int]));
            return false;
        }
        i += 1;
    }
    true
}

/// A finite set of paths.
#[derive(Debug)]
pub struct PathSet {
    map: PathMap<()>,
}

impl PathSet {
    /// The set that this value stands for.
    pub closed spec fn view(&self) -> Set<Seq<u8>> {
        self.map@.dom()
    }

    /// The paths in the order in which they are stored.
    pub closed spec fn seq(&self) -> Seq<Seq<u8>> {
        self.map.key_seq()
    }

    pub fn new() -> (res: PathSet)
        ensures
            res@ == Set::<Seq<u8>>::empty(),
    {
        let res = PathSet { map: PathMap::new() };
        assert(res@ =~= Set::<Seq<u8>>::empty());
        res
    }

    /// The number of paths in the set.
    pub fn len(&self) -> (res: usize)
        ensures
            res == self.seq().len(),
            res == self@.len(),
            self@.finite(),
            self.seq().no_duplicates(),
            self@ == self.seq().to_set(),
    {
        self.map.len()
    }

    pub fn is_empty(&self) -> (res: bool)
        ensures
            res == (self@ == Set::<Seq<u8>>::empty()),
    {
        self.map.is_empty()
    }

    /// The path stored at position `i`.
    pub fn get(&self, i: usize) -> (res: &Vec<u8>)
        requires
            i < self.seq().len(),
        ensures
            res@ == self.seq()[i as int],
            self@.contains(res@),
    {
        self.map.key_at(i)
    }

    pub fn contains(&self, path: &[u8]) -> (res: bool)
        ensures
            res == self@.contains(path@),
    {
        self.map.contains(path)
    }

    /// Adds `path` to the set.
    pub fn insert(&mut self, path: &[u8])
        ensures
            final(self)@ == old(self)@.insert(path@),
    {
        self.map.insert(path, ());
        assert(self.map@.dom() =~= old(self).map@.dom().insert(path@));
    }

    /// Adds every path of `other` to the set.
    pub fn extend(&mut self, other: &PathSet)
        ensures
            final(self)@ == old(self)@.union(other@),
    {
        let n = other.len();
        let mut i: usize = 0;
        while i < n
            invariant
                i <= n,
                n == other.seq().len(),
                other@ == other.seq().to_set(),
                self@ == old(self)@.union(other.seq().subrange(0, i as int).to_set()),
            decreases n - i,
        {
            let p = other.get(i);
            self.insert(p.as_slice());
            proof {
                let a = other.seq().subrange(0, i as int);
                let b = other.seq().subrange(0, i as int + 1);
                assert(b =~= a.push(other.seq()[i as int]));
                assert(b.to_set() =~= a.to_set().insert(other.seq()[i as int])) by {
                    assert forall|x: Seq<u8>| b.contains(x) <==> (a.contains(x) || x
                        == other.seq()[i as int]) by {
                        if a.contains(x) {
                            let j = a.index_of(x);
                            assert(b[j] == x);
                        }
                        if x == other.seq()[i as int] {
                            assert(b[i as int] == x);
                        }
                        if b.contains(x) {
                            let j = b.index_of(x);
                            if j < i {
                                assert(a[j] == x);
                            }
                        }
                    }
                }
                assert(self@ =~= old(self)@.union(b.to_set()));
            }
            i += 1;
        }
        assert(other.seq().subrange(0, n as int) =~= other.seq());
    }

    /// The paths of the set, in the order in which they are stored.
    pub fn to_vec(&self) -> (res: Vec<Vec<u8>>)
        ensures
            res@.len() == self.seq().len(),
            forall|i: int| 0 <= i < res@.len() ==> #[trigger] res@[i]@ == self.seq()[i],
    {
        let n = self.len();
        let mut out: Vec<Vec<u8>> = Vec::new();
        let mut i: usize = 0;
        while i < n
            invariant
                i <= n,
                n == self.seq().len(),
                out@.len() == i,
                forall|j: int| 0 <= j < i ==> #[trigger] out@[j]@ == self.seq()[j],
            decreases n - i,
        {
            let p = crate::bytes::copy_bytes(self.get(i).as_slice());
            out.push(p);
            i += 1;
        }
        out
    }
}

} // verus!
