use vstd::prelude::*;
use crate::entry::{FileMode, TreeEntry};
use crate::error::RepoError;
use crate::oid::MaybeZeroOid;
use crate::path::PathSet;
use crate::pathmap::PathMap;
use crate::sparse::{among, lemma_among_all, lemma_among_step, TreeOverrides};
use crate::store::{
    git_index_conflicts, git_index_get, git_index_has_conflicts, is_lookup_path, RawConflict,
};

verus! {

/// What an index holds at a path.
#[derive(Clone, Copy, Debug)]
pub struct IndexEntry {
    pub oid: MaybeZeroOid,
    pub file_mode: FileMode,
}

impl IndexEntry {
    /// The tree entry that an index entry stands for. An entry with the
    /// zero id holds no object and stands for none.
    pub open spec fn spec_tree_entry(self) -> Option<TreeEntry> {
        match self.oid {
            MaybeZeroOid::Zero => None,
            MaybeZeroOid::NonZero(oid) => Some(TreeEntry { oid, mode: self.file_mode }),
        }
    }

    pub fn to_tree_entry(&self) -> (res: Option<TreeEntry>)
        ensures
            res == self.spec_tree_entry(),
    {
        match self.oid {
            MaybeZeroOid::Zero => None,
            MaybeZeroOid::NonZero(oid) => Some(TreeEntry { oid, mode: self.file_mode }),
        }
    }
}

/// The tree entry to write for what an index holds at a path: none where
/// the index holds nothing, and none where it holds the zero id.
pub open spec fn spec_merged_entry(found: Option<IndexEntry>) -> Option<TreeEntry> {
    match found {
        Some(entry) => entry.spec_tree_entry(),
        None => None,
    }
}

/// The tree entry to write for what an index holds at a path.
pub fn merged_entry(found: Option<IndexEntry>) -> (res: Option<TreeEntry>)
    ensures
        res == spec_merged_entry(found),
{
    match found {
        Some(entry) => entry.to_tree_entry(),
        None => None,
    }
}

/// Whether a conflict names `path` on one of its sides.
pub open spec fn conflict_names(conflict: RawConflict, path: Seq<u8>) -> bool {
    ||| (conflict.ancestor matches Some(p) && p@ == path)
    ||| (conflict.our matches Some(p) && p@ == path)
    ||| (conflict.their matches Some(p) && p@ == path)
}

/// The paths that the conflicts name: every path on any side of any of
/// them.
pub open spec fn spec_conflicting_paths(conflicts: Seq<RawConflict>) -> Set<Seq<u8>> {
    Set::new(
        |path: Seq<u8>|
            exists|i: int| 0 <= i < conflicts.len() && conflict_names(#[trigger] conflicts[i], path),
    )
}

/// The paths that the conflicts name.
pub fn collect_conflicting_paths(conflicts: &Vec<RawConflict>) -> (res: PathSet)
    ensures
        res@ == spec_conflicting_paths(conflicts@),
{
    let mut out = PathSet::new();
    let mut n: usize = 0;
    while n < conflicts.len()
        invariant
            n <= conflicts@.len(),
            forall|path: Seq<u8>|
                out@.contains(path) <==> exists|i: int|
                    0 <= i < n && conflict_names(#[trigger] conflicts@[i], path),
        decreases conflicts.len() - n,
    {
        let ghost before = out@;
        match &conflicts[n].ancestor {
            Some(p) => {
                out.insert(p.as_slice());
            },
            None => {},
        }
        match &conflicts[n].our {
            Some(p) => {
                out.insert(p.as_slice());
            },
            None => {},
        }
        match &conflicts[n].their {
            Some(p) => {
                out.insert(p.as_slice());
            },
            None => {},
        }
        proof {
            assert forall|path: Seq<u8>| out@.contains(path) <==> exists|i: int|
                0 <= i < n + 1 && conflict_names(#[trigger] conflicts@[i], path) by {
                if out@.contains(path) {
                    if before.contains(path) {
                        let i = choose|i: int|
                            0 <= i < n && conflict_names(#[trigger] conflicts@[i], path);
                        assert(0 <= i < n + 1 && conflict_names(conflicts@[i], path));
                    } else {
                        assert(conflict_names(conflicts@[n as int], path));
                    }
                }
                if exists|i: int| 0 <= i < n + 1 && conflict_names(#[trigger] conflicts@[i], path) {
                    let i = choose|i: int|
                        0 <= i < n + 1 && conflict_names(#[trigger] conflicts@[i], path);
                    if i < n {
                        assert(before.contains(path));
                    }
                }
            }
        }
        n += 1;
    }
    assert(out@ =~= spec_conflicting_paths(conflicts@));
    out
}

/// The file mode that the mode of an index entry stands for. A number too
/// large to be a file mode stands for `Unreadable`.
pub open spec fn spec_index_mode(mode: u32) -> FileMode {
    if mode <= 0x7fff_ffff {
        FileMode::spec_from_i32(mode as i32)
    } else {
        FileMode::Unreadable
    }
}

/// The entry that what the store holds in an index stands for: its id,
/// which may be the zero id, and its file mode.
pub fn index_entry_from_raw(raw: &crate::store::RawIndexEntry) -> (res: IndexEntry)
    ensures
        res.oid.spec_bytes() == raw.oid@,
        res.oid is Zero == crate::oid::all_zero(raw.oid@),
        res.file_mode == spec_index_mode(raw.mode),
{
    let mode = if raw.mode <= 0x7fff_ffff {
        FileMode::from_i32(raw.mode as i32)
    } else {
        FileMode::Unreadable
    };
    let oid = MaybeZeroOid::from_bytes(raw.oid);
    proof {
        if oid is Zero {
            assert(raw.oid@ =~= Seq::new(20, |i: int| 0u8));
        }
    }
    IndexEntry { oid, file_mode: mode }
}

/// An index: the outcome of a merge, or what is staged in a repository.
pub struct GitIndex {
    pub(crate) inner: git2::Index,
}

/// Whether an entry is what stands for the id and mode that an index
/// holds, or there is neither.
pub open spec fn entry_matches(entry: Option<IndexEntry>, held: Option<(Seq<u8>, u32)>) -> bool {
    match (entry, held) {
        (None, None) => true,
        (Some(e), Some(h)) => e.oid.spec_bytes() == h.0 && e.file_mode == spec_index_mode(h.1),
        _ => false,
    }
}

/// Whether an override is what is written for the id and mode that an
/// index holds at a path: the entry, or a deletion where it holds nothing
/// or the zero id.
pub open spec fn override_matches(value: Option<TreeEntry>, held: Option<(Seq<u8>, u32)>) -> bool {
    exists|entry: Option<IndexEntry>| entry_matches(entry, held) && value == spec_merged_entry(entry)
}

/// Whether each of the overrides is what is written for what the index
/// holds at its path.
pub open spec fn overrides_match(overrides: Map<Seq<u8>, Option<TreeEntry>>, index: GitIndex) -> bool {
    forall|p: Seq<u8>| #[trigger]
        overrides.contains_key(p) ==> override_matches(overrides[p], index.spec_lookup(p))
}

/// Whether each of the entries looked up is what the index holds at its
/// path.
pub open spec fn entries_match(found: Map<Seq<u8>, Option<IndexEntry>>, index: GitIndex) -> bool {
    forall|p: Seq<u8>| #[trigger]
        found.contains_key(p) ==> entry_matches(found[p], index.spec_lookup(p))
}

impl GitIndex {
    /// The id and mode that the index holds at `path` as a merged entry,
    /// if it holds one. A path that the index cannot hold has none.
    pub closed spec fn spec_lookup(&self, path: Seq<u8>) -> Option<(Seq<u8>, u32)> {
        if is_lookup_path(path) {
            crate::store::spec_index_get(self.inner, path, 0)
        } else {
            None
        }
    }

    /// Whether the index says of itself that entries were left unmerged.
    pub closed spec fn spec_has_conflicts(&self) -> bool {
        crate::store::index_conflict_flag(self.inner)
    }

    /// The entries that were left unmerged, each as the paths of its
    /// sides.
    pub closed spec fn spec_conflicts(&self) -> Seq<
        (Option<Seq<u8>>, Option<Seq<u8>>, Option<Seq<u8>>),
    > {
        crate::store::index_conflicts(self.inner)
    }

    /// Whether the index holds an entry that was left unmerged.
    pub fn has_conflicts(&self) -> (res: bool)
        ensures
            res == self.spec_has_conflicts(),
    {
        git_index_has_conflicts(&self.inner)
    }

    /// What the index holds at `path` as a merged entry. A path that the
    /// index cannot hold has no entry.
    pub fn get_entry(&self, path: &[u8]) -> (res: Option<IndexEntry>)
        ensures
            entry_matches(res, self.spec_lookup(path@)),
            !is_lookup_path(path@) ==> res is None,
    {
        if !check_lookup_path(path) {
            return None;
        }
        match git_index_get(&self.inner, path, 0) {
            Some(raw) => Some(index_entry_from_raw(&raw)),
            None => None,
        }
    }

    /// The entries that were left unmerged, each as the paths of its
    /// sides.
    pub fn conflicts(&self) -> (res: Result<Vec<RawConflict>, RepoError>)
        ensures
            res matches Ok(found) ==> crate::store::conflict_views(found@) == self.spec_conflicts(),
            res matches Err(e) ==> e is Store,
    {
        match git_index_conflicts(&self.inner) {
            Ok(conflicts) => Ok(conflicts),
            Err(e) => Err(RepoError::from_git(e)),
        }
    }

    /// What the index holds at each of `paths`.
    pub fn entries_at(&self, paths: &PathSet) -> (res: PathMap<Option<IndexEntry>>)
        ensures
            res@.dom() == paths@,
            entries_match(res@, *self),
    {
        let mut out: PathMap<Option<IndexEntry>> = PathMap::new();
        let n = paths.len();
        let mut i: usize = 0;
        while i < n
            invariant
                i <= n,
                n == paths.seq().len(),
                forall|p: Seq<u8>| out@.contains_key(p) <==> among(paths.seq(), i as int, p),
                forall|p: Seq<u8>| #[trigger]
                    out@.contains_key(p) ==> entry_matches(out@[p], self.spec_lookup(p)),
            decreases n - i,
        {
            let path = paths.get(i);
            let ghost before = out@;
            proof {
                lemma_among_step(paths.seq(), i as int);
            }
            out.insert(path.as_slice(), self.get_entry(path.as_slice()));
            proof {
                assert forall|p: Seq<u8>| #[trigger] out@.contains_key(p) implies entry_matches(
                    out@[p],
                    self.spec_lookup(p),
                ) by {
                    if p != path@ {
                        assert(before.contains_key(p));
                    }
                }
            }
            i += 1;
        }
        proof {
            lemma_among_all(paths.seq());
            assert(out@.dom() =~= paths@);
        }
        out
    }
}

/// The overrides that bring a tree to what a merge holds at the paths
/// looked up: at each path the entry that the merge holds, and a deletion
/// where it holds nothing or the zero id.
pub open spec fn spec_merged_overrides(found: Map<Seq<u8>, Option<IndexEntry>>) -> Map<
    Seq<u8>,
    Option<TreeEntry>,
> {
    Map::new(|p: Seq<u8>| found.contains_key(p), |p: Seq<u8>| spec_merged_entry(found[p]))
}

/// The overrides that bring a tree to what a merge holds at the paths
/// looked up.
pub fn merged_overrides(found: &PathMap<Option<IndexEntry>>) -> (res: TreeOverrides)
    ensures
        res@ == spec_merged_overrides(found@),
{
    let mut out: TreeOverrides = PathMap::new();
    let ghost want = spec_merged_overrides(found@);
    let n = found.len();
    let mut i: usize = 0;
    while i < n
        invariant
            i <= n,
            n == found.key_seq().len(),
            want == spec_merged_overrides(found@),
            forall|p: Seq<u8>| #[trigger] out@.contains_key(p) <==> among(found.key_seq(), i as int, p),
            forall|p: Seq<u8>| #[trigger] out@.contains_key(p) ==> out@[p] == want[p],
        decreases n - i,
    {
        let path = found.key_at(i);
        let ghost before = out@;
        proof {
            lemma_among_step(found.key_seq(), i as int);
        }
        out.insert(path.as_slice(), merged_entry(found.value_at(i)));
        proof {
            assert forall|p: Seq<u8>| #[trigger] out@.contains_key(p) <==> among(
                found.key_seq(),
                i as int + 1,
                p,
            ) by {
                if p != path@ {
                    assert(out@.contains_key(p) == before.contains_key(p));
                }
            }
            assert forall|p: Seq<u8>| #[trigger] out@.contains_key(p) implies out@[p] == want[p] by {
                if p != path@ {
                    assert(before.contains_key(p));
                }
            }
        }
        i += 1;
    }
    proof {
        lemma_among_all(found.key_seq());
        assert(out@ =~= want);
    }
    out
}

/// What a merge comes to, given what the store says of its outcome: where
/// it left entries unmerged, the paths that they name, and be there none;
/// else the target tree with what the merge holds at the paths looked up.
pub open spec fn spec_merge_outcome(
    has_conflicts: bool,
    conflicts: Seq<RawConflict>,
    found: Map<Seq<u8>, Option<IndexEntry>>,
    target: Map<Seq<u8>, TreeEntry>,
) -> Result<Map<Seq<u8>, TreeEntry>, Set<Seq<u8>>> {
    if has_conflicts {
        Err(spec_conflicting_paths(conflicts))
    } else {
        Ok(crate::sparse::spec_hydrate(target, spec_merged_overrides(found)))
    }
}

/// What a merge comes to, given what the store says of its outcome.
pub fn merge_outcome(
    has_conflicts: bool,
    conflicts: &Vec<RawConflict>,
    found: &PathMap<Option<IndexEntry>>,
    target: &crate::sparse::SparseTree,
) -> (res: Result<crate::sparse::SparseTree, PathSet>)
    ensures
        match spec_merge_outcome(has_conflicts, conflicts@, found@, target@) {
            Ok(tree) => res matches Ok(merged) && merged@ == tree,
            Err(paths) => res matches Err(named) && named@ == paths,
        },
{
    if has_conflicts {
        Err(collect_conflicting_paths(conflicts))
    } else {
        Ok(crate::sparse::hydrate(Some(target), &merged_overrides(found)))
    }
}

/// Whether the index holds the zero id at a path that was looked up.
pub open spec fn holds_zero_id(found: Map<Seq<u8>, Option<IndexEntry>>, path: Seq<u8>) -> bool {
    found.contains_key(path) && found[path] is Some && found[path]->Some_0.oid is Zero
}

/// The paths, of those looked up, at which the index holds the zero id.
/// Such an entry holds no object; it is written as a deletion, and these
/// are the paths to warn of.
pub fn zero_id_paths(found: &PathMap<Option<IndexEntry>>) -> (res: PathSet)
    ensures
        forall|p: Seq<u8>| res@.contains(p) <==> holds_zero_id(found@, p),
{
    let mut out = PathSet::new();
    let n = found.len();
    let mut i: usize = 0;
    while i < n
        invariant
            i <= n,
            n == found.key_seq().len(),
            forall|p: Seq<u8>|
                out@.contains(p) <==> (among(found.key_seq(), i as int, p) && holds_zero_id(
                    found@,
                    p,
                )),
        decreases n - i,
    {
        let path = found.key_at(i);
        proof {
            lemma_among_step(found.key_seq(), i as int);
        }
        match found.value_at(i) {
            Some(entry) => match entry.oid {
                MaybeZeroOid::Zero => {
                    out.insert(path.as_slice());
                },
                MaybeZeroOid::NonZero(_) => {},
            },
            None => {},
        }
        i += 1;
    }
    proof {
        lemma_among_all(found.key_seq());
        assert forall|p: Seq<u8>| out@.contains(p) <==> holds_zero_id(found@, p) by {
            if holds_zero_id(found@, p) {
                assert(found@.dom().contains(p));
            }
        }
    }
    out
}

/// What an amend from the working copy puts at a path, given the blob
/// that was written for the file there: the blob with the file mode of
/// the status entry, or a deletion where there is no file.
pub fn working_copy_override(blob: Option<crate::oid::NonZeroOid>, mode: FileMode) -> (res: Option<
    TreeEntry,
>)
    ensures
        res == match blob {
            Some(oid) => Some(TreeEntry { oid, mode }),
            None => None,
        },
{
    match blob {
        Some(oid) => Some(TreeEntry { oid, mode }),
        None => None,
    }
}

/// Whether `git2::Index::get_path` takes the path.
pub fn check_lookup_path(path: &[u8]) -> (res: bool)
    ensures
        res == is_lookup_path(path@),
{
    let n = path.len();
    if n == 0 || path[0] == 47 {
        return false;
    }
    if crate::scan::find_next(path, 0, 0) != n {
        assert(path@.contains(path@[crate::scan::next_index(path@, 0, 0)]));
        return false;
    }
    assert(!path@.contains(0u8));
    if path[0] == 46 {
        if n == 1 {
            assert(path@ =~= seq![46u8]);
            return false;
        }
        if path[1] == 47 {
            return false;
        }
        if path[1] == 46 {
            if n == 2 {
                assert(path@ =~= seq![46u8, 46u8]);
                return false;
            }
            if path[2] == 47 {
                return false;
            }
        }
    }
    assert(path@ != seq![46u8]) by {
        if path@ == seq![46u8] {
            assert(path@.len() == 1);
        }
    }
    assert(path@ != seq![46u8, 46u8]) by {
        if path@ == seq![46u8, 46u8] {
            assert(path@.len() == 2);
            assert(path@[1] == 46u8);
        }
    }
    true
}

} // verus!
