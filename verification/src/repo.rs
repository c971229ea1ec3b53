use vstd::prelude::*;
use vstd::string::*;
use crate::bytes::bytes_eq;
use crate::entry::TreeEntry;
use crate::error::RepoError;
use crate::index::GitIndex;
use crate::oid::{MaybeZeroOid, NonZeroOid};
use crate::path::PathSet;
use crate::pathmap::PathMap;
use crate::sparse::{among, entry_at, lemma_among_all, lemma_among_step, SparseTree, TreeOverrides};
use crate::status::StatusEntry;
use crate::store::{
    git_blob, git_blob_from_file, git_cherrypick, git_commit_info, git_create_commit,
    git_read_index, git_tree_items, git_workdir, join_file_path,
};
use crate::text::{ascii_chars, spec_hex};
use crate::treeio::{Repo, Tree};

verus! {

/// A parent of a commit: its id and the id of its tree.
#[derive(Clone, Copy, Debug)]
pub struct CommitParent {
    pub oid: NonZeroOid,
    pub tree: NonZeroOid,
}

/// What the store holds of a commit: its id, the id of its tree, and its
/// parents in order, each with the id of its tree.
#[derive(Debug)]
pub struct Commit {
    pub oid: NonZeroOid,
    pub tree: NonZeroOid,
    pub parents: Vec<CommitParent>,
}

impl Commit {
    pub fn get_oid(&self) -> (res: NonZeroOid)
        ensures
            res == self.oid,
    {
        self.oid
    }

    /// The tree of the commit.
    pub fn get_tree(&self) -> (res: Tree)
        ensures
            res.oid == self.tree,
    {
        Tree { oid: self.tree }
    }

    pub fn get_parent_count(&self) -> (res: usize)
        ensures
            res == self.parents@.len(),
    {
        self.parents.len()
    }

    /// The ids of the parents, in order.
    pub fn get_parent_oids(&self) -> (res: Vec<NonZeroOid>)
        ensures
            res@.len() == self.parents@.len(),
            forall|i: int| 0 <= i < res@.len() ==> #[trigger] res@[i] == self.parents@[i].oid,
    {
        let mut out: Vec<NonZeroOid> = Vec::new();
        let mut i: usize = 0;
        while i < self.parents.len()
            invariant
                i <= self.parents@.len(),
                out@.len() == i,
                forall|j: int| 0 <= j < i ==> #[trigger] out@[j] == self.parents@[j].oid,
            decreases self.parents.len() - i,
        {
            out.push(self.parents[i].oid);
            i += 1;
        }
        out
    }

    /// The parent of a commit that has exactly one.
    pub open spec fn spec_only_parent(&self) -> Option<CommitParent> {
        if self.parents@.len() == 1 {
            Some(self.parents@[0])
        } else {
            None
        }
    }

    /// The parent of the commit if it has exactly one.
    pub fn get_only_parent(&self) -> (res: Option<CommitParent>)
        ensures
            res == self.spec_only_parent(),
    {
        if self.parents.len() == 1 {
            Some(self.parents[0])
        } else {
            None
        }
    }

    /// The id of the parent of the commit if it has exactly one.
    pub fn get_only_parent_oid(&self) -> (res: Option<NonZeroOid>)
        ensures
            res == match self.spec_only_parent() {
                Some(p) => Some(p.oid),
                None => None,
            },
    {
        match self.get_only_parent() {
            Some(p) => Some(p.oid),
            None => None,
        }
    }

    /// Whether the commit changes nothing against its only parent. A
    /// commit without a parent, or with more than one, is not empty.
    pub fn is_empty(&self) -> (res: bool)
        ensures
            res == (self.parents@.len() == 1 && self.parents@[0].tree == self.tree),
    {
        match self.get_only_parent() {
            Some(p) => p.tree.equals(&self.tree),
            None => false,
        }
    }
}

/// Options for `Repo::cherry_pick_fast`.
#[derive(Clone, Copy, Debug)]
pub struct CherryPickFastOptions {
    /// Take the tree of the patch as it is where the patch is applied to
    /// a commit with the tree of its own parent.
    pub reuse_parent_tree_if_possible: bool,
}

/// Why `Repo::cherry_pick_fast` did not give a tree.
#[derive(Debug)]
pub enum CherryPickFastError {
    /// The merge left paths unmerged.
    MergeConflict {
        /// Every path on any side of an unmerged entry.
        conflicting_paths: PathSet,
    },
}

/// Options for `Repo::amend_fast`.
#[derive(Debug)]
pub enum AmendFastOptions {
    /// Take the files named by the status entries as they are in the
    /// working copy.
    FromWorkingCopy {
        status_entries: Vec<StatusEntry>,
    },
    /// Take the paths as they are staged in the index.
    FromIndex {
        paths: Vec<Vec<u8>>,
    },
}

impl AmendFastOptions {
    /// Whether there is nothing to amend.
    pub fn is_empty(&self) -> (res: bool)
        ensures
            res == match *self {
                AmendFastOptions::FromIndex { paths } => paths@.len() == 0,
                AmendFastOptions::FromWorkingCopy { status_entries } => status_entries@.len() == 0,
            },
    {
        match self {
            AmendFastOptions::FromIndex { paths } => paths.len() == 0,
            AmendFastOptions::FromWorkingCopy { status_entries } => status_entries.len() == 0,
        }
    }

    /// The paths that the request names: the paths given, or the path of
    /// each status entry and the path it was renamed from.
    pub open spec fn spec_paths(&self) -> Set<Seq<u8>> {
        match *self {
            AmendFastOptions::FromIndex { paths } => Set::new(
                |p: Seq<u8>| exists|i: int| 0 <= i < paths@.len() && (#[trigger] paths@[i])@ == p,
            ),
            AmendFastOptions::FromWorkingCopy { status_entries } => Set::new(
                |p: Seq<u8>|
                    exists|i: int|
                        0 <= i < status_entries@.len() && ((#[trigger] status_entries@[i]).path@
                            == p || status_entries@[i]@.orig_path == Some(p)),
            ),
        }
    }
}

/// The name under which the helper commits of this library are written.
pub const AUTOMATED_NAME: &'static str = "git-branchless";

/// The address under which the helper commits of this library are written.
pub const AUTOMATED_EMAIL: &'static str = "git-branchless@example.com";

/// The parent against which the changes of a patch are taken in a
/// cherry-pick: none is picked out, as the patch has only one.
pub const CHERRY_PICK_MAINLINE: u32 = 0;

/// Whether a cherry-pick needs no merge: the patch has one parent, whose
/// tree is the tree of the target, and the caller allows the shortcut.
pub open spec fn elides(options: CherryPickFastOptions, patch: Commit, target: Commit) -> bool {
    &&& options.reuse_parent_tree_if_possible
    &&& patch.parents@.len() == 1
    &&& patch.parents@[0].tree == target.tree
}

/// Whether a cherry-pick needs no merge.
pub fn check_elides(options: &CherryPickFastOptions, patch: &Commit, target: &Commit) -> (res: bool)
    ensures
        res == elides(*options, *patch, *target),
{
    if options.reuse_parent_tree_if_possible {
        match patch.get_only_parent() {
            Some(parent) => parent.tree.equals(&target.tree),
            None => false,
        }
    } else {
        false
    }
}

/// The paths to rewrite in an amend: those that the commit touches and
/// those that the request names.
pub fn amend_changed_paths(touched: &PathSet, opts: &AmendFastOptions) -> (res: PathSet)
    ensures
        res@ == touched@.union(opts.spec_paths()),
{
    let mut out = PathSet::new();
    out.extend(touched);
    assert(out@ =~= touched@);
    match opts {
        AmendFastOptions::FromIndex { paths } => {
            let mut i: usize = 0;
            while i < paths.len()
                invariant
                    i <= paths@.len(),
                    forall|p: Seq<u8>|
                        out@.contains(p) <==> (touched@.contains(p) || exists|j: int|
                            0 <= j < i && (#[trigger] paths@[j])@ == p),
                decreases paths.len() - i,
            {
                let ghost before = out@;
                out.insert(paths[i].as_slice());
                proof {
                    assert forall|p: Seq<u8>|
                        out@.contains(p) <==> (touched@.contains(p) || exists|j: int|
                            0 <= j < i + 1 && (#[trigger] paths@[j])@ == p) by {
                        if before.contains(p) && !touched@.contains(p) {
                            let j = choose|j: int| 0 <= j < i && (#[trigger] paths@[j])@ == p;
                            assert(0 <= j < i + 1 && paths@[j]@ == p);
                        }
                        if exists|j: int| 0 <= j < i + 1 && (#[trigger] paths@[j])@ == p {
                            let j = choose|j: int| 0 <= j < i + 1 && (#[trigger] paths@[j])@ == p;
                            if j < i {
                                assert(before.contains(p));
                            }
                        }
                    }
                }
                i += 1;
            }
            assert(out@ =~= touched@.union(opts.spec_paths()));
        },
        AmendFastOptions::FromWorkingCopy { status_entries } => {
            let mut i: usize = 0;
            while i < status_entries.len()
                invariant
                    i <= status_entries@.len(),
                    forall|p: Seq<u8>|
                        out@.contains(p) <==> (touched@.contains(p) || exists|j: int|
                            0 <= j < i && ((#[trigger] status_entries@[j]).path@ == p
                                || status_entries@[j]@.orig_path == Some(p))),
                decreases status_entries.len() - i,
            {
                let ghost before = out@;
                out.insert(status_entries[i].path.as_slice());
                match &status_entries[i].orig_path {
                    Some(orig) => {
                        out.insert(orig.as_slice());
                    },
                    None => {},
                }
                proof {
                    assert forall|p: Seq<u8>|
                        out@.contains(p) <==> (touched@.contains(p) || exists|j: int|
                            0 <= j < i + 1 && ((#[trigger] status_entries@[j]).path@ == p
                                || status_entries@[j]@.orig_path == Some(p))) by {
                        if out@.contains(p) && !touched@.contains(p) {
                            if before.contains(p) {
                                let j = choose|j: int|
                                    0 <= j < i && ((#[trigger] status_entries@[j]).path@ == p
                                        || status_entries@[j]@.orig_path == Some(p));
                                assert(0 <= j < i + 1);
                            } else {
                                assert(status_entries@[i as int].path@ == p
                                    || status_entries@[i as int]@.orig_path == Some(p));
                            }
                        }
                        if exists|j: int|
                            0 <= j < i + 1 && ((#[trigger] status_entries@[j]).path@ == p
                                || status_entries@[j]@.orig_path == Some(p)) {
                            let j = choose|j: int|
                                0 <= j < i + 1 && ((#[trigger] status_entries@[j]).path@ == p
                                    || status_entries@[j]@.orig_path == Some(p));
                            if j < i {
                                assert(before.contains(p));
                            }
                        }
                    }
                }
                i += 1;
            }
            assert(out@ =~= touched@.union(opts.spec_paths()));
        },
    }
    out
}

/// The overrides of an amend: for each path to rewrite, the new entry
/// where the request gave one for the path, and else what the dehydrated
/// parent tree holds there.
pub open spec fn spec_amended_overrides(
    changed: Set<Seq<u8>>,
    requested: Map<Seq<u8>, Option<TreeEntry>>,
    parent: Map<Seq<u8>, TreeEntry>,
) -> Map<Seq<u8>, Option<TreeEntry>> {
    Map::new(
        |p: Seq<u8>| changed.contains(p),
        |p: Seq<u8>|
            if requested.contains_key(p) {
                requested[p]
            } else {
                entry_at(parent, p)
            },
    )
}

/// The overrides of an amend.
pub fn amended_overrides(changed: &PathSet, requested: &TreeOverrides, parent: &SparseTree) -> (res:
    TreeOverrides)
    ensures
        res@ == spec_amended_overrides(changed@, requested@, parent@),
{
    let mut out: TreeOverrides = PathMap::new();
    let ghost want = spec_amended_overrides(changed@, requested@, parent@);
    let n = changed.len();
    let mut i: usize = 0;
    while i < n
        invariant
            i <= n,
            n == changed.seq().len(),
            want == spec_amended_overrides(changed@, requested@, parent@),
            forall|p: Seq<u8>| #[trigger] out@.contains_key(p) <==> among(changed.seq(), i as int, p),
            forall|p: Seq<u8>| #[trigger] out@.contains_key(p) ==> out@[p] == want[p],
        decreases n - i,
    {
        let path = changed.get(i);
        let ghost before = out@;
        proof {
            lemma_among_step(changed.seq(), i as int);
        }
        let value = match requested.get(path.as_slice()) {
            Some(value) => value,
            None => parent.get(path.as_slice()),
        };
        out.insert(path.as_slice(), value);
        proof {
            assert forall|p: Seq<u8>| #[trigger] out@.contains_key(p) <==> among(
                changed.seq(),
                i as int + 1,
                p,
            ) by {
                if p != path@ {
                    assert(out@.contains_key(p) == before.contains_key(p));
                }
            }
            assert forall|p: Seq<u8>| #[trigger] out@.contains_key(p) implies out@[p] == want[p] by {
                if p != path@ {
                    assert(before.contains_key(p));
                }
            }
        }
        i += 1;
    }
    proof {
        lemma_among_all(changed.seq());
        assert(out@ =~= want);
    }
    out
}

/// The tree that an amend comes to: the tree of the commit with, at each
/// path to rewrite, what the request gives for it, and where the request
/// gives nothing, what the dehydrated parent tree holds there.
pub open spec fn spec_amend_outcome(
    tree: Map<Seq<u8>, TreeEntry>,
    changed: Set<Seq<u8>>,
    requested: Map<Seq<u8>, Option<TreeEntry>>,
    parent: Map<Seq<u8>, TreeEntry>,
) -> Map<Seq<u8>, TreeEntry> {
    crate::sparse::spec_hydrate(tree, spec_amended_overrides(changed, requested, parent))
}

/// The tree that an amend comes to.
pub fn amend_outcome(
    tree: &SparseTree,
    changed: &PathSet,
    requested: &TreeOverrides,
    parent: &SparseTree,
) -> (res: SparseTree)
    ensures
        res@ == spec_amend_outcome(tree@, changed@, requested@, parent@),
{
    crate::sparse::hydrate(Some(tree), &amended_overrides(changed, requested, parent))
}

/// An amend leaves alone what lies apart from the paths to rewrite: a
/// path that none of them lies at, above or below holds after the amend
/// what the commit holds there.
pub proof fn law_amend_rewrites_changed_paths_only(
    tree: Map<Seq<u8>, TreeEntry>,
    changed: Set<Seq<u8>>,
    requested: Map<Seq<u8>, Option<TreeEntry>>,
    parent: Map<Seq<u8>, TreeEntry>,
    p: Seq<u8>,
)
    requires
        forall|q: Seq<u8>| #[trigger]
            changed.contains(q) ==> q != p && !crate::path::is_ancestor(q, p)
                && !crate::path::is_ancestor(p, q),
    ensures
        entry_at(spec_amend_outcome(tree, changed, requested, parent), p) == entry_at(tree, p),
{
    let overrides = spec_amended_overrides(changed, requested, parent);
    assert forall|q: Seq<u8>| #[trigger] overrides.contains_key(q) implies q != p
        && !crate::path::is_ancestor(q, p) && !crate::path::is_ancestor(p, q) by {
        assert(changed.contains(q));
    }
    crate::sparse::law_hydrate_keeps_untouched(tree, overrides, p);
}

/// At a path to rewrite for which the request gives an entry, with no
/// other path to rewrite below it, the amended tree holds that entry; and
/// where the request gives a deletion, it holds nothing.
pub proof fn law_amend_takes_what_is_requested(
    tree: Map<Seq<u8>, TreeEntry>,
    changed: Set<Seq<u8>>,
    requested: Map<Seq<u8>, Option<TreeEntry>>,
    parent: Map<Seq<u8>, TreeEntry>,
    p: Seq<u8>,
)
    requires
        changed.contains(p),
        requested.contains_key(p),
        forall|q: Seq<u8>| #[trigger] changed.contains(q) ==> !crate::path::is_ancestor(p, q),
    ensures
        entry_at(spec_amend_outcome(tree, changed, requested, parent), p) == requested[p],
{
    let overrides = spec_amended_overrides(changed, requested, parent);
    assert(!crate::sparse::set_below(overrides, p)) by {
        if crate::sparse::set_below(overrides, p) {
            let q = choose|q: Seq<u8>|
                overrides.contains_key(q) && overrides[q] is Some && crate::path::is_ancestor(
                    p,
                    q,
                );
            assert(changed.contains(q));
        }
    }
    crate::sparse::law_hydrate_applies_override(tree, overrides, p);
}

/// Whether a commit touches a path, given the ids that the tree of its
/// parent and its own tree hold there: it does where one holds something
/// that the other does not hold.
pub fn path_touched(parent: Option<NonZeroOid>, current: Option<NonZeroOid>) -> (res: bool)
    ensures
        res == (parent != current),
{
    match (parent, current) {
        (None, None) => false,
        (Some(a), Some(b)) => !a.equals(&b),
        _ => true,
    }
}

/// The signature of the helper commits of this library as the store takes
/// it: its own name and address, at time zero, with no offset.
pub open spec fn automated_view() -> (Seq<char>, Seq<char>, i64, i32) {
    (AUTOMATED_NAME@, AUTOMATED_EMAIL@, 0i64, 0i32)
}

/// The message of the helper commit that stands for the commit with the
/// given id.
pub open spec fn spec_dehydrated_message(oid: Seq<u8>) -> Seq<char> {
    DEHYDRATED_MESSAGE@ + ascii_chars(spec_hex(oid)) + ")"@
}

/// The ids of the parents of a commit, in order.
pub open spec fn parent_ids(parents: Seq<CommitParent>) -> Seq<Seq<u8>> {
    Seq::new(parents.len(), |i: int| parents[i].oid@)
}

/// Whether a commit with the given id, tree and parents is the helper
/// commit that stands for the commit `origin` with its tree cut down to
/// `paths`: its tree is a tree cut down to the paths as it is written,
/// and its id is that of the commit with the signature of this library as
/// author and as committer, the message that names `origin`, that tree,
/// and those parents.
pub open spec fn is_helper_of(
    oid: Seq<u8>,
    tree: Seq<u8>,
    parents: Seq<Seq<u8>>,
    origin: Seq<u8>,
    paths: Set<Seq<u8>>,
) -> bool {
    &&& exists|loaded: Map<Seq<u8>, TreeEntry>|
        tree == crate::treeio::spec_written_id(crate::sparse::spec_dehydrate(loaded, paths))
    &&& oid == crate::store::spec_commit_id(
        automated_view(),
        automated_view(),
        spec_dehydrated_message(origin),
        tree,
        parents,
    )
}

/// The signature of the helper commits of this library: its own name and
/// address, at time zero, with no offset.
pub fn automated_signature() -> (res: crate::store::RawSignature)
    ensures
        crate::store::signature_view(res) == automated_view(),
{
    crate::store::RawSignature {
        name: String::from_str(AUTOMATED_NAME),
        email: String::from_str(AUTOMATED_EMAIL),
        seconds: 0,
        offset_minutes: 0,
    }
}

/// What the message of a helper commit begins with.
pub const DEHYDRATED_MESSAGE: &'static str =
    "generated by git-branchless: temporary dehydrated commit This commit was originally: NonZeroOid(";

/// The message of the helper commit that stands for the commit `oid`: it
/// names that commit by its id.
pub fn dehydrated_commit_message(oid: &NonZeroOid) -> (res: String)
    ensures
        res@ == spec_dehydrated_message(oid@),
{
    let mut message = String::from_str(DEHYDRATED_MESSAGE);
    let hex = oid.to_hex_string();
    message.append(hex.as_str());
    message.append(")");
    message
}

/// The non-zero id that the bytes stand for.
fn non_zero(bytes: [u8; 20]) -> (res: Result<NonZeroOid, RepoError>)
    ensures
        res is Ok == !crate::oid::all_zero(bytes@),
        res matches Ok(oid) ==> oid@ == bytes@,
        res matches Err(e) ==> e is ZeroOid,
{
    match MaybeZeroOid::from_bytes(bytes) {
        MaybeZeroOid::NonZero(oid) => Ok(oid),
        MaybeZeroOid::Zero => Err(RepoError::ZeroOid),
    }
}

impl Repo {
    /// Looks up the commit with the given id, and the tree of each of its
    /// parents. Gives `None` where the store has no such commit.
    pub fn find_commit(&self, oid: NonZeroOid) -> (res: Result<Option<Commit>, RepoError>)
        ensures
            res matches Ok(Some(commit)) ==> commit.oid == oid,
            res matches Err(e) ==> e is Store || e is ZeroOid,
    {
        let answer = match git_commit_info(&self.inner, &oid.as_bytes()) {
            Ok(raw) => Ok(raw),
            Err(e) => Err(RepoError::from_git(e)),
        };
        let raw = match crate::error::absent_if_not_found(answer)? {
            Some(raw) => raw,
            None => {
                return Ok(None);
            },
        };
        let tree = non_zero(raw.tree)?;
        let mut parents: Vec<CommitParent> = Vec::new();
        let mut i: usize = 0;
        while i < raw.parents.len()
            invariant
                i <= raw.parents@.len(),
            decreases raw.parents.len() - i,
        {
            let parent_oid = non_zero(raw.parents[i])?;
            let parent = match git_commit_info(&self.inner, &parent_oid.as_bytes()) {
                Ok(parent) => parent,
                Err(e) => {
                    return Err(RepoError::from_git(e));
                },
            };
            let parent_tree = non_zero(parent.tree)?;
            parents.push(CommitParent { oid: parent_oid, tree: parent_tree });
            i += 1;
        }
        Ok(Some(Commit { oid, tree, parents }))
    }

    /// Like `find_commit`, but fails where the store has no such commit.
    pub fn find_commit_or_fail(&self, oid: NonZeroOid) -> (res: Result<Commit, RepoError>)
        ensures
            res matches Ok(commit) ==> commit.oid == oid,
            res matches Err(e) ==> e is Store || e is ZeroOid || e is MissingObject,
    {
        match self.find_commit(oid) {
            Ok(Some(commit)) => Ok(commit),
            Ok(None) => Err(RepoError::MissingObject),
            Err(e) => Err(e),
        }
    }

    /// Looks up the tree with the given id. Gives `None` where the store
    /// has no such tree.
    pub fn find_tree(&self, oid: NonZeroOid) -> (res: Result<Option<Tree>, RepoError>)
        ensures
            res matches Ok(Some(tree)) ==> tree.oid == oid,
            res matches Err(e) ==> e is Store && !e.spec_is_not_found(),
    {
        let answer = match git_tree_items(&self.inner, &oid.as_bytes()) {
            Ok(_) => Ok(Tree { oid }),
            Err(e) => Err(RepoError::from_git(e)),
        };
        crate::error::absent_if_not_found(answer)
    }

    /// Like `find_tree`, but fails where the store has no such tree.
    pub fn find_tree_or_fail(&self, oid: NonZeroOid) -> (res: Result<Tree, RepoError>)
        ensures
            res matches Ok(tree) ==> tree.oid == oid,
            res matches Err(e) ==> e is Store || e is MissingObject,
    {
        match self.find_tree(oid) {
            Ok(Some(tree)) => Ok(tree),
            Ok(None) => Err(RepoError::MissingObject),
            Err(e) => Err(e),
        }
    }

    /// The directory of the working copy, if the repository has one.
    pub fn get_working_copy_path(&self) -> (res: Option<Vec<u8>>) {
        git_workdir(&self.inner)
    }

    /// The index of the repository as it is on disk now.
    pub fn get_index(&self) -> (res: Result<GitIndex, RepoError>)
        ensures
            res matches Err(e) ==> e is Store,
    {
        match git_read_index(&self.inner) {
            Ok(inner) => Ok(GitIndex { inner }),
            Err(e) => Err(RepoError::from_git(e)),
        }
    }

    /// Reads the file at `path` and writes its contents to the store as a
    /// blob. Gives `None` where there is no such file.
    pub fn create_blob_from_path(&self, path: &[u8]) -> (res: Result<Option<NonZeroOid>, RepoError>)
        ensures
            res matches Err(e) ==> (e is Store && !e.spec_is_not_found()) || e is ZeroOid,
    {
        let answer = match git_blob_from_file(&self.inner, path) {
            Ok(bytes) => Ok(bytes),
            Err(e) => Err(RepoError::from_git(e)),
        };
        match crate::error::absent_if_not_found(answer)? {
            Some(bytes) => Ok(Some(non_zero(bytes)?)),
            None => Ok(None),
        }
    }

    /// Writes the bytes to the store as a blob and gives its id, which is
    /// the hash of the bytes.
    pub fn create_blob_from_contents(&self, contents: &[u8]) -> (res: Result<NonZeroOid, RepoError>)
        ensures
            res matches Ok(oid) ==> oid@ == crate::store::spec_blob_id(contents@),
            res matches Err(e) ==> e is Store || e is ZeroOid,
    {
        match git_blob(&self.inner, contents) {
            Ok(bytes) => non_zero(bytes),
            Err(e) => Err(RepoError::from_git(e)),
        }
    }

    /// Merges, in memory, the changes of `patch` against its parent number
    /// `mainline` onto `target`, and gives the resulting index.
    pub fn cherry_pick_commit(&self, patch: &Commit, target: &Commit, mainline: u32) -> (res: Result<
        GitIndex,
        RepoError,
    >)
        ensures
            res matches Err(e) ==> e is Store,
    {
        match git_cherrypick(&self.inner, &patch.oid.as_bytes(), &target.oid.as_bytes(), mainline) {
            Ok(inner) => Ok(GitIndex { inner }),
            Err(e) => Err(RepoError::from_git(e)),
        }
    }

    /// The paths that the commit adds, removes or changes against its
    /// parent; every path of its tree where it has no parent. Gives
    /// `None` for a commit with more than one parent.
    pub fn get_paths_touched_by_commit(&self, commit: &Commit) -> (res: Result<
        Option<PathSet>,
        RepoError,
    >)
        ensures
            commit.parents@.len() > 1 ==> res matches Ok(None),
            commit.parents@.len() <= 1 ==> !(res matches Ok(None)),
            commit.parents@.len() == 1 && commit.parents@[0].tree == commit.tree ==> (
            res matches Ok(Some(paths)) && paths@ == Set::<Seq<u8>>::empty()),
            res matches Err(e) ==> e is Store || e is MalformedTree || e is TooDeep,
    {
        let current = Tree { oid: commit.tree };
        if commit.parents.len() == 0 {
            let paths = self.get_changed_paths_between_trees(None, Some(&current))?;
            Ok(Some(paths))
        } else if commit.parents.len() == 1 {
            let parent = Tree { oid: commit.parents[0].tree };
            let paths = self.get_changed_paths_between_trees(Some(&parent), Some(&current))?;
            Ok(Some(paths))
        } else {
            Ok(None)
        }
    }

    /// Writes a helper commit whose tree holds, of the tree `tree`, what
    /// lies at `paths` and nothing else, with the given parents. The
    /// commit is written under the name of this library, at time zero,
    /// with a message that names the commit `origin`, and on no reference.
    fn write_dehydrated(
        &self,
        origin: &NonZeroOid,
        tree: &NonZeroOid,
        paths: &PathSet,
        parents: Vec<CommitParent>,
    ) -> (res: Result<Commit, RepoError>)
        ensures
            res matches Ok(commit) ==> commit.parents == parents && is_helper_of(
                commit.oid@,
                commit.tree@,
                parent_ids(parents@),
                origin@,
                paths@,
            ),
            res matches Err(e) ==> e is Store || e is MalformedTree || e is InvalidPath
                || e is ZeroOid || e is TooDeep,
    {
        let dehydrated = self.dehydrate_tree(&Tree { oid: *tree }, paths)?;
        let message = dehydrated_commit_message(origin);
        let mut parent_oids: Vec<[u8; 20]> = Vec::new();
        let mut i: usize = 0;
        while i < parents.len()
            invariant
                i <= parents@.len(),
                parent_oids@.len() == i,
                forall|j: int| 0 <= j < i ==> (#[trigger] parent_oids@[j])@ == parents@[j].oid@,
            decreases parents.len() - i,
        {
            parent_oids.push(parents[i].oid.as_bytes());
            i += 1;
        }
        assert(crate::store::id_views(parent_oids@) =~= parent_ids(parents@));
        let who = automated_signature();
        let written = match git_create_commit(
            &self.inner,
            None,
            &who,
            &who,
            message.as_str(),
            &dehydrated.as_bytes(),
            &parent_oids,
        ) {
            Ok(bytes) => bytes,
            Err(e) => {
                return Err(RepoError::from_git(e));
            },
        };
        let oid = non_zero(written)?;
        Ok(Commit { oid, tree: dehydrated, parents })
    }

    /// Writes a helper commit that stands for `commit` with its tree cut
    /// down to `paths`. With `base_on_parent`, and where `commit` has
    /// exactly one parent, the helper commit has one parent: a helper
    /// commit that stands for that parent in the same way, without a
    /// parent of its own. Else it has none.
    pub fn dehydrate_commit(&self, commit: &Commit, paths: &PathSet, base_on_parent: bool) -> (res:
        Result<Commit, RepoError>)
        ensures
            res matches Ok(helper) ==> helper.parents@.len() == (if base_on_parent
                && commit.parents@.len() == 1 {
                1nat
            } else {
                0nat
            }),
            res matches Ok(helper) ==> is_helper_of(
                helper.oid@,
                helper.tree@,
                parent_ids(helper.parents@),
                commit.oid@,
                paths@,
            ),
            res matches Ok(helper) ==> (helper.parents@.len() == 1 ==> is_helper_of(
                helper.parents@[0].oid@,
                helper.parents@[0].tree@,
                Seq::empty(),
                commit.parents@[0].oid@,
                paths@,
            )),
            res matches Err(e) ==> e is Store || e is MalformedTree || e is InvalidPath
                || e is ZeroOid || e is TooDeep,
    {
        let mut parents: Vec<CommitParent> = Vec::new();
        if base_on_parent {
            match commit.get_only_parent() {
                Some(parent) => {
                    let helper = self.write_dehydrated(
                        &parent.oid,
                        &parent.tree,
                        paths,
                        Vec::new(),
                    )?;
                    proof {
                        assert(parent_ids(helper.parents@) =~= Seq::<Seq<u8>>::empty());
                    }
                    parents.push(CommitParent { oid: helper.oid, tree: helper.tree });
                },
                None => {},
            }
        }
        self.write_dehydrated(&commit.oid, &commit.tree, paths, parents)
    }

    /// Applies the changes of `patch` onto `target` and gives the tree
    /// that results, or the paths that the merge left unmerged.
    ///
    /// Where the caller allows it and `patch` has one parent whose tree is
    /// the tree of `target`, the tree of `patch` is the result and nothing
    /// is read or merged. Else a patch without a parent, or with more than
    /// one, is refused. Else the trees of the two commits are cut down to
    /// the paths that `patch` touches, the store merges the cut-down
    /// commits, and the tree of `target` is written anew with what the
    /// merge holds at those paths.
    pub fn cherry_pick_fast(
        &self,
        patch: &Commit,
        target: &Commit,
        options: &CherryPickFastOptions,
    ) -> (res: Result<Result<Tree, CherryPickFastError>, RepoError>)
        ensures
            elides(*options, *patch, *target) ==> (res matches Ok(Ok(tree)) && tree.oid
                == patch.tree),
            (res matches Err(e) && e is UnsupportedParentCount) <==> (!elides(
                *options,
                *patch,
                *target,
            ) && patch.parents@.len() != 1),
            !elides(*options, *patch, *target) ==> (res matches Ok(Ok(tree)) ==> exists|
                merged: GitIndex,
                found: Map<Seq<u8>, Option<crate::index::IndexEntry>>,
                loaded: Map<Seq<u8>, TreeEntry>,
            |
                !merged.spec_has_conflicts() && crate::index::entries_match(found, merged)
                    && tree.oid@ == crate::treeio::spec_written_id(
                    crate::sparse::spec_hydrate(
                        loaded,
                        crate::index::spec_merged_overrides(found),
                    ),
                )),
            res matches Ok(Err(CherryPickFastError::MergeConflict { conflicting_paths }))
                ==> exists|merged: GitIndex, conflicts: Seq<crate::store::RawConflict>|
                merged.spec_has_conflicts() && crate::store::conflict_views(conflicts)
                    == merged.spec_conflicts() && conflicting_paths@
                    == crate::index::spec_conflicting_paths(conflicts),
            res matches Err(e) ==> e is UnsupportedParentCount || e is Store || e is MalformedTree
                || e is InvalidPath || e is ZeroOid || e is TooDeep || e is MissingObject,
    {
        if check_elides(options, patch, target) {
            return Ok(Ok(patch.get_tree()));
        }
        let (merged, changed) = self.cherry_pick_merge(patch, target)?;
        self.cherry_pick_finish(&merged, &changed, target)
    }

    /// The first half of a cherry-pick that needs a merge: finds the paths
    /// that `patch` touches, writes the helper commits, and lets the store
    /// merge them. The helper commit of `patch` is written with the helper
    /// commit of its parent as its parent; that of `target` is written
    /// without a parent. Gives the outcome of the merge and the paths. A
    /// patch without a parent, or with more than one, is refused.
    pub fn cherry_pick_merge(&self, patch: &Commit, target: &Commit) -> (res: Result<
        (GitIndex, PathSet),
        RepoError,
    >)
        ensures
            (res matches Err(e) && e is UnsupportedParentCount) <==> patch.parents@.len() != 1,
            res matches Err(e) ==> e is UnsupportedParentCount || e is Store || e is MalformedTree
                || e is InvalidPath || e is ZeroOid || e is TooDeep,
    {
        if patch.parents.len() != 1 {
            return Err(RepoError::UnsupportedParentCount);
        }
        let changed = match self.get_paths_touched_by_commit(patch)? {
            Some(paths) => paths,
            None => {
                return Err(RepoError::UnsupportedParentCount);
            },
        };
        let (dehydrated_patch, dehydrated_target) = self.dehydrate_for_cherry_pick(
            patch,
            target,
            &changed,
        )?;
        let merged = self.cherry_pick_commit(
            &dehydrated_patch,
            &dehydrated_target,
            CHERRY_PICK_MAINLINE,
        )?;
        Ok((merged, changed))
    }

    /// Writes the two helper commits that the store merges in a
    /// cherry-pick: that of `patch`, with the helper commit of its only
    /// parent as its parent, and that of `target`, without a parent.
    pub fn dehydrate_for_cherry_pick(&self, patch: &Commit, target: &Commit, paths: &PathSet) -> (res:
        Result<(Commit, Commit), RepoError>)
        ensures
            res matches Ok(helpers) ==> {
                &&& is_helper_of(
                    helpers.0.oid@,
                    helpers.0.tree@,
                    parent_ids(helpers.0.parents@),
                    patch.oid@,
                    paths@,
                )
                &&& helpers.0.parents@.len() == (if patch.parents@.len() == 1 {
                    1nat
                } else {
                    0nat
                })
                &&& (helpers.0.parents@.len() == 1 ==> is_helper_of(
                    helpers.0.parents@[0].oid@,
                    helpers.0.parents@[0].tree@,
                    Seq::empty(),
                    patch.parents@[0].oid@,
                    paths@,
                ))
                &&& is_helper_of(
                    helpers.1.oid@,
                    helpers.1.tree@,
                    Seq::empty(),
                    target.oid@,
                    paths@,
                )
                &&& helpers.1.parents@.len() == 0
            },
            res matches Err(e) ==> e is Store || e is MalformedTree || e is InvalidPath
                || e is ZeroOid || e is TooDeep,
    {
        let dehydrated_patch = self.dehydrate_commit(patch, paths, true)?;
        let dehydrated_target = self.dehydrate_commit(target, paths, false)?;
        proof {
            assert(parent_ids(dehydrated_target.parents@) =~= Seq::<Seq<u8>>::empty());
        }
        Ok((dehydrated_patch, dehydrated_target))
    }

    /// The second half of a cherry-pick that needs a merge. Where the
    /// merge says that it left entries unmerged, the paths that they name
    /// are the outcome, and be there none: a merge with conflicts never
    /// passes for one without. Else the tree of `target` is written anew
    /// with what the merge holds at the paths `changed`.
    pub fn cherry_pick_finish(&self, merged: &GitIndex, changed: &PathSet, target: &Commit) -> (res:
        Result<Result<Tree, CherryPickFastError>, RepoError>)
        ensures
            merged.spec_has_conflicts() ==> !(res matches Ok(Ok(_))),
            !merged.spec_has_conflicts() ==> !(res matches Ok(Err(_))),
            res matches Ok(Ok(tree)) ==> exists|
                found: Map<Seq<u8>, Option<crate::index::IndexEntry>>,
                loaded: Map<Seq<u8>, TreeEntry>,
            |
                found.dom() == changed@ && crate::index::entries_match(found, *merged) && tree.oid@
                    == crate::treeio::spec_written_id(
                    crate::sparse::spec_hydrate(
                        loaded,
                        crate::index::spec_merged_overrides(found),
                    ),
                ),
            res matches Ok(Err(CherryPickFastError::MergeConflict { conflicting_paths }))
                ==> exists|conflicts: Seq<crate::store::RawConflict>|
                crate::store::conflict_views(conflicts) == merged.spec_conflicts()
                    && conflicting_paths@ == crate::index::spec_conflicting_paths(conflicts),
            res matches Err(e) ==> e is Store || e is MalformedTree || e is InvalidPath
                || e is ZeroOid || e is TooDeep || e is MissingObject,
    {
        let has_conflicts = merged.has_conflicts();
        let (conflicts, found, loaded) = if has_conflicts {
            (merged.conflicts()?, PathMap::new(), SparseTree::empty())
        } else {
            (Vec::new(), merged.entries_at(changed), self.load_tree_along(&target.tree, changed)?)
        };
        match crate::index::merge_outcome(has_conflicts, &conflicts, &found, &loaded) {
            Ok(rebased) => {
                let oid = self.write_tree(&rebased)?;
                let tree = self.find_tree_or_fail(oid)?;
                proof {
                    assert(found@.dom() == changed@ && crate::index::entries_match(found@, *merged)
                        && tree.oid@ == crate::treeio::spec_written_id(
                        crate::sparse::spec_hydrate(
                            loaded@,
                            crate::index::spec_merged_overrides(found@),
                        ),
                    ));
                }
                Ok(Ok(tree))
            },
            Err(conflicting_paths) => {
                proof {
                    assert(crate::store::conflict_views(conflicts@) == merged.spec_conflicts()
                        && conflicting_paths@ == crate::index::spec_conflicting_paths(conflicts@));
                }
                Ok(Err(CherryPickFastError::MergeConflict { conflicting_paths }))
            },
        }
    }

    /// What the request of an amend puts at the paths that it names. From
    /// the working copy, each file named by a status entry is read and
    /// written as a blob, and a file that is not there stands for a
    /// deletion. From the index, each path has what is staged for it; a
    /// path with nothing staged stands for a deletion, and so does a path
    /// staged with the zero id, which holds no object.
    fn requested_entries(&self, opts: &AmendFastOptions, workdir: &[u8]) -> (res: Result<
        TreeOverrides,
        RepoError,
    >)
        ensures
            res matches Ok(entries) ==> entries@.dom() == opts.spec_paths(),
            opts is FromIndex ==> (res matches Ok(entries) ==> exists|index: GitIndex|
                crate::index::overrides_match(entries@, index)),
            res matches Err(e) ==> e is Store || e is ZeroOid,
    {
        let mut out: TreeOverrides = PathMap::new();
        match opts {
            AmendFastOptions::FromWorkingCopy { status_entries } => {
                let mut i: usize = 0;
                while i < status_entries.len()
                    invariant
                        i <= status_entries@.len(),
                        forall|p: Seq<u8>|
                            out@.contains_key(p) <==> exists|j: int|
                                0 <= j < i && ((#[trigger] status_entries@[j]).path@ == p
                                    || status_entries@[j]@.orig_path == Some(p)),
                    decreases status_entries.len() - i,
                {
                    let ghost before = out@;
                    let mode = status_entries[i].working_copy_file_mode;
                    let file = join_file_path(workdir, status_entries[i].path.as_slice());
                    let value = crate::index::working_copy_override(
                        self.create_blob_from_path(file.as_slice())?,
                        mode,
                    );
                    out.insert(status_entries[i].path.as_slice(), value);
                    match &status_entries[i].orig_path {
                        Some(orig) => {
                            let file = join_file_path(workdir, orig.as_slice());
                            let value = crate::index::working_copy_override(
                                self.create_blob_from_path(file.as_slice())?,
                                mode,
                            );
                            out.insert(orig.as_slice(), value);
                        },
                        None => {},
                    }
                    proof {
                        assert forall|p: Seq<u8>| out@.contains_key(p) <==> exists|j: int|
                            0 <= j < i + 1 && ((#[trigger] status_entries@[j]).path@ == p
                                || status_entries@[j]@.orig_path == Some(p)) by {
                            if out@.contains_key(p) {
                                if before.contains_key(p) {
                                    let j = choose|j: int|
                                        0 <= j < i && ((#[trigger] status_entries@[j]).path@ == p
                                            || status_entries@[j]@.orig_path == Some(p));
                                    assert(0 <= j < i + 1);
                                } else {
                                    assert(status_entries@[i as int].path@ == p
                                        || status_entries@[i as int]@.orig_path == Some(p));
                                }
                            }
                            if exists|j: int|
                                0 <= j < i + 1 && ((#[trigger] status_entries@[j]).path@ == p
                                    || status_entries@[j]@.orig_path == Some(p)) {
                                let j = choose|j: int|
                                    0 <= j < i + 1 && ((#[trigger] status_entries@[j]).path@ == p
                                        || status_entries@[j]@.orig_path == Some(p));
                                if j < i {
                                    assert(before.contains_key(p));
                                }
                            }
                        }
                    }
                    i += 1;
                }
                assert(out@.dom() =~= opts.spec_paths());
            },
            AmendFastOptions::FromIndex { paths } => {
                let index = self.get_index()?;
                let mut i: usize = 0;
                while i < paths.len()
                    invariant
                        i <= paths@.len(),
                        forall|p: Seq<u8>|
                            out@.contains_key(p) <==> exists|j: int|
                                0 <= j < i && (#[trigger] paths@[j])@ == p,
                        crate::index::overrides_match(out@, index),
                    decreases paths.len() - i,
                {
                    let ghost before = out@;
                    let entry = index.get_entry(paths[i].as_slice());
                    let value = crate::index::merged_entry(entry);
                    out.insert(paths[i].as_slice(), value);
                    proof {
                        assert(crate::index::override_matches(
                            value,
                            index.spec_lookup(paths@[i as int]@),
                        ));
                        assert forall|p: Seq<u8>| #[trigger]
                            out@.contains_key(p) implies crate::index::override_matches(
                            out@[p],
                            index.spec_lookup(p),
                        ) by {
                            if p != paths@[i as int]@ {
                                assert(before.contains_key(p));
                            }
                        }
                        assert forall|p: Seq<u8>| out@.contains_key(p) <==> exists|j: int|
                            0 <= j < i + 1 && (#[trigger] paths@[j])@ == p by {
                            if before.contains_key(p) {
                                let j = choose|j: int| 0 <= j < i && (#[trigger] paths@[j])@ == p;
                                assert(0 <= j < i + 1);
                            }
                            if exists|j: int| 0 <= j < i + 1 && (#[trigger] paths@[j])@ == p {
                                let j = choose|j: int|
                                    0 <= j < i + 1 && (#[trigger] paths@[j])@ == p;
                                if j < i {
                                    assert(before.contains_key(p));
                                }
                            }
                        }
                    }
                    i += 1;
                }
                assert(out@.dom() =~= opts.spec_paths());
                assert(crate::index::overrides_match(out@, index));
                assert(exists|held: GitIndex| crate::index::overrides_match(out@, held));
                let res: Result<TreeOverrides, RepoError> = Ok(out);
                assert(res is Ok);
                assert(res->Ok_0@ == out@);
                assert(exists|held: GitIndex| crate::index::overrides_match(res->Ok_0@, held));
                return res;
            },
        }
        Ok(out)
    }

    /// Writes the tree of `parent_commit` anew with the paths that the
    /// request names taken from the working copy or from the index, and
    /// gives that tree.
    ///
    /// The paths to rewrite are those that the commit touches and those
    /// that the request names. A path among them for which the request
    /// gives nothing keeps what the commit holds there. A commit with
    /// more than one parent is refused, and so is a repository without a
    /// working copy.
    pub fn amend_fast(&self, parent_commit: &Commit, opts: &AmendFastOptions) -> (res: Result<
        Tree,
        RepoError,
    >)
        ensures
            (res matches Err(e) && e is UnsupportedParentCount) <==> parent_commit.parents@.len()
                > 1,
            res matches Ok(tree) ==> exists|
                loaded: Map<Seq<u8>, TreeEntry>,
                touched: Set<Seq<u8>>,
                requested: Map<Seq<u8>, Option<TreeEntry>>,
                parent: Map<Seq<u8>, TreeEntry>,
            |
                requested.dom() == opts.spec_paths() && (opts is FromIndex ==> exists|
                    index: GitIndex,
                | crate::index::overrides_match(requested, index)) && tree.oid@
                    == crate::treeio::spec_written_id(
                    spec_amend_outcome(
                        loaded,
                        touched.union(opts.spec_paths()),
                        requested,
                        parent,
                    ),
                ),
            res matches Err(e) ==> e is UnsupportedParentCount || e is NoWorkingCopy || e is Store
                || e is MalformedTree || e is InvalidPath || e is ZeroOid || e is TooDeep
                || e is MissingObject,
    {
        let touched = match self.get_paths_touched_by_commit(parent_commit)? {
            Some(paths) => paths,
            None => {
                return Err(RepoError::UnsupportedParentCount);
            },
        };
        let changed = amend_changed_paths(&touched, opts);
        let dehydrated_parent = self.dehydrate_commit(parent_commit, &changed, true)?;
        let dehydrated_tree = self.load_tree_along(&dehydrated_parent.tree, &changed)?;
        let workdir = match self.get_working_copy_path() {
            Some(dir) => dir,
            None => {
                return Err(RepoError::NoWorkingCopy);
            },
        };
        let requested = self.requested_entries(opts, workdir.as_slice())?;
        let loaded = self.load_tree_along(&parent_commit.tree, &changed)?;
        let amended = amend_outcome(&loaded, &changed, &requested, &dehydrated_tree);
        let oid = self.write_tree(&amended)?;
        let tree = self.find_tree_or_fail(oid)?;
        proof {
            assert(requested@.dom() == opts.spec_paths() && (opts is FromIndex ==> exists|
                index: GitIndex,
            | crate::index::overrides_match(requested@, index)) && tree.oid@
                == crate::treeio::spec_written_id(
                spec_amend_outcome(
                    loaded@,
                    touched@.union(opts.spec_paths()),
                    requested@,
                    dehydrated_tree@,
                ),
            ));
        }
        Ok(tree)
    }

    /// What the tree holds at `path`, if anything: a file, or a directory
    /// as a whole.
    pub fn get_tree_entry(&self, tree: &Tree, path: &[u8]) -> (res: Result<
        Option<TreeEntry>,
        RepoError,
    >)
        ensures
            res matches Err(e) ==> e is Store || e is MalformedTree || e is InvalidPath,
            crate::treeio::begins_with_separator(path@) ==> res is Err,
    {
        let mut paths = PathSet::new();
        paths.insert(path);
        assert(paths@.contains(path@));
        let loaded = self.load_tree_along(&tree.oid, &paths)?;
        Ok(loaded.get(path))
    }

    /// Whether the commit adds, removes or changes what lies at `path`.
    /// Gives `None` for a commit that does not have exactly one parent.
    pub fn contains_touched_path(&self, commit: &Commit, path: &[u8]) -> (res: Result<
        Option<bool>,
        RepoError,
    >)
        ensures
            commit.parents@.len() != 1 ==> res matches Ok(None),
            commit.parents@.len() == 1 ==> !(res matches Ok(None)),
    {
        let parent = match commit.get_only_parent() {
            Some(parent) => parent,
            None => {
                return Ok(None);
            },
        };
        let before = match self.get_tree_entry(&Tree { oid: parent.tree }, path)? {
            Some(entry) => Some(entry.oid),
            None => None,
        };
        let after = match self.get_tree_entry(&commit.get_tree(), path)? {
            Some(entry) => Some(entry.oid),
            None => None,
        };
        Ok(Some(path_touched(before, after)))
    }
}

} // verus!
