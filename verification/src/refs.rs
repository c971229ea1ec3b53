use vstd::prelude::*;
use vstd::string::*;
use vstd::utf8::{decode_utf8, valid_utf8};
use crate::error::RepoError;
use crate::oid::{is_oid_text, spec_oid_bytes, MaybeZeroOid, NonZeroOid};
use crate::path::PathSet;
use crate::reference::{ReferenceName, ResolvedReferenceInfo};
use crate::repo::Commit;
use crate::store::{
    git_find_branch, git_find_reference, git_peel_to_commit, git_reference_name_is_valid,
    git_revparse, git_staged_deltas, git_state, spec_reference_name_is_valid, BranchType, ObjectKind,
    RawDelta, ReferenceKind, RepositoryState,
};
use crate::text::{ends_with_str, is_char_suffix, string_from_utf8};
use crate::treeio::Repo;

verus! {

/// The name of the reference that says what is checked out.
pub const HEAD: &'static str = "HEAD";

/// Whether a rebase is in the middle of being done.
pub open spec fn spec_is_rebase_underway(state: RepositoryState) -> bool {
    state is Rebase || state is RebaseInteractive || state is RebaseMerge
}

/// Whether a rebase is in the middle of being done.
pub fn state_is_rebase_underway(state: RepositoryState) -> (res: bool)
    ensures
        res == spec_is_rebase_underway(state),
{
    match state {
        RepositoryState::Rebase | RepositoryState::RebaseInteractive | RepositoryState::RebaseMerge => {
            true
        },
        _ => false,
    }
}

/// The name of the operation that a repository is in the middle of, if
/// any. Bisecting is no such operation.
pub open spec fn spec_operation_type(state: RepositoryState) -> Option<Seq<char>> {
    match state {
        RepositoryState::Clean | RepositoryState::Bisect => None,
        RepositoryState::Merge => Some("merge"@),
        RepositoryState::Revert | RepositoryState::RevertSequence => Some("revert"@),
        RepositoryState::CherryPick | RepositoryState::CherryPickSequence => Some("cherry-pick"@),
        RepositoryState::Rebase | RepositoryState::RebaseInteractive | RepositoryState::RebaseMerge => Some(
            "rebase"@,
        ),
        RepositoryState::ApplyMailbox | RepositoryState::ApplyMailboxOrRebase => Some("am"@),
    }
}

/// The view of an optional text.
pub open spec fn text_view(text: Option<&'static str>) -> Option<Seq<char>> {
    match text {
        Some(t) => Some(t@),
        None => None,
    }
}

/// The name of the operation that a repository is in the middle of, if
/// any.
pub fn state_operation_type(state: RepositoryState) -> (res: Option<&'static str>)
    ensures
        text_view(res) == spec_operation_type(state),
{
    match state {
        RepositoryState::Clean | RepositoryState::Bisect => None,
        RepositoryState::Merge => Some("merge"),
        RepositoryState::Revert | RepositoryState::RevertSequence => Some("revert"),
        RepositoryState::CherryPick | RepositoryState::CherryPickSequence => Some("cherry-pick"),
        RepositoryState::Rebase | RepositoryState::RebaseInteractive | RepositoryState::RebaseMerge => {
            Some("rebase")
        },
        RepositoryState::ApplyMailbox | RepositoryState::ApplyMailboxOrRebase => Some("am"),
    }
}

/// Whether a revision is written in a way that this library hands to the
/// store: one that ends with `@` and is longer than that one character is
/// not, because the store reads it as `@` alone.
pub open spec fn is_supported_spec(spec: Seq<char>) -> bool {
    !(is_char_suffix("@"@, spec) && spec.len() > 1)
}

/// Whether a revision is written in a way that this library hands to the
/// store.
pub fn check_spec(spec: &str) -> (res: bool)
    ensures
        res == is_supported_spec(spec@),
{
    !(ends_with_str(spec, "@") && spec.unicode_len() > 1)
}

/// The view of an optional reference name.
pub open spec fn name_view(name: Option<ReferenceName>) -> Option<Seq<char>> {
    match name {
        Some(n) => Some(n@),
        None => None,
    }
}

/// The reference that a reference of the given kind and symbolic target
/// names, where resolving it can go through: none for a direct reference,
/// and what the target spells for a symbolic one. Resolving cannot go
/// through for a reference of no kind, and for a symbolic reference
/// without a target or with one that is not valid UTF-8.
pub open spec fn spec_resolved_name(kind: Option<ReferenceKind>, symbolic_target: Option<Vec<u8>>)
    -> Option<Option<Seq<char>>> {
    match kind {
        Some(ReferenceKind::Direct) => Some(None),
        Some(ReferenceKind::Symbolic) => match symbolic_target {
            Some(target) => if valid_utf8(target@) {
                Some(Some(decode_utf8(target@)))
            } else {
                None
            },
            None => None,
        },
        None => None,
    }
}

/// What a reference resolves to, given the commit it leads to, its kind
/// and the name it points to. A direct reference names no other
/// reference; a symbolic one names the reference that its target spells.
pub fn resolve_reference_info(
    oid: Option<NonZeroOid>,
    kind: Option<ReferenceKind>,
    symbolic_target: Option<Vec<u8>>,
) -> (res: Result<ResolvedReferenceInfo, RepoError>)
    ensures
        match kind {
            Some(ReferenceKind::Direct) => res matches Ok(info) && info.oid == oid
                && info.reference_name is None,
            Some(ReferenceKind::Symbolic) => match symbolic_target {
                Some(target) => if valid_utf8(target@) {
                    res matches Ok(info) && info.oid == oid && info.reference_name is Some
                        && info.reference_name->Some_0@ == decode_utf8(target@)
                } else {
                    res matches Err(e) && e is InvalidReferenceName
                },
                None => res matches Err(e) && e is MissingSymbolicTarget,
            },
            None => res matches Err(e) && e is UnknownReferenceType,
        },
{
    match kind {
        Some(ReferenceKind::Direct) => Ok(ResolvedReferenceInfo { oid, reference_name: None }),
        Some(ReferenceKind::Symbolic) => match symbolic_target {
            Some(target) => match ReferenceName::from_bytes(target) {
                Ok(name) => Ok(ResolvedReferenceInfo { oid, reference_name: Some(name) }),
                Err(_) => Err(RepoError::InvalidReferenceName),
            },
            None => Err(RepoError::MissingSymbolicTarget),
        },
        None => Err(RepoError::UnknownReferenceType),
    }
}

/// The commit that is checked out, given what `HEAD` points to. Where it
/// points to no commit, there is none.
pub fn head_commit_of(info: &ResolvedReferenceInfo) -> (res: Result<NonZeroOid, RepoError>)
    ensures
        match info.oid {
            Some(oid) => res == Ok::<NonZeroOid, RepoError>(oid),
            None => res matches Err(e) && e is NoHead,
        },
{
    match info.oid {
        Some(oid) => Ok(oid),
        None => Err(RepoError::NoHead),
    }
}

/// Whether a path is among the old or new paths of the differences.
pub open spec fn delta_names(delta: RawDelta, path: Seq<u8>) -> bool {
    ||| (delta.old_path matches Some(p) && p@ == path)
    ||| (delta.new_path matches Some(p) && p@ == path)
}

/// The paths that the differences name, old or new.
pub open spec fn spec_delta_paths(deltas: Seq<RawDelta>) -> Set<Seq<u8>> {
    Set::new(
        |path: Seq<u8>|
            exists|i: int| 0 <= i < deltas.len() && delta_names(#[trigger] deltas[i], path),
    )
}

/// The paths that the differences name, old or new.
pub fn collect_delta_paths(deltas: &Vec<RawDelta>) -> (res: PathSet)
    ensures
        res@ == spec_delta_paths(deltas@),
{
    let mut out = PathSet::new();
    let mut n: usize = 0;
    while n < deltas.len()
        invariant
            n <= deltas@.len(),
            forall|path: Seq<u8>|
                out@.contains(path) <==> exists|i: int|
                    0 <= i < n && delta_names(#[trigger] deltas@[i], path),
        decreases deltas.len() - n,
    {
        let ghost before = out@;
        match &deltas[n].old_path {
            Some(p) => {
                out.insert(p.as_slice());
            },
            None => {},
        }
        match &deltas[n].new_path {
            Some(p) => {
                out.insert(p.as_slice());
            },
            None => {},
        }
        proof {
            assert forall|path: Seq<u8>| out@.contains(path) <==> exists|i: int|
                0 <= i < n + 1 && delta_names(#[trigger] deltas@[i], path) by {
                if out@.contains(path) {
                    if before.contains(path) {
                        let i = choose|i: int| 0 <= i < n && delta_names(#[trigger] deltas@[i], path);
                        assert(0 <= i < n + 1 && delta_names(deltas@[i], path));
                    } else {
                        assert(delta_names(deltas@[n as int], path));
                    }
                }
                if exists|i: int| 0 <= i < n + 1 && delta_names(#[trigger] deltas@[i], path) {
                    let i = choose|i: int|
                        0 <= i < n + 1 && delta_names(#[trigger] deltas@[i], path);
                    if i < n {
                        assert(before.contains(path));
                    }
                }
            }
        }
        n += 1;
    }
    assert(out@ =~= spec_delta_paths(deltas@));
    out
}

/// What the store holds of a reference when it was looked up.
#[derive(Debug)]
pub struct Reference {
    pub name: Vec<u8>,
    pub kind: Option<ReferenceKind>,
    pub symbolic_target: Option<Vec<u8>>,
    pub target: Option<MaybeZeroOid>,
}

impl Reference {
    /// The reference as a line for the eyes of a developer: its name in
    /// quotes between `<Reference name=` and `>`.
    pub fn debug_string(&self) -> (res: String)
        ensures
            exists|quoted: Seq<char>| res@ == "<Reference name="@ + quoted + ">"@,
    {
        let quoted = crate::text::debug_quoted(self.name.as_slice());
        let mut out = String::from_str("<Reference name=");
        out.append(quoted.as_str());
        out.append(">");
        assert(out@ == "<Reference name="@ + quoted@ + ">"@);
        out
    }

    /// Whether a text can be the name of a reference. A text with a NUL
    /// character cannot.
    pub fn is_valid_name(name: &str) -> (res: bool)
        ensures
            res == (!name@.contains('\0') && spec_reference_name_is_valid(name@)),
    {
        let chars = crate::version::to_chars(name);
        let mut i: usize = 0;
        while i < chars.len()
            invariant
                i <= chars@.len(),
                chars@ == name@,
                forall|j: int| 0 <= j < i ==> chars@[j] != '\0',
            decreases chars.len() - i,
        {
            if chars[i] == '\0' {
                assert(name@.contains(chars@[i as int]));
                return false;
            }
            i += 1;
        }
        assert(!name@.contains('\0'));
        git_reference_name_is_valid(name)
    }

    /// The object id that the name of a reference spells, for a reference
    /// that is named by an id. The zero id gives `None`.
    pub fn name_to_oid(reference_name: &ReferenceName) -> (res: Result<
        Option<NonZeroOid>,
        RepoError,
    >)
        ensures
            res is Ok == is_oid_text(vstd::utf8::encode_utf8(reference_name@)),
            res matches Ok(Some(oid)) ==> oid@ == spec_oid_bytes(
                vstd::utf8::encode_utf8(reference_name@),
            ),
            res matches Ok(None) ==> spec_oid_bytes(vstd::utf8::encode_utf8(reference_name@))
                == Seq::new(20, |i: int| 0u8),
            res matches Err(e) ==> e is InvalidReferenceName,
    {
        match MaybeZeroOid::from_hex(reference_name.as_str()) {
            Some(MaybeZeroOid::NonZero(oid)) => Ok(Some(oid)),
            Some(MaybeZeroOid::Zero) => Ok(None),
            None => Err(RepoError::InvalidReferenceName),
        }
    }

    /// The name of the reference.
    pub fn get_name(&self) -> (res: Result<ReferenceName, RepoError>)
        ensures
            res is Ok == valid_utf8(self.name@),
            res matches Ok(name) ==> name@ == decode_utf8(self.name@),
            res matches Err(e) ==> e is InvalidReferenceName,
    {
        match ReferenceName::from_bytes(crate::bytes::copy_bytes(self.name.as_slice())) {
            Ok(name) => Ok(name),
            Err(_) => Err(RepoError::InvalidReferenceName),
        }
    }
}

/// What the store holds of a branch when it was looked up.
#[derive(Debug)]
pub struct Branch {
    pub name: Option<Vec<u8>>,
    pub target: Option<MaybeZeroOid>,
}

/// What stands for the name of a branch whose name cannot be had.
pub const UNNAMED_BRANCH: &'static str = "(could not get branch name)";

impl Branch {
    /// The branch as a line for the eyes of a developer: its name in
    /// quotes between `<Branch name=` and `>`.
    pub fn debug_string(&self) -> (res: String)
        ensures
            exists|quoted: Seq<char>| res@ == "<Branch name="@ + quoted + ">"@,
    {
        let quoted = match &self.name {
            Some(name) => crate::text::debug_quoted(name.as_slice()),
            None => crate::text::debug_quoted(UNNAMED_BRANCH.as_bytes()),
        };
        let mut out = String::from_str("<Branch name=");
        out.append(quoted.as_str());
        out.append(">");
        assert(out@ == "<Branch name="@ + quoted@ + ">"@);
        out
    }

    /// The commit that the branch points to; `None` where it points to
    /// no object directly or to the zero id.
    pub fn get_oid(&self) -> (res: Result<Option<NonZeroOid>, RepoError>)
        ensures
            res is Ok,
            res->Ok_0 == match self.target {
                Some(MaybeZeroOid::NonZero(oid)) => Some(oid),
                _ => None,
            },
    {
        match self.target {
            Some(MaybeZeroOid::NonZero(oid)) => Ok(Some(oid)),
            _ => Ok(None),
        }
    }
}

/// The reference that what the store holds of it stands for: the name,
/// kind and symbolic target as they are, and the id it points to, which
/// may be the zero id.
pub fn reference_from_raw(raw: crate::store::RawReference) -> (res: Reference)
    ensures
        res.name == raw.name,
        res.kind == raw.kind,
        res.symbolic_target == raw.symbolic_target,
        res.target is Some == raw.target is Some,
        res.target matches Some(oid) ==> oid.spec_bytes() == raw.target->Some_0@,
{
    let target = match raw.target {
        Some(bytes) => {
            let oid = MaybeZeroOid::from_bytes(bytes);
            proof {
                if oid is Zero {
                    assert(bytes@ =~= Seq::new(20, |i: int| 0u8));
                }
            }
            Some(oid)
        },
        None => None,
    };
    Reference {
        name: raw.name,
        kind: raw.kind,
        symbolic_target: raw.symbolic_target,
        target,
    }
}

/// The branch that what the store holds of it stands for: its name as it
/// is, and the id it points to, which may be the zero id.
pub fn branch_from_raw(raw: crate::store::RawBranch) -> (res: Branch)
    ensures
        res.name == raw.name,
        res.target is Some == raw.target is Some,
        res.target matches Some(oid) ==> oid.spec_bytes() == raw.target->Some_0@,
{
    let target = match raw.target {
        Some(bytes) => {
            let oid = MaybeZeroOid::from_bytes(bytes);
            proof {
                if oid is Zero {
                    assert(bytes@ =~= Seq::new(20, |i: int| 0u8));
                }
            }
            Some(oid)
        },
        None => None,
    };
    Branch { name: raw.name, target }
}

impl Repo {
    /// Whether a rebase was begun and is not done yet.
    pub fn is_rebase_underway(&self) -> (res: Result<bool, RepoError>)
        ensures
            res is Ok,
            exists|state: RepositoryState| res->Ok_0 == spec_is_rebase_underway(state),
    {
        let state = git_state(&self.inner);
        let underway = state_is_rebase_underway(state);
        assert(underway == spec_is_rebase_underway(state));
        Ok(underway)
    }

    /// The name of the operation that the repository is in the middle of,
    /// if any.
    pub fn get_current_operation_type(&self) -> (res: Option<&'static str>)
        ensures
            exists|state: RepositoryState| text_view(res) == spec_operation_type(state),
    {
        let state = git_state(&self.inner);
        let res = state_operation_type(state);
        assert(text_view(res) == spec_operation_type(state));
        res
    }

    /// Looks up the reference with the given name. Gives `None` where
    /// there is none.
    pub fn find_reference(&self, name: &ReferenceName) -> (res: Result<Option<Reference>, RepoError>)
        ensures
            res matches Err(e) ==> e is Store && !e.spec_is_not_found(),
    {
        let answer = match git_find_reference(&self.inner, name.as_str()) {
            Ok(raw) => Ok(reference_from_raw(raw)),
            Err(e) => Err(RepoError::from_git(e)),
        };
        crate::error::absent_if_not_found(answer)
    }

    /// The commit that the reference leads to. Gives `None` where it
    /// leads to none.
    pub fn peel_to_commit(&self, reference: &Reference) -> (res: Result<Option<Commit>, RepoError>)
        ensures
            !valid_utf8(reference.name@) ==> (res matches Err(e) && e is InvalidReferenceName),
    {
        let name = reference.get_name()?;
        match git_peel_to_commit(&self.inner, name.as_str()) {
            Ok(bytes) => match MaybeZeroOid::from_bytes(bytes) {
                MaybeZeroOid::NonZero(oid) => self.find_commit(oid),
                MaybeZeroOid::Zero => Ok(None),
            },
            Err(e) => {
                let error = RepoError::from_git(e);
                if error.is_not_found() {
                    Ok(None)
                } else {
                    Err(error)
                }
            },
        }
    }

    /// What a reference points to: the commit it leads to, and the
    /// reference it names if it is symbolic.
    pub fn resolve_reference(&self, reference: &Reference) -> (res: Result<
        ResolvedReferenceInfo,
        RepoError,
    >)
        ensures
            res matches Ok(info) ==> spec_resolved_name(reference.kind, reference.symbolic_target)
                == Some(name_view(info.reference_name)),
            spec_resolved_name(reference.kind, reference.symbolic_target) is None ==> res is Err,
            !valid_utf8(reference.name@) ==> (res matches Err(e) && e is InvalidReferenceName),
    {
        let oid = match self.peel_to_commit(reference)? {
            Some(commit) => Some(commit.oid),
            None => None,
        };
        let target = match &reference.symbolic_target {
            Some(bytes) => Some(crate::bytes::copy_bytes(bytes.as_slice())),
            None => None,
        };
        resolve_reference_info(oid, reference.kind, target)
    }

    /// What `HEAD` points to. Where there is no `HEAD`, it points to
    /// nothing.
    pub fn get_head_info(&self) -> (res: Result<ResolvedReferenceInfo, RepoError>) {
        match self.find_reference(&ReferenceName::new(HEAD))? {
            Some(reference) => self.resolve_reference(&reference),
            None => Ok(ResolvedReferenceInfo { oid: None, reference_name: None }),
        }
    }

    /// The commit that a revision names. Gives `None` where it names
    /// nothing, or something that is no commit.
    pub fn revparse_single_commit(&self, spec: &str) -> (res: Result<Option<Commit>, RepoError>)
        ensures
            !is_supported_spec(spec@) ==> (res matches Err(e) && e is UnsupportedSpec),
            is_supported_spec(spec@) ==> !(res matches Err(e) && e is UnsupportedSpec),
    {
        if !check_spec(spec) {
            return Err(RepoError::UnsupportedSpec);
        }
        match git_revparse(&self.inner, spec) {
            Ok((bytes, kind)) => match kind {
                Some(ObjectKind::Commit) => match MaybeZeroOid::from_bytes(bytes) {
                    MaybeZeroOid::NonZero(oid) => match self.find_commit(oid) {
                        Ok(found) => Ok(found),
                        Err(_) => Err(RepoError::MissingObject),
                    },
                    MaybeZeroOid::Zero => Ok(None),
                },
                _ => Ok(None),
            },
            Err(e) => {
                let error = RepoError::from_git(e);
                if error.is_not_found() {
                    Ok(None)
                } else {
                    Err(error)
                }
            },
        }
    }

    /// Looks up the local or remote branch with the given name. Gives
    /// `None` where there is none.
    pub fn find_branch(&self, name: &str, branch_type: BranchType) -> (res: Result<
        Option<Branch>,
        RepoError,
    >)
        ensures
            res matches Err(e) ==> e is Store && !e.spec_is_not_found(),
    {
        let answer = match git_find_branch(&self.inner, name, branch_type) {
            Ok(raw) => Ok(branch_from_raw(raw)),
            Err(e) => Err(RepoError::from_git(e)),
        };
        crate::error::absent_if_not_found(answer)
    }

    /// The paths that are staged: those at which the index differs from
    /// the tree of the commit that is checked out.
    pub fn get_staged_paths(&self) -> (res: Result<PathSet, RepoError>) {
        let head = head_commit_of(&self.get_head_info()?)?;
        let commit = self.find_commit_or_fail(head)?;
        let tree = self.find_tree_or_fail(commit.tree)?;
        let index = self.get_index()?;
        match git_staged_deltas(&self.inner, &tree.oid.as_bytes(), &index.inner) {
            Ok(deltas) => Ok(collect_delta_paths(&deltas)),
            Err(e) => Err(RepoError::from_git(e)),
        }
    }

    /// The two trees whose difference is the patch of a commit: the tree
    /// of its parent, if it has one, and its own tree, both cut down to
    /// the paths that the commit touches. Gives `None` for a commit with
    /// more than one parent.
    pub fn get_patch_trees_for_commit(&self, commit: &Commit) -> (res: Result<
        Option<(Option<crate::treeio::Tree>, crate::treeio::Tree)>,
        RepoError,
    >)
        ensures
            (res matches Ok(None)) <==> commit.parents@.len() > 1,
            res matches Ok(Some((old_tree, _))) ==> old_tree is Some == (commit.parents@.len()
                == 1),
            res matches Err(e) ==> e is Store || e is MalformedTree || e is InvalidPath
                || e is ZeroOid || e is TooDeep,
    {
        let changed = match self.get_paths_touched_by_commit(commit)? {
            Some(paths) => paths,
            None => {
                return Ok(None);
            },
        };
        let helper = self.dehydrate_commit(commit, &changed, true)?;
        let old_tree = match helper.get_only_parent() {
            Some(parent) => Some(crate::treeio::Tree { oid: parent.tree }),
            None => None,
        };
        Ok(Some((old_tree, helper.get_tree())))
    }
}

} // verus!
