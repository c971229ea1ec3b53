use vstd::prelude::*;
use bstr::{ByteSlice, ByteVec};

verus! {

#[verifier::external_type_specification]
#[verifier::external_body]
pub struct ExRepository(git2::Repository);

#[verifier::external_type_specification]
#[verifier::external_body]
pub struct ExIndex(git2::Index);

#[verifier::external_type_specification]
#[verifier::external_body]
pub struct ExError(git2::Error);


/// One entry of a tree object as the store hands it out.
pub struct RawTreeItem {
    pub name: Vec<u8>,
    pub oid: [u8; 20],
    pub mode: i32,
}

/// What a commit object says of its tree and its parents.
pub struct RawCommit {
    pub tree: [u8; 20],
    pub parents: Vec<[u8; 20]>,
}

/// What an index holds at a path.
pub struct RawIndexEntry {
    pub oid: [u8; 20],
    pub mode: u32,
}

/// The paths of the up to three sides of one unmerged entry of an index.
pub struct RawConflict {
    pub ancestor: Option<Vec<u8>>,
    pub our: Option<Vec<u8>>,
    pub their: Option<Vec<u8>>,
}

/// What a repository is in the middle of.
#[derive(Clone, Copy, Debug, PartialEq, Eq, Structural)]
pub enum RepositoryState {
    Clean,
    Merge,
    Revert,
    RevertSequence,
    CherryPick,
    CherryPickSequence,
    Bisect,
    Rebase,
    RebaseInteractive,
    RebaseMerge,
    ApplyMailbox,
    ApplyMailboxOrRebase,
}

/// Whether a reference points to an object or to another reference.
#[derive(Clone, Copy, Debug, PartialEq, Eq, Structural)]
pub enum ReferenceKind {
    Direct,
    Symbolic,
}

/// The kind of an object of the store.
#[derive(Clone, Copy, Debug, PartialEq, Eq, Structural)]
pub enum ObjectKind {
    Any,
    Commit,
    Tree,
    Blob,
    Tag,
}

/// What the store holds of a reference.
pub struct RawReference {
    pub name: Vec<u8>,
    pub kind: Option<ReferenceKind>,
    pub symbolic_target: Option<Vec<u8>>,
    pub target: Option<[u8; 20]>,
}

/// Whether a branch is one of the repository or one that follows a
/// remote.
#[derive(Clone, Copy, Debug, PartialEq, Eq, Structural)]
pub enum BranchType {
    Local,
    Remote,
}

/// What the store holds of a branch.
pub struct RawBranch {
    pub name: Option<Vec<u8>>,
    pub target: Option<[u8; 20]>,
}

/// The two paths of one difference between a tree and an index.
pub struct RawDelta {
    pub old_path: Option<Vec<u8>>,
    pub new_path: Option<Vec<u8>>,
}

/// A path that `git2::Index::get_path` takes without panicking: it is not
/// empty, holds no NUL byte, and does not begin with a separator nor with
/// a component `.` or `..`.
pub open spec fn is_lookup_path(path: Seq<u8>) -> bool {
    &&& path.len() > 0
    &&& !path.contains(0u8)
    &&& path[0] != 47u8
    &&& path != seq![46u8]
    &&& path != seq![46u8, 46u8]
    &&& !(path.len() >= 2 && path[0] == 46u8 && path[1] == 47u8)
    &&& !(path.len() >= 3 && path[0] == 46u8 && path[1] == 46u8 && path[2] == 47u8)
}

/// `git2::Repository::discover`: opens the repository that holds `path`.
/// Nothing is claimed of the outcome.
#[verifier::external_body]
pub(crate) fn git_discover(path: &str) -> (res: Result<git2::Repository, git2::Error>) {
    git2::Repository::discover(path)
}

/// `git2::Error::code`, held against `git2::ErrorCode::NotFound`. Nothing
/// is claimed of the outcome.
#[verifier::external_body]
pub(crate) fn git_error_is_not_found(error: &git2::Error) -> (res: bool) {
    error.code() == git2::ErrorCode::NotFound
}

/// `git2::Error::message`. Nothing is claimed of the outcome.
#[verifier::external_body]
pub(crate) fn git_error_message(error: &git2::Error) -> (res: String) {
    error.message().to_owned()
}

/// `git2::Repository::find_tree` and `git2::Tree::iter`: the entries of the
/// tree object with the given id, each with its name, id and file mode.
/// Nothing is claimed of the outcome.
#[verifier::external_body]
pub(crate) fn git_tree_items(repo: &git2::Repository, oid: &[u8; 20]) -> (res: Result<
    Vec<RawTreeItem>,
    git2::Error,
>) {
    let tree = repo.find_tree(git2::Oid::from_bytes(oid)?)?;
    Ok(
        tree.iter().map(
            |e| RawTreeItem {
                name: e.name_bytes().to_vec(),
                oid: e.id().as_bytes().try_into().unwrap(),
                mode: e.filemode(),
            },
        ).collect(),
    )
}

/// The entries that a tree builder holds after the items were put into it
/// one by one: each name with the id and the file mode of the last item of
/// that name.
pub open spec fn raw_entries(items: Seq<RawTreeItem>) -> Map<Seq<u8>, (Seq<u8>, i32)>
    decreases items.len(),
{
    if items.len() == 0 {
        Map::empty()
    } else {
        raw_entries(items.drop_last()).insert(
            items.last().name@,
            (items.last().oid@, items.last().mode),
        )
    }
}

/// A name for the id of the tree object that holds the given entries: the
/// hash of the entries as the store writes them down, in the order of
/// their names.
pub uninterp spec fn spec_tree_id(entries: Map<Seq<u8>, (Seq<u8>, i32)>) -> Seq<u8>;

/// `git2::Repository::treebuilder`, `git2::TreeBuilder::insert` and
/// `git2::TreeBuilder::write`: writes a tree object that holds the given
/// entries and returns its id. An item put in under a name that is there
/// replaces what is there. Whether the write goes through is the
/// store's; the id is the hash of the entries and depends on them alone.
#[verifier::external_body]
pub(crate) fn git_write_tree(repo: &git2::Repository, items: &Vec<RawTreeItem>) -> (res: Result<
    [u8; 20],
    git2::Error,
>)
    ensures
        res matches Ok(oid) ==> oid@ == spec_tree_id(raw_entries(items@)),
{
    let mut builder = repo.treebuilder(None)?;
    for item in items.iter() {
        builder.insert(item.name.as_slice(), git2::Oid::from_bytes(&item.oid)?, item.mode)?;
    }
    Ok(builder.write()?.as_bytes().try_into().unwrap())
}

/// `git2::Repository::find_commit` with `git2::Commit::tree_id` and
/// `git2::Commit::parent_ids`: the ids that the commit object with the
/// given id holds. Nothing is claimed of the outcome.
#[verifier::external_body]
pub(crate) fn git_commit_info(repo: &git2::Repository, oid: &[u8; 20]) -> (res: Result<
    RawCommit,
    git2::Error,
>) {
    let commit = repo.find_commit(git2::Oid::from_bytes(oid)?)?;
    Ok(
        RawCommit {
            tree: commit.tree_id().as_bytes().try_into().unwrap(),
            parents: commit.parent_ids().map(|p| p.as_bytes().try_into().unwrap()).collect(),
        },
    )
}

/// Who stands in a commit as its author or its committer, and when.
pub struct RawSignature {
    pub name: String,
    pub email: String,
    pub seconds: i64,
    pub offset_minutes: i32,
}

/// The ids of a list, each as its bytes.
pub open spec fn id_views(ids: Seq<[u8; 20]>) -> Seq<Seq<u8>> {
    Seq::new(ids.len(), |i: int| ids[i]@)
}

/// A name for the id of the commit object with the given author,
/// committer, message, tree and parents: the hash of the commit as the
/// store writes it down.
pub uninterp spec fn spec_commit_id(
    author: (Seq<char>, Seq<char>, i64, i32),
    committer: (Seq<char>, Seq<char>, i64, i32),
    message: Seq<char>,
    tree: Seq<u8>,
    parents: Seq<Seq<u8>>,
) -> Seq<u8>;

/// What a signature is for the name of a commit id: name, address,
/// seconds and offset.
pub open spec fn signature_view(who: RawSignature) -> (Seq<char>, Seq<char>, i64, i32) {
    (who.name@, who.email@, who.seconds, who.offset_minutes)
}

/// `git2::Repository::commit` with signatures made by
/// `git2::Signature::new`: writes a commit object with the given author,
/// committer, message, tree and parents, moves the reference `update_ref`
/// to it where one is given, and returns its id. Whether the write goes
/// through is the store's; the id is the hash of what is written and
/// depends on author, committer, message, tree and parents alone.
#[verifier::external_body]
pub(crate) fn git_create_commit(
    repo: &git2::Repository,
    update_ref: Option<&str>,
    author: &RawSignature,
    committer: &RawSignature,
    message: &str,
    tree: &[u8; 20],
    parents: &Vec<[u8; 20]>,
) -> (res: Result<[u8; 20], git2::Error>)
    ensures
        res matches Ok(oid) ==> oid@ == spec_commit_id(
            signature_view(*author),
            signature_view(*committer),
            message@,
            tree@,
            id_views(parents@),
        ),
{
    let a = git2::Time::new(author.seconds, author.offset_minutes);
    let a = git2::Signature::new(&author.name, &author.email, &a)?;
    let c = git2::Time::new(committer.seconds, committer.offset_minutes);
    let c = git2::Signature::new(&committer.name, &committer.email, &c)?;
    let t = repo.find_tree(git2::Oid::from_bytes(tree)?)?;
    let mut p = Vec::new();
    for id in parents {
        p.push(repo.find_commit(git2::Oid::from_bytes(id)?)?);
    }
    let p: Vec<_> = p.iter().collect();
    Ok(repo.commit(update_ref, &a, &c, message, &t, &p)?.as_bytes().try_into().unwrap())
}

/// `git2::Repository::cherrypick_commit` with default merge options: the
/// index that results from applying the changes of the commit `patch`,
/// taken against its parent number `mainline`, onto the commit `target`.
/// Nothing is claimed of the outcome.
#[verifier::external_body]
pub(crate) fn git_cherrypick(
    repo: &git2::Repository,
    patch: &[u8; 20],
    target: &[u8; 20],
    mainline: u32,
) -> (res: Result<git2::Index, git2::Error>) {
    let patch = repo.find_commit(git2::Oid::from_bytes(patch)?)?;
    let target = repo.find_commit(git2::Oid::from_bytes(target)?)?;
    repo.cherrypick_commit(&patch, &target, mainline, None)
}

/// `git2::Repository::index` followed by `git2::Index::read`: the staged
/// index of the repository as it is on disk now. Nothing is claimed of the
/// outcome.
#[verifier::external_body]
pub(crate) fn git_read_index(repo: &git2::Repository) -> (res: Result<git2::Index, git2::Error>) {
    let mut index = repo.index()?;
    index.read(false)?;
    Ok(index)
}

/// A name for what an index holds: for a path and a stage, the id and the
/// mode of the entry there.
pub uninterp spec fn index_entries(index: git2::Index) -> Map<(Seq<u8>, int), (Seq<u8>, u32)>;

/// A name for whether an index says of itself that it holds entries that
/// were left unmerged.
pub uninterp spec fn index_conflict_flag(index: git2::Index) -> bool;

/// A name for the entries of an index that were left unmerged, each as
/// the paths of its ancestor, our and their side, in the order in which
/// the index hands them out.
pub uninterp spec fn index_conflicts(index: git2::Index) -> Seq<
    (Option<Seq<u8>>, Option<Seq<u8>>, Option<Seq<u8>>),
>;

/// The view of an optional byte string.
pub open spec fn bytes_of(bytes: Option<Vec<u8>>) -> Option<Seq<u8>> {
    match bytes {
        Some(b) => Some(b@),
        None => None,
    }
}

/// The paths of the sides of each conflict.
pub open spec fn conflict_views(conflicts: Seq<RawConflict>) -> Seq<
    (Option<Seq<u8>>, Option<Seq<u8>>, Option<Seq<u8>>),
> {
    Seq::new(
        conflicts.len(),
        |i: int|
            (bytes_of(conflicts[i].ancestor), bytes_of(conflicts[i].our), bytes_of(conflicts[i].their)),
    )
}

/// What an index holds at a path in a stage, if anything.
pub open spec fn spec_index_get(index: git2::Index, path: Seq<u8>, stage: int) -> Option<
    (Seq<u8>, u32),
> {
    if index_entries(index).contains_key((path, stage)) {
        Some(index_entries(index)[(path, stage)])
    } else {
        None
    }
}

/// The id and the mode of an entry that the store handed out, if it
/// handed one out.
pub open spec fn raw_entry_view(entry: Option<RawIndexEntry>) -> Option<(Seq<u8>, u32)> {
    match entry {
        Some(e) => Some((e.oid@, e.mode)),
        None => None,
    }
}

/// `git2::Index::has_conflicts`: what the index says of itself. The index
/// is held in memory and the call does not change it.
#[verifier::external_body]
pub(crate) fn git_index_has_conflicts(index: &git2::Index) -> (res: bool)
    ensures
        res == index_conflict_flag(*index),
{
    index.has_conflicts()
}

/// `git2::Index::conflicts`: the unmerged entries of the index, each as
/// the paths of its sides. Where the walk goes through, it hands out what
/// the index holds.
#[verifier::external_body]
pub(crate) fn git_index_conflicts(index: &git2::Index) -> (res: Result<
    Vec<RawConflict>,
    git2::Error,
>)
    ensures
        res matches Ok(found) ==> conflict_views(found@) == index_conflicts(*index),
{
    let mut out = Vec::new();
    for conflict in index.conflicts()? {
        let conflict = conflict?;
        out.push(
            RawConflict {
                ancestor: conflict.ancestor.map(|e| e.path),
                our: conflict.our.map(|e| e.path),
                their: conflict.their.map(|e| e.path),
            },
        );
    }
    Ok(out)
}

/// `git2::Index::get_path`: the entry of the index at `path` in the given
/// stage, if there is one. The call panics on a path that git2 does not
/// take as a path inside a repository, so such paths are left out. The
/// index is held in memory and the call does not change it.
#[verifier::external_body]
pub(crate) fn git_index_get(index: &git2::Index, path: &[u8], stage: i32) -> (res: Option<
    RawIndexEntry,
>)
    requires
        is_lookup_path(path@),
    ensures
        raw_entry_view(res) == (if index_entries(*index).contains_key((path@, stage as int)) {
            Some(index_entries(*index)[(path@, stage as int)])
        } else {
            None
        }),
{
    index.get_path(path.to_path_lossy().as_ref(), stage).map(
        |e| RawIndexEntry { oid: e.id.as_bytes().try_into().unwrap(), mode: e.mode },
    )
}

/// `git2::Repository::workdir`: the directory of the working copy, if the
/// repository has one. Nothing is claimed of the outcome.
#[verifier::external_body]
pub(crate) fn git_workdir(repo: &git2::Repository) -> (res: Option<Vec<u8>>) {
    repo.workdir().map(|p| Vec::from_path_lossy(p).into_owned())
}

/// `std::path::Path::join`: the path `rel` taken from the directory
/// `base`. Nothing is claimed of the outcome.
#[verifier::external_body]
pub(crate) fn join_file_path(base: &[u8], rel: &[u8]) -> (res: Vec<u8>) {
    Vec::from_path_lossy(&base.to_path_lossy().join(rel.to_path_lossy())).into_owned()
}

/// `git2::Repository::blob_path`: reads the file at `path` and writes its
/// contents to the store as a blob, whose id it returns. Nothing is
/// claimed of the outcome.
#[verifier::external_body]
pub(crate) fn git_blob_from_file(repo: &git2::Repository, path: &[u8]) -> (res: Result<
    [u8; 20],
    git2::Error,
>) {
    Ok(repo.blob_path(path.to_path_lossy().as_ref())?.as_bytes().try_into().unwrap())
}

/// A name for the id of the blob that holds the given bytes: their hash.
pub uninterp spec fn spec_blob_id(contents: Seq<u8>) -> Seq<u8>;

/// `git2::Repository::blob`: writes the bytes to the store as a blob,
/// whose id it returns. Whether the write goes through is the store's;
/// the id is the hash of the bytes and depends on them alone.
#[verifier::external_body]
pub(crate) fn git_blob(repo: &git2::Repository, contents: &[u8]) -> (res: Result<
    [u8; 20],
    git2::Error,
>)
    ensures
        res matches Ok(oid) ==> oid@ == spec_blob_id(contents@),
{
    Ok(repo.blob(contents)?.as_bytes().try_into().unwrap())
}

/// `git2::Repository::state`. Nothing is claimed of the outcome.
#[verifier::external_body]
pub(crate) fn git_state(repo: &git2::Repository) -> (res: RepositoryState) {
    match repo.state() {
        git2::RepositoryState::Clean => RepositoryState::Clean,
        git2::RepositoryState::Merge => RepositoryState::Merge,
        git2::RepositoryState::Revert => RepositoryState::Revert,
        git2::RepositoryState::RevertSequence => RepositoryState::RevertSequence,
        git2::RepositoryState::CherryPick => RepositoryState::CherryPick,
        git2::RepositoryState::CherryPickSequence => RepositoryState::CherryPickSequence,
        git2::RepositoryState::Bisect => RepositoryState::Bisect,
        git2::RepositoryState::Rebase => RepositoryState::Rebase,
        git2::RepositoryState::RebaseInteractive => RepositoryState::RebaseInteractive,
        git2::RepositoryState::RebaseMerge => RepositoryState::RebaseMerge,
        git2::RepositoryState::ApplyMailbox => RepositoryState::ApplyMailbox,
        git2::RepositoryState::ApplyMailboxOrRebase => RepositoryState::ApplyMailboxOrRebase,
    }
}

/// `git2::Repository::find_reference`: the reference with the given name,
/// with its kind and what it points to. Nothing is claimed of the
/// outcome.
#[verifier::external_body]
pub(crate) fn git_find_reference(repo: &git2::Repository, name: &str) -> (res: Result<
    RawReference,
    git2::Error,
>) {
    let found = repo.find_reference(name)?;
    Ok(
        RawReference {
            name: found.name_bytes().to_vec(),
            kind: match found.kind() {
                Some(git2::ReferenceType::Direct) => Some(ReferenceKind::Direct),
                Some(git2::ReferenceType::Symbolic) => Some(ReferenceKind::Symbolic),
                None => None,
            },
            symbolic_target: found.symbolic_target_bytes().map(|b| b.to_vec()),
            target: found.target().map(|o| o.as_bytes().try_into().unwrap()),
        },
    )
}

/// `git2::Reference::peel` to a commit, on the reference with the given
/// name: the id of the commit that the reference leads to. Nothing is
/// claimed of the outcome.
#[verifier::external_body]
pub(crate) fn git_peel_to_commit(repo: &git2::Repository, name: &str) -> (res: Result<
    [u8; 20],
    git2::Error,
>) {
    let object = repo.find_reference(name)?.peel(git2::ObjectType::Commit)?;
    Ok(object.id().as_bytes().try_into().unwrap())
}

/// `git2::Repository::revparse_single`: the id and the kind of the object
/// that a revision names. Nothing is claimed of the outcome.
#[verifier::external_body]
pub(crate) fn git_revparse(repo: &git2::Repository, spec: &str) -> (res: Result<
    ([u8; 20], Option<ObjectKind>),
    git2::Error,
>) {
    let object = repo.revparse_single(spec)?;
    let kind = match object.kind() {
        Some(git2::ObjectType::Any) => Some(ObjectKind::Any),
        Some(git2::ObjectType::Commit) => Some(ObjectKind::Commit),
        Some(git2::ObjectType::Tree) => Some(ObjectKind::Tree),
        Some(git2::ObjectType::Blob) => Some(ObjectKind::Blob),
        Some(git2::ObjectType::Tag) => Some(ObjectKind::Tag),
        None => None,
    };
    Ok((object.id().as_bytes().try_into().unwrap(), kind))
}

/// `git2::Repository::find_branch`: the local or remote branch with the
/// given name, with its own name and the id it points to. Nothing is
/// claimed of the outcome.
#[verifier::external_body]
pub(crate) fn git_find_branch(repo: &git2::Repository, name: &str, kind: BranchType) -> (res:
    Result<RawBranch, git2::Error>) {
    let kind = match kind {
        BranchType::Local => git2::BranchType::Local,
        BranchType::Remote => git2::BranchType::Remote,
    };
    let branch = repo.find_branch(name, kind)?;
    Ok(
        RawBranch {
            name: branch.name_bytes().ok().map(|b| b.to_vec()),
            target: branch.get().target().map(|o| o.as_bytes().try_into().unwrap()),
        },
    )
}

/// `git2::Repository::diff_tree_to_index` with default options: the old
/// and the new path of each difference between the tree and the index.
/// Nothing is claimed of the outcome.
#[verifier::external_body]
pub(crate) fn git_staged_deltas(repo: &git2::Repository, tree: &[u8; 20], index: &git2::Index) -> (res:
    Result<Vec<RawDelta>, git2::Error>) {
    let tree = repo.find_tree(git2::Oid::from_bytes(tree)?)?;
    let diff = repo.diff_tree_to_index(Some(&tree), Some(index), None)?;
    Ok(
        diff.deltas().map(
            |d| RawDelta {
                old_path: d.old_file().path_bytes().map(|p| p.to_vec()),
                new_path: d.new_file().path_bytes().map(|p| p.to_vec()),
            },
        ).collect(),
    )
}

/// A name for what `git2::Reference::is_valid_name` says of a name
/// without a NUL character.
pub uninterp spec fn spec_reference_name_is_valid(name: Seq<char>) -> bool;

/// `git2::Reference::is_valid_name`: whether the text can be the name of
/// a reference. The call panics on a name that holds a NUL character, so
/// such names are left out.
#[verifier::external_body]
pub(crate) fn git_reference_name_is_valid(name: &str) -> (res: bool)
    requires
        !name@.contains('\0'),
    ensures
        res == spec_reference_name_is_valid(name@),
{
    git2::Reference::is_valid_name(name)
}

/// A name for the name and the address that `git2::Signature::new` makes
/// of a name and an address: each without the spaces and marks that the
/// store cuts off at its two ends.
pub uninterp spec fn spec_signature_texts(name: Seq<char>, email: Seq<char>) -> (
    Seq<char>,
    Seq<char>,
);

/// The view of an optional string.
pub open spec fn text_of(text: Option<String>) -> Option<Seq<char>> {
    match text {
        Some(t) => Some(t@),
        None => None,
    }
}

/// `git2::Signature::new`, with `git2::Signature::name` and
/// `git2::Signature::email` of what it made: the name and the address as
/// the store takes them over. What it cuts off depends on the two texts
/// alone, and what is left of a text is text. Whether the two are taken
/// at all is not claimed.
#[verifier::external_body]
pub(crate) fn git_signature_new(name: &str, email: &str, seconds: i64, offset_minutes: i32) -> (res:
    Result<(Option<String>, Option<String>), git2::Error>)
    ensures
        res matches Ok(made) ==> text_of(made.0) == Some(spec_signature_texts(name@, email@).0)
            && text_of(made.1) == Some(spec_signature_texts(name@, email@).1),
{
    let made = git2::Signature::new(name, email, &git2::Time::new(seconds, offset_minutes))?;
    Ok((made.name().map(|n| n.to_owned()), made.email().map(|e| e.to_owned())))
}

/// A name for what `git2::message_prettify` makes of a message: the
/// message without needless white space and, where a comment byte is
/// given, without the lines that begin with it, ending in a line break.
pub uninterp spec fn spec_prettified(message: Seq<char>, comment_char: Option<u8>) -> Seq<char>;

/// `git2::message_prettify`. The result depends on the message and the
/// comment byte alone.
#[verifier::external_body]
pub(crate) fn git_message_prettify(message: &str, comment_char: Option<u8>) -> (res: Result<
    String,
    git2::Error,
>)
    ensures
        res matches Ok(pretty) ==> pretty@ == spec_prettified(message@, comment_char),
{
    git2::message_prettify(message, comment_char)
}

/// The views of a list of pairs of byte strings.
pub open spec fn pair_views(pairs: Seq<(Vec<u8>, Vec<u8>)>) -> Seq<(Seq<u8>, Seq<u8>)> {
    Seq::new(pairs.len(), |i: int| (pairs[i].0@, pairs[i].1@))
}

/// `git2::message_trailers_bytes`: the trailers that the store finds in
/// a message, as pairs of key and value. What counts as a key goes by the
/// character classes of the process, so nothing is claimed of the
/// outcome.
#[verifier::external_body]
pub(crate) fn git_message_trailers(message: &str) -> (res: Result<
    Vec<(Vec<u8>, Vec<u8>)>,
    git2::Error,
>) {
    Ok(git2::message_trailers_bytes(message)?.iter().map(|(k, v)| (k.to_vec(), v.to_vec())).collect())
}

} // verus!
