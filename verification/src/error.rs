use vstd::prelude::*;
use crate::store::{git_error_is_not_found, git_error_message};

verus! {

/// Why an operation on the repository did not go through.
#[derive(Debug)]
pub enum RepoError {
    /// The object store reported an error. `not_found` says whether it
    /// reported that something asked for is not there.
    Store { not_found: bool, message: String },
    /// The object store handed out the zero id where an object was due.
    ZeroOid,
    /// A tree object holds an entry with an unusable name, or two entries
    /// that cannot stand side by side.
    MalformedTree,
    /// A path cannot name an entry of a tree.
    InvalidPath,
    /// The trees are nested more deeply than this library follows.
    TooDeep,
    /// The commit has a number of parents that the operation does not take.
    UnsupportedParentCount,
    /// The repository has no working copy.
    NoWorkingCopy,
    /// An object that was asked for, or just written, is not in the store.
    MissingObject,
    /// The name of a reference is not valid UTF-8.
    InvalidReferenceName,
    /// A reference is neither direct nor symbolic.
    UnknownReferenceType,
    /// A symbolic reference names no reference.
    MissingSymbolicTarget,
    /// A revision is written in a way that the store misreads.
    UnsupportedSpec,
    /// The repository has no commit checked out.
    NoHead,
    /// The comment character does not fit into one byte.
    CommentCharNotAscii,
    /// A commit message is not valid UTF-8.
    InvalidMessage,
    /// The name or the address of a signature is not valid UTF-8.
    UndecodableSignature,
    /// A time lies before the epoch, or too far behind it.
    TimeOutOfRange,
}

impl RepoError {
    /// The error of the library that stands for an error of the store.
    pub fn from_git(error: git2::Error) -> (res: RepoError)
        ensures
            res is Store,
    {
        let not_found = git_error_is_not_found(&error);
        let message = git_error_message(&error);
        RepoError::Store { not_found, message }
    }

    /// Whether the store reported that something asked for is not there.
    pub open spec fn spec_is_not_found(&self) -> bool {
        *self matches RepoError::Store { not_found, .. } && not_found
    }

    /// Whether the store reported that something asked for is not there.
    pub fn is_not_found(&self) -> (res: bool)
        ensures
            res == self.spec_is_not_found(),
    {
        match self {
            RepoError::Store { not_found, .. } => *not_found,
            _ => false,
        }
    }
}

/// What a lookup comes to, given what the store answered: what was found;
/// nothing, where the store said that what was asked for is not there;
/// and the error of the store otherwise.
pub open spec fn spec_absent_if_not_found<T>(outcome: Result<T, RepoError>) -> Result<
    Option<T>,
    RepoError,
> {
    match outcome {
        Ok(found) => Ok(Some(found)),
        Err(e) => if e.spec_is_not_found() {
            Ok(None)
        } else {
            Err(e)
        },
    }
}

/// What a lookup comes to, given what the store answered.
pub fn absent_if_not_found<T>(outcome: Result<T, RepoError>) -> (res: Result<Option<T>, RepoError>)
    ensures
        res == spec_absent_if_not_found(outcome),
{
    match outcome {
        Ok(found) => Ok(Some(found)),
        Err(e) => if e.is_not_found() {
            Ok(None)
        } else {
            Err(e)
        },
    }
}

} // verus!
