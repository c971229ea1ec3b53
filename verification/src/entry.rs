use vstd::prelude::*;
use crate::oid::NonZeroOid;

verus! {

/// The kind of a tree entry, as its file mode tells it.
#[derive(Clone, Copy, Debug, PartialEq, Eq, Structural)]
pub enum FileMode {
    Unreadable,
    Tree,
    Blob,
    BlobExecutable,
    Link,
    Commit,
}

pub const MODE_UNREADABLE: i32 = 0;

pub const MODE_TREE: i32 = 0o040000;

pub const MODE_BLOB: i32 = 0o100644;

pub const MODE_BLOB_EXECUTABLE: i32 = 0o100755;

pub const MODE_LINK: i32 = 0o120000;

pub const MODE_COMMIT: i32 = 0o160000;

impl FileMode {
    /// The numeric file mode of each kind.
    pub open spec fn spec_to_i32(self) -> i32 {
        match self {
            FileMode::Unreadable => MODE_UNREADABLE,
            FileMode::Tree => MODE_TREE,
            FileMode::Blob => MODE_BLOB,
            FileMode::BlobExecutable => MODE_BLOB_EXECUTABLE,
            FileMode::Link => MODE_LINK,
            FileMode::Commit => MODE_COMMIT,
        }
    }

    /// The kind that a numeric file mode stands for; a number that is none
    /// of the known modes is `Unreadable`.
    pub open spec fn spec_from_i32(mode: i32) -> FileMode {
        if mode == MODE_TREE {
            FileMode::Tree
        } else if mode == MODE_BLOB {
            FileMode::Blob
        } else if mode == MODE_BLOB_EXECUTABLE {
            FileMode::BlobExecutable
        } else if mode == MODE_LINK {
            FileMode::Link
        } else if mode == MODE_COMMIT {
            FileMode::Commit
        } else {
            FileMode::Unreadable
        }
    }

    pub fn to_i32(self) -> (res: i32)
        ensures
            res == self.spec_to_i32(),
            FileMode::spec_from_i32(res) == self,
    {
        match self {
            FileMode::Unreadable => MODE_UNREADABLE,
            FileMode::Tree => MODE_TREE,
            FileMode::Blob => MODE_BLOB,
            FileMode::BlobExecutable => MODE_BLOB_EXECUTABLE,
            FileMode::Link => MODE_LINK,
            FileMode::Commit => MODE_COMMIT,
        }
    }

    pub fn from_i32(mode: i32) -> (res: FileMode)
        ensures
            res == FileMode::spec_from_i32(mode),
    {
        if mode == MODE_TREE {
            FileMode::Tree
        } else if mode == MODE_BLOB {
            FileMode::Blob
        } else if mode == MODE_BLOB_EXECUTABLE {
            FileMode::BlobExecutable
        } else if mode == MODE_LINK {
            FileMode::Link
        } else if mode == MODE_COMMIT {
            FileMode::Commit
        } else {
            FileMode::Unreadable
        }
    }

    pub fn is_tree(self) -> (res: bool)
        ensures
            res == (self == FileMode::Tree),
    {
        match self {
            FileMode::Tree => true,
            _ => false,
        }
    }
}

/// What a tree holds at a path: the id of an object and its file mode.
#[derive(Clone, Copy, Debug)]
pub struct TreeEntry {
    pub oid: NonZeroOid,
    pub mode: FileMode,
}

impl TreeEntry {
    pub fn equals(&self, other: &TreeEntry) -> (res: bool)
        ensures
            res == (*self == *other),
    {
        self.oid.equals(&other.oid) && self.mode == other.mode
    }
}

/// Whether two optional entries are the same.
pub fn same_entry(a: &Option<TreeEntry>, b: &Option<TreeEntry>) -> (res: bool)
    ensures
        res == (*a == *b),
{
    match (a, b) {
        (None, None) => true,
        (Some(x), Some(y)) => x.equals(y),
        _ => false,
    }
}

} // verus!
