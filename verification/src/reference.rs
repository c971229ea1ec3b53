use vstd::prelude::*;
use vstd::string::*;
use vstd::utf8::{decode_utf8, valid_utf8};
use crate::oid::NonZeroOid;
use crate::text::{spec_strip_prefix_or_keep, starts_with_str, string_from_utf8, strip_prefix_or_keep};

verus! {

/// What the names of local branches begin with.
pub const LOCAL_BRANCH_PREFIX: &'static str = "refs/heads/";

/// What the names of remote branches begin with.
pub const REMOTE_BRANCH_PREFIX: &'static str = "refs/remotes/";

/// Why bytes are not the name of a reference.
#[derive(Debug)]
pub enum ReferenceNameError {
    /// The bytes are not valid UTF-8. The bytes are handed back.
    InvalidUtf8(Vec<u8>),
}

/// The name of a reference, like `refs/heads/master`.
#[derive(Debug)]
pub struct ReferenceName(pub String);

impl View for ReferenceName {
    type V = Seq<char>;

    open spec fn view(&self) -> Seq<char> {
        self.0@
    }
}

impl ReferenceName {
    /// The reference name that the bytes spell. Names that are not valid
    /// UTF-8 are refused.
    pub fn from_bytes(bytes: Vec<u8>) -> (res: Result<ReferenceName, ReferenceNameError>)
        ensures
            res is Ok == valid_utf8(bytes@),
            res matches Ok(name) ==> name@ == decode_utf8(bytes@),
            res matches Err(ReferenceNameError::InvalidUtf8(b)) ==> b@ == bytes@,
    {
        match string_from_utf8(bytes) {
            Ok(name) => Ok(ReferenceName(name)),
            Err(bytes) => Err(ReferenceNameError::InvalidUtf8(bytes)),
        }
    }

    /// The reference name with the given text.
    pub fn new(name: &str) -> (res: ReferenceName)
        ensures
            res@ == name@,
    {
        ReferenceName(String::from_str(name))
    }

    /// The name as a string.
    pub fn as_str(&self) -> (res: &str)
        ensures
            res@ == self@,
    {
        self.0.as_str()
    }
}

/// What a reference points to when it was looked at.
#[derive(Debug)]
pub struct ResolvedReferenceInfo {
    /// The commit that the reference points to; `None` where it is unborn.
    pub oid: Option<NonZeroOid>,
    /// The reference that it points to by name; `None` where it points to
    /// a commit directly.
    pub reference_name: Option<ReferenceName>,
}

impl ResolvedReferenceInfo {
    /// The name of the branch pointed to, if any, without the prefix of
    /// local branches where the name begins with it.
    pub fn get_branch_name(&self) -> (res: Result<Option<&str>, ReferenceNameError>)
        ensures
            res is Ok,
            res->Ok_0 is Some == self.reference_name is Some,
            res->Ok_0 matches Some(name) ==> name@ == spec_strip_prefix_or_keep(
                LOCAL_BRANCH_PREFIX@,
                self.reference_name->Some_0@,
            ),
    {
        match &self.reference_name {
            Some(name) => Ok(Some(strip_prefix_or_keep(name.as_str(), LOCAL_BRANCH_PREFIX))),
            None => Ok(None),
        }
    }
}

/// The kind of a reference as its name tells it.
#[derive(Debug)]
pub enum CategorizedReferenceName<'a> {
    /// A local branch.
    LocalBranch {
        /// The full name of the reference.
        name: &'a str,
        /// The prefix of local branches.
        prefix: &'static str,
    },
    /// A remote branch.
    RemoteBranch {
        /// The full name of the reference.
        name: &'a str,
        /// The prefix of remote branches.
        prefix: &'static str,
    },
    /// A reference that is no branch.
    OtherRef {
        /// The full name of the reference.
        name: &'a str,
    },
}

impl<'a> CategorizedReferenceName<'a> {
    /// The full name of the reference.
    pub open spec fn spec_name(&self) -> Seq<char> {
        match *self {
            CategorizedReferenceName::LocalBranch { name, prefix } => name@,
            CategorizedReferenceName::RemoteBranch { name, prefix } => name@,
            CategorizedReferenceName::OtherRef { name } => name@,
        }
    }

    /// The prefix that tells the kind; empty for a reference that is no
    /// branch.
    pub open spec fn spec_prefix(&self) -> Seq<char> {
        match *self {
            CategorizedReferenceName::LocalBranch { name, prefix } => prefix@,
            CategorizedReferenceName::RemoteBranch { name, prefix } => prefix@,
            CategorizedReferenceName::OtherRef { name } => Seq::empty(),
        }
    }

    /// The name without the prefix where it begins with it.
    pub open spec fn spec_suffix(&self) -> Seq<char> {
        spec_strip_prefix_or_keep(self.spec_prefix(), self.spec_name())
    }

    /// The word or words that say the kind, with a space behind.
    pub open spec fn spec_kind_words(&self) -> Seq<char> {
        match *self {
            CategorizedReferenceName::LocalBranch { name, prefix } => "branch "@,
            CategorizedReferenceName::RemoteBranch { name, prefix } => "remote branch "@,
            CategorizedReferenceName::OtherRef { name } => "ref "@,
        }
    }

    /// Tells the kind of a reference by its name: a local branch where the
    /// name begins with `refs/heads/`, else a remote branch where it
    /// begins with `refs/remotes/`, else another reference.
    pub fn new(name: &'a ReferenceName) -> (res: Self)
        ensures
            res.spec_name() == name@,
            crate::text::is_char_prefix(LOCAL_BRANCH_PREFIX@, name@) ==> res
                is LocalBranch && res.spec_prefix() == LOCAL_BRANCH_PREFIX@,
            !crate::text::is_char_prefix(LOCAL_BRANCH_PREFIX@, name@)
                && crate::text::is_char_prefix(REMOTE_BRANCH_PREFIX@, name@) ==> res
                is RemoteBranch && res.spec_prefix() == REMOTE_BRANCH_PREFIX@,
            !crate::text::is_char_prefix(LOCAL_BRANCH_PREFIX@, name@)
                && !crate::text::is_char_prefix(REMOTE_BRANCH_PREFIX@, name@) ==> res is OtherRef,
    {
        let name = name.as_str();
        if starts_with_str(name, LOCAL_BRANCH_PREFIX) {
            CategorizedReferenceName::LocalBranch { name, prefix: LOCAL_BRANCH_PREFIX }
        } else if starts_with_str(name, REMOTE_BRANCH_PREFIX) {
            CategorizedReferenceName::RemoteBranch { name, prefix: REMOTE_BRANCH_PREFIX }
        } else {
            CategorizedReferenceName::OtherRef { name }
        }
    }

    /// The name without the prefix of its kind.
    pub fn remove_prefix(&self) -> (res: Result<String, ReferenceNameError>)
        ensures
            res is Ok,
            res->Ok_0@ == self.spec_suffix(),
    {
        Ok(self.render_suffix())
    }

    /// The full name of the reference.
    pub fn render_full(&self) -> (res: String)
        ensures
            res@ == self.spec_name(),
    {
        let name: &str = match self {
            CategorizedReferenceName::LocalBranch { name, prefix: _ } => name,
            CategorizedReferenceName::RemoteBranch { name, prefix: _ } => name,
            CategorizedReferenceName::OtherRef { name } => name,
        };
        String::from_str(name)
    }

    /// The name without the prefix of its kind.
    pub fn render_suffix(&self) -> (res: String)
        ensures
            res@ == self.spec_suffix(),
    {
        match self {
            CategorizedReferenceName::LocalBranch { name, prefix } => String::from_str(
                strip_prefix_or_keep(name, prefix),
            ),
            CategorizedReferenceName::RemoteBranch { name, prefix } => String::from_str(
                strip_prefix_or_keep(name, prefix),
            ),
            CategorizedReferenceName::OtherRef { name } => {
                assert(spec_strip_prefix_or_keep(Seq::<char>::empty(), name@) =~= name@);
                String::from_str(name)
            },
        }
    }

    /// The name without its prefix, behind a word that says the kind:
    /// `branch`, `remote branch` or `ref`.
    pub fn friendly_describe(&self) -> (res: String)
        ensures
            res@ == self.spec_kind_words() + self.spec_suffix(),
    {
        let name = self.render_suffix();
        let mut out = match self {
            CategorizedReferenceName::LocalBranch { .. } => String::from_str("branch "),
            CategorizedReferenceName::RemoteBranch { .. } => String::from_str("remote branch "),
            CategorizedReferenceName::OtherRef { .. } => String::from_str("ref "),
        };
        out.append(name.as_str());
        out
    }
}

} // verus!
