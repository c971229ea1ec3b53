use vstd::prelude::*;
use crate::entry::TreeEntry;
use crate::path::{spec_head, spec_tail};

verus! {

/// An entry with the path that leads to it, or with its name where the
/// path has one component.
pub struct TreeItem {
    pub name: Vec<u8>,
    pub entry: TreeEntry,
}

/// A path can be laid out where its first component is not empty and
/// where, if a separator follows, something follows the separator.
pub open spec fn can_lay_out(path: Seq<u8>) -> bool {
    &&& spec_head(path).len() > 0
    &&& (spec_tail(path) matches Some(t) ==> t.len() > 0)
}

} // verus!
