use vstd::prelude::*;
use vstd::string::*;
use vstd::utf8::{decode_utf8, valid_utf8};
use crate::error::RepoError;
use crate::store::{git_message_prettify, git_message_trailers, pair_views, spec_prettified};
use crate::text::string_from_utf8;

verus! {

/// The byte that stands for a comment character, if it fits into one.
pub open spec fn spec_comment_byte(c: char) -> Option<u8> {
    if (c as u32) < 256 {
        Some(c as u32 as u8)
    } else {
        None
    }
}

/// The byte that stands for a comment character, if it fits into one.
pub fn comment_byte(c: char) -> (res: Option<u8>)
    ensures
        res == spec_comment_byte(c),
{
    let n = c as u32;
    if n < 256 {
        Some(n as u8)
    } else {
        None
    }
}

/// Cleans up a message: needless white space goes, the lines that begin
/// with the comment character go where one is given, and the message
/// ends with a line break. A comment character that does not fit into
/// one byte is refused.
pub fn message_prettify(message: &str, comment_char: Option<char>) -> (res: Result<String, RepoError>)
    ensures
        match comment_char {
            Some(c) => match spec_comment_byte(c) {
                Some(b) => (res matches Ok(pretty) ==> pretty@ == spec_prettified(
                    message@,
                    Some(b),
                )) && (res matches Err(e) ==> e is Store),
                None => res matches Err(e) && e is CommentCharNotAscii,
            },
            None => (res matches Ok(pretty) ==> pretty@ == spec_prettified(message@, None)) && (
            res matches Err(e) ==> e is Store),
        },
{
    let byte = match comment_char {
        Some(c) => match comment_byte(c) {
            Some(b) => Some(b),
            None => {
                return Err(RepoError::CommentCharNotAscii);
            },
        },
        None => None,
    };
    match git_message_prettify(message, byte) {
        Ok(pretty) => Ok(pretty),
        Err(e) => Err(RepoError::from_git(e)),
    }
}

/// The trailers that are text: of the pairs of key and value, those of
/// which both are valid UTF-8, decoded, in their order.
pub open spec fn spec_text_trailers(pairs: Seq<(Seq<u8>, Seq<u8>)>) -> Seq<(Seq<char>, Seq<char>)>
    decreases pairs.len(),
{
    if pairs.len() == 0 {
        Seq::empty()
    } else {
        let rest = spec_text_trailers(pairs.drop_last());
        let last = pairs.last();
        if valid_utf8(last.0) && valid_utf8(last.1) {
            rest.push((decode_utf8(last.0), decode_utf8(last.1)))
        } else {
            rest
        }
    }
}

/// The views of a list of pairs of strings.
pub open spec fn text_pair_views(pairs: Seq<(String, String)>) -> Seq<(Seq<char>, Seq<char>)> {
    Seq::new(pairs.len(), |i: int| (pairs[i].0@, pairs[i].1@))
}

/// The trailers that are text.
pub fn text_trailers(pairs: Vec<(Vec<u8>, Vec<u8>)>) -> (res: Vec<(String, String)>)
    ensures
        text_pair_views(res@) == spec_text_trailers(pair_views(pairs@)),
{
    let ghost all = pair_views(pairs@);
    let mut out: Vec<(String, String)> = Vec::new();
    let mut i: usize = 0;
    assert(all.subrange(0, 0) =~= Seq::<(Seq<u8>, Seq<u8>)>::empty());
    assert(text_pair_views(out@) =~= Seq::<(Seq<char>, Seq<char>)>::empty());
    while i < pairs.len()
        invariant
            i <= pairs@.len(),
            all == pair_views(pairs@),
            text_pair_views(out@) == spec_text_trailers(all.subrange(0, i as int)),
        decreases pairs.len() - i,
    {
        let key = string_from_utf8(crate::bytes::copy_bytes(pairs[i].0.as_slice()));
        let value = string_from_utf8(crate::bytes::copy_bytes(pairs[i].1.as_slice()));
        let ghost before = text_pair_views(out@);
        proof {
            let upto = all.subrange(0, i as int + 1);
            assert(upto.drop_last() =~= all.subrange(0, i as int));
            assert(upto.last() == all[i as int]);
        }
        match (key, value) {
            (Ok(k), Ok(v)) => {
                let ghost kv = (k@, v@);
                out.push((k, v));
                assert(text_pair_views(out@) =~= before.push(kv));
            },
            _ => {},
        }
        i += 1;
    }
    assert(all.subrange(0, pairs@.len() as int) =~= all);
    out
}

/// The trailers of a commit message: the pairs of key and value at its
/// end, like `Signed-off-by: someone`, as far as they are text: of the
/// pairs that the store finds, those of which key and value are valid
/// UTF-8, in their order. A message that is not valid UTF-8 is refused.
pub fn get_trailers(message: &[u8]) -> (res: Result<Vec<(String, String)>, RepoError>)
    ensures
        !valid_utf8(message@) ==> (res matches Err(e) && e is InvalidMessage),
        valid_utf8(message@) ==> (res matches Err(e) ==> e is Store),
        res matches Ok(found) ==> exists|pairs: Seq<(Seq<u8>, Seq<u8>)>|
            text_pair_views(found@) == spec_text_trailers(pairs),
{
    let text = match string_from_utf8(crate::bytes::copy_bytes(message)) {
        Ok(text) => text,
        Err(_) => {
            return Err(RepoError::InvalidMessage);
        },
    };
    match git_message_trailers(text.as_str()) {
        Ok(pairs) => {
            let ghost views = pair_views(pairs@);
            let found = text_trailers(pairs);
            assert(text_pair_views(found@) == spec_text_trailers(views));
            Ok(found)
        },
        Err(e) => Err(RepoError::from_git(e)),
    }
}

} // verus!
