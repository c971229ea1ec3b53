use vstd::prelude::*;
use vstd::string::*;
use vstd::utf8::{decode_utf8, valid_utf8};

verus! {

/// The characters that a sequence of ASCII bytes stands for.
pub open spec fn ascii_chars(bytes: Seq<u8>) -> Seq<char> {
    Seq::new(bytes.len(), |i: int| bytes[i] as char)
}

/// Whether every byte is an ASCII byte.
pub open spec fn all_ascii(bytes: Seq<u8>) -> bool {
    forall|i: int| 0 <= i < bytes.len() ==> bytes[i] < 128
}

/// `String::from_utf8_lossy`, on ASCII bytes only: there the bytes are
/// valid UTF-8 and each stands for the character with its number, so the
/// string holds those characters and nothing is replaced.
#[verifier::external_body]
pub(crate) fn ascii_string(bytes: &[u8]) -> (res: String)
    requires
        all_ascii(bytes@),
    ensures
        res@ == ascii_chars(bytes@),
{
    String::from_utf8_lossy(bytes).into_owned()
}

/// `String::from_utf8`: the string whose UTF-8 encoding the bytes are, or
/// the bytes handed back where they are no UTF-8 encoding.
#[verifier::external_body]
pub(crate) fn string_from_utf8(bytes: Vec<u8>) -> (res: Result<String, Vec<u8>>)
    ensures
        res is Ok == valid_utf8(bytes@),
        res matches Ok(s) ==> s@ == decode_utf8(bytes@),
        res matches Err(b) ==> b@ == bytes@,
{
    String::from_utf8(bytes).map_err(|e| e.into_bytes())
}

/// `format!` with `{:?}` on what `String::from_utf8_lossy` makes of the
/// bytes: the text in quotes, written as a string literal. Nothing is
/// claimed of the outcome.
#[verifier::external_body]
pub(crate) fn debug_quoted(bytes: &[u8]) -> (res: String) {
    format!("{:?}", String::from_utf8_lossy(bytes))
}

/// Whether `s` begins with `prefix`.
pub open spec fn is_char_prefix(prefix: Seq<char>, s: Seq<char>) -> bool {
    prefix.len() <= s.len() && s.subrange(0, prefix.len() as int) == prefix
}

/// Whether `s` ends with `suffix`.
pub open spec fn is_char_suffix(suffix: Seq<char>, s: Seq<char>) -> bool {
    suffix.len() <= s.len() && s.subrange(s.len() - suffix.len(), s.len() as int) == suffix
}

/// `s` without `prefix` where it begins with it, and `s` itself where it
/// does not.
pub open spec fn spec_strip_prefix_or_keep(prefix: Seq<char>, s: Seq<char>) -> Seq<char> {
    if is_char_prefix(prefix, s) {
        s.subrange(prefix.len() as int, s.len() as int)
    } else {
        s
    }
}

/// Whether the characters of `s` from `at` on begin with `part`.
fn matches_at(s: &str, at: usize, part: &str) -> (res: bool)
    requires
        at <= s@.len(),
    ensures
        res == (at + part@.len() <= s@.len() && s@.subrange(at as int, at + part@.len())
            == part@),
{
    let n = s.unicode_len();
    let m = part.unicode_len();
    if m > n - at {
        return false;
    }
    let mut i: usize = 0;
    while i < m
        invariant
            i <= m,
            m == part@.len(),
            n == s@.len(),
            at + m <= n,
            forall|j: int| 0 <= j < i ==> s@[at + j] == part@[j],
        decreases m - i,
    {
        if s.get_char(at + i) != part.get_char(i) {
            assert(s@.subrange(at as int, at + part@.len())[i as int] == s@[at + i]);
            return false;
        }
        i += 1;
    }
    assert(s@.subrange(at as int, at + part@.len()) =~= part@);
    true
}

/// Whether `s` begins with `prefix`.
pub fn starts_with_str(s: &str, prefix: &str) -> (res: bool)
    ensures
        res == is_char_prefix(prefix@, s@),
{
    matches_at(s, 0, prefix)
}

/// Whether `s` ends with `suffix`.
pub fn ends_with_str(s: &str, suffix: &str) -> (res: bool)
    ensures
        res == is_char_suffix(suffix@, s@),
{
    let n = s.unicode_len();
    let m = suffix.unicode_len();
    if m > n {
        return false;
    }
    matches_at(s, n - m, suffix)
}

/// `s` without `prefix` where it begins with it, and `s` itself where it
/// does not.
pub fn strip_prefix_or_keep<'a>(s: &'a str, prefix: &str) -> (res: &'a str)
    ensures
        res@ == spec_strip_prefix_or_keep(prefix@, s@),
{
    if starts_with_str(s, prefix) {
        s.substring_char(prefix.unicode_len(), s.unicode_len())
    } else {
        s
    }
}

/// The hexadecimal digit, in lower case, of a number below sixteen.
pub open spec fn spec_hex_digit(n: u8) -> u8 {
    if n < 10 {
        (48 + n) as u8
    } else {
        (87 + n) as u8
    }
}

/// The bytes written in hexadecimal: two digits in lower case for each.
pub open spec fn spec_hex(bytes: Seq<u8>) -> Seq<u8> {
    Seq::new(
        2 * bytes.len(),
        |i: int|
            if i % 2 == 0 {
                spec_hex_digit(bytes[i / 2] / 16)
            } else {
                spec_hex_digit(bytes[i / 2] % 16)
            },
    )
}

fn hex_digit(n: u8) -> (res: u8)
    requires
        n < 16,
    ensures
        res == spec_hex_digit(n),
        res < 128,
{
    if n < 10 {
        48 + n
    } else {
        87 + n
    }
}

/// The bytes written in hexadecimal.
pub fn to_hex(bytes: &[u8]) -> (res: Vec<u8>)
    ensures
        res@ == spec_hex(bytes@),
        all_ascii(res@),
{
    let mut out: Vec<u8> = Vec::new();
    let mut i: usize = 0;
    while i < bytes.len()
        invariant
            i <= bytes.len(),
            out@.len() == 2 * i,
            all_ascii(out@),
            forall|j: int| 0 <= j < 2 * i ==> out@[j] == spec_hex(bytes@)[j],
        decreases bytes.len() - i,
    {
        let b = bytes[i];
        let hi = hex_digit(b / 16);
        let lo = hex_digit(b % 16);
        out.push(hi);
        out.push(lo);
        proof {
            assert forall|j: int| 0 <= j < 2 * (i + 1) implies out@[j] == spec_hex(bytes@)[j] by {
                if j == 2 * i {
                    assert(j / 2 == i as int && j % 2 == 0);
                } else if j == 2 * i + 1 {
                    assert(j / 2 == i as int && j % 2 == 1);
                }
            }
        }
        i += 1;
    }
    assert(out@ =~= spec_hex(bytes@));
    out
}

} // verus!
