use vstd::prelude::*;
use vstd::string::*;

verus! {

/// A class of characters that a scan looks for.
#[derive(Clone, Copy, Debug, PartialEq, Eq, Structural)]
pub enum CharClass {
    /// A space or a hyphen: what separates the words of a version line.
    WordBreak,
    /// A full stop: what separates the parts of a version number.
    Dot,
    /// Anything but white space.
    NotSpace,
}

/// Whether a character is white space as Unicode defines it.
pub open spec fn is_white_space(c: char) -> bool {
    let n = c as u32;
    ||| 9 <= n <= 13
    ||| n == 0x20
    ||| n == 0x85
    ||| n == 0xA0
    ||| n == 0x1680
    ||| 0x2000 <= n <= 0x200A
    ||| n == 0x2028
    ||| n == 0x2029
    ||| n == 0x202F
    ||| n == 0x205F
    ||| n == 0x3000
}

impl CharClass {
    /// Whether a character belongs to the class.
    pub open spec fn spec_holds(self, c: char) -> bool {
        match self {
            CharClass::WordBreak => c == ' ' || c == '-',
            CharClass::Dot => c == '.',
            CharClass::NotSpace => !is_white_space(c),
        }
    }

    pub fn holds(self, c: char) -> (res: bool)
        ensures
            res == self.spec_holds(c),
    {
        match self {
            CharClass::WordBreak => c == ' ' || c == '-',
            CharClass::Dot => c == '.',
            CharClass::NotSpace => {
                let n = c as u32;
                !((9 <= n && n <= 13) || n == 0x20 || n == 0x85 || n == 0xA0 || n == 0x1680 || (
                0x2000 <= n && n <= 0x200A) || n == 0x2028 || n == 0x2029 || n == 0x202F || n
                    == 0x205F || n == 0x3000)
            },
        }
    }
}

/// Whether `k` is the first place at or after `start` where `s` holds a
/// character of the class, or the end of `s` if it holds none.
pub open spec fn is_first_of(s: Seq<char>, class: CharClass, start: int, k: int) -> bool {
    &&& start <= k <= s.len()
    &&& (k == s.len() || class.spec_holds(s[k]))
    &&& forall|j: int| start <= j < k ==> !class.spec_holds(s[j])
}

/// The first place at or after `start` where `s` holds a character of the
/// class, or the end of `s`.
pub open spec fn first_of(s: Seq<char>, class: CharClass, start: int) -> int {
    choose|k: int| is_first_of(s, class, start, k)
}

/// There is one such place.
pub proof fn lemma_first_of_unique(s: Seq<char>, class: CharClass, start: int, a: int, b: int)
    requires
        is_first_of(s, class, start, a),
        is_first_of(s, class, start, b),
    ensures
        a == b,
{
    if a < b {
        assert(!class.spec_holds(s[a]));
    }
    if b < a {
        assert(!class.spec_holds(s[b]));
    }
}

/// The first place at or after `start` where `s` holds a character of the
/// class, or the end of `s`.
pub fn find_first_of(s: &Vec<char>, class: CharClass, start: usize) -> (k: usize)
    requires
        start <= s@.len(),
    ensures
        k == first_of(s@, class, start as int),
        is_first_of(s@, class, start as int, k as int),
{
    let mut k: usize = start;
    while k < s.len() && !class.holds(s[k])
        invariant
            start <= k <= s@.len(),
            forall|j: int| start <= j < k ==> !class.spec_holds(s@[j]),
        decreases s.len() - k,
    {
        k += 1;
    }
    proof {
        assert(is_first_of(s@, class, start as int, k as int));
        lemma_first_of_unique(s@, class, start as int, k as int, first_of(s@, class, start as int));
    }
    k
}

/// Whether `k` is where `s` ends once the white space at its end is taken
/// off.
pub open spec fn is_trim_end(s: Seq<char>, k: int) -> bool {
    &&& 0 <= k <= s.len()
    &&& (k == 0 || !is_white_space(s[k - 1]))
    &&& forall|j: int| k <= j < s.len() ==> is_white_space(s[j])
}

/// `s` without the white space at its beginning and at its end.
pub open spec fn spec_trim(s: Seq<char>) -> Seq<char> {
    let end = choose|k: int| is_trim_end(s, k);
    let start = first_of(s.subrange(0, end), CharClass::NotSpace, 0);
    s.subrange(start, end)
}

/// `s` without the white space at its beginning and at its end.
pub fn trim(s: &Vec<char>) -> (res: Vec<char>)
    ensures
        res@ == spec_trim(s@),
{
    let mut end: usize = s.len();
    while end > 0 && !CharClass::NotSpace.holds(s[end - 1])
        invariant
            end <= s@.len(),
            forall|j: int| end <= j < s@.len() ==> is_white_space(s@[j]),
        decreases end,
    {
        end -= 1;
    }
    proof {
        assert(is_trim_end(s@, end as int));
        let c = choose|k: int| is_trim_end(s@, k);
        if c < end {
            assert(is_white_space(s@[end - 1]));
        }
        if end < c {
            assert(is_white_space(s@[c - 1]));
        }
    }
    let mut head: Vec<char> = Vec::new();
    let mut i: usize = 0;
    while i < end
        invariant
            i <= end <= s@.len(),
            head@ == s@.subrange(0, i as int),
        decreases end - i,
    {
        head.push(s[i]);
        assert(head@ =~= s@.subrange(0, i as int + 1));
        i += 1;
    }
    let start = find_first_of(&head, CharClass::NotSpace, 0);
    let mut out: Vec<char> = Vec::new();
    let mut k: usize = start;
    while k < end
        invariant
            start <= k <= end,
            end <= s@.len(),
            out@ == s@.subrange(start as int, k as int),
        decreases end - k,
    {
        out.push(s[k]);
        assert(out@ =~= s@.subrange(start as int, k as int + 1));
        k += 1;
    }
    out
}

/// Where piece number `n` of `s` begins, if `n` separators of the class
/// stand before it.
pub open spec fn spec_piece_start(s: Seq<char>, class: CharClass, n: nat) -> Option<int>
    decreases n,
{
    if n == 0 {
        Some(0)
    } else {
        match spec_piece_start(s, class, (n - 1) as nat) {
            None => None,
            Some(start) => {
                let e = first_of(s, class, start);
                if e < s.len() {
                    Some(e + 1)
                } else {
                    None
                }
            },
        }
    }
}

/// Piece number `n` of `s` as cut at the separators of the class, if `s`
/// has that many pieces.
pub open spec fn spec_piece(s: Seq<char>, class: CharClass, n: nat) -> Option<Seq<char>> {
    match spec_piece_start(s, class, n) {
        None => None,
        Some(start) => Some(s.subrange(start, first_of(s, class, start))),
    }
}

/// Piece number `n` of `s` as cut at the separators of the class.
pub fn piece(s: &Vec<char>, class: CharClass, n: usize) -> (res: Option<Vec<char>>)
    ensures
        res is Some == spec_piece(s@, class, n as nat) is Some,
        res matches Some(p) ==> Some(p@) == spec_piece(s@, class, n as nat),
{
    let mut start: usize = 0;
    let mut i: usize = 0;
    while i < n
        invariant
            i <= n,
            start <= s@.len(),
            spec_piece_start(s@, class, i as nat) == Some(start as int),
        decreases n - i,
    {
        let e = find_first_of(s, class, start);
        if e >= s.len() {
            proof {
                lemma_no_piece_after(s@, class, (i + 1) as nat, n as nat);
            }
            return None;
        }
        start = e + 1;
        i += 1;
    }
    let e = find_first_of(s, class, start);
    let mut out: Vec<char> = Vec::new();
    let mut k: usize = start;
    while k < e
        invariant
            start <= k <= e,
            e <= s@.len(),
            out@ == s@.subrange(start as int, k as int),
        decreases e - k,
    {
        out.push(s[k]);
        assert(out@ =~= s@.subrange(start as int, k as int + 1));
        k += 1;
    }
    Some(out)
}

/// Where a piece is missing, the later ones are missing too.
pub proof fn lemma_no_piece_after(s: Seq<char>, class: CharClass, m: nat, n: nat)
    requires
        m <= n,
        spec_piece_start(s, class, m) is None,
    ensures
        spec_piece_start(s, class, n) is None,
    decreases n,
{
    if m < n {
        lemma_no_piece_after(s, class, m, (n - 1) as nat);
    }
}

pub open spec fn is_digit(c: char) -> bool {
    '0' <= c <= '9'
}

/// The number that the first `n` decimal digits of `s` stand for.
pub open spec fn spec_digits_value(s: Seq<char>, n: nat) -> int
    decreases n,
{
    if n == 0 {
        0
    } else {
        spec_digits_value(s, (n - 1) as nat) * 10 + (s[n - 1] as u32 - 48)
    }
}

/// A text without the sign that it may begin with.
pub open spec fn spec_unsigned_part(s: Seq<char>) -> Seq<char> {
    if s.len() > 0 && (s[0] == '-' || s[0] == '+') {
        s.subrange(1, s.len() as int)
    } else {
        s
    }
}

/// The number that a text stands for: an optional sign and then one
/// decimal digit or more, with a value that the machine's signed word
/// holds.
pub open spec fn spec_parse_number(s: Seq<char>) -> Option<int> {
    let digits = spec_unsigned_part(s);
    if digits.len() == 0 || !(forall|i: int| 0 <= i < digits.len() ==> is_digit(#[trigger] digits[i])) {
        None
    } else {
        let magnitude = spec_digits_value(digits, digits.len());
        let value = if s[0] == '-' {
            -magnitude
        } else {
            magnitude
        };
        if isize::MIN <= value <= isize::MAX {
            Some(value)
        } else {
            None
        }
    }
}

/// With more digits the number does not get smaller.
pub proof fn lemma_digits_grow(s: Seq<char>, m: nat, n: nat)
    requires
        m <= n <= s.len(),
        forall|i: int| 0 <= i < s.len() ==> is_digit(#[trigger] s[i]),
    ensures
        0 <= spec_digits_value(s, m) <= spec_digits_value(s, n),
    decreases n,
{
    if n == 0 {
    } else if m < n {
        lemma_digits_grow(s, m, (n - 1) as nat);
        assert(is_digit(s[n - 1]));
    } else {
        lemma_digits_grow(s, (m - 1) as nat, (n - 1) as nat);
        assert(is_digit(s[n - 1]));
    }
}

/// The number that a text stands for.
pub fn parse_number(s: &Vec<char>) -> (res: Option<isize>)
    ensures
        res is Some == spec_parse_number(s@) is Some,
        res matches Some(v) ==> Some(v as int) == spec_parse_number(s@),
{
    let n = s.len();
    let signed = n > 0 && (s[0] == '-' || s[0] == '+');
    let negative = n > 0 && s[0] == '-';
    let first: usize = if signed {
        1
    } else {
        0
    };
    let ghost digits = spec_unsigned_part(s@);
    assert(digits =~= s@.subrange(first as int, n as int));
    if first == n {
        return None;
    }
    let limit: i128 = isize::MAX as i128 + 1;
    let mut value: i128 = 0;
    let mut i: usize = first;
    while i < n
        invariant
            first <= i <= n,
            n == s@.len(),
            digits == s@.subrange(first as int, n as int),
            digits.len() == n - first,
            digits == spec_unsigned_part(s@),
            limit == isize::MAX as i128 + 1,
            forall|j: int| 0 <= j < i - first ==> is_digit(#[trigger] digits[j]),
            value == spec_digits_value(digits, (i - first) as nat),
            0 <= value <= limit,
        decreases n - i,
    {
        let c = s[i];
        assert(digits[i - first] == c);
        if c < '0' || c > '9' {
            assert(!is_digit(digits[i - first]));
            return None;
        }
        let d = (c as u32 - 48) as i128;
        assert(spec_digits_value(digits, (i - first + 1) as nat) == value * 10 + d);
        let next = value * 10 + d;
        if next > limit {
            let mut k: usize = i + 1;
            while k < n
                invariant
                    first <= i < k <= n,
                    n == s@.len(),
                    digits == s@.subrange(first as int, n as int),
                    digits.len() == n - first,
                    digits == spec_unsigned_part(s@),
                    forall|j: int| 0 <= j < k - first ==> is_digit(#[trigger] digits[j]),
                decreases n - k,
            {
                assert(digits[k - first] == s@[k as int]);
                if s[k] < '0' || s[k] > '9' {
                    assert(!is_digit(digits[k - first]));
                    return None;
                }
                k += 1;
            }
            proof {
                lemma_digits_grow(digits, (i - first + 1) as nat, digits.len());
            }
            return None;
        }
        value = next;
        i += 1;
    }
    if negative {
        Some((-value) as isize)
    } else if value > isize::MAX as i128 {
        None
    } else {
        Some(value as isize)
    }
}

/// The characters of a string.
pub fn to_chars(s: &str) -> (res: Vec<char>)
    ensures
        res@ == s@,
{
    let n = s.unicode_len();
    let mut out: Vec<char> = Vec::new();
    let mut i: usize = 0;
    while i < n
        invariant
            i <= n,
            n == s@.len(),
            out@ == s@.subrange(0, i as int),
        decreases n - i,
    {
        out.push(s.get_char(i));
        assert(out@ =~= s@.subrange(0, i as int + 1));
        i += 1;
    }
    assert(s@.subrange(0, n as int) =~= s@);
    out
}

/// The version of Git: major, minor and patch number.
#[derive(Debug, PartialEq, Eq, PartialOrd, Structural)]
pub struct GitVersion(pub isize, pub isize, pub isize);

/// Why a text does not tell a version of Git.
#[derive(Clone, Copy, Debug, PartialEq, Eq, Structural)]
pub enum GitVersionError {
    /// The text has fewer than three words.
    MissingVersion,
    /// The version has fewer than three parts.
    MissingPart,
    /// The major or the minor part is no number.
    InvalidNumber,
}

/// The version that the output of `git version` tells. The third word of
/// the trimmed text, as words are cut at spaces and hyphens, is the
/// version; its first three parts, as cut at full stops, are the major,
/// minor and patch number. A patch part that is no number counts as zero.
pub open spec fn spec_parse_version(output: Seq<char>) -> Result<(int, int, int), GitVersionError> {
    let text = spec_trim(output);
    match spec_piece(text, CharClass::WordBreak, 2) {
        None => Err(GitVersionError::MissingVersion),
        Some(version) => match (
            spec_piece(version, CharClass::Dot, 0),
            spec_piece(version, CharClass::Dot, 1),
            spec_piece(version, CharClass::Dot, 2),
        ) {
            (Some(major), Some(minor), Some(patch)) => match (
                spec_parse_number(major),
                spec_parse_number(minor),
            ) {
                (Some(a), Some(b)) => Ok(
                    (
                        a,
                        b,
                        match spec_parse_number(patch) {
                            Some(c) => c,
                            None => 0,
                        },
                    ),
                ),
                _ => Err(GitVersionError::InvalidNumber),
            },
            _ => Err(GitVersionError::MissingPart),
        },
    }
}

impl GitVersion {
    /// The version that the output of `git version` tells.
    pub fn from_str(output: &str) -> (res: Result<GitVersion, GitVersionError>)
        ensures
            match spec_parse_version(output@) {
                Ok((a, b, c)) => res == Ok::<GitVersion, GitVersionError>(
                    GitVersion(a as isize, b as isize, c as isize),
                ) && a == res->Ok_0.0 && b == res->Ok_0.1 && c == res->Ok_0.2,
                Err(e) => res == Err::<GitVersion, GitVersionError>(e),
            },
    {
        let chars = to_chars(output);
        let text = trim(&chars);
        let version = match piece(&text, CharClass::WordBreak, 2) {
            Some(version) => version,
            None => {
                return Err(GitVersionError::MissingVersion);
            },
        };
        let major = piece(&version, CharClass::Dot, 0);
        let minor = piece(&version, CharClass::Dot, 1);
        let patch = piece(&version, CharClass::Dot, 2);
        match (major, minor, patch) {
            (Some(major), Some(minor), Some(patch)) => {
                let a = parse_number(&major);
                let b = parse_number(&minor);
                match (a, b) {
                    (Some(a), Some(b)) => {
                        let c = match parse_number(&patch) {
                            Some(c) => c,
                            None => 0,
                        };
                        Ok(GitVersion(a, b, c))
                    },
                    _ => Err(GitVersionError::InvalidNumber),
                }
            },
            _ => Err(GitVersionError::MissingPart),
        }
    }
}

} // verus!
