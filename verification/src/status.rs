use vstd::prelude::*;
use crate::bytes::copy_range;
use crate::entry::FileMode;
use crate::scan::{find_next, next_index};

verus! {

pub const NUL: u8 = 0;

pub const SPACE: u8 = 32;

/// The tag of an ordinary changed entry.
pub const TAG_ORDINARY: u8 = 49;

/// The tag of a renamed or copied entry.
pub const TAG_RENAMED: u8 = 50;

/// The tag of an unmerged entry.
pub const TAG_UNMERGED: u8 = 117;

/// The state of a file in the index or in the working copy.
#[derive(Clone, Copy, Debug, PartialEq, Eq, Structural)]
pub enum FileStatus {
    Unmodified,
    Modified,
    Added,
    Deleted,
    Renamed,
    Copied,
    Unmerged,
    Untracked,
    Ignored,
}

impl FileStatus {
    /// The state that a status letter stands for. A byte that is no status
    /// letter stands for `Unmodified`.
    pub open spec fn spec_from_byte(b: u8) -> FileStatus {
        if b == 77 {
            FileStatus::Modified
        } else if b == 65 {
            FileStatus::Added
        } else if b == 68 {
            FileStatus::Deleted
        } else if b == 82 {
            FileStatus::Renamed
        } else if b == 67 {
            FileStatus::Copied
        } else if b == 85 {
            FileStatus::Unmerged
        } else if b == 63 {
            FileStatus::Untracked
        } else if b == 33 {
            FileStatus::Ignored
        } else {
            FileStatus::Unmodified
        }
    }

    pub fn from_byte(b: u8) -> (res: FileStatus)
        ensures
            res == FileStatus::spec_from_byte(b),
    {
        if b == 77 {
            FileStatus::Modified
        } else if b == 65 {
            FileStatus::Added
        } else if b == 68 {
            FileStatus::Deleted
        } else if b == 82 {
            FileStatus::Renamed
        } else if b == 67 {
            FileStatus::Copied
        } else if b == 85 {
            FileStatus::Unmerged
        } else if b == 63 {
            FileStatus::Untracked
        } else if b == 33 {
            FileStatus::Ignored
        } else {
            FileStatus::Unmodified
        }
    }
}

/// One entry of the status of a working copy.
#[derive(Debug)]
pub struct StatusEntry {
    pub index_status: FileStatus,
    pub working_copy_status: FileStatus,
    pub working_copy_file_mode: FileMode,
    pub path: Vec<u8>,
    pub orig_path: Option<Vec<u8>>,
}

/// A status entry as a value of specifications.
pub struct StatusEntryView {
    pub index_status: FileStatus,
    pub working_copy_status: FileStatus,
    pub working_copy_file_mode: FileMode,
    pub path: Seq<u8>,
    pub orig_path: Option<Seq<u8>>,
}

impl View for StatusEntry {
    type V = StatusEntryView;

    open spec fn view(&self) -> StatusEntryView {
        StatusEntryView {
            index_status: self.index_status,
            working_copy_status: self.working_copy_status,
            working_copy_file_mode: self.working_copy_file_mode,
            path: self.path@,
            orig_path: match self.orig_path {
                Some(p) => Some(p@),
                None => None,
            },
        }
    }
}

impl StatusEntryView {
    /// The paths that the entry names: its path, and the path it was
    /// renamed or copied from if it has one.
    pub open spec fn paths(self) -> Seq<Seq<u8>> {
        match self.orig_path {
            Some(orig) => seq![self.path, orig],
            None => seq![self.path],
        }
    }
}

impl StatusEntry {
    /// The paths that the entry names: its path, and the path it was
    /// renamed or copied from if it has one.
    pub fn paths(&self) -> (res: Vec<Vec<u8>>)
        ensures
            res@.len() == self@.paths().len(),
            forall|i: int| 0 <= i < res@.len() ==> (#[trigger] res@[i])@ == self@.paths()[i],
    {
        let mut out: Vec<Vec<u8>> = Vec::new();
        out.push(crate::bytes::copy_bytes(self.path.as_slice()));
        match &self.orig_path {
            Some(orig) => {
                out.push(crate::bytes::copy_bytes(orig.as_slice()));
            },
            None => {},
        }
        out
    }
}

/// Why a status stream could not be decoded.
#[derive(Clone, Copy, Debug, PartialEq, Eq, Structural)]
pub enum StatusError {
    /// A record begins with a byte that is no known tag.
    UnknownPrefix(u8),
    /// A record with a known tag does not have the fields of its kind.
    MalformedRecord,
}

/// Whether a byte is the tag of a kind of record.
pub open spec fn is_tag(b: u8) -> bool {
    b == TAG_ORDINARY || b == TAG_RENAMED || b == TAG_UNMERGED
}

/// How many fields, each followed by a space, stand before the path in a
/// record with the given tag.
pub open spec fn header_fields(tag: u8) -> nat {
    if tag == TAG_UNMERGED {
        10
    } else {
        8
    }
}

/// Which field holds the file mode of the working copy.
pub open spec fn mode_field(tag: u8) -> nat {
    if tag == TAG_UNMERGED {
        6
    } else {
        5
    }
}

/// Where field number `n` of a record begins, if `n` spaces stand before
/// it: field 0 begins the record, and each later field begins behind the
/// space that ends the one before.
pub open spec fn spec_field_start(line: Seq<u8>, n: nat) -> Option<int>
    decreases n,
{
    if n == 0 {
        Some(0)
    } else {
        match spec_field_start(line, (n - 1) as nat) {
            None => None,
            Some(s) => {
                let e = next_index(line, SPACE, s);
                if e < line.len() {
                    Some(e + 1)
                } else {
                    None
                }
            },
        }
    }
}

/// Field number `n` is there and is not empty.
pub open spec fn field_ok(line: Seq<u8>, n: nat) -> bool {
    spec_field_start(line, n) matches Some(s) && next_index(line, SPACE, s) > s
}

/// Field number `n`, for a record that has it.
pub open spec fn spec_field(line: Seq<u8>, n: nat) -> Seq<u8> {
    let s = spec_field_start(line, n)->Some_0;
    line.subrange(s, next_index(line, SPACE, s))
}

pub open spec fn is_octal_digit(b: u8) -> bool {
    48 <= b <= 55
}

/// Whether a field is a file mode: six octal digits.
pub open spec fn is_mode(f: Seq<u8>) -> bool {
    f.len() == 6 && forall|i: int| 0 <= i < 6 ==> is_octal_digit(#[trigger] f[i])
}

/// The number that the first `n` octal digits of `f` stand for.
pub open spec fn spec_octal(f: Seq<u8>, n: nat) -> int
    decreases n,
{
    if n == 0 {
        0
    } else {
        spec_octal(f, (n - 1) as nat) * 8 + (f[n - 1] - 48)
    }
}

/// Whether a field is a rename or copy score: `R` or `C` and then one
/// decimal digit or more.
pub open spec fn is_score(f: Seq<u8>) -> bool {
    &&& f.len() >= 2
    &&& (f[0] == 82 || f[0] == 67)
    &&& forall|i: int| 1 <= i < f.len() ==> 48 <= #[trigger] f[i] <= 57
}

/// The path of a record and the path it was renamed from, where the path
/// field begins at `start`. A renamed record may hold a score before its
/// path, and holds two paths with a NUL between them; the others hold one
/// path without a NUL.
pub open spec fn spec_paths(line: Seq<u8>, tag: u8, start: int) -> Option<
    (Seq<u8>, Option<Seq<u8>>),
> {
    if tag == TAG_RENAMED {
        let e = next_index(line, SPACE, start);
        let from = if e < line.len() && is_score(line.subrange(start, e)) {
            e + 1
        } else {
            start
        };
        let z = next_index(line, NUL, from);
        if z == from || z + 1 >= line.len() || next_index(line, NUL, z + 1) != line.len() {
            None
        } else {
            Some((line.subrange(from, z), Some(line.subrange(z + 1, line.len() as int))))
        }
    } else {
        if start >= line.len() || next_index(line, NUL, start) != line.len() {
            None
        } else {
            Some((line.subrange(start, line.len() as int), None))
        }
    }
}

/// The entry that one record stands for, if the record is well formed: a
/// tag, the two status letters, the fields of its kind, each followed by
/// one space, and then the path or paths.
pub open spec fn spec_parse_line(line: Seq<u8>) -> Option<StatusEntryView> {
    if line.len() == 0 || !is_tag(line[0]) {
        None
    } else {
        let tag = line[0];
        let count = header_fields(tag);
        if !(forall|n: nat| n < count ==> field_ok(line, n)) {
            None
        } else if spec_field(line, 0).len() != 1 || spec_field(line, 1).len() != 2 || !is_mode(
            spec_field(line, mode_field(tag)),
        ) {
            None
        } else {
            match spec_field_start(line, count) {
                None => None,
                Some(start) => match spec_paths(line, tag, start) {
                    None => None,
                    Some((path, orig_path)) => Some(
                        StatusEntryView {
                            index_status: FileStatus::spec_from_byte(spec_field(line, 1)[0]),
                            working_copy_status: FileStatus::spec_from_byte(spec_field(line, 1)[1]),
                            working_copy_file_mode: FileMode::spec_from_i32(
                                spec_octal(spec_field(line, mode_field(tag)), 6) as i32,
                            ),
                            path,
                            orig_path,
                        },
                    ),
                },
            }
        }
    }
}

/// Where field number `n` begins and ends, if `n` spaces stand before it.
pub fn field_bounds(line: &[u8], n: usize) -> (res: Option<(usize, usize)>)
    ensures
        res is Some == spec_field_start(line@, n as nat) is Some,
        res matches Some((s, e)) ==> spec_field_start(line@, n as nat) == Some(s as int) && e
            == next_index(line@, SPACE, s as int) && s <= e <= line@.len(),
{
    let mut start: usize = 0;
    let mut i: usize = 0;
    while i < n
        invariant
            i <= n,
            start <= line@.len(),
            spec_field_start(line@, i as nat) == Some(start as int),
        decreases n - i,
    {
        let e = find_next(line, SPACE, start);
        if e >= line.len() {
            proof {
                lemma_no_field_after(line@, (i + 1) as nat, n as nat);
            }
            return None;
        }
        start = e + 1;
        i += 1;
    }
    let e = find_next(line, SPACE, start);
    Some((start, e))
}

/// Where a field is missing, the later ones are missing too.
pub proof fn lemma_no_field_after(line: Seq<u8>, m: nat, n: nat)
    requires
        m <= n,
        spec_field_start(line, m) is None,
    ensures
        spec_field_start(line, n) is None,
    decreases n,
{
    if m < n {
        lemma_no_field_after(line, m, (n - 1) as nat);
    }
}

fn check_mode(line: &[u8], s: usize, e: usize) -> (res: Option<i32>)
    requires
        s <= e <= line@.len(),
    ensures
        res is Some == is_mode(line@.subrange(s as int, e as int)),
        res matches Some(m) ==> m == spec_octal(line@.subrange(s as int, e as int), 6),
{
    let ghost f = line@.subrange(s as int, e as int);
    if e - s != 6 {
        return None;
    }
    let mut value: i32 = 0;
    let mut i: usize = 0;
    while i < 6
        invariant
            i <= 6,
            e - s == 6,
            e <= line@.len(),
            f == line@.subrange(s as int, e as int),
            forall|j: int| 0 <= j < i ==> is_octal_digit(#[trigger] f[j]),
            value == spec_octal(f, i as nat),
            0 <= value < 262144,
            i < 6 ==> value < 32768,
        decreases 6 - i,
    {
        let b = line[s + i];
        assert(f[i as int] == b);
        if b < 48 || b > 55 {
            return None;
        }
        assert(spec_octal(f, (i + 1) as nat) == spec_octal(f, i as nat) * 8 + (f[i as int] - 48));
        assert(i < 5 ==> value * 8 + 7 < 32768) by {
            lemma_octal_bound(f, i as nat);
        }
        assert(value * 8 + 7 < 262144) by {
            lemma_octal_bound(f, i as nat);
        }
        value = value * 8 + (b - 48) as i32;
        i += 1;
    }
    Some(value)
}

/// A number of `n` octal digits is below eight to the `n`.
proof fn lemma_octal_bound(f: Seq<u8>, n: nat)
    requires
        n <= 5,
        n <= f.len(),
        forall|j: int| 0 <= j < n ==> is_octal_digit(#[trigger] f[j]),
    ensures
        n == 0 ==> spec_octal(f, n) == 0,
        n == 1 ==> 0 <= spec_octal(f, n) < 8,
        n == 2 ==> 0 <= spec_octal(f, n) < 64,
        n == 3 ==> 0 <= spec_octal(f, n) < 512,
        n == 4 ==> 0 <= spec_octal(f, n) < 4096,
        n == 5 ==> 0 <= spec_octal(f, n) < 32768,
    decreases n,
{
    if n > 0 {
        lemma_octal_bound(f, (n - 1) as nat);
        assert(is_octal_digit(f[n - 1]));
    }
}

fn check_score(line: &[u8], s: usize, e: usize) -> (res: bool)
    requires
        s <= e <= line@.len(),
    ensures
        res == is_score(line@.subrange(s as int, e as int)),
{
    let ghost f = line@.subrange(s as int, e as int);
    if e - s < 2 {
        return false;
    }
    assert(f[0] == line@[s as int]);
    if line[s] != 82 && line[s] != 67 {
        return false;
    }
    let mut i: usize = s + 1;
    while i < e
        invariant
            s + 1 <= i <= e,
            e <= line@.len(),
            f == line@.subrange(s as int, e as int),
            forall|j: int| 1 <= j < i - s ==> 48 <= #[trigger] f[j] <= 57,
        decreases e - i,
    {
        assert(f[i - s] == line@[i as int]);
        if line[i] < 48 || line[i] > 57 {
            return false;
        }
        i += 1;
    }
    true
}

/// The path of a record and the path it was renamed from, where the path
/// field begins at `start`.
fn parse_paths(line: &[u8], tag: u8, start: usize) -> (res: Option<(Vec<u8>, Option<Vec<u8>>)>)
    requires
        start <= line@.len(),
    ensures
        res is Some == spec_paths(line@, tag, start as int) is Some,
        res matches Some((path, orig)) ==> spec_paths(line@, tag, start as int) == Some(
            (
                path@,
                match orig {
                    Some(o) => Some(o@),
                    None => None,
                },
            ),
        ),
{
    let n = line.len();
    if tag == TAG_RENAMED {
        let e = find_next(line, SPACE, start);
        let from = if e < n && check_score(line, start, e) {
            e + 1
        } else {
            start
        };
        let z = find_next(line, NUL, from);
        if z == from || z >= n || z + 1 >= n {
            return None;
        }
        if find_next(line, NUL, z + 1) != n {
            return None;
        }
        let path = copy_range(line, from, z);
        let orig = copy_range(line, z + 1, n);
        Some((path, Some(orig)))
    } else {
        if start >= n {
            return None;
        }
        if find_next(line, NUL, start) != n {
            return None;
        }
        Some((copy_range(line, start, n), None))
    }
}

/// The entry that one record of a status stream stands for. The record is
/// given without the NUL that ends it; a renamed record holds the NUL
/// between its two paths.
pub fn parse_status_line(line: &[u8]) -> (res: Result<StatusEntry, StatusError>)
    ensures
        res is Ok == spec_parse_line(line@) is Some,
        res matches Ok(entry) ==> spec_parse_line(line@) == Some(entry@),
        res matches Err(e) ==> e == StatusError::MalformedRecord,
{
    if line.len() == 0 {
        return Err(StatusError::MalformedRecord);
    }
    let tag = line[0];
    if tag != TAG_ORDINARY && tag != TAG_RENAMED && tag != TAG_UNMERGED {
        return Err(StatusError::MalformedRecord);
    }
    let count: usize = if tag == TAG_UNMERGED {
        10
    } else {
        8
    };
    let mode_at: usize = if tag == TAG_UNMERGED {
        6
    } else {
        5
    };
    let mut n: usize = 0;
    while n < count
        invariant
            n <= count,
            count == header_fields(tag),
            line@.len() > 0,
            tag == line@[0],
            is_tag(tag),
            forall|m: nat| m < n ==> field_ok(line@, m),
        decreases count - n,
    {
        match field_bounds(line, n) {
            Some((s, e)) => {
                if e <= s {
                    assert(!field_ok(line@, n as nat));
                    return Err(StatusError::MalformedRecord);
                }
            },
            None => {
                assert(!field_ok(line@, n as nat));
                return Err(StatusError::MalformedRecord);
            },
        }
        n += 1;
    }
    assert(field_ok(line@, 0) && field_ok(line@, 1) && field_ok(line@, mode_at as nat));
    let (s0, e0) = field_bounds(line, 0).unwrap();
    let (s1, e1) = field_bounds(line, 1).unwrap();
    let (sm, em) = field_bounds(line, mode_at).unwrap();
    if e0 - s0 != 1 || e1 - s1 != 2 {
        return Err(StatusError::MalformedRecord);
    }
    let mode = match check_mode(line, sm, em) {
        Some(mode) => mode,
        None => {
            return Err(StatusError::MalformedRecord);
        },
    };
    let start = match field_bounds(line, count) {
        Some((s, _)) => s,
        None => {
            return Err(StatusError::MalformedRecord);
        },
    };
    let (path, orig_path) = match parse_paths(line, tag, start) {
        Some(paths) => paths,
        None => {
            return Err(StatusError::MalformedRecord);
        },
    };
    assert(spec_field(line@, 1)[0] == line@[s1 as int]);
    assert(spec_field(line@, 1)[1] == line@[s1 + 1]);
    Ok(
        StatusEntry {
            index_status: FileStatus::from_byte(line[s1]),
            working_copy_status: FileStatus::from_byte(line[s1 + 1]),
            working_copy_file_mode: FileMode::from_i32(mode),
            path,
            orig_path,
        },
    )
}

/// The views of a list of entries.
pub open spec fn entry_views(entries: Seq<StatusEntry>) -> Seq<StatusEntryView> {
    Seq::new(entries.len(), |i: int| entries[i]@)
}

/// Where the record that begins at `pos` ends, in a stream that holds a
/// known tag there: behind the NUL that ends its one field, or, for a
/// renamed record, behind the NUL that ends its second field. A record
/// that the stream breaks off ends with the stream.
pub open spec fn spec_record_end(bytes: Seq<u8>, pos: int) -> int {
    let e1 = next_index(bytes, NUL, pos);
    let after1 = if e1 < bytes.len() {
        e1 + 1
    } else {
        bytes.len() as int
    };
    if bytes[pos] == TAG_RENAMED {
        let e2 = next_index(bytes, NUL, after1);
        if e2 < bytes.len() {
            e2 + 1
        } else {
            bytes.len() as int
        }
    } else {
        after1
    }
}

/// The record that begins at `pos`, without the NUL that ends it. A
/// renamed record keeps the NUL between its two fields.
pub open spec fn spec_record(bytes: Seq<u8>, pos: int) -> Seq<u8> {
    let e1 = next_index(bytes, NUL, pos);
    if bytes[pos] == TAG_RENAMED {
        let after1 = if e1 < bytes.len() {
            e1 + 1
        } else {
            bytes.len() as int
        };
        let e2 = next_index(bytes, NUL, after1);
        bytes.subrange(pos, e1) + seq![NUL] + bytes.subrange(after1, e2)
    } else {
        bytes.subrange(pos, e1)
    }
}

/// The entries that a status stream holds from `pos` on, or the first
/// error met: a record is framed by its tag, so a byte that is no known
/// tag where a record begins is an error, and so is a record that is not
/// well formed.
pub open spec fn spec_decode_from(bytes: Seq<u8>, pos: int) -> Result<
    Seq<StatusEntryView>,
    StatusError,
>
    decreases bytes.len() - pos,
{
    if pos < 0 || pos >= bytes.len() {
        Ok(Seq::empty())
    } else if !is_tag(bytes[pos]) {
        Err(StatusError::UnknownPrefix(bytes[pos]))
    } else {
        match spec_parse_line(spec_record(bytes, pos)) {
            None => Err(StatusError::MalformedRecord),
            Some(entry) => {
                let end = spec_record_end(bytes, pos);
                let next = if end > pos {
                    end
                } else {
                    pos + 1
                };
                match spec_decode_from(bytes, next) {
                    Ok(rest) => Ok(seq![entry] + rest),
                    Err(e) => Err(e),
                }
            },
        }
    }
}

/// The entries that a status stream holds, or the first error met.
pub open spec fn spec_decode(bytes: Seq<u8>) -> Result<Seq<StatusEntryView>, StatusError> {
    spec_decode_from(bytes, 0)
}

/// What has been decoded, followed by what is still to come.
pub open spec fn then_rest(done: Seq<StatusEntryView>, rest: Result<Seq<StatusEntryView>, StatusError>)
    -> Result<Seq<StatusEntryView>, StatusError> {
    match rest {
        Ok(more) => Ok(done + more),
        Err(e) => Err(e),
    }
}

/// Decodes a status stream: records that end with a NUL each, of which a
/// renamed record holds a second field that ends with a NUL. The entries
/// come in the order of the stream.
pub fn parse_status_output(bytes: &[u8]) -> (res: Result<Vec<StatusEntry>, StatusError>)
    ensures
        match spec_decode(bytes@) {
            Ok(entries) => res is Ok && entry_views(res->Ok_0@) == entries,
            Err(e) => res == Err::<Vec<StatusEntry>, StatusError>(e),
        },
{
    let n = bytes.len();
    let mut out: Vec<StatusEntry> = Vec::new();
    let mut pos: usize = 0;
    assert(entry_views(out@) =~= Seq::<StatusEntryView>::empty());
    assert(then_rest(entry_views(out@), spec_decode_from(bytes@, 0)) == spec_decode(bytes@)) by {
        match spec_decode_from(bytes@, 0) {
            Ok(more) => {
                assert(Seq::<StatusEntryView>::empty() + more =~= more);
            },
            Err(_) => {},
        }
    }
    while pos < n
        invariant
            pos <= n,
            n == bytes@.len(),
            then_rest(entry_views(out@), spec_decode_from(bytes@, pos as int)) == spec_decode(
                bytes@,
            ),
        decreases n - pos,
    {
        let tag = bytes[pos];
        if tag != TAG_ORDINARY && tag != TAG_RENAMED && tag != TAG_UNMERGED {
            return Err(StatusError::UnknownPrefix(tag));
        }
        let e1 = find_next(bytes, NUL, pos);
        let after1 = if e1 < n {
            e1 + 1
        } else {
            n
        };
        let mut line = copy_range(bytes, pos, e1);
        let mut end = after1;
        if tag == TAG_RENAMED {
            let e2 = find_next(bytes, NUL, after1);
            line.push(NUL);
            let second = copy_range(bytes, after1, e2);
            let ghost first = line@;
            let mut i: usize = 0;
            while i < second.len()
                invariant
                    i <= second@.len(),
                    line@ == first + second@.subrange(0, i as int),
                decreases second.len() - i,
            {
                line.push(second[i]);
                assert(line@ =~= first + second@.subrange(0, i as int + 1));
                i += 1;
            }
            assert(second@.subrange(0, second@.len() as int) =~= second@);
            assert(line@ =~= spec_record(bytes@, pos as int));
            end = if e2 < n {
                e2 + 1
            } else {
                n
            };
        }
        assert(line@ == spec_record(bytes@, pos as int));
        assert(end == spec_record_end(bytes@, pos as int));
        assert(end > pos);
        let ghost before = entry_views(out@);
        match parse_status_line(line.as_slice()) {
            Ok(entry) => {
                let ghost view = entry@;
                out.push(entry);
                proof {
                    assert(entry_views(out@) =~= before.push(view));
                    match spec_decode_from(bytes@, end as int) {
                        Ok(more) => {
                            assert(before + (seq![view] + more) =~= before.push(view) + more);
                        },
                        Err(_) => {},
                    }
                }
            },
            Err(e) => {
                return Err(e);
            },
        }
        pos = end;
    }
    proof {
        assert(entry_views(out@) + Seq::<StatusEntryView>::empty() =~= entry_views(out@));
    }
    Ok(out)
}

} // verus!
