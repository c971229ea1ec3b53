use vstd::prelude::*;
use vstd::string::*;

verus! {

/// Whether every byte of `bytes` is zero.
pub open spec fn all_zero(bytes: Seq<u8>) -> bool {
    forall|i: int| 0 <= i < bytes.len() ==> bytes[i] == 0u8
}

/// The id of an object in the store. It is never the reserved all-zero id.
#[derive(Clone, Copy, Debug)]
pub struct NonZeroOid {
    bytes: [u8; 20],
}

impl View for NonZeroOid {
    type V = Seq<u8>;

    closed spec fn view(&self) -> Seq<u8> {
        self.bytes@
    }
}

impl NonZeroOid {
    #[verifier::type_invariant]
    closed spec fn inv(self) -> bool {
        !all_zero(self.bytes@)
    }

    pub fn as_bytes(&self) -> (res: [u8; 20])
        ensures
            res@ == self@,
            !all_zero(self@),
    {
        proof {
            use_type_invariant(self);
        }
        self.bytes
    }

    /// The id written as forty hexadecimal digits.
    pub fn to_hex_string(&self) -> (res: String)
        ensures
            res@ == crate::text::ascii_chars(crate::text::spec_hex(self@)),
    {
        let digits = crate::text::to_hex(self.bytes.as_slice());
        crate::text::ascii_string(digits.as_slice())
    }

    pub fn equals(&self, other: &NonZeroOid) -> (res: bool)
        ensures
            res == (self@ == other@),
            res == (*self == *other),
    {
        let mut i: usize = 0;
        while i < 20
            invariant
                i <= 20,
                forall|j: int| 0 <= j < i ==> self.bytes@[j] == other.bytes@[j],
            decreases 20 - i,
        {
            if self.bytes[i] != other.bytes[i] {
                return false;
            }
            i += 1;
        }
        assert(self.bytes@ =~= other.bytes@);
        assert(self.bytes =~= other.bytes);
        true
    }
}

/// The number that a hexadecimal digit stands for.
pub open spec fn spec_hex_value(c: u8) -> Option<u8> {
    if 48 <= c <= 57 {
        Some((c - 48) as u8)
    } else if 97 <= c <= 102 {
        Some((c - 87) as u8)
    } else if 65 <= c <= 70 {
        Some((c - 55) as u8)
    } else {
        None
    }
}

/// Whether a text spells an object id: one to forty hexadecimal digits.
pub open spec fn is_oid_text(text: Seq<u8>) -> bool {
    &&& 1 <= text.len() <= 40
    &&& forall|i: int| 0 <= i < text.len() ==> spec_hex_value(#[trigger] text[i]) is Some
}

/// The digit at place `i` of a text that is filled up with zeros.
pub open spec fn spec_digit_at(text: Seq<u8>, i: int) -> u8 {
    if 0 <= i < text.len() {
        spec_hex_value(text[i])->Some_0
    } else {
        0
    }
}

/// The bytes of the object id that a text spells: each two digits give a
/// byte, and a text of fewer than forty digits is filled up with zeros at
/// its end.
pub open spec fn spec_oid_bytes(text: Seq<u8>) -> Seq<u8> {
    Seq::new(20, |i: int| (spec_digit_at(text, 2 * i) * 16 + spec_digit_at(text, 2 * i + 1)) as u8)
}

fn hex_value(c: u8) -> (res: Option<u8>)
    ensures
        res == spec_hex_value(c),
        res matches Some(v) ==> v < 16,
{
    if 48 <= c && c <= 57 {
        Some(c - 48)
    } else if 97 <= c && c <= 102 {
        Some(c - 87)
    } else if 65 <= c && c <= 70 {
        Some(c - 55)
    } else {
        None
    }
}

/// The bytes of the object id that a text spells, if it spells one.
pub fn parse_oid_bytes(text: &[u8]) -> (res: Option<[u8; 20]>)
    ensures
        res is Some == is_oid_text(text@),
        res matches Some(bytes) ==> bytes@ == spec_oid_bytes(text@),
{
    let n = text.len();
    if n == 0 || n > 40 {
        return None;
    }
    let mut out: [u8; 20] = [0u8; 20];
    let mut i: usize = 0;
    while i < 20
        invariant
            i <= 20,
            1 <= n <= 40,
            n == text@.len(),
            forall|j: int| 0 <= j < 2 * i && j < n ==> spec_hex_value(#[trigger] text@[j]) is Some,
            forall|j: int| 0 <= j < i ==> out@[j] == spec_oid_bytes(text@)[j],
        decreases 20 - i,
    {
        let hi: u8 = if 2 * i < n {
            match hex_value(text[2 * i]) {
                Some(v) => v,
                None => {
                    return None;
                },
            }
        } else {
            0
        };
        let lo: u8 = if 2 * i + 1 < n {
            match hex_value(text[2 * i + 1]) {
                Some(v) => v,
                None => {
                    return None;
                },
            }
        } else {
            0
        };
        out[i] = hi * 16 + lo;
        i += 1;
    }
    assert(out@ =~= spec_oid_bytes(text@));
    Some(out)
}

/// An object id that may be the reserved all-zero id, which stands for "no object".
#[derive(Clone, Copy, Debug)]
pub enum MaybeZeroOid {
    Zero,
    NonZero(NonZeroOid),
}

impl MaybeZeroOid {
    /// The bytes of the id; twenty zeros for the zero id.
    pub open spec fn spec_bytes(self) -> Seq<u8> {
        match self {
            MaybeZeroOid::Zero => Seq::new(20, |i: int| 0u8),
            MaybeZeroOid::NonZero(oid) => oid@,
        }
    }

    /// The object id that a text of hexadecimal digits spells: `None`
    /// where the text is empty, longer than forty digits, or holds a
    /// character that is no hexadecimal digit.
    pub fn from_hex(text: &str) -> (res: Option<MaybeZeroOid>)
        ensures
            res is Some == is_oid_text(text.spec_bytes()),
            res matches Some(oid) ==> oid.spec_bytes() == spec_oid_bytes(text.spec_bytes()),
    {
        match parse_oid_bytes(text.as_bytes()) {
            Some(bytes) => {
                let oid = MaybeZeroOid::from_bytes(bytes);
                proof {
                    if oid is Zero {
                        assert(bytes@ =~= Seq::new(20, |i: int| 0u8));
                    }
                }
                Some(oid)
            },
            None => None,
        }
    }

    /// The id written as forty hexadecimal digits.
    pub fn to_hex_string(&self) -> (res: String)
        ensures
            res@ == crate::text::ascii_chars(crate::text::spec_hex(self.spec_bytes())),
    {
        match self {
            MaybeZeroOid::Zero => {
                let zeros: [u8; 20] = [0u8; 20];
                assert(zeros@ =~= Seq::new(20, |i: int| 0u8));
                let digits = crate::text::to_hex(zeros.as_slice());
                crate::text::ascii_string(digits.as_slice())
            },
            MaybeZeroOid::NonZero(oid) => oid.to_hex_string(),
        }
    }

    pub fn from_bytes(bytes: [u8; 20]) -> (res: MaybeZeroOid)
        ensures
            all_zero(bytes@) <==> res is Zero,
            res matches MaybeZeroOid::NonZero(oid) ==> oid@ == bytes@,
    {
        let mut i: usize = 0;
        while i < 20
            invariant
                i <= 20,
                forall|j: int| 0 <= j < i ==> bytes@[j] == 0u8,
            decreases 20 - i,
        {
            if bytes[i] != 0 {
                return MaybeZeroOid::NonZero(NonZeroOid { bytes });
            }
            i += 1;
        }
        MaybeZeroOid::Zero
    }
}

} // verus!
