use vstd::prelude::*;

verus! {

/// Whether `k` is the first place at or after `start` where `line` holds
/// `byte`, or the end of `line` if it holds none from `start` on.
pub open spec fn is_next(line: Seq<u8>, byte: u8, start: int, k: int) -> bool {
    &&& start <= k <= line.len()
    &&& (k == line.len() || line[k] == byte)
    &&& forall|j: int| start <= j < k ==> line[j] != byte
}

/// The first place at or after `start` where `line` holds `byte`, or the
/// end of `line`.
pub open spec fn next_index(line: Seq<u8>, byte: u8, start: int) -> int {
    choose|k: int| is_next(line, byte, start, k)
}

/// There is one such place.
pub proof fn lemma_next_unique(line: Seq<u8>, byte: u8, start: int, a: int, b: int)
    requires
        is_next(line, byte, start, a),
        is_next(line, byte, start, b),
    ensures
        a == b,
{
    if a < b {
        assert(line[a] != byte);
    }
    if b < a {
        assert(line[b] != byte);
    }
}

/// The first place at or after `start` where `line` holds `byte`, or the
/// end of `line`.
pub fn find_next(line: &[u8], byte: u8, start: usize) -> (k: usize)
    requires
        start <= line@.len(),
    ensures
        k == next_index(line@, byte, start as int),
        is_next(line@, byte, start as int, k as int),
{
    let mut k: usize = start;
    while k < line.len() && line[k] != byte
        invariant
            start <= k <= line@.len(),
            forall|j: int| start <= j < k ==> line@[j] != byte,
        decreases line.len() - k,
    {
        k += 1;
    }
    proof {
        assert(is_next(line@, byte, start as int, k as int));
        let c = next_index(line@, byte, start as int);
        lemma_next_unique(line@, byte, start as int, k as int, c);
    }
    k
}

} // verus!
