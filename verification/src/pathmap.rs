use vstd::prelude::*;
use crate::bytes::{bytes_eq, copy_bytes};

verus! {

/// The map that a list of distinct keys and a list of values of the same
/// length stand for: the key at each position maps to the value there.
pub open spec fn assoc_map<V>(keys: Seq<Seq<u8>>, vals: Seq<V>) -> Map<Seq<u8>, V> {
    Map::new(|k: Seq<u8>| keys.contains(k), |k: Seq<u8>| vals[keys.index_of(k)])
}

/// In a list without duplicates, the position of an element is the only
/// position that holds it.
pub proof fn lemma_index_of_unique(keys: Seq<Seq<u8>>, i: int)
    requires
        keys.no_duplicates(),
        0 <= i < keys.len(),
    ensures
        keys.contains(keys[i]),
        keys.index_of(keys[i]) == i,
{
    let k = keys[i];
    assert(keys.contains(k));
    let j = keys.index_of(k);
    assert(0 <= j < keys.len() && keys[j] == k);
}

/// The keys of a list of pairs, by their views.
pub open spec fn keys_of<V>(entries: Seq<(Vec<u8>, V)>) -> Seq<Seq<u8>> {
    Seq::new(entries.len(), |i: int| entries[i].0@)
}

/// The values of a list of pairs.
pub open spec fn vals_of<V>(entries: Seq<(Vec<u8>, V)>) -> Seq<V> {
    Seq::new(entries.len(), |i: int| entries[i].1)
}

/// A finite map from byte-string paths to values, kept as a list of
/// distinct keys with their values in insertion order.
#[derive(Debug)]
pub struct PathMap<V> {
    entries: Vec<(Vec<u8>, V)>,
}

impl<V> PathMap<V> {
    #[verifier::type_invariant]
    closed spec fn inv(self) -> bool {
        self.key_seq().no_duplicates()
    }

    /// The keys, in the order in which they are stored.
    pub closed spec fn key_seq(self) -> Seq<Seq<u8>> {
        keys_of(self.entries@)
    }

    /// The values, in the order of `key_seq`.
    pub closed spec fn val_seq(self) -> Seq<V> {
        vals_of(self.entries@)
    }

    /// The map that this value stands for.
    pub open spec fn view(self) -> Map<Seq<u8>, V> {
        assoc_map(self.key_seq(), self.val_seq())
    }

    /// What `get` returns for `key`.
    pub open spec fn spec_get(self, key: Seq<u8>) -> Option<V> {
        if self@.contains_key(key) {
            Some(self@[key])
        } else {
            None
        }
    }

}

impl<V: Copy> PathMap<V> {
    pub fn new() -> (res: Self)
        ensures
            res@ == Map::<Seq<u8>, V>::empty(),
            res.key_seq() == Seq::<Seq<u8>>::empty(),
    {
        let res = PathMap { entries: Vec::new() };
        assert(res.key_seq() =~= Seq::<Seq<u8>>::empty());
        assert(res@ =~= Map::<Seq<u8>, V>::empty());
        res
    }

    /// The number of keys.
    pub fn len(&self) -> (res: usize)
        ensures
            res == self.key_seq().len(),
            res == self.val_seq().len(),
            res == self@.dom().len(),
            self@.dom().finite(),
            self.key_seq().no_duplicates(),
            self@.dom() == self.key_seq().to_set(),
    {
        proof {
            use_type_invariant(self);
            self.key_seq().unique_seq_to_set();
            assert(self@.dom() =~= self.key_seq().to_set());
        }
        self.entries.len()
    }

    pub fn is_empty(&self) -> (res: bool)
        ensures
            res == (self@.dom() == Set::<Seq<u8>>::empty()),
            res == (self.key_seq().len() == 0),
    {
        let n = self.len();
        proof {
            if n == 0 {
                assert(self@.dom() =~= Set::<Seq<u8>>::empty());
            } else {
                assert(self.key_seq().contains(self.key_seq()[0]));
                assert(self@.dom().contains(self.key_seq()[0]));
            }
        }
        n == 0
    }

    /// The key stored at position `i`.
    pub fn key_at(&self, i: usize) -> (res: &Vec<u8>)
        requires
            i < self.key_seq().len(),
        ensures
            res@ == self.key_seq()[i as int],
            self@.contains_key(res@),
            self@[res@] == self.val_seq()[i as int],
    {
        proof {
            use_type_invariant(self);
            lemma_index_of_unique(self.key_seq(), i as int);
        }
        &self.entries[i].0
    }

    /// The value stored at position `i`.
    pub fn value_at(&self, i: usize) -> (res: V)
        requires
            i < self.key_seq().len(),
        ensures
            res == self.val_seq()[i as int],
            self@.contains_key(self.key_seq()[i as int]),
            self@[self.key_seq()[i as int]] == res,
    {
        proof {
            use_type_invariant(self);
            lemma_index_of_unique(self.key_seq(), i as int);
        }
        self.entries[i].1
    }

    /// The position of `key`, if it is a key of the map.
    pub fn position(&self, key: &[u8]) -> (res: Option<usize>)
        ensures
            res is Some <==> self@.contains_key(key@),
            res matches Some(i) ==> i < self.key_seq().len() && self.key_seq()[i as int]
                == key@ && self@[key@] == self.val_seq()[i as int],
    {
        proof {
            use_type_invariant(self);
        }
        let mut i: usize = 0;
        while i < self.entries.len()
            invariant
                i <= self.entries@.len(),
                self.key_seq().len() == self.entries@.len(),
                self.key_seq().no_duplicates(),
                forall|j: int| 0 <= j < i ==> self.key_seq()[j] != key@,
            decreases self.entries.len() - i,
        {
            if bytes_eq(self.entries[i].0.as_slice(), key) {
                proof {
                    lemma_index_of_unique(self.key_seq(), i as int);
                }
                return Some(i);
            }
            i += 1;
        }
        assert(!self.key_seq().contains(key@));
        None
    }

    pub fn contains(&self, key: &[u8]) -> (res: bool)
        ensures
            res == self@.contains_key(key@),
    {
        self.position(key).is_some()
    }

    /// The value that `key` maps to, if any.
    pub fn get(&self, key: &[u8]) -> (res: Option<V>)
        ensures
            res == self.spec_get(key@),
    {
        match self.position(key) {
            Some(i) => Some(self.entries[i].1),
            None => None,
        }
    }

    /// Maps `key` to `value`, replacing what it mapped to before.
    pub fn insert(&mut self, key: &[u8], value: V)
        ensures
            final(self)@ == old(self)@.insert(key@, value),
    {
        proof {
            use_type_invariant(&*self);
        }
        let pos = self.position(key);
        let ghost old_keys = self.key_seq();
        let ghost old_vals = self.val_seq();
        let ghost want = old(self)@.insert(key@, value);
        let mut entries: Vec<(Vec<u8>, V)> = Vec::new();
        std::mem::swap(&mut entries, &mut self.entries);
        let k = copy_bytes(key);
        match pos {
            Some(i) => {
                entries.set(i, (k, value));
                proof {
                    let ks = keys_of(entries@);
                    let vs = vals_of(entries@);
                    assert(ks =~= old_keys);
                    assert(vs =~= old_vals.update(i as int, value));
                    assert forall|q: Seq<u8>| old_keys.contains(q) implies #[trigger] assoc_map(
                        ks,
                        vs,
                    )[q] == want[q] by {
                        let j = old_keys.index_of(q);
                        lemma_index_of_unique(old_keys, j);
                        lemma_index_of_unique(old_keys, i as int);
                    }
                    assert(assoc_map(ks, vs) =~= want);
                }
            },
            None => {
                entries.push((k, value));
                proof {
                    let ks = keys_of(entries@);
                    let vs = vals_of(entries@);
                    assert(ks =~= old_keys.push(key@));
                    assert(vs =~= old_vals.push(value));
                    assert(!old_keys.contains(key@));
                    assert(ks.no_duplicates());
                    assert forall|q: Seq<u8>| ks.contains(q) <==> (old_keys.contains(q) || q
                        == key@) by {
                        if old_keys.contains(q) {
                            let j = old_keys.index_of(q);
                            assert(ks[j] == q);
                        }
                        if q == key@ {
                            assert(ks[old_keys.len() as int] == q);
                        }
                    }
                    assert forall|q: Seq<u8>| ks.contains(q) implies #[trigger] assoc_map(ks, vs)[q]
                        == want[q] by {
                        let j = ks.index_of(q);
                        lemma_index_of_unique(ks, j);
                        if j < old_keys.len() {
                            lemma_index_of_unique(old_keys, j);
                        }
                    }
                    assert(assoc_map(ks, vs) =~= want);
                }
            },
        }
        self.entries = entries;
    }

    /// Removes `key` and what it maps to, if it is a key of the map.
    pub fn remove(&mut self, key: &[u8])
        ensures
            final(self)@ == old(self)@.remove(key@),
    {
        proof {
            use_type_invariant(&*self);
        }
        let pos = self.position(key);
        let ghost old_keys = self.key_seq();
        let ghost old_vals = self.val_seq();
        let ghost want = old(self)@.remove(key@);
        match pos {
            Some(i) => {
                let mut entries: Vec<(Vec<u8>, V)> = Vec::new();
                std::mem::swap(&mut entries, &mut self.entries);
                let _ = entries.remove(i);
                proof {
                    let ks = keys_of(entries@);
                    let vs = vals_of(entries@);
                    assert(ks =~= old_keys.remove(i as int));
                    assert(vs =~= old_vals.remove(i as int));
                    assert(ks.no_duplicates()) by {
                        assert forall|a: int, b: int|
                            0 <= a < ks.len() && 0 <= b < ks.len() && a != b implies ks[a]
                            != ks[b] by {
                            let a2 = if a < i { a } else { a + 1 };
                            let b2 = if b < i { b } else { b + 1 };
                            assert(ks[a] == old_keys[a2] && ks[b] == old_keys[b2]);
                        }
                    }
                    assert forall|q: Seq<u8>| ks.contains(q) <==> (old_keys.contains(q) && q
                        != key@) by {
                        if ks.contains(q) {
                            let a = ks.index_of(q);
                            let a2 = if a < i { a } else { a + 1 };
                            assert(old_keys[a2] == q);
                        }
                        if old_keys.contains(q) && q != key@ {
                            let a2 = old_keys.index_of(q);
                            let a = if a2 < i { a2 } else { a2 - 1 };
                            assert(ks[a] == q);
                        }
                    }
                    assert forall|q: Seq<u8>| ks.contains(q) implies #[trigger] assoc_map(ks, vs)[q]
                        == want[q] by {
                        let a = ks.index_of(q);
                        lemma_index_of_unique(ks, a);
                        let a2 = if a < i { a } else { a + 1 };
                        assert(old_keys[a2] == q);
                        lemma_index_of_unique(old_keys, a2);
                    }
                    assert(assoc_map(ks, vs) =~= want);
                }
                self.entries = entries;
            },
            None => {
                assert(self@ =~= want);
            },
        }
    }
}

} // verus!
