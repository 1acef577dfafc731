//! An association map from `u64` keys to component values, with a stable
//! iteration order (insertion order) and a `Map` view for contracts.
//!
//! Every component store of the world is one of these. Keys are entity
//! identifiers; the world hands them out from a counter that never repeats,
//! so a key freed by removal is never seen again.

use vstd::prelude::*;

verus! {

pub struct Store<V> {
    keys: Vec<u64>,
    vals: Vec<V>,
}

impl<V> Store<V> {
    /// The keys in insertion order.
    pub closed spec fn keys_seq(self) -> Seq<u64> {
        self.keys@
    }

    /// The values in insertion order, parallel to `keys_seq`.
    pub closed spec fn vals_seq(self) -> Seq<V> {
        self.vals@
    }

    /// Well-formed: parallel columns and no repeated key.
    pub closed spec fn wf(self) -> bool {
        &&& self.keys@.len() == self.vals@.len()
        &&& forall|i: int, j: int|
            0 <= i < j < self.keys@.len() ==> self.keys@[i] != self.keys@[j]
    }

    /// The store as a map from key to value.
    pub open spec fn view(self) -> Map<u64, V> {
        Map::new(
            |k: u64| self.keys_seq().contains(k),
            |k: u64| self.vals_seq()[self.keys_seq().index_of(k)],
        )
    }

    proof fn lemma_index_determined(self, i: int)
        requires
            self.wf(),
            0 <= i < self.keys_seq().len(),
        ensures
            self.keys_seq().index_of(self.keys_seq()[i]) == i,
            self.keys_seq().contains(self.keys_seq()[i]),
            self@[self.keys_seq()[i]] == self.vals_seq()[i],
    {
        let k = self.keys@[i];
        assert(self.keys@.contains(k));
        let w = self.keys@.index_of(k);
        assert(0 <= w < self.keys@.len() && self.keys@[w] == k);
        if w != i {
            assert(false);
        }
    }

    pub fn new() -> (r: Store<V>)
        ensures
            r.wf(),
            r@ == Map::<u64, V>::empty(),
            r.keys_seq() == Seq::<u64>::empty(),
    {
        let r = Store { keys: Vec::new(), vals: Vec::new() };
        proof {
            assert(r@ =~= Map::<u64, V>::empty());
        }
        r
    }

    pub fn len(&self) -> (n: usize)
        requires
            self.wf(),
        ensures
            n == self.keys_seq().len(),
    {
        self.keys.len()
    }

    fn find_index(&self, k: u64) -> (r: Option<usize>)
        requires
            self.wf(),
        ensures
            match r {
                Some(i) => {
                    &&& i < self.keys_seq().len()
                    &&& self.keys_seq()[i as int] == k
                    &&& self@.contains_key(k)
                    &&& self@[k] == self.vals_seq()[i as int]
                },
                None => !self@.contains_key(k),
            },
    {
        let n = self.keys.len();
        let mut i: usize = 0;
        while i < n
            invariant
                self.wf(),
                n == self.keys_seq().len(),
                i <= n,
                forall|j: int| 0 <= j < i ==> self.keys_seq()[j] != k,
            decreases n - i,
        {
            if self.keys[i] == k {
                proof {
                    self.lemma_index_determined(i as int);
                }
                return Some(i);
            }
            i = i + 1;
        }
        proof {
            assert(!self.keys_seq().contains(k));
        }
        None
    }

    pub fn contains_key(&self, k: u64) -> (r: bool)
        requires
            self.wf(),
        ensures
            r == self@.contains_key(k),
    {
        self.find_index(k).is_some()
    }

    pub fn get(&self, k: u64) -> (r: Option<&V>)
        requires
            self.wf(),
        ensures
            match r {
                Some(v) => self@.contains_key(k) && *v == self@[k],
                None => !self@.contains_key(k),
            },
    {
        match self.find_index(k) {
            Some(i) => Some(&self.vals[i]),
            None => None,
        }
    }

    /// Inserts `v` under `k`, replacing any value the key already had.
    /// A fresh key goes to the end of the iteration order.
    pub fn insert(&mut self, k: u64, v: V)
        requires
            old(self).wf(),
        ensures
            final(self).wf(),
            final(self)@ == old(self)@.insert(k, v),
            old(self)@.contains_key(k) ==> final(self).keys_seq() == old(self).keys_seq(),
            !old(self)@.contains_key(k) ==> final(self).keys_seq() == old(
                self,
            ).keys_seq().push(k),
    {
        match self.find_index(k) {
            Some(i) => {
                self.vals.set(i, v);
                proof {
                    assert forall|k2: u64|
                        self.keys_seq().contains(k2) implies #[trigger] self@[k2] == old(
                        self,
                    )@.insert(k, v)[k2] by {
                        let j = choose|j: int|
                            0 <= j < self.keys_seq().len() && self.keys_seq()[j] == k2;
                        self.lemma_index_determined(j);
                        old(self).lemma_index_determined(j);
                    }
                    assert(self@ =~= old(self)@.insert(k, v));
                }
            },
            None => {
                self.keys.push(k);
                self.vals.push(v);
                proof {
                    let n = old(self).keys_seq().len() as int;
                    assert forall|k2: u64|
                        self.keys_seq().contains(k2) implies #[trigger] self@[k2] == old(
                        self,
                    )@.insert(k, v)[k2] by {
                        let j = choose|j: int|
                            0 <= j < self.keys_seq().len() && self.keys_seq()[j] == k2;
                        self.lemma_index_determined(j);
                        if j < n {
                            old(self).lemma_index_determined(j);
                        }
                    }
                    assert forall|k2: u64| old(self)@.insert(k, v).contains_key(k2) implies self@
                        .contains_key(k2) by {
                        if k2 == k {
                            assert(self.keys_seq()[n] == k);
                        } else {
                            let j = choose|j: int|
                                0 <= j < old(self).keys_seq().len() && old(self).keys_seq()[j]
                                    == k2;
                            assert(self.keys_seq()[j] == k2);
                        }
                    }
                    assert(self@ =~= old(self)@.insert(k, v));
                }
            },
        }
    }

    /// Removes `k` and returns its value, keeping the order of the rest.
    pub fn remove(&mut self, k: u64) -> (r: Option<V>)
        requires
            old(self).wf(),
        ensures
            final(self).wf(),
            final(self)@ == old(self)@.remove(k),
            match r {
                Some(v) => old(self)@.contains_key(k) && v == old(self)@[k],
                None => !old(self)@.contains_key(k) && *final(self) == *old(self),
            },
            final(self).keys_seq() == old(self).keys_seq().remove_value(k),
    {
        match self.find_index(k) {
            Some(i) => {
                self.keys.remove(i);
                let v = self.vals.remove(i);
                proof {
                    let n = old(self).keys_seq().len() as int;
                    assert(self.keys_seq() =~= old(self).keys_seq().subrange(0, i as int) + old(
                        self,
                    ).keys_seq().subrange(i as int + 1, n));
                    old(self).keys_seq().index_of_first_ensures(k);
                    assert(old(self).keys_seq().index_of_first(k) == Some(i as int)) by {
                        old(self).lemma_index_determined(i as int);
                        match old(self).keys_seq().index_of_first(k) {
                            Some(w) => {
                                assert(old(self).keys_seq()[w] == k);
                            },
                            None => {
                                assert(false);
                            },
                        }
                    }
                    assert(self.keys_seq() =~= old(self).keys_seq().remove_value(k));
                    assert(self.wf()) by {
                        assert forall|a: int, b: int|
                            0 <= a < b < self.keys_seq().len() implies self.keys_seq()[a]
                            != self.keys_seq()[b] by {
                            let oa = if a < i { a } else { a + 1 };
                            let ob = if b < i { b } else { b + 1 };
                            assert(self.keys_seq()[a] == old(self).keys_seq()[oa]);
                            assert(self.keys_seq()[b] == old(self).keys_seq()[ob]);
                        }
                    }
                    assert forall|k2: u64|
                        self.keys_seq().contains(k2) implies #[trigger] self@[k2] == old(
                        self,
                    )@.remove(k)[k2] by {
                        let j = choose|j: int|
                            0 <= j < self.keys_seq().len() && self.keys_seq()[j] == k2;
                        self.lemma_index_determined(j);
                        let oj = if j < i { j } else { j + 1 };
                        assert(self.keys_seq()[j] == old(self).keys_seq()[oj]);
                        assert(self.vals_seq()[j] == old(self).vals_seq()[oj]);
                        old(self).lemma_index_determined(oj);
                        assert(k2 != k) by {
                            old(self).lemma_index_determined(i as int);
                        }
                    }
                    assert forall|k2: u64| old(self)@.remove(k).contains_key(k2) implies self@
                        .contains_key(k2) by {
                        let j = choose|j: int|
                            0 <= j < old(self).keys_seq().len() && old(self).keys_seq()[j] == k2;
                        let nj = if j < i { j } else { j - 1 };
                        assert(j != i);
                        assert(self.keys_seq()[nj] == k2);
                    }
                    assert(self@ =~= old(self)@.remove(k));
                    old(self).lemma_index_determined(i as int);
                }
                Some(v)
            },
            None => {
                proof {
                    assert(old(self).keys_seq().remove_value(k) == old(self).keys_seq()) by {
                        old(self).keys_seq().index_of_first_ensures(k);
                    }
                    assert(self@ =~= old(self)@.remove(k));
                }
                None
            },
        }
    }

    pub fn clear(&mut self)
        ensures
            final(self).wf(),
            final(self)@ == Map::<u64, V>::empty(),
            final(self).keys_seq() == Seq::<u64>::empty(),
    {
        self.keys.clear();
        self.vals.clear();
        proof {
            assert(self@ =~= Map::<u64, V>::empty());
        }
    }

    /// The key at position `i` of the iteration order.
    pub fn key_at(&self, i: usize) -> (k: u64)
        requires
            self.wf(),
            i < self.keys_seq().len(),
        ensures
            k == self.keys_seq()[i as int],
            self@.contains_key(k),
            self@[k] == self.vals_seq()[i as int],
    {
        proof {
            self.lemma_index_determined(i as int);
        }
        self.keys[i]
    }

    /// The value at position `i` of the iteration order.
    pub fn val_at(&self, i: usize) -> (v: &V)
        requires
            self.wf(),
            i < self.keys_seq().len(),
        ensures
            *v == self.vals_seq()[i as int],
            *v == self@[self.keys_seq()[i as int]],
    {
        proof {
            self.lemma_index_determined(i as int);
        }
        &self.vals[i]
    }

    /// A copy of the keys, in iteration order.
    pub fn keys_vec(&self) -> (r: Vec<u64>)
        requires
            self.wf(),
        ensures
            r@ == self.keys_seq(),
    {
        let mut out: Vec<u64> = Vec::new();
        let n = self.keys.len();
        let mut i: usize = 0;
        while i < n
            invariant
                self.wf(),
                n == self.keys_seq().len(),
                i <= n,
                out@ == self.keys_seq().subrange(0, i as int),
            decreases n - i,
        {
            out.push(self.keys[i]);
            i = i + 1;
        }
        proof {
            assert(out@ =~= self.keys_seq());
        }
        out
    }

    /// The keys of a well-formed store never repeat.
    pub proof fn lemma_keys_distinct(&self)
        requires
            self.wf(),
        ensures
            forall|a: int, b: int|
                0 <= a < b < self.keys_seq().len() ==> self.keys_seq()[a] != self.keys_seq()[b],
    {
    }

    /// Containment of a key, usable in spec contexts through the view.
    pub open spec fn spec_contains(self, k: u64) -> bool {
        self@.contains_key(k)
    }
}

} // verus!
