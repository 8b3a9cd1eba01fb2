//! A table ordered by integer keys: an association list kept sorted, looked up by bisection.
//!
//! Its entries have places as well as keys, which a `BTreeMap` does not give them: what lists a
//! table steps through the places in key order, and what fills it goes back to a place that it
//! has found.
use vstd::prelude::*;

verus! {

broadcast use vstd::seq_lib::group_seq_properties;

/// Values filed under distinct keys, in ascending key order.
pub struct Keyed<V> {
    keys: Vec<u64>,
    values: Vec<V>,
}

impl<V> Keyed<V> {
    /// The keys, in ascending order.
    pub closed spec fn keys(self) -> Seq<u64> {
        self.keys@
    }

    /// The values, in the order of their keys.
    pub closed spec fn values(self) -> Seq<V> {
        self.values@
    }

    /// Every key has one value, and the keys ascend strictly.
    pub open spec fn wf(self) -> bool {
        &&& self.keys().len() == self.values().len()
        &&& forall|i: int, j: int|
            0 <= i < j < self.keys().len() ==> self.keys()[i] < self.keys()[j]
    }

    /// Whether something is filed under `key`.
    pub open spec fn has(self, key: u64) -> bool {
        self.keys().contains(key)
    }

    /// What is filed under `key`.
    pub open spec fn at(self, key: u64) -> V {
        self.values()[self.keys().index_of(key)]
    }

    /// What is filed under `key`, if anything is.
    pub open spec fn lookup(self, key: u64) -> Option<V> {
        if self.has(key) {
            Some(self.at(key))
        } else {
            None
        }
    }

    pub proof fn lemma_at(self, i: int)
        requires
            self.wf(),
            0 <= i < self.keys().len(),
        ensures
            self.has(self.keys()[i]),
            self.keys().index_of(self.keys()[i]) == i,
            self.at(self.keys()[i]) == self.values()[i],
            self.lookup(self.keys()[i]) == Some(self.values()[i]),
    {
        let k = self.keys()[i];
        assert(self.keys().contains(k));
        let j = self.keys().index_of(k);
        assert(self.keys()[j] == k && 0 <= j < self.keys().len());
    }

    pub fn new() -> (r: Self)
        ensures
            r.wf(),
            r.keys() == Seq::<u64>::empty(),
            r.values() == Seq::<V>::empty(),
            forall|k: u64| r.lookup(k) is None,
    {
        Keyed { keys: Vec::new(), values: Vec::new() }
    }

    pub fn len(&self) -> (n: usize)
        requires
            self.wf(),
        ensures
            n == self.keys().len(),
    {
        self.keys.len()
    }

    /// The key at a position.
    pub fn key_at(&self, i: usize) -> (k: u64)
        requires
            self.wf(),
            i < self.keys().len(),
        ensures
            k == self.keys()[i as int],
    {
        self.keys[i]
    }

    /// The value at a position.
    pub fn value_at(&self, i: usize) -> (v: &V)
        requires
            self.wf(),
            i < self.keys().len(),
        ensures
            *v == self.values()[i as int],
    {
        &self.values[i]
    }

    /// The first position whose key is at or above `key`.
    pub fn lower_bound(&self, key: u64) -> (p: usize)
        requires
            self.wf(),
        ensures
            p <= self.keys().len(),
            forall|i: int| 0 <= i < p ==> self.keys()[i] < key,
            forall|i: int| p <= i < self.keys().len() ==> self.keys()[i] >= key,
    {
        let mut lo: usize = 0;
        let mut hi: usize = self.keys.len();
        while lo < hi
            invariant
                self.wf(),
                lo <= hi <= self.keys().len(),
                forall|i: int| 0 <= i < lo ==> self.keys()[i] < key,
                forall|i: int| hi <= i < self.keys().len() ==> self.keys()[i] >= key,
            decreases hi - lo,
        {
            let mid: usize = lo + (hi - lo) / 2;
            if self.keys[mid] < key {
                lo = mid + 1;
            } else {
                hi = mid;
            }
        }
        lo
    }

    /// The position of `key`, if it is filed.
    pub fn find(&self, key: u64) -> (r: Option<usize>)
        requires
            self.wf(),
        ensures
            match r {
                Some(i) => i < self.keys().len() && self.keys()[i as int] == key && self.has(key)
                    && self.values()[i as int] == self.at(key),
                None => !self.has(key),
            },
    {
        let p: usize = self.lower_bound(key);
        if p < self.keys.len() && self.keys[p] == key {
            proof {
                self.lemma_at(p as int);
            }
            Some(p)
        } else {
            proof {
                if self.has(key) {
                    let j = self.keys().index_of(key);
                    assert(self.keys()[j] == key);
                }
            }
            None
        }
    }

    /// What is filed under `key`.
    pub fn get(&self, key: u64) -> (r: Option<&V>)
        requires
            self.wf(),
        ensures
            match r {
                Some(v) => self.lookup(key) == Some(*v),
                None => self.lookup(key) is None,
            },
    {
        match self.find(key) {
            Some(i) => Some(&self.values[i]),
            None => None,
        }
    }

    /// Files `value` under `key`, replacing what was there.
    pub fn insert(&mut self, key: u64, value: V)
        requires
            old(self).wf(),
        ensures
            final(self).wf(),
            final(self).lookup(key) == Some(value),
            forall|k: u64| k != key ==> #[trigger] final(self).lookup(k) == old(self).lookup(k),
    {
        let ghost before = *self;
        let p: usize = self.lower_bound(key);
        if p < self.keys.len() && self.keys[p] == key {
            self.values.set(p, value);
            proof {
                self.lemma_at(p as int);
                assert forall|k: u64| k != key implies #[trigger] self.lookup(k)
                    == before.lookup(k) by {
                    assert(self.keys() == before.keys());
                    if before.has(k) {
                        let j = before.keys().index_of(k);
                        assert(before.keys()[j] == k);
                    }
                }
            }
        } else {
            self.keys.insert(p, key);
            self.values.insert(p, value);
            proof {
                assert(self.keys()[p as int] == key);
                assert forall|i: int, j: int| 0 <= i < j < self.keys().len() implies self.keys()[i]
                    < self.keys()[j] by {
                    assert(i < p ==> self.keys()[i] == before.keys()[i]);
                    assert(i > p ==> self.keys()[i] == before.keys()[i - 1]);
                    assert(j < p ==> self.keys()[j] == before.keys()[j]);
                    assert(j > p ==> self.keys()[j] == before.keys()[j - 1]);
                }
                self.lemma_at(p as int);
                assert forall|k: u64| k != key implies #[trigger] self.lookup(k)
                    == before.lookup(k) by {
                    if before.has(k) {
                        let j = before.keys().index_of(k);
                        assert(before.keys()[j] == k);
                        before.lemma_at(j);
                        let j2 = if j < p {
                            j
                        } else {
                            j + 1
                        };
                        assert(self.keys()[j2] == k);
                        self.lemma_at(j2);
                        assert(self.values()[j2] == before.values()[j]);
                    }
                    if self.has(k) {
                        let j = self.keys().index_of(k);
                        assert(self.keys()[j] == k);
                        let j2 = if j < p {
                            j
                        } else {
                            j - 1
                        };
                        assert(before.keys()[j2] == k);
                        assert(before.keys().contains(k));
                    }
                }
            }
        }
    }

    /// Takes out what is filed under `key`.
    pub fn remove(&mut self, key: u64) -> (r: Option<V>)
        requires
            old(self).wf(),
        ensures
            final(self).wf(),
            r == old(self).lookup(key),
            final(self).lookup(key) is None,
            forall|k: u64| k != key ==> #[trigger] final(self).lookup(k) == old(self).lookup(k),
    {
        let ghost before = *self;
        match self.find(key) {
            None => None,
            Some(p) => {
                let _ = self.keys.remove(p);
                let v = self.values.remove(p);
                proof {
                    assert forall|i: int, j: int| 0 <= i < j < self.keys().len() implies self.keys()[i]
                        < self.keys()[j] by {
                        assert(self.keys()[i] == before.keys()[if i < p { i } else { i + 1 }]);
                        assert(self.keys()[j] == before.keys()[if j < p { j } else { j + 1 }]);
                    }
                    if self.has(key) {
                        let j = self.keys().index_of(key);
                        assert(self.keys()[j] == key);
                        assert(self.keys()[j] == before.keys()[if j < p { j } else { j + 1 }]);
                    }
                    assert forall|k: u64| k != key implies #[trigger] self.lookup(k)
                        == before.lookup(k) by {
                        if before.has(k) {
                            let j = before.keys().index_of(k);
                            assert(before.keys()[j] == k);
                            let j2 = if j < p {
                                j
                            } else {
                                j - 1
                            };
                            assert(self.keys()[j2] == k);
                            self.lemma_at(j2);
                            assert(self.values()[j2] == before.values()[j]);
                        }
                        if self.has(k) {
                            let j = self.keys().index_of(k);
                            assert(self.keys()[j] == k);
                            let j2 = if j < p {
                                j
                            } else {
                                j + 1
                            };
                            assert(before.keys()[j2] == k);
                            assert(before.keys().contains(k));
                        }
                    }
                }
                Some(v)
            },
        }
    }

    /// The value at a position, to be changed in place.
    pub fn value_mut(&mut self, i: usize) -> (v: &mut V)
        requires
            old(self).wf(),
            i < old(self).keys().len(),
        ensures
            *v == old(self).values()[i as int],
            final(self).keys() == old(self).keys(),
            final(self).values() == old(self).values().update(i as int, *final(v)),
    {
        &mut self.values[i]
    }

    /// Changing the value at one position changes the table at that key alone.
    pub proof fn lemma_update(before: Self, after: Self, i: int)
        requires
            before.wf(),
            0 <= i < before.keys().len(),
            after.keys() == before.keys(),
            after.values() == before.values().update(i, after.values()[i]),
        ensures
            after.wf(),
            after.lookup(before.keys()[i]) == Some(after.values()[i]),
            forall|k: u64|
                k != before.keys()[i] ==> #[trigger] after.lookup(k) == before.lookup(k),
    {
        after.lemma_at(i);
        assert forall|k: u64| k != before.keys()[i] implies #[trigger] after.lookup(k)
            == before.lookup(k) by {
            if before.has(k) {
                let j = before.keys().index_of(k);
                assert(before.keys()[j] == k);
            }
        }
    }

    /// The position of `key`, filing `value` there first if nothing is.
    pub fn slot(&mut self, key: u64, value: V) -> (i: usize)
        requires
            old(self).wf(),
        ensures
            final(self).wf(),
            i < final(self).keys().len(),
            final(self).keys()[i as int] == key,
            final(self).lookup(key) == Some(
                match old(self).lookup(key) {
                    Some(v) => v,
                    None => value,
                },
            ),
            final(self).values()[i as int] == final(self).at(key),
            final(self).has(key),
            forall|k: u64| k != key ==> #[trigger] final(self).lookup(k) == old(self).lookup(k),
    {
        match self.find(key) {
            Some(i) => i,
            None => {
                self.insert(key, value);
                match self.find(key) {
                    Some(i) => i,
                    None => 0,
                }
            },
        }
    }

    /// The values, in the order of their keys.
    pub fn into_values(self) -> (r: Vec<V>)
        requires
            self.wf(),
        ensures
            r@ == self.values(),
    {
        self.values
    }
}

} // verus!
