//! Association lists for keys that have no order worth keeping: each key once, in the order in
//! which they came.
use vstd::prelude::*;

use crate::text::same;

verus! {

broadcast use vstd::seq_lib::group_seq_properties;

/// A key that can tell whether it is another one.
pub trait Key: View {
    fn same_as(&self, other: &Self) -> (r: bool)
        ensures
            r == (self@ == other@),
    ;
}

impl Key for String {
    fn same_as(&self, other: &Self) -> (r: bool) {
        same(self.as_str(), other.as_str())
    }
}

/// Values under keys.
pub struct Assoc<K, V> {
    pub names: Vec<K>,
    pub items: Vec<V>,
}

impl<K: Key, V> Assoc<K, V> {
    /// The keys, in the order in which they came.
    pub open spec fn keys(self) -> Seq<K::V> {
        self.names@.map_values(|k: K| k@)
    }

    /// The values, each at the place of its key.
    pub open spec fn values(self) -> Seq<V> {
        self.items@
    }

    /// As many values as keys, and no key twice.
    pub open spec fn wf(self) -> bool {
        &&& self.names@.len() == self.items@.len()
        &&& self.keys().no_duplicates()
    }

    pub open spec fn has(self, key: K::V) -> bool {
        self.keys().contains(key)
    }

    /// The value under a key that is there.
    pub open spec fn at(self, key: K::V) -> V {
        self.items@[self.keys().index_of(key)]
    }

    /// The value under a key, if there is one.
    pub open spec fn lookup(self, key: K::V) -> Option<V> {
        if self.has(key) {
            Some(self.at(key))
        } else {
            None
        }
    }

    /// A key stands at its own place.
    pub proof fn lemma_at(self, i: int)
        requires
            self.wf(),
            0 <= i < self.keys().len(),
        ensures
            self.has(self.keys()[i]),
            self.at(self.keys()[i]) == self.items@[i],
            self.keys().index_of(self.keys()[i]) == i,
    {
        let k = self.keys().index_of(self.keys()[i]);
        assert(self.keys().contains(self.keys()[i]));
        assert(self.keys()[k] == self.keys()[i]);
    }

    pub fn new() -> (r: Self)
        ensures
            r.wf(),
            r.keys().len() == 0,
            forall|k: K::V| !#[trigger] r.has(k),
    {
        Assoc { names: Vec::new(), items: Vec::new() }
    }

    /// Where a key stands.
    pub fn find(&self, key: &K) -> (r: Option<usize>)
        requires
            self.wf(),
        ensures
            match r {
                Some(i) => i < self.keys().len() && self.keys()[i as int] == key@ && self.has(
                    key@,
                ) && self.at(key@) == self.items@[i as int],
                None => !self.has(key@),
            },
    {
        let mut i: usize = 0;
        while i < self.names.len()
            invariant
                i <= self.names@.len(),
                self.wf(),
                forall|k: int| 0 <= k < i ==> #[trigger] self.keys()[k] != key@,
            decreases self.names@.len() - i,
        {
            if self.names[i].same_as(key) {
                assert(self.keys()[i as int] == key@);
                proof {
                    self.lemma_at(i as int);
                }
                return Some(i);
            }
            assert(self.keys()[i as int] != key@);
            i += 1;
        }
        None
    }

    /// The position of `key`, filing `value` there first if nothing is.
    pub fn slot(&mut self, key: K, value: V) -> (i: usize)
        requires
            old(self).wf(),
        ensures
            final(self).wf(),
            i < final(self).keys().len(),
            final(self).keys()[i as int] == key@,
            final(self).has(key@),
            final(self).values()[i as int] == final(self).at(key@),
            final(self).lookup(key@) == Some(
                match old(self).lookup(key@) {
                    Some(v) => v,
                    None => value,
                },
            ),
            forall|k: K::V| k != key@ ==> #[trigger] final(self).lookup(k) == old(self).lookup(k),
            forall|j: int|
                0 <= j < final(self).keys().len() && j != i ==> j < old(self).keys().len()
                    && #[trigger] final(self).keys()[j] == old(self).keys()[j]
                    && final(self).values()[j] == old(self).values()[j],
            old(self).has(key@) ==> final(self).values()[i as int] == old(self).values()[i as int]
                && i < old(self).keys().len(),
    {
        match self.find(&key) {
            Some(i) => i,
            None => {
                let ghost before = *self;
                let n = self.names.len();
                self.names.push(key);
                self.items.push(value);
                proof {
                    assert(self.keys() =~= before.keys().push(key@));
                    assert forall|a: int, b: int| 0 <= a < self.keys().len() && 0 <= b
                        < self.keys().len() && a != b implies self.keys()[a]
                        != self.keys()[b] by {
                        if a == n {
                            assert(before.keys().contains(before.keys()[b]));
                        } else if b == n {
                            assert(before.keys().contains(before.keys()[a]));
                        }
                    }
                    assert(self.keys()[n as int] == key@);
                    self.lemma_at(n as int);
                    assert forall|k: K::V| k != key@ implies #[trigger] self.lookup(k)
                        == before.lookup(k) by {
                        if before.has(k) {
                            let j = before.keys().index_of(k);
                            assert(self.keys()[j] == k);
                            self.lemma_at(j);
                            before.lemma_at(j);
                        } else if self.has(k) {
                            let j = self.keys().index_of(k);
                            assert(before.keys()[j] == k);
                            assert(before.has(k));
                        }
                    }
                }
                n
            },
        }
    }

    /// The value at a position, to be changed in place.
    pub fn value_mut(&mut self, i: usize) -> (v: &mut V)
        requires
            old(self).wf(),
            i < old(self).keys().len(),
        ensures
            *v == old(self).values()[i as int],
            final(self).names@ == old(self).names@,
            final(self).values() == old(self).values().update(i as int, *final(v)),
    {
        &mut self.items[i]
    }

    /// Changing the value at one position changes the list at that key alone.
    pub proof fn lemma_update(before: Self, after: Self, i: int)
        requires
            before.wf(),
            0 <= i < before.keys().len(),
            after.names@ == before.names@,
            after.values() == before.values().update(i, after.values()[i]),
        ensures
            after.wf(),
            after.keys() == before.keys(),
            after.lookup(before.keys()[i]) == Some(after.values()[i]),
            forall|k: K::V|
                k != before.keys()[i] ==> #[trigger] after.lookup(k) == before.lookup(k),
    {
        after.lemma_at(i);
        assert forall|k: K::V| k != before.keys()[i] implies #[trigger] after.lookup(k)
            == before.lookup(k) by {
            if before.has(k) {
                let j = before.keys().index_of(k);
                assert(before.keys()[j] == k);
            }
        }
    }
}

} // verus!
