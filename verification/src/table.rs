//! An associative table keyed by name.
//!
//! The table keeps its slots in a vector and maintains that no name occurs
//! twice. Its view is the finite map from names to values, which is what the
//! contracts of the registry and of the heartbeat monitor are written over.

use vstd::prelude::*;

verus! {

#[derive(Debug)]
struct Slot<T> {
    key: String,
    value: T,
}

/// A table from names to values in which every name occurs at most once.
#[derive(Debug)]
pub struct NameTable<T> {
    slots: Vec<Slot<T>>,
}

impl<T> NameTable<T> {
    /// The names in storage order.
    pub closed spec fn keys(&self) -> Seq<Seq<char>> {
        Seq::new(self.slots@.len(), |i: int| self.slots@[i].key@)
    }

    /// The values in storage order; `values()[i]` belongs to `keys()[i]`.
    pub closed spec fn values(&self) -> Seq<T> {
        Seq::new(self.slots@.len(), |i: int| self.slots@[i].value)
    }

    /// No name occurs twice.
    pub open spec fn wf(&self) -> bool {
        &&& self.keys().len() == self.values().len()
        &&& self.keys().no_duplicates()
    }

    /// The table as a map from names to values.
    pub open spec fn view(&self) -> Map<Seq<char>, T> {
        Map::new(
            |k: Seq<char>| self.keys().contains(k),
            |k: Seq<char>| self.values()[self.keys().index_of(k)],
        )
    }

    /// In a well-formed table the slot at `i` is the map's entry for `keys()[i]`.
    pub proof fn lemma_slot_in_view(&self, i: int)
        requires
            self.wf(),
            0 <= i < self.keys().len(),
        ensures
            self@.contains_key(self.keys()[i]),
            self@[self.keys()[i]] == self.values()[i],
    {
        let k = self.keys()[i];
        let j = self.keys().index_of(k);
    }

    /// In a well-formed table every name of the map has exactly one slot.
    pub proof fn lemma_key_has_slot(&self, k: Seq<char>)
        requires
            self.wf(),
            self@.contains_key(k),
        ensures
            0 <= self.keys().index_of(k) < self.keys().len(),
            self.keys()[self.keys().index_of(k)] == k,
            self.values()[self.keys().index_of(k)] == self@[k],
            forall|i: int| 0 <= i < self.keys().len() && self.keys()[i] == k ==> i == self.keys().index_of(k),
    {
    }

    /// An empty table.
    pub fn new() -> (t: Self)
        ensures
            t.wf(),
            t@ == Map::<Seq<char>, T>::empty(),
            t.keys().len() == 0,
    {
        let t = NameTable { slots: Vec::new() };
        t
    }

    /// The number of entries.
    pub fn len(&self) -> (n: usize)
        ensures
            n == self.keys().len(),
            n == self.values().len(),
    {
        self.slots.len()
    }

    /// The storage index of `key`, if the table holds it.
    pub fn position(&self, key: &String) -> (r: Option<usize>)
        ensures
            match r {
                Some(i) => i < self.keys().len() && self.keys()[i as int] == key@,
                None => !self.keys().contains(key@),
            },
    {
        let mut i: usize = 0;
        while i < self.slots.len()
            invariant
                i <= self.slots@.len(),
                forall|j: int| 0 <= j < i ==> self.keys()[j] != key@,
            decreases self.slots@.len() - i,
        {
            if self.slots[i].key == *key {
                return Some(i);
            }
            i += 1;
        }
        None
    }

    /// Whether the table holds `key`.
    pub fn contains_key(&self, key: &String) -> (b: bool)
        ensures
            b == self@.contains_key(key@),
    {
        self.position(key).is_some()
    }

    /// The value stored under `key`.
    pub fn get(&self, key: &String) -> (r: Option<&T>)
        requires
            self.wf(),
        ensures
            match r {
                Some(v) => self@.contains_key(key@) && *v == self@[key@],
                None => !self@.contains_key(key@),
            },
    {
        match self.position(key) {
            Some(i) => {
                proof {
                    self.lemma_slot_in_view(i as int);
                }
                Some(&self.slots[i].value)
            },
            None => None,
        }
    }

    /// The name stored at index `i`.
    pub fn key_at(&self, i: usize) -> (k: &String)
        requires
            i < self.keys().len(),
        ensures
            k@ == self.keys()[i as int],
    {
        &self.slots[i].key
    }

    /// The value stored at index `i`.
    pub fn value_at(&self, i: usize) -> (v: &T)
        requires
            i < self.values().len(),
        ensures
            *v == self.values()[i as int],
    {
        &self.slots[i].value
    }

    /// Stores `value` under a name the table does not hold yet.
    pub fn insert_new(&mut self, key: String, value: T)
        requires
            old(self).wf(),
            !old(self)@.contains_key(key@),
        ensures
            final(self).wf(),
            final(self)@ == old(self)@.insert(key@, value),
            final(self).keys() == old(self).keys().push(key@),
            final(self).values() == old(self).values().push(value),
    {
        self.slots.push(Slot { key, value });
        proof {
            let before = *old(self);
            let n = before.keys().len() as int;
            assert(self.keys() =~= before.keys().push(key@));
            assert forall|k: Seq<char>| self@.contains_key(k) <==> before@.insert(
                key@,
                value,
            ).contains_key(k) by {
                if before.keys().contains(k) {
                    let j = before.keys().index_of(k);
                    assert(self.keys()[j] == k);
                }
                if k == key@ {
                    assert(self.keys()[n] == k);
                }
            }
            assert forall|k: Seq<char>| self@.contains_key(k) implies self@[k] == before@.insert(
                key@,
                value,
            )[k] by {
                let j = self.keys().index_of(k);
                self.lemma_slot_in_view(j);
                if j < n {
                    before.lemma_slot_in_view(j);
                }
            }
        }
    }

    /// Stores `value` under `key` and returns the value it replaces, if any.
    pub fn insert(&mut self, key: String, value: T) -> (prev: Option<T>)
        requires
            old(self).wf(),
        ensures
            final(self).wf(),
            final(self)@ == old(self)@.insert(key@, value),
            prev == if old(self)@.contains_key(key@) {
                Some(old(self)@[key@])
            } else {
                None::<T>
            },
    {
        let prev = self.remove(&key);
        self.insert_new(key, value);
        prev
    }

    /// Removes `key` and returns the value that was stored under it, if any.
    pub fn remove(&mut self, key: &String) -> (prev: Option<T>)
        requires
            old(self).wf(),
        ensures
            final(self).wf(),
            final(self)@ == old(self)@.remove(key@),
            prev == if old(self)@.contains_key(key@) {
                Some(old(self)@[key@])
            } else {
                None::<T>
            },
    {
        match self.position(key) {
            Some(i) => {
                proof {
                    self.lemma_slot_in_view(i as int);
                }
                let slot = self.slots.remove(i);
                proof {
                    let before = *old(self);
                    assert(self.keys() =~= before.keys().remove(i as int));
                    assert forall|k: Seq<char>| self@.contains_key(k) <==> before@.remove(
                        key@,
                    ).contains_key(k) by {
                        if before.keys().contains(k) && k != key@ {
                            let j = before.keys().index_of(k);
                            let jj = if j < i { j } else { j - 1 };
                            assert(self.keys()[jj] == k);
                        }
                    }
                    assert forall|k: Seq<char>| self@.contains_key(k) implies self@[k]
                        == before@.remove(key@)[k] by {
                        let j = self.keys().index_of(k);
                        self.lemma_slot_in_view(j);
                        let jj = if j < i { j } else { j + 1 };
                        before.lemma_slot_in_view(jj);
                    }
                }
                Some(slot.value)
            },
            None => None,
        }
    }
}

} // verus!
