//! The keyed table that both stores keep their descriptors in.

use vstd::prelude::*;
use crate::primitives::H256;

verus! {

/// A table from hashes to values in which each hash occurs at most once.
///
/// The keys stand in insertion order, each beside its value; the table is
/// read as the map from each key to the value beside it.
pub struct Table<V> {
    keys: Vec<H256>,
    values: Vec<V>,
}

impl<V> Table<V> {
    /// No key stands twice, and every key has its value.
    pub closed spec fn wf(&self) -> bool {
        &&& self.keys@.len() == self.values@.len()
        &&& self.keys@.no_duplicates()
    }

    /// The map that the table holds.
    pub closed spec fn view(&self) -> Map<H256, V> {
        Map::new(
            |k: H256| self.keys@.contains(k),
            |k: H256| self.values@[self.keys@.index_of(k)],
        )
    }

    proof fn lemma_index(&self, i: int)
        requires
            self.wf(),
            0 <= i < self.keys@.len(),
        ensures
            self@.contains_key(self.keys@[i]),
            self@[self.keys@[i]] == self.values@[i],
            self.keys@.index_of(self.keys@[i]) == i,
    {
        let k = self.keys@[i];
        assert(self.keys@.contains(k));
    }

    proof fn lemma_size(&self)
        requires
            self.wf(),
        ensures
            self@.dom().finite(),
            self@.len() == self.keys@.len(),
    {
        assert(self@.dom() =~= self.keys@.to_set());
        self.keys@.unique_seq_to_set();
        vstd::seq_lib::seq_to_set_is_finite(self.keys@);
    }

    /// The map of a well-formed table is finite.
    pub proof fn lemma_finite(&self)
        requires
            self.wf(),
        ensures
            self@.dom().finite(),
    {
        self.lemma_size();
    }

    /// An empty table.
    pub fn new() -> (t: Self)
        ensures
            t.wf(),
            t@ == Map::<H256, V>::empty(),
    {
        let t = Table { keys: Vec::new(), values: Vec::new() };
        assert(t@ =~= Map::<H256, V>::empty());
        t
    }

    /// The number of keys.
    pub fn len(&self) -> (n: usize)
        requires
            self.wf(),
        ensures
            n == self@.len(),
            self@.dom().finite(),
    {
        proof {
            self.lemma_size();
        }
        self.keys.len()
    }

    /// Where `key` stands, if it is there.
    fn position(&self, key: &H256) -> (r: Option<usize>)
        requires
            self.wf(),
        ensures
            match r {
                Some(i) => i < self.keys@.len() && self.keys@[i as int] == *key,
                None => !self.keys@.contains(*key),
            },
    {
        let mut i: usize = 0;
        while i < self.keys.len()
            invariant
                0 <= i <= self.keys@.len(),
                forall|j: int| 0 <= j < i ==> self.keys@[j] != *key,
            decreases self.keys@.len() - i,
        {
            if self.keys[i].same(key) {
                return Some(i);
            }
            i += 1;
        }
        None
    }

    /// Whether a value is stored under `key`.
    pub fn contains_key(&self, key: &H256) -> (r: bool)
        requires
            self.wf(),
        ensures
            r == self@.contains_key(*key),
    {
        self.position(key).is_some()
    }

    /// The value stored under `key`.
    pub fn get(&self, key: &H256) -> (r: Option<&V>)
        requires
            self.wf(),
        ensures
            match r {
                Some(v) => self@.contains_key(*key) && *v == self@[*key],
                None => !self@.contains_key(*key),
            },
    {
        match self.position(key) {
            Some(i) => {
                proof {
                    self.lemma_index(i as int);
                }
                Some(&self.values[i])
            },
            None => None,
        }
    }

    /// Takes out what is stored under `key` and hands it back; a table
    /// without the key stays as it is.
    pub fn remove(&mut self, key: &H256) -> (r: Option<V>)
        requires
            old(self).wf(),
        ensures
            final(self).wf(),
            final(self)@ == old(self)@.remove(*key),
            r == if old(self)@.contains_key(*key) {
                Some(old(self)@[*key])
            } else {
                None::<V>
            },
            final(self)@.len() == if old(self)@.contains_key(*key) {
                old(self)@.len() - 1
            } else {
                old(self)@.len() as int
            },
    {
        proof {
            self.lemma_size();
        }
        match self.position(key) {
            Some(i) => {
                proof {
                    self.lemma_index(i as int);
                }
                let ghost before = *self;
                self.keys.remove(i);
                let v = self.values.remove(i);
                proof {
                    let after = *self;
                    assert(after.keys@ == before.keys@.remove(i as int));
                    assert(after.values@ == before.values@.remove(i as int));
                    assert(after.keys@.no_duplicates());
                    assert forall|k: H256| after@.contains_key(k) <==> (before@.contains_key(k) && k != *key) by {
                        if after.keys@.contains(k) {
                            let j = after.keys@.index_of(k);
                            if j < i {
                                assert(before.keys@[j] == k);
                            } else {
                                assert(before.keys@[j + 1] == k);
                            }
                        }
                        if before.keys@.contains(k) && k != *key {
                            let j = before.keys@.index_of(k);
                            if j < i {
                                assert(after.keys@[j] == k);
                            } else {
                                assert(after.keys@[j - 1] == k);
                            }
                        }
                    }
                    assert forall|k: H256| after@.contains_key(k) implies after@[k] == before@[k] by {
                        let j = after.keys@.index_of(k);
                        after.lemma_index(j);
                        if j < i {
                            before.lemma_index(j);
                        } else {
                            before.lemma_index(j + 1);
                        }
                    }
                    assert(after@ =~= before@.remove(*key));
                    after.lemma_size();
                }
                Some(v)
            },
            None => {
                assert(self@ =~= self@.remove(*key));
                None
            },
        }
    }

    /// Stores `value` under `key`, in place of what was stored there.
    pub fn insert(&mut self, key: H256, value: V)
        requires
            old(self).wf(),
        ensures
            final(self).wf(),
            final(self)@ == old(self)@.insert(key, value),
            final(self)@.len() == if old(self)@.contains_key(key) {
                old(self)@.len()
            } else {
                old(self)@.len() + 1
            },
    {
        let ghost start = self@;
        let _ = self.remove(&key);
        let ghost before = *self;
        self.keys.push(key);
        self.values.push(value);
        proof {
            let after = *self;
            let n = before.keys@.len() as int;
            assert(after.keys@ == before.keys@.push(key));
            assert(after.values@ == before.values@.push(value));
            assert(!before@.contains_key(key));
            assert(!before.keys@.contains(key));
            assert(after.keys@.no_duplicates());
            assert(after.keys@[n] == key);
            assert forall|k: H256| after@.contains_key(k) <==> (before@.contains_key(k) || k == key) by {
                if after.keys@.contains(k) && k != key {
                    let j = after.keys@.index_of(k);
                    assert(before.keys@[j] == k);
                }
                if before.keys@.contains(k) {
                    let j = before.keys@.index_of(k);
                    assert(after.keys@[j] == k);
                }
            }
            assert forall|k: H256| after@.contains_key(k) implies after@[k] == before@.insert(key, value)[k] by {
                let j = after.keys@.index_of(k);
                after.lemma_index(j);
                if j < n {
                    before.lemma_index(j);
                }
            }
            assert(after@ =~= before@.insert(key, value));
            assert(start.remove(key).insert(key, value) =~= start.insert(key, value));
            before.lemma_size();
            after.lemma_size();
        }
    }
}

} // verus!
