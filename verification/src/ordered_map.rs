//! A map from 64-bit keys to values that keeps its entries in increasing key
//! order, as the thread and message stores need: they hand out their entries
//! in key order, change a stored value in place (`get_mut`) and hand out all
//! values for changing in place, for which vstd gives `BTreeMap` no
//! specification (it specifies `get`, `insert`, `remove` and ordered
//! iteration, which is what the quick scheduler uses `BTreeMap` for).
use vstd::prelude::*;

verus! {

/// Keys in strictly increasing order.
pub open spec fn strictly_increasing(keys: Seq<u64>) -> bool {
    forall|i: int, j: int| 0 <= i < j < keys.len() ==> keys[i] < keys[j]
}

/// Entries `(keys[i], vals[i])` with strictly increasing keys.
#[derive(Clone)]
pub struct OrderedMap<V> {
    pub keys: Vec<u64>,
    pub vals: Vec<V>,
}

impl<V> OrderedMap<V> {
    pub open spec fn wf(&self) -> bool {
        &&& self.keys@.len() == self.vals@.len()
        &&& strictly_increasing(self.keys@)
    }

    /// The entries in increasing key order.
    pub open spec fn entries(&self) -> Seq<(u64, V)> {
        Seq::new(self.keys@.len(), |i: int| (self.keys@[i], self.vals@[i]))
    }

    pub open spec fn view(&self) -> Map<u64, V> {
        Map::new(
            |k: u64| self.keys@.contains(k),
            |k: u64| self.vals@[self.keys@.index_of(k)],
        )
    }

    /// The entry at position `i` is the one the map holds under its key.
    pub proof fn lemma_position(&self, i: int)
        requires
            self.wf(),
            0 <= i < self.keys@.len(),
        ensures
            self.keys@.index_of(self.keys@[i]) == i,
            self@.contains_key(self.keys@[i]),
            self@[self.keys@[i]] == self.vals@[i],
    {
        let k = self.keys@[i];
        assert(self.keys@.contains(k));
        let j = self.keys@.index_of(k);
        assert(0 <= j < self.keys@.len() && self.keys@[j] == k);
        if j < i {
            assert(self.keys@[j] < self.keys@[i]);
        } else if i < j {
            assert(self.keys@[i] < self.keys@[j]);
        }
    }

    /// Inserting a new key at position `i` adds exactly that entry to the view.
    proof fn lemma_insert_view(old_m: Self, new_m: Self, i: int, k: u64, v: V)
        requires
            old_m.wf(),
            new_m.wf(),
            0 <= i <= old_m.keys@.len(),
            new_m.keys@ == old_m.keys@.insert(i, k),
            new_m.vals@ == old_m.vals@.insert(i, v),
            !old_m.keys@.contains(k),
        ensures
            new_m@ =~= old_m@.insert(k, v),
    {
        old_m.keys@.insert_ensures(i, k);
        old_m.vals@.insert_ensures(i, v);
        assert forall|q: u64| #[trigger] new_m@.contains_key(q) implies old_m@.insert(k, v).contains_key(q)
            && new_m@[q] == old_m@.insert(k, v)[q] by {
            let j = new_m.keys@.index_of(q);
            new_m.lemma_position(j);
            if j < i {
                old_m.lemma_position(j);
            } else if j > i {
                old_m.lemma_position(j - 1);
            }
        }
        assert forall|q: u64| #[trigger] old_m@.insert(k, v).contains_key(q) implies new_m@.contains_key(q) by {
            if q == k {
                assert(new_m.keys@[i] == k);
            } else {
                let j = old_m.keys@.index_of(q);
                old_m.lemma_position(j);
                if j < i {
                    assert(new_m.keys@[j] == q);
                } else {
                    assert(new_m.keys@[j + 1] == q);
                }
            }
        }
    }

    /// Removing the entry at position `i` removes exactly its key from the view.
    proof fn lemma_remove_view(old_m: Self, new_m: Self, i: int)
        requires
            old_m.wf(),
            0 <= i < old_m.keys@.len(),
            new_m.keys@ == old_m.keys@.remove(i),
            new_m.vals@ == old_m.vals@.remove(i),
        ensures
            new_m.wf(),
            new_m@ =~= old_m@.remove(old_m.keys@[i]),
    {
        old_m.keys@.remove_ensures(i);
        old_m.vals@.remove_ensures(i);
        let k = old_m.keys@[i];
        assert(strictly_increasing(new_m.keys@)) by {
            assert forall|a: int, b: int| 0 <= a < b < new_m.keys@.len() implies new_m.keys@[a] < new_m.keys@[b] by {
                if b < i {
                } else if a < i {
                    assert(old_m.keys@[a] < old_m.keys@[b + 1]);
                } else {
                    assert(old_m.keys@[a + 1] < old_m.keys@[b + 1]);
                }
            }
        }
        assert forall|q: u64| #[trigger] new_m@.contains_key(q) implies old_m@.remove(k).contains_key(q)
            && new_m@[q] == old_m@.remove(k)[q] by {
            let j = new_m.keys@.index_of(q);
            new_m.lemma_position(j);
            if j < i {
                old_m.lemma_position(j);
                assert(old_m.keys@[j] < old_m.keys@[i]);
            } else {
                old_m.lemma_position(j + 1);
                assert(old_m.keys@[i] < old_m.keys@[j + 1]);
            }
        }
        assert forall|q: u64| #[trigger] old_m@.remove(k).contains_key(q) implies new_m@.contains_key(q) by {
            let j = old_m.keys@.index_of(q);
            old_m.lemma_position(j);
            if j < i {
                assert(new_m.keys@[j] == q);
            } else {
                assert(j != i);
                assert(new_m.keys@[j - 1] == q);
            }
        }
    }

    pub fn new() -> (m: OrderedMap<V>)
        ensures
            m.wf(),
            m@ == Map::<u64, V>::empty(),
            m.entries() == Seq::<(u64, V)>::empty(),
            m.keys@.len() == 0,
    {
        let m = OrderedMap { keys: Vec::new(), vals: Vec::new() };
        assert(m@ =~= Map::<u64, V>::empty());
        assert(m.entries() =~= Seq::<(u64, V)>::empty());
        m
    }

    pub fn len(&self) -> (n: usize)
        requires
            self.wf(),
        ensures
            n == self@.len(),
            n == self.entries().len(),
    {
        proof {
            self.lemma_dom_len();
        }
        self.keys.len()
    }

    pub proof fn lemma_dom_len(&self)
        requires
            self.wf(),
        ensures
            self@.dom() =~= self.keys@.to_set(),
            self@.dom().finite(),
            self@.len() == self.keys@.len(),
    {
        assert(self@.dom() =~= self.keys@.to_set());
        assert(self.keys@.no_duplicates()) by {
            assert forall|i: int, j: int|
                0 <= i < self.keys@.len() && 0 <= j < self.keys@.len() && i != j implies
                self.keys@[i] != self.keys@[j] by {
                if i < j {
                    assert(self.keys@[i] < self.keys@[j]);
                } else {
                    assert(self.keys@[j] < self.keys@[i]);
                }
            }
        }
        self.keys@.unique_seq_to_set();
    }

    /// Position of `k` among the keys, if the map holds it.
    pub fn find(&self, k: u64) -> (r: Option<usize>)
        requires
            self.wf(),
        ensures
            match r {
                Some(i) => i < self.keys@.len() && self.keys@[i as int] == k,
                None => !self@.contains_key(k),
            },
    {
        let mut i: usize = 0;
        while i < self.keys.len()
            invariant
                self.wf(),
                i <= self.keys@.len(),
                forall|j: int| 0 <= j < i ==> self.keys@[j] != k,
            decreases self.keys@.len() - i,
        {
            if self.keys[i] == k {
                return Some(i);
            }
            i = i + 1;
        }
        None
    }

    pub fn get(&self, k: u64) -> (r: Option<&V>)
        requires
            self.wf(),
        ensures
            match r {
                Some(v) => self@.contains_key(k) && *v == self@[k],
                None => !self@.contains_key(k),
            },
    {
        match self.find(k) {
            Some(i) => {
                proof {
                    self.lemma_position(i as int);
                }
                Some(&self.vals[i])
            },
            None => None,
        }
    }

    pub fn get_mut(&mut self, k: u64) -> (r: Option<&mut V>)
        requires
            old(self).wf(),
        ensures
            match r {
                Some(v) => {
                    &&& old(self)@.contains_key(k)
                    &&& *v == old(self)@[k]
                    &&& final(self).wf()
                    &&& final(self).keys@ == old(self).keys@
                    &&& final(self).vals@ == old(self).vals@.update(old(self).keys@.index_of(k), *final(v))
                    &&& final(self)@ == old(self)@.insert(k, *final(v))
                },
                None => !old(self)@.contains_key(k) && *final(self) == *old(self),
            },
    {
        match self.find(k) {
            Some(i) => {
                proof {
                    self.lemma_position(i as int);
                }
                Some(&mut self.vals[i])
            },
            None => None,
        }
    }

    /// Sets the value under `k`, adding the key if the map does not hold it.
    pub fn insert(&mut self, k: u64, v: V)
        requires
            old(self).wf(),
        ensures
            final(self).wf(),
            final(self)@ == old(self)@.insert(k, v),
            (forall|j: int| 0 <= j < old(self).keys@.len() ==> old(self).keys@[j] < k) ==> {
                &&& final(self).keys@ == old(self).keys@.push(k)
                &&& final(self).vals@ == old(self).vals@.push(v)
            },
    {
        let mut i: usize = 0;
        while i < self.keys.len() && self.keys[i] < k
            invariant
                self.wf(),
                i <= self.keys@.len(),
                forall|j: int| 0 <= j < i ==> self.keys@[j] < k,
            decreases self.keys@.len() - i,
        {
            i = i + 1;
        }
        let ghost old_m = *self;
        if i < self.keys.len() && self.keys[i] == k {
            proof {
                self.lemma_position(i as int);
                assert(!(forall|j: int| 0 <= j < old_m.keys@.len() ==> old_m.keys@[j] < k));
            }
            self.vals.set(i, v);
            proof {
                assert forall|q: u64| #[trigger] self@.contains_key(q) implies self@[q] == old_m@.insert(k, v)[q] by {
                    let j = self.keys@.index_of(q);
                    self.lemma_position(j);
                    old_m.lemma_position(j);
                }
                assert(self@ =~= old_m@.insert(k, v));
            }
        } else {
            proof {
                assert(!self.keys@.contains(k)) by {
                    if self.keys@.contains(k) {
                        let j = self.keys@.index_of(k);
                        if j >= i {
                            assert(self.keys@[i as int] <= self.keys@[j]);
                        }
                    }
                }
                self.keys@.insert_ensures(i as int, k);
            }
            self.keys.insert(i, k);
            self.vals.insert(i, v);
            proof {
                assert(strictly_increasing(self.keys@)) by {
                    assert forall|a: int, b: int| 0 <= a < b < self.keys@.len() implies self.keys@[a] < self.keys@[b] by {
                        if b < i {
                            assert(self.keys@[a] == old_m.keys@[a]);
                        } else if b == i {
                        } else if a < i {
                            assert(old_m.keys@[i as int] <= old_m.keys@[b - 1]);
                        } else if a == i {
                            assert(old_m.keys@[i as int] <= old_m.keys@[b - 1]);
                        } else {
                            assert(old_m.keys@[a - 1] < old_m.keys@[b - 1]);
                        }
                    }
                }
                Self::lemma_insert_view(old_m, *self, i as int, k, v);
                if forall|j: int| 0 <= j < old_m.keys@.len() ==> old_m.keys@[j] < k {
                    if i < old_m.keys@.len() {
                        assert(old_m.keys@[i as int] < k);
                    }
                    assert(self.keys@ =~= old_m.keys@.push(k));
                    assert(self.vals@ =~= old_m.vals@.push(v));
                }
            }
        }
    }

    /// Removes the entry under `k`, handing back its value if there was one.
    pub fn remove(&mut self, k: u64) -> (r: Option<V>)
        requires
            old(self).wf(),
        ensures
            final(self).wf(),
            final(self)@ == old(self)@.remove(k),
            match r {
                Some(v) => old(self)@.contains_key(k) && v == old(self)@[k],
                None => !old(self)@.contains_key(k),
            },
    {
        match self.find(k) {
            Some(i) => {
                let ghost old_m = *self;
                proof {
                    self.lemma_position(i as int);
                }
                self.keys.remove(i);
                let v = self.vals.remove(i);
                proof {
                    Self::lemma_remove_view(old_m, *self, i as int);
                }
                Some(v)
            },
            None => {
                assert(self@ =~= self@.remove(k));
                None
            },
        }
    }
}

} // verus!
