//! The container behind every level of the store: keyed values in a vector
//! that is kept in ascending key order, so that no key occurs twice and the
//! values are walked in the order of their keys.

use vstd::prelude::*;
use crate::assoc::{
    as_map, ascending, has_key, is_slot, lemma_insert, lemma_len, lemma_place, lemma_remove,
    lemma_slot, lemma_update,
};
use crate::key_order::{
    key_lt, lemma_key_lt_irreflexive, lemma_key_lt_total, lemma_key_lt_transitive, rank, Rank,
};

verus! {

/// Values under string keys, in ascending key order.
#[derive(Debug)]
pub struct Table<V> {
    slots: Vec<(String, V)>,
}

impl<V> Table<V> {
    /// The pairs held, in the order in which they are kept, each key as its characters.
    pub closed spec fn entries(&self) -> Seq<(Seq<char>, V)> {
        self.slots@.map_values(|slot: (String, V)| (slot.0@, slot.1))
    }

    /// The keys rise strictly along the table.
    pub open spec fn wf(&self) -> bool {
        ascending(self.entries())
    }

    /// The map that the table stands for.
    pub open spec fn map(&self) -> Map<Seq<char>, V> {
        as_map(self.entries())
    }

    /// An empty table.
    pub fn new() -> (t: Self)
        ensures
            t.wf(),
            t.entries() == Seq::<(Seq<char>, V)>::empty(),
            t.map() == Map::<Seq<char>, V>::empty(),
    {
        let t = Table { slots: Vec::new() };
        proof {
            assert(t.entries() =~= Seq::<(Seq<char>, V)>::empty());
            assert(t.map() =~= Map::<Seq<char>, V>::empty());
        }
        t
    }

    /// The number of keys.
    pub fn len(&self) -> (n: usize)
        ensures
            n == self.entries().len(),
            self.wf() ==> n == self.map().dom().len() && self.map().dom().finite(),
    {
        proof {
            if self.wf() {
                lemma_len(self.entries());
            }
        }
        self.slots.len()
    }

    /// Whether the table holds no key.
    pub fn is_empty(&self) -> (b: bool)
        requires
            self.wf(),
        ensures
            b == (self.entries().len() == 0),
            b == (self.map().dom().len() == 0),
            b == (self.map() == Map::<Seq<char>, V>::empty()),
    {
        proof {
            lemma_len(self.entries());
            if self.entries().len() == 0 {
                assert(self.map() =~= Map::<Seq<char>, V>::empty());
            }
        }
        self.slots.len() == 0
    }

    /// Looks `key` up by halving: returns whether it is held, and the place
    /// where it stands or would have to be put.
    pub fn find(&self, key: &str) -> (r: (bool, usize))
        requires
            self.wf(),
        ensures
            is_slot(self.entries(), key@, r.1 as int),
            r.0 == self.map().contains_key(key@),
            r.0 ==> r.1 < self.entries().len() && self.entries()[r.1 as int].0 == key@
                && self.map()[key@] == self.entries()[r.1 as int].1,
    {
        let ghost e = self.entries();
        let mut lo: usize = 0;
        let mut hi: usize = self.slots.len();
        while lo < hi
            invariant
                e == self.entries(),
                ascending(e),
                0 <= lo <= hi <= e.len(),
                e.len() == self.slots@.len(),
                forall|i: int| 0 <= i < lo ==> key_lt(#[trigger] e[i].0, key@),
                forall|i: int| hi <= i < e.len() ==> !key_lt(#[trigger] e[i].0, key@),
                hi < e.len() ==> key_lt(key@, e[hi as int].0),
            decreases hi - lo,
        {
            let mid: usize = lo + (hi - lo) / 2;
            let r = rank(self.slots[mid].0.as_str(), key);
            proof {
                assert(e[mid as int].0 == self.slots@[mid as int].0@);
                lemma_key_lt_irreflexive(key@);
                lemma_key_lt_total(e[mid as int].0, key@);
            }
            match r {
                Rank::Same => {
                    proof {
                        assert forall|i: int| 0 <= i < mid implies key_lt(
                            #[trigger] e[i].0,
                            key@,
                        ) by {
                            assert(key_lt(e[i].0, e[mid as int].0));
                        }
                        assert forall|i: int| mid <= i < e.len() implies !key_lt(
                            #[trigger] e[i].0,
                            key@,
                        ) by {
                            if mid < i {
                                assert(key_lt(e[mid as int].0, e[i].0));
                                if key_lt(e[i].0, key@) {
                                    lemma_key_lt_transitive(e[mid as int].0, e[i].0, key@);
                                }
                            }
                        }
                        lemma_slot(e, key@, mid as int);
                        lemma_place(e, mid as int);
                    }
                    return (true, mid);
                },
                Rank::Before => {
                    proof {
                        assert forall|i: int| 0 <= i < mid + 1 implies key_lt(
                            #[trigger] e[i].0,
                            key@,
                        ) by {
                            if i < mid {
                                assert(key_lt(e[i].0, e[mid as int].0));
                                lemma_key_lt_transitive(e[i].0, e[mid as int].0, key@);
                            }
                        }
                    }
                    lo = mid + 1;
                },
                Rank::After => {
                    proof {
                        assert forall|i: int| mid <= i < e.len() implies !key_lt(
                            #[trigger] e[i].0,
                            key@,
                        ) by {
                            if mid < i {
                                assert(key_lt(e[mid as int].0, e[i].0));
                                if key_lt(e[i].0, key@) {
                                    lemma_key_lt_transitive(e[mid as int].0, e[i].0, key@);
                                }
                            }
                        }
                    }
                    hi = mid;
                },
            }
        }
        proof {
            lemma_key_lt_irreflexive(key@);
            lemma_slot(e, key@, lo as int);
        }
        (false, lo)
    }

    /// Whether `key` is held.
    pub fn contains_key(&self, key: &str) -> (b: bool)
        requires
            self.wf(),
        ensures
            b == self.map().contains_key(key@),
    {
        self.find(key).0
    }

    /// The key at place `i`.
    pub fn key_at(&self, i: usize) -> (k: &String)
        requires
            i < self.entries().len(),
        ensures
            k@ == self.entries()[i as int].0,
    {
        &self.slots[i].0
    }

    /// The value at place `i`.
    pub fn value_at(&self, i: usize) -> (v: &V)
        requires
            i < self.entries().len(),
        ensures
            *v == self.entries()[i as int].1,
    {
        &self.slots[i].1
    }

    /// The value at place `i`, to be changed where it stands.
    pub fn value_at_mut(&mut self, i: usize) -> (v: &mut V)
        requires
            i < old(self).entries().len(),
        ensures
            *v == old(self).entries()[i as int].1,
            final(self).entries() == old(self).entries().update(
                i as int,
                (old(self).entries()[i as int].0, *final(v)),
            ),
            old(self).wf() ==> final(self).wf() && final(self).map() == old(self).map().insert(
                old(self).entries()[i as int].0,
                *final(v),
            ),
    {
        proof {
            let e = self.entries();
            if self.wf() {
                assert forall|x: V|
                    ascending(#[trigger] e.update(i as int, (e[i as int].0, x))) && as_map(
                        e.update(i as int, (e[i as int].0, x)),
                    ) == as_map(e).insert(e[i as int].0, x) by {
                    lemma_update(e, i as int, x);
                }
            }
        }
        &mut self.slots[i].1
    }

    /// The value under `key`, if it is held.
    pub fn get(&self, key: &str) -> (r: Option<&V>)
        requires
            self.wf(),
        ensures
            match r {
                Some(v) => self.map().contains_key(key@) && *v == self.map()[key@],
                None => !self.map().contains_key(key@),
            },
    {
        let (found, p) = self.find(key);
        if found {
            Some(&self.slots[p].1)
        } else {
            None
        }
    }

    /// The value under `key`, if it is held, to be changed where it stands.
    /// The table ends as it began but for what the caller makes of that value.
    pub fn get_mut(&mut self, key: &str) -> (r: Option<&mut V>)
        requires
            old(self).wf(),
        ensures
            r is Some == old(self).map().contains_key(key@),
            r is None ==> *final(self) == *old(self),
            r is Some ==> *r.unwrap() == old(self).map()[key@],
            r is Some ==> final(self).wf(),
            r is Some ==> final(self).map() == old(self).map().insert(key@, *final(r.unwrap())),
    {
        let (found, p) = self.find(key);
        if found {
            Some(self.value_at_mut(p))
        } else {
            None
        }
    }

    /// Puts a key that is not held at its slot.
    pub(crate) fn insert_at(&mut self, p: usize, key: String, value: V)
        requires
            old(self).wf(),
            is_slot(old(self).entries(), key@, p as int),
            !old(self).map().contains_key(key@),
        ensures
            final(self).wf(),
            final(self).entries() == old(self).entries().insert(p as int, (key@, value)),
            final(self).map() == old(self).map().insert(key@, value),
    {
        proof {
            lemma_insert(self.entries(), key@, value, p as int);
        }
        let ghost before = self.slots@;
        let ghost k = key@;
        self.slots.insert(p, (key, value));
        proof {
            assert(self.entries() =~= old(self).entries().insert(p as int, (k, value)));
        }
    }

    /// Puts `value` under `key`, in place of what was there: returns what was there.
    pub fn insert(&mut self, key: String, value: V) -> (r: Option<V>)
        requires
            old(self).wf(),
        ensures
            final(self).wf(),
            final(self).map() == old(self).map().insert(key@, value),
            match r {
                Some(v) => old(self).map().contains_key(key@) && v == old(self).map()[key@],
                None => !old(self).map().contains_key(key@),
            },
    {
        let (found, p) = self.find(key.as_str());
        if found {
            proof {
                lemma_update(self.entries(), p as int, value);
            }
            let mut held = value;
            let slot = self.value_at_mut(p);
            core::mem::swap(slot, &mut held);
            Some(held)
        } else {
            self.insert_at(p, key, value);
            None
        }
    }

    /// Takes `key` out with its value: returns the value, if the key was held.
    pub fn remove(&mut self, key: &str) -> (r: Option<V>)
        requires
            old(self).wf(),
        ensures
            final(self).wf(),
            final(self).map() == old(self).map().remove(key@),
            match r {
                Some(v) => old(self).map().contains_key(key@) && v == old(self).map()[key@],
                None => !old(self).map().contains_key(key@) && *final(self) == *old(self),
            },
    {
        let (found, p) = self.find(key);
        if found {
            proof {
                lemma_remove(self.entries(), p as int);
            }
            let slot = self.slots.remove(p);
            proof {
                assert(self.entries() =~= old(self).entries().remove(p as int));
            }
            Some(slot.1)
        } else {
            proof {
                assert(self.map() =~= self.map().remove(key@));
            }
            None
        }
    }
}

impl<V: Clone> Clone for Table<V> {
    /// A table with the same keys, each with a clone of its value.
    fn clone(&self) -> (r: Self)
        ensures
            r.entries().len() == self.entries().len(),
            forall|i: int|
                0 <= i < self.entries().len() ==> (#[trigger] r.entries()[i]).0
                    == self.entries()[i].0 && cloned(self.entries()[i].1, r.entries()[i].1),
            self.wf() ==> r.wf(),
    {
        let mut slots: Vec<(String, V)> = Vec::new();
        let mut i: usize = 0;
        while i < self.slots.len()
            invariant
                0 <= i <= self.slots@.len(),
                slots@.len() == i,
                forall|j: int|
                    0 <= j < i ==> (#[trigger] slots@[j]).0@ == self.slots@[j].0@ && cloned(
                        self.slots@[j].1,
                        slots@[j].1,
                    ),
            decreases self.slots@.len() - i,
        {
            let key = self.slots[i].0.clone();
            let value = self.slots[i].1.clone();
            slots.push((key, value));
            i = i + 1;
        }
        let r = Table { slots };
        proof {
            assert forall|j: int| 0 <= j < self.entries().len() implies (#[trigger] r.entries()[j]).0
                == self.entries()[j].0 && cloned(self.entries()[j].1, r.entries()[j].1) by {
                assert(slots@[j].0@ == self.slots@[j].0@);
            }
            if self.wf() {
                assert forall|a: int, b: int| 0 <= a < b < r.entries().len() implies key_lt(
                    #[trigger] r.entries()[a].0,
                    #[trigger] r.entries()[b].0,
                ) by {
                    assert(r.entries()[a].0 == self.entries()[a].0);
                    assert(r.entries()[b].0 == self.entries()[b].0);
                }
            }
        }
        r
    }
}

} // verus!
