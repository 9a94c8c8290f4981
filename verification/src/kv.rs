//! A small association map keyed by 64-bit handles.
//!
//! Every identifier in the node (data units, peers, requests) is a 64-bit
//! handle, so one map type backs the correlation tables, shard contexts and
//! distribution maps. The mathematical model is a `Map<u64, V>`.

use vstd::prelude::*;

verus! {

/// An association map from 64-bit keys to values, holding each key at most
/// once.
#[derive(Debug, Clone)]
pub struct KeyMap<V> {
    entries: Vec<(u64, V)>,
}

impl<V> KeyMap<V> {
    /// The entries in insertion order.
    pub closed spec fn entries_seq(&self) -> Seq<(u64, V)> {
        self.entries@
    }

    /// No key occurs twice.
    pub open spec fn wf(&self) -> bool {
        forall|i: int, j: int|
            0 <= i < j < self.entries_seq().len() ==> self.entries_seq()[i].0
                != self.entries_seq()[j].0
    }

    /// The map as a mathematical `Map`.
    pub open spec fn view(&self) -> Map<u64, V> {
        Map::new(
            |k: u64|
                exists|i: int|
                    0 <= i < self.entries_seq().len() && self.entries_seq()[i].0 == k,
            |k: u64|
                self.entries_seq()[choose|i: int|
                    0 <= i < self.entries_seq().len() && self.entries_seq()[i].0 == k].1,
        )
    }

    /// The entry at each position is what the map holds for its key.
    pub proof fn lemma_entry(&self, i: int)
        requires
            self.wf(),
            0 <= i < self.entries_seq().len(),
        ensures
            self@.dom().contains(self.entries_seq()[i].0),
            self@[self.entries_seq()[i].0] == self.entries_seq()[i].1,
    {
        let k = self.entries_seq()[i].0;
        assert(exists|j: int|
            0 <= j < self.entries_seq().len() && self.entries_seq()[j].0 == k);
        let j = choose|j: int|
            0 <= j < self.entries_seq().len() && self.entries_seq()[j].0 == k;
        if i < j {
            assert(self.entries_seq()[i].0 != self.entries_seq()[j].0);
        } else if j < i {
            assert(self.entries_seq()[j].0 != self.entries_seq()[i].0);
        }
    }

    /// A held key means the entry list is not empty.
    pub proof fn lemma_nonempty(&self, k: u64)
        requires
            self@.dom().contains(k),
        ensures
            self.entries_seq().len() > 0,
    {
        let i = choose|i: int|
            0 <= i < self.entries_seq().len() && self.entries_seq()[i].0 == k;
    }

    /// An empty map.
    pub fn new() -> (r: Self)
        ensures
            r.wf(),
            r@ == Map::<u64, V>::empty(),
            r.entries_seq().len() == 0,
    {
        let r = KeyMap { entries: Vec::new() };
        proof {
            assert(r@ =~= Map::<u64, V>::empty());
        }
        r
    }

    /// How many keys the map holds.
    pub fn len(&self) -> (r: usize)
        ensures
            r == self.entries_seq().len(),
    {
        self.entries.len()
    }

    /// The value stored under `k`, if any.
    pub fn get(&self, k: u64) -> (r: Option<&V>)
        requires
            self.wf(),
        ensures
            match r {
                Some(v) => self@.dom().contains(k) && *v == self@[k],
                None => !self@.dom().contains(k),
            },
    {
        let mut i: usize = 0;
        while i < self.entries.len()
            invariant
                self.wf(),
                i <= self.entries_seq().len(),
                forall|j: int| 0 <= j < i ==> self.entries_seq()[j].0 != k,
            decreases self.entries_seq().len() - i,
        {
            if self.entries[i].0 == k {
                proof {
                    self.lemma_entry(i as int);
                }
                return Some(&self.entries[i].1);
            }
            i = i + 1;
        }
        proof {
            assert(!self@.dom().contains(k));
        }
        None
    }

    /// Whether the map holds `k`.
    pub fn contains_key(&self, k: u64) -> (r: bool)
        requires
            self.wf(),
        ensures
            r == self@.dom().contains(k),
    {
        match self.get(k) {
            Some(_) => true,
            None => false,
        }
    }

    /// Stores `v` under `k`, replacing what was there. A new key joins at
    /// the end, so the oldest key keeps the first position.
    pub fn insert(&mut self, k: u64, v: V)
        requires
            old(self).wf(),
        ensures
            final(self).wf(),
            final(self)@ == old(self)@.insert(k, v),
            final(self).entries_seq().len() >= 1,
            old(self).entries_seq().len() > 0 ==> final(self).entries_seq()[0].0 == old(
                self,
            ).entries_seq()[0].0,
            old(self).entries_seq().len() == 0 ==> final(self).entries_seq()[0].0 == k,
    {
        let mut i: usize = 0;
        while i < self.entries.len()
            invariant
                *self == *old(self),
                old(self).wf(),
                i <= self.entries_seq().len(),
                forall|j: int| 0 <= j < i ==> self.entries_seq()[j].0 != k,
            decreases self.entries_seq().len() - i,
        {
            if self.entries[i].0 == k {
                self.entries[i] = (k, v);
                proof {
                    assert forall|k2: u64| final(self)@.dom().contains(k2)
                        <==> (*old(self))@.insert(k, v).dom().contains(k2) by {
                        lemma_same_keys((*old(self)).entries_seq(), self.entries_seq(), k2);
                    }
                    assert forall|k2: u64| self@.dom().contains(k2) implies self@[k2]
                        == (*old(self))@.insert(k, v)[k2] by {
                        let j = choose|j: int|
                            0 <= j < self.entries_seq().len() && self.entries_seq()[j].0 == k2;
                        self.lemma_entry(j);
                        if k2 == k {
                        } else {
                            (*old(self)).lemma_entry(j);
                        }
                    }
                    assert(self@ =~= (*old(self))@.insert(k, v));
                }
                return ;
            }
            i = i + 1;
        }
        self.entries.push((k, v));
        proof {
            assert(self.entries_seq() == (*old(self)).entries_seq().push((k, v)));
            assert forall|k2: u64| self@.dom().contains(k2) implies self@[k2]
                == (*old(self))@.insert(k, v)[k2] by {
                let j = choose|j: int|
                    0 <= j < self.entries_seq().len() && self.entries_seq()[j].0 == k2;
                self.lemma_entry(j);
                if k2 != k {
                    (*old(self)).lemma_entry(j);
                }
            }
            assert forall|k2: u64| (*old(self))@.insert(k, v).dom().contains(k2) implies self@
                .dom().contains(k2) by {
                if k2 == k {
                    assert(self.entries_seq()[self.entries_seq().len() - 1].0 == k);
                } else {
                    let j = choose|j: int|
                        0 <= j < (*old(self)).entries_seq().len() && (*old(self)).entries_seq()[j].0
                            == k2;
                    assert(self.entries_seq()[j].0 == k2);
                }
            }
            assert(self@ =~= (*old(self))@.insert(k, v));
        }
    }

    /// Removes and returns what was stored under `k`.
    pub fn remove(&mut self, k: u64) -> (r: Option<V>)
        requires
            old(self).wf(),
        ensures
            final(self).wf(),
            final(self)@ == old(self)@.remove(k),
            match r {
                Some(v) => old(self)@.dom().contains(k) && v == old(self)@[k],
                None => !old(self)@.dom().contains(k),
            },
    {
        let mut i: usize = 0;
        while i < self.entries.len()
            invariant
                *self == *old(self),
                old(self).wf(),
                i <= self.entries_seq().len(),
                forall|j: int| 0 <= j < i ==> self.entries_seq()[j].0 != k,
            decreases self.entries_seq().len() - i,
        {
            if self.entries[i].0 == k {
                proof {
                    self.lemma_entry(i as int);
                }
                let e = self.entries.remove(i);
                proof {
                    assert(self.entries_seq() == (*old(self)).entries_seq().remove(i as int));
                    assert forall|a: int, b: int|
                        0 <= a < b < self.entries_seq().len() implies self.entries_seq()[a].0
                        != self.entries_seq()[b].0 by {
                        let oa = if a < i { a } else { a + 1 };
                        let ob = if b < i { b } else { b + 1 };
                        assert(self.entries_seq()[a] == (*old(self)).entries_seq()[oa]);
                        assert(self.entries_seq()[b] == (*old(self)).entries_seq()[ob]);
                    }
                    assert forall|k2: u64| self@.dom().contains(k2) implies (*old(self))@.remove(
                        k,
                    ).dom().contains(k2) && self@[k2] == (*old(self))@.remove(k)[k2] by {
                        let j = choose|j: int|
                            0 <= j < self.entries_seq().len() && self.entries_seq()[j].0 == k2;
                        self.lemma_entry(j);
                        let oj = if j < i { j } else { j + 1 };
                        assert(self.entries_seq()[j] == (*old(self)).entries_seq()[oj]);
                        (*old(self)).lemma_entry(oj);
                    }
                    assert forall|k2: u64| (*old(self))@.remove(k).dom().contains(k2) implies self@
                        .dom().contains(k2) by {
                        let oj = choose|oj: int|
                            0 <= oj < (*old(self)).entries_seq().len()
                                && (*old(self)).entries_seq()[oj].0 == k2;
                        let j = if oj < i { oj } else { oj - 1 };
                        assert(self.entries_seq()[j].0 == k2);
                    }
                    assert(self@ =~= (*old(self))@.remove(k));
                }
                return Some(e.1);
            }
            i = i + 1;
        }
        proof {
            assert(!self@.dom().contains(k));
            assert(self@ =~= (*old(self))@.remove(k));
        }
        None
    }

    /// Borrows the entries for iteration.
    pub fn entries(&self) -> (r: &Vec<(u64, V)>)
        ensures
            r@ == self.entries_seq(),
    {
        &self.entries
    }
}

/// Replacing the value at one position leaves the key set of an entry
/// sequence unchanged at any key.
proof fn lemma_same_keys<V>(a: Seq<(u64, V)>, b: Seq<(u64, V)>, k: u64)
    requires
        a.len() == b.len(),
        forall|i: int| 0 <= i < a.len() ==> a[i].0 == b[i].0,
    ensures
        (exists|i: int| 0 <= i < a.len() && a[i].0 == k) <==> (exists|i: int|
            0 <= i < b.len() && b[i].0 == k),
{
    if exists|i: int| 0 <= i < a.len() && a[i].0 == k {
        let i = choose|i: int| 0 <= i < a.len() && a[i].0 == k;
        assert(b[i].0 == k);
    }
    if exists|i: int| 0 <= i < b.len() && b[i].0 == k {
        let i = choose|i: int| 0 <= i < b.len() && b[i].0 == k;
        assert(a[i].0 == k);
    }
}

} // verus!
