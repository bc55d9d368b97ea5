//! A map that keeps its entries in the order in which their keys came.
use vstd::prelude::*;
use crate::bytes::ScriptBuf;
use crate::primitives::{OutPoint, Txid};

verus! {

/// A value that can be the key of an [`AssocMap`]: it is known by its view.
pub trait MapKey: View + Sized {
    /// Whether two keys are the same.
    fn same_key(&self, other: &Self) -> (same: bool)
        ensures
            same == (self@ == other@),
    ;
}

impl MapKey for OutPoint {
    fn same_key(&self, other: &Self) -> (same: bool) {
        *self == *other
    }
}

impl MapKey for Txid {
    fn same_key(&self, other: &Self) -> (same: bool) {
        *self == *other
    }
}

impl MapKey for u64 {
    fn same_key(&self, other: &Self) -> (same: bool) {
        *self == *other
    }
}

impl MapKey for ScriptBuf {
    fn same_key(&self, other: &Self) -> (same: bool) {
        self.same(other)
    }
}

impl MapKey for String {
    fn same_key(&self, other: &Self) -> (same: bool) {
        *self == *other
    }
}

/// A map from keys to values. No key occurs twice, and entries stay in the order in which
/// their keys were first inserted.
#[derive(Debug)]
pub struct AssocMap<K: MapKey, V> {
    /// The entries, in insertion order.
    pub entries: Vec<(K, V)>,
}

impl<K: MapKey, V> AssocMap<K, V> {
    /// The keys, in insertion order.
    pub open spec fn keys(&self) -> Seq<K::V> {
        Seq::new(self.entries@.len(), |i: int| self.entries@[i].0@)
    }

    /// The values, in insertion order.
    pub open spec fn values(&self) -> Seq<V> {
        Seq::new(self.entries@.len(), |i: int| self.entries@[i].1)
    }

    /// No key occurs twice.
    pub open spec fn well_formed(&self) -> bool {
        forall|i: int, j: int|
            0 <= i < j < self.entries@.len() ==> (#[trigger] self.entries@[i]).0@ != (
            #[trigger] self.entries@[j]).0@
    }

    /// Whether the map holds `key`.
    pub open spec fn has(&self, key: K::V) -> bool {
        exists|i: int| 0 <= i < self.entries@.len() && (#[trigger] self.entries@[i]).0@ == key
    }

    /// The position of `key`.
    pub open spec fn slot(&self, key: K::V) -> int {
        choose|i: int| 0 <= i < self.entries@.len() && (#[trigger] self.entries@[i]).0@ == key
    }

    /// The value at `key`.
    pub open spec fn at(&self, key: K::V) -> V {
        self.entries@[self.slot(key)].1
    }

    /// In a well-formed map the position of a key is the only one that holds it.
    pub proof fn lemma_slot(&self, i: int)
        requires
            self.well_formed(),
            0 <= i < self.entries@.len(),
        ensures
            self.has(self.entries@[i].0@),
            self.slot(self.entries@[i].0@) == i,
            self.at(self.entries@[i].0@) == self.entries@[i].1,
    {
        let key = self.entries@[i].0@;
        let j = self.slot(key);
        assert(0 <= j < self.entries@.len() && self.entries@[j].0@ == key);
        if i < j {
            assert(self.entries@[i].0@ != self.entries@[j].0@);
        } else if j < i {
            assert(self.entries@[j].0@ != self.entries@[i].0@);
        }
    }

    /// The empty map.
    pub fn new() -> (map: Self)
        ensures
            map.entries@.len() == 0,
            map.well_formed(),
            forall|k: K::V| !map.has(k),
    {
        AssocMap { entries: Vec::new() }
    }

    /// The number of keys.
    pub fn len(&self) -> (len: usize)
        ensures
            len == self.entries@.len(),
    {
        self.entries.len()
    }

    /// Where `key` stands.
    pub fn position(&self, key: &K) -> (found: Option<usize>)
        ensures
            match found {
                Some(i) => i < self.entries@.len() && self.entries@[i as int].0@ == key@ && self.has(
                    key@,
                ),
                None => !self.has(key@),
            },
    {
        let mut i: usize = 0;
        while i < self.entries.len()
            invariant
                i <= self.entries.len(),
                forall|j: int| 0 <= j < i ==> (#[trigger] self.entries@[j]).0@ != key@,
            decreases self.entries.len() - i,
        {
            if self.entries[i].0.same_key(key) {
                assert(self.entries@[i as int].0@ == key@);
                return Some(i);
            }
            i += 1;
        }
        None
    }

    /// Whether the map holds `key`.
    pub fn contains_key(&self, key: &K) -> (found: bool)
        ensures
            found == self.has(key@),
    {
        self.position(key).is_some()
    }

    /// The value at `key`, if there is one.
    pub fn get(&self, key: &K) -> (value: Option<&V>)
        requires
            self.well_formed(),
        ensures
            match value {
                Some(v) => self.has(key@) && *v == self.at(key@),
                None => !self.has(key@),
            },
    {
        match self.position(key) {
            Some(i) => {
                proof {
                    self.lemma_slot(i as int);
                }
                Some(&self.entries[i].1)
            },
            None => None,
        }
    }

    /// The value at `key`, if there is one, for change in place.
    pub fn get_mut(&mut self, key: &K) -> (value: Option<&mut V>)
        requires
            old(self).well_formed(),
        ensures
            match value {
                Some(v) => {
                    &&& old(self).has(key@)
                    &&& *v == old(self).at(key@)
                    &&& final(self).entries@ == old(self).entries@.update(
                        old(self).slot(key@),
                        (old(self).entries@[old(self).slot(key@)].0, *final(v)),
                    )
                    &&& final(self).well_formed()
                },
                None => !old(self).has(key@) && *final(self) == *old(self),
            },
    {
        match self.position(key) {
            Some(i) => {
                proof {
                    self.lemma_slot(i as int);
                }
                Some(&mut self.entries[i].1)
            },
            None => None,
        }
    }

    /// Puts `value` at `key`, and gives back what stood there before. A key that was there
    /// keeps its place.
    pub fn insert(&mut self, key: K, value: V) -> (previous: Option<V>)
        requires
            old(self).well_formed(),
        ensures
            final(self).well_formed(),
            match previous {
                Some(v) => {
                    &&& old(self).has(key@)
                    &&& v == old(self).at(key@)
                    &&& final(self).entries@ == old(self).entries@.update(
                        old(self).slot(key@),
                        (final(self).entries@[old(self).slot(key@)].0, value),
                    )
                    &&& final(self).keys() == old(self).keys()
                },
                None => {
                    &&& !old(self).has(key@)
                    &&& final(self).entries@ == old(self).entries@.push((key, value))
                },
            },
            final(self).has(key@),
            final(self).at(key@) == value,
            forall|k: K::V| k != key@ ==> final(self).has(k) == old(self).has(k),
            forall|k: K::V|
                k != key@ && old(self).has(k) ==> final(self).at(k) == old(self).at(k),
    {
        let ghost before = *self;
        let found = self.position(&key);
        match found {
            Some(i) => {
                let ghost slot = i as int;
                proof {
                    before.lemma_slot(slot);
                }
                let ghost kv = key@;
                let (old_key, old_value) = self.entries.remove(i);
                self.entries.insert(i, (key, value));
                proof {
                    assert(self.entries@ =~= before.entries@.update(slot, (key, value)));
                    assert(self.well_formed());
                    assert(self.keys() =~= before.keys());
                    self.lemma_slot(slot);
                    self.lemma_other_slots(before, slot);
                }
                Some(old_value)
            },
            None => {
                self.entries.push((key, value));
                proof {
                    assert(self.well_formed());
                    self.lemma_slot(before.entries@.len() as int);
                    assert forall|k: K::V| k != key@ implies self.has(k) == before.has(k) by {
                        if self.has(k) {
                            let j = self.slot(k);
                            assert(before.entries@[j] == self.entries@[j]);
                        }
                        if before.has(k) {
                            let j = before.slot(k);
                            assert(self.entries@[j] == before.entries@[j]);
                        }
                    }
                    assert forall|k: K::V| k != key@ && before.has(k) implies self.at(k)
                        == before.at(k) by {
                        let j = before.slot(k);
                        assert(self.entries@[j] == before.entries@[j]);
                        self.lemma_slot(j);
                    }
                }
                None
            },
        }
    }

    /// Two maps that differ at one position, under one key, agree on every other key.
    proof fn lemma_other_slots(&self, before: Self, slot: int)
        requires
            self.well_formed(),
            before.well_formed(),
            self.entries@.len() == before.entries@.len(),
            0 <= slot < self.entries@.len(),
            self.entries@[slot].0@ == before.entries@[slot].0@,
            forall|j: int|
                0 <= j < self.entries@.len() && j != slot ==> self.entries@[j]
                    == before.entries@[j],
        ensures
            forall|k: K::V| self.has(k) == before.has(k),
            forall|k: K::V|
                k != before.entries@[slot].0@ && before.has(k) ==> self.at(k) == before.at(k),
    {
        assert forall|k: K::V| self.has(k) == before.has(k) by {
            if self.has(k) {
                let j = self.slot(k);
                assert(before.entries@[j].0@ == self.entries@[j].0@);
            }
            if before.has(k) {
                let j = before.slot(k);
                assert(self.entries@[j].0@ == before.entries@[j].0@);
            }
        }
        assert forall|k: K::V|
            k != before.entries@[slot].0@ && before.has(k) implies self.at(k) == before.at(k) by {
            let j = before.slot(k);
            assert(self.entries@[j] == before.entries@[j]);
            self.lemma_slot(j);
        }
    }

    /// Takes `key` out of the map, and gives back its value. The other entries keep their order.
    pub fn remove(&mut self, key: &K) -> (removed: Option<V>)
        requires
            old(self).well_formed(),
        ensures
            final(self).well_formed(),
            match removed {
                Some(v) => {
                    &&& old(self).has(key@)
                    &&& v == old(self).at(key@)
                    &&& final(self).entries@ == old(self).entries@.remove(old(self).slot(key@))
                },
                None => !old(self).has(key@) && *final(self) == *old(self),
            },
            !final(self).has(key@),
            forall|k: K::V| k != key@ ==> final(self).has(k) == old(self).has(k),
            forall|k: K::V|
                k != key@ && old(self).has(k) ==> final(self).at(k) == old(self).at(k),
    {
        let ghost before = *self;
        match self.position(key) {
            Some(i) => {
                let ghost slot = i as int;
                proof {
                    before.lemma_slot(slot);
                }
                let (old_key, old_value) = self.entries.remove(i);
                proof {
                    assert(self.well_formed());
                    assert(!self.has(key@)) by {
                        if self.has(key@) {
                            let j = self.slot(key@);
                            let origin = if j < slot { j } else { j + 1 };
                            assert(self.entries@[j] == before.entries@[origin]);
                            before.lemma_slot(origin);
                        }
                    }
                    assert forall|k: K::V| k != key@ implies self.has(k) == before.has(k) by {
                        if self.has(k) {
                            let j = self.slot(k);
                            let origin = if j < slot { j } else { j + 1 };
                            assert(before.entries@[origin].0@ == k);
                        }
                        if before.has(k) {
                            let j = before.slot(k);
                            let target = if j < slot { j } else { j - 1 };
                            assert(self.entries@[target].0@ == k);
                        }
                    }
                    assert forall|k: K::V| k != key@ && before.has(k) implies self.at(k)
                        == before.at(k) by {
                        let j = before.slot(k);
                        let target = if j < slot { j } else { j - 1 };
                        assert(self.entries@[target] == before.entries@[j]);
                        self.lemma_slot(target);
                    }
                }
                Some(old_value)
            },
            None => None,
        }
    }

    /// Takes every entry out of the map.
    pub fn clear(&mut self)
        ensures
            final(self).entries@.len() == 0,
            final(self).well_formed(),
            forall|k: K::V| !final(self).has(k),
    {
        self.entries.clear();
    }
}

/// What a map holds at a key is what stands beside the key among its entries; it holds no other keys.
pub proof fn law_map_gives_what_it_holds<K: MapKey, V>(map: AssocMap<K, V>, i: int, key: K::V)
    requires
        map.well_formed(),
    ensures
        0 <= i < map.entries@.len() ==> map.has(map.entries@[i].0@) && map.at(map.entries@[i].0@)
            == map.entries@[i].1,
        map.has(key) ==> exists|j: int|
            0 <= j < map.entries@.len() && (#[trigger] map.entries@[j]).0@ == key && map.at(key)
                == map.entries@[j].1,
        map.entries@.len() == 0 ==> !map.has(key),
{
    if 0 <= i < map.entries@.len() {
        map.lemma_slot(i);
    }
    if map.has(key) {
        let j = choose|j: int| 0 <= j < map.entries@.len() && (#[trigger] map.entries@[j]).0@ == key;
        map.lemma_slot(j);
    }
}

} // verus!
