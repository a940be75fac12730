//! A map from integer keys to values of any type.
//!
//! The values live in a vector, and a `DashMap` records at which position each key's value is.

use std::collections::hash_map::RandomState;

use dashmap::DashMap;
use vstd::prelude::*;

use super::dash::{dash_map_get, dash_map_insert, dash_map_new, dash_map_remove};
#[allow(unused_imports)]
use super::dash::dash_map_contents;

verus! {

/// A map from `u64` keys to values of type `V`.
pub struct SlotMap<V> {
    index: DashMap<u64, u64, RandomState>,
    slots: Vec<(u64, V)>,
}

impl<V> View for SlotMap<V> {
    type V = Map<u64, V>;

    closed spec fn view(&self) -> Map<u64, V> {
        Map::new(
            |key: u64| dash_map_contents(self.index).contains_key(key),
            |key: u64| self.slots@[dash_map_contents(self.index)[key] as int].1,
        )
    }
}

impl<V> SlotMap<V> {
    /// The index and the slots describe the same keys: each key points at the slot that carries
    /// it, and each slot is pointed at by the key that it carries.
    pub closed spec fn wf(&self) -> bool {
        &&& forall|key: u64| #[trigger]
            dash_map_contents(self.index).contains_key(key) ==> {
                &&& dash_map_contents(self.index)[key] < self.slots@.len()
                &&& self.slots@[dash_map_contents(self.index)[key] as int].0 == key
            }
        &&& forall|i: int|
            0 <= i < self.slots@.len() ==> {
                &&& dash_map_contents(self.index).contains_key((#[trigger] self.slots@[i]).0)
                &&& dash_map_contents(self.index)[self.slots@[i].0] == i
            }
    }

    /// The keys in the order in which `key_at` hands them out.
    pub closed spec fn key_seq(&self) -> Seq<u64> {
        self.slots@.map_values(|slot: (u64, V)| slot.0)
    }

    /// The keys handed out by position are the keys of the map, each once.
    pub proof fn lemma_key_seq(&self)
        requires
            self.wf(),
        ensures
            self.key_seq().no_duplicates(),
            forall|key: u64| #[trigger] self.key_seq().contains(key) <==> self@.contains_key(key),
            self.key_seq().to_set() =~= self@.dom(),
            self@.dom().finite(),
    {
        assert forall|key: u64| #[trigger]
            self.key_seq().contains(key) <==> self@.contains_key(key) by {
            if self.key_seq().contains(key) {
                let i = choose|i: int| 0 <= i < self.key_seq().len() && self.key_seq()[i] == key;
                assert(self.slots@[i].0 == key);
            }
            if self@.contains_key(key) {
                let i = dash_map_contents(self.index)[key] as int;
                assert(self.key_seq()[i] == key);
            }
        }
        self.key_seq().unique_seq_to_set();
        assert(self.key_seq().to_set() =~= self@.dom());
    }

    /// An empty map.
    pub fn new() -> (map: Self)
        ensures
            map.wf(),
            map@ == (Map::<u64, V>::empty()),
    {
        let map = SlotMap { index: dash_map_new(), slots: Vec::new() };
        assert(map@ =~= Map::empty());
        map
    }

    /// The number of keys.
    pub fn len(&self) -> (n: usize)
        requires
            self.wf(),
        ensures
            n == self@.len(),
            n == self.key_seq().len(),
    {
        proof {
            self.lemma_key_seq();
            self.key_seq().unique_seq_to_set();
        }
        self.slots.len()
    }

    /// Whether the map has the key.
    pub fn contains_key(&self, key: u64) -> (found: bool)
        requires
            self.wf(),
        ensures
            found == self@.contains_key(key),
    {
        dash_map_get(&self.index, key).is_some()
    }

    /// The value of a key.
    pub fn get(&self, key: u64) -> (value: Option<&V>)
        requires
            self.wf(),
        ensures
            value is Some <==> self@.contains_key(key),
            value matches Some(v) ==> *v == self@[key],
    {
        match dash_map_get(&self.index, key) {
            Some(position) => {
                assert(position < self.slots.len());
                Some(&self.slots[position as usize].1)
            },
            None => None,
        }
    }

    /// The value of a key, to be changed in place.
    pub fn get_mut(&mut self, key: u64) -> (value: Option<&mut V>)
        requires
            old(self).wf(),
        ensures
            final(self).wf(),
            match value {
                Some(v) => {
                    &&& old(self)@.contains_key(key)
                    &&& *v == old(self)@[key]
                    &&& final(self)@ == old(self)@.insert(key, *final(v))
                },
                None => {
                    &&& !old(self)@.contains_key(key)
                    &&& final(self)@ == old(self)@
                },
            },
    {
        match dash_map_get(&self.index, key) {
            Some(position) => {
                assert(position < self.slots.len());
                let slot: &mut (u64, V) = &mut self.slots[position as usize];
                Some(&mut slot.1)
            },
            None => None,
        }
    }

    /// The key at a position below `len`.
    pub fn key_at(&self, position: usize) -> (key: u64)
        requires
            self.wf(),
            position < self.key_seq().len(),
        ensures
            key == self.key_seq()[position as int],
            self@.contains_key(key),
    {
        self.slots[position].0
    }

    /// Stores a value under a key, in place of the one stored there before.
    pub fn insert(&mut self, key: u64, value: V)
        requires
            old(self).wf(),
        ensures
            final(self).wf(),
            final(self)@ == old(self)@.insert(key, value),
    {
        match dash_map_get(&self.index, key) {
            Some(position) => {
                self.slots.set(position as usize, (key, value));
            },
            None => {
                let position: u64 = self.slots.len() as u64;
                dash_map_insert(&mut self.index, key, position);
                self.slots.push((key, value));
            },
        }
        assert(self@ =~= old(self)@.insert(key, value));
    }

    /// Removes a key and hands its value back.
    pub fn remove(&mut self, key: u64) -> (removed: Option<V>)
        requires
            old(self).wf(),
        ensures
            final(self).wf(),
            final(self)@ == old(self)@.remove(key),
            removed is Some <==> old(self)@.contains_key(key),
            removed matches Some(v) ==> v == old(self)@[key],
    {
        match dash_map_remove(&mut self.index, key) {
            None => {
                assert(self@ =~= old(self)@.remove(key));
                None
            },
            Some(position) => {
                let position: usize = position as usize;
                let last: usize = self.slots.len() - 1;
                let (_, value) = self.slots.swap_remove(position);
                if position < last {
                    let moved: u64 = self.slots[position].0;
                    assert(moved == old(self).slots@[last as int].0);
                    dash_map_insert(&mut self.index, moved, position as u64);
                }
                assert(self@ =~= old(self)@.remove(key));
                Some(value)
            },
        }
    }
}

} // verus!
