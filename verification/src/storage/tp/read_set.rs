//! The sets of vertices and edges that a transaction has read.

use std::collections::hash_map::RandomState;

use dashmap::DashSet;
use vstd::prelude::*;

#[allow(unused_imports)]
use crate::collections::dash::dash_set_contents;
use crate::collections::dash::{dash_set_insert, dash_set_keys, dash_set_new};

verus! {

/// The identifiers of what was read. A concurrent set can be changed through a shared reference,
/// so it is kept to itself: it grows through `note` alone.
pub struct ReadSet {
    ids: DashSet<u64, RandomState>,
}

impl View for ReadSet {
    type V = Set<u64>;

    closed spec fn view(&self) -> Set<u64> {
        dash_set_contents(self.ids)
    }
}

impl ReadSet {
    /// Nothing was read.
    pub fn new() -> (reads: ReadSet)
        ensures
            reads@ == Set::<u64>::empty(),
    {
        ReadSet { ids: dash_set_new() }
    }

    /// Notes that an identifier was read.
    pub fn note(&mut self, id: u64)
        ensures
            final(self)@ == old(self)@.insert(id),
    {
        dash_set_insert(&mut self.ids, id);
    }

    /// The identifiers that were read, each once, in no particular order.
    pub fn ids(&self) -> (ids: Vec<u64>)
        ensures
            ids@.no_duplicates(),
            forall|id: u64| #[trigger] ids@.contains(id) <==> self@.contains(id),
    {
        dash_set_keys(&self.ids)
    }
}

} // verus!
