//! Iteration over the neighbours of a vertex.

use crossbeam_skiplist::SkipSet;
use vstd::prelude::*;

use crate::collections::skip::{
    skip_set_after, skip_set_elements, skip_set_front, skip_set_insert, skip_set_new, NeighborKey,
};
#[allow(unused_imports)]
use crate::collections::skip::{neighbor_before, skip_set_contents};
use crate::common::types::{EdgeId, VertexId};
use crate::storage::error::StorageResult;
#[allow(unused_imports)]
use crate::storage::tp::memory_graph::neighbors_of;
use crate::storage::tp::model::GraphStore;
#[allow(unused_imports)]
use crate::storage::tp::model::Adjacency;
use crate::storage::tp::transaction::MemTransaction;

verus! {

/// How many neighbours are fetched behind the first of a batch.
pub const BATCH_SIZE: usize = 64;

/// Along which edges neighbours are looked for.
#[derive(Debug, Clone, Copy, PartialEq, Eq, Structural)]
pub enum Direction {
    /// Edges that lead to the vertex.
    Incoming,
    /// Edges that start at the vertex.
    Outgoing,
    /// Both.
    Both,
}

/// Neighbours that belong to the graph, or were put together for an iteration.
pub enum NeighborSet<'a> {
    /// Of the graph.
    Shared(&'a SkipSet<(u32, u64, u64)>),
    /// Put together.
    Combined(SkipSet<(u32, u64, u64)>),
}

impl<'a> View for NeighborSet<'a> {
    type V = Set<NeighborKey>;

    open spec fn view(&self) -> Set<NeighborKey> {
        match *self {
            NeighborSet::Shared(set) => skip_set_contents(*set),
            NeighborSet::Combined(set) => skip_set_contents(set),
        }
    }
}

impl<'a> NeighborSet<'a> {
    /// The collection.
    fn set(&self) -> (set: &SkipSet<(u32, u64, u64)>)
        ensures
            skip_set_contents(*set) == self@,
    {
        match self {
            NeighborSet::Shared(set) => set,
            NeighborSet::Combined(set) => set,
        }
    }
}

/// The neighbours of a vertex in a direction.
pub open spec fn neighbors_in(adjacency: Adjacency, direction: Direction) -> Set<NeighborKey> {
    match direction {
        Direction::Incoming => adjacency.incoming,
        Direction::Outgoing => adjacency.outgoing,
        Direction::Both => adjacency.incoming.union(adjacency.outgoing),
    }
}

/// An iterator over the neighbours of a vertex, in order, as far as a transaction sees the edges
/// and all filters accept them.
pub struct AdjacencyIterator<'a, F: Fn(&NeighborKey) -> bool> {
    store: &'a GraphStore,
    txn: &'a MemTransaction,
    adj_list: Option<NeighborSet<'a>>,
    current_entries: Vec<NeighborKey>,
    current_index: usize,
    filters: Vec<F>,
    current_adj: Option<NeighborKey>,
}

impl<'a, F: Fn(&NeighborKey) -> bool> AdjacencyIterator<'a, F> {
    /// The neighbours that are gone through.
    pub closed spec fn neighbors(self) -> Set<NeighborKey> {
        match self.adj_list {
            Some(list) => list@,
            None => Set::empty(),
        }
    }

    /// The graph.
    pub closed spec fn graph(self) -> GraphStore {
        *self.store
    }

    /// The transaction.
    pub closed spec fn reader(self) -> MemTransaction {
        *self.txn
    }

    /// The filters.
    pub closed spec fn predicates(self) -> Seq<F> {
        self.filters@
    }

    /// The neighbour that was given last.
    pub closed spec fn given(self) -> Option<NeighborKey> {
        self.current_adj
    }

    /// Whether a neighbour has been gone through.
    pub closed spec fn passed(self, neighbor: NeighborKey) -> bool {
        if self.current_entries@.len() == 0 {
            false
        } else if self.current_index > 0 {
            !neighbor_before(self.current_entries@[self.current_index - 1], neighbor)
        } else {
            neighbor_before(neighbor, self.current_entries@[0])
        }
    }

    /// Whether the batch is a run of neighbours, and the index within it.
    pub closed spec fn wf(self) -> bool {
        let entries = self.current_entries@;
        &&& self.store.wf()
        &&& self.current_index <= entries.len()
        &&& forall|i: int, j: int|
            0 <= i < j < entries.len() ==> neighbor_before(
                #[trigger] entries[i],
                #[trigger] entries[j],
            )
        &&& forall|i: int|
            0 <= i < entries.len() ==> self.neighbors().contains(#[trigger] entries[i])
        &&& forall|k: NeighborKey|
            entries.len() > 0 && #[trigger] self.neighbors().contains(k) && !neighbor_before(
                k,
                entries[0],
            ) && !neighbor_before(entries.last(), k) ==> entries.contains(k)
        &&& entries.len() > 0 ==> self.neighbors().finite()
        &&& forall|i: int, k: &NeighborKey|
            0 <= i < self.filters@.len() ==> #[trigger] call_requires(self.filters@[i], (k,))
    }

    /// Whether a neighbour can be given: the transaction sees the edge, and every filter can
    /// accept it.
    pub open spec fn acceptable(self, neighbor: NeighborKey) -> bool {
        &&& self.graph()@.edge_visible(neighbor.2, self.reader()@)
        &&& forall|i: int|
            0 <= i < self.predicates().len() ==> call_ensures(
                #[trigger] self.predicates()[i],
                (&neighbor,),
                true,
            )
    }

    /// Whether a neighbour can be passed over: the transaction does not see the edge, or some
    /// filter can refuse it.
    pub open spec fn refusable(self, neighbor: NeighborKey) -> bool {
        ||| !self.graph()@.edge_visible(neighbor.2, self.reader()@)
        ||| exists|i: int|
            0 <= i < self.predicates().len() && call_ensures(
                #[trigger] self.predicates()[i],
                (&neighbor,),
                false,
            )
    }

    /// Whether nothing but the position has changed.
    pub open spec fn same_walk(self, other: Self) -> bool {
        &&& self.neighbors() == other.neighbors()
        &&& self.graph() == other.graph()
        &&& self.reader() == other.reader()
        &&& self.predicates() == other.predicates()
    }

    /// Whether going on gives a neighbour: the first of those ahead that is not passed over.
    pub open spec fn gives(self, after: Self, neighbor: NeighborKey) -> bool {
        &&& after.same_walk(self)
        &&& after.neighbors().finite()
        &&& after.neighbors().contains(neighbor)
        &&& !self.passed(neighbor)
        &&& self.acceptable(neighbor)
        &&& after.given() == Some(neighbor)
        &&& after.moved_to(self, neighbor)
        &&& forall|k: NeighborKey| #[trigger]
            self.neighbors().contains(k) && !self.passed(k) && neighbor_before(k, neighbor)
                ==> self.refusable(k)
    }

    /// Whether going on gives nothing more: all that are ahead are passed over.
    pub open spec fn ends(self, after: Self) -> bool {
        &&& after.same_walk(self)
        &&& after.given() == self.given()
        &&& forall|k: NeighborKey| #[trigger]
            self.neighbors().contains(k) ==> after.passed(k) && (self.passed(k) || self.refusable(
                k,
            ))
    }

    /// Fetches the next batch: the first neighbour behind the current batch, and up to
    /// `BATCH_SIZE` more.
    fn load_next_batch(&mut self) -> (loaded: bool)
        requires
            old(self).wf(),
            old(self).current_index == old(self).current_entries@.len(),
        ensures
            final(self).wf(),
            final(self).same_walk(*old(self)),
            final(self).given() == old(self).given(),
            forall|k: NeighborKey|
                final(self).neighbors().contains(k) ==> (#[trigger] final(self).passed(k)
                    == old(self).passed(k)),
            loaded ==> final(self).current_index == 0 && 0 < final(self).current_entries@.len()
                <= BATCH_SIZE + 1,
            !loaded ==> final(self).current_index == final(self).current_entries@.len() && forall|
                k: NeighborKey,
            | #[trigger]
                old(self).neighbors().contains(k) ==> old(self).passed(k),
    {
        let first: NeighborKey = match &self.adj_list {
            None => {
                return false;
            },
            Some(list) => {
                let found = if self.current_entries.len() > 0 {
                    let last = self.current_entries[self.current_entries.len() - 1];
                    skip_set_after(list.set(), last)
                } else {
                    skip_set_front(list.set())
                };
                match found {
                    Some(first) => first,
                    None => {
                        return false;
                    },
                }
            },
        };
        let mut entries: Vec<NeighborKey> = Vec::new();
        entries.push(first);
        let mut current: NeighborKey = first;
        assert(entries@[0] == first);
        assert forall|k: NeighborKey| #[trigger]
            self.neighbors().contains(k) && !neighbor_before(k, first) && !neighbor_before(
                current,
                k,
            ) implies entries@.contains(k) by {
            assert(k == first);
        }
        for n in 0..BATCH_SIZE
            invariant
                self.wf(),
                *self == *old(self),
                self.adj_list is Some,
                self.neighbors().finite(),
                0 < entries@.len() <= n + 1,
                entries@[0] == first,
                entries@.last() == current,
                forall|i: int, j: int|
                    0 <= i < j < entries@.len() ==> neighbor_before(
                        #[trigger] entries@[i],
                        #[trigger] entries@[j],
                    ),
                forall|i: int|
                    0 <= i < entries@.len() ==> self.neighbors().contains(#[trigger] entries@[i]),
                forall|k: NeighborKey| #[trigger]
                    self.neighbors().contains(k) && !neighbor_before(k, first) && !neighbor_before(
                        current,
                        k,
                    ) ==> entries@.contains(k),
        {
            if let Some(list) = &self.adj_list {
                if let Some(next) = skip_set_after(list.set(), current) {
                    let ghost before = entries@;
                    entries.push(next);
                    proof {
                        assert forall|k: NeighborKey| #[trigger]
                            self.neighbors().contains(k) && !neighbor_before(k, first)
                                && !neighbor_before(next, k) implies entries@.contains(k) by {
                            if neighbor_before(current, k) {
                                assert(k == next);
                                assert(entries@[before.len() as int] == next);
                            } else {
                                assert(before.contains(k));
                                let j = choose|j: int| 0 <= j < before.len() && before[j] == k;
                                assert(entries@[j] == k);
                            }
                        }
                    }
                    current = next;
                } else {
                    break;
                }
            }
        }
        self.current_entries = entries;
        self.current_index = 0;
        true
    }

    /// An iterator over the neighbours of a vertex.
    pub fn new(
        store: &'a GraphStore,
        txn: &'a MemTransaction,
        vid: VertexId,
        direction: Direction,
    ) -> (iter: Self)
        requires
            store.wf(),
        ensures
            iter.wf(),
            iter.graph() == *store,
            iter.reader() == *txn,
            iter.neighbors() == neighbors_in(neighbors_of(store@.adjacency, vid), direction),
            iter.predicates() == Seq::<F>::empty(),
            iter.given() is None,
            forall|k: NeighborKey|
                iter.neighbors().contains(k) ==> !(#[trigger] iter.passed(k)),
    {
        let mut adj_list: Option<NeighborSet<'a>> = None;
        if let Some(container) = store.adjacency_list.get(vid) {
            assert(store@.adjacency[vid] == container@);
            match direction {
                Direction::Incoming => {
                    adj_list = Some(NeighborSet::Shared(&container.incoming));
                },
                Direction::Outgoing => {
                    adj_list = Some(NeighborSet::Shared(&container.outgoing));
                },
                Direction::Both => {
                    let mut combined = skip_set_new();
                    let incoming = skip_set_elements(&container.incoming);
                    for i in 0..incoming.len()
                        invariant
                            skip_set_contents(combined) == incoming@.take(i as int).to_set(),
                    {
                        skip_set_insert(&mut combined, incoming[i]);
                        proof {
                            assert(incoming@.take(i + 1) =~= incoming@.take(i as int).push(
                                incoming@[i as int],
                            ));
                            incoming@.take(i as int).lemma_push_to_set_commute(
                                incoming@[i as int],
                            );
                        }
                    }
                    let outgoing = skip_set_elements(&container.outgoing);
                    let ghost half = skip_set_contents(combined);
                    proof {
                        assert(incoming@.take(incoming@.len() as int) =~= incoming@);
                        assert(half =~= container@.incoming);
                        assert(outgoing@.take(0).to_set() =~= Set::empty());
                        assert(half.union(Set::empty()) =~= half);
                    }
                    for i in 0..outgoing.len()
                        invariant
                            skip_set_contents(combined) == half.union(
                                outgoing@.take(i as int).to_set(),
                            ),
                    {
                        skip_set_insert(&mut combined, outgoing[i]);
                        proof {
                            assert(outgoing@.take(i + 1) =~= outgoing@.take(i as int).push(
                                outgoing@[i as int],
                            ));
                            outgoing@.take(i as int).lemma_push_to_set_commute(
                                outgoing@[i as int],
                            );
                            assert(skip_set_contents(combined) =~= half.union(
                                outgoing@.take(i + 1).to_set(),
                            ));
                        }
                    }
                    proof {
                        assert(outgoing@.take(outgoing@.len() as int) =~= outgoing@);
                        assert(outgoing@.to_set() =~= container@.outgoing);
                    }
                    adj_list = Some(NeighborSet::Combined(combined));
                },
            }
        }
        let mut result = AdjacencyIterator {
            store,
            txn,
            adj_list,
            current_entries: Vec::new(),
            current_index: 0,
            filters: Vec::new(),
            current_adj: None,
        };
        assert(result.neighbors() == neighbors_in(neighbors_of(store@.adjacency, vid), direction))
            by {
            if !store@.adjacency.contains_key(vid) {
                assert(neighbors_in(neighbors_of(store@.adjacency, vid), direction)
                    =~= Set::<NeighborKey>::empty());
            }
        }
        result.load_next_batch();
        result
    }
}

impl<'a, F: Fn(&NeighborKey) -> bool> AdjacencyIterator<'a, F> {
    /// The neighbours that have not been gone through.
    pub open spec fn ahead(self) -> Set<NeighborKey> {
        self.neighbors().filter(|k: NeighborKey| !self.passed(k))
    }

    /// Whether the iterator has moved past a neighbour, and past no other behind it.
    pub open spec fn moved_to(self, before: Self, neighbor: NeighborKey) -> bool {
        forall|k: NeighborKey|
            self.neighbors().contains(k) ==> (#[trigger] self.passed(k) == (before.passed(k)
                || !neighbor_before(neighbor, k)))
    }

    proof fn lemma_fewer_ahead(self, before: Self, neighbor: NeighborKey)
        requires
            self.neighbors() == before.neighbors(),
            before.neighbors().finite(),
            before.neighbors().contains(neighbor),
            !before.passed(neighbor),
            self.passed(neighbor),
            forall|k: NeighborKey|
                self.neighbors().contains(k) && before.passed(k) ==> #[trigger] self.passed(k),
        ensures
            self.ahead().len() < before.ahead().len(),
            before.ahead().finite(),
    {
        let rest = before.ahead().remove(neighbor);
        assert(self.ahead().subset_of(rest));
        vstd::set_lib::lemma_len_subset(self.ahead(), rest);
    }

    /// Whether all filters accept a neighbour.
    fn passes_filters(&self, neighbor: &NeighborKey) -> (accepted: bool)
        requires
            self.wf(),
        ensures
            accepted ==> forall|i: int|
                0 <= i < self.predicates().len() ==> call_ensures(
                    #[trigger] self.predicates()[i],
                    (neighbor,),
                    true,
                ),
            !accepted ==> exists|i: int|
                0 <= i < self.predicates().len() && call_ensures(
                    #[trigger] self.predicates()[i],
                    (neighbor,),
                    false,
                ),
    {
        for i in 0..self.filters.len()
            invariant
                self.wf(),
                forall|j: int|
                    0 <= j < i ==> call_ensures(#[trigger] self.filters@[j], (neighbor,), true),
        {
            let filter = &self.filters[i];
            assert(call_requires(self.filters@[i as int], (neighbor,)));
            if !filter(neighbor) {
                assert(call_ensures(self.predicates()[i as int], (neighbor,), false));
                return false;
            }
        }
        true
    }

    /// The next neighbour that can be given.
    pub fn next(&mut self) -> (next: Option<StorageResult<NeighborKey>>)
        requires
            old(self).wf(),
        ensures
            final(self).wf(),
            final(self).same_walk(*old(self)),
            match next {
                Some(Ok(neighbor)) => old(self).gives(*final(self), neighbor),
                Some(Err(_)) => false,
                None => old(self).ends(*final(self)),
            },
    {
        if self.current_index >= self.current_entries.len() {
            if !self.load_next_batch() {
                return None;
            }
        }
        loop
            invariant
                self.wf(),
                self.same_walk(*old(self)),
                self.given() == old(self).given(),
                self.current_index < self.current_entries@.len(),
                self.current_entries@.len() <= usize::MAX,
                forall|k: NeighborKey|
                    self.neighbors().contains(k) ==> (old(self).passed(k) ==> #[trigger] self.passed(
                        k,
                    )),
                forall|k: NeighborKey|
                    self.neighbors().contains(k) && #[trigger] self.passed(k) ==> old(self).passed(
                        k,
                    ) || old(self).refusable(k),
            decreases self.ahead().len(),
        {
            let ghost before = *self;
            let entry: NeighborKey = self.current_entries[self.current_index];
            self.current_index = self.current_index + 1;
            proof {
                let entries = self.current_entries@;
                let at = before.current_index as int;
                assert(entries[at] == entry);
                assert(!before.passed(entry)) by {
                    if at > 0 {
                        assert(neighbor_before(entries[at - 1], entries[at]));
                    }
                }
                assert forall|k: NeighborKey| self.neighbors().contains(k) implies (
                #[trigger] self.passed(k) == (before.passed(k) || k == entry)) by {
                    if at > 0 {
                        assert(neighbor_before(entries[at - 1], entries[at]));
                    }
                    if self.passed(k) && !before.passed(k) && k != entry {
                        assert(neighbor_before(k, entry));
                        assert(!neighbor_before(entries.last(), k)) by {
                            if at < entries.len() - 1 {
                                assert(neighbor_before(entries[at], entries[entries.len() - 1]));
                            }
                        }
                        assert(!neighbor_before(k, entries[0])) by {
                            if at > 0 {
                                if at - 1 > 0 {
                                    assert(neighbor_before(entries[0], entries[at - 1]));
                                }
                            }
                        }
                        assert(entries.contains(k));
                        let j = choose|j: int| 0 <= j < entries.len() && entries[j] == k;
                        if j < at - 1 {
                            assert(neighbor_before(entries[j], entries[at - 1]));
                        } else if j > at {
                            assert(neighbor_before(entries[at], entries[j]));
                        }
                    }
                }
                self.lemma_fewer_ahead(before, entry);
            }
            let ghost stepped = *self;
            if self.store.is_edge_visible(entry.2, self.txn) && self.passes_filters(&entry) {
                self.current_adj = Some(entry);
                proof {
                    assert(stepped.predicates() == old(self).predicates());
                    assert forall|i: int| 0 <= i < old(self).predicates().len() implies call_ensures(
                        #[trigger] old(self).predicates()[i],
                        (&entry,),
                        true,
                    ) by {
                        assert(call_ensures(stepped.predicates()[i], (&entry,), true));
                    }
                    assert forall|k: NeighborKey| self.neighbors().contains(k) implies (
                    #[trigger] self.passed(k) == (old(self).passed(k) || !neighbor_before(
                        entry,
                        k,
                    ))) by {
                        assert(stepped.passed(k) == (before.passed(k) || k == entry));
                    }
                    assert forall|k: NeighborKey| #[trigger]
                        old(self).neighbors().contains(k) && !old(self).passed(k)
                            && neighbor_before(k, entry) implies old(self).refusable(k) by {
                        assert(stepped.passed(k));
                        assert(before.passed(k));
                    }
                }
                return Some(Ok(entry));
            }
            assert(old(self).refusable(entry));
            if self.current_index >= self.current_entries.len() {
                if !self.load_next_batch() {
                    return None;
                }
            }
            proof {
                assert(self.ahead() =~= stepped.ahead());
            }
        }
    }

    /// Adds a filter.
    pub fn filter(self, predicate: F) -> (iter: Self)
        requires
            self.wf(),
            forall|k: &NeighborKey| #[trigger] call_requires(predicate, (k,)),
        ensures
            iter.wf(),
            iter.neighbors() == self.neighbors(),
            iter.graph() == self.graph(),
            iter.reader() == self.reader(),
            iter.given() == self.given(),
            iter.predicates() == self.predicates().push(predicate),
            forall|k: NeighborKey| #[trigger] iter.passed(k) == self.passed(k),
    {
        let mut iter = self;
        iter.filters.push(predicate);
        iter
    }

    /// Whether an edge is not along any of the neighbours ahead: the transaction does not see it,
    /// or some filter can refuse it.
    pub open spec fn not_ahead(self, id: EdgeId) -> bool {
        forall|k: NeighborKey| #[trigger]
            self.neighbors().contains(k) && !self.passed(k) && k.2 == id ==> self.refusable(k)
    }

    /// The first neighbour ahead.
    fn peek(&self) -> (next: Option<NeighborKey>)
        requires
            self.wf(),
        ensures
            match next {
                Some(neighbor) => {
                    &&& self.neighbors().finite()
                    &&& self.neighbors().contains(neighbor) && !self.passed(neighbor)
                    &&& forall|k: NeighborKey| #[trigger]
                        self.neighbors().contains(k) && neighbor_before(k, neighbor)
                            ==> self.passed(k)
                },
                None => forall|k: NeighborKey| #[trigger]
                    self.neighbors().contains(k) ==> self.passed(k),
            },
    {
        let ghost entries = self.current_entries@;
        if self.current_index < self.current_entries.len() {
            let neighbor = self.current_entries[self.current_index];
            proof {
                let at = self.current_index as int;
                if at > 0 {
                    assert(neighbor_before(entries[at - 1], entries[at]));
                }
                assert forall|k: NeighborKey| #[trigger]
                    self.neighbors().contains(k) && neighbor_before(
                        k,
                        neighbor,
                    ) implies self.passed(k) by {
                    if !self.passed(k) && at > 0 {
                        if at - 1 > 0 {
                            assert(neighbor_before(entries[0], entries[at - 1]));
                        }
                        if at < entries.len() - 1 {
                            assert(neighbor_before(entries[at], entries[entries.len() - 1]));
                        }
                        assert(entries.contains(k));
                        let j = choose|j: int| 0 <= j < entries.len() && entries[j] == k;
                        if j < at - 1 {
                            assert(neighbor_before(entries[j], entries[at - 1]));
                        } else if j > at {
                            assert(neighbor_before(entries[at], entries[j]));
                        }
                    }
                }
            }
            return Some(neighbor);
        }
        match &self.adj_list {
            None => None,
            Some(list) => if self.current_entries.len() > 0 {
                let last = self.current_entries[self.current_entries.len() - 1];
                skip_set_after(list.set(), last)
            } else {
                skip_set_front(list.set())
            },
        }
    }

    /// The neighbour behind another one.
    fn peek_behind(&self, neighbor: NeighborKey) -> (next: Option<NeighborKey>)
        requires
            self.wf(),
            self.neighbors().contains(neighbor),
        ensures
            match next {
                Some(behind) => {
                    &&& self.neighbors().contains(behind)
                    &&& neighbor_before(neighbor, behind)
                    &&& forall|k: NeighborKey| #[trigger]
                        self.neighbors().contains(k) && neighbor_before(neighbor, k)
                            ==> !neighbor_before(k, behind)
                },
                None => forall|k: NeighborKey| #[trigger]
                    self.neighbors().contains(k) ==> !neighbor_before(neighbor, k),
            },
    {
        match &self.adj_list {
            None => None,
            Some(list) => skip_set_after(list.set(), neighbor),
        }
    }

    /// Looks for the neighbour along an edge among those ahead.
    fn find_ahead(&self, id: EdgeId) -> (found: Option<NeighborKey>)
        requires
            self.wf(),
        ensures
            match found {
                Some(neighbor) => {
                    &&& self.neighbors().finite()
                    &&& self.neighbors().contains(neighbor) && !self.passed(neighbor)
                    &&& self.acceptable(neighbor)
                    &&& neighbor.2 == id
                    &&& forall|k: NeighborKey| #[trigger]
                        self.neighbors().contains(k) && !self.passed(k) && neighbor_before(
                            k,
                            neighbor,
                        ) && k.2 == id ==> self.refusable(k)
                },
                None => self.not_ahead(id),
            },
    {
        let mut next = self.peek();
        loop
            invariant
                self.wf(),
                next is Some ==> self.neighbors().finite(),
                next matches Some(neighbor) ==> self.neighbors().contains(neighbor) && !self.passed(
                    neighbor,
                ),
                forall|k: NeighborKey| #[trigger]
                    self.neighbors().contains(k) && !self.passed(k) && k.2 == id && (
                    next matches Some(neighbor) ==> neighbor_before(k, neighbor))
                        ==> self.refusable(k),
            decreases
                    match next {
                        Some(neighbor) => 1 + self.from(neighbor).len(),
                        None => 0,
                    },
        {
            let neighbor = match next {
                None => {
                    return None;
                },
                Some(neighbor) => neighbor,
            };
            if neighbor.2 == id && self.store.is_edge_visible(id, self.txn) && self.passes_filters(
                &neighbor,
            ) {
                return Some(neighbor);
            }
            let behind = self.peek_behind(neighbor);
            proof {
                assert(neighbor.2 == id ==> self.refusable(neighbor));
                if let Some(later) = behind {
                    self.lemma_passed_closed(neighbor, later);
                    let rest = self.from(neighbor).remove(neighbor);
                    assert(self.from(later).subset_of(rest));
                    vstd::set_lib::lemma_len_subset(self.from(later), rest);
                }
            }
            next = behind;
        }
    }

    /// The neighbours from one on.
    spec fn from(self, neighbor: NeighborKey) -> Set<NeighborKey> {
        self.neighbors().filter(|k: NeighborKey| !neighbor_before(k, neighbor))
    }

    proof fn lemma_passed_closed(self, neighbor: NeighborKey, later: NeighborKey)
        requires
            !self.passed(neighbor),
            neighbor_before(neighbor, later),
        ensures
            !self.passed(later),
    {
    }

    /// Goes on to the neighbour along an edge, and says whether it is among those ahead. If it is
    /// not, goes on to the next neighbour along an edge with a greater number.
    pub fn seek(&mut self, id: EdgeId) -> (result: StorageResult<bool>)
        requires
            old(self).wf(),
        ensures
            final(self).wf(),
            final(self).same_walk(*old(self)),
            match result {
                Ok(true) => {
                    &&& final(self).given() matches Some(neighbor)
                    &&& !old(self).passed(neighbor) && old(self).neighbors().contains(neighbor)
                    &&& old(self).acceptable(neighbor)
                    &&& neighbor.2 == id
                    &&& final(self).moved_to(*old(self), neighbor)
                    &&& forall|k: NeighborKey| #[trigger]
                        old(self).neighbors().contains(k) && !old(self).passed(k)
                            && neighbor_before(k, neighbor) && k.2 == id ==> old(self).refusable(k)
                },
                Ok(false) => {
                    &&& old(self).not_ahead(id)
                    &&& {
                        ||| {
                            &&& final(self).given() matches Some(neighbor)
                            &&& !old(self).passed(neighbor) && old(self).neighbors().contains(
                                neighbor,
                            )
                            &&& old(self).acceptable(neighbor)
                            &&& neighbor.2 > id
                            &&& final(self).moved_to(*old(self), neighbor)
                            &&& forall|k: NeighborKey| #[trigger]
                                old(self).neighbors().contains(k) && !old(self).passed(k)
                                    && neighbor_before(k, neighbor) ==> old(self).refusable(k)
                                    || k.2 < id
                        }
                        ||| forall|k: NeighborKey| #[trigger]
                            old(self).neighbors().contains(k) ==> final(self).passed(k) && (
                            old(self).passed(k) || old(self).refusable(k) || k.2 < id)
                    }
                },
                Err(_) => false,
            },
    {
        if let Some(neighbor) = self.find_ahead(id) {
            let mut entries: Vec<NeighborKey> = Vec::new();
            entries.push(neighbor);
            self.current_entries = entries;
            self.current_index = 1;
            self.current_adj = Some(neighbor);
            proof {
                assert(self.current_entries@[0] == neighbor);
                assert forall|k: NeighborKey| self.neighbors().contains(k) implies (
                #[trigger] self.passed(k) == (old(self).passed(k) || !neighbor_before(
                    neighbor,
                    k,
                ))) by {
                    if old(self).passed(k) && neighbor_before(neighbor, k) {
                        old(self).lemma_passed_closed(neighbor, k);
                    }
                }
                assert forall|k: NeighborKey| #[trigger]
                    self.neighbors().contains(k) && !neighbor_before(k, neighbor)
                        && !neighbor_before(neighbor, k) implies self.current_entries@.contains(
                    k,
                ) by {
                    assert(k == neighbor);
                }
            }
            return Ok(true);
        }
        loop
            invariant
                old(self).not_ahead(id),
                self.wf(),
                self.same_walk(*old(self)),
                forall|k: NeighborKey|
                    self.neighbors().contains(k) ==> (old(self).passed(k) ==> #[trigger] self.passed(
                        k,
                    )),
                forall|k: NeighborKey|
                    self.neighbors().contains(k) && #[trigger] self.passed(k) ==> old(self).passed(
                        k,
                    ) || old(self).refusable(k) || k.2 < id,
                forall|k: NeighborKey, m: NeighborKey|
                    self.neighbors().contains(k) && self.neighbors().contains(m)
                        && #[trigger] self.passed(k) && !(#[trigger] self.passed(m))
                        ==> !neighbor_before(m, k) || old(self).passed(k),
            decreases self.ahead().len(),
        {
            let ghost before = *self;
            match self.next() {
                Some(Ok(entry)) => {
                    proof {
                        assert(self.passed(entry));
                        self.lemma_fewer_ahead(before, entry);
                    }
                    if entry.2 == id {
                        assert(self.given() == Some(entry));
                        assert(old(self).acceptable(entry));
                        assert forall|k: NeighborKey| self.neighbors().contains(k) implies (
                        #[trigger] self.passed(k) == (old(self).passed(k) || !neighbor_before(
                            entry,
                            k,
                        ))) by {
                            assert(before.passed(k) || !before.passed(k));
                            assert(!before.passed(entry));
                        }
                        return Ok(true);
                    }
                    if entry.2 > id {
                        assert(old(self).acceptable(entry));
                        assert forall|k: NeighborKey| self.neighbors().contains(k) implies (
                        #[trigger] self.passed(k) == (old(self).passed(k) || !neighbor_before(
                            entry,
                            k,
                        ))) by {
                            assert(before.passed(k) || !before.passed(k));
                            assert(!before.passed(entry));
                        }
                        return Ok(false);
                    }
                    assert forall|k: NeighborKey, m: NeighborKey|
                        self.neighbors().contains(k) && self.neighbors().contains(m)
                            && #[trigger] self.passed(k) && !(
                        #[trigger] self.passed(m)) implies !neighbor_before(m, k) || old(
                        self,
                    ).passed(k) by {
                        assert(before.passed(k) || !before.passed(k));
                        assert(!before.passed(m));
                    }
                },
                Some(Err(_)) => {},
                None => {
                    return Ok(false);
                },
            }
        }
    }

    /// The neighbour that was given last.
    pub fn current_entry(&self) -> (entry: Option<&NeighborKey>)
        ensures
            match self.given() {
                Some(neighbor) => entry == Some(&neighbor),
                None => entry is None,
            },
    {
        match &self.current_adj {
            Some(neighbor) => Some(neighbor),
            None => None,
        }
    }
}

impl MemTransaction {
    /// The neighbours of a vertex in both directions.
    pub fn iter_adjacency<'a, F: Fn(&NeighborKey) -> bool>(
        &'a self,
        store: &'a GraphStore,
        vid: VertexId,
    ) -> (iter: AdjacencyIterator<'a, F>)
        requires
            store.wf(),
        ensures
            iter.wf(),
            iter.graph() == *store,
            iter.reader() == *self,
            iter.neighbors() == neighbors_in(
                neighbors_of(store@.adjacency, vid),
                Direction::Both,
            ),
            iter.predicates() == Seq::<F>::empty(),
            iter.given() is None,
            forall|k: NeighborKey|
                iter.neighbors().contains(k) ==> !(#[trigger] iter.passed(k)),
    {
        AdjacencyIterator::new(store, self, vid, Direction::Both)
    }

    /// The neighbours of a vertex along the edges that start at it.
    pub fn iter_adjacency_outgoing<'a, F: Fn(&NeighborKey) -> bool>(
        &'a self,
        store: &'a GraphStore,
        vid: VertexId,
    ) -> (iter: AdjacencyIterator<'a, F>)
        requires
            store.wf(),
        ensures
            iter.wf(),
            iter.graph() == *store,
            iter.reader() == *self,
            iter.neighbors() == neighbors_in(
                neighbors_of(store@.adjacency, vid),
                Direction::Outgoing,
            ),
            iter.predicates() == Seq::<F>::empty(),
            iter.given() is None,
            forall|k: NeighborKey|
                iter.neighbors().contains(k) ==> !(#[trigger] iter.passed(k)),
    {
        AdjacencyIterator::new(store, self, vid, Direction::Outgoing)
    }

    /// The neighbours of a vertex along the edges that lead to it.
    pub fn iter_adjacency_incoming<'a, F: Fn(&NeighborKey) -> bool>(
        &'a self,
        store: &'a GraphStore,
        vid: VertexId,
    ) -> (iter: AdjacencyIterator<'a, F>)
        requires
            store.wf(),
        ensures
            iter.wf(),
            iter.graph() == *store,
            iter.reader() == *self,
            iter.neighbors() == neighbors_in(
                neighbors_of(store@.adjacency, vid),
                Direction::Incoming,
            ),
            iter.predicates() == Seq::<F>::empty(),
            iter.given() is None,
            forall|k: NeighborKey|
                iter.neighbors().contains(k) ==> !(#[trigger] iter.passed(k)),
    {
        AdjacencyIterator::new(store, self, vid, Direction::Incoming)
    }
}

} // verus!
