//! Iteration over the vertices of the graph.

use std::sync::Arc;

use vstd::prelude::*;

use crate::common::types::VertexId;
use crate::storage::error::StorageResult;
use crate::storage::properties::PropertyRecord;
use crate::storage::tp::model::{GraphStore, Vertex};
#[allow(unused_imports)]
use crate::storage::tp::model::VertexView;
use crate::storage::tp::transaction::MemTransaction;
#[allow(unused_imports)]
use crate::storage::tp::transaction::TxnView;

verus! {

/// An iterator over the vertices of the graph, as far as a transaction sees them and all filters
/// accept them.
pub struct VertexIterator<'a, F: Fn(&Vertex) -> bool> {
    store: &'a GraphStore,
    position: usize,
    filters: Vec<F>,
    current_vertex: Option<Vertex>,
}

impl<'a, F: Fn(&Vertex) -> bool> VertexIterator<'a, F> {
    /// The graph.
    pub closed spec fn graph(self) -> GraphStore {
        *self.store
    }

    /// The identifiers that are gone through.
    pub open spec fn keys(self) -> Seq<VertexId> {
        self.graph().vertices.key_seq()
    }

    /// How many identifiers have been gone through.
    pub closed spec fn passed(self) -> int {
        self.position as int
    }

    /// The filters.
    pub closed spec fn predicates(self) -> Seq<F> {
        self.filters@
    }

    /// The vertex that was given last.
    pub closed spec fn given(self) -> Option<VertexView> {
        match self.current_vertex {
            Some(vertex) => Some(vertex@),
            None => None,
        }
    }

    /// Whether the position is within the graph and every filter takes any vertex.
    pub closed spec fn wf(self) -> bool {
        &&& self.store.wf()
        &&& 0 <= self.passed() <= self.keys().len()
        &&& forall|i: int, vertex: &Vertex|
            0 <= i < self.filters@.len() ==> #[trigger] call_requires(self.filters@[i], (vertex,))
    }

    /// Whether every vertex can be read by a transaction.
    pub open spec fn readable(self, txn: TxnView) -> bool {
        forall|vid: VertexId| #[trigger]
            self.graph()@.vertices.contains_key(vid) ==> self.graph()@.vertex_readable(vid, txn)
    }

    /// Whether every filter can accept a vertex.
    pub open spec fn accepts(self, vertex: Vertex) -> bool {
        forall|i: int|
            0 <= i < self.predicates().len() ==> call_ensures(
                #[trigger] self.predicates()[i],
                (&vertex,),
                true,
            )
    }

    /// Whether some filter can refuse a vertex.
    pub open spec fn refuses(self, vertex: Vertex) -> bool {
        exists|i: int|
            0 <= i < self.predicates().len() && call_ensures(
                #[trigger] self.predicates()[i],
                (&vertex,),
                false,
            )
    }

    /// Whether the vertex with an identifier can be given.
    pub open spec fn acceptable(self, vid: VertexId, txn: TxnView) -> bool {
        &&& self.graph()@.vertex_visible(vid, txn)
        &&& exists|vertex: Vertex| #[trigger]
            self.accepts(vertex) && vertex@ == self.graph()@.vertex_seen(vid, txn)
    }

    /// Whether the vertex with an identifier can be passed over: the transaction does not see it,
    /// or some filter can refuse it.
    pub open spec fn refusable(self, vid: VertexId, txn: TxnView) -> bool {
        ||| !self.graph()@.vertex_visible(vid, txn)
        ||| exists|vertex: Vertex| #[trigger]
            self.refuses(vertex) && vertex@ == self.graph()@.vertex_seen(vid, txn)
    }

    /// Whether nothing but the position has changed.
    pub open spec fn same_walk(self, other: Self) -> bool {
        &&& self.graph() == other.graph()
        &&& self.predicates() == other.predicates()
    }

    /// An iterator over all vertices.
    pub fn new(store: &'a GraphStore) -> (iter: Self)
        requires
            store.wf(),
        ensures
            iter.wf(),
            iter.graph() == *store,
            iter.passed() == 0,
            iter.predicates() == Seq::<F>::empty(),
            iter.given() is None,
    {
        VertexIterator { store, position: 0, filters: Vec::new(), current_vertex: None }
    }

    /// Whether all filters accept a vertex.
    fn passes_filters(&self, vertex: &Vertex) -> (accepted: bool)
        requires
            self.wf(),
        ensures
            accepted ==> self.accepts(*vertex),
            !accepted ==> self.refuses(*vertex),
    {
        for i in 0..self.filters.len()
            invariant
                self.wf(),
                forall|j: int|
                    0 <= j < i ==> call_ensures(#[trigger] self.filters@[j], (vertex,), true),
        {
            let filter = &self.filters[i];
            assert(call_requires(self.filters@[i as int], (vertex,)));
            if !filter(vertex) {
                assert(call_ensures(self.predicates()[i as int], (vertex,), false));
                return false;
            }
        }
        true
    }

    /// The next vertex that can be given. It is noted as read.
    pub fn next(&mut self, txn: &mut MemTransaction) -> (next: Option<StorageResult<Vertex>>)
        requires
            old(self).wf(),
            old(self).readable(old(txn)@),
        ensures
            final(self).wf(),
            final(self).same_walk(*old(self)),
            match next {
                Some(Ok(vertex)) => {
                    let at = final(self).passed() - 1;
                    let vid = old(self).keys()[at];
                    &&& old(self).passed() <= at < old(self).keys().len()
                    &&& old(self).acceptable(vid, old(txn)@)
                    &&& vertex@ == old(self).graph()@.vertex_seen(vid, old(txn)@)
                    &&& final(self).given() == Some(vertex@)
                    &&& final(txn)@ == (TxnView {
                        vertex_reads: old(txn)@.vertex_reads.insert(vid),
                        ..old(txn)@
                    })
                    &&& forall|i: int|
                        old(self).passed() <= i < at ==> old(self).refusable(
                            #[trigger] old(self).keys()[i],
                            old(txn)@,
                        )
                },
                Some(Err(_)) => false,
                None => {
                    &&& final(self).passed() == old(self).keys().len()
                    &&& final(self).given() is None
                    &&& final(txn)@ == old(txn)@
                    &&& forall|i: int|
                        old(self).passed() <= i < old(self).keys().len() ==> old(self).refusable(
                            #[trigger] old(self).keys()[i],
                            old(txn)@,
                        )
                },
            },
    {
        let count: usize = self.store.vertices.len();
        while self.position < count
            invariant
                self.wf(),
                self.same_walk(*old(self)),
                self.readable(txn@),
                txn@ == old(txn)@,
                count == self.keys().len(),
                old(self).passed() <= self.passed(),
                forall|i: int|
                    old(self).passed() <= i < self.passed() ==> old(self).refusable(
                        #[trigger] old(self).keys()[i],
                        old(txn)@,
                    ),
            decreases count - self.position,
        {
            let vid = self.store.vertices.key_at(self.position);
            self.position = self.position + 1;
            match self.store.get_visible_vertex(vid, txn) {
                Err(_) => {
                    assert(old(self).refusable(vid, old(txn)@));
                },
                Ok(vertex) => {
                    if self.passes_filters(&vertex) {
                        assert(old(self).accepts(vertex)) by {
                            assert(self.accepts(vertex));
                            assert(self.predicates() == old(self).predicates());
                        }
                        txn.note_vertex_read(vid);
                        self.current_vertex = Some(vertex.duplicate());
                        return Some(Ok(vertex));
                    }
                    assert(old(self).refuses(vertex)) by {
                        assert(self.refuses(vertex));
                        assert(self.predicates() == old(self).predicates());
                    }
                    assert(old(self).refusable(vid, old(txn)@));
                },
            }
        }
        self.current_vertex = None;
        None
    }

    /// Adds a filter.
    pub fn filter(self, predicate: F) -> (iter: Self)
        requires
            self.wf(),
            forall|vertex: &Vertex| #[trigger] call_requires(predicate, (vertex,)),
        ensures
            iter.wf(),
            iter.graph() == self.graph(),
            iter.passed() == self.passed(),
            iter.given() == self.given(),
            iter.predicates() == self.predicates().push(predicate),
    {
        let mut iter = self;
        iter.filters.push(predicate);
        iter
    }

    /// Whether the vertex with an identifier can be passed over by a search: it can be refused, or
    /// it comes before what is sought, and is noted as read.
    pub open spec fn passed_over(
        self,
        vid: VertexId,
        id: VertexId,
        txn: TxnView,
        txn_after: TxnView,
    ) -> bool {
        ||| self.refusable(vid, txn)
        ||| {
            &&& self.acceptable(vid, txn)
            &&& self.graph()@.vertex_seen(vid, txn).vid < id
            &&& txn_after.vertex_reads.contains(vid)
        }
    }

    /// Whether the vertex with an identifier can be passed on the way to what is sought: it can be
    /// refused, or it is noted as read.
    pub open spec fn passed_by(self, vid: VertexId, txn: TxnView, txn_after: TxnView) -> bool {
        ||| self.refusable(vid, txn)
        ||| self.acceptable(vid, txn) && txn_after.vertex_reads.contains(vid)
    }

    /// Whether none of the vertices to come is what is sought: the transaction does not see it, or
    /// some filter can refuse it.
    pub open spec fn not_ahead(self, id: VertexId, txn: TxnView) -> bool {
        forall|i: int|
            self.passed() <= i < self.keys().len() && self.graph()@.vertex_seen(
                #[trigger] self.keys()[i],
                txn,
            ).vid == id ==> self.refusable(self.keys()[i], txn)
    }

    /// Whether a vertex was noted as read with reason: it was before, or it can have been given
    /// between two positions.
    pub open spec fn noted(self, vid: VertexId, txn: TxnView, to: int) -> bool {
        ||| txn.vertex_reads.contains(vid)
        ||| exists|i: int|
            self.passed() <= i < to && #[trigger] self.keys()[i] == vid && self.acceptable(
                vid,
                txn,
            )
    }

    proof fn lemma_same_reader(self, a: TxnView, b: TxnView)
        requires
            a.txn_id == b.txn_id,
            a.start_ts == b.start_ts,
        ensures
            self.readable(a) == self.readable(b),
            forall|vid: VertexId| #[trigger] self.acceptable(vid, a) == self.acceptable(vid, b),
            forall|vid: VertexId| #[trigger] self.refusable(vid, a) == self.refusable(vid, b),
            forall|vid: VertexId| #[trigger]
                self.graph()@.vertex_seen(vid, a) == self.graph()@.vertex_seen(vid, b),
    {
        let store = self.graph()@;
        assert forall|vid: VertexId| #[trigger]
            store.vertex_seen(vid, a) == store.vertex_seen(vid, b) && store.vertex_readable(vid, a)
            == store.vertex_readable(vid, b) && store.vertex_visible(vid, a)
            == store.vertex_visible(vid, b) by {
            assert(store.vertex_way(vid, a) == store.vertex_way(vid, b));
        }
        assert forall|vid: VertexId| #[trigger]
            self.acceptable(vid, a) == self.acceptable(vid, b) by {
            assert(store.vertex_seen(vid, a) == store.vertex_seen(vid, b));
        }
        assert forall|vid: VertexId| #[trigger]
            self.refusable(vid, a) == self.refusable(vid, b) by {
            assert(store.vertex_seen(vid, a) == store.vertex_seen(vid, b));
        }
        assert forall|vid: VertexId| #[trigger] store.vertices.contains_key(vid) implies (
        store.vertex_readable(vid, a) == store.vertex_readable(vid, b)) by {
            assert(store.vertex_seen(vid, a) == store.vertex_seen(vid, b));
        }
    }

    /// Looks for the vertex with an identifier among those to come.
    fn find_ahead(&self, txn: &MemTransaction, id: VertexId) -> (found: Option<(usize, Vertex)>)
        requires
            self.wf(),
            self.readable(txn@),
        ensures
            match found {
                Some((at, vertex)) => {
                    &&& self.passed() <= at < self.keys().len()
                    &&& self.acceptable(self.keys()[at as int], txn@)
                    &&& vertex@ == self.graph()@.vertex_seen(self.keys()[at as int], txn@)
                    &&& vertex.vid == id
                },
                None => self.not_ahead(id, txn@),
            },
    {
        let count: usize = self.store.vertices.len();
        let mut at: usize = self.position;
        while at < count
            invariant
                self.wf(),
                self.readable(txn@),
                count == self.keys().len(),
                self.passed() <= at <= count,
                forall|i: int|
                    self.passed() <= i < at && self.graph()@.vertex_seen(
                        #[trigger] self.keys()[i],
                        txn@,
                    ).vid == id ==> self.refusable(self.keys()[i], txn@),
            decreases count - at,
        {
            let vid = self.store.vertices.key_at(at);
            if let Ok(vertex) = self.store.get_visible_vertex(vid, txn) {
                if vertex.vid == id {
                    if self.passes_filters(&vertex) {
                        assert(self.acceptable(vid, txn@));
                        return Some((at, vertex));
                    }
                    assert(self.refusable(vid, txn@));
                }
            }
            at = at + 1;
        }
        None
    }

    /// Goes on to a position. All vertices that could be given on the way are noted as read.
    fn pass_until(&mut self, txn: &mut MemTransaction, at: usize)
        requires
            old(self).wf(),
            old(self).readable(old(txn)@),
            old(self).passed() <= at <= old(self).keys().len(),
        ensures
            final(self).wf(),
            final(self).same_walk(*old(self)),
            final(self).passed() == at,
            final(txn)@ == (TxnView { vertex_reads: final(txn)@.vertex_reads, ..old(txn)@ }),
            forall|vid: VertexId| #[trigger]
                old(txn)@.vertex_reads.contains(vid) ==> final(txn)@.vertex_reads.contains(vid),
            forall|vid: VertexId| #[trigger]
                final(txn)@.vertex_reads.contains(vid) ==> old(self).noted(
                    vid,
                    old(txn)@,
                    at as int,
                ),
            forall|i: int|
                old(self).passed() <= i < at ==> old(self).passed_by(
                    #[trigger] old(self).keys()[i],
                    old(txn)@,
                    final(txn)@,
                ),
    {
        while self.position < at
            invariant
                self.wf(),
                self.same_walk(*old(self)),
                self.readable(txn@),
                txn@ == (TxnView { vertex_reads: txn@.vertex_reads, ..old(txn)@ }),
                old(self).passed() <= self.passed() <= at <= self.keys().len(),
                forall|vid: VertexId| #[trigger]
                    old(txn)@.vertex_reads.contains(vid) ==> txn@.vertex_reads.contains(vid),
                forall|vid: VertexId| #[trigger]
                    txn@.vertex_reads.contains(vid) ==> old(self).noted(
                        vid,
                        old(txn)@,
                        self.passed(),
                    ),
                forall|i: int|
                    old(self).passed() <= i < self.passed() ==> old(self).passed_by(
                        #[trigger] old(self).keys()[i],
                        old(txn)@,
                        txn@,
                    ),
            decreases at - self.position,
        {
            let ghost before = *self;
            let ghost before_txn = txn@;
            let vid = self.store.vertices.key_at(self.position);
            let mut accepted = false;
            if let Ok(vertex) = self.store.get_visible_vertex(vid, txn) {
                accepted = self.passes_filters(&vertex);
                if accepted {
                    assert(self.acceptable(vid, before_txn));
                    txn.note_vertex_read(vid);
                } else {
                    assert(self.refusable(vid, before_txn));
                }
            }
            self.position = self.position + 1;
            proof {
                old(self).lemma_same_reader(old(txn)@, before_txn);
                old(self).lemma_same_reader(old(txn)@, txn@);
                old(self).lemma_same_walk(before, vid, before_txn);
                assert(vid == old(self).keys()[before.passed()]);
                assert forall|i: int| old(self).passed() <= i < self.passed() implies old(
                    self,
                ).passed_by(#[trigger] old(self).keys()[i], old(txn)@, txn@) by {
                    if i < before.passed() {
                        assert(old(self).passed_by(old(self).keys()[i], old(txn)@, before_txn));
                    }
                }
                assert forall|other: VertexId| #[trigger]
                    txn@.vertex_reads.contains(other) implies old(self).noted(
                    other,
                    old(txn)@,
                    self.passed(),
                ) by {
                    if before_txn.vertex_reads.contains(other) {
                        assert(old(self).noted(other, old(txn)@, before.passed()));
                    } else {
                        assert(old(self).acceptable(vid, old(txn)@));
                    }
                }
            }
        }
    }

    /// Goes on to the vertex with an identifier, and says whether it is among those to come. If it
    /// is not, goes on to the next vertex with a greater identifier. All vertices that were given
    /// on the way are noted as read.
    pub fn seek(&mut self, txn: &mut MemTransaction, id: VertexId) -> (result: StorageResult<bool>)
        requires
            old(self).wf(),
            old(self).readable(old(txn)@),
        ensures
            final(self).wf(),
            final(self).same_walk(*old(self)),
            final(txn)@ == (TxnView { vertex_reads: final(txn)@.vertex_reads, ..old(txn)@ }),
            forall|vid: VertexId| #[trigger]
                old(txn)@.vertex_reads.contains(vid) ==> final(txn)@.vertex_reads.contains(vid),
            forall|vid: VertexId| #[trigger]
                final(txn)@.vertex_reads.contains(vid) ==> old(self).noted(
                    vid,
                    old(txn)@,
                    final(self).passed(),
                ),
            match final(self).given() {
                Some(vertex) => {
                    let at = final(self).passed() - 1;
                    let vid = old(self).keys()[at];
                    &&& old(self).passed() <= at < old(self).keys().len()
                    &&& old(self).acceptable(vid, old(txn)@)
                    &&& vertex == old(self).graph()@.vertex_seen(vid, old(txn)@)
                    &&& vertex.vid >= id
                    &&& result matches Ok(found) && found == (vertex.vid == id)
                    &&& final(txn)@.vertex_reads.contains(vid)
                    &&& vertex.vid != id ==> old(self).not_ahead(id, old(txn)@)
                    &&& forall|i: int|
                        old(self).passed() <= i < at ==> if vertex.vid == id {
                            old(self).passed_by(
                                #[trigger] old(self).keys()[i],
                                old(txn)@,
                                final(txn)@,
                            )
                        } else {
                            old(self).passed_over(old(self).keys()[i], id, old(txn)@, final(txn)@)
                        }
                },
                None => {
                    &&& result matches Ok(found) && !found
                    &&& old(self).not_ahead(id, old(txn)@)
                    &&& final(self).passed() == old(self).keys().len()
                    &&& forall|i: int|
                        old(self).passed() <= i < old(self).keys().len() ==> old(
                            self,
                        ).passed_over(
                            #[trigger] old(self).keys()[i],
                            id,
                            old(txn)@,
                            final(txn)@,
                        )
                },
            },
    {
        if let Some((at, vertex)) = self.find_ahead(txn, id) {
            let ghost vid = self.keys()[at as int];
            self.pass_until(txn, at);
            let ghost before_txn = txn@;
            let count: usize = self.store.vertices.len();
            assert(at < count);
            let key = self.store.vertices.key_at(at);
            self.position = at + 1;
            txn.note_vertex_read(key);
            self.current_vertex = Some(vertex);
            proof {
                assert(key == vid);
                assert forall|other: VertexId| #[trigger]
                    txn@.vertex_reads.contains(other) implies old(self).noted(
                    other,
                    old(txn)@,
                    self.passed(),
                ) by {
                    if before_txn.vertex_reads.contains(other) {
                        assert(old(self).noted(other, old(txn)@, at as int));
                    } else {
                        assert(old(self).keys()[at as int] == other);
                    }
                }
                assert forall|i: int| old(self).passed() <= i < at implies old(self).passed_by(
                    #[trigger] old(self).keys()[i],
                    old(txn)@,
                    txn@,
                ) by {
                    assert(old(self).passed_by(old(self).keys()[i], old(txn)@, before_txn));
                }
            }
            return Ok(true);
        }
        loop
            invariant
                old(self).not_ahead(id, old(txn)@),
                self.wf(),
                self.same_walk(*old(self)),
                self.readable(txn@),
                txn@ == (TxnView { vertex_reads: txn@.vertex_reads, ..old(txn)@ }),
                old(self).passed() <= self.passed() <= self.keys().len(),
                forall|vid: VertexId| #[trigger]
                    old(txn)@.vertex_reads.contains(vid) ==> txn@.vertex_reads.contains(vid),
                forall|vid: VertexId| #[trigger]
                    txn@.vertex_reads.contains(vid) ==> old(self).noted(
                        vid,
                        old(txn)@,
                        self.passed(),
                    ),
                forall|i: int|
                    old(self).passed() <= i < self.passed() ==> old(self).passed_over(
                        #[trigger] old(self).keys()[i],
                        id,
                        old(txn)@,
                        txn@,
                    ),
            decreases self.keys().len() - self.passed(),
        {
            let ghost before = *self;
            let ghost before_txn = txn@;
            let next = self.next(txn);
            proof {
                old(self).lemma_same_reader(old(txn)@, before_txn);
                old(self).lemma_same_reader(old(txn)@, txn@);
                assert forall|i: int| before.passed() <= i < old(self).keys().len() implies (
                before.refusable(#[trigger] old(self).keys()[i], before_txn) == old(
                    self,
                ).refusable(old(self).keys()[i], old(txn)@)) by {
                    old(self).lemma_same_walk(before, old(self).keys()[i], before_txn);
                }
                assert forall|i: int| old(self).passed() <= i < before.passed() implies old(
                    self,
                ).passed_over(#[trigger] old(self).keys()[i], id, old(txn)@, txn@) by {
                    assert(old(self).passed_over(old(self).keys()[i], id, old(txn)@, before_txn));
                }
                assert forall|vid: VertexId| #[trigger]
                    before_txn.vertex_reads.contains(vid) implies old(self).noted(
                    vid,
                    old(txn)@,
                    self.passed(),
                ) by {
                    assert(old(self).noted(vid, old(txn)@, before.passed()));
                }
            }
            match next {
                Some(Ok(vertex)) => {
                    proof {
                        let vid = old(self).keys()[self.passed() - 1];
                        old(self).lemma_same_walk(before, vid, before_txn);
                        assert(old(self).acceptable(vid, old(txn)@));
                        assert(old(self).noted(vid, old(txn)@, self.passed()));
                    }
                    if vertex.vid == id {
                        return Ok(true);
                    }
                    if vertex.vid > id {
                        return Ok(false);
                    }
                },
                Some(Err(_)) => {},
                None => {
                    return Ok(false);
                },
            }
        }
    }

    proof fn lemma_same_walk(self, other: Self, vid: VertexId, txn: TxnView)
        requires
            self.same_walk(other),
        ensures
            self.acceptable(vid, txn) == other.acceptable(vid, txn),
            self.refusable(vid, txn) == other.refusable(vid, txn),
    {
        assert forall|vertex: Vertex| #[trigger] self.accepts(vertex) == other.accepts(vertex) by {
        }
        assert forall|vertex: Vertex| #[trigger] self.refuses(vertex) == other.refuses(vertex) by {
        }
        assert forall|vertex: Vertex| #[trigger] other.accepts(vertex) == self.accepts(vertex) by {
        }
        assert forall|vertex: Vertex| #[trigger] other.refuses(vertex) == self.refuses(vertex) by {
        }
    }

    /// The vertex that was given last.
    pub fn vertex(&self) -> (vertex: Option<&Vertex>)
        ensures
            match vertex {
                Some(vertex) => self.given() == Some(vertex@),
                None => self.given() is None,
            },
    {
        match &self.current_vertex {
            Some(vertex) => Some(vertex),
            None => None,
        }
    }

    /// The properties of the vertex that was given last.
    pub fn properties(&self) -> (properties: Vec<Arc<PropertyRecord>>)
        ensures
            match self.given() {
                Some(vertex) => properties@.len() == 1 && properties@[0]@ == vertex.properties,
                None => properties@.len() == 0,
            },
    {
        let mut properties: Vec<Arc<PropertyRecord>> = Vec::new();
        if let Some(vertex) = &self.current_vertex {
            properties.push(Arc::new(vertex.properties.duplicate()));
        }
        properties
    }
}

impl MemTransaction {
    /// All vertices of the graph.
    pub fn iter_vertices<'a, F: Fn(&Vertex) -> bool>(&self, store: &'a GraphStore) -> (iter:
        VertexIterator<'a, F>)
        requires
            store.wf(),
        ensures
            iter.wf(),
            iter.graph() == *store,
            iter.passed() == 0,
            iter.predicates() == Seq::<F>::empty(),
            iter.given() is None,
    {
        VertexIterator::new(store)
    }
}

} // verus!
