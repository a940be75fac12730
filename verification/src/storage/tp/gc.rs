//! Garbage collection of committed transactions and of what they deleted.

use vstd::prelude::*;

use super::manager::{ManagerView, MemTxnManager, PERIODIC_GC_THRESHOLD};
use super::model::{Adjacency, DeltaOp, DeltaView, GraphStore, StoreView, UndoView};
#[allow(unused_imports)]
use super::model::{adjacency_view, with_adjacency, without_incoming, without_outgoing};
use crate::collections::skip::{
    skip_map_entries, skip_map_remove, skip_set_elements, NeighborKey,
};
#[allow(unused_imports)]
use crate::collections::skip::{skip_map_contents, skip_set_contents};
use crate::collections::slot_map::SlotMap;
use crate::common::types::{EdgeId, LabelId, VertexId};
use crate::storage::error::StorageResult;

verus! {

/// An edge that a committed transaction deleted.
#[derive(Debug, Clone, Copy, PartialEq, Eq, Structural)]
pub struct ExpiredEdge {
    /// The source.
    pub src_id: VertexId,
    /// The destination.
    pub dst_id: VertexId,
    /// The label.
    pub label_id: LabelId,
}

/// The deleted edges, after one more undo entry. An entry that would create an edge again tells
/// that the edge was deleted; one that would delete it tells that it was created.
pub open spec fn noted(expired: Map<EdgeId, ExpiredEdge>, delta: DeltaView) -> Map<
    EdgeId,
    ExpiredEdge,
> {
    match delta {
        DeltaView::CreateEdge(edge) => expired.insert(
            edge.eid,
            ExpiredEdge { src_id: edge.src_id, dst_id: edge.dst_id, label_id: edge.label_id },
        ),
        DeltaView::DelEdge(eid) => expired.remove(eid),
        _ => expired,
    }
}

/// The deleted edges, after the undo entries from the `i`th on.
pub open spec fn noted_all(
    undo: Map<u64, UndoView>,
    keys: Seq<u64>,
    expired: Map<EdgeId, ExpiredEdge>,
    i: int,
) -> Map<EdgeId, ExpiredEdge>
    decreases keys.len() - i,
{
    if i < 0 || i >= keys.len() {
        expired
    } else if undo.contains_key(keys[i]) {
        noted_all(undo, keys, noted(expired, undo[keys[i]].delta), i + 1)
    } else {
        noted_all(undo, keys, expired, i + 1)
    }
}

/// The deleted vertices, after one more undo entry. An entry that would create a vertex again tells
/// that the vertex was deleted; one that would delete it tells that it was created.
pub open spec fn vertex_noted(expired: Set<VertexId>, delta: DeltaView) -> Set<VertexId> {
    match delta {
        DeltaView::CreateVertex(vertex) => expired.insert(vertex.vid),
        DeltaView::DelVertex(vid) => expired.remove(vid),
        _ => expired,
    }
}

/// The deleted vertices, after the undo entries from the `i`th on.
pub open spec fn vertices_noted(
    undo: Map<u64, UndoView>,
    keys: Seq<u64>,
    expired: Set<VertexId>,
    i: int,
) -> Set<VertexId>
    decreases keys.len() - i,
{
    if i < 0 || i >= keys.len() {
        expired
    } else if undo.contains_key(keys[i]) {
        vertices_noted(undo, keys, vertex_noted(expired, undo[keys[i]].delta), i + 1)
    } else {
        vertices_noted(undo, keys, expired, i + 1)
    }
}

/// The deleted vertices, after the transactions that were committed from the `i`th timestamp on, as
/// far as no active transaction can miss them.
pub open spec fn expired_vertices(
    manager: ManagerView,
    undo: Map<u64, UndoView>,
    commits: Seq<u64>,
    expired: Set<VertexId>,
    i: int,
) -> Set<VertexId>
    decreases commits.len() - i,
{
    if i < 0 || i >= commits.len() || commits[i] >= manager.watermark {
        expired
    } else {
        expired_vertices(
            manager,
            undo,
            commits,
            vertices_noted(undo, manager.committed_undo[commits[i]], expired, 0),
            i + 1,
        )
    }
}

/// The deleted edges, after the transactions that were committed from the `i`th timestamp on, as
/// far as no active transaction can miss them.
pub open spec fn expired_edges(
    manager: ManagerView,
    undo: Map<u64, UndoView>,
    commits: Seq<u64>,
    expired: Map<EdgeId, ExpiredEdge>,
    i: int,
) -> Map<EdgeId, ExpiredEdge>
    decreases commits.len() - i,
{
    if i < 0 || i >= commits.len() || commits[i] >= manager.watermark {
        expired
    } else {
        expired_edges(
            manager,
            undo,
            commits,
            noted_all(undo, manager.committed_undo[commits[i]], expired, 0),
            i + 1,
        )
    }
}

/// Whether a sequence has the keys of a map in ascending order.
pub open spec fn ascending(keys: Seq<u64>, map: Map<u64, u64>) -> bool {
    &&& forall|i: int, j: int|
        0 <= i < j < keys.len() ==> (#[trigger] keys[i]) < (#[trigger] keys[j])
    &&& forall|key: u64| #[trigger] keys.contains(key) <==> map.contains_key(key)
}

/// Whether a sequence has each key of a map once.
pub open spec fn enumerates(keys: Seq<u64>, map: Map<EdgeId, ExpiredEdge>) -> bool {
    &&& keys.no_duplicates()
    &&& forall|key: u64| #[trigger] keys.contains(key) <==> map.contains_key(key)
}

/// Whether a sequence has each vertex of a set once.
pub open spec fn enumerates_vertices(keys: Seq<VertexId>, set: Set<VertexId>) -> bool {
    &&& keys.no_duplicates()
    &&& forall|key: VertexId| #[trigger] keys.contains(key) <==> set.contains(key)
}

/// Whether a vertex is there and was deleted.
pub open spec fn vertex_dead(store: StoreView, vid: VertexId) -> bool {
    store.vertices.contains_key(vid) && store.vertices[vid].data.is_tombstone
}

/// Whether an edge is there and was deleted.
pub open spec fn edge_dead(store: StoreView, eid: EdgeId) -> bool {
    store.edges.contains_key(eid) && store.edges[eid].data.is_tombstone
}

/// The neighbours after a vertex was removed: neither it nor its edges are left.
pub open spec fn adjacency_without(adjacency: Map<VertexId, Adjacency>, vid: VertexId) -> Map<
    VertexId,
    Adjacency,
> {
    if !adjacency.contains_key(vid) {
        adjacency
    } else {
        Map::new(
            |n: VertexId| adjacency.contains_key(n) && n != vid,
            |n: VertexId|
                Adjacency {
                    incoming: adjacency[n].incoming.filter(
                        |k: NeighborKey|
                            !(k.1 == vid && adjacency[vid].outgoing.contains((k.0, n, k.2))),
                    ),
                    outgoing: adjacency[n].outgoing.filter(
                        |k: NeighborKey|
                            !(k.1 == vid && adjacency[vid].incoming.contains((k.0, n, k.2))),
                    ),
                },
        )
    }
}

/// The graph without a vertex.
pub open spec fn without_vertex(store: StoreView, vid: VertexId) -> StoreView {
    StoreView {
        vertices: store.vertices.remove(vid),
        adjacency: adjacency_without(store.adjacency, vid),
        ..store
    }
}

/// The graph without an edge.
pub open spec fn without_edge(store: StoreView, eid: EdgeId, edge: ExpiredEdge) -> StoreView {
    StoreView {
        edges: store.edges.remove(eid),
        adjacency: with_adjacency(
            with_adjacency(
                store.adjacency,
                edge.src_id,
                without_outgoing((edge.label_id, edge.dst_id, eid)),
            ),
            edge.dst_id,
            without_incoming((edge.label_id, edge.src_id, eid)),
        ),
        ..store
    }
}

/// The graph after what a deleted edge leaves behind was removed: its end points and itself, as
/// far as they were deleted.
pub open spec fn swept_edge(store: StoreView, eid: EdgeId, edge: ExpiredEdge) -> StoreView {
    let without_src = if vertex_dead(store, edge.src_id) {
        without_vertex(store, edge.src_id)
    } else {
        store
    };
    let without_ends = if vertex_dead(store, edge.dst_id) {
        without_vertex(without_src, edge.dst_id)
    } else {
        without_src
    };
    if edge_dead(store, eid) {
        without_edge(without_ends, eid, edge)
    } else {
        without_ends
    }
}

/// The graph after what the deleted edges from the `i`th on leave behind was removed.
pub open spec fn swept(
    store: StoreView,
    expired: Map<EdgeId, ExpiredEdge>,
    order: Seq<EdgeId>,
    i: int,
) -> StoreView
    decreases order.len() - i,
{
    if i < 0 || i >= order.len() {
        store
    } else {
        swept(swept_edge(store, order[i], expired[order[i]]), expired, order, i + 1)
    }
}

/// The graph after the deleted vertices from the `i`th on were removed, as far as they are still
/// deleted.
pub open spec fn vertices_swept(store: StoreView, order: Seq<VertexId>, i: int) -> StoreView
    decreases order.len() - i,
{
    if i < 0 || i >= order.len() {
        store
    } else if vertex_dead(store, order[i]) {
        vertices_swept(without_vertex(store, order[i]), order, i + 1)
    } else {
        vertices_swept(store, order, i + 1)
    }
}

/// Whether an undo entry belongs to a transaction that no active transaction can miss.
pub open spec fn undo_expired(manager: ManagerView, key: u64) -> bool {
    exists|ts: u64| #[trigger]
        manager.committed_undo.contains_key(ts) && ts < manager.watermark
            && manager.committed_undo[ts].contains(key)
}

/// The manager without the transactions that no active transaction can miss.
pub open spec fn forgotten(manager: ManagerView) -> ManagerView {
    ManagerView {
        committed: Map::new(
            |ts: u64| manager.committed.contains_key(ts) && ts >= manager.watermark,
            |ts: u64| manager.committed[ts],
        ),
        committed_undo: Map::new(
            |ts: u64| manager.committed_undo.contains_key(ts) && ts >= manager.watermark,
            |ts: u64| manager.committed_undo[ts],
        ),
        ..manager
    }
}

/// The graph without the undo entries of the transactions that no active transaction can miss.
pub open spec fn undo_forgotten(store: StoreView, manager: ManagerView) -> StoreView {
    StoreView {
        undo: Map::new(
            |key: u64| store.undo.contains_key(key) && !undo_expired(manager, key),
            |key: u64| store.undo[key],
        ),
        ..store
    }
}

/// Whether removing what the expired transactions deleted, in some orders, leads to a graph.
pub open spec fn sweeps(
    manager: ManagerView,
    store: StoreView,
    commits: Seq<u64>,
    edge_order: Seq<EdgeId>,
    vertex_order: Seq<VertexId>,
    store_after: StoreView,
) -> bool {
    let edges = expired_edges(manager, store.undo, commits, Map::empty(), 0);
    let vertices = expired_vertices(manager, store.undo, commits, Set::empty(), 0);
    &&& ascending(commits, manager.committed)
    &&& enumerates(edge_order, edges)
    &&& enumerates_vertices(vertex_order, vertices)
    &&& store_after == vertices_swept(
        swept(undo_forgotten(store, manager), edges, edge_order, 0),
        vertex_order,
        0,
    )
}

/// Whether garbage collection leads from one state to another. In which order the deleted edges
/// and vertices are gone through is left open.
pub open spec fn collects(
    manager: ManagerView,
    store: StoreView,
    manager_after: ManagerView,
    store_after: StoreView,
) -> bool {
    &&& manager_after == forgotten(manager)
    &&& exists|commits: Seq<u64>, edge_order: Seq<EdgeId>, vertex_order: Seq<VertexId>| #[trigger]
        sweeps(manager, store, commits, edge_order, vertex_order, store_after)
}

/// Whether enough time has passed since the last garbage collection.
pub open spec fn gc_due(manager: ManagerView) -> bool {
    manager.watermark - manager.last_gc_ts > PERIODIC_GC_THRESHOLD
}

/// Whether periodic garbage collection leads from one state to another.
pub open spec fn collects_periodically(
    manager: ManagerView,
    store: StoreView,
    manager_after: ManagerView,
    store_after: StoreView,
) -> bool {
    if gc_due(manager) {
        &&& manager_after.last_gc_ts == manager.watermark
        &&& collects(
            manager,
            store,
            ManagerView { last_gc_ts: manager.last_gc_ts, ..manager_after },
            store_after,
        )
    } else {
        manager_after == manager && store_after == store
    }
}

/// The neighbours after a vertex's edges among the first `outs` and `ins` were removed from the
/// other ends.
spec fn half_removed(
    adjacency: Map<VertexId, Adjacency>,
    vid: VertexId,
    outgoing: Seq<NeighborKey>,
    outs: int,
    incoming: Seq<NeighborKey>,
    ins: int,
) -> Map<VertexId, Adjacency> {
    Map::new(
        |n: VertexId| adjacency.contains_key(n),
        |n: VertexId|
            Adjacency {
                incoming: adjacency[n].incoming.filter(
                    |k: NeighborKey|
                        !(k.1 == vid && outgoing.take(outs).contains((k.0, n, k.2))),
                ),
                outgoing: adjacency[n].outgoing.filter(
                    |k: NeighborKey| !(k.1 == vid && incoming.take(ins).contains((k.0, n, k.2))),
                ),
            },
    )
}

proof fn lemma_take_contains(s: Seq<NeighborKey>, i: int, k: NeighborKey)
    requires
        0 <= i < s.len(),
    ensures
        s.take(i + 1).contains(k) <==> s.take(i).contains(k) || k == s[i],
{
    let longer = s.take(i + 1);
    let shorter = s.take(i);
    if longer.contains(k) {
        let j = choose|j: int| 0 <= j < longer.len() && longer[j] == k;
        if j < i {
            assert(shorter[j] == k);
        }
    }
    if shorter.contains(k) {
        let j = choose|j: int| 0 <= j < shorter.len() && shorter[j] == k;
        assert(longer[j] == k);
    }
    assert(longer[i] == s[i]);
}

impl GraphStore {
    /// Removes a vertex, and its edges from the neighbours at their other ends.
    fn remove_vertex_and_adjacencies(&mut self, vid: VertexId)
        requires
            old(self).wf(),
        ensures
            final(self).wf(),
            final(self)@ == without_vertex(old(self)@, vid),
    {
        self.vertices.remove(vid);
        assert(self@.vertices =~= old(self)@.vertices.remove(vid));
        let ghost start = self@;
        let (incoming, outgoing) = match self.adjacency_list.get(vid) {
            Some(container) => (
                skip_set_elements(&container.incoming),
                skip_set_elements(&container.outgoing),
            ),
            None => (Vec::new(), Vec::new()),
        };
        let ghost adjacency = start.adjacency;
        assert(self@.adjacency =~= half_removed(adjacency, vid, outgoing@, 0, incoming@, 0)) by {
            assert forall|n: VertexId| adjacency.contains_key(n) implies #[trigger] half_removed(
                adjacency,
                vid,
                outgoing@,
                0,
                incoming@,
                0,
            )[n] == adjacency[n] by {
                assert(half_removed(adjacency, vid, outgoing@, 0, incoming@, 0)[n].incoming
                    =~= adjacency[n].incoming);
                assert(half_removed(adjacency, vid, outgoing@, 0, incoming@, 0)[n].outgoing
                    =~= adjacency[n].outgoing);
            }
        }
        for i in 0..outgoing.len()
            invariant
                self.wf(),
                adjacency == start.adjacency,
                self@ == (StoreView { adjacency: self@.adjacency, ..start }),
                self@.adjacency == half_removed(
                    adjacency,
                    vid,
                    outgoing@,
                    i as int,
                    incoming@,
                    0,
                ),
        {
            let (label, other, eid) = outgoing[i];
            let ghost before = self@.adjacency;
            self.drop_incoming(other, (label, vid, eid));
            proof {
                let after = half_removed(adjacency, vid, outgoing@, i + 1, incoming@, 0);
                assert forall|n: VertexId| #[trigger] adjacency.contains_key(n) implies after[n]
                    == self@.adjacency[n] by {
                    assert forall|k: NeighborKey| #[trigger]
                        after[n].incoming.contains(k) == self@.adjacency[n].incoming.contains(
                            k,
                        ) by {
                        lemma_take_contains(outgoing@, i as int, (k.0, n, k.2));
                    }
                    assert(after[n].incoming =~= self@.adjacency[n].incoming);
                    assert(after[n].outgoing =~= self@.adjacency[n].outgoing);
                }
                assert(self@.adjacency =~= after);
            }
        }
        for i in 0..incoming.len()
            invariant
                self.wf(),
                adjacency == start.adjacency,
                self@ == (StoreView { adjacency: self@.adjacency, ..start }),
                self@.adjacency == half_removed(
                    adjacency,
                    vid,
                    outgoing@,
                    outgoing@.len() as int,
                    incoming@,
                    i as int,
                ),
        {
            let (label, other, eid) = incoming[i];
            self.drop_outgoing(other, (label, vid, eid));
            proof {
                let after = half_removed(
                    adjacency,
                    vid,
                    outgoing@,
                    outgoing@.len() as int,
                    incoming@,
                    i + 1,
                );
                assert forall|n: VertexId| #[trigger] adjacency.contains_key(n) implies after[n]
                    == self@.adjacency[n] by {
                    assert forall|k: NeighborKey| #[trigger]
                        after[n].outgoing.contains(k) == self@.adjacency[n].outgoing.contains(
                            k,
                        ) by {
                        lemma_take_contains(incoming@, i as int, (k.0, n, k.2));
                    }
                    assert(after[n].incoming =~= self@.adjacency[n].incoming);
                    assert(after[n].outgoing =~= self@.adjacency[n].outgoing);
                }
                assert(self@.adjacency =~= after);
            }
        }
        let ghost cleaned = self@.adjacency;
        self.adjacency_list.remove(vid);
        proof {
            assert(outgoing@.take(outgoing@.len() as int) =~= outgoing@);
            assert(incoming@.take(incoming@.len() as int) =~= incoming@);
            assert(self@.adjacency =~= cleaned.remove(vid));
            let expected = adjacency_without(adjacency, vid);
            if adjacency.contains_key(vid) {
                assert forall|n: VertexId| #[trigger] expected.contains_key(n) implies expected[n]
                    == self@.adjacency[n] by {
                    assert(expected[n].incoming =~= self@.adjacency[n].incoming);
                    assert(expected[n].outgoing =~= self@.adjacency[n].outgoing);
                }
            } else {
                assert forall|n: VertexId| #[trigger] adjacency.contains_key(n) implies adjacency[n]
                    == self@.adjacency[n] by {
                    assert(adjacency[n].incoming =~= self@.adjacency[n].incoming);
                    assert(adjacency[n].outgoing =~= self@.adjacency[n].outgoing);
                }
            }
            assert forall|n: VertexId| #[trigger]
                self@.adjacency.contains_key(n) == expected.contains_key(n) by {
                assert(cleaned.contains_key(n) == adjacency.contains_key(n));
            }
            assert(self@.adjacency =~= expected);
        }
    }

    /// Whether a vertex is there and was deleted.
    fn is_vertex_dead(&self, vid: VertexId) -> (dead: bool)
        requires
            self.wf(),
        ensures
            dead == vertex_dead(self@, vid),
    {
        match self.vertices.get(vid) {
            Some(vertex) => vertex.data.is_tombstone,
            None => false,
        }
    }

    /// Whether an edge is there and was deleted.
    fn is_edge_dead(&self, eid: EdgeId) -> (dead: bool)
        requires
            self.wf(),
        ensures
            dead == edge_dead(self@, eid),
    {
        match self.edges.get(eid) {
            Some(edge) => edge.data.is_tombstone,
            None => false,
        }
    }

    /// Removes what a deleted edge leaves behind.
    fn sweep_edge(&mut self, eid: EdgeId, edge: ExpiredEdge)
        requires
            old(self).wf(),
        ensures
            final(self).wf(),
            final(self)@ == swept_edge(old(self)@, eid, edge),
    {
        let src_tombstone = self.is_vertex_dead(edge.src_id);
        let dst_tombstone = self.is_vertex_dead(edge.dst_id);
        let edge_tombstone = self.is_edge_dead(eid);
        if src_tombstone {
            self.remove_vertex_and_adjacencies(edge.src_id);
        }
        if dst_tombstone {
            self.remove_vertex_and_adjacencies(edge.dst_id);
        }
        if edge_tombstone {
            let ghost before = self@;
            self.edges.remove(eid);
            assert(self@.edges =~= before.edges.remove(eid));
            self.drop_outgoing(edge.src_id, (edge.label_id, edge.dst_id, eid));
            self.drop_incoming(edge.dst_id, (edge.label_id, edge.src_id, eid));
        }
    }

    /// Notes which edges and vertices the undo entries of a transaction tell to be deleted.
    fn note_expired(
        &self,
        keys: &Vec<u64>,
        expired: &mut SlotMap<ExpiredEdge>,
        vertices: &mut SlotMap<VertexId>,
    )
        requires
            self.wf(),
            old(expired).wf(),
            old(vertices).wf(),
        ensures
            final(expired).wf(),
            final(expired)@ == noted_all(self@.undo, keys@, old(expired)@, 0),
            final(vertices).wf(),
            final(vertices)@.dom() == vertices_noted(self@.undo, keys@, old(vertices)@.dom(), 0),
    {
        for i in 0..keys.len()
            invariant
                self.wf(),
                expired.wf(),
                vertices.wf(),
                noted_all(self@.undo, keys@, old(expired)@, 0) == noted_all(
                    self@.undo,
                    keys@,
                    expired@,
                    i as int,
                ),
                vertices_noted(self@.undo, keys@, old(vertices)@.dom(), 0) == vertices_noted(
                    self@.undo,
                    keys@,
                    vertices@.dom(),
                    i as int,
                ),
        {
            if let Some(entry) = self.undo_log.get(keys[i]) {
                assert(self@.undo[keys@[i as int]] == entry@);
                let ghost before = vertices@;
                match entry.delta() {
                    DeltaOp::CreateEdge(edge) => {
                        expired.insert(
                            edge.eid,
                            ExpiredEdge {
                                src_id: edge.src_id,
                                dst_id: edge.dst_id,
                                label_id: edge.label_id,
                            },
                        );
                    },
                    DeltaOp::DelEdge(eid) => {
                        expired.remove(*eid);
                    },
                    DeltaOp::CreateVertex(vertex) => {
                        vertices.insert(vertex.vid, vertex.vid);
                    },
                    DeltaOp::DelVertex(vid) => {
                        vertices.remove(*vid);
                    },
                    _ => {},
                }
                assert(vertices@.dom() =~= vertex_noted(before.dom(), entry@.delta));
            }
        }
    }

    /// Removes undo entries.
    pub(crate) fn forget_undo(&mut self, keys: &Vec<u64>)
        requires
            old(self).wf(),
        ensures
            final(self).wf(),
            final(self)@ == (StoreView {
                undo: old(self)@.undo.remove_keys(keys@.to_set()),
                ..old(self)@
            }),
    {
        let ghost start = self@;
        assert(keys@.take(0).to_set() =~= Set::empty());
        assert(start.undo.remove_keys(Set::empty()) =~= start.undo);
        for i in 0..keys.len()
            invariant
                self.wf(),
                start.undo_ok(),
                self@ == (StoreView {
                    undo: start.undo.remove_keys(keys@.take(i as int).to_set()),
                    ..start
                }),
        {
            let ghost before = self@;
            self.undo_log.remove(keys[i]);
            proof {
                assert(self@.undo =~= before.undo.remove(keys@[i as int]));
                assert(keys@.take(i + 1) =~= keys@.take(i as int).push(keys@[i as int]));
                keys@.take(i as int).lemma_push_to_set_commute(keys@[i as int]);
                assert(self@.undo =~= start.undo.remove_keys(keys@.take(i + 1).to_set()));
            }
        }
        assert(keys@.take(keys@.len() as int) =~= keys@);
    }
}

/// The manager without the first `n` of the given transactions.
spec fn forgotten_first(manager: ManagerView, commits: Seq<u64>, n: int) -> ManagerView {
    ManagerView {
        committed: manager.committed.remove_keys(commits.take(n).to_set()),
        committed_undo: manager.committed_undo.remove_keys(commits.take(n).to_set()),
        ..manager
    }
}

/// The graph without the undo entries of the first `n` of the given transactions.
spec fn undo_forgotten_first(
    store: StoreView,
    manager: ManagerView,
    commits: Seq<u64>,
    n: int,
) -> StoreView {
    StoreView {
        undo: Map::new(
            |key: u64|
                store.undo.contains_key(key) && !exists|i: int|
                    0 <= i < n && (#[trigger] manager.committed_undo[commits[i]]).contains(key),
            |key: u64| store.undo[key],
        ),
        ..store
    }
}

impl MemTxnManager {
    /// Forgets the given transactions, and their undo entries.
    fn forget(&mut self, store: &mut GraphStore, commits: &Vec<u64>)
        requires
            old(self).wf(),
            old(store).wf(),
            forall|i: int|
                0 <= i < commits@.len() ==> old(self)@.committed.contains_key(
                    #[trigger] commits@[i],
                ),
            commits@.no_duplicates(),
        ensures
            final(self).wf(),
            final(store).wf(),
            final(self)@ == forgotten_first(old(self)@, commits@, commits@.len() as int),
            final(store)@ == undo_forgotten_first(
                old(store)@,
                old(self)@,
                commits@,
                commits@.len() as int,
            ),
    {
        let ghost start = self@;
        let ghost store_start = store@;
        proof {
            assert(commits@.take(0).to_set() =~= Set::empty());
            assert(start.committed.remove_keys(Set::empty()) =~= start.committed);
            assert(start.committed_undo.remove_keys(Set::empty()) =~= start.committed_undo);
            assert(store@.undo =~= undo_forgotten_first(store_start, start, commits@, 0).undo);
        }
        for i in 0..commits.len()
            invariant
                self.wf(),
                store.wf(),
                start.committed_undo.dom() == start.committed.dom(),
                commits@.no_duplicates(),
                forall|i: int|
                    0 <= i < commits@.len() ==> start.committed.contains_key(
                        #[trigger] commits@[i],
                    ),
                self@ == forgotten_first(start, commits@, i as int),
                store@ == undo_forgotten_first(store_start, start, commits@, i as int),
        {
            let ts: u64 = commits[i];
            proof {
                assert(!commits@.take(i as int).contains(ts)) by {
                    if commits@.take(i as int).contains(ts) {
                        let j = choose|j: int| 0 <= j < i && commits@.take(i as int)[j] == ts;
                        assert(commits@[j] == ts);
                    }
                }
                assert(!commits@.take(i as int).to_set().contains(ts));
                assert(start.committed.contains_key(commits@[i as int]));
                assert(start.committed_undo.dom().contains(ts));
                assert(self@.committed_undo.contains_key(ts));
                assert(self@.committed_undo[ts] == start.committed_undo[ts]);
                assert(self.committed_undo@.contains_key(ts));
                assert(self.committed_undo@[ts]@ == self@.committed_undo[ts]);
            }
            let ghost before = self@;
            let ghost store_before = store@;
            skip_map_remove(&mut self.committed_txns, ts);
            if let Some(keys) = self.committed_undo.remove(ts) {
                assert(keys@ == start.committed_undo[ts]);
                store.forget_undo(&keys);
                proof {
                    let expected = undo_forgotten_first(store_start, start, commits@, i + 1);
                    assert forall|key: u64| #[trigger]
                        store@.undo.contains_key(key) == expected.undo.contains_key(key) by {
                        if store_before.undo.contains_key(key) && keys@.contains(key) {
                            assert(start.committed_undo[commits@[i as int]].contains(key));
                        }
                    }
                    assert(store@.undo =~= expected.undo);
                }
            }
            proof {
                assert(commits@.take(i + 1) =~= commits@.take(i as int).push(ts));
                commits@.take(i as int).lemma_push_to_set_commute(ts);
                let expected = forgotten_first(start, commits@, i + 1);
                assert(self@.committed =~= expected.committed);
                assert(self@.committed_undo =~= before.committed_undo.remove(ts));
                assert(self@.committed_undo =~= expected.committed_undo);
                assert(self@.committed_undo.dom() =~= self@.committed.dom());
            }
        }
    }

    /// Removes the transactions that no active transaction can miss, and what they deleted.
    ///
    /// A transaction is expired when it was committed before the watermark. Its undo entries tell
    /// which edges and vertices it deleted; these, and the end points of the edges, are removed, as
    /// far as they are still deleted.
    pub fn garbage_collect(&mut self, store: &mut GraphStore) -> (result: StorageResult<()>)
        requires
            old(self).wf(),
            old(store).wf(),
        ensures
            result is Ok,
            final(self).wf(),
            final(store).wf(),
            collects(old(self)@, old(store)@, final(self)@, final(store)@),
    {
        let ghost start = self@;
        let ghost store_start = store@;
        let min_read_ts: u64 = self.watermark;
        let entries = skip_map_entries(&self.committed_txns);
        let ghost commits = entries@.map_values(|entry: (u64, u64)| entry.0);
        proof {
            assert forall|key: u64| #[trigger]
                commits.contains(key) <==> start.committed.contains_key(key) by {
                if commits.contains(key) {
                    let i = choose|i: int| 0 <= i < commits.len() && commits[i] == key;
                    assert(entries@[i].0 == key);
                }
                if start.committed.contains_key(key) {
                    let pair = (key, start.committed[key]);
                    assert(entries@.contains(pair));
                    let i = choose|i: int| 0 <= i < entries@.len() && entries@[i] == pair;
                    assert(commits[i] == key);
                }
            }
            assert(ascending(commits, start.committed));
        }
        let mut expired: SlotMap<ExpiredEdge> = SlotMap::new();
        let mut dead_vertices: SlotMap<VertexId> = SlotMap::new();
        assert(dead_vertices@.dom() =~= Set::empty());
        let mut expired_txns: Vec<u64> = Vec::new();
        let mut n: usize = 0;
        while n < entries.len() && entries[n].0 < min_read_ts
            invariant
                n <= entries@.len(),
                self.wf(),
                store.wf(),
                expired.wf(),
                dead_vertices.wf(),
                self@ == start,
                store@ == store_start,
                min_read_ts == start.watermark,
                commits == entries@.map_values(|entry: (u64, u64)| entry.0),
                forall|key: u64| #[trigger]
                    commits.contains(key) <==> start.committed.contains_key(key),
                expired_txns@ == commits.take(n as int),
                forall|i: int| 0 <= i < n ==> (#[trigger] commits[i]) < min_read_ts,
                expired_edges(start, store_start.undo, commits, Map::empty(), 0)
                    == expired_edges(start, store_start.undo, commits, expired@, n as int),
                expired_vertices(start, store_start.undo, commits, Set::empty(), 0)
                    == expired_vertices(
                    start,
                    store_start.undo,
                    commits,
                    dead_vertices@.dom(),
                    n as int,
                ),
            decreases entries@.len() - n,
        {
            let ts: u64 = entries[n].0;
            proof {
                assert(commits[n as int] == ts);
                assert(commits.contains(ts));
                assert(start.committed_undo.dom().contains(ts));
                assert(self.committed_undo@.contains_key(ts));
            }
            if let Some(keys) = self.committed_undo.get(ts) {
                assert(keys@ == start.committed_undo[ts]);
                store.note_expired(keys, &mut expired, &mut dead_vertices);
            }
            expired_txns.push(ts);
            assert(commits.take(n + 1) =~= commits.take(n as int).push(ts));
            n = n + 1;
        }
        proof {
            assert forall|i: int| 0 <= i < expired_txns@.len() implies start.committed.contains_key(
                #[trigger] expired_txns@[i],
            ) by {
                assert(expired_txns@[i] == commits[i]);
                assert(commits.contains(commits[i]));
            }
            assert(expired_txns@.no_duplicates()) by {
                assert forall|i: int, j: int|
                    0 <= i < expired_txns@.len() && 0 <= j < expired_txns@.len() && i
                        != j implies expired_txns@[i] != expired_txns@[j] by {
                    assert(expired_txns@[i] == commits[i] && expired_txns@[j] == commits[j]);
                }
            }
        }
        self.forget(store, &expired_txns);
        proof {
            lemma_forgotten(start, store_start, commits, n as int);
            assert(expired_txns@.take(expired_txns@.len() as int) =~= commits.take(n as int));
            assert(self@ == forgotten(start));
            let first = undo_forgotten_first(
                store_start,
                start,
                expired_txns@,
                expired_txns@.len() as int,
            );
            assert(first.undo =~= undo_forgotten_first(store_start, start, commits, n as int).undo)
                by {
                assert forall|key: u64| #[trigger] store_start.undo.contains_key(key) implies (
                exists|i: int|
                    0 <= i < n && (#[trigger] start.committed_undo[expired_txns@[i]]).contains(key))
                    == (exists|i: int|
                    0 <= i < n && (#[trigger] start.committed_undo[commits[i]]).contains(
                        key,
                    )) by {
                    assert forall|i: int| 0 <= i < n implies expired_txns@[i] == commits[i] by {}
                    if exists|i: int|
                        0 <= i < n && (#[trigger] start.committed_undo[commits[i]]).contains(
                            key,
                        ) {
                        let i = choose|i: int|
                            0 <= i < n && (#[trigger] start.committed_undo[commits[i]]).contains(
                                key,
                            );
                        assert(start.committed_undo[expired_txns@[i]].contains(key));
                    }
                }
            }
            assert(store@ == undo_forgotten(store_start, start));
            expired.lemma_key_seq();
            dead_vertices.lemma_key_seq();
        }
        let ghost clean = store@;
        let ghost edges = expired@;
        let ghost order = expired.key_seq();
        let count: usize = expired.len();
        for i in 0..count
            invariant
                count == order.len(),
                order == expired.key_seq(),
                edges == expired@,
                expired.wf(),
                store.wf(),
                self.wf(),
                self@ == forgotten(start),
                swept(clean, edges, order, 0) == swept(store@, edges, order, i as int),
        {
            let eid = expired.key_at(i);
            if let Some(edge) = expired.get(eid) {
                store.sweep_edge(eid, *edge);
            }
        }
        let ghost without_edges = store@;
        let ghost vertices = dead_vertices@.dom();
        let ghost vertex_order = dead_vertices.key_seq();
        let vertex_count: usize = dead_vertices.len();
        for i in 0..vertex_count
            invariant
                vertex_count == vertex_order.len(),
                vertex_order == dead_vertices.key_seq(),
                dead_vertices.wf(),
                store.wf(),
                self.wf(),
                self@ == forgotten(start),
                vertices_swept(without_edges, vertex_order, 0) == vertices_swept(
                    store@,
                    vertex_order,
                    i as int,
                ),
        {
            let vid = dead_vertices.key_at(i);
            if store.is_vertex_dead(vid) {
                store.remove_vertex_and_adjacencies(vid);
            }
        }
        proof {
            assert(enumerates(order, edges));
            assert(edges == expired_edges(start, store_start.undo, commits, Map::empty(), 0));
            assert(vertices == expired_vertices(start, store_start.undo, commits, Set::empty(), 0));
            assert(enumerates_vertices(vertex_order, vertices));
            assert(sweeps(start, store_start, commits, order, vertex_order, store@));
        }
        Ok(())
    }

    /// Collects garbage if the watermark has risen far enough since the last time.
    pub fn periodic_garbage_collect(&mut self, store: &mut GraphStore) -> (result: StorageResult<
        (),
    >)
        requires
            old(self).wf(),
            old(store).wf(),
        ensures
            result is Ok,
            final(self).wf(),
            final(store).wf(),
            collects_periodically(old(self)@, old(store)@, final(self)@, final(store)@),
    {
        if self.watermark - self.last_gc_ts > PERIODIC_GC_THRESHOLD {
            let ghost start = self@;
            let result = self.garbage_collect(store);
            let ghost collected = self@;
            self.last_gc_ts = self.watermark;
            assert(collected == (ManagerView { last_gc_ts: start.last_gc_ts, ..self@ }));
            result
        } else {
            Ok(())
        }
    }
}

proof fn lemma_forgotten(manager: ManagerView, store: StoreView, commits: Seq<u64>, n: int)
    requires
        ascending(commits, manager.committed),
        manager.committed_undo.dom() == manager.committed.dom(),
        0 <= n <= commits.len(),
        forall|i: int| 0 <= i < n ==> (#[trigger] commits[i]) < manager.watermark,
        n < commits.len() ==> commits[n] >= manager.watermark,
    ensures
        forgotten_first(manager, commits, n) == forgotten(manager),
        undo_forgotten_first(store, manager, commits, n) == undo_forgotten(store, manager),
{
    assert forall|ts: u64| manager.committed.contains_key(ts) implies (commits.take(
        n,
    ).to_set().contains(ts) <==> ts < manager.watermark) by {
        assert(commits.contains(ts));
        let i = choose|i: int| 0 <= i < commits.len() && commits[i] == ts;
        if i < n {
            assert(commits.take(n)[i] == ts);
            assert(commits.take(n).contains(ts));
        } else {
            if commits.take(n).contains(ts) {
                let j = choose|j: int| 0 <= j < n && commits.take(n)[j] == ts;
                assert(commits[j] == ts);
            }
            if i > n {
                assert(commits[n] < commits[i]);
            }
        }
    }
    assert(forgotten_first(manager, commits, n).committed =~= forgotten(manager).committed);
    assert(forgotten_first(manager, commits, n).committed_undo =~= forgotten(
        manager,
    ).committed_undo);
    assert forall|key: u64| undo_expired(manager, key) == exists|i: int|
        0 <= i < n && (#[trigger] manager.committed_undo[commits[i]]).contains(key) by {
        if undo_expired(manager, key) {
            let ts = choose|ts: u64| #[trigger]
                manager.committed_undo.contains_key(ts) && ts < manager.watermark
                    && manager.committed_undo[ts].contains(key);
            assert(manager.committed.contains_key(ts));
            assert(commits.contains(ts));
            let i = choose|i: int| 0 <= i < commits.len() && commits[i] == ts;
            if i >= n {
                if i > n {
                    assert(commits[n] < commits[i]);
                }
            }
            assert(manager.committed_undo[commits[i]].contains(key));
        }
        if exists|i: int|
            0 <= i < n && (#[trigger] manager.committed_undo[commits[i]]).contains(key) {
            let i = choose|i: int|
                0 <= i < n && (#[trigger] manager.committed_undo[commits[i]]).contains(key);
            assert(commits.contains(commits[i]));
            assert(manager.committed_undo.contains_key(commits[i]));
        }
    }
    assert(undo_forgotten_first(store, manager, commits, n).undo =~= undo_forgotten(
        store,
        manager,
    ).undo);
}

} // verus!
