//! What holds of transactions: what an abort takes back, and who sees what a transaction wrote.

use vstd::prelude::*;

#[allow(unused_imports)]
use super::checkpoint::manager::{
    in_secs, keeps, oldest, prunes, surplus, with_saved, EntryView,
};
#[allow(unused_imports)]
use super::checkpoint::recovery::{auto_checks, without_manager};
#[allow(unused_imports)]
use super::checkpoint::snapshot::{is_snapshot, CheckpointView};
#[allow(unused_imports)]
use super::memory_graph::{
    edge_back, reads_current, vertex_back, way_back, with_change, with_edge, with_vertex, GraphView,
};
#[allow(unused_imports)]
use super::model::{
    props_after, DeltaView, EdgeVersion, EdgeView, IsolationLevel, PropsView, RedoView, StoreView,
    Timestamp, UndoView, VertexVersion, VertexView,
};
#[allow(unused_imports)]
use super::outside::Event;
#[allow(unused_imports)]
use super::transaction::{
    all_stamped, all_undone, commit_entries, commit_log, commits, reads_valid, rolled_back,
    settles, stamped, undone, TxnView,
};
#[allow(unused_imports)]
use crate::common::types::{EdgeId, VertexId};
#[allow(unused_imports)]
use crate::storage::error::ErrorView;

verus! {

/// The vertex that a change is about.
pub open spec fn vertex_target(delta: DeltaView) -> Option<VertexId> {
    match delta {
        DeltaView::DelVertex(vid) => Some(vid),
        DeltaView::CreateVertex(vertex) => Some(vertex.vid),
        DeltaView::SetVertexProps(vid, _) => Some(vid),
        _ => None,
    }
}

/// The edge that a change is about.
pub open spec fn edge_target(delta: DeltaView) -> Option<EdgeId> {
    match delta {
        DeltaView::DelEdge(eid) => Some(eid),
        DeltaView::CreateEdge(edge) => Some(edge.eid),
        DeltaView::SetEdgeProps(eid, _) => Some(eid),
        _ => None,
    }
}

/// Whether the `i`th of the undo entries is about a vertex.
pub open spec fn is_about_vertex(
    undo: Map<u64, UndoView>,
    keys: Seq<u64>,
    i: int,
    vid: VertexId,
) -> bool {
    0 <= i < keys.len() && vertex_target(undo[keys[i]].delta) == Some(vid)
}

/// Whether the `i`th of the undo entries is about an edge.
pub open spec fn is_about_edge(
    undo: Map<u64, UndoView>,
    keys: Seq<u64>,
    i: int,
    eid: EdgeId,
) -> bool {
    0 <= i < keys.len() && edge_target(undo[keys[i]].delta) == Some(eid)
}

/// Whether a write of a transaction leads from one graph to another: one vertex or edge is changed
/// and carries the transaction's identifier, and the undo entry leads it back to what it was, or
/// deletes it where it was not there.
pub open spec fn is_write(
    before: StoreView,
    after: StoreView,
    entry: UndoView,
    txn_id: Timestamp,
) -> bool {
    match (vertex_target(entry.delta), edge_target(entry.delta)) {
        (Some(vid), _) => {
            &&& after.edges == before.edges
            &&& after.vertices == before.vertices.insert(vid, after.vertices[vid])
            &&& after.vertices[vid].commit_ts == txn_id
            &&& if before.vertices.contains_key(vid) {
                undone(after, entry, txn_id).vertices[vid] == before.vertices[vid]
            } else {
                entry.delta == DeltaView::DelVertex(vid)
            }
        },
        (_, Some(eid)) => {
            &&& after.vertices == before.vertices
            &&& after.edges == before.edges.insert(eid, after.edges[eid])
            &&& after.edges[eid].commit_ts == txn_id
            &&& if before.edges.contains_key(eid) {
                undone(after, entry, txn_id).edges[eid] == before.edges[eid]
            } else {
                entry.delta == DeltaView::DelEdge(eid)
            }
        },
        _ => false,
    }
}

/// Whether a step of others leads from one graph to another: they write nothing that a transaction
/// has written and not yet committed, and nothing in its name.
pub open spec fn is_step_of_others(
    before: StoreView,
    after: StoreView,
    txn_id: Timestamp,
) -> bool {
    &&& forall|vid: VertexId|
        before.vertices.contains_key(vid) && before.vertices[vid].commit_ts == txn_id
            ==> #[trigger] after.vertices.contains_key(vid) && after.vertices[vid]
            == before.vertices[vid]
    &&& forall|eid: EdgeId|
        before.edges.contains_key(eid) && before.edges[eid].commit_ts == txn_id
            ==> #[trigger] after.edges.contains_key(eid) && after.edges[eid] == before.edges[eid]
}

/// Whether steps led from graph to graph, from the first to the last. A step is a write of a
/// transaction, which is told by the place of its undo entry, or a step of others. The undo entries
/// of the transaction are in the last graph as they were made.
pub open spec fn happened(
    graphs: Seq<StoreView>,
    steps: Seq<Option<u64>>,
    txn_id: Timestamp,
) -> bool {
    &&& graphs.len() == steps.len() + 1
    &&& forall|i: int|
        0 <= i < steps.len() ==> match #[trigger] steps[i] {
            Some(key) => is_write(graphs[i], graphs[i + 1], graphs.last().undo[key], txn_id),
            None => is_step_of_others(graphs[i], graphs[i + 1], txn_id),
        }
}

/// The places of the undo entries of a transaction's writes, in the order of the writes.
pub open spec fn own_keys(steps: Seq<Option<u64>>) -> Seq<u64>
    decreases steps.len(),
{
    if steps.len() == 0 {
        Seq::empty()
    } else {
        match steps.last() {
            Some(key) => own_keys(steps.drop_last()).push(key),
            None => own_keys(steps.drop_last()),
        }
    }
}

/// Whether a step is a write of a vertex.
pub open spec fn writes_vertex(
    undo: Map<u64, UndoView>,
    step: Option<u64>,
    vid: VertexId,
) -> bool {
    step matches Some(key) && vertex_target(undo[key].delta) == Some(vid)
}

/// Whether a step is a write of an edge.
pub open spec fn writes_edge(undo: Map<u64, UndoView>, step: Option<u64>, eid: EdgeId) -> bool {
    step matches Some(key) && edge_target(undo[key].delta) == Some(eid)
}

/// The first write of a vertex from the `m`th step on, or the number of steps.
pub open spec fn first_vertex_write(
    undo: Map<u64, UndoView>,
    steps: Seq<Option<u64>>,
    m: int,
    vid: VertexId,
) -> int
    decreases steps.len() - m,
{
    if m < 0 || m >= steps.len() {
        steps.len() as int
    } else if writes_vertex(undo, steps[m], vid) {
        m
    } else {
        first_vertex_write(undo, steps, m + 1, vid)
    }
}

/// The first write of an edge from the `m`th step on, or the number of steps.
pub open spec fn first_edge_write(
    undo: Map<u64, UndoView>,
    steps: Seq<Option<u64>>,
    m: int,
    eid: EdgeId,
) -> int
    decreases steps.len() - m,
{
    if m < 0 || m >= steps.len() {
        steps.len() as int
    } else if writes_edge(undo, steps[m], eid) {
        m
    } else {
        first_edge_write(undo, steps, m + 1, eid)
    }
}

/// Whether a vertex is as it was before the first write of it from the `m`th step on: in the same
/// version, or deleted where it was not there. One that was not written is as it is at the end.
pub open spec fn vertex_restored(
    graphs: Seq<StoreView>,
    steps: Seq<Option<u64>>,
    restored: StoreView,
    m: int,
    vid: VertexId,
) -> bool {
    let first = first_vertex_write(graphs.last().undo, steps, m, vid);
    if first < steps.len() {
        &&& restored.vertices.contains_key(vid)
        &&& if graphs[first].vertices.contains_key(vid) {
            restored.vertices[vid] == graphs[first].vertices[vid]
        } else {
            restored.vertices[vid].data.is_tombstone
        }
    } else {
        &&& restored.vertices.contains_key(vid) == graphs.last().vertices.contains_key(vid)
        &&& restored.vertices[vid] == graphs.last().vertices[vid]
    }
}

/// Whether an edge is as it was before the first write of it from the `m`th step on: in the same
/// version, or deleted where it was not there. One that was not written is as it is at the end.
pub open spec fn edge_restored(
    graphs: Seq<StoreView>,
    steps: Seq<Option<u64>>,
    restored: StoreView,
    m: int,
    eid: EdgeId,
) -> bool {
    let first = first_edge_write(graphs.last().undo, steps, m, eid);
    if first < steps.len() {
        &&& restored.edges.contains_key(eid)
        &&& if graphs[first].edges.contains_key(eid) {
            restored.edges[eid] == graphs[first].edges[eid]
        } else {
            restored.edges[eid].data.is_tombstone
        }
    } else {
        &&& restored.edges.contains_key(eid) == graphs.last().edges.contains_key(eid)
        &&& restored.edges[eid] == graphs.last().edges[eid]
    }
}

proof fn lemma_first_write_bounds(
    undo: Map<u64, UndoView>,
    steps: Seq<Option<u64>>,
    m: int,
    id: u64,
)
    requires
        0 <= m <= steps.len(),
    ensures
        m <= first_vertex_write(undo, steps, m, id) <= steps.len(),
        m <= first_edge_write(undo, steps, m, id) <= steps.len(),
    decreases steps.len() - m,
{
    if m < steps.len() {
        lemma_first_write_bounds(undo, steps, m + 1, id);
    }
}

/// A vertex that the transaction has written stays as it is until the transaction writes it again.
proof fn lemma_vertex_stays(
    graphs: Seq<StoreView>,
    steps: Seq<Option<u64>>,
    txn_id: Timestamp,
    m: int,
    vid: VertexId,
)
    requires
        happened(graphs, steps, txn_id),
        0 <= m <= steps.len(),
        graphs[m].vertices.contains_key(vid),
        graphs[m].vertices[vid].commit_ts == txn_id,
    ensures
        ({
            let first = first_vertex_write(graphs.last().undo, steps, m, vid);
            &&& graphs[first].vertices.contains_key(vid)
            &&& graphs[first].vertices[vid] == graphs[m].vertices[vid]
        }),
    decreases steps.len() - m,
{
    if m < steps.len() && !writes_vertex(graphs.last().undo, steps[m], vid) {
        assert(graphs[m + 1].vertices.contains_key(vid) && graphs[m + 1].vertices[vid]
            == graphs[m].vertices[vid]);
        lemma_vertex_stays(graphs, steps, txn_id, m + 1, vid);
    }
}

/// An edge that the transaction has written stays as it is until the transaction writes it again.
proof fn lemma_edge_stays(
    graphs: Seq<StoreView>,
    steps: Seq<Option<u64>>,
    txn_id: Timestamp,
    m: int,
    eid: EdgeId,
)
    requires
        happened(graphs, steps, txn_id),
        0 <= m <= steps.len(),
        graphs[m].edges.contains_key(eid),
        graphs[m].edges[eid].commit_ts == txn_id,
    ensures
        ({
            let first = first_edge_write(graphs.last().undo, steps, m, eid);
            &&& graphs[first].edges.contains_key(eid)
            &&& graphs[first].edges[eid] == graphs[m].edges[eid]
        }),
    decreases steps.len() - m,
{
    if m < steps.len() && !writes_edge(graphs.last().undo, steps[m], eid) {
        assert(graphs[m + 1].edges.contains_key(eid) && graphs[m + 1].edges[eid]
            == graphs[m].edges[eid]);
        lemma_edge_stays(graphs, steps, txn_id, m + 1, eid);
    }
}

proof fn lemma_own_keys_prefix(steps: Seq<Option<u64>>, m: int)
    requires
        0 <= m <= steps.len(),
    ensures
        own_keys(steps.take(m)).len() <= own_keys(steps).len(),
        forall|j: int|
            0 <= j < own_keys(steps.take(m)).len() ==> #[trigger] own_keys(steps)[j] == own_keys(
                steps.take(m),
            )[j],
    decreases steps.len() - m,
{
    if m < steps.len() {
        assert(steps.take(m + 1).drop_last() =~= steps.take(m));
        lemma_own_keys_prefix(steps, m + 1);
        assert forall|j: int|
            0 <= j < own_keys(steps.take(m)).len() implies #[trigger] own_keys(steps)[j]
            == own_keys(steps.take(m))[j] by {
            assert(own_keys(steps)[j] == own_keys(steps.take(m + 1))[j]);
        }
    } else {
        assert(steps.take(m) =~= steps);
    }
}

proof fn lemma_undone_frame(store: StoreView, entry: UndoView, txn_id: Timestamp)
    ensures
        undone(store, entry, txn_id).undo == store.undo,
        undone(store, entry, txn_id).adjacency == store.adjacency,
        undone(store, entry, txn_id).next_undo == store.next_undo,
        undone(store, entry, txn_id).vertices.dom() =~= store.vertices.dom(),
        undone(store, entry, txn_id).edges.dom() =~= store.edges.dom(),
        forall|vid: VertexId|
            vertex_target(entry.delta) != Some(vid) ==> #[trigger] undone(
                store,
                entry,
                txn_id,
            ).vertices[vid] == store.vertices[vid],
        forall|eid: EdgeId|
            edge_target(entry.delta) != Some(eid) ==> #[trigger] undone(
                store,
                entry,
                txn_id,
            ).edges[eid] == store.edges[eid],
{
}

/// What is undone of a vertex or an edge depends on nothing else.
proof fn lemma_undone_alone(a: StoreView, b: StoreView, entry: UndoView, txn_id: Timestamp)
    ensures
        vertex_target(entry.delta) matches Some(vid) ==> a.vertices.contains_key(vid)
            && b.vertices.contains_key(vid) && a.vertices[vid] == b.vertices[vid] ==> undone(
            a,
            entry,
            txn_id,
        ).vertices[vid] == undone(b, entry, txn_id).vertices[vid],
        edge_target(entry.delta) matches Some(eid) ==> a.edges.contains_key(eid)
            && b.edges.contains_key(eid) && a.edges[eid] == b.edges[eid] ==> undone(
            a,
            entry,
            txn_id,
        ).edges[eid] == undone(b, entry, txn_id).edges[eid],
{
}

/// Undoing the writes before the `m`th step, where those from it on have been undone, undoes all.
proof fn lemma_steps_undone(
    graphs: Seq<StoreView>,
    steps: Seq<Option<u64>>,
    txn_id: Timestamp,
    state: StoreView,
    m: int,
)
    requires
        happened(graphs, steps, txn_id),
        0 <= m <= steps.len(),
        state.undo == graphs.last().undo,
        forall|vid: VertexId| #[trigger] vertex_restored(graphs, steps, state, m, vid),
        forall|eid: EdgeId| #[trigger] edge_restored(graphs, steps, state, m, eid),
    ensures
        ({
            let restored = all_undone(
                state,
                own_keys(steps),
                txn_id,
                own_keys(steps.take(m)).len() as int,
            );
            &&& forall|vid: VertexId| #[trigger] vertex_restored(graphs, steps, restored, 0, vid)
            &&& forall|eid: EdgeId| #[trigger] edge_restored(graphs, steps, restored, 0, eid)
        }),
    decreases m,
{
    if m > 0 {
        let undo = graphs.last().undo;
        let keys = own_keys(steps);
        let count = own_keys(steps.take(m)).len() as int;
        assert(steps.take(m).drop_last() =~= steps.take(m - 1));
        assert(steps.take(m).last() == steps[m - 1]);
        lemma_own_keys_prefix(steps, m);
        match steps[m - 1] {
            None => {
                assert forall|vid: VertexId| #[trigger]
                    vertex_restored(graphs, steps, state, m - 1, vid) by {
                    assert(vertex_restored(graphs, steps, state, m, vid));
                }
                assert forall|eid: EdgeId| #[trigger]
                    edge_restored(graphs, steps, state, m - 1, eid) by {
                    assert(edge_restored(graphs, steps, state, m, eid));
                }
                lemma_steps_undone(graphs, steps, txn_id, state, m - 1);
                assert(own_keys(steps.take(m - 1)).len() == count);
            },
            Some(key) => {
                let entry = undo[key];
                let next = undone(state, entry, txn_id);
                assert(keys[count - 1] == key);
                lemma_undone_frame(state, entry, txn_id);
                assert(is_write(graphs[m - 1], graphs[m], entry, txn_id));
                assert forall|vid: VertexId| #[trigger]
                    vertex_restored(graphs, steps, next, m - 1, vid) by {
                    assert(vertex_restored(graphs, steps, state, m, vid));
                    if vertex_target(entry.delta) == Some(vid) {
                        lemma_vertex_stays(graphs, steps, txn_id, m, vid);
                        lemma_first_write_bounds(undo, steps, m, vid);
                        assert(state.vertices.contains_key(vid));
                        assert(state.vertices[vid] == graphs[m].vertices[vid]);
                        lemma_undone_alone(state, graphs[m], entry, txn_id);
                        assert(next.vertices.contains_key(vid));
                    } else {
                        assert(next.vertices[vid] == state.vertices[vid]);
                        assert(next.vertices.dom().contains(vid) == state.vertices.dom().contains(
                            vid,
                        ));
                    }
                }
                assert forall|eid: EdgeId| #[trigger]
                    edge_restored(graphs, steps, next, m - 1, eid) by {
                    assert(edge_restored(graphs, steps, state, m, eid));
                    if edge_target(entry.delta) == Some(eid) {
                        lemma_edge_stays(graphs, steps, txn_id, m, eid);
                        lemma_first_write_bounds(undo, steps, m, eid);
                        assert(state.edges.contains_key(eid));
                        assert(state.edges[eid] == graphs[m].edges[eid]);
                        lemma_undone_alone(state, graphs[m], entry, txn_id);
                        assert(next.edges.contains_key(eid));
                    } else {
                        assert(next.edges[eid] == state.edges[eid]);
                        assert(next.edges.dom().contains(eid) == state.edges.dom().contains(eid));
                    }
                }
                lemma_steps_undone(graphs, steps, txn_id, next, m - 1);
                assert(own_keys(steps.take(m - 1)).len() == count - 1);
                assert(all_undone(state, keys, txn_id, count) == all_undone(
                    next,
                    keys,
                    txn_id,
                    count - 1,
                ));
            },
        }
    } else {
        assert(steps.take(0) =~= Seq::empty());
        assert(own_keys(steps.take(0)).len() == 0);
    }
}

/// An abort rolls back all changes of a transaction: every vertex and edge that it wrote, any
/// number of times, is in the version that it had before the first write, with the data, the
/// deletion mark and the commit timestamp of then, or marked as deleted where it was not there.
/// What the transaction did not write is as others left it.
pub proof fn law_abort_restores(
    graphs: Seq<StoreView>,
    steps: Seq<Option<u64>>,
    txn: TxnView,
)
    requires
        happened(graphs, steps, txn.txn_id),
        txn.undo == own_keys(steps),
    ensures
        forall|vid: VertexId| #[trigger]
            vertex_restored(graphs, steps, rolled_back(graphs.last(), txn), 0, vid),
        forall|eid: EdgeId| #[trigger]
            edge_restored(graphs, steps, rolled_back(graphs.last(), txn), 0, eid),
{
    let last = graphs.last();
    let n = steps.len() as int;
    assert(steps.take(n) =~= steps);
    lemma_steps_undone(graphs, steps, txn.txn_id, last, n);
    let undone = all_undone(last, txn.undo, txn.txn_id, txn.undo.len() as int);
    assert forall|vid: VertexId| #[trigger]
        vertex_restored(graphs, steps, rolled_back(last, txn), 0, vid) by {
        assert(vertex_restored(graphs, steps, undone, 0, vid));
    }
    assert forall|eid: EdgeId| #[trigger]
        edge_restored(graphs, steps, rolled_back(last, txn), 0, eid) by {
        assert(edge_restored(graphs, steps, undone, 0, eid));
    }
}

/// Creating a vertex is a write that an abort takes back.
pub proof fn law_create_vertex_revertible(store: StoreView, vertex: VertexView, txn: TxnView)
    requires
        !store.vertices.contains_key(vertex.vid),
    ensures
        ({
            let created = with_vertex(store, vertex, txn.txn_id);
            is_write(store, created, created.undo[store.next_undo], txn.txn_id)
        }),
        with_change(txn, store.next_undo, DeltaView::CreateVertex(vertex)).undo == txn.undo.push(
            store.next_undo,
        ),
{
}

/// Creating an edge is a write that an abort takes back.
pub proof fn law_create_edge_revertible(store: StoreView, edge: EdgeView, txn: TxnView)
    requires
        !store.edges.contains_key(edge.eid),
    ensures
        ({
            let created = with_edge(store, edge, txn.txn_id);
            is_write(store, created, created.undo[store.next_undo], txn.txn_id)
        }),
        with_change(txn, store.next_undo, DeltaView::CreateEdge(edge)).undo == txn.undo.push(
            store.next_undo,
        ),
{
}

/// Setting properties is a write that an abort takes back, whoever wrote the vertex before, where
/// the undo entry holds the values that were there.
pub proof fn law_set_vertex_props_revertible(
    before: StoreView,
    after: StoreView,
    vid: VertexId,
    undo: PropsView,
    txn_id: Timestamp,
)
    requires
        before.vertices.contains_key(vid),
        after.edges == before.edges,
        after.vertices == before.vertices.insert(
            vid,
            VertexVersion {
                data: VertexView {
                    properties: after.vertices[vid].data.properties,
                    ..before.vertices[vid].data
                },
                commit_ts: txn_id,
                undo_ptr: after.vertices[vid].undo_ptr,
            },
        ),
        props_after(after.vertices[vid].data.properties, undo)
            == before.vertices[vid].data.properties,
    ensures
        is_write(
            before,
            after,
            UndoView {
                delta: DeltaView::SetVertexProps(vid, undo),
                timestamp: before.vertices[vid].commit_ts,
                next: before.vertices[vid].undo_ptr,
            },
            txn_id,
        ),
{
}

/// Deleting a vertex that is there is a write that an abort takes back.
pub proof fn law_delete_vertex_revertible(
    before: StoreView,
    after: StoreView,
    vid: VertexId,
    txn_id: Timestamp,
)
    requires
        before.vertices.contains_key(vid),
        before.vertices[vid].data.vid == vid,
        !before.vertices[vid].data.is_tombstone,
        after.edges == before.edges,
        after.vertices == before.vertices.insert(
            vid,
            VertexVersion {
                data: VertexView { is_tombstone: true, ..before.vertices[vid].data },
                commit_ts: txn_id,
                undo_ptr: after.vertices[vid].undo_ptr,
            },
        ),
    ensures
        is_write(
            before,
            after,
            UndoView {
                delta: DeltaView::CreateVertex(before.vertices[vid].data),
                timestamp: before.vertices[vid].commit_ts,
                next: before.vertices[vid].undo_ptr,
            },
            txn_id,
        ),
{
}

/// Setting properties is a write that an abort takes back, whoever wrote the edge before, where
/// the undo entry holds the values that were there.
pub proof fn law_set_edge_props_revertible(
    before: StoreView,
    after: StoreView,
    eid: EdgeId,
    undo: PropsView,
    txn_id: Timestamp,
)
    requires
        before.edges.contains_key(eid),
        after.vertices == before.vertices,
        after.edges == before.edges.insert(
            eid,
            EdgeVersion {
                data: EdgeView {
                    properties: after.edges[eid].data.properties,
                    ..before.edges[eid].data
                },
                commit_ts: txn_id,
                undo_ptr: after.edges[eid].undo_ptr,
            },
        ),
        props_after(after.edges[eid].data.properties, undo)
            == before.edges[eid].data.properties,
    ensures
        is_write(
            before,
            after,
            UndoView {
                delta: DeltaView::SetEdgeProps(eid, undo),
                timestamp: before.edges[eid].commit_ts,
                next: before.edges[eid].undo_ptr,
            },
            txn_id,
        ),
{
}

/// Deleting an edge that is there is a write that an abort takes back.
pub proof fn law_delete_edge_revertible(
    before: StoreView,
    after: StoreView,
    eid: EdgeId,
    txn_id: Timestamp,
)
    requires
        before.edges.contains_key(eid),
        before.edges[eid].data.eid == eid,
        !before.edges[eid].data.is_tombstone,
        after.vertices == before.vertices,
        after.edges == before.edges.insert(
            eid,
            EdgeVersion {
                data: EdgeView { is_tombstone: true, ..before.edges[eid].data },
                commit_ts: txn_id,
                undo_ptr: after.edges[eid].undo_ptr,
            },
        ),
    ensures
        is_write(
            before,
            after,
            UndoView {
                delta: DeltaView::CreateEdge(before.edges[eid].data),
                timestamp: before.edges[eid].commit_ts,
                next: before.edges[eid].undo_ptr,
            },
            txn_id,
        ),
{
}

/// A vertex that a transaction created and then took back by an abort is seen by nobody, and no
/// other vertex or edge is touched.
pub proof fn law_created_vertex_aborted(
    store: StoreView,
    vertex: VertexView,
    txn: TxnView,
    reader: TxnView,
)
    requires
        !store.vertices.contains_key(vertex.vid),
        txn.undo == Seq::<u64>::empty(),
    ensures
        ({
            let created = with_vertex(store, vertex, txn.txn_id);
            let txn = with_change(txn, store.next_undo, DeltaView::CreateVertex(vertex));
            let restored = rolled_back(created, txn);
            &&& !restored.vertex_visible(vertex.vid, reader)
            &&& restored.edges == store.edges
            &&& forall|vid: VertexId|
                vid != vertex.vid ==> (#[trigger] restored.vertices.contains_key(vid))
                    == store.vertices.contains_key(vid) && restored.vertices[vid]
                    == store.vertices[vid]
        }),
{
    let created = with_vertex(store, vertex, txn.txn_id);
    let txn = with_change(txn, store.next_undo, DeltaView::CreateVertex(vertex));
    let restored = rolled_back(created, txn);
    assert(txn.undo =~= seq![store.next_undo]);
    reveal_with_fuel(all_undone, 2);
    assert(restored.vertices[vertex.vid].data.is_tombstone);
    assert(restored.vertices[vertex.vid].commit_ts == Timestamp(0));
    assert(reads_current(Timestamp(0), reader));
}

/// A transaction sees the vertex that it created, as it created it.
pub proof fn law_created_vertex_seen(store: StoreView, vertex: VertexView, writer: TxnView)
    ensures
        with_vertex(store, vertex, writer.txn_id).vertex_seen(vertex.vid, writer) == vertex,
        with_vertex(store, vertex, writer.txn_id).vertex_visible(vertex.vid, writer)
            == !vertex.is_tombstone,
{
}

/// A transaction sees the edge that it created, as it created it.
pub proof fn law_created_edge_seen(store: StoreView, edge: EdgeView, writer: TxnView)
    ensures
        with_edge(store, edge, writer.txn_id).edge_seen(edge.eid, writer) == edge,
        with_edge(store, edge, writer.txn_id).edge_visible(edge.eid, writer) == !edge.is_tombstone,
{
}

/// A vertex that a transaction created is not seen by another transaction before it is committed.
pub proof fn law_uncommitted_vertex_unseen(
    store: StoreView,
    vertex: VertexView,
    writer: TxnView,
    reader: TxnView,
)
    requires
        !reads_current(writer.txn_id, reader),
    ensures
        !with_vertex(store, vertex, writer.txn_id).vertex_visible(vertex.vid, reader),
{
    let created = with_vertex(store, vertex, writer.txn_id);
    assert(created.vertex_way(vertex.vid, reader) =~= seq![store.next_undo]);
    reveal_with_fuel(vertex_back, 2);
}

/// An edge that a transaction created is not seen by another transaction before it is committed.
pub proof fn law_uncommitted_edge_unseen(
    store: StoreView,
    edge: EdgeView,
    writer: TxnView,
    reader: TxnView,
)
    requires
        !reads_current(writer.txn_id, reader),
    ensures
        !with_edge(store, edge, writer.txn_id).edge_visible(edge.eid, reader),
{
    let created = with_edge(store, edge, writer.txn_id);
    assert(created.edge_way(edge.eid, reader) =~= seq![store.next_undo]);
    reveal_with_fuel(edge_back, 2);
}

proof fn lemma_stamped_frame(store: StoreView, delta: DeltaView, ts: Timestamp)
    ensures
        stamped(store, delta, ts).undo == store.undo,
        forall|vid: VertexId|
            vertex_target(delta) != Some(vid) ==> #[trigger] stamped(store, delta, ts).vertices[vid]
                == store.vertices[vid] && stamped(store, delta, ts).vertices.contains_key(vid)
                == store.vertices.contains_key(vid),
        forall|eid: EdgeId|
            edge_target(delta) != Some(eid) ==> #[trigger] stamped(store, delta, ts).edges[eid]
                == store.edges[eid] && stamped(store, delta, ts).edges.contains_key(eid)
                == store.edges.contains_key(eid),
{
}

/// Whether none of the versions that a transaction wrote is one that a reader reads.
pub open spec fn all_beyond(store: StoreView, keys: Seq<u64>, reader: TxnView) -> bool {
    &&& forall|vid: VertexId, i: int| #[trigger]
        is_about_vertex(store.undo, keys, i, vid) ==> store.vertices.contains_key(vid)
            && !reads_current(store.vertices[vid].commit_ts, reader)
    &&& forall|eid: EdgeId, i: int| #[trigger]
        is_about_edge(store.undo, keys, i, eid) ==> store.edges.contains_key(eid)
            && !reads_current(store.edges[eid].commit_ts, reader)
}

proof fn lemma_stamping_unseen(
    store: StoreView,
    keys: Seq<u64>,
    ts: Timestamp,
    reader: TxnView,
    i: int,
)
    requires
        0 <= i <= keys.len(),
        all_beyond(store, keys, reader),
        !reads_current(ts, reader),
    ensures
        ({
            let after = all_stamped(store, keys, ts, i);
            &&& forall|vid: VertexId| #[trigger]
                after.vertex_visible(vid, reader) == store.vertex_visible(vid, reader)
            &&& forall|vid: VertexId| #[trigger]
                after.vertex_seen(vid, reader) == store.vertex_seen(vid, reader)
            &&& forall|eid: EdgeId| #[trigger]
                after.edge_visible(eid, reader) == store.edge_visible(eid, reader)
            &&& forall|eid: EdgeId| #[trigger]
                after.edge_seen(eid, reader) == store.edge_seen(eid, reader)
        }),
    decreases keys.len() - i,
{
    if i < keys.len() {
        let delta = store.undo[keys[i]].delta;
        let next = stamped(store, delta, ts);
        lemma_stamped_frame(store, delta, ts);
        assert(all_beyond(next, keys, reader)) by {
            assert forall|vid: VertexId, j: int| #[trigger]
                is_about_vertex(next.undo, keys, j, vid) implies next.vertices.contains_key(vid)
                && !reads_current(next.vertices[vid].commit_ts, reader) by {
                assert(is_about_vertex(store.undo, keys, j, vid));
                if vertex_target(delta) != Some(vid) {
                    assert(next.vertices[vid] == store.vertices[vid]);
                }
            }
            assert forall|eid: EdgeId, j: int| #[trigger]
                is_about_edge(next.undo, keys, j, eid) implies next.edges.contains_key(eid)
                && !reads_current(next.edges[eid].commit_ts, reader) by {
                assert(is_about_edge(store.undo, keys, j, eid));
                if edge_target(delta) != Some(eid) {
                    assert(next.edges[eid] == store.edges[eid]);
                }
            }
        }
        assert forall|vid: VertexId| #[trigger]
            next.vertex_seen(vid, reader) == store.vertex_seen(vid, reader)
            && next.vertices.contains_key(vid) == store.vertices.contains_key(vid) by {
            if vertex_target(delta) == Some(vid) {
                assert(is_about_vertex(store.undo, keys, i, vid));
                assert(next.vertex_way(vid, reader) == store.vertex_way(vid, reader));
            } else {
                assert(next.vertices[vid] == store.vertices[vid]);
            }
        }
        assert forall|eid: EdgeId| #[trigger]
            next.edge_seen(eid, reader) == store.edge_seen(eid, reader)
            && next.edges.contains_key(eid) == store.edges.contains_key(eid) by {
            if edge_target(delta) == Some(eid) {
                assert(is_about_edge(store.undo, keys, i, eid));
                assert(next.edge_way(eid, reader) == store.edge_way(eid, reader));
            } else {
                assert(next.edges[eid] == store.edges[eid]);
            }
        }
        lemma_stamping_unseen(next, keys, ts, reader, i + 1);
        let after = all_stamped(store, keys, ts, i);
        assert(after == all_stamped(next, keys, ts, i + 1));
        assert forall|vid: VertexId| #[trigger]
            after.vertex_visible(vid, reader) == store.vertex_visible(vid, reader) by {
            assert(after.vertex_visible(vid, reader) == next.vertex_visible(vid, reader));
            assert(next.vertex_seen(vid, reader) == store.vertex_seen(vid, reader));
        }
        assert forall|vid: VertexId| #[trigger]
            after.vertex_seen(vid, reader) == store.vertex_seen(vid, reader) by {
            assert(next.vertex_seen(vid, reader) == store.vertex_seen(vid, reader));
        }
        assert forall|eid: EdgeId| #[trigger]
            after.edge_visible(eid, reader) == store.edge_visible(eid, reader) by {
            assert(after.edge_visible(eid, reader) == next.edge_visible(eid, reader));
            assert(next.edge_seen(eid, reader) == store.edge_seen(eid, reader));
        }
        assert forall|eid: EdgeId| #[trigger]
            after.edge_seen(eid, reader) == store.edge_seen(eid, reader) by {
            assert(next.edge_seen(eid, reader) == store.edge_seen(eid, reader));
        }
    }
}

/// A commit changes nothing of what a transaction sees that started before it: a transaction reads
/// from one snapshot.
pub proof fn law_commit_keeps_snapshot(
    store: StoreView,
    writer: TxnView,
    ts: Timestamp,
    reader: TxnView,
)
    requires
        all_beyond(store, writer.undo, reader),
        !reads_current(ts, reader),
    ensures
        ({
            let after = all_stamped(store, writer.undo, ts, 0);
            &&& forall|vid: VertexId| #[trigger]
                after.vertex_visible(vid, reader) == store.vertex_visible(vid, reader)
            &&& forall|vid: VertexId| #[trigger]
                after.vertex_seen(vid, reader) == store.vertex_seen(vid, reader)
            &&& forall|eid: EdgeId| #[trigger]
                after.edge_visible(eid, reader) == store.edge_visible(eid, reader)
            &&& forall|eid: EdgeId| #[trigger]
                after.edge_seen(eid, reader) == store.edge_seen(eid, reader)
        }),
{
    lemma_stamping_unseen(store, writer.undo, ts, reader, 0);
}

#[verifier::spinoff_prover]
pub(crate) proof fn lemma_stamps(store: StoreView, keys: Seq<u64>, ts: Timestamp, i: int)
    requires
        0 <= i <= keys.len(),
    ensures
        ({
            let after = all_stamped(store, keys, ts, i);
            &&& after.undo == store.undo
            &&& forall|vid: VertexId, j: int| #[trigger]
                is_about_vertex(store.undo, keys, j, vid) && i <= j
                    ==> after.vertices[vid].commit_ts == ts
            &&& forall|vid: VertexId| #[trigger]
                after.vertices[vid].data == store.vertices[vid].data && (
                after.vertices[vid].commit_ts == store.vertices[vid].commit_ts
                    || after.vertices[vid].commit_ts == ts)
            &&& forall|vid: VertexId|
                store.vertices.contains_key(vid) ==> #[trigger] after.vertices.contains_key(vid)
            &&& forall|eid: EdgeId, j: int| #[trigger]
                is_about_edge(store.undo, keys, j, eid) && i <= j ==> after.edges[eid].commit_ts
                    == ts
            &&& forall|eid: EdgeId| #[trigger]
                after.edges[eid].data == store.edges[eid].data && (after.edges[eid].commit_ts
                    == store.edges[eid].commit_ts || after.edges[eid].commit_ts == ts)
            &&& forall|eid: EdgeId|
                store.edges.contains_key(eid) ==> #[trigger] after.edges.contains_key(eid)
        }),
    decreases keys.len() - i,
{
    if i < keys.len() {
        let delta = store.undo[keys[i]].delta;
        let next = stamped(store, delta, ts);
        lemma_stamped_frame(store, delta, ts);
        lemma_stamps(next, keys, ts, i + 1);
        let after = all_stamped(store, keys, ts, i);
        assert(after == all_stamped(next, keys, ts, i + 1));
        assert forall|vid: VertexId, j: int| #[trigger]
            is_about_vertex(store.undo, keys, j, vid) && i <= j implies after.vertices[vid].commit_ts
            == ts by {
            if j == i {
                assert(next.vertices[vid].commit_ts == ts);
                assert(after.vertices[vid].data == next.vertices[vid].data);
            } else {
                assert(is_about_vertex(next.undo, keys, j, vid));
            }
        }
        assert forall|vid: VertexId| #[trigger]
            after.vertices[vid].data == store.vertices[vid].data && (after.vertices[vid].commit_ts
                == store.vertices[vid].commit_ts || after.vertices[vid].commit_ts == ts) by {
            assert(after.vertices[vid].data == next.vertices[vid].data);
            if vertex_target(delta) != Some(vid) {
                assert(next.vertices[vid] == store.vertices[vid]);
            }
        }
        assert forall|eid: EdgeId, j: int| #[trigger]
            is_about_edge(store.undo, keys, j, eid) && i <= j implies after.edges[eid].commit_ts
            == ts by {
            if j == i {
                assert(next.edges[eid].commit_ts == ts);
                assert(after.edges[eid].data == next.edges[eid].data);
            } else {
                assert(is_about_edge(next.undo, keys, j, eid));
            }
        }
        assert forall|eid: EdgeId| #[trigger]
            after.edges[eid].data == store.edges[eid].data && (after.edges[eid].commit_ts
                == store.edges[eid].commit_ts || after.edges[eid].commit_ts == ts) by {
            assert(after.edges[eid].data == next.edges[eid].data);
            if edge_target(delta) != Some(eid) {
                assert(next.edges[eid] == store.edges[eid]);
            }
        }
        assert forall|vid: VertexId|
            store.vertices.contains_key(vid) implies #[trigger] after.vertices.contains_key(vid) by {
            assert(next.vertices.contains_key(vid));
        }
        assert forall|eid: EdgeId|
            store.edges.contains_key(eid) implies #[trigger] after.edges.contains_key(eid) by {
            assert(next.edges.contains_key(eid));
        }
    }
}

/// A transaction that starts after a commit sees what the commit wrote.
pub proof fn law_commit_seen_later(
    store: StoreView,
    writer: TxnView,
    ts: Timestamp,
    reader: TxnView,
)
    requires
        ts.0 <= reader.start_ts.0,
    ensures
        ({
            let after = all_stamped(store, writer.undo, ts, 0);
            &&& forall|vid: VertexId, i: int| #[trigger]
                is_about_vertex(store.undo, writer.undo, i, vid) ==> after.vertex_seen(vid, reader)
                    == store.vertices[vid].data
            &&& forall|eid: EdgeId, i: int| #[trigger]
                is_about_edge(store.undo, writer.undo, i, eid) ==> after.edge_seen(eid, reader)
                    == store.edges[eid].data
        }),
{
    lemma_stamps(store, writer.undo, ts, 0);
    let after = all_stamped(store, writer.undo, ts, 0);
    assert forall|vid: VertexId, i: int| #[trigger]
        is_about_vertex(store.undo, writer.undo, i, vid) implies after.vertex_seen(vid, reader)
        == store.vertices[vid].data by {
        assert(after.vertices[vid].data == store.vertices[vid].data);
        assert(after.vertex_way(vid, reader) =~= Seq::<u64>::empty());
    }
    assert forall|eid: EdgeId, i: int| #[trigger]
        is_about_edge(store.undo, writer.undo, i, eid) implies after.edge_seen(eid, reader)
        == store.edges[eid].data by {
        assert(after.edges[eid].data == store.edges[eid].data);
        assert(after.edge_way(eid, reader) =~= Seq::<u64>::empty());
    }
}

/// A serializable transaction is committed only where nothing that it read has been modified by
/// others since it started.
pub proof fn law_serializable_commit(
    graph: GraphView,
    txn: TxnView,
    commit_ts: Option<Timestamp>,
    skip_wal: bool,
    events: Seq<Event>,
    graph_after: GraphView,
    txn_after: TxnView,
    result: Result<Timestamp, ErrorView>,
)
    requires
        commits(graph, txn, commit_ts, skip_wal, events, graph_after, txn_after, result),
        txn.isolation_level == IsolationLevel::Serializable,
        result is Ok,
    ensures
        reads_valid(graph.store, txn),
{
}

/// No transaction is committed twice: a commit of one that has a commit timestamp fails.
pub proof fn law_commit_once(
    graph: GraphView,
    txn: TxnView,
    commit_ts: Option<Timestamp>,
    skip_wal: bool,
    events: Seq<Event>,
    graph_after: GraphView,
    txn_after: TxnView,
    result: Result<Timestamp, ErrorView>,
)
    requires
        commits(graph, txn, commit_ts, skip_wal, events, graph_after, txn_after, result),
        txn.commit_ts is Some,
    ensures
        result is Err,
{
}

/// What a transaction that was committed has handed to the log: its own entries in their order,
/// with consecutive positions, then the commit, and then the log was made safe, all before anything
/// else was asked. A commit that is not to be logged hands nothing over.
pub proof fn law_commit_logged(
    graph: GraphView,
    txn: TxnView,
    commit_ts: Option<Timestamp>,
    skip_wal: bool,
    events: Seq<Event>,
    graph_after: GraphView,
    txn_after: TxnView,
    ts: Timestamp,
)
    requires
        commits(graph, txn, commit_ts, skip_wal, events, graph_after, txn_after, Ok(ts)),
    ensures
        ({
            let n = txn.redo.len() as int;
            let entries = commit_log(txn, ts, graph.next_lsn);
            !skip_wal ==> {
                &&& events.len() >= n + 2
                &&& forall|i: int|
                    0 <= i <= n ==> #[trigger] events[i] == Event::Append(entries[i], Ok(()))
                &&& forall|i: int|
                    0 <= i < n ==> #[trigger] entries[i] == (RedoView {
                        lsn: graph.next_lsn.wrapping_add(i as u64),
                        ..txn.redo[i]
                    })
                &&& entries[n] == commit_entries(txn, ts, graph.next_lsn.wrapping_add(n as u64))[0]
                &&& events[n + 1] == Event::Flush(Ok(()))
            }
        }),
        forall|i: int|
            (if skip_wal {
                0
            } else {
                txn.redo.len() + 2
            }) <= i < events.len() ==> !(#[trigger] events[i] is Append) && !(events[i] is Flush),
{
    let (between, settled, k) = choose|
        between: GraphView,
        settled: Result<Timestamp, ErrorView>,
        k: int,
    | #[trigger]
        settles(
            graph,
            txn,
            commit_ts,
            skip_wal,
            events.take(k),
            between,
            txn_after,
            settled,
        ) && 0 <= k <= events.len() && match settled {
            Err(_) => k == events.len() && graph_after == between && settled == Ok::<
                Timestamp,
                ErrorView,
            >(ts),
            Ok(_) => exists|made: Result<Option<Seq<char>>, ErrorView>| #[trigger]
                auto_checks(between, events.skip(k), graph_after, made) && Ok::<
                    Timestamp,
                    ErrorView,
                >(ts) == match made {
                    Ok(_) => settled,
                    Err(error) => Err(error),
                },
        };
    let first = events.take(k);
    let made = choose|made: Result<Option<Seq<char>>, ErrorView>| #[trigger]
        auto_checks(between, events.skip(k), graph_after, made) && made is Ok;
    lemma_checks_log_nothing(between, events.skip(k), graph_after, made);
    assert forall|i: int| k <= i < events.len() implies !(#[trigger] events[i] is Append) && !(
    events[i] is Flush) by {
        assert(events[i] == events.skip(k)[i - k]);
    }
    if !skip_wal {
        let n = txn.redo.len() as int;
        let entries = commit_log(txn, ts, graph.next_lsn);
        let front = first.drop_last();
        assert forall|i: int| 0 <= i <= n implies #[trigger] events[i] == Event::Append(
            entries[i],
            Ok(()),
        ) by {
            assert(front[i] == events[i]);
        }
        assert(first.last() == events[n + 1]);
    }
}

proof fn lemma_pruning_logs_nothing(
    entries: Seq<EntryView>,
    count: nat,
    events: Seq<Event>,
    after: Seq<EntryView>,
    result: Result<(), ErrorView>,
)
    requires
        prunes(entries, count, events, after, result),
    ensures
        forall|i: int| 0 <= i < events.len() ==> #[trigger] events[i] is Remove,
    decreases count,
{
    if count > 0 {
        if events[0]->Remove_1 is Ok {
            lemma_pruning_logs_nothing(
                entries.remove(oldest(entries)),
                (count - 1) as nat,
                events.drop_first(),
                after,
                result,
            );
        }
        assert forall|i: int| 0 <= i < events.len() implies #[trigger] events[i] is Remove by {
            if i > 0 {
                assert(events[i] == events.drop_first()[i - 1]);
            }
        }
    }
}

proof fn lemma_checks_log_nothing(
    graph: GraphView,
    events: Seq<Event>,
    graph_after: GraphView,
    made: Result<Option<Seq<char>>, ErrorView>,
)
    requires
        auto_checks(graph, events, graph_after, made),
        made is Ok,
    ensures
        forall|i: int|
            0 <= i < events.len() ==> !(#[trigger] events[i] is Append) && !(events[i] is Flush),
{
    if graph.checkpoints is Some {
        let before = graph.checkpoints->0;
        let after = graph_after.checkpoints->0;
        if events.len() > 1 {
            let rest = events.drop_first();
            let time = rest[0]->Time_0;
            let kept = rest.drop_first();
            let checkpoint = choose|checkpoint: CheckpointView| #[trigger]
                is_snapshot(checkpoint, without_manager(graph), in_secs(time)) && exists|
                    text: Seq<char>,
                    id: Seq<char>,
                | #[trigger]
                    keeps(before, checkpoint, Some(text), kept, id, after, Ok(made->Ok_0->0));
            let (text, id) = choose|text: Seq<char>, id: Seq<char>| #[trigger]
                keeps(before, checkpoint, Some(text), kept, id, after, Ok(made->Ok_0->0));
            let saved = with_saved(
                before,
                id,
                checkpoint.metadata,
                Some(text),
                kept[4]->Time_0,
                kept[5]->Time_0,
            );
            lemma_pruning_logs_nothing(
                saved.entries,
                surplus(saved),
                kept.skip(6),
                after.entries,
                Ok(()),
            );
            assert forall|i: int| 0 <= i < events.len() implies !(#[trigger] events[i] is Append)
                && !(events[i] is Flush) by {
                if i > 1 {
                    assert(events[i] == kept[i - 2]);
                    if 3 <= i <= 5 {
                        assert(kept[i - 2] == kept.subrange(1, 4)[i - 3]);
                    } else if i >= 8 {
                        assert(kept[i - 2] == kept.skip(6)[i - 8]);
                    }
                } else if i == 1 {
                    assert(events[i] == rest[0]);
                }
            }
        }
    }
}

} // verus!
