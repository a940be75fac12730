//! What holds of every garbage collection.

use vstd::prelude::*;

#[allow(unused_imports)]
use super::gc::{
    adjacency_without, ascending, collects, edge_dead, enumerates, enumerates_vertices,
    expired_edges, expired_vertices, forgotten, swept, swept_edge, sweeps, undo_expired,
    undo_forgotten, vertex_dead, vertex_noted, vertices_noted, vertices_swept, without_edge,
    without_vertex, ExpiredEdge,
};
#[allow(unused_imports)]
use super::manager::ManagerView;
#[allow(unused_imports)]
use super::memory_graph::{edge_back, edge_before, reads_current, vertex_back, vertex_before};
#[allow(unused_imports)]
use super::model::{
    with_adjacency, without_incoming, without_outgoing, Adjacency, DeltaView, EdgeView, StoreView,
    Timestamp, UndoPtr, UndoView, VertexView,
};
#[allow(unused_imports)]
use super::transaction::{read_chain, TxnView};
#[allow(unused_imports)]
use crate::collections::skip::NeighborKey;
#[allow(unused_imports)]
use crate::common::types::{EdgeId, VertexId};

verus! {

/// Whether a vertex is an end point of one of the edges from the `i`th on.
pub open spec fn is_end_point(
    expired: Map<EdgeId, ExpiredEdge>,
    order: Seq<EdgeId>,
    i: int,
    vid: VertexId,
) -> bool {
    exists|k: int|
        i <= k < order.len() && (expired[#[trigger] order[k]].src_id == vid
            || expired[order[k]].dst_id == vid)
}

/// Whether an edge is one of those from the `i`th on.
pub open spec fn is_listed(order: Seq<EdgeId>, i: int, eid: EdgeId) -> bool {
    exists|k: int| i <= k < order.len() && #[trigger] order[k] == eid
}

/// Going through the expired edges removes exactly the deleted vertices that are end points of
/// them, and exactly those that are deleted; whatever the order, and nothing else of vertices and
/// edges changes.
pub proof fn law_swept_exactly(
    store: StoreView,
    expired: Map<EdgeId, ExpiredEdge>,
    order: Seq<EdgeId>,
    i: int,
)
    requires
        0 <= i <= order.len(),
    ensures
        forall|vid: VertexId| #[trigger]
            swept(store, expired, order, i).vertices.contains_key(vid) <==> (
            store.vertices.contains_key(vid) && !(vertex_dead(store, vid) && is_end_point(
                expired,
                order,
                i,
                vid,
            ))),
        forall|vid: VertexId| #[trigger]
            swept(store, expired, order, i).vertices.contains_key(vid) ==> swept(
                store,
                expired,
                order,
                i,
            ).vertices[vid] == store.vertices[vid],
        forall|eid: EdgeId| #[trigger]
            swept(store, expired, order, i).edges.contains_key(eid) <==> (
            store.edges.contains_key(eid) && !(edge_dead(store, eid) && is_listed(order, i, eid))),
        forall|eid: EdgeId| #[trigger]
            swept(store, expired, order, i).edges.contains_key(eid) ==> swept(
                store,
                expired,
                order,
                i,
            ).edges[eid] == store.edges[eid],
        forall|vid: VertexId|
            #![trigger swept(store, expired, order, i).adjacency.contains_key(vid)]
            swept(store, expired, order, i).adjacency.contains_key(vid)
                ==> store.adjacency.contains_key(vid) && !(vertex_dead(store, vid) && is_end_point(
                expired,
                order,
                i,
                vid,
            )),
        swept(store, expired, order, i).undo == store.undo,
    decreases order.len() - i,
{
    if i < order.len() {
        let eid = order[i];
        let edge = expired[eid];
        let next = swept_edge(store, eid, edge);
        law_swept_exactly(next, expired, order, i + 1);
        assert forall|vid: VertexId| #[trigger]
            is_end_point(expired, order, i, vid) == (is_end_point(expired, order, i + 1, vid)
                || edge.src_id == vid || edge.dst_id == vid) by {
            assert(is_end_point(expired, order, i, vid) == (is_end_point(
                expired,
                order,
                i + 1,
                vid,
            ) || edge.src_id == vid || edge.dst_id == vid)) by {
                if is_end_point(expired, order, i, vid) {
                    let k = choose|k: int|
                        i <= k < order.len() && (expired[#[trigger] order[k]].src_id == vid
                            || expired[order[k]].dst_id == vid);
                    if k > i {
                        assert(expired[order[k]].src_id == vid || expired[order[k]].dst_id == vid);
                    }
                }
                if edge.src_id == vid || edge.dst_id == vid {
                    assert(expired[order[i]].src_id == vid || expired[order[i]].dst_id == vid);
                }
                if is_end_point(expired, order, i + 1, vid) {
                    let k = choose|k: int|
                        i + 1 <= k < order.len() && (expired[#[trigger] order[k]].src_id == vid
                            || expired[order[k]].dst_id == vid);
                    assert(expired[order[k]].src_id == vid || expired[order[k]].dst_id == vid);
                }
            }
        }
        assert forall|vid: VertexId| #[trigger]
            swept(store, expired, order, i).vertices.contains_key(vid) <==> (
        store.vertices.contains_key(vid) && !(vertex_dead(store, vid) && is_end_point(
            expired,
            order,
            i,
            vid,
        ))) by {
            assert(is_end_point(expired, order, i, vid) == (is_end_point(
                expired,
                order,
                i + 1,
                vid,
            ) || edge.src_id == vid || edge.dst_id == vid));
        }
        assert forall|vid: VertexId|
            #![trigger swept(store, expired, order, i).adjacency.contains_key(vid)]
            swept(store, expired, order, i).adjacency.contains_key(vid) implies (
        store.adjacency.contains_key(vid) && !(vertex_dead(store, vid) && is_end_point(
            expired,
            order,
            i,
            vid,
        ))) by {
            assert(is_end_point(expired, order, i, vid) == (is_end_point(
                expired,
                order,
                i + 1,
                vid,
            ) || edge.src_id == vid || edge.dst_id == vid));
            assert(next.adjacency.contains_key(vid));
        }
        assert forall|e: EdgeId| #[trigger]
            swept(store, expired, order, i).edges.contains_key(e) <==> (store.edges.contains_key(e)
            && !(edge_dead(store, e) && is_listed(order, i, e))) by {
            assert(is_listed(order, i, e) == (is_listed(order, i + 1, e) || e == eid)) by {
                if is_listed(order, i, e) {
                    let k = choose|k: int| i <= k < order.len() && #[trigger] order[k] == e;
                    if k > i {
                        assert(order[k] == e);
                    }
                }
                if is_listed(order, i + 1, e) {
                    let k = choose|k: int| i + 1 <= k < order.len() && #[trigger] order[k] == e;
                    assert(order[k] == e);
                }
                assert(order[i] == eid);
            }
        }
    }
}

/// Going through the expired vertices removes exactly those that are deleted, with their
/// neighbours; whatever the order, and nothing else of vertices and edges changes.
pub proof fn law_vertices_swept_exactly(store: StoreView, order: Seq<VertexId>, i: int)
    requires
        0 <= i <= order.len(),
    ensures
        forall|vid: VertexId| #[trigger]
            vertices_swept(store, order, i).vertices.contains_key(vid) <==> (
            store.vertices.contains_key(vid) && !(vertex_dead(store, vid) && is_listed(
                order,
                i,
                vid,
            ))),
        forall|vid: VertexId| #[trigger]
            vertices_swept(store, order, i).vertices.contains_key(vid) ==> vertices_swept(
                store,
                order,
                i,
            ).vertices[vid] == store.vertices[vid],
        forall|vid: VertexId|
            #![trigger vertices_swept(store, order, i).adjacency.contains_key(vid)]
            vertices_swept(store, order, i).adjacency.contains_key(vid)
                ==> store.adjacency.contains_key(vid) && !(vertex_dead(store, vid) && is_listed(
                order,
                i,
                vid,
            )),
        vertices_swept(store, order, i).edges == store.edges,
        vertices_swept(store, order, i).undo == store.undo,
    decreases order.len() - i,
{
    if i < order.len() {
        let vid = order[i];
        let next = if vertex_dead(store, vid) {
            without_vertex(store, vid)
        } else {
            store
        };
        law_vertices_swept_exactly(next, order, i + 1);
        assert forall|v: VertexId| is_listed(order, i, v) == (is_listed(order, i + 1, v) || v
            == vid) by {
            if is_listed(order, i, v) {
                let k = choose|k: int| i <= k < order.len() && #[trigger] order[k] == v;
                if k > i {
                    assert(order[k] == v);
                }
            }
            if is_listed(order, i + 1, v) {
                let k = choose|k: int| i + 1 <= k < order.len() && #[trigger] order[k] == v;
                assert(order[k] == v);
            }
            assert(order[i] == vid);
        }
        let after = vertices_swept(store, order, i);
        assert(after == vertices_swept(next, order, i + 1));
        assert forall|v: VertexId| #[trigger] after.adjacency.contains_key(v) implies (
        store.adjacency.contains_key(v) && !(vertex_dead(store, v) && is_listed(order, i, v))) by {
            assert(next.adjacency.contains_key(v));
            assert(is_listed(order, i, v) == (is_listed(order, i + 1, v) || v == vid));
        }
    }
}

/// Garbage collection removes nothing that is not deleted, forgets exactly the transactions that
/// were committed before the watermark, and exactly their undo entries.
pub proof fn law_garbage_only(
    manager: ManagerView,
    store: StoreView,
    manager_after: ManagerView,
    store_after: StoreView,
)
    requires
        collects(manager, store, manager_after, store_after),
    ensures
        forall|vid: VertexId|
            store.vertices.contains_key(vid) && !store.vertices[vid].data.is_tombstone
                ==> #[trigger] store_after.vertices.contains_key(vid) && store_after.vertices[vid]
                == store.vertices[vid],
        forall|eid: EdgeId|
            store.edges.contains_key(eid) && !store.edges[eid].data.is_tombstone
                ==> #[trigger] store_after.edges.contains_key(eid) && store_after.edges[eid]
                == store.edges[eid],
        forall|vid: VertexId| #[trigger]
            store_after.vertices.contains_key(vid) ==> store.vertices.contains_key(vid),
        forall|eid: EdgeId| #[trigger]
            store_after.edges.contains_key(eid) ==> store.edges.contains_key(eid),
        forall|ts: u64| #[trigger]
            manager_after.committed.contains_key(ts) <==> manager.committed.contains_key(ts) && ts
                >= manager.watermark,
        forall|key: u64| #[trigger]
            store_after.undo.contains_key(key) <==> store.undo.contains_key(key) && !undo_expired(
                manager,
                key,
            ),
        manager_after.active == manager.active,
        manager_after.watermark == manager.watermark,
{
    let (commits, edge_order, vertex_order) = choose|
        commits: Seq<u64>,
        edge_order: Seq<EdgeId>,
        vertex_order: Seq<VertexId>,
    | #[trigger]
        sweeps(manager, store, commits, edge_order, vertex_order, store_after);
    let expired = expired_edges(manager, store.undo, commits, Map::empty(), 0);
    let clean = undo_forgotten(store, manager);
    let halfway = swept(clean, expired, edge_order, 0);
    law_swept_exactly(clean, expired, edge_order, 0);
    law_vertices_swept_exactly(halfway, vertex_order, 0);
    assert forall|vid: VertexId|
        store.vertices.contains_key(vid) && !store.vertices[vid].data.is_tombstone implies (
    #[trigger] store_after.vertices.contains_key(vid)) && store_after.vertices[vid]
        == store.vertices[vid] by {
        assert(halfway.vertices.contains_key(vid));
    }
    assert forall|vid: VertexId| #[trigger]
        store_after.vertices.contains_key(vid) implies store.vertices.contains_key(vid) by {
        assert(halfway.vertices.contains_key(vid));
    }
}

/// Whether what leads back to an undo entry of an expired transaction is a version that was
/// committed before the watermark.
pub open spec fn versions_stamped(manager: ManagerView, store: StoreView) -> bool {
    &&& forall|vid: VertexId| #[trigger]
        store.vertices.contains_key(vid) && leads_to_expired(manager, store.vertices[vid].undo_ptr)
            ==> store.vertices[vid].commit_ts.0 < manager.watermark
    &&& forall|eid: EdgeId| #[trigger]
        store.edges.contains_key(eid) && leads_to_expired(manager, store.edges[eid].undo_ptr)
            ==> store.edges[eid].commit_ts.0 < manager.watermark
    &&& forall|key: u64| #[trigger]
        store.undo.contains_key(key) && !undo_expired(manager, key) && leads_to_expired(
            manager,
            store.undo[key].next,
        ) ==> store.undo[key].timestamp.0 < manager.watermark
}

/// Whether a place is that of an undo entry of an expired transaction.
pub open spec fn leads_to_expired(manager: ManagerView, ptr: UndoPtr) -> bool {
    match ptr {
        Some(key) => undo_expired(manager, key),
        None => false,
    }
}

proof fn lemma_chain_kept(
    manager: ManagerView,
    store: StoreView,
    ptr: UndoPtr,
    start_ts: Timestamp,
)
    requires
        versions_stamped(manager, store),
        manager.watermark <= start_ts.0,
        !leads_to_expired(manager, ptr),
    ensures
        ({
            let undo = undo_forgotten(store, manager).undo;
            let chain = read_chain(store.undo, ptr, start_ts);
            &&& read_chain(undo, ptr, start_ts) == chain
            &&& forall|i: int|
                0 <= i < chain.len() ==> undo.contains_key(#[trigger] chain[i]) && undo[chain[i]]
                    == store.undo[chain[i]]
        }),
    decreases
            match ptr {
                Some(key) => key + 1,
                None => 0,
            },
{
    if let Some(key) = ptr {
        if store.undo.contains_key(key) && store.undo[key].timestamp.0 >= start_ts.0 {
            if let Some(next) = store.undo[key].next {
                if next < key {
                    lemma_chain_kept(manager, store, Some(next), start_ts);
                }
            }
        }
    }
}

proof fn lemma_vertex_back_kept(
    data: VertexView,
    undo: Map<u64, UndoView>,
    other: Map<u64, UndoView>,
    keys: Seq<u64>,
    i: int,
)
    requires
        forall|j: int| 0 <= j < keys.len() ==> undo[#[trigger] keys[j]] == other[keys[j]],
    ensures
        vertex_back(data, undo, keys, i) == vertex_back(data, other, keys, i),
    decreases keys.len() - i,
{
    if 0 <= i < keys.len() {
        lemma_vertex_back_kept(vertex_before(data, undo[keys[i]].delta), undo, other, keys, i + 1);
    }
}

proof fn lemma_edge_back_kept(
    data: EdgeView,
    undo: Map<u64, UndoView>,
    other: Map<u64, UndoView>,
    keys: Seq<u64>,
    i: int,
)
    requires
        forall|j: int| 0 <= j < keys.len() ==> undo[#[trigger] keys[j]] == other[keys[j]],
    ensures
        edge_back(data, undo, keys, i) == edge_back(data, other, keys, i),
    decreases keys.len() - i,
{
    if 0 <= i < keys.len() {
        lemma_edge_back_kept(edge_before(data, undo[keys[i]].delta), undo, other, keys, i + 1);
    }
}

/// Garbage collection changes nothing of what an active transaction sees: it sees the same vertices
/// and edges, in the same versions. Left out is the removal of a vertex or an edge that was created
/// and deleted again since, so that its deletion is not what the transaction reads.
pub proof fn law_collection_keeps_snapshot(
    manager: ManagerView,
    store: StoreView,
    manager_after: ManagerView,
    store_after: StoreView,
    reader: TxnView,
)
    requires
        collects(manager, store, manager_after, store_after),
        versions_stamped(manager, store),
        manager.watermark <= reader.start_ts.0,
        forall|vid: VertexId| #[trigger]
            store.vertices.contains_key(vid) && !store_after.vertices.contains_key(vid)
                ==> reads_current(store.vertices[vid].commit_ts, reader),
        forall|eid: EdgeId| #[trigger]
            store.edges.contains_key(eid) && !store_after.edges.contains_key(eid)
                ==> reads_current(store.edges[eid].commit_ts, reader),
    ensures
        forall|vid: VertexId| #[trigger]
            store_after.vertex_visible(vid, reader) == store.vertex_visible(vid, reader),
        forall|vid: VertexId| #[trigger]
            store.vertex_visible(vid, reader) ==> store_after.vertex_seen(vid, reader)
                == store.vertex_seen(vid, reader),
        forall|eid: EdgeId| #[trigger]
            store_after.edge_visible(eid, reader) == store.edge_visible(eid, reader),
        forall|eid: EdgeId| #[trigger]
            store.edge_visible(eid, reader) ==> store_after.edge_seen(eid, reader)
                == store.edge_seen(eid, reader),
{
    law_garbage_only(manager, store, manager_after, store_after);
    let (commits, edge_order, vertex_order) = choose|
        commits: Seq<u64>,
        edge_order: Seq<EdgeId>,
        vertex_order: Seq<VertexId>,
    | #[trigger]
        sweeps(manager, store, commits, edge_order, vertex_order, store_after);
    let expired = expired_edges(manager, store.undo, commits, Map::empty(), 0);
    let clean = undo_forgotten(store, manager);
    let halfway = swept(clean, expired, edge_order, 0);
    law_swept_exactly(clean, expired, edge_order, 0);
    law_vertices_swept_exactly(halfway, vertex_order, 0);
    assert(store_after.undo == clean.undo);
    assert forall|vid: VertexId| store.vertices.contains_key(vid) implies ((
    #[trigger] store_after.vertices.contains_key(vid)) ==> store_after.vertex_seen(vid, reader)
        == store.vertex_seen(vid, reader)) && (!store_after.vertices.contains_key(vid)
        ==> store.vertex_seen(vid, reader).is_tombstone) by {
        let version = store.vertices[vid];
        if store_after.vertices.contains_key(vid) {
            assert(halfway.vertices.contains_key(vid));
            assert(store_after.vertices[vid] == version);
            if !reads_current(version.commit_ts, reader) {
                lemma_chain_kept(manager, store, version.undo_ptr, reader.start_ts);
                lemma_vertex_back_kept(
                    version.data,
                    store.undo,
                    clean.undo,
                    store.vertex_way(vid, reader),
                    0,
                );
            }
        } else {
            assert(version.data.is_tombstone);
        }
    }
    assert forall|eid: EdgeId| store.edges.contains_key(eid) implies ((
    #[trigger] store_after.edges.contains_key(eid)) ==> store_after.edge_seen(eid, reader)
        == store.edge_seen(eid, reader)) && (!store_after.edges.contains_key(eid)
        ==> store.edge_seen(eid, reader).is_tombstone) by {
        let version = store.edges[eid];
        if store_after.edges.contains_key(eid) {
            assert(halfway.edges.contains_key(eid));
            assert(store_after.edges[eid] == version);
            if !reads_current(version.commit_ts, reader) {
                lemma_chain_kept(manager, store, version.undo_ptr, reader.start_ts);
                lemma_edge_back_kept(
                    version.data,
                    store.undo,
                    clean.undo,
                    store.edge_way(eid, reader),
                    0,
                );
            }
        } else {
            assert(version.data.is_tombstone);
        }
    }
    assert forall|vid: VertexId| #[trigger]
        store_after.vertex_visible(vid, reader) == store.vertex_visible(vid, reader) by {
        assert(store_after.vertices.contains_key(vid) ==> store.vertices.contains_key(vid));
    }
    assert forall|vid: VertexId| #[trigger]
        store.vertex_visible(vid, reader) implies store_after.vertex_seen(vid, reader)
        == store.vertex_seen(vid, reader) by {
        assert(store_after.vertex_visible(vid, reader));
    }
    assert forall|eid: EdgeId| #[trigger]
        store_after.edge_visible(eid, reader) == store.edge_visible(eid, reader) by {
        assert(store_after.edges.contains_key(eid) ==> store.edges.contains_key(eid));
    }
    assert forall|eid: EdgeId| #[trigger]
        store.edge_visible(eid, reader) implies store_after.edge_seen(eid, reader)
        == store.edge_seen(eid, reader) by {
        assert(store_after.edge_visible(eid, reader));
    }
}

/// Whether an undo entry of the expired transactions, the `k`th of the `n`th, tells of a change.
pub open spec fn tells(
    manager: ManagerView,
    undo: Map<u64, UndoView>,
    commits: Seq<u64>,
    n: int,
    k: int,
    delta: DeltaView,
) -> bool {
    let keys = manager.committed_undo[commits[n]];
    &&& 0 <= n < commits.len()
    &&& commits[n] < manager.watermark
    &&& 0 <= k < keys.len()
    &&& undo.contains_key(keys[k])
    &&& undo[keys[k]].delta == delta
}

/// Whether an undo entry comes after another.
pub open spec fn comes_after(n: int, k: int, m: int, l: int) -> bool {
    n > m || (n == m && k > l)
}

/// Whether an undo entry tells that a vertex was deleted.
spec fn tells_deletion(undo: Map<u64, UndoView>, key: u64, vid: VertexId) -> bool {
    undo.contains_key(key) && match undo[key].delta {
        DeltaView::CreateVertex(vertex) => vertex.vid == vid,
        _ => false,
    }
}

proof fn lemma_noted_kept(
    undo: Map<u64, UndoView>,
    keys: Seq<u64>,
    expired: Set<VertexId>,
    i: int,
    vid: VertexId,
)
    requires
        0 <= i <= keys.len(),
        expired.contains(vid) || exists|k: int|
            i <= k < keys.len() && #[trigger] tells_deletion(undo, keys[k], vid),
        forall|k: int|
            i <= k < keys.len() && undo.contains_key(#[trigger] keys[k]) && undo[keys[k]].delta
                == DeltaView::DelVertex(vid) ==> exists|l: int|
                k < l < keys.len() && #[trigger] tells_deletion(undo, keys[l], vid),
    ensures
        vertices_noted(undo, keys, expired, i).contains(vid),
    decreases keys.len() - i,
{
    if i < keys.len() {
        if undo.contains_key(keys[i]) {
            let next = vertex_noted(expired, undo[keys[i]].delta);
            if !next.contains(vid) {
                if expired.contains(vid) {
                    assert(undo[keys[i]].delta == DeltaView::DelVertex(vid));
                } else {
                    let k = choose|k: int|
                        i <= k < keys.len() && #[trigger] tells_deletion(undo, keys[k], vid);
                    assert(k > i);
                    assert(tells_deletion(undo, keys[k], vid));
                }
            }
            lemma_noted_kept(undo, keys, next, i + 1, vid);
        } else {
            lemma_noted_kept(undo, keys, expired, i + 1, vid);
        }
    }
}

proof fn lemma_expired_kept(
    manager: ManagerView,
    undo: Map<u64, UndoView>,
    commits: Seq<u64>,
    expired: Set<VertexId>,
    i: int,
    n: int,
    k: int,
    vertex: VertexView,
)
    requires
        0 <= i <= commits.len(),
        forall|a: int, b: int|
            0 <= a < b < commits.len() ==> (#[trigger] commits[a]) < (#[trigger] commits[b]),
        tells(manager, undo, commits, n, k, DeltaView::CreateVertex(vertex)),
        forall|m: int, l: int|
            comes_after(m, l, n, k) ==> !#[trigger] tells(
                manager,
                undo,
                commits,
                m,
                l,
                DeltaView::DelVertex(vertex.vid),
            ),
        i > n ==> expired.contains(vertex.vid),
    ensures
        expired_vertices(manager, undo, commits, expired, i).contains(vertex.vid),
    decreases commits.len() - i,
{
    let vid = vertex.vid;
    if i < commits.len() && commits[i] < manager.watermark {
        let keys = manager.committed_undo[commits[i]];
        let next = vertices_noted(undo, keys, expired, 0);
        if i >= n {
            assert forall|j: int|
                0 <= j < keys.len() && undo.contains_key(#[trigger] keys[j]) && undo[keys[j]].delta
                    == DeltaView::DelVertex(vid) implies exists|l: int|
                j < l < keys.len() && #[trigger] tells_deletion(undo, keys[l], vid) by {
                assert(tells(manager, undo, commits, i, j, DeltaView::DelVertex(vid)));
                assert(!comes_after(i, j, n, k));
                assert(tells_deletion(undo, keys[k], vid));
            }
            if i == n {
                assert(tells_deletion(undo, keys[k], vid));
            }
            lemma_noted_kept(undo, keys, expired, 0, vid);
        }
        lemma_expired_kept(manager, undo, commits, next, i + 1, n, k, vertex);
    } else {
        if i <= n {
            if i < n {
                assert(commits[i] < commits[n]);
            }
        }
    }
}

/// A vertex that an expired transaction deleted, and that no expired transaction created again
/// since, is removed where it is still deleted, and its neighbours are forgotten.
pub proof fn law_deleted_vertex_removed(
    manager: ManagerView,
    store: StoreView,
    manager_after: ManagerView,
    store_after: StoreView,
    commits: Seq<u64>,
    n: int,
    k: int,
    vertex: VertexView,
)
    requires
        collects(manager, store, manager_after, store_after),
        ascending(commits, manager.committed),
        tells(manager, store.undo, commits, n, k, DeltaView::CreateVertex(vertex)),
        forall|m: int, l: int|
            comes_after(m, l, n, k) ==> !#[trigger] tells(
                manager,
                store.undo,
                commits,
                m,
                l,
                DeltaView::DelVertex(vertex.vid),
            ),
        vertex_dead(store, vertex.vid),
    ensures
        !store_after.vertices.contains_key(vertex.vid),
        !store_after.adjacency.contains_key(vertex.vid),
        !manager_after.committed.contains_key(commits[n]),
{
    let (other, edge_order, vertex_order) = choose|
        other: Seq<u64>,
        edge_order: Seq<EdgeId>,
        vertex_order: Seq<VertexId>,
    | #[trigger]
        sweeps(manager, store, other, edge_order, vertex_order, store_after);
    lemma_ascending_unique(commits, other, manager.committed);
    let expired = expired_edges(manager, store.undo, commits, Map::empty(), 0);
    let clean = undo_forgotten(store, manager);
    let halfway = swept(clean, expired, edge_order, 0);
    law_swept_exactly(clean, expired, edge_order, 0);
    law_vertices_swept_exactly(halfway, vertex_order, 0);
    lemma_expired_kept(manager, store.undo, commits, Set::empty(), 0, n, k, vertex);
    assert(vertex_order.contains(vertex.vid));
    let at = choose|at: int| 0 <= at < vertex_order.len() && vertex_order[at] == vertex.vid;
    assert(vertex_order[at] == vertex.vid);
    assert(is_listed(vertex_order, 0, vertex.vid));
    if store_after.vertices.contains_key(vertex.vid) {
        assert(halfway.vertices.contains_key(vertex.vid));
        assert(halfway.vertices[vertex.vid] == clean.vertices[vertex.vid]);
        assert(vertex_dead(halfway, vertex.vid));
    }
    if store_after.adjacency.contains_key(vertex.vid) {
        assert(halfway.adjacency.contains_key(vertex.vid));
        assert(!is_end_point(expired, edge_order, 0, vertex.vid));
        assert(halfway.vertices.contains_key(vertex.vid));
        assert(halfway.vertices[vertex.vid] == clean.vertices[vertex.vid]);
        assert(vertex_dead(halfway, vertex.vid));
    }
}

/// An edge that the undo entries of the expired transactions tell to be deleted is removed where it
/// is still deleted.
pub proof fn law_deleted_edge_removed(
    manager: ManagerView,
    store: StoreView,
    manager_after: ManagerView,
    store_after: StoreView,
    commits: Seq<u64>,
    eid: EdgeId,
)
    requires
        collects(manager, store, manager_after, store_after),
        ascending(commits, manager.committed),
        expired_edges(manager, store.undo, commits, Map::empty(), 0).contains_key(eid),
        edge_dead(store, eid),
    ensures
        !store_after.edges.contains_key(eid),
{
    let (other, edge_order, vertex_order) = choose|
        other: Seq<u64>,
        edge_order: Seq<EdgeId>,
        vertex_order: Seq<VertexId>,
    | #[trigger]
        sweeps(manager, store, other, edge_order, vertex_order, store_after);
    lemma_ascending_unique(commits, other, manager.committed);
    let expired = expired_edges(manager, store.undo, commits, Map::empty(), 0);
    let clean = undo_forgotten(store, manager);
    let halfway = swept(clean, expired, edge_order, 0);
    law_swept_exactly(clean, expired, edge_order, 0);
    law_vertices_swept_exactly(halfway, vertex_order, 0);
    assert(edge_order.contains(eid));
    let at = choose|at: int| 0 <= at < edge_order.len() && edge_order[at] == eid;
    assert(edge_order[at] == eid);
    assert(is_listed(edge_order, 0, eid));
    assert(!halfway.edges.contains_key(eid));
}

/// There is only one way to list the keys of a map in ascending order.
pub(crate) proof fn lemma_ascending_unique(a: Seq<u64>, b: Seq<u64>, map: Map<u64, u64>)
    requires
        ascending(a, map),
        ascending(b, map),
    ensures
        a == b,
    decreases a.len() + b.len(),
{
    if a.len() == 0 {
        if b.len() > 0 {
            assert(b.contains(b[0]));
            assert(a.contains(b[0]));
        }
        assert(a =~= b);
    } else if b.len() == 0 {
        assert(a.contains(a[0]));
        assert(b.contains(a[0]));
    } else {
        let x = a.last();
        let y = b.last();
        assert(a.contains(x) && b.contains(y));
        assert(b.contains(x) && a.contains(y));
        let i = choose|i: int| 0 <= i < b.len() && b[i] == x;
        let j = choose|j: int| 0 <= j < a.len() && a[j] == y;
        assert(x == y) by {
            if i < b.len() - 1 {
                assert(b[i] < b[b.len() - 1]);
            }
            if j < a.len() - 1 {
                assert(a[j] < a[a.len() - 1]);
            }
        }
        let rest = map.remove(x);
        lemma_ascending_rest(a, map);
        lemma_ascending_rest(b, map);
        lemma_ascending_unique(a.drop_last(), b.drop_last(), rest);
        assert(a =~= a.drop_last().push(x));
        assert(b =~= b.drop_last().push(y));
    }
}

proof fn lemma_ascending_rest(a: Seq<u64>, map: Map<u64, u64>)
    requires
        ascending(a, map),
        a.len() > 0,
    ensures
        ascending(a.drop_last(), map.remove(a.last())),
{
    let short = a.drop_last();
    assert forall|key: u64| #[trigger] short.contains(key) <==> map.remove(a.last()).contains_key(
        key,
    ) by {
        if short.contains(key) {
            let i = choose|i: int| 0 <= i < short.len() && short[i] == key;
            assert(a[i] == key && a[i] < a[a.len() - 1]);
            assert(a.contains(key));
        }
        if map.contains_key(key) && key != a.last() {
            assert(a.contains(key));
            let i = choose|i: int| 0 <= i < a.len() && a[i] == key;
            assert(short[i] == key);
        }
    }
}

/// Whether every edge is known at both of its ends, if at any.
pub open spec fn mirrored(adjacency: Map<VertexId, Adjacency>) -> bool {
    &&& forall|v: VertexId, k: NeighborKey|
        adjacency.contains_key(v) && #[trigger] adjacency[v].outgoing.contains(k)
            ==> adjacency.contains_key(k.1) && adjacency[k.1].incoming.contains((k.0, v, k.2))
    &&& forall|v: VertexId, k: NeighborKey|
        adjacency.contains_key(v) && #[trigger] adjacency[v].incoming.contains(k)
            ==> adjacency.contains_key(k.1) && adjacency[k.1].outgoing.contains((k.0, v, k.2))
}

/// Removing a vertex from neighbours that are known at both ends leaves no mention of it, and
/// neighbours that are known at both ends.
pub proof fn law_vertex_unmentioned(adjacency: Map<VertexId, Adjacency>, vid: VertexId)
    requires
        mirrored(adjacency),
    ensures
        mirrored(adjacency_without(adjacency, vid)),
        !adjacency_without(adjacency, vid).contains_key(vid),
        forall|v: VertexId, k: NeighborKey|
            adjacency_without(adjacency, vid).contains_key(v)
                && #[trigger] adjacency_without(adjacency, vid)[v].outgoing.contains(k) ==> k.1
                != vid,
        forall|v: VertexId, k: NeighborKey|
            adjacency_without(adjacency, vid).contains_key(v)
                && #[trigger] adjacency_without(adjacency, vid)[v].incoming.contains(k) ==> k.1
                != vid,
{
    let after = adjacency_without(adjacency, vid);
    assert forall|v: VertexId, k: NeighborKey|
        after.contains_key(v) && #[trigger] after[v].outgoing.contains(k) implies k.1 != vid by {
        assert(adjacency[v].outgoing.contains(k));
        if k.1 == vid {
            assert(adjacency[vid].incoming.contains((k.0, v, k.2)));
        }
    }
    assert forall|v: VertexId, k: NeighborKey|
        after.contains_key(v) && #[trigger] after[v].incoming.contains(k) implies k.1 != vid by {
        assert(adjacency[v].incoming.contains(k));
        if k.1 == vid {
            assert(adjacency[vid].outgoing.contains((k.0, v, k.2)));
        }
    }
    assert forall|v: VertexId, k: NeighborKey|
        after.contains_key(v) && #[trigger] after[v].outgoing.contains(k) implies after.contains_key(
        k.1,
    ) && after[k.1].incoming.contains((k.0, v, k.2)) by {
        assert(adjacency[v].outgoing.contains(k));
        assert(adjacency[k.1].incoming.contains((k.0, v, k.2)));
    }
    assert forall|v: VertexId, k: NeighborKey|
        after.contains_key(v) && #[trigger] after[v].incoming.contains(k) implies after.contains_key(
        k.1,
    ) && after[k.1].outgoing.contains((k.0, v, k.2)) by {
        assert(adjacency[v].incoming.contains(k));
        assert(adjacency[k.1].outgoing.contains((k.0, v, k.2)));
    }
}

/// Removing an edge from neighbours that are known at both ends leaves neighbours that are.
pub proof fn law_edge_unmentioned(store: StoreView, eid: EdgeId, edge: ExpiredEdge)
    requires
        mirrored(store.adjacency),
    ensures
        mirrored(without_edge(store, eid, edge).adjacency),
{
    let before = store.adjacency;
    let after = without_edge(store, eid, edge).adjacency;
    assert forall|v: VertexId, k: NeighborKey|
        after.contains_key(v) && #[trigger] after[v].outgoing.contains(k) implies after.contains_key(
        k.1,
    ) && after[k.1].incoming.contains((k.0, v, k.2)) by {
        assert(before[v].outgoing.contains(k));
        assert(before[k.1].incoming.contains((k.0, v, k.2)));
    }
    assert forall|v: VertexId, k: NeighborKey|
        after.contains_key(v) && #[trigger] after[v].incoming.contains(k) implies after.contains_key(
        k.1,
    ) && after[k.1].outgoing.contains((k.0, v, k.2)) by {
        assert(before[v].incoming.contains(k));
        assert(before[k.1].outgoing.contains((k.0, v, k.2)));
    }
}

/// Going through the expired edges keeps the neighbours known at both ends.
pub proof fn law_swept_mirrored(
    store: StoreView,
    expired: Map<EdgeId, ExpiredEdge>,
    order: Seq<EdgeId>,
    i: int,
)
    requires
        mirrored(store.adjacency),
        0 <= i <= order.len(),
    ensures
        mirrored(swept(store, expired, order, i).adjacency),
    decreases order.len() - i,
{
    if i < order.len() {
        let eid = order[i];
        let edge = expired[eid];
        let without_src = if vertex_dead(store, edge.src_id) {
            without_vertex(store, edge.src_id)
        } else {
            store
        };
        law_vertex_unmentioned(store.adjacency, edge.src_id);
        law_vertex_unmentioned(without_src.adjacency, edge.dst_id);
        let without_ends = if vertex_dead(store, edge.dst_id) {
            without_vertex(without_src, edge.dst_id)
        } else {
            without_src
        };
        law_edge_unmentioned(without_ends, eid, edge);
        law_swept_mirrored(swept_edge(store, eid, edge), expired, order, i + 1);
    }
}

/// Going through the expired vertices keeps the neighbours known at both ends.
pub proof fn law_vertices_swept_mirrored(store: StoreView, order: Seq<VertexId>, i: int)
    requires
        mirrored(store.adjacency),
        0 <= i <= order.len(),
    ensures
        mirrored(vertices_swept(store, order, i).adjacency),
    decreases order.len() - i,
{
    if i < order.len() {
        law_vertex_unmentioned(store.adjacency, order[i]);
        if vertex_dead(store, order[i]) {
            law_vertices_swept_mirrored(without_vertex(store, order[i]), order, i + 1);
        } else {
            law_vertices_swept_mirrored(store, order, i + 1);
        }
    }
}

} // verus!
