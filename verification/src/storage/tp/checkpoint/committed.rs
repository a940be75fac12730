//! The last committed versions of vertices and edges.

use vstd::prelude::*;

use crate::common::types::{EdgeId, VertexId};
#[allow(unused_imports)]
use crate::storage::tp::memory_graph::{edge_before, vertex_before};
use crate::storage::tp::model::{
    can_set_props, set_props, DeltaOp, Edge, GraphStore, Timestamp, UndoPtr, VersionedEdge,
    VersionedVertex, Vertex, TXN_ID_START,
};
#[allow(unused_imports)]
use crate::storage::tp::model::{
    props_fit, DeltaView, EdgeVersion, EdgeView, StoreView, UndoView, VertexVersion, VertexView,
};

verus! {

/// Whether a timestamp is that of a commit, and not the identifier of a transaction that has not
/// been committed.
pub open spec fn is_commit(ts: Timestamp) -> bool {
    ts.0 < TXN_ID_START
}

/// Whether an undo entry leads back to an earlier version of a vertex: not where it tells that the
/// vertex was created, and not where it would set properties that are not there.
pub open spec fn leads_vertex(data: VertexView, key: u64, entry: UndoView) -> bool {
    &&& entry.next matches Some(next) ==> next < key
    &&& match entry.delta {
        DeltaView::DelVertex(_) => false,
        DeltaView::SetVertexProps(_, op) => props_fit(data.properties, op),
        _ => true,
    }
}

/// Whether an undo entry leads back to an earlier version of an edge: not where it tells that the
/// edge was created, and not where it would set properties that are not there.
pub open spec fn leads_edge(data: EdgeView, key: u64, entry: UndoView) -> bool {
    &&& entry.next matches Some(next) ==> next < key
    &&& match entry.delta {
        DeltaView::DelEdge(_) => false,
        DeltaView::SetEdgeProps(_, op) => props_fit(data.properties, op),
        _ => true,
    }
}

/// The last committed version of a vertex, from a version on along the undo entries. There is none
/// where the vertex was created by a transaction that has not been committed.
pub open spec fn committed_vertex(
    undo: Map<u64, UndoView>,
    data: VertexView,
    commit_ts: Timestamp,
    undo_ptr: UndoPtr,
) -> Option<VertexVersion>
    decreases
            match undo_ptr {
                Some(key) => key + 1,
                None => 0,
            },
{
    if is_commit(commit_ts) {
        Some(VertexVersion { data, commit_ts, undo_ptr: None })
    } else {
        match undo_ptr {
            None => None,
            Some(key) => if undo.contains_key(key) && leads_vertex(data, key, undo[key]) {
                committed_vertex(
                    undo,
                    vertex_before(data, undo[key].delta),
                    undo[key].timestamp,
                    undo[key].next,
                )
            } else {
                None
            },
        }
    }
}

/// The last committed version of an edge, from a version on along the undo entries. There is none
/// where the edge was created by a transaction that has not been committed.
pub open spec fn committed_edge(
    undo: Map<u64, UndoView>,
    data: EdgeView,
    commit_ts: Timestamp,
    undo_ptr: UndoPtr,
) -> Option<EdgeVersion>
    decreases
            match undo_ptr {
                Some(key) => key + 1,
                None => 0,
            },
{
    if is_commit(commit_ts) {
        Some(EdgeVersion { data, commit_ts, undo_ptr: None })
    } else {
        match undo_ptr {
            None => None,
            Some(key) => if undo.contains_key(key) && leads_edge(data, key, undo[key]) {
                committed_edge(
                    undo,
                    edge_before(data, undo[key].delta),
                    undo[key].timestamp,
                    undo[key].next,
                )
            } else {
                None
            },
        }
    }
}

impl StoreView {
    /// The last committed version of a vertex.
    pub open spec fn last_vertex(self, vid: VertexId) -> Option<VertexVersion> {
        let current = self.vertices[vid];
        committed_vertex(self.undo, current.data, current.commit_ts, current.undo_ptr)
    }

    /// The last committed version of an edge.
    pub open spec fn last_edge(self, eid: EdgeId) -> Option<EdgeVersion> {
        let current = self.edges[eid];
        committed_edge(self.undo, current.data, current.commit_ts, current.undo_ptr)
    }

    /// The graph in its last committed state, without the versions before. The neighbours are all
    /// that are recorded.
    pub open spec fn committed(self) -> StoreView {
        StoreView {
            vertices: Map::new(
                |vid: VertexId| self.vertices.contains_key(vid) && self.last_vertex(vid) is Some,
                |vid: VertexId| self.last_vertex(vid)->0,
            ),
            edges: Map::new(
                |eid: EdgeId| self.edges.contains_key(eid) && self.last_edge(eid) is Some,
                |eid: EdgeId| self.last_edge(eid)->0,
            ),
            adjacency: self.adjacency,
            undo: Map::empty(),
            next_undo: 0,
        }
    }
}

impl GraphStore {
    /// The last committed version of a vertex, and when it was committed.
    pub fn last_committed_vertex(&self, current: &VersionedVertex) -> (version: Option<
        (Vertex, Timestamp),
    >)
        requires
            self.wf(),
        ensures
            match version {
                Some((data, commit_ts)) => committed_vertex(
                    self@.undo,
                    current@.data,
                    current@.commit_ts,
                    current@.undo_ptr,
                ) == Some(VertexVersion { data: data@, commit_ts, undo_ptr: None }),
                None => committed_vertex(
                    self@.undo,
                    current@.data,
                    current@.commit_ts,
                    current@.undo_ptr,
                ) is None,
            },
    {
        let mut data = current.data.duplicate();
        let mut commit_ts: Timestamp = current.commit_ts;
        let mut undo_ptr: UndoPtr = current.undo_ptr;
        loop
            invariant
                self.wf(),
                committed_vertex(
                    self@.undo,
                    current@.data,
                    current@.commit_ts,
                    current@.undo_ptr,
                ) == committed_vertex(self@.undo, data@, commit_ts, undo_ptr),
            decreases
                    match undo_ptr {
                        Some(key) => key + 1,
                        None => 0,
                    },
        {
            if commit_ts.0 < TXN_ID_START {
                return Some((data, commit_ts));
            }
            let key: u64 = match undo_ptr {
                None => {
                    return None;
                },
                Some(key) => key,
            };
            let entry = match self.undo_log.get(key) {
                None => {
                    return None;
                },
                Some(entry) => entry,
            };
            assert(self@.undo[key] == entry@);
            match entry.delta() {
                DeltaOp::DelVertex(_) => {
                    return None;
                },
                DeltaOp::CreateVertex(vertex) => {
                    data = vertex.duplicate();
                },
                DeltaOp::SetVertexProps(_, op) => {
                    if !can_set_props(&data.properties, op) {
                        return None;
                    }
                    set_props(&mut data.properties, op);
                },
                _ => {},
            }
            commit_ts = entry.timestamp();
            undo_ptr = entry.next();
        }
    }

    /// The last committed version of an edge, and when it was committed.
    pub fn last_committed_edge(&self, current: &VersionedEdge) -> (version: Option<
        (Edge, Timestamp),
    >)
        requires
            self.wf(),
        ensures
            match version {
                Some((data, commit_ts)) => committed_edge(
                    self@.undo,
                    current@.data,
                    current@.commit_ts,
                    current@.undo_ptr,
                ) == Some(EdgeVersion { data: data@, commit_ts, undo_ptr: None }),
                None => committed_edge(
                    self@.undo,
                    current@.data,
                    current@.commit_ts,
                    current@.undo_ptr,
                ) is None,
            },
    {
        let mut data = current.data.duplicate();
        let mut commit_ts: Timestamp = current.commit_ts;
        let mut undo_ptr: UndoPtr = current.undo_ptr;
        loop
            invariant
                self.wf(),
                committed_edge(
                    self@.undo,
                    current@.data,
                    current@.commit_ts,
                    current@.undo_ptr,
                ) == committed_edge(self@.undo, data@, commit_ts, undo_ptr),
            decreases
                    match undo_ptr {
                        Some(key) => key + 1,
                        None => 0,
                    },
        {
            if commit_ts.0 < TXN_ID_START {
                return Some((data, commit_ts));
            }
            let key: u64 = match undo_ptr {
                None => {
                    return None;
                },
                Some(key) => key,
            };
            let entry = match self.undo_log.get(key) {
                None => {
                    return None;
                },
                Some(entry) => entry,
            };
            assert(self@.undo[key] == entry@);
            match entry.delta() {
                DeltaOp::DelEdge(_) => {
                    return None;
                },
                DeltaOp::CreateEdge(edge) => {
                    data = edge.duplicate();
                },
                DeltaOp::SetEdgeProps(_, op) => {
                    if !can_set_props(&data.properties, op) {
                        return None;
                    }
                    set_props(&mut data.properties, op);
                },
                _ => {},
            }
            commit_ts = entry.timestamp();
            undo_ptr = entry.next();
        }
    }
}

} // verus!
