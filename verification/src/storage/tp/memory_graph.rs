//! The graph in memory: its store, its transaction manager and the position in its log.

use vstd::prelude::*;

use super::checkpoint::manager::{
    CheckpointManager, CheckpointManagerConfig, CheckpointsView, ConfigView,
};
use super::manager::{ManagerView, MemTxnManager};
#[allow(unused_imports)]
use super::model::{
    adjacency_view, props_after, props_fit, Adjacency, DeltaView, EdgeVersion, EdgeView,
    OperationView, RedoView, UndoView, VertexVersion, VertexView,
};
use super::model::{
    set_props, AdjacencyContainer, DeltaOp, Edge, GraphStore, IsolationLevel, Operation, RedoEntry,
    StoreView, Timestamp, UndoEntry, UndoPtr, VersionedEdge, VersionedVertex, Vertex,
};
#[allow(unused_imports)]
use super::transaction::{read_chain, redo_view, TxnView};
use super::transaction::MemTransaction;
use crate::collections::skip::NeighborKey;
use crate::common::text::decimal;
#[allow(unused_imports)]
use crate::common::text::digits;
use crate::common::types::{EdgeId, VertexId};
#[allow(unused_imports)]
use crate::storage::error::ErrorView;
use crate::storage::error::{edge_not_found, vertex_not_found, StorageResult};

verus! {

/// A graph in memory.
pub struct MemoryGraph {
    /// The versions of vertices and edges.
    pub store: GraphStore,
    /// The manager of the transactions.
    pub txn_manager: MemTxnManager,
    /// The next position in the write-ahead log.
    pub next_lsn: u64,
    /// The manager of the checkpoints, if there is one.
    pub checkpoint_manager: Option<CheckpointManager>,
    /// How checkpoints of the graph are made and kept.
    pub checkpoint_config: CheckpointManagerConfig,
}

/// What a graph is.
pub struct GraphView {
    /// The versions of vertices and edges.
    pub store: StoreView,
    /// The manager of the transactions.
    pub manager: ManagerView,
    /// The next position in the write-ahead log.
    pub next_lsn: u64,
    /// What the manager of the checkpoints holds, if there is one.
    pub checkpoints: Option<CheckpointsView>,
    /// How checkpoints of the graph are made and kept.
    pub checkpoint_config: ConfigView,
}

impl View for MemoryGraph {
    type V = GraphView;

    open spec fn view(&self) -> GraphView {
        GraphView {
            store: self.store@,
            manager: self.txn_manager@,
            next_lsn: self.next_lsn,
            checkpoints: match self.checkpoint_manager {
                Some(manager) => Some(manager@),
                None => None,
            },
            checkpoint_config: self.checkpoint_config@,
        }
    }
}

/// A vertex, one undo entry further back.
pub open spec fn vertex_before(data: VertexView, delta: DeltaView) -> VertexView {
    match delta {
        DeltaView::CreateVertex(vertex) => vertex,
        DeltaView::SetVertexProps(_, op) => VertexView {
            properties: props_after(data.properties, op),
            ..data
        },
        DeltaView::DelVertex(_) => VertexView { is_tombstone: true, ..data },
        _ => data,
    }
}

/// A vertex, back along the undo entries from the `i`th on.
pub open spec fn vertex_back(
    data: VertexView,
    undo: Map<u64, UndoView>,
    keys: Seq<u64>,
    i: int,
) -> VertexView
    decreases keys.len() - i,
{
    if i < 0 || i >= keys.len() {
        data
    } else {
        vertex_back(vertex_before(data, undo[keys[i]].delta), undo, keys, i + 1)
    }
}

/// Whether the undo entries from the `i`th on only set properties that are there.
pub open spec fn vertex_back_ok(
    data: VertexView,
    undo: Map<u64, UndoView>,
    keys: Seq<u64>,
    i: int,
) -> bool
    decreases keys.len() - i,
{
    if i < 0 || i >= keys.len() {
        true
    } else {
        &&& undo[keys[i]].delta matches DeltaView::SetVertexProps(_, op) ==> props_fit(
            data.properties,
            op,
        )
        &&& vertex_back_ok(vertex_before(data, undo[keys[i]].delta), undo, keys, i + 1)
    }
}

/// An edge, one undo entry further back.
pub open spec fn edge_before(data: EdgeView, delta: DeltaView) -> EdgeView {
    match delta {
        DeltaView::CreateEdge(edge) => edge,
        DeltaView::SetEdgeProps(_, op) => EdgeView {
            properties: props_after(data.properties, op),
            ..data
        },
        DeltaView::DelEdge(_) => EdgeView { is_tombstone: true, ..data },
        _ => data,
    }
}

/// An edge, back along the undo entries from the `i`th on.
pub open spec fn edge_back(
    data: EdgeView,
    undo: Map<u64, UndoView>,
    keys: Seq<u64>,
    i: int,
) -> EdgeView
    decreases keys.len() - i,
{
    if i < 0 || i >= keys.len() {
        data
    } else {
        edge_back(edge_before(data, undo[keys[i]].delta), undo, keys, i + 1)
    }
}

/// Whether the undo entries from the `i`th on only set properties that are there.
pub open spec fn edge_back_ok(
    data: EdgeView,
    undo: Map<u64, UndoView>,
    keys: Seq<u64>,
    i: int,
) -> bool
    decreases keys.len() - i,
{
    if i < 0 || i >= keys.len() {
        true
    } else {
        &&& undo[keys[i]].delta matches DeltaView::SetEdgeProps(_, op) ==> props_fit(
            data.properties,
            op,
        )
        &&& edge_back_ok(edge_before(data, undo[keys[i]].delta), undo, keys, i + 1)
    }
}

/// Whether the current version is the one that a transaction reads: its own, or one that was
/// committed when it started.
pub open spec fn reads_current(commit_ts: Timestamp, txn: TxnView) -> bool {
    commit_ts == txn.txn_id || commit_ts.0 <= txn.start_ts.0
}

/// The undo entries between the current version and the one that a transaction reads.
pub open spec fn way_back(
    store: StoreView,
    commit_ts: Timestamp,
    undo_ptr: UndoPtr,
    txn: TxnView,
) -> Seq<u64> {
    if reads_current(commit_ts, txn) {
        Seq::empty()
    } else {
        read_chain(store.undo, undo_ptr, txn.start_ts)
    }
}

impl StoreView {
    /// The undo entries between the current version of a vertex and the one that a transaction
    /// reads.
    pub open spec fn vertex_way(self, vid: VertexId, txn: TxnView) -> Seq<u64> {
        way_back(self, self.vertices[vid].commit_ts, self.vertices[vid].undo_ptr, txn)
    }

    /// The undo entries between the current version of an edge and the one that a transaction
    /// reads.
    pub open spec fn edge_way(self, eid: EdgeId, txn: TxnView) -> Seq<u64> {
        way_back(self, self.edges[eid].commit_ts, self.edges[eid].undo_ptr, txn)
    }

    /// The version of a vertex that a transaction reads.
    pub open spec fn vertex_seen(self, vid: VertexId, txn: TxnView) -> VertexView {
        vertex_back(self.vertices[vid].data, self.undo, self.vertex_way(vid, txn), 0)
    }

    /// The version of an edge that a transaction reads.
    pub open spec fn edge_seen(self, eid: EdgeId, txn: TxnView) -> EdgeView {
        edge_back(self.edges[eid].data, self.undo, self.edge_way(eid, txn), 0)
    }

    /// Whether the version of a vertex that a transaction reads can be worked out.
    pub open spec fn vertex_readable(self, vid: VertexId, txn: TxnView) -> bool {
        vertex_back_ok(self.vertices[vid].data, self.undo, self.vertex_way(vid, txn), 0)
    }

    /// Whether the version of an edge that a transaction reads can be worked out.
    pub open spec fn edge_readable(self, eid: EdgeId, txn: TxnView) -> bool {
        edge_back_ok(self.edges[eid].data, self.undo, self.edge_way(eid, txn), 0)
    }

    /// Whether a transaction sees a vertex.
    pub open spec fn vertex_visible(self, vid: VertexId, txn: TxnView) -> bool {
        self.vertices.contains_key(vid) && !self.vertex_seen(vid, txn).is_tombstone
    }

    /// Whether a transaction sees an edge.
    pub open spec fn edge_visible(self, eid: EdgeId, txn: TxnView) -> bool {
        self.edges.contains_key(eid) && !self.edge_seen(eid, txn).is_tombstone
    }
}

impl GraphStore {
    /// The version of a vertex that a transaction sees, if it sees one.
    pub fn get_visible_vertex(&self, vid: VertexId, txn: &MemTransaction) -> (result: StorageResult<
        Vertex,
    >)
        requires
            self.wf(),
            self@.vertices.contains_key(vid) ==> self@.vertex_readable(vid, txn@),
        ensures
            match result {
                Ok(vertex) => self@.vertex_visible(vid, txn@) && vertex@ == self@.vertex_seen(
                    vid,
                    txn@,
                ),
                Err(error) => !self@.vertex_visible(vid, txn@) && error@
                    == ErrorView::VertexNotFound(digits(vid as nat)),
            },
    {
        let current = match self.vertices.get(vid) {
            Some(current) => current,
            None => {
                return Err(vertex_not_found(decimal(vid)));
            },
        };
        assert(self@.vertices[vid] == current@);
        let ghost way = self@.vertex_way(vid, txn@);
        let mut data = current.data.duplicate();
        if !(current.commit_ts == txn.txn_id || current.commit_ts.0 <= txn.start_ts.0) {
            let keys = MemTransaction::apply_deltas_for_read(self, current.undo_ptr, txn.start_ts);
            for i in 0..keys.len()
                invariant
                    self.wf(),
                    keys@ == way,
                    forall|i: int|
                        0 <= i < keys@.len() ==> self@.undo.contains_key(#[trigger] keys@[i]),
                    vertex_back_ok(data@, self@.undo, way, i as int),
                    vertex_back(current@.data, self@.undo, way, 0) == vertex_back(
                        data@,
                        self@.undo,
                        way,
                        i as int,
                    ),
            {
                assert(self@.undo.contains_key(keys@[i as int]));
                if let Some(entry) = self.undo_log.get(keys[i]) {
                    assert(self@.undo[keys@[i as int]] == entry@);
                    match entry.delta() {
                        DeltaOp::CreateVertex(created) => {
                            data = created.duplicate();
                        },
                        DeltaOp::SetVertexProps(_, op) => {
                            set_props(&mut data.properties, op);
                        },
                        DeltaOp::DelVertex(_) => {
                            data.is_tombstone = true;
                        },
                        _ => {},
                    }
                }
            }
        }
        if data.is_tombstone {
            Err(vertex_not_found(decimal(vid)))
        } else {
            Ok(data)
        }
    }

    /// The version of an edge that a transaction sees, if it sees one.
    pub fn get_visible_edge(&self, eid: EdgeId, txn: &MemTransaction) -> (result: StorageResult<
        Edge,
    >)
        requires
            self.wf(),
            self@.edges.contains_key(eid) ==> self@.edge_readable(eid, txn@),
        ensures
            match result {
                Ok(edge) => self@.edge_visible(eid, txn@) && edge@ == self@.edge_seen(eid, txn@),
                Err(error) => !self@.edge_visible(eid, txn@) && error@ == ErrorView::EdgeNotFound(
                    digits(eid as nat),
                ),
            },
    {
        let current = match self.edges.get(eid) {
            Some(current) => current,
            None => {
                return Err(edge_not_found(decimal(eid)));
            },
        };
        assert(self@.edges[eid] == current@);
        let ghost way = self@.edge_way(eid, txn@);
        let mut data = current.data.duplicate();
        if !(current.commit_ts == txn.txn_id || current.commit_ts.0 <= txn.start_ts.0) {
            let keys = MemTransaction::apply_deltas_for_read(self, current.undo_ptr, txn.start_ts);
            for i in 0..keys.len()
                invariant
                    self.wf(),
                    keys@ == way,
                    forall|i: int|
                        0 <= i < keys@.len() ==> self@.undo.contains_key(#[trigger] keys@[i]),
                    edge_back_ok(data@, self@.undo, way, i as int),
                    edge_back(current@.data, self@.undo, way, 0) == edge_back(
                        data@,
                        self@.undo,
                        way,
                        i as int,
                    ),
            {
                assert(self@.undo.contains_key(keys@[i as int]));
                if let Some(entry) = self.undo_log.get(keys[i]) {
                    assert(self@.undo[keys@[i as int]] == entry@);
                    match entry.delta() {
                        DeltaOp::CreateEdge(created) => {
                            data = created.duplicate();
                        },
                        DeltaOp::SetEdgeProps(_, op) => {
                            set_props(&mut data.properties, op);
                        },
                        DeltaOp::DelEdge(_) => {
                            data.is_tombstone = true;
                        },
                        _ => {},
                    }
                }
            }
        }
        if data.is_tombstone {
            Err(edge_not_found(decimal(eid)))
        } else {
            Ok(data)
        }
    }

    /// Whether a transaction sees an edge.
    pub fn is_edge_visible(&self, eid: EdgeId, txn: &MemTransaction) -> (visible: bool)
        requires
            self.wf(),
        ensures
            visible == self@.edge_visible(eid, txn@),
    {
        let current = match self.edges.get(eid) {
            Some(current) => current,
            None => {
                return false;
            },
        };
        assert(self@.edges[eid] == current@);
        let ghost way = self@.edge_way(eid, txn@);
        let mut dead = current.data.is_tombstone;
        let ghost mut seen = current@.data;
        if !(current.commit_ts == txn.txn_id || current.commit_ts.0 <= txn.start_ts.0) {
            let keys = MemTransaction::apply_deltas_for_read(self, current.undo_ptr, txn.start_ts);
            for i in 0..keys.len()
                invariant
                    self.wf(),
                    keys@ == way,
                    forall|i: int|
                        0 <= i < keys@.len() ==> self@.undo.contains_key(#[trigger] keys@[i]),
                    dead == seen.is_tombstone,
                    edge_back(current@.data, self@.undo, way, 0) == edge_back(
                        seen,
                        self@.undo,
                        way,
                        i as int,
                    ),
            {
                assert(self@.undo.contains_key(keys@[i as int]));
                if let Some(entry) = self.undo_log.get(keys[i]) {
                    assert(self@.undo[keys@[i as int]] == entry@);
                    match entry.delta() {
                        DeltaOp::CreateEdge(created) => {
                            dead = created.is_tombstone;
                        },
                        DeltaOp::DelEdge(_) => {
                            dead = true;
                        },
                        _ => {},
                    }
                    proof {
                        seen = edge_before(seen, entry@.delta);
                    }
                }
            }
        }
        !dead
    }

    /// Adds an undo entry, and returns its place.
    fn push_undo(&mut self, entry: UndoEntry) -> (key: u64)
        requires
            old(self).wf(),
            old(self)@.next_undo < u64::MAX,
            entry@.next matches Some(next) ==> next < old(self)@.next_undo,
        ensures
            final(self).wf(),
            key == old(self)@.next_undo,
            final(self)@ == (StoreView {
                undo: old(self)@.undo.insert(old(self)@.next_undo, entry@),
                next_undo: (old(self)@.next_undo + 1) as u64,
                ..old(self)@
            }),
    {
        let key: u64 = self.next_undo;
        self.undo_log.insert(key, entry);
        self.next_undo = key + 1;
        assert(self@.undo =~= old(self)@.undo.insert(key, entry@));
        key
    }

    /// Adds a neighbour along an edge that starts at a vertex.
    fn link_outgoing(&mut self, vid: VertexId, neighbor: NeighborKey)
        requires
            old(self).wf(),
        ensures
            final(self).wf(),
            final(self)@ == (StoreView {
                adjacency: linked_outgoing(old(self)@.adjacency, vid, neighbor),
                ..old(self)@
            }),
    {
        let mut container = match self.adjacency_list.remove(vid) {
            Some(container) => container,
            None => AdjacencyContainer::new(),
        };
        container.add_outgoing(neighbor);
        self.adjacency_list.insert(vid, container);
        assert(self@.adjacency =~= linked_outgoing(old(self)@.adjacency, vid, neighbor));
    }

    /// Adds a neighbour along an edge that leads to a vertex.
    fn link_incoming(&mut self, vid: VertexId, neighbor: NeighborKey)
        requires
            old(self).wf(),
        ensures
            final(self).wf(),
            final(self)@ == (StoreView {
                adjacency: linked_incoming(old(self)@.adjacency, vid, neighbor),
                ..old(self)@
            }),
    {
        let mut container = match self.adjacency_list.remove(vid) {
            Some(container) => container,
            None => AdjacencyContainer::new(),
        };
        container.add_incoming(neighbor);
        self.adjacency_list.insert(vid, container);
        assert(self@.adjacency =~= linked_incoming(old(self)@.adjacency, vid, neighbor));
    }
}

/// The neighbours of a vertex, or none where it has no entry.
pub open spec fn neighbors_of(adjacency: Map<VertexId, Adjacency>, vid: VertexId) -> Adjacency {
    if adjacency.contains_key(vid) {
        adjacency[vid]
    } else {
        Adjacency { incoming: Set::empty(), outgoing: Set::empty() }
    }
}

/// The neighbours with one more along an edge that starts at a vertex.
pub open spec fn linked_outgoing(
    adjacency: Map<VertexId, Adjacency>,
    vid: VertexId,
    neighbor: NeighborKey,
) -> Map<VertexId, Adjacency> {
    let before = neighbors_of(adjacency, vid);
    adjacency.insert(vid, Adjacency { outgoing: before.outgoing.insert(neighbor), ..before })
}

/// The neighbours with one more along an edge that leads to a vertex.
pub open spec fn linked_incoming(
    adjacency: Map<VertexId, Adjacency>,
    vid: VertexId,
    neighbor: NeighborKey,
) -> Map<VertexId, Adjacency> {
    let before = neighbors_of(adjacency, vid);
    adjacency.insert(vid, Adjacency { incoming: before.incoming.insert(neighbor), ..before })
}

/// The graph with a new vertex that a transaction wrote.
pub open spec fn with_vertex(store: StoreView, vertex: VertexView, txn_id: Timestamp) -> StoreView {
    StoreView {
        vertices: store.vertices.insert(
            vertex.vid,
            VertexVersion { data: vertex, commit_ts: txn_id, undo_ptr: Some(store.next_undo) },
        ),
        undo: store.undo.insert(
            store.next_undo,
            UndoView {
                delta: DeltaView::DelVertex(vertex.vid),
                timestamp: Timestamp(0),
                next: None,
            },
        ),
        next_undo: (store.next_undo + 1) as u64,
        ..store
    }
}

/// The graph with a new edge that a transaction wrote.
pub open spec fn with_edge(store: StoreView, edge: EdgeView, txn_id: Timestamp) -> StoreView {
    StoreView {
        edges: store.edges.insert(
            edge.eid,
            EdgeVersion { data: edge, commit_ts: txn_id, undo_ptr: Some(store.next_undo) },
        ),
        undo: store.undo.insert(
            store.next_undo,
            UndoView { delta: DeltaView::DelEdge(edge.eid), timestamp: Timestamp(0), next: None },
        ),
        next_undo: (store.next_undo + 1) as u64,
        adjacency: linked_incoming(
            linked_outgoing(
                store.adjacency,
                edge.src_id,
                (edge.label_id, edge.dst_id, edge.eid),
            ),
            edge.dst_id,
            (edge.label_id, edge.src_id, edge.eid),
        ),
        ..store
    }
}

/// The transaction with one more change.
pub open spec fn with_change(txn: TxnView, key: u64, delta: DeltaView) -> TxnView {
    TxnView {
        undo: txn.undo.push(key),
        redo: txn.redo.push(
            RedoView {
                lsn: 0,
                txn_id: txn.txn_id,
                iso_level: txn.isolation_level,
                op: OperationView::Delta(delta),
            },
        ),
        ..txn
    }
}

impl MemoryGraph {
    /// Whether the parts of the graph are well formed.
    pub open spec fn wf(&self) -> bool {
        &&& self.store.wf()
        &&& self.txn_manager.wf()
        &&& self.checkpoint_manager matches Some(manager) ==> manager.wf()
    }

    /// An empty graph, with a configuration for its checkpoints, with the log at its start and
    /// without a manager of checkpoints.
    pub fn with_config_fresh(checkpoint_config: CheckpointManagerConfig) -> (graph: MemoryGraph)
        ensures
            graph.wf(),
            graph@ == (GraphView {
                store: StoreView {
                    vertices: Map::empty(),
                    edges: Map::empty(),
                    adjacency: Map::empty(),
                    undo: Map::empty(),
                    next_undo: 0,
                },
                manager: ManagerView::initial(),
                next_lsn: 0,
                checkpoints: None,
                checkpoint_config: checkpoint_config@,
            }),
    {
        MemoryGraph {
            store: GraphStore::new(),
            txn_manager: MemTxnManager::new(),
            next_lsn: 0,
            checkpoint_manager: None,
            checkpoint_config,
        }
    }

    /// The next position in the log.
    pub fn take_lsn(&mut self) -> (lsn: u64)
        requires
            old(self).wf(),
        ensures
            final(self).wf(),
            lsn == old(self)@.next_lsn,
            final(self)@ == (GraphView {
                next_lsn: old(self)@.next_lsn.wrapping_add(1),
                ..old(self)@
            }),
    {
        let lsn: u64 = self.next_lsn;
        self.next_lsn = lsn.wrapping_add(1);
        lsn
    }

    /// Begins a transaction: with the next identifier, at the next timestamp.
    pub fn begin_transaction(&mut self, isolation_level: IsolationLevel) -> (txn: MemTransaction)
        requires
            old(self).wf(),
        ensures
            final(self).wf(),
            txn@ == (TxnView {
                isolation_level,
                start_ts: Timestamp(old(self)@.manager.commit_ts_counter),
                commit_ts: None,
                txn_id: Timestamp(old(self)@.manager.txn_id_counter),
                vertex_reads: Set::empty(),
                edge_reads: Set::empty(),
                undo: Seq::empty(),
                redo: Seq::empty(),
            }),
            final(self)@ == (GraphView {
                manager: ManagerView {
                    txn_id_counter: old(self)@.manager.txn_id_counter.wrapping_add(1),
                    commit_ts_counter: old(self)@.manager.commit_ts_counter.wrapping_add(1),
                    ..old(self)@.manager
                }.started(
                    old(self)@.manager.txn_id_counter,
                    old(self)@.manager.commit_ts_counter,
                ),
                ..old(self)@
            }),
    {
        let txn_id = self.txn_manager.new_txn_id(None);
        let start_ts = self.txn_manager.new_commit_ts(None);
        let txn = MemTransaction::with_memgraph(txn_id, start_ts, isolation_level);
        self.txn_manager.start_transaction(&txn);
        txn
    }

    /// The version of a vertex that a transaction sees. It is noted as read.
    pub fn get_vertex(&self, txn: &mut MemTransaction, vid: VertexId) -> (result: StorageResult<
        Vertex,
    >)
        requires
            self.wf(),
            self@.store.vertices.contains_key(vid) ==> self@.store.vertex_readable(
                vid,
                old(txn)@,
            ),
        ensures
            match result {
                Ok(vertex) => {
                    &&& self@.store.vertex_visible(vid, old(txn)@)
                    &&& vertex@ == self@.store.vertex_seen(vid, old(txn)@)
                    &&& final(txn)@ == (TxnView {
                        vertex_reads: old(txn)@.vertex_reads.insert(vid),
                        ..old(txn)@
                    })
                },
                Err(error) => {
                    &&& !self@.store.vertex_visible(vid, old(txn)@)
                    &&& error@ == ErrorView::VertexNotFound(digits(vid as nat))
                    &&& final(txn)@ == old(txn)@
                },
            },
    {
        match self.store.get_visible_vertex(vid, txn) {
            Ok(vertex) => {
                txn.note_vertex_read(vid);
                Ok(vertex)
            },
            Err(error) => Err(error),
        }
    }

    /// The version of an edge that a transaction sees. It is noted as read.
    pub fn get_edge(&self, txn: &mut MemTransaction, eid: EdgeId) -> (result: StorageResult<Edge>)
        requires
            self.wf(),
            self@.store.edges.contains_key(eid) ==> self@.store.edge_readable(eid, old(txn)@),
        ensures
            match result {
                Ok(edge) => {
                    &&& self@.store.edge_visible(eid, old(txn)@)
                    &&& edge@ == self@.store.edge_seen(eid, old(txn)@)
                    &&& final(txn)@ == (TxnView {
                        edge_reads: old(txn)@.edge_reads.insert(eid),
                        ..old(txn)@
                    })
                },
                Err(error) => {
                    &&& !self@.store.edge_visible(eid, old(txn)@)
                    &&& error@ == ErrorView::EdgeNotFound(digits(eid as nat))
                    &&& final(txn)@ == old(txn)@
                },
            },
    {
        match self.store.get_visible_edge(eid, txn) {
            Ok(edge) => {
                txn.note_edge_read(eid);
                Ok(edge)
            },
            Err(error) => Err(error),
        }
    }

    /// Adds a vertex. Its identifier must not be taken.
    pub fn create_vertex(&mut self, txn: &mut MemTransaction, vertex: Vertex) -> (result:
        StorageResult<VertexId>)
        requires
            old(self).wf(),
            old(self)@.store.next_undo < u64::MAX,
            !old(self)@.store.vertices.contains_key(vertex.vid),
        ensures
            final(self).wf(),
            result matches Ok(vid) && vid == vertex.vid,
            final(self)@ == (GraphView {
                store: with_vertex(old(self)@.store, vertex@, old(txn)@.txn_id),
                ..old(self)@
            }),
            final(txn)@ == with_change(
                old(txn)@,
                old(self)@.store.next_undo,
                DeltaView::CreateVertex(vertex@),
            ),
    {
        let vid = vertex.vid;
        let key: u64 = self.store.push_undo(
            UndoEntry::new(DeltaOp::DelVertex(vid), Timestamp::with_ts(0), None),
        );
        let ghost before = self@.store;
        self.store.vertices.insert(
            vid,
            VersionedVertex {
                data: vertex.duplicate(),
                commit_ts: txn.txn_id,
                undo_ptr: Some(key),
            },
        );
        assert(self@.store.vertices =~= before.vertices.insert(
            vid,
            VertexVersion { data: vertex@, commit_ts: txn@.txn_id, undo_ptr: Some(key) },
        ));
        txn.record(key, DeltaOp::CreateVertex(vertex));
        Ok(vid)
    }

    /// Adds an edge between vertices that are there. Its identifier must not be taken.
    pub fn create_edge(&mut self, txn: &mut MemTransaction, edge: Edge) -> (result: StorageResult<
        EdgeId,
    >)
        requires
            old(self).wf(),
            old(self)@.store.next_undo < u64::MAX,
            !old(self)@.store.edges.contains_key(edge.eid),
        ensures
            final(self).wf(),
            match result {
                Ok(eid) => {
                    &&& eid == edge.eid
                    &&& old(self)@.store.vertices.contains_key(edge.src_id)
                    &&& old(self)@.store.vertices.contains_key(edge.dst_id)
                    &&& final(self)@ == (GraphView {
                        store: with_edge(old(self)@.store, edge@, old(txn)@.txn_id),
                        ..old(self)@
                    })
                    &&& final(txn)@ == with_change(
                        old(txn)@,
                        old(self)@.store.next_undo,
                        DeltaView::CreateEdge(edge@),
                    )
                },
                Err(error) => {
                    let missing = if old(self)@.store.vertices.contains_key(edge.src_id) {
                        edge.dst_id
                    } else {
                        edge.src_id
                    };
                    &&& !old(self)@.store.vertices.contains_key(missing)
                    &&& error@ == ErrorView::VertexNotFound(digits(missing as nat))
                    &&& final(self)@ == old(self)@
                    &&& final(txn)@ == old(txn)@
                },
            },
    {
        if !self.store.vertices.contains_key(edge.src_id) {
            return Err(vertex_not_found(decimal(edge.src_id)));
        }
        if !self.store.vertices.contains_key(edge.dst_id) {
            return Err(vertex_not_found(decimal(edge.dst_id)));
        }
        let eid = edge.eid;
        let key: u64 = self.store.push_undo(
            UndoEntry::new(DeltaOp::DelEdge(eid), Timestamp::with_ts(0), None),
        );
        let ghost before = self@.store;
        self.store.edges.insert(
            eid,
            VersionedEdge { data: edge.duplicate(), commit_ts: txn.txn_id, undo_ptr: Some(key) },
        );
        assert(self@.store.edges =~= before.edges.insert(
            eid,
            EdgeVersion { data: edge@, commit_ts: txn@.txn_id, undo_ptr: Some(key) },
        ));
        self.store.link_outgoing(edge.src_id, (edge.label_id, edge.dst_id, eid));
        self.store.link_incoming(edge.dst_id, (edge.label_id, edge.src_id, eid));
        txn.record(key, DeltaOp::CreateEdge(edge));
        Ok(eid)
    }
}

impl MemTransaction {
    /// Records a change: where its undo entry is, and what goes to the log.
    fn record(&mut self, key: u64, delta: DeltaOp)
        ensures
            final(self)@ == with_change(old(self)@, key, delta@),
    {
        self.undo_buffer.push(key);
        self.redo_buffer.push(
            RedoEntry {
                lsn: 0,
                txn_id: self.txn_id,
                iso_level: self.isolation_level,
                op: Operation::Delta(delta),
            },
        );
        assert(self@.redo =~= with_change(old(self)@, key, delta@).redo);
    }
}

} // verus!
