//! The data of the transactional storage: versioned vertices and edges, and their neighbours.

use crossbeam_skiplist::SkipSet;
use vstd::prelude::*;

use crate::collections::skip::{skip_set_insert, skip_set_new, skip_set_remove, NeighborKey};
#[allow(unused_imports)]
use crate::collections::skip::skip_set_contents;
use crate::collections::slot_map::SlotMap;
use crate::common::types::{EdgeId, LabelId, VertexId};
use crate::common::value::ScalarValue;
use crate::storage::properties::PropertyRecord;

verus! {

/// A point in time, or the identifier of a transaction that has not been committed.
#[derive(Debug, Clone, Copy, PartialEq, Eq, Structural)]
pub struct Timestamp(pub u64);

/// The number from which on timestamps identify transactions.
pub const TXN_ID_START: u64 = 0x8000_0000_0000_0000;

impl Timestamp {
    /// The given point in time.
    pub fn with_ts(ts: u64) -> (timestamp: Timestamp)
        ensures
            timestamp == Timestamp(ts),
    {
        Timestamp(ts)
    }
}

/// How far a transaction is kept apart from others.
#[derive(Debug, Clone, Copy, PartialEq, Eq, Structural)]
pub enum IsolationLevel {
    /// It reads what was committed before it started.
    Snapshot,
    /// Moreover, it is refused where something that it read has been modified since.
    Serializable,
}

/// A vertex.
#[derive(Debug)]
pub struct Vertex {
    /// The identifier.
    pub vid: VertexId,
    /// The label.
    pub label_id: LabelId,
    /// The properties.
    pub properties: PropertyRecord,
    /// Whether the vertex was deleted.
    pub is_tombstone: bool,
}

/// An edge.
#[derive(Debug)]
pub struct Edge {
    /// The identifier.
    pub eid: EdgeId,
    /// The source.
    pub src_id: VertexId,
    /// The destination.
    pub dst_id: VertexId,
    /// The label.
    pub label_id: LabelId,
    /// The properties.
    pub properties: PropertyRecord,
    /// Whether the edge was deleted.
    pub is_tombstone: bool,
}

/// Values of properties to be set.
#[derive(Debug)]
pub struct SetPropsOp {
    /// The positions.
    pub indices: Vec<usize>,
    /// The values.
    pub props: Vec<ScalarValue>,
}

/// A change of the graph.
#[derive(Debug)]
pub enum DeltaOp {
    /// A vertex is deleted.
    DelVertex(VertexId),
    /// An edge is deleted.
    DelEdge(EdgeId),
    /// A vertex is created.
    CreateVertex(Vertex),
    /// An edge is created.
    CreateEdge(Edge),
    /// Properties of a vertex are set.
    SetVertexProps(VertexId, SetPropsOp),
    /// Properties of an edge are set.
    SetEdgeProps(EdgeId, SetPropsOp),
    /// A label is added.
    AddLabel(LabelId),
    /// A label is removed.
    RemoveLabel(LabelId),
}

/// What the write-ahead log records.
#[derive(Debug)]
pub enum Operation {
    /// A transaction begins.
    BeginTransaction(Timestamp),
    /// A transaction is committed.
    CommitTransaction(Timestamp),
    /// A transaction is aborted.
    AbortTransaction,
    /// The graph is changed.
    Delta(DeltaOp),
}

/// An entry of the write-ahead log.
#[derive(Debug)]
pub struct RedoEntry {
    /// The position in the log.
    pub lsn: u64,
    /// The transaction.
    pub txn_id: Timestamp,
    /// The transaction's isolation level.
    pub iso_level: IsolationLevel,
    /// What happened.
    pub op: Operation,
}

/// The place of an undo entry in the undo log. The entry may be gone.
pub type UndoPtr = Option<u64>;

/// How to get back to the version before a change.
#[derive(Debug)]
pub struct UndoEntry {
    delta: DeltaOp,
    timestamp: Timestamp,
    next: UndoPtr,
}

/// What a vertex is.
pub struct VertexView {
    /// The identifier.
    pub vid: VertexId,
    /// The label.
    pub label_id: LabelId,
    /// The properties.
    pub properties: Seq<ScalarValue>,
    /// Whether the vertex was deleted.
    pub is_tombstone: bool,
}

/// What an edge is.
pub struct EdgeView {
    /// The identifier.
    pub eid: EdgeId,
    /// The source.
    pub src_id: VertexId,
    /// The destination.
    pub dst_id: VertexId,
    /// The label.
    pub label_id: LabelId,
    /// The properties.
    pub properties: Seq<ScalarValue>,
    /// Whether the edge was deleted.
    pub is_tombstone: bool,
}

/// What values of properties to be set are.
pub struct PropsView {
    /// The positions.
    pub indices: Seq<usize>,
    /// The values.
    pub props: Seq<ScalarValue>,
}

/// What a change of the graph is.
pub enum DeltaView {
    /// A vertex is deleted.
    DelVertex(VertexId),
    /// An edge is deleted.
    DelEdge(EdgeId),
    /// A vertex is created.
    CreateVertex(VertexView),
    /// An edge is created.
    CreateEdge(EdgeView),
    /// Properties of a vertex are set.
    SetVertexProps(VertexId, PropsView),
    /// Properties of an edge are set.
    SetEdgeProps(EdgeId, PropsView),
    /// A label is added.
    AddLabel(LabelId),
    /// A label is removed.
    RemoveLabel(LabelId),
}

/// What an undo entry is.
pub struct UndoView {
    /// The change that leads back.
    pub delta: DeltaView,
    /// When the version before the change was committed.
    pub timestamp: Timestamp,
    /// The entry that leads further back.
    pub next: UndoPtr,
}

/// What the write-ahead log records.
pub enum OperationView {
    /// A transaction begins.
    BeginTransaction(Timestamp),
    /// A transaction is committed.
    CommitTransaction(Timestamp),
    /// A transaction is aborted.
    AbortTransaction,
    /// The graph is changed.
    Delta(DeltaView),
}

/// What an entry of the write-ahead log is.
pub struct RedoView {
    /// The position in the log.
    pub lsn: u64,
    /// The transaction.
    pub txn_id: Timestamp,
    /// The transaction's isolation level.
    pub iso_level: IsolationLevel,
    /// What happened.
    pub op: OperationView,
}

impl View for Vertex {
    type V = VertexView;

    open spec fn view(&self) -> VertexView {
        VertexView {
            vid: self.vid,
            label_id: self.label_id,
            properties: self.properties@,
            is_tombstone: self.is_tombstone,
        }
    }
}

impl View for Edge {
    type V = EdgeView;

    open spec fn view(&self) -> EdgeView {
        EdgeView {
            eid: self.eid,
            src_id: self.src_id,
            dst_id: self.dst_id,
            label_id: self.label_id,
            properties: self.properties@,
            is_tombstone: self.is_tombstone,
        }
    }
}

impl View for SetPropsOp {
    type V = PropsView;

    open spec fn view(&self) -> PropsView {
        PropsView { indices: self.indices@, props: self.props@ }
    }
}

impl View for DeltaOp {
    type V = DeltaView;

    open spec fn view(&self) -> DeltaView {
        match *self {
            DeltaOp::DelVertex(vid) => DeltaView::DelVertex(vid),
            DeltaOp::DelEdge(eid) => DeltaView::DelEdge(eid),
            DeltaOp::CreateVertex(vertex) => DeltaView::CreateVertex(vertex@),
            DeltaOp::CreateEdge(edge) => DeltaView::CreateEdge(edge@),
            DeltaOp::SetVertexProps(vid, op) => DeltaView::SetVertexProps(vid, op@),
            DeltaOp::SetEdgeProps(eid, op) => DeltaView::SetEdgeProps(eid, op@),
            DeltaOp::AddLabel(label) => DeltaView::AddLabel(label),
            DeltaOp::RemoveLabel(label) => DeltaView::RemoveLabel(label),
        }
    }
}

impl View for Operation {
    type V = OperationView;

    open spec fn view(&self) -> OperationView {
        match *self {
            Operation::BeginTransaction(ts) => OperationView::BeginTransaction(ts),
            Operation::CommitTransaction(ts) => OperationView::CommitTransaction(ts),
            Operation::AbortTransaction => OperationView::AbortTransaction,
            Operation::Delta(delta) => OperationView::Delta(delta@),
        }
    }
}

impl View for RedoEntry {
    type V = RedoView;

    open spec fn view(&self) -> RedoView {
        RedoView {
            lsn: self.lsn,
            txn_id: self.txn_id,
            iso_level: self.iso_level,
            op: self.op@,
        }
    }
}

impl View for UndoEntry {
    type V = UndoView;

    closed spec fn view(&self) -> UndoView {
        UndoView { delta: self.delta@, timestamp: self.timestamp, next: self.next }
    }
}

impl UndoEntry {
    /// An entry.
    pub fn new(delta: DeltaOp, timestamp: Timestamp, next: UndoPtr) -> (entry: Self)
        ensures
            entry@ == (UndoView { delta: delta@, timestamp, next }),
    {
        UndoEntry { delta, timestamp, next }
    }

    /// The change that leads back.
    pub fn delta(&self) -> (delta: &DeltaOp)
        ensures
            delta@ == self@.delta,
    {
        &self.delta
    }

    /// When the version before the change was committed.
    pub fn timestamp(&self) -> (timestamp: Timestamp)
        ensures
            timestamp == self@.timestamp,
    {
        self.timestamp
    }

    /// The entry that leads further back.
    pub fn next(&self) -> (next: UndoPtr)
        ensures
            next == self@.next,
    {
        self.next
    }
}

/// The current version of a vertex, and the way to the versions before.
#[derive(Debug)]
pub struct VersionedVertex {
    /// The current version.
    pub data: Vertex,
    /// When it was committed, or which transaction wrote it.
    pub commit_ts: Timestamp,
    /// The way to the version before.
    pub undo_ptr: UndoPtr,
}

/// The current version of an edge, and the way to the versions before.
#[derive(Debug)]
pub struct VersionedEdge {
    /// The current version.
    pub data: Edge,
    /// When it was committed, or which transaction wrote it.
    pub commit_ts: Timestamp,
    /// The way to the version before.
    pub undo_ptr: UndoPtr,
}

/// What the current version of a vertex is.
pub struct VertexVersion {
    /// The current version.
    pub data: VertexView,
    /// When it was committed, or which transaction wrote it.
    pub commit_ts: Timestamp,
    /// The way to the version before.
    pub undo_ptr: UndoPtr,
}

/// What the current version of an edge is.
pub struct EdgeVersion {
    /// The current version.
    pub data: EdgeView,
    /// When it was committed, or which transaction wrote it.
    pub commit_ts: Timestamp,
    /// The way to the version before.
    pub undo_ptr: UndoPtr,
}

impl View for VersionedVertex {
    type V = VertexVersion;

    open spec fn view(&self) -> VertexVersion {
        VertexVersion {
            data: self.data@,
            commit_ts: self.commit_ts,
            undo_ptr: self.undo_ptr,
        }
    }
}

impl View for VersionedEdge {
    type V = EdgeVersion;

    open spec fn view(&self) -> EdgeVersion {
        EdgeVersion { data: self.data@, commit_ts: self.commit_ts, undo_ptr: self.undo_ptr }
    }
}

/// The neighbours of a vertex: label, neighbour and edge.
pub struct AdjacencyContainer {
    /// Along the edges that lead to the vertex.
    pub incoming: SkipSet<(u32, u64, u64)>,
    /// Along the edges that start at the vertex.
    pub outgoing: SkipSet<(u32, u64, u64)>,
}

/// What the neighbours of a vertex are.
pub struct Adjacency {
    /// Along the edges that lead to the vertex.
    pub incoming: Set<NeighborKey>,
    /// Along the edges that start at the vertex.
    pub outgoing: Set<NeighborKey>,
}

impl View for AdjacencyContainer {
    type V = Adjacency;

    open spec fn view(&self) -> Adjacency {
        Adjacency {
            incoming: skip_set_contents(self.incoming),
            outgoing: skip_set_contents(self.outgoing),
        }
    }
}

/// The versions of all vertices and edges, and the undo log.
pub struct GraphStore {
    /// The vertices.
    pub vertices: SlotMap<VersionedVertex>,
    /// The edges.
    pub edges: SlotMap<VersionedEdge>,
    /// The neighbours of each vertex.
    pub adjacency_list: SlotMap<AdjacencyContainer>,
    /// The undo log.
    pub undo_log: SlotMap<UndoEntry>,
    /// The place that the next undo entry gets.
    pub next_undo: u64,
}

/// What the graph is.
pub struct StoreView {
    /// The vertices.
    pub vertices: Map<VertexId, VertexVersion>,
    /// The edges.
    pub edges: Map<EdgeId, EdgeVersion>,
    /// The neighbours of each vertex.
    pub adjacency: Map<VertexId, Adjacency>,
    /// The undo log.
    pub undo: Map<u64, UndoView>,
    /// The place that the next undo entry gets.
    pub next_undo: u64,
}

/// What the neighbours of all vertices are.
pub open spec fn adjacency_view(list: Map<u64, AdjacencyContainer>) -> Map<u64, Adjacency> {
    list.map_values(|container: AdjacencyContainer| container@)
}

impl View for GraphStore {
    type V = StoreView;

    open spec fn view(&self) -> StoreView {
        StoreView {
            vertices: self.vertices@.map_values(|vertex: VersionedVertex| vertex@),
            edges: self.edges@.map_values(|edge: VersionedEdge| edge@),
            adjacency: adjacency_view(self.adjacency_list@),
            undo: self.undo_log@.map_values(|entry: UndoEntry| entry@),
            next_undo: self.next_undo,
        }
    }
}

impl StoreView {
    /// Whether the undo log is well formed: entries lead to earlier entries.
    pub open spec fn undo_ok(self) -> bool {
        forall|key: u64| #[trigger]
            self.undo.contains_key(key) ==> key < self.next_undo && (
            self.undo[key].next matches Some(next) ==> next < key)
    }
}

impl GraphStore {
    /// Whether the parts of the store are well formed.
    pub open spec fn wf(&self) -> bool {
        &&& self.vertices.wf()
        &&& self.edges.wf()
        &&& self.adjacency_list.wf()
        &&& self.undo_log.wf()
        &&& self@.undo_ok()
    }

    /// An empty graph.
    pub fn new() -> (store: GraphStore)
        ensures
            store.wf(),
            store@ == (StoreView {
                vertices: Map::empty(),
                edges: Map::empty(),
                adjacency: Map::empty(),
                undo: Map::empty(),
                next_undo: 0,
            }),
    {
        let store = GraphStore {
            vertices: SlotMap::new(),
            edges: SlotMap::new(),
            adjacency_list: SlotMap::new(),
            undo_log: SlotMap::new(),
            next_undo: 0,
        };
        assert(store@.vertices =~= Map::empty());
        assert(store@.edges =~= Map::empty());
        assert(store@.adjacency =~= Map::empty());
        assert(store@.undo =~= Map::empty());
        store
    }
}

impl Vertex {
    /// A vertex.
    pub fn new(vid: VertexId, label_id: LabelId, properties: PropertyRecord) -> (vertex: Vertex)
        ensures
            vertex == (Vertex { vid, label_id, properties, is_tombstone: false }),
    {
        Vertex { vid, label_id, properties, is_tombstone: false }
    }

    /// A copy.
    pub fn duplicate(&self) -> (copy: Vertex)
        ensures
            copy == *self,
    {
        Vertex {
            vid: self.vid,
            label_id: self.label_id,
            properties: self.properties.duplicate(),
            is_tombstone: self.is_tombstone,
        }
    }
}

impl Edge {
    /// An edge.
    pub fn new(
        eid: EdgeId,
        src_id: VertexId,
        dst_id: VertexId,
        label_id: LabelId,
        properties: PropertyRecord,
    ) -> (edge: Edge)
        ensures
            edge == (Edge { eid, src_id, dst_id, label_id, properties, is_tombstone: false }),
    {
        Edge { eid, src_id, dst_id, label_id, properties, is_tombstone: false }
    }

    /// A copy.
    pub fn duplicate(&self) -> (copy: Edge)
        ensures
            copy == *self,
    {
        Edge {
            eid: self.eid,
            src_id: self.src_id,
            dst_id: self.dst_id,
            label_id: self.label_id,
            properties: self.properties.duplicate(),
            is_tombstone: self.is_tombstone,
        }
    }
}

/// The number of properties that an operation sets.
pub open spec fn set_count(op: PropsView) -> nat {
    if op.indices.len() <= op.props.len() {
        op.indices.len()
    } else {
        op.props.len()
    }
}

/// The properties after the first `n` values of an operation were set.
pub open spec fn props_after_first(
    properties: Seq<ScalarValue>,
    op: PropsView,
    n: nat,
) -> Seq<ScalarValue>
    decreases n,
{
    if n == 0 {
        properties
    } else {
        props_after_first(properties, op, (n - 1) as nat).update(
            op.indices[n - 1] as int,
            op.props[n - 1],
        )
    }
}

/// The properties after an operation.
pub open spec fn props_after(properties: Seq<ScalarValue>, op: PropsView) -> Seq<ScalarValue> {
    props_after_first(properties, op, set_count(op))
}

/// Whether an operation only sets properties that are there.
pub open spec fn props_fit(properties: Seq<ScalarValue>, op: PropsView) -> bool {
    forall|i: int| 0 <= i < set_count(op) ==> (#[trigger] op.indices[i]) < properties.len()
}

/// Whether an operation only sets properties that are there.
pub fn can_set_props(properties: &PropertyRecord, op: &SetPropsOp) -> (fit: bool)
    ensures
        fit == props_fit(properties@, op@),
{
    let count: usize = if op.indices.len() <= op.props.len() {
        op.indices.len()
    } else {
        op.props.len()
    };
    let width: usize = properties.len();
    for i in 0..count
        invariant
            count == set_count(op@),
            width == properties@.len(),
            forall|j: int| 0 <= j < i ==> (#[trigger] op@.indices[j]) < properties@.len(),
    {
        if op.indices[i] >= width {
            assert(op@.indices[i as int] >= properties@.len());
            return false;
        }
    }
    true
}

/// Sets the properties of an operation.
pub fn set_props(properties: &mut PropertyRecord, op: &SetPropsOp)
    requires
        props_fit(old(properties)@, op@),
    ensures
        final(properties)@ == props_after(old(properties)@, op@),
        final(properties)@.len() == old(properties)@.len(),
{
    let count: usize = if op.indices.len() <= op.props.len() {
        op.indices.len()
    } else {
        op.props.len()
    };
    for i in 0..count
        invariant
            count == set_count(op@),
            props_fit(old(properties)@, op@),
            properties@.len() == old(properties)@.len(),
            properties@ == props_after_first(old(properties)@, op@, i as nat),
    {
        assert(op@.indices[i as int] < old(properties)@.len());
        properties.set_prop(op.indices[i], op.props[i].duplicate());
    }
}

impl AdjacencyContainer {
    /// No neighbours.
    pub fn new() -> (container: AdjacencyContainer)
        ensures
            container@ == (Adjacency { incoming: Set::empty(), outgoing: Set::empty() }),
    {
        AdjacencyContainer { incoming: skip_set_new(), outgoing: skip_set_new() }
    }

    /// Adds a neighbour along an edge that leads to the vertex.
    pub fn add_incoming(&mut self, neighbor: NeighborKey)
        ensures
            final(self)@ == (Adjacency {
                incoming: old(self)@.incoming.insert(neighbor),
                ..old(self)@
            }),
    {
        skip_set_insert(&mut self.incoming, neighbor);
    }

    /// Adds a neighbour along an edge that starts at the vertex.
    pub fn add_outgoing(&mut self, neighbor: NeighborKey)
        ensures
            final(self)@ == (Adjacency {
                outgoing: old(self)@.outgoing.insert(neighbor),
                ..old(self)@
            }),
    {
        skip_set_insert(&mut self.outgoing, neighbor);
    }

    /// Removes a neighbour along an edge that leads to the vertex.
    pub fn remove_incoming(&mut self, neighbor: NeighborKey)
        ensures
            final(self)@ == (Adjacency {
                incoming: old(self)@.incoming.remove(neighbor),
                ..old(self)@
            }),
    {
        skip_set_remove(&mut self.incoming, neighbor);
    }

    /// Removes a neighbour along an edge that starts at the vertex.
    pub fn remove_outgoing(&mut self, neighbor: NeighborKey)
        ensures
            final(self)@ == (Adjacency {
                outgoing: old(self)@.outgoing.remove(neighbor),
                ..old(self)@
            }),
    {
        skip_set_remove(&mut self.outgoing, neighbor);
    }
}

/// The neighbours after a change to those of one vertex, where it has an entry.
pub open spec fn with_adjacency(
    adjacency: Map<VertexId, Adjacency>,
    vid: VertexId,
    change: spec_fn(Adjacency) -> Adjacency,
) -> Map<VertexId, Adjacency> {
    if adjacency.contains_key(vid) {
        adjacency.insert(vid, change(adjacency[vid]))
    } else {
        adjacency
    }
}

/// Removal of a neighbour along an edge that leads to the vertex.
pub open spec fn without_incoming(neighbor: NeighborKey) -> spec_fn(Adjacency) -> Adjacency {
    |adjacency: Adjacency|
        Adjacency { incoming: adjacency.incoming.remove(neighbor), ..adjacency }
}

/// Removal of a neighbour along an edge that starts at the vertex.
pub open spec fn without_outgoing(neighbor: NeighborKey) -> spec_fn(Adjacency) -> Adjacency {
    |adjacency: Adjacency|
        Adjacency { outgoing: adjacency.outgoing.remove(neighbor), ..adjacency }
}

impl GraphStore {
    /// Removes a neighbour along an edge that leads to a vertex, where the vertex has an entry.
    pub fn drop_incoming(&mut self, vid: VertexId, neighbor: NeighborKey)
        requires
            old(self).wf(),
        ensures
            final(self).wf(),
            final(self)@ == (StoreView {
                adjacency: with_adjacency(old(self)@.adjacency, vid, without_incoming(neighbor)),
                ..old(self)@
            }),
    {
        if let Some(container) = self.adjacency_list.get_mut(vid) {
            container.remove_incoming(neighbor);
        }
        assert(self@.adjacency =~= with_adjacency(
            old(self)@.adjacency,
            vid,
            without_incoming(neighbor),
        ));
    }

    /// Removes a neighbour along an edge that starts at a vertex, where the vertex has an entry.
    pub fn drop_outgoing(&mut self, vid: VertexId, neighbor: NeighborKey)
        requires
            old(self).wf(),
        ensures
            final(self).wf(),
            final(self)@ == (StoreView {
                adjacency: with_adjacency(old(self)@.adjacency, vid, without_outgoing(neighbor)),
                ..old(self)@
            }),
    {
        if let Some(container) = self.adjacency_list.get_mut(vid) {
            container.remove_outgoing(neighbor);
        }
        assert(self@.adjacency =~= with_adjacency(
            old(self)@.adjacency,
            vid,
            without_outgoing(neighbor),
        ));
    }
}

} // verus!
