//! Snapshots of the graph.

use std::collections::HashMap;

use crossbeam_skiplist::SkipSet;
use vstd::prelude::*;

use super::frame::{seal, unseal};
#[allow(unused_imports)]
use super::frame::{crc32_of, framed, opened};
use super::manager::CheckpointManagerConfig;
#[allow(unused_imports)]
use super::manager::ConfigView;
use crate::collections::skip::{skip_set_elements, skip_set_insert, NeighborKey};
#[allow(unused_imports)]
use crate::collections::skip::{neighbor_before, skip_set_contents};
use crate::common::types::{EdgeId, VertexId};
#[allow(unused_imports)]
use crate::storage::error::ErrorView;
use crate::storage::error::{CheckpointError, StorageError, StorageResult};
#[allow(unused_imports)]
use crate::storage::tp::manager::ManagerView;
use crate::storage::tp::memory_graph::MemoryGraph;
#[allow(unused_imports)]
use crate::storage::tp::memory_graph::GraphView;
#[allow(unused_imports)]
use crate::storage::tp::model::{
    Adjacency, EdgeVersion, EdgeView, StoreView, UndoView, VertexVersion, VertexView,
};
use crate::storage::tp::model::{
    AdjacencyContainer, Edge, Timestamp, VersionedEdge, VersionedVertex, Vertex,
};

#[allow(unused_imports)]
use crate::storage::tp::outside::Outside;
#[allow(unused_imports)]
use crate::storage::tp::outside::{
    asked, bytes_said, goes_on, lemma_once, lemma_one_more, said, Event,
};
#[allow(unused_imports)]
use crate::storage::tp::transaction::outcome;

verus! {

broadcast use vstd::std_specs::hash::group_hash_axioms;

/// The version of the layout of checkpoints.
pub const CHECKPOINT_VERSION: u32 = 1;

/// What is known of a checkpoint.
#[derive(Debug, Clone, Copy, PartialEq, Eq, Structural)]
pub struct CheckpointMetadata {
    /// When it was made, in seconds.
    pub timestamp: u64,
    /// The position in the log when it was made.
    pub lsn: u64,
    /// The last commit timestamp when it was made.
    pub latest_commit_ts: u64,
    /// The version of the layout.
    pub version: u32,
}

/// A vertex in a checkpoint.
#[derive(Debug)]
pub struct SerializedVertex {
    /// The vertex.
    pub data: Vertex,
    /// When the version was committed.
    pub commit_ts: Timestamp,
}

/// An edge in a checkpoint.
#[derive(Debug)]
pub struct SerializedEdge {
    /// The edge.
    pub data: Edge,
    /// When the version was committed.
    pub commit_ts: Timestamp,
}

/// The neighbours of a vertex in a checkpoint: edge and neighbour.
#[derive(Debug)]
pub struct SerializedAdjacency {
    /// Along the edges that start at the vertex.
    pub outgoing: Vec<(EdgeId, VertexId)>,
    /// Along the edges that lead to the vertex.
    pub incoming: Vec<(EdgeId, VertexId)>,
}

/// A snapshot of the graph: the last committed versions, without the ones before.
#[derive(Debug)]
pub struct GraphCheckpoint {
    /// What is known of the checkpoint.
    pub metadata: CheckpointMetadata,
    /// The vertices.
    pub vertices: HashMap<VertexId, SerializedVertex>,
    /// The edges.
    pub edges: HashMap<EdgeId, SerializedEdge>,
    /// The neighbours of each vertex.
    pub adjacency_list: HashMap<VertexId, SerializedAdjacency>,
}

/// What a vertex in a checkpoint is.
pub struct SavedVertex {
    /// The vertex.
    pub data: VertexView,
    /// When the version was committed.
    pub commit_ts: Timestamp,
}

/// What an edge in a checkpoint is.
pub struct SavedEdge {
    /// The edge.
    pub data: EdgeView,
    /// When the version was committed.
    pub commit_ts: Timestamp,
}

/// What the neighbours of a vertex in a checkpoint are.
pub struct SavedAdjacency {
    /// Along the edges that start at the vertex.
    pub outgoing: Seq<(EdgeId, VertexId)>,
    /// Along the edges that lead to the vertex.
    pub incoming: Seq<(EdgeId, VertexId)>,
}

/// What a checkpoint is.
pub struct CheckpointView {
    /// What is known of the checkpoint.
    pub metadata: CheckpointMetadata,
    /// The vertices.
    pub vertices: Map<VertexId, SavedVertex>,
    /// The edges.
    pub edges: Map<EdgeId, SavedEdge>,
    /// The neighbours of each vertex.
    pub adjacency: Map<VertexId, SavedAdjacency>,
}

impl View for SerializedVertex {
    type V = SavedVertex;

    open spec fn view(&self) -> SavedVertex {
        SavedVertex { data: self.data@, commit_ts: self.commit_ts }
    }
}

impl View for SerializedEdge {
    type V = SavedEdge;

    open spec fn view(&self) -> SavedEdge {
        SavedEdge { data: self.data@, commit_ts: self.commit_ts }
    }
}

impl View for SerializedAdjacency {
    type V = SavedAdjacency;

    open spec fn view(&self) -> SavedAdjacency {
        SavedAdjacency { outgoing: self.outgoing@, incoming: self.incoming@ }
    }
}

impl View for GraphCheckpoint {
    type V = CheckpointView;

    open spec fn view(&self) -> CheckpointView {
        CheckpointView {
            metadata: self.metadata,
            vertices: self.vertices@.map_values(|vertex: SerializedVertex| vertex@),
            edges: self.edges@.map_values(|edge: SerializedEdge| edge@),
            adjacency: self.adjacency_list@.map_values(|list: SerializedAdjacency| list@),
        }
    }
}

/// An edge and the neighbour along it.
pub open spec fn edge_and_neighbor(key: NeighborKey) -> (EdgeId, VertexId) {
    (key.2, key.1)
}

/// Whether neighbours are listed in order, in the order of label, neighbour and edge.
pub open spec fn is_in_order(order: Seq<NeighborKey>) -> bool {
    forall|i: int, j: int|
        0 <= i < j < order.len() ==> neighbor_before(#[trigger] order[i], #[trigger] order[j])
}

/// Whether a list holds the edge and the neighbour of each of a set of neighbours, in order.
pub open spec fn lists(list: Seq<(EdgeId, VertexId)>, set: Set<NeighborKey>) -> bool {
    exists|order: Seq<NeighborKey>| #[trigger]
        is_in_order(order) && order.to_set() == set && list == order.map_values(
            |key: NeighborKey| edge_and_neighbor(key),
        )
}

/// Whether a checkpoint is a snapshot of a graph: its last committed state, and all neighbours.
pub open spec fn is_snapshot(checkpoint: CheckpointView, graph: GraphView, timestamp: u64) -> bool {
    &&& checkpoint.metadata == (CheckpointMetadata {
        timestamp,
        lsn: graph.next_lsn,
        latest_commit_ts: graph.manager.latest_commit_ts,
        version: CHECKPOINT_VERSION,
    })
    &&& checkpoint.vertices == graph.store.committed().vertices.map_values(
        |vertex: VertexVersion| SavedVertex { data: vertex.data, commit_ts: vertex.commit_ts },
    )
    &&& checkpoint.edges == graph.store.committed().edges.map_values(
        |edge: EdgeVersion| SavedEdge { data: edge.data, commit_ts: edge.commit_ts },
    )
    &&& checkpoint.adjacency.dom() == graph.store.adjacency.dom()
    &&& forall|vid: VertexId| #[trigger]
        checkpoint.adjacency.contains_key(vid) ==> {
            &&& lists(checkpoint.adjacency[vid].outgoing, graph.store.adjacency[vid].outgoing)
            &&& lists(checkpoint.adjacency[vid].incoming, graph.store.adjacency[vid].incoming)
        }
}

/// The edges and neighbours of a set of neighbours, in order.
fn list_neighbors(set: &SkipSet<(u32, u64, u64)>) -> (list: Vec<(EdgeId, VertexId)>)
    ensures
        lists(list@, skip_set_contents(*set)),
{
    let keys = skip_set_elements(set);
    let mut list: Vec<(EdgeId, VertexId)> = Vec::new();
    for i in 0..keys.len()
        invariant
            list@ == keys@.take(i as int).map_values(|key: NeighborKey| edge_and_neighbor(key)),
    {
        list.push((keys[i].2, keys[i].1));
        assert(list@ =~= keys@.take(i + 1).map_values(|key: NeighborKey| edge_and_neighbor(key)));
    }
    proof {
        assert(keys@.take(keys@.len() as int) =~= keys@);
        assert(is_in_order(keys@));
        assert(keys@.to_set() =~= skip_set_contents(*set));
    }
    list
}

impl GraphCheckpoint {
    /// A snapshot of the last committed state of the graph, made at a time in seconds. What a
    /// transaction has written and not committed does not go in: neither its version of what was
    /// there, nor what it created. It takes a position in the log.
    pub fn new(graph: &mut MemoryGraph, timestamp: u64) -> (checkpoint: Self)
        requires
            old(graph).wf(),
        ensures
            final(graph).wf(),
            is_snapshot(checkpoint@, old(graph)@, timestamp),
            final(graph)@ == (GraphView {
                next_lsn: old(graph)@.next_lsn.wrapping_add(1),
                ..old(graph)@
            }),
    {
        let lsn: u64 = graph.take_lsn();
        let metadata = CheckpointMetadata {
            timestamp,
            lsn,
            latest_commit_ts: graph.txn_manager.latest_commit_ts,
            version: CHECKPOINT_VERSION,
        };
        let ghost store = graph@.store;
        proof {
            graph.store.vertices.lemma_key_seq();
            graph.store.edges.lemma_key_seq();
            graph.store.adjacency_list.lemma_key_seq();
        }

        let mut vertices: HashMap<VertexId, SerializedVertex> = HashMap::new();
        let ghost vids = graph.store.vertices.key_seq();
        let vertex_count: usize = graph.store.vertices.len();
        for i in 0..vertex_count
            invariant
                graph.wf(),
                graph@.store == store,
                vids == graph.store.vertices.key_seq(),
                vertex_count == vids.len(),
                forall|key: u64| #[trigger] vids.contains(key) <==> store.vertices.contains_key(
                    key,
                ),
                forall|key: u64| #[trigger]
                    vertices@.contains_key(key) <==> vids.take(i as int).contains(key)
                        && store.last_vertex(key) is Some,
                forall|key: u64| #[trigger]
                    vertices@.contains_key(key) ==> vertices@[key]@ == (SavedVertex {
                        data: store.last_vertex(key)->0.data,
                        commit_ts: store.last_vertex(key)->0.commit_ts,
                    }),
        {
            let vid = graph.store.vertices.key_at(i);
            assert(vids.contains(vids[i as int]));
            assert(vids.take(i + 1) =~= vids.take(i as int).push(vid));
            let ghost earlier = vids.take(i as int);
            if let Some(current) = graph.store.vertices.get(vid) {
                assert(store.vertices[vid] == current@);
                if let Some((data, commit_ts)) = graph.store.last_committed_vertex(current) {
                    vertices.insert(vid, SerializedVertex { data, commit_ts });
                }
            }
            proof {
                assert forall|key: u64| #[trigger]
                    vertices@.contains_key(key) <==> vids.take(i + 1).contains(key)
                    && store.last_vertex(key) is Some by {
                    lemma_push_contains(earlier, vid, key);
                }
            }
        }

        let mut edges: HashMap<EdgeId, SerializedEdge> = HashMap::new();
        let ghost eids = graph.store.edges.key_seq();
        let edge_count: usize = graph.store.edges.len();
        for i in 0..edge_count
            invariant
                graph.wf(),
                graph@.store == store,
                eids == graph.store.edges.key_seq(),
                edge_count == eids.len(),
                forall|key: u64| #[trigger] eids.contains(key) <==> store.edges.contains_key(key),
                forall|key: u64| #[trigger]
                    edges@.contains_key(key) <==> eids.take(i as int).contains(key)
                        && store.last_edge(key) is Some,
                forall|key: u64| #[trigger]
                    edges@.contains_key(key) ==> edges@[key]@ == (SavedEdge {
                        data: store.last_edge(key)->0.data,
                        commit_ts: store.last_edge(key)->0.commit_ts,
                    }),
        {
            let eid = graph.store.edges.key_at(i);
            assert(eids.contains(eids[i as int]));
            assert(eids.take(i + 1) =~= eids.take(i as int).push(eid));
            let ghost earlier = eids.take(i as int);
            if let Some(current) = graph.store.edges.get(eid) {
                assert(store.edges[eid] == current@);
                if let Some((data, commit_ts)) = graph.store.last_committed_edge(current) {
                    edges.insert(eid, SerializedEdge { data, commit_ts });
                }
            }
            proof {
                assert forall|key: u64| #[trigger]
                    edges@.contains_key(key) <==> eids.take(i + 1).contains(key)
                    && store.last_edge(key) is Some by {
                    lemma_push_contains(earlier, eid, key);
                }
            }
        }

        let mut adjacency_list: HashMap<VertexId, SerializedAdjacency> = HashMap::new();
        let ghost owners = graph.store.adjacency_list.key_seq();
        let owner_count: usize = graph.store.adjacency_list.len();
        for i in 0..owner_count
            invariant
                graph.wf(),
                graph@.store == store,
                owners == graph.store.adjacency_list.key_seq(),
                owner_count == owners.len(),
                forall|key: u64| #[trigger]
                    owners.contains(key) <==> store.adjacency.contains_key(key),
                forall|key: u64| #[trigger]
                    adjacency_list@.contains_key(key) <==> owners.take(i as int).contains(key),
                forall|key: u64| #[trigger]
                    adjacency_list@.contains_key(key) ==> {
                        &&& lists(
                            adjacency_list@[key]@.outgoing,
                            store.adjacency[key].outgoing,
                        )
                        &&& lists(
                            adjacency_list@[key]@.incoming,
                            store.adjacency[key].incoming,
                        )
                    },
        {
            let vid = graph.store.adjacency_list.key_at(i);
            assert(owners.contains(owners[i as int]));
            assert(owners.take(i + 1) =~= owners.take(i as int).push(vid));
            let ghost earlier = owners.take(i as int);
            if let Some(container) = graph.store.adjacency_list.get(vid) {
                assert(store.adjacency[vid] == container@);
                let outgoing = list_neighbors(&container.outgoing);
                let incoming = list_neighbors(&container.incoming);
                adjacency_list.insert(vid, SerializedAdjacency { outgoing, incoming });
            }
            proof {
                assert forall|key: u64| #[trigger]
                    adjacency_list@.contains_key(key) <==> owners.take(i + 1).contains(key) by {
                    lemma_push_contains(earlier, vid, key);
                }
            }
        }

        let checkpoint = GraphCheckpoint { metadata, vertices, edges, adjacency_list };
        proof {
            assert(vids.take(vids.len() as int) =~= vids);
            assert(eids.take(eids.len() as int) =~= eids);
            assert(owners.take(owners.len() as int) =~= owners);
            assert(checkpoint@.vertices =~= store.committed().vertices.map_values(
                |vertex: VertexVersion|
                    SavedVertex { data: vertex.data, commit_ts: vertex.commit_ts },
            ));
            assert(checkpoint@.edges =~= store.committed().edges.map_values(
                |edge: EdgeVersion| SavedEdge { data: edge.data, commit_ts: edge.commit_ts },
            ));
            assert(checkpoint@.adjacency.dom() =~= store.adjacency.dom());
        }
        checkpoint
    }
}

/// A neighbour along an edge of a checkpoint. The label is the edge's.
pub open spec fn labelled(edges: Map<EdgeId, SavedEdge>, entry: (EdgeId, VertexId)) -> NeighborKey {
    (edges[entry.0].data.label_id, entry.1, entry.0)
}

/// The neighbours that a list stands for.
pub open spec fn neighbors_listed(
    edges: Map<EdgeId, SavedEdge>,
    list: Seq<(EdgeId, VertexId)>,
) -> Set<NeighborKey> {
    list.map_values(|entry: (EdgeId, VertexId)| labelled(edges, entry)).to_set()
}

/// The graph that a checkpoint stands for: the versions of the checkpoint, with none before them,
/// the position in the log and the last commit timestamp of the checkpoint, no transaction, no
/// manager of checkpoints, and the configuration that is given for them.
pub open spec fn restored(checkpoint: CheckpointView, config: ConfigView) -> GraphView {
    GraphView {
        store: StoreView {
            vertices: checkpoint.vertices.map_values(
                |vertex: SavedVertex|
                    VertexVersion {
                        data: vertex.data,
                        commit_ts: vertex.commit_ts,
                        undo_ptr: None,
                    },
            ),
            edges: checkpoint.edges.map_values(
                |edge: SavedEdge|
                    EdgeVersion { data: edge.data, commit_ts: edge.commit_ts, undo_ptr: None },
            ),
            adjacency: checkpoint.adjacency.map_values(
                |list: SavedAdjacency|
                    Adjacency {
                        incoming: neighbors_listed(checkpoint.edges, list.incoming),
                        outgoing: neighbors_listed(checkpoint.edges, list.outgoing),
                    },
            ),
            undo: Map::empty(),
            next_undo: 0,
        },
        manager: ManagerView {
            latest_commit_ts: checkpoint.metadata.latest_commit_ts,
            ..ManagerView::initial()
        },
        next_lsn: checkpoint.metadata.lsn,
        checkpoints: None,
        checkpoint_config: config,
    }
}

/// Whether every edge of a list is in the checkpoint.
pub open spec fn edges_present(
    edges: Map<EdgeId, SavedEdge>,
    list: Seq<(EdgeId, VertexId)>,
) -> bool {
    forall|i: int| 0 <= i < list.len() ==> edges.contains_key((#[trigger] list[i]).0)
}

/// Whether a checkpoint holds every edge along which it lists a neighbour.
pub open spec fn is_complete(checkpoint: CheckpointView) -> bool {
    forall|vid: VertexId| #[trigger]
        checkpoint.adjacency.contains_key(vid) ==> {
            &&& edges_present(checkpoint.edges, checkpoint.adjacency[vid].outgoing)
            &&& edges_present(checkpoint.edges, checkpoint.adjacency[vid].incoming)
        }
}

impl GraphCheckpoint {
    /// Whether every edge of a list is in the checkpoint.
    fn has_edges(&self, list: &Vec<(EdgeId, VertexId)>) -> (present: bool)
        ensures
            present == edges_present(self@.edges, list@),
    {
        for i in 0..list.len()
            invariant
                forall|j: int| 0 <= j < i ==> self@.edges.contains_key((#[trigger] list@[j]).0),
        {
            if !self.edges.contains_key(&list[i].0) {
                assert(!self@.edges.contains_key(list@[i as int].0));
                return false;
            }
        }
        true
    }

    /// Whether the checkpoint holds every edge along which it lists a neighbour.
    pub fn is_complete(&self) -> (complete: bool)
        ensures
            complete == is_complete(self@),
    {
        let owners = keys_of(&self.adjacency_list);
        for i in 0..owners.len()
            invariant
                forall|key: u64| #[trigger]
                    owners@.contains(key) <==> self@.adjacency.contains_key(key),
                forall|j: int|
                    0 <= j < i ==> edges_present(
                        self@.edges,
                        self@.adjacency[#[trigger] owners@[j]].outgoing,
                    ) && edges_present(self@.edges, self@.adjacency[owners@[j]].incoming),
        {
            assert(owners@.contains(owners@[i as int]));
            if let Some(saved) = self.adjacency_list.get(&owners[i]) {
                assert(self@.adjacency[owners@[i as int]] == saved@);
                if !self.has_edges(&saved.outgoing) || !self.has_edges(&saved.incoming) {
                    return false;
                }
            }
        }
        assert forall|vid: VertexId| #[trigger] self@.adjacency.contains_key(vid) implies {
            &&& edges_present(self@.edges, self@.adjacency[vid].outgoing)
            &&& edges_present(self@.edges, self@.adjacency[vid].incoming)
        } by {
            assert(owners@.contains(vid));
            let j = choose|j: int| 0 <= j < owners@.len() && owners@[j] == vid;
            assert(edges_present(self@.edges, self@.adjacency[owners@[j]].outgoing));
        }
        true
    }

    /// The neighbours that a list stands for.
    fn label_neighbors(&self, list: &Vec<(EdgeId, VertexId)>) -> (keys: Vec<NeighborKey>)
        requires
            edges_present(self@.edges, list@),
        ensures
            keys@ == list@.map_values(
                |entry: (EdgeId, VertexId)| labelled(self@.edges, entry),
            ),
    {
        let mut keys: Vec<NeighborKey> = Vec::new();
        for i in 0..list.len()
            invariant
                edges_present(self@.edges, list@),
                keys@.len() == i,
                forall|j: int|
                    0 <= j < i ==> #[trigger] keys@[j] == labelled(self@.edges, list@[j]),
        {
            let eid = list[i].0;
            assert(self@.edges.contains_key(list@[i as int].0));
            if let Some(edge) = self.edges.get(&eid) {
                assert(self@.edges[eid] == edge@);
                keys.push((edge.data.label_id, list[i].1, eid));
            }
        }
        assert(keys@ =~= list@.map_values(
            |entry: (EdgeId, VertexId)| labelled(self@.edges, entry),
        ));
        keys
    }

    /// A graph as the checkpoint describes it, with a configuration for its own checkpoints.
    pub fn restore(&self, checkpoint_config: CheckpointManagerConfig) -> (result: StorageResult<
        MemoryGraph,
    >)
        requires
            is_complete(self@),
        ensures
            match result {
                Ok(graph) => graph.wf() && graph@ == restored(self@, checkpoint_config@),
                Err(_) => false,
            },
    {
        let ghost config = checkpoint_config@;
        let mut graph = MemoryGraph::with_config_fresh(checkpoint_config);
        graph.next_lsn = self.metadata.lsn;
        graph.txn_manager.latest_commit_ts = self.metadata.latest_commit_ts;
        let ghost goal = restored(self@, config);
        let ghost base = graph@;

        let vids = keys_of(&self.vertices);
        for i in 0..vids.len()
            invariant
                graph.wf(),
                goal == restored(self@, config),
                forall|key: u64| #[trigger] vids@.contains(key) <==> self@.vertices.contains_key(
                    key,
                ),
                graph@ == (GraphView {
                    store: StoreView { vertices: graph@.store.vertices, ..base.store },
                    ..base
                }),
                forall|key: u64| #[trigger]
                    graph@.store.vertices.contains_key(key) <==> vids@.take(i as int).contains(key),
                forall|key: u64| #[trigger]
                    graph@.store.vertices.contains_key(key) ==> graph@.store.vertices[key]
                        == goal.store.vertices[key],
        {
            let vid = vids[i];
            let ghost before = graph@;
            assert(vids@.contains(vids@[i as int]));
            assert(vids@.take(i + 1) =~= vids@.take(i as int).push(vid));
            let ghost earlier = vids@.take(i as int);
            if let Some(saved) = self.vertices.get(&vid) {
                assert(self@.vertices[vid] == saved@);
                graph.store.vertices.insert(
                    vid,
                    VersionedVertex {
                        data: saved.data.duplicate(),
                        commit_ts: saved.commit_ts,
                        undo_ptr: None,
                    },
                );
            }
            proof {
                assert(graph@.store.vertices =~= before.store.vertices.insert(
                    vid,
                    goal.store.vertices[vid],
                ));
                assert forall|key: u64| #[trigger]
                    graph@.store.vertices.contains_key(key) <==> vids@.take(i + 1).contains(
                        key,
                    ) by {
                    lemma_push_contains(earlier, vid, key);
                }
            }
        }
        proof {
            assert(vids@.take(vids@.len() as int) =~= vids@);
            assert(graph@.store.vertices =~= goal.store.vertices);
        }
        let ghost base = graph@;

        let eids = keys_of(&self.edges);
        for i in 0..eids.len()
            invariant
                graph.wf(),
                goal == restored(self@, config),
                forall|key: u64| #[trigger] eids@.contains(key) <==> self@.edges.contains_key(key),
                graph@ == (GraphView {
                    store: StoreView { edges: graph@.store.edges, ..base.store },
                    ..base
                }),
                forall|key: u64| #[trigger]
                    graph@.store.edges.contains_key(key) <==> eids@.take(i as int).contains(key),
                forall|key: u64| #[trigger]
                    graph@.store.edges.contains_key(key) ==> graph@.store.edges[key]
                        == goal.store.edges[key],
        {
            let eid = eids[i];
            let ghost before = graph@;
            assert(eids@.contains(eids@[i as int]));
            assert(eids@.take(i + 1) =~= eids@.take(i as int).push(eid));
            let ghost earlier = eids@.take(i as int);
            if let Some(saved) = self.edges.get(&eid) {
                assert(self@.edges[eid] == saved@);
                graph.store.edges.insert(
                    eid,
                    VersionedEdge {
                        data: saved.data.duplicate(),
                        commit_ts: saved.commit_ts,
                        undo_ptr: None,
                    },
                );
            }
            proof {
                assert(graph@.store.edges =~= before.store.edges.insert(
                    eid,
                    goal.store.edges[eid],
                ));
                assert forall|key: u64| #[trigger]
                    graph@.store.edges.contains_key(key) <==> eids@.take(i + 1).contains(key) by {
                    lemma_push_contains(earlier, eid, key);
                }
            }
        }
        proof {
            assert(eids@.take(eids@.len() as int) =~= eids@);
            assert(graph@.store.edges =~= goal.store.edges);
        }
        let ghost base = graph@;

        let owners = keys_of(&self.adjacency_list);
        for i in 0..owners.len()
            invariant
                graph.wf(),
                is_complete(self@),
                goal == restored(self@, config),
                forall|key: u64| #[trigger]
                    owners@.contains(key) <==> self@.adjacency.contains_key(key),
                graph@ == (GraphView {
                    store: StoreView { adjacency: graph@.store.adjacency, ..base.store },
                    ..base
                }),
                forall|key: u64| #[trigger]
                    graph@.store.adjacency.contains_key(key) <==> owners@.take(i as int).contains(
                        key,
                    ),
                forall|key: u64| #[trigger]
                    graph@.store.adjacency.contains_key(key) ==> graph@.store.adjacency[key]
                        == goal.store.adjacency[key],
        {
            let vid = owners[i];
            let ghost before = graph@;
            assert(owners@.contains(owners@[i as int]));
            assert(owners@.take(i + 1) =~= owners@.take(i as int).push(vid));
            let ghost earlier = owners@.take(i as int);
            assert(self@.adjacency.contains_key(vid));
            if let Some(saved) = self.adjacency_list.get(&vid) {
                assert(self@.adjacency[vid] == saved@);
                let mut container = AdjacencyContainer::new();
                let outgoing = self.label_neighbors(&saved.outgoing);
                fill(&mut container.outgoing, &outgoing);
                let incoming = self.label_neighbors(&saved.incoming);
                fill(&mut container.incoming, &incoming);
                proof {
                    assert(container@.outgoing =~= goal.store.adjacency[vid].outgoing);
                    assert(container@.incoming =~= goal.store.adjacency[vid].incoming);
                }
                graph.store.adjacency_list.insert(vid, container);
            }
            proof {
                assert(graph@.store.adjacency =~= before.store.adjacency.insert(
                    vid,
                    goal.store.adjacency[vid],
                ));
                assert forall|key: u64| #[trigger]
                    graph@.store.adjacency.contains_key(key) <==> owners@.take(i + 1).contains(
                        key,
                    ) by {
                    lemma_push_contains(earlier, vid, key);
                }
            }
        }
        proof {
            assert(owners@.take(owners@.len() as int) =~= owners@);
            assert(graph@.store.adjacency =~= goal.store.adjacency);
        }
        Ok(graph)
    }
}

/// Whether saving a checkpoint asks and comes to that: the file is made, the checkpoint is turned
/// into bytes, and the bytes are written with their number and checksum before them. The first of
/// these that fails is the last.
pub open spec fn saves(
    checkpoint: CheckpointView,
    path: Seq<char>,
    events: Seq<Event>,
    result: Result<(), ErrorView>,
) -> bool {
    &&& events.len() >= 1
    &&& events[0] matches Event::Create(made, created)
    &&& made == path
    &&& match created {
        Err(text) => events.len() == 1 && result == Err::<(), ErrorView>(
            ErrorView::CheckpointIo(text),
        ),
        Ok(_) => {
            &&& events.len() >= 2
            &&& events[1] matches Event::Serialize(given, serialized)
            &&& given == checkpoint
            &&& match serialized {
                Err(text) => events.len() == 2 && result == Err::<(), ErrorView>(
                    ErrorView::SerializationFailed(text),
                ),
                Ok(bytes) => {
                    &&& events.len() == 3
                    &&& events[2] matches Event::Write(filled, file, written)
                    &&& filled == path
                    &&& file == framed(bytes, crc32_of(bytes))
                    &&& result == match written {
                        Ok(_) => Ok::<(), ErrorView>(()),
                        Err(text) => Err(ErrorView::CheckpointIo(text)),
                    }
                },
            }
        },
    }
}

/// What loading a checkpoint can come to: the file is read, its bytes are taken out and checked,
/// and turned into a checkpoint.
pub open spec fn loads<
    R: Fn(&String) -> Result<Vec<u8>, String>,
    D: Fn(&Vec<u8>) -> Result<GraphCheckpoint, String>,
>(path: String, read: R, deserialize: D, result: Result<CheckpointView, ErrorView>) -> bool {
    ||| exists|text: String| #[trigger]
        call_ensures(read, (&path,), Err(text)) && result == Err::<CheckpointView, ErrorView>(
            ErrorView::CheckpointIo(text@),
        )
    ||| exists|file: Vec<u8>| #[trigger]
        call_ensures(read, (&path,), Ok(file)) && match opened(file@) {
            Err(error) => result == Err::<CheckpointView, ErrorView>(error),
            Ok(enclosed) => decodes(deserialize, enclosed, result),
        }
}

/// What turning bytes into a checkpoint can come to.
pub open spec fn decodes<D: Fn(&Vec<u8>) -> Result<GraphCheckpoint, String>>(
    deserialize: D,
    enclosed: Seq<u8>,
    result: Result<CheckpointView, ErrorView>,
) -> bool {
    exists|bytes: Vec<u8>, answer: Result<GraphCheckpoint, String>| #[trigger]
        call_ensures(deserialize, (&bytes,), answer) && bytes@ == enclosed && result == match answer {
            Ok(checkpoint) => Ok::<CheckpointView, ErrorView>(checkpoint@),
            Err(text) => Err(ErrorView::DeserializationFailed(text@)),
        }
}

/// What loading came to.
pub open spec fn load_outcome(result: StorageResult<GraphCheckpoint>) -> Result<
    CheckpointView,
    ErrorView,
> {
    match result {
        Ok(checkpoint) => Ok(checkpoint@),
        Err(error) => Err(error@),
    }
}

impl GraphCheckpoint {
    /// Saves the checkpoint: in a new file, as the bytes that it is turned into, together with
    /// their number and checksum.
    pub fn save_to_file<O: Outside>(&self, path: &String, out: &mut O) -> (result: StorageResult<
        (),
    >)
        ensures
            goes_on(*old(out), *final(out)),
            saves(self@, path@, asked(*old(out), *final(out)), outcome(result)),
    {
        let ghost first = *out;
        let answer = out.create(path);
        let ghost second = *out;
        proof {
            lemma_once(first, second, Event::Create(path@, said(answer)));
        }
        match answer {
            Ok(_) => {},
            Err(text) => {
                return Err(StorageError::Checkpoint(CheckpointError::Io(text)));
            },
        }
        let answer = out.serialize(self);
        let ghost third = *out;
        proof {
            lemma_one_more(first, second, third, Event::Serialize(self@, bytes_said(answer)));
        }
        let bytes = match answer {
            Ok(bytes) => bytes,
            Err(text) => {
                return Err(StorageError::Checkpoint(CheckpointError::SerializationFailed(text)));
            },
        };
        let file = seal(&bytes);
        let answer = out.write(path, &file);
        proof {
            lemma_one_more(first, third, *out, Event::Write(path@, file@, said(answer)));
        }
        match answer {
            Ok(unit) => Ok(unit),
            Err(text) => Err(StorageError::Checkpoint(CheckpointError::Io(text))),
        }
    }

    /// Loads a checkpoint: from the file that `read` reads, whose bytes `deserialize` turns into a
    /// checkpoint once they have been found to be right.
    pub fn load_from_file<
        R: Fn(&String) -> Result<Vec<u8>, String>,
        D: Fn(&Vec<u8>) -> Result<GraphCheckpoint, String>,
    >(path: &String, read: &R, deserialize: &D) -> (result: StorageResult<GraphCheckpoint>)
        requires
            call_requires(*read, (path,)),
            forall|bytes: &Vec<u8>| #[trigger] call_requires(*deserialize, (bytes,)),
        ensures
            loads(*path, *read, *deserialize, load_outcome(result)),
    {
        let file = match read(path) {
            Ok(file) => file,
            Err(text) => {
                return Err(StorageError::Checkpoint(CheckpointError::Io(text)));
            },
        };
        let bytes = match unseal(&file) {
            Ok(bytes) => bytes,
            Err(error) => {
                return Err(error);
            },
        };
        let result = match deserialize(&bytes) {
            Ok(checkpoint) => Ok(checkpoint),
            Err(text) => Err(
                StorageError::Checkpoint(CheckpointError::DeserializationFailed(text)),
            ),
        };
        assert(decodes(*deserialize, bytes@, load_outcome(result)));
        result
    }
}

/// Adds neighbours to a set.
fn fill(set: &mut SkipSet<(u32, u64, u64)>, keys: &Vec<NeighborKey>)
    ensures
        skip_set_contents(*final(set)) == skip_set_contents(*old(set)).union(keys@.to_set()),
{
    proof {
        assert(keys@.take(0).to_set() =~= Set::empty());
        assert(skip_set_contents(*old(set)).union(Set::empty()) =~= skip_set_contents(*old(set)));
    }
    for i in 0..keys.len()
        invariant
            skip_set_contents(*set) == skip_set_contents(*old(set)).union(
                keys@.take(i as int).to_set(),
            ),
    {
        skip_set_insert(set, keys[i]);
        proof {
            assert(keys@.take(i + 1) =~= keys@.take(i as int).push(keys@[i as int]));
            keys@.take(i as int).lemma_push_to_set_commute(keys@[i as int]);
            assert(skip_set_contents(*set) =~= skip_set_contents(*old(set)).union(
                keys@.take(i + 1).to_set(),
            ));
        }
    }
    assert(keys@.take(keys@.len() as int) =~= keys@);
}

/// The keys of a map.
fn keys_of<V>(map: &HashMap<u64, V>) -> (keys: Vec<u64>)
    ensures
        forall|key: u64| #[trigger] keys@.contains(key) <==> map@.contains_key(key),
{
    let mut keys: Vec<u64> = Vec::new();
    for key in iter: map.keys()
        invariant
            iter.seq().unref().to_set() == map@.dom(),
            keys@ == iter.seq().unref().take(iter.index() as int),
            iter.index() == iter.seq().len() ==> keys@ == iter.seq().unref(),
    {
        keys.push(*key);
    }
    assert(keys@.to_set() == map@.dom());
    assert forall|key: u64| #[trigger] keys@.contains(key) <==> map@.contains_key(key) by {
        assert(keys@.to_set().contains(key) <==> keys@.contains(key));
    }
    keys
}

proof fn lemma_push_contains(s: Seq<u64>, x: u64, key: u64)
    ensures
        s.push(x).contains(key) <==> s.contains(key) || key == x,
{
    if s.contains(key) {
        let i = choose|i: int| 0 <= i < s.len() && s[i] == key;
        assert(s.push(x)[i] == key);
    }
    if key == x {
        assert(s.push(x)[s.len() as int] == key);
    }
    if s.push(x).contains(key) && key != x {
        let i = choose|i: int| 0 <= i < s.push(x).len() && s.push(x)[i] == key;
        assert(s[i] == key);
    }
}

} // verus!
