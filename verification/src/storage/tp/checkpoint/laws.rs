//! What holds of checkpoints: a graph that was restored is the graph that the snapshot was made of.

use vstd::prelude::*;

#[allow(unused_imports)]
use super::manager::{
    has_id, ids_differ, in_secs, is_known, is_oldest, keeps, lemma_position, lemma_with_entry,
    oldest, path_with_id, position_of, prunes, retains, surplus, with_saved, CheckpointsView,
    ConfigView, EntryView,
};
#[allow(unused_imports)]
use super::committed::{committed_edge, committed_vertex, is_commit, leads_edge, leads_vertex};
#[allow(unused_imports)]
use super::snapshot::{
    decodes, edge_and_neighbor, edges_present, is_complete, is_in_order, is_snapshot,
    labelled, lists, loads, neighbors_listed, restored, saves, CheckpointMetadata, CheckpointView,
    GraphCheckpoint, SavedEdge,
};
#[allow(unused_imports)]
use super::frame::law_open_sealed;
#[allow(unused_imports)]
use crate::collections::skip::NeighborKey;
#[allow(unused_imports)]
use crate::common::types::{EdgeId, VertexId};
#[allow(unused_imports)]
use crate::storage::error::ErrorView;
#[allow(unused_imports)]
use crate::storage::tp::memory_graph::{
    edge_before, linked_incoming, linked_outgoing, vertex_before, with_edge, with_vertex, GraphView,
};
#[allow(unused_imports)]
use crate::storage::tp::model::{EdgeView, StoreView, Timestamp, UndoPtr, VertexView};
#[allow(unused_imports)]
use crate::storage::tp::outside::Event;
#[allow(unused_imports)]
use crate::storage::tp::transaction::TxnView;

verus! {

/// Whether a neighbour is recorded with the label of an edge that is there.
pub open spec fn has_label(store: StoreView, key: NeighborKey) -> bool {
    store.edges.contains_key(key.2) && store.edges[key.2].data.label_id == key.0
}

/// Whether every neighbour is recorded with the label of an edge that is there.
pub open spec fn labels_agree(store: StoreView) -> bool {
    &&& forall|vid: VertexId, key: NeighborKey|
        store.adjacency.contains_key(vid) && #[trigger] store.adjacency[vid].outgoing.contains(key)
            ==> has_label(store, key)
    &&& forall|vid: VertexId, key: NeighborKey|
        store.adjacency.contains_key(vid) && #[trigger] store.adjacency[vid].incoming.contains(key)
            ==> has_label(store, key)
}

proof fn lemma_listed(
    store: StoreView,
    edges: Map<EdgeId, SavedEdge>,
    list: Seq<(EdgeId, VertexId)>,
    set: Set<NeighborKey>,
)
    requires
        lists(list, set),
        forall|key: NeighborKey| #[trigger] set.contains(key) ==> has_label(store, key),
        edges.dom() == store.edges.dom(),
        forall|eid: EdgeId| #[trigger]
            edges.contains_key(eid) ==> edges[eid].data == store.edges[eid].data,
    ensures
        neighbors_listed(edges, list) == set,
        edges_present(edges, list),
{
    let order = choose|order: Seq<NeighborKey>| #[trigger]
        is_in_order(order) && order.to_set() == set && list == order.map_values(
            |key: NeighborKey| edge_and_neighbor(key),
        );
    let keys = list.map_values(|entry: (EdgeId, VertexId)| labelled(edges, entry));
    assert forall|i: int| 0 <= i < order.len() implies edges.contains_key((#[trigger] list[i]).0)
        && keys[i] == order[i] by {
        assert(order.to_set().contains(order[i])) by {
            assert(order.contains(order[i]));
        }
        assert(has_label(store, order[i]));
        assert(edges.dom().contains(order[i].2));
    }
    assert(keys =~= order);
}

/// A graph that is restored from a snapshot is the last committed state of the graph that the
/// snapshot was made of: it has the same committed versions, the same neighbours, the same position
/// in the log and the same last commit timestamp; whatever the configuration for its checkpoints.
pub proof fn law_restore_snapshot(
    graph: GraphView,
    timestamp: u64,
    checkpoint: CheckpointView,
    config: ConfigView,
)
    requires
        is_snapshot(checkpoint, graph, timestamp),
        labels_agree(graph.store.committed()),
    ensures
        is_complete(checkpoint),
        restored(checkpoint, config).store == graph.store.committed(),
        restored(checkpoint, config).next_lsn == graph.next_lsn,
        restored(checkpoint, config).manager.latest_commit_ts == graph.manager.latest_commit_ts,
{
    let again = restored(checkpoint, config);
    let last = graph.store.committed();
    assert(checkpoint.edges.dom() =~= last.edges.dom());
    assert forall|vid: VertexId| #[trigger] checkpoint.adjacency.contains_key(vid) implies {
        &&& neighbors_listed(checkpoint.edges, checkpoint.adjacency[vid].outgoing)
            == last.adjacency[vid].outgoing
        &&& neighbors_listed(checkpoint.edges, checkpoint.adjacency[vid].incoming)
            == last.adjacency[vid].incoming
        &&& edges_present(checkpoint.edges, checkpoint.adjacency[vid].outgoing)
        &&& edges_present(checkpoint.edges, checkpoint.adjacency[vid].incoming)
    } by {
        assert(last.adjacency.dom().contains(vid));
        lemma_listed(
            last,
            checkpoint.edges,
            checkpoint.adjacency[vid].outgoing,
            last.adjacency[vid].outgoing,
        );
        lemma_listed(
            last,
            checkpoint.edges,
            checkpoint.adjacency[vid].incoming,
            last.adjacency[vid].incoming,
        );
    }
    assert forall|vid: VertexId| #[trigger] last.vertices.contains_key(vid) implies (
    last.vertices[vid].undo_ptr is None) by {
        let current = graph.store.vertices[vid];
        lemma_vertex_without_way(
            graph.store,
            current.data,
            current.commit_ts,
            current.undo_ptr,
        );
    }
    assert forall|eid: EdgeId| #[trigger] last.edges.contains_key(eid) implies (
    last.edges[eid].undo_ptr is None) by {
        let current = graph.store.edges[eid];
        lemma_edge_without_way(graph.store, current.data, current.commit_ts, current.undo_ptr);
    }
    assert(again.store.vertices =~= last.vertices);
    assert(again.store.edges =~= last.edges);
    assert(again.store.adjacency =~= last.adjacency);
}

proof fn lemma_vertex_without_way(
    store: StoreView,
    data: VertexView,
    commit_ts: Timestamp,
    undo_ptr: UndoPtr,
)
    ensures
        committed_vertex(store.undo, data, commit_ts, undo_ptr) matches Some(version)
            ==> version.undo_ptr is None && is_commit(version.commit_ts),
    decreases
            match undo_ptr {
                Some(key) => key + 1,
                None => 0,
            },
{
    if let Some(key) = undo_ptr {
        let entry = store.undo[key];
        if !is_commit(commit_ts) && store.undo.contains_key(key) && leads_vertex(
            data,
            key,
            entry,
        ) {
            lemma_vertex_without_way(
                store,
                vertex_before(data, entry.delta),
                entry.timestamp,
                entry.next,
            );
        }
    }
}

proof fn lemma_edge_without_way(
    store: StoreView,
    data: EdgeView,
    commit_ts: Timestamp,
    undo_ptr: UndoPtr,
)
    ensures
        committed_edge(store.undo, data, commit_ts, undo_ptr) matches Some(version)
            ==> version.undo_ptr is None && is_commit(version.commit_ts),
    decreases
            match undo_ptr {
                Some(key) => key + 1,
                None => 0,
            },
{
    if let Some(key) = undo_ptr {
        let entry = store.undo[key];
        if !is_commit(commit_ts) && store.undo.contains_key(key) && leads_edge(data, key, entry) {
            lemma_edge_without_way(
                store,
                edge_before(data, entry.delta),
                entry.timestamp,
                entry.next,
            );
        }
    }
}

/// A snapshot holds only committed versions, and of a graph on which no transaction is under way
/// it holds every current version.
pub proof fn law_snapshot_committed(graph: GraphView, timestamp: u64, checkpoint: CheckpointView)
    requires
        is_snapshot(checkpoint, graph, timestamp),
    ensures
        forall|vid: VertexId| #[trigger]
            checkpoint.vertices.contains_key(vid) ==> graph.store.vertices.contains_key(vid)
                && is_commit(checkpoint.vertices[vid].commit_ts),
        forall|eid: EdgeId| #[trigger]
            checkpoint.edges.contains_key(eid) ==> graph.store.edges.contains_key(eid)
                && is_commit(checkpoint.edges[eid].commit_ts),
        forall|vid: VertexId|
            graph.store.vertices.contains_key(vid) && is_commit(
                graph.store.vertices[vid].commit_ts,
            ) ==> #[trigger] checkpoint.vertices.contains_key(vid)
                && checkpoint.vertices[vid].data == graph.store.vertices[vid].data
                && checkpoint.vertices[vid].commit_ts == graph.store.vertices[vid].commit_ts,
        forall|eid: EdgeId|
            graph.store.edges.contains_key(eid) && is_commit(graph.store.edges[eid].commit_ts)
                ==> #[trigger] checkpoint.edges.contains_key(eid) && checkpoint.edges[eid].data
                == graph.store.edges[eid].data && checkpoint.edges[eid].commit_ts
                == graph.store.edges[eid].commit_ts,
{
    let store = graph.store;
    assert forall|vid: VertexId| #[trigger] checkpoint.vertices.contains_key(vid) implies (
    store.vertices.contains_key(vid) && is_commit(checkpoint.vertices[vid].commit_ts)) by {
        assert(store.committed().vertices.contains_key(vid));
        let current = store.vertices[vid];
        lemma_vertex_without_way(store, current.data, current.commit_ts, current.undo_ptr);
    }
    assert forall|eid: EdgeId| #[trigger] checkpoint.edges.contains_key(eid) implies (
    store.edges.contains_key(eid) && is_commit(checkpoint.edges[eid].commit_ts)) by {
        assert(store.committed().edges.contains_key(eid));
        let current = store.edges[eid];
        lemma_edge_without_way(store, current.data, current.commit_ts, current.undo_ptr);
    }
    assert forall|vid: VertexId|
        store.vertices.contains_key(vid) && is_commit(store.vertices[vid].commit_ts) implies (
    #[trigger] checkpoint.vertices.contains_key(vid)) && checkpoint.vertices[vid].data
        == store.vertices[vid].data && checkpoint.vertices[vid].commit_ts
        == store.vertices[vid].commit_ts by {
        assert(store.committed().vertices.contains_key(vid));
    }
    assert forall|eid: EdgeId|
        store.edges.contains_key(eid) && is_commit(store.edges[eid].commit_ts) implies (
    #[trigger] checkpoint.edges.contains_key(eid)) && checkpoint.edges[eid].data
        == store.edges[eid].data && checkpoint.edges[eid].commit_ts
        == store.edges[eid].commit_ts by {
        assert(store.committed().edges.contains_key(eid));
    }
}

/// What a transaction has created and not committed does not go into a snapshot.
pub proof fn law_uncommitted_left_out(
    store: StoreView,
    vertex: VertexView,
    edge: EdgeView,
    txn_id: Timestamp,
)
    requires
        !is_commit(txn_id),
    ensures
        !with_vertex(store, vertex, txn_id).committed().vertices.contains_key(vertex.vid),
        !with_edge(store, edge, txn_id).committed().edges.contains_key(edge.eid),
{
    assert(with_vertex(store, vertex, txn_id).last_vertex(vertex.vid) is None);
    assert(with_edge(store, edge, txn_id).last_edge(edge.eid) is None);
}

/// A transaction that reads the committed current version of a vertex reads the same from a graph
/// that was restored from a snapshot.
pub proof fn law_restored_vertex_seen(
    graph: GraphView,
    timestamp: u64,
    checkpoint: CheckpointView,
    config: ConfigView,
    vid: VertexId,
    reader: TxnView,
)
    requires
        is_snapshot(checkpoint, graph, timestamp),
        graph.store.vertices.contains_key(vid),
        is_commit(graph.store.vertices[vid].commit_ts),
        graph.store.vertex_way(vid, reader).len() == 0,
    ensures
        restored(checkpoint, config).store.vertex_visible(vid, reader)
            == graph.store.vertex_visible(vid, reader),
        restored(checkpoint, config).store.vertex_seen(vid, reader) == graph.store.vertex_seen(
            vid,
            reader,
        ),
{
    assert(graph.store.committed().vertices.contains_key(vid));
}

/// A transaction that reads the committed current version of an edge reads the same from a graph
/// that was restored from a snapshot.
pub proof fn law_restored_edge_seen(
    graph: GraphView,
    timestamp: u64,
    checkpoint: CheckpointView,
    config: ConfigView,
    eid: EdgeId,
    reader: TxnView,
)
    requires
        is_snapshot(checkpoint, graph, timestamp),
        graph.store.edges.contains_key(eid),
        is_commit(graph.store.edges[eid].commit_ts),
        graph.store.edge_way(eid, reader).len() == 0,
    ensures
        restored(checkpoint, config).store.edge_visible(eid, reader) == graph.store.edge_visible(
            eid,
            reader,
        ),
        restored(checkpoint, config).store.edge_seen(eid, reader) == graph.store.edge_seen(
            eid,
            reader,
        ),
{
    assert(graph.store.committed().edges.contains_key(eid));
}

/// Creating vertices and edges keeps every neighbour recorded with the label of its edge.
pub proof fn law_creating_keeps_labels(
    store: StoreView,
    vertex: VertexView,
    edge: EdgeView,
    txn_id: Timestamp,
)
    requires
        labels_agree(store),
        !store.edges.contains_key(edge.eid),
    ensures
        labels_agree(with_vertex(store, vertex, txn_id)),
        labels_agree(with_edge(store, edge, txn_id)),
{
    let created = with_vertex(store, vertex, txn_id);
    assert forall|vid: VertexId, key: NeighborKey|
        created.adjacency.contains_key(vid) && #[trigger] created.adjacency[vid].outgoing.contains(
            key,
        ) implies has_label(created, key) by {
        assert(store.adjacency[vid].outgoing.contains(key));
        assert(has_label(store, key));
    }
    assert forall|vid: VertexId, key: NeighborKey|
        created.adjacency.contains_key(vid) && #[trigger] created.adjacency[vid].incoming.contains(
            key,
        ) implies has_label(created, key) by {
        assert(store.adjacency[vid].incoming.contains(key));
        assert(has_label(store, key));
    }
    let linked = with_edge(store, edge, txn_id);
    let there: NeighborKey = (edge.label_id, edge.dst_id, edge.eid);
    let back: NeighborKey = (edge.label_id, edge.src_id, edge.eid);
    assert forall|vid: VertexId, key: NeighborKey|
        linked.adjacency.contains_key(vid) && #[trigger] linked.adjacency[vid].outgoing.contains(
            key,
        ) implies has_label(linked, key) by {
        if key != there {
            assert(store.adjacency.contains_key(vid));
            assert(store.adjacency[vid].outgoing.contains(key));
            assert(has_label(store, key));
        }
    }
    assert forall|vid: VertexId, key: NeighborKey|
        linked.adjacency.contains_key(vid) && #[trigger] linked.adjacency[vid].incoming.contains(
            key,
        ) implies has_label(linked, key) by {
        if key != back {
            assert(store.adjacency.contains_key(vid));
            assert(store.adjacency[vid].incoming.contains(key));
            assert(has_label(store, key));
        }
    }
}

proof fn lemma_oldest_exists(entries: Seq<EntryView>)
    requires
        entries.len() > 0,
    ensures
        exists|i: int| is_oldest(entries, i),
    decreases entries.len(),
{
    let last = entries.len() - 1;
    if last == 0 {
        assert(is_oldest(entries, 0));
    } else {
        let front = entries.drop_last();
        lemma_oldest_exists(front);
        let i = choose|i: int| is_oldest(front, i);
        assert forall|j: int| 0 <= j < last implies #[trigger] entries[j] == front[j] by {}
        if entries[last].created_at < entries[i].created_at {
            assert(is_oldest(entries, last)) by {
                assert forall|j: int| 0 <= j < last implies entries[last].created_at < (
                #[trigger] entries[j]).created_at by {
                    assert(front[i].created_at <= front[j].created_at);
                }
            }
        } else {
            assert(is_oldest(entries, i)) by {
                assert forall|j: int| 0 <= j < entries.len() implies entries[i].created_at <= (
                #[trigger] entries[j]).created_at by {
                    if j < last {
                        assert(front[i].created_at <= front[j].created_at);
                    }
                }
                assert forall|j: int| 0 <= j < i implies entries[i].created_at < (
                #[trigger] entries[j]).created_at by {
                    assert(front[i].created_at < front[j].created_at);
                }
            }
        }
    }
}

proof fn lemma_pruned(
    entries: Seq<EntryView>,
    count: nat,
    events: Seq<Event>,
    after: Seq<EntryView>,
)
    requires
        prunes(entries, count, events, after, Ok(())),
        count <= entries.len(),
    ensures
        after.len() == entries.len() - count,
        forall|i: int| 0 <= i < after.len() ==> entries.contains(#[trigger] after[i]),
        forall|i: int, j: int|
            0 <= i < entries.len() && 0 <= j < after.len() && !after.contains(
                #[trigger] entries[i],
            ) ==> entries[i].created_at <= (#[trigger] after[j]).created_at,
    decreases count,
{
    if count > 0 {
        lemma_oldest_exists(entries);
        let at = oldest(entries);
        assert(is_oldest(entries, at));
        let rest = entries.remove(at);
        lemma_pruned(rest, (count - 1) as nat, events.drop_first(), after);
        assert forall|i: int| 0 <= i < after.len() implies entries.contains(
            #[trigger] after[i],
        ) by {
            let j = choose|j: int| 0 <= j < rest.len() && rest[j] == after[i];
            let k = if j < at {
                j
            } else {
                j + 1
            };
            assert(entries[k] == rest[j]);
        }
        assert forall|i: int, j: int|
            0 <= i < entries.len() && 0 <= j < after.len() && !after.contains(
                #[trigger] entries[i],
            ) implies entries[i].created_at <= (#[trigger] after[j]).created_at by {
            if i == at {
                assert(entries.contains(after[j]));
                let k = choose|k: int| 0 <= k < entries.len() && entries[k] == after[j];
                assert(entries[at].created_at <= entries[k].created_at);
            } else {
                let m = if i < at {
                    i
                } else {
                    i - 1
                };
                assert(rest[m] == entries[i]);
            }
        }
    } else {
        assert forall|i: int| 0 <= i < after.len() implies entries.contains(
            #[trigger] after[i],
        ) by {
            assert(entries[i] == after[i]);
        }
        assert forall|i: int, j: int|
            0 <= i < entries.len() && 0 <= j < after.len() && !after.contains(
                #[trigger] entries[i],
            ) implies entries[i].created_at <= (#[trigger] after[j]).created_at by {
            assert(after[i] == entries[i]);
        }
    }
}

/// The retention policy keeps as many checkpoints as are wanted, and those are the most recent
/// ones: what was removed is not more recent than what was kept.
pub proof fn law_most_recent_kept(
    before: CheckpointsView,
    events: Seq<Event>,
    after: CheckpointsView,
)
    requires
        retains(before, events, after, Ok(())),
    ensures
        before.config.max_checkpoints == 0 ==> after.entries == before.entries,
        before.config.max_checkpoints > 0 && before.entries.len() > before.config.max_checkpoints
            ==> after.entries.len() == before.config.max_checkpoints,
        before.entries.len() <= before.config.max_checkpoints ==> after.entries == before.entries,
        forall|i: int|
            0 <= i < after.entries.len() ==> before.entries.contains(
                #[trigger] after.entries[i],
            ),
        forall|i: int, j: int|
            0 <= i < before.entries.len() && 0 <= j < after.entries.len()
                && !after.entries.contains(#[trigger] before.entries[i])
                ==> before.entries[i].created_at <= (#[trigger] after.entries[j]).created_at,
{
    lemma_pruned(before.entries, surplus(before), events, after.entries);
}

/// A checkpoint that was saved is known under its identifier, with its file's path.
pub proof fn law_saved_known(
    before: CheckpointsView,
    id: Seq<char>,
    metadata: CheckpointMetadata,
    description: Option<Seq<char>>,
    created: u128,
    now: u128,
)
    requires
        ids_differ(before.entries),
    ensures
        ({
            let after = with_saved(before, id, metadata, description, created, now);
            &&& is_known(after.entries, id)
            &&& ids_differ(after.entries)
            &&& after.entries[position_of(after.entries, id)].metadata == metadata
            &&& after.entries[position_of(after.entries, id)].path == path_with_id(
                before.config,
                id,
            )
        }),
{
    let after = with_saved(before, id, metadata, description, created, now);
    let entry = EntryView {
        id,
        path: path_with_id(before.config, id),
        metadata,
        description,
        created_at: in_secs(created),
    };
    lemma_with_entry(before.entries, entry);
    let at = if is_known(before.entries, id) {
        assert(has_id(before.entries, position_of(before.entries, id), id));
        position_of(before.entries, id)
    } else {
        before.entries.len() as int
    };
    assert(after.entries[at] == entry);
    assert(has_id(after.entries, at, id));
    lemma_position(after.entries, at, id);
}

/// No file is made, written or removed for a checkpoint before the log was truncated.
pub proof fn law_truncated_first(
    before: CheckpointsView,
    checkpoint: CheckpointView,
    description: Option<Seq<char>>,
    events: Seq<Event>,
    id: Seq<char>,
    after: CheckpointsView,
    result: Result<Seq<char>, ErrorView>,
    i: int,
)
    requires
        keeps(before, checkpoint, description, events, id, after, result),
        0 <= i < events.len(),
        events[i] is Create || events[i] is Write || events[i] is Remove,
    ensures
        i > 0,
        events[0] == Event::Truncate(checkpoint.metadata.lsn, Ok(())),
{
}

/// A checkpoint that was saved is loaded again, the same in all its parts, where the file still
/// holds what was written to it and its bytes are turned back into what they were made of. Left out
/// are checkpoints whose bytes are too many for their number to fit in 32 bits.
pub proof fn law_load_saved<
    R: Fn(&String) -> Result<Vec<u8>, String>,
    D: Fn(&Vec<u8>) -> Result<GraphCheckpoint, String>,
>(
    checkpoint: CheckpointView,
    path: String,
    events: Seq<Event>,
    bytes: Seq<u8>,
    read: R,
    deserialize: D,
    loaded: Result<CheckpointView, ErrorView>,
)
    requires
        saves(checkpoint, path@, events, Ok(())),
        events[1] == Event::Serialize(checkpoint, Ok(bytes)),
        bytes.len() <= u32::MAX,
        loads(path, read, deserialize, loaded),
        forall|answer: Result<Vec<u8>, String>| #[trigger]
            call_ensures(read, (&path,), answer) ==> (answer matches Ok(file) && events[2]
                == Event::Write(path@, file@, Ok(()))),
        forall|again: Vec<u8>, answer: Result<GraphCheckpoint, String>| #[trigger]
            call_ensures(deserialize, (&again,), answer) && again@ == bytes ==> (answer matches Ok(
                same,
            ) && same@ == checkpoint),
    ensures
        loaded == Ok::<CheckpointView, ErrorView>(checkpoint),
{
    law_open_sealed(bytes);
    assert(decodes(deserialize, bytes, loaded));
}

} // verus!
