//! What checkpoints hold, how their files are laid out, and which of them are kept.

use vstd::prelude::*;
#[allow(unused_imports)]
use vstd::bytes::{spec_u32_from_le_bytes, spec_u32_to_le_bytes};

#[allow(unused_imports)]
use super::committed::{committed_edge, committed_vertex, is_commit};
#[allow(unused_imports)]
use super::frame::{crc32_of, framed, opened};
#[allow(unused_imports)]
use super::manager::{
    auto_creates, creates, entry_of, has_id, ids_differ, in_secs, is_candidate, is_due, is_known,
    is_oldest, keeps, lemma_with_entry, looks_at, looks_through, oldest, position_of, prunes,
    retains, surplus, with_entry, with_saved, CheckpointsView, ConfigView, EntryView, FoundFile,
};
#[allow(unused_imports)]
use super::names::{joined, last_dot, name_with_id, starts, stem, without_prefix};
#[allow(unused_imports)]
use super::snapshot::{
    decodes, is_in_order, is_snapshot, lists, loads, restored, CheckpointMetadata, CheckpointView,
    GraphCheckpoint,
};
#[allow(unused_imports)]
use crate::collections::skip::NeighborKey;
#[allow(unused_imports)]
use crate::common::types::{EdgeId, VertexId};
#[allow(unused_imports)]
use crate::common::value::ScalarValue;
#[allow(unused_imports)]
use crate::storage::error::{ErrorView, StorageResult};
#[allow(unused_imports)]
use crate::storage::tp::memory_graph::{edge_before, vertex_before, GraphView};
#[allow(unused_imports)]
use crate::storage::tp::model::{
    props_after, DeltaView, EdgeView, PropsView, StoreView, Timestamp, VertexView,
};
#[allow(unused_imports)]
use crate::storage::tp::outside::Event;
#[allow(unused_imports)]
use crate::storage::tp::write_laws::{
    edge_has_versions, key_at, law_props_set, leads_on, vertex_has_versions,
};

verus! {

proof fn lemma_reset(
    newer: Seq<ScalarValue>,
    op: PropsView,
    older: Seq<ScalarValue>,
)
    requires
        op.indices.len() == op.props.len(),
        op.indices.no_duplicates(),
        older.len() == newer.len(),
        forall|i: int|
            0 <= i < op.indices.len() ==> (#[trigger] op.indices[i]) < older.len()
                && older[op.indices[i] as int] == op.props[i],
        forall|k: int|
            0 <= k < older.len() && (forall|i: int|
                0 <= i < op.indices.len() ==> #[trigger] op.indices[i] != k) ==> #[trigger] older[k]
                == newer[k],
    ensures
        props_after(newer, op) == older,
{
    law_props_set(newer, op);
    let after = props_after(newer, op);
    assert forall|k: int| 0 <= k < older.len() implies #[trigger] after[k] == older[k] by {
        if exists|i: int| 0 <= i < op.indices.len() && #[trigger] op.indices[i] == k {
            let i = choose|i: int| 0 <= i < op.indices.len() && #[trigger] op.indices[i] == k;
            assert forall|j: int| i < j < op.indices.len() implies #[trigger] op.indices[j]
                != op.indices[i] by {}
            assert(after[op.indices[i] as int] == op.props[i]);
        } else {
            assert(older[k] == newer[k]);
        }
    }
    assert(after =~= older);
}

proof fn lemma_committed_vertex(
    store: StoreView,
    id: VertexId,
    versions: Seq<VertexView>,
    times: Seq<u64>,
    keys: Seq<u64>,
    j: int,
    i: int,
)
    requires
        vertex_has_versions(store, id, versions, times, keys),
        0 <= i <= j < versions.len(),
        times[j] < 0x8000_0000_0000_0000,
        forall|k: int| 0 <= k < j ==> (#[trigger] times[k]) >= 0x8000_0000_0000_0000,
        forall|k: int| 0 <= k < j ==> !(store.undo[#[trigger] keys[k]].delta is DelVertex),
    ensures
        committed_vertex(store.undo, versions[i], Timestamp(times[i]), key_at(keys, i)) matches Some(
            last,
        ) && last.data == versions[j] && last.commit_ts == Timestamp(times[j]),
    decreases j - i,
{
    if i < j {
        let key = keys[i];
        assert(times[i] >= 0x8000_0000_0000_0000);
        assert(leads_on(store.undo, times, keys, i));
        if i + 1 < keys.len() {
            assert(keys[i] > keys[i + 1]);
        }
        if let DeltaView::SetVertexProps(_, op) = store.undo[key].delta {
            assert forall|k: int| 0 <= k < op.indices.len() && k < op.props.len() implies (
            #[trigger] op.indices[k]) < versions[i].properties.len() by {}
            lemma_reset(versions[i].properties, op, versions[i + 1].properties);
        }
        assert(!(store.undo[key].delta is DelVertex));
        assert(vertex_before(versions[i], store.undo[key].delta) == versions[i + 1]);
        lemma_committed_vertex(store, id, versions, times, keys, j, i + 1);
    } else {
        assert(is_commit(Timestamp(times[j])));
    }
}

/// A snapshot holds of a vertex the newest version that was committed, whatever is written on top of
/// it and not committed, with the time of its commit.
pub proof fn law_snapshot_vertex(
    graph: GraphView,
    timestamp: u64,
    checkpoint: CheckpointView,
    id: VertexId,
    versions: Seq<VertexView>,
    times: Seq<u64>,
    keys: Seq<u64>,
    j: int,
)
    requires
        is_snapshot(checkpoint, graph, timestamp),
        vertex_has_versions(graph.store, id, versions, times, keys),
        0 <= j < versions.len(),
        times[j] < 0x8000_0000_0000_0000,
        forall|k: int| 0 <= k < j ==> (#[trigger] times[k]) >= 0x8000_0000_0000_0000,
        forall|k: int| 0 <= k < j ==> !(graph.store.undo[#[trigger] keys[k]].delta is DelVertex),
    ensures
        checkpoint.vertices.contains_key(id),
        checkpoint.vertices[id].data == versions[j],
        checkpoint.vertices[id].commit_ts == Timestamp(times[j]),
{
    lemma_committed_vertex(graph.store, id, versions, times, keys, j, 0);
    assert(graph.store.committed().vertices.contains_key(id));
}

proof fn lemma_committed_edge(
    store: StoreView,
    id: EdgeId,
    versions: Seq<EdgeView>,
    times: Seq<u64>,
    keys: Seq<u64>,
    j: int,
    i: int,
)
    requires
        edge_has_versions(store, id, versions, times, keys),
        0 <= i <= j < versions.len(),
        times[j] < 0x8000_0000_0000_0000,
        forall|k: int| 0 <= k < j ==> (#[trigger] times[k]) >= 0x8000_0000_0000_0000,
        forall|k: int| 0 <= k < j ==> !(store.undo[#[trigger] keys[k]].delta is DelEdge),
    ensures
        committed_edge(store.undo, versions[i], Timestamp(times[i]), key_at(keys, i)) matches Some(
            last,
        ) && last.data == versions[j] && last.commit_ts == Timestamp(times[j]),
    decreases j - i,
{
    if i < j {
        let key = keys[i];
        assert(times[i] >= 0x8000_0000_0000_0000);
        assert(leads_on(store.undo, times, keys, i));
        if i + 1 < keys.len() {
            assert(keys[i] > keys[i + 1]);
        }
        if let DeltaView::SetEdgeProps(_, op) = store.undo[key].delta {
            assert forall|k: int| 0 <= k < op.indices.len() && k < op.props.len() implies (
            #[trigger] op.indices[k]) < versions[i].properties.len() by {}
            lemma_reset(versions[i].properties, op, versions[i + 1].properties);
        }
        assert(!(store.undo[key].delta is DelEdge));
        assert(edge_before(versions[i], store.undo[key].delta) == versions[i + 1]);
        lemma_committed_edge(store, id, versions, times, keys, j, i + 1);
    } else {
        assert(is_commit(Timestamp(times[j])));
    }
}

/// A snapshot holds of an edge the newest version that was committed, whatever is written on top of
/// it and not committed, with the time of its commit.
pub proof fn law_snapshot_edge(
    graph: GraphView,
    timestamp: u64,
    checkpoint: CheckpointView,
    id: EdgeId,
    versions: Seq<EdgeView>,
    times: Seq<u64>,
    keys: Seq<u64>,
    j: int,
)
    requires
        is_snapshot(checkpoint, graph, timestamp),
        edge_has_versions(graph.store, id, versions, times, keys),
        0 <= j < versions.len(),
        times[j] < 0x8000_0000_0000_0000,
        forall|k: int| 0 <= k < j ==> (#[trigger] times[k]) >= 0x8000_0000_0000_0000,
        forall|k: int| 0 <= k < j ==> !(graph.store.undo[#[trigger] keys[k]].delta is DelEdge),
    ensures
        checkpoint.edges.contains_key(id),
        checkpoint.edges[id].data == versions[j],
        checkpoint.edges[id].commit_ts == Timestamp(times[j]),
{
    lemma_committed_edge(graph.store, id, versions, times, keys, j, 0);
    assert(graph.store.committed().edges.contains_key(id));
}

/// A snapshot tells when it was made, where the log stood and what the last commit was, and lists
/// exactly the vertices that have neighbours, with exactly their neighbours.
pub proof fn law_snapshot_neighbors(graph: GraphView, timestamp: u64, checkpoint: CheckpointView)
    requires
        is_snapshot(checkpoint, graph, timestamp),
    ensures
        checkpoint.metadata.timestamp == timestamp,
        checkpoint.metadata.lsn == graph.next_lsn,
        checkpoint.metadata.latest_commit_ts == graph.manager.latest_commit_ts,
        forall|vid: VertexId| #[trigger]
            checkpoint.adjacency.contains_key(vid) <==> graph.store.adjacency.contains_key(vid),
        forall|vid: VertexId, eid: EdgeId, other: VertexId|
            checkpoint.adjacency.contains_key(vid) ==> {
                &&& #[trigger] checkpoint.adjacency[vid].outgoing.contains((eid, other))
                    <==> exists|label: u32|
                    #[trigger] graph.store.adjacency[vid].outgoing.contains((label, other, eid))
            },
        forall|vid: VertexId, eid: EdgeId, other: VertexId|
            checkpoint.adjacency.contains_key(vid) ==> {
                &&& #[trigger] checkpoint.adjacency[vid].incoming.contains((eid, other))
                    <==> exists|label: u32|
                    #[trigger] graph.store.adjacency[vid].incoming.contains((label, other, eid))
            },
{
    assert forall|vid: VertexId| checkpoint.adjacency.contains_key(vid) implies {
        &&& forall|eid: EdgeId, other: VertexId|
            #[trigger] checkpoint.adjacency[vid].outgoing.contains((eid, other)) <==> exists|
                label: u32,
            |
                #[trigger] graph.store.adjacency[vid].outgoing.contains((label, other, eid))
        &&& forall|eid: EdgeId, other: VertexId|
            #[trigger] checkpoint.adjacency[vid].incoming.contains((eid, other)) <==> exists|
                label: u32,
            |
                #[trigger] graph.store.adjacency[vid].incoming.contains((label, other, eid))
    } by {
        lemma_lists(
            checkpoint.adjacency[vid].outgoing,
            graph.store.adjacency[vid].outgoing,
        );
        lemma_lists(
            checkpoint.adjacency[vid].incoming,
            graph.store.adjacency[vid].incoming,
        );
    }
}

proof fn lemma_lists(list: Seq<(EdgeId, VertexId)>, set: Set<NeighborKey>)
    requires
        lists(list, set),
    ensures
        forall|eid: EdgeId, other: VertexId|
            #[trigger] list.contains((eid, other)) <==> exists|label: u32|
                #[trigger] set.contains((label, other, eid)),
{
    let order = choose|order: Seq<NeighborKey>| #[trigger]
        is_in_order(order) && order.to_set() == set && list == order.map_values(
            |key: NeighborKey| super::snapshot::edge_and_neighbor(key),
        );
    assert forall|eid: EdgeId, other: VertexId|
        #[trigger] list.contains((eid, other)) <==> exists|label: u32|
            #[trigger] set.contains((label, other, eid)) by {
        if list.contains((eid, other)) {
            let i = choose|i: int| 0 <= i < list.len() && list[i] == (eid, other);
            let key = order[i];
            assert(order.contains(key));
            assert(set.contains((key.0, other, eid)));
        }
        if exists|label: u32| #[trigger] set.contains((label, other, eid)) {
            let label = choose|label: u32| #[trigger] set.contains((label, other, eid));
            assert(order.contains((label, other, eid)));
            let i = choose|i: int| 0 <= i < order.len() && order[i] == (label, other, eid);
            assert(list[i] == (eid, other));
        }
    }
}

/// A graph that was restored from a checkpoint holds its versions as they are, with nothing before
/// them, stands where the log stood, and has no transaction.
pub proof fn law_restored_as_saved(checkpoint: CheckpointView, config: ConfigView)
    ensures
        ({
            let graph = restored(checkpoint, config);
            &&& forall|vid: VertexId| #[trigger]
                graph.store.vertices.contains_key(vid) <==> checkpoint.vertices.contains_key(vid)
            &&& forall|vid: VertexId| #[trigger]
                checkpoint.vertices.contains_key(vid) ==> graph.store.vertices[vid].data
                    == checkpoint.vertices[vid].data && graph.store.vertices[vid].commit_ts
                    == checkpoint.vertices[vid].commit_ts
                    && graph.store.vertices[vid].undo_ptr is None
            &&& forall|eid: EdgeId| #[trigger]
                graph.store.edges.contains_key(eid) <==> checkpoint.edges.contains_key(eid)
            &&& forall|eid: EdgeId| #[trigger]
                checkpoint.edges.contains_key(eid) ==> graph.store.edges[eid].data
                    == checkpoint.edges[eid].data && graph.store.edges[eid].commit_ts
                    == checkpoint.edges[eid].commit_ts && graph.store.edges[eid].undo_ptr is None
            &&& forall|vid: VertexId| #[trigger]
                graph.store.adjacency.contains_key(vid) <==> checkpoint.adjacency.contains_key(vid)
            &&& graph.next_lsn == checkpoint.metadata.lsn
            &&& graph.manager.latest_commit_ts == checkpoint.metadata.latest_commit_ts
            &&& graph.manager.active.dom() == Set::<u64>::empty()
            &&& graph.manager.committed.dom() == Set::<u64>::empty()
            &&& graph.store.undo.dom() == Set::<u64>::empty()
            &&& graph.checkpoints is None
            &&& graph.checkpoint_config == config
        }),
{
}

/// The file of a checkpoint starts with how many bytes there are, in four bytes with the lowest
/// first, then has the checksum in the same form, and then the bytes themselves and nothing more.
pub proof fn law_file_layout(bytes: Seq<u8>, sum: u32)
    requires
        bytes.len() <= u32::MAX,
    ensures
        framed(bytes, sum).len() == 8 + bytes.len(),
        framed(bytes, sum).subrange(0, 4) == spec_u32_to_le_bytes(bytes.len() as u32),
        framed(bytes, sum).subrange(4, 8) == spec_u32_to_le_bytes(sum),
        framed(bytes, sum).subrange(8, 8 + bytes.len() as int) == bytes,
{
    vstd::bytes::lemma_auto_spec_u32_to_from_le_bytes();
    let file = framed(bytes, sum);
    assert(spec_u32_to_le_bytes(bytes.len() as u32).len() == 4);
    assert(spec_u32_to_le_bytes(sum).len() == 4);
    assert(file.subrange(0, 4) =~= spec_u32_to_le_bytes(bytes.len() as u32));
    assert(file.subrange(4, 8) =~= spec_u32_to_le_bytes(sum));
    assert(file.subrange(8, 8 + bytes.len() as int) =~= bytes);
}

/// What is taken out of a file are the bytes behind its head, as many as the first four bytes say,
/// and their checksum is the one that the next four state. A file is refused exactly where it is
/// too short for that, or where the checksum is another.
pub proof fn law_file_opened(file: Seq<u8>)
    ensures
        ({
            let wanted = spec_u32_from_le_bytes(file.subrange(0, 4)) as int;
            let there = file.len() >= 8 && file.len() >= 8 + wanted;
            let bytes = file.subrange(8, 8 + wanted);
            &&& opened(file) is Ok <==> there && crc32_of(bytes) == spec_u32_from_le_bytes(
                file.subrange(4, 8),
            )
            &&& opened(file) matches Ok(taken) ==> taken == bytes
            &&& !there ==> opened(file) is Err && opened(file)->Err_0 is CheckpointIo
            &&& there && opened(file) is Err ==> opened(file)->Err_0 is ChecksumMismatch
        }),
{
}

/// The path of a file in a directory is the name itself where that is a full path. Else it is the
/// directory, a stroke unless there is one already or there is no directory, and the name.
pub proof fn law_joined(dir: Seq<char>, name: Seq<char>)
    ensures
        name.len() > 0 && name[0] == '/' ==> joined(dir, name) == name,
        !(name.len() > 0 && name[0] == '/') ==> {
            let path = joined(dir, name);
            let gap: int = if dir.len() == 0 || dir[dir.len() - 1] == '/' {
                0
            } else {
                1
            };
            &&& path.len() == dir.len() + gap + name.len()
            &&& path.subrange(0, dir.len() as int) == dir
            &&& path.subrange(dir.len() + gap, path.len() as int) == name
            &&& gap == 1 ==> path[dir.len() as int] == '/'
        },
{
    reveal_strlit("/");
    let path = joined(dir, name);
    assert("/"@ =~= seq!['/']);
    if !(name.len() > 0 && name[0] == '/') {
        let gap: int = if dir.len() == 0 || dir[dir.len() - 1] == '/' {
            0
        } else {
            1
        };
        assert(path.subrange(0, dir.len() as int) =~= dir);
        assert(path.subrange(dir.len() + gap, path.len() as int) =~= name);
    }
}

/// The name of a checkpoint's file is its prefix, an underscore, its identifier and the ending for
/// binary files.
pub proof fn law_file_name(prefix: Seq<char>, id: Seq<char>)
    ensures
        ({
            let name = name_with_id(prefix, id);
            let n = prefix.len() as int;
            let m = id.len() as int;
            &&& name.len() == n + m + 5
            &&& name.subrange(0, n) == prefix
            &&& name[n] == '_'
            &&& name.subrange(n + 1, n + 1 + m) == id
            &&& name.subrange(n + 1 + m, n + m + 5) == seq!['.', 'b', 'i', 'n']
        }),
{
    reveal_strlit("_");
    reveal_strlit(".bin");
    let name = name_with_id(prefix, id);
    let n = prefix.len() as int;
    let m = id.len() as int;
    assert("_"@ =~= seq!['_']);
    assert(".bin"@ =~= seq!['.', 'b', 'i', 'n']);
    assert(name.subrange(0, n) =~= prefix);
    assert(name.subrange(n + 1, n + 1 + m) =~= id);
    assert(name.subrange(n + 1 + m, n + m + 5) =~= seq!['.', 'b', 'i', 'n']);
}

/// A time in nanoseconds is at least its whole seconds, and less than one more.
pub proof fn law_whole_seconds(time: u128)
    requires
        time < 0x1_0000_0000_0000_0000u128,
    ensures
        in_secs(time) * 1_000_000_000 <= time,
        time < (in_secs(time) + 1) * 1_000_000_000,
{
}

/// An automatic checkpoint is never due where the interval is zero, is due where there was none
/// yet, and else from the time on when the interval has passed; and it is due where the last one
/// lies ahead.
pub proof fn law_due(view: CheckpointsView, now: u128)
    ensures
        view.config.auto_checkpoint_interval_secs == 0 ==> !is_due(view, now),
        view.config.auto_checkpoint_interval_secs != 0 && view.last_auto is None ==> is_due(
            view,
            now,
        ),
        view.config.auto_checkpoint_interval_secs != 0 ==> (view.last_auto matches Some(last)
            ==> (is_due(view, now) <==> now < last || now - last
            >= view.config.auto_checkpoint_interval_secs * 1_000_000_000)),
{
}

/// Where no automatic checkpoint is due, nothing is made and nothing changes; where one is due and
/// no transaction is active, one is tried, and the position in the log goes on by one. While a
/// transaction is active none is made.
pub proof fn law_automatic_checkpoint(
    before: CheckpointsView,
    graph: GraphView,
    events: Seq<Event>,
    after: CheckpointsView,
    graph_after: GraphView,
    result: Result<Option<Seq<char>>, ErrorView>,
)
    requires
        auto_creates(before, graph, events, after, graph_after, result),
        graph.next_lsn < u64::MAX,
    ensures
        before.config.auto_checkpoint_interval_secs == 0 ==> result == Ok::<
            Option<Seq<char>>,
            ErrorView,
        >(None) && after == before && graph_after == graph && events.len() == 0,
        before.config.auto_checkpoint_interval_secs != 0 ==> {
            &&& events.len() > 0 && events[0] is Time
            &&& !is_due(before, events[0]->Time_0) ==> result == Ok::<
                Option<Seq<char>>,
                ErrorView,
            >(None) && after == before && graph_after == graph && events.len() == 1
            &&& is_due(before, events[0]->Time_0) ==> {
                &&& result != Ok::<Option<Seq<char>>, ErrorView>(None)
                &&& graph_after.store == graph.store
                &&& graph_after.manager == graph.manager
                &&& if graph.manager.active.dom() == Set::<u64>::empty() {
                    graph_after.next_lsn == graph.next_lsn + 1
                } else {
                    &&& result == Err::<Option<Seq<char>>, ErrorView>(ErrorView::Timeout)
                    &&& after == before
                    &&& graph_after == graph
                }
            }
        },
{
    if graph.manager.active.dom() == Set::<u64>::empty() {
        assert(graph.manager.active =~= Map::<u64, u64>::empty());
    } else {
        assert(Map::<u64, u64>::empty().dom() =~= Set::<u64>::empty());
    }
}

/// A checkpoint that becomes known is the only one with its identifier. It takes the place of one
/// that had the same, or goes behind the others; every other one stays in its place as it was.
pub proof fn law_entry_added(entries: Seq<EntryView>, entry: EntryView)
    requires
        ids_differ(entries),
    ensures
        ({
            let after = with_entry(entries, entry);
            &&& ids_differ(after)
            &&& after.contains(entry)
            &&& forall|i: int|
                0 <= i < entries.len() && (#[trigger] entries[i]).id != entry.id ==> after[i]
                    == entries[i]
            &&& (forall|i: int| 0 <= i < entries.len() ==> (#[trigger] entries[i]).id != entry.id)
                ==> after.len() == entries.len() + 1 && after.last() == entry
            &&& (exists|i: int| 0 <= i < entries.len() && (#[trigger] entries[i]).id == entry.id)
                ==> after.len() == entries.len()
        }),
{
    lemma_with_entry(entries, entry);
    let after = with_entry(entries, entry);
    if is_known(entries, entry.id) {
        let at = position_of(entries, entry.id);
        assert(has_id(entries, at, entry.id));
        assert(after[at] == entry);
    } else {
        assert forall|i: int| 0 <= i < entries.len() implies (#[trigger] entries[i]).id
            != entry.id by {
            assert(!has_id(entries, i, entry.id));
        }
        assert(after[entries.len() as int] == entry);
    }
    if exists|i: int| 0 <= i < entries.len() && (#[trigger] entries[i]).id == entry.id {
        let i = choose|i: int| 0 <= i < entries.len() && (#[trigger] entries[i]).id == entry.id;
        assert(has_id(entries, i, entry.id));
    }
}

/// A checkpoint that was saved is known with its description, the time in seconds when it was made
/// and what it tells of itself, and the time is remembered as that of the last one.
pub proof fn law_saved_entry(
    before: CheckpointsView,
    id: Seq<char>,
    metadata: CheckpointMetadata,
    description: Option<Seq<char>>,
    created: u128,
    now: u128,
) -> (at: int)
    requires
        ids_differ(before.entries),
    ensures
        ({
            let after = with_saved(before, id, metadata, description, created, now);
            &&& 0 <= at < after.entries.len()
            &&& after.entries[at].id == id
            &&& after.entries[at].metadata == metadata
            &&& after.entries[at].description == description
            &&& after.entries[at].created_at == in_secs(created)
            &&& after.entries[at].path == joined(
                before.config.checkpoint_dir,
                name_with_id(before.config.checkpoint_prefix, id),
            )
            &&& after.last_auto == Some(now)
            &&& after.config == before.config
        }),
{
    let after = with_saved(before, id, metadata, description, created, now);
    if is_known(before.entries, id) {
        let at = position_of(before.entries, id);
        assert(has_id(before.entries, at, id));
        at
    } else {
        before.entries.len() as int
    }
}

/// A file is taken for one of a checkpoint exactly where it is a regular file whose name starts
/// with the prefix.
pub proof fn law_candidate(file: FoundFile, prefix: Seq<char>)
    ensures
        is_candidate(file, prefix) <==> file.is_file && file.name@.len() >= prefix.len() && forall|
            i: int,
        |
            0 <= i < prefix.len() ==> #[trigger] file.name@[i] == prefix[i],
{
    let name = file.name@;
    if name.len() >= prefix.len() {
        let head = name.subrange(0, prefix.len() as int);
        if forall|i: int| 0 <= i < prefix.len() ==> #[trigger] name[i] == prefix[i] {
            assert(head =~= prefix);
        }
        if head == prefix {
            assert forall|i: int| 0 <= i < prefix.len() implies #[trigger] name[i]
                == prefix[i] by {
                assert(head[i] == prefix[i]);
            }
        }
    }
}

/// Whether an entry is that of a checkpoint that was loaded from a file that was found.
pub open spec fn comes_from_file<L: Fn(&String) -> StorageResult<GraphCheckpoint>>(
    entry: EntryView,
    file: FoundFile,
    config: ConfigView,
    load: L,
) -> bool {
    &&& is_candidate(file, config.checkpoint_prefix)
    &&& entry.path == joined(config.checkpoint_dir, file.name@)
    &&& entry.created_at == entry.metadata.timestamp
    &&& entry.description is None
    &&& exists|path: String, checkpoint: GraphCheckpoint| #[trigger]
        call_ensures(load, (&path,), Ok(checkpoint)) && path@ == entry.path
            && checkpoint.metadata == entry.metadata
}

/// The checkpoints that are known after looking through files are those that were known before and
/// those that were loaded from files that look like ones of a checkpoint, and no others.
pub proof fn law_found_checkpoints<L: Fn(&String) -> StorageResult<GraphCheckpoint>>(
    entries: Seq<EntryView>,
    files: Seq<FoundFile>,
    config: ConfigView,
    load: L,
    after: Seq<EntryView>,
)
    requires
        ids_differ(entries),
        looks_through(entries, files, config, load, after),
    ensures
        ids_differ(after),
        forall|i: int|
            0 <= i < after.len() ==> entries.contains(#[trigger] after[i]) || exists|k: int|
                0 <= k < files.len() && comes_from_file(after[i], #[trigger] files[k], config, load),
    decreases files.len(),
{
    if files.len() > 0 {
        let rest = files.drop_last();
        let last = files.len() - 1;
        let before = choose|before: Seq<EntryView>|
            looks_through(entries, rest, config, load, before) && #[trigger] looks_at(
                before,
                files.last(),
                config,
                load,
                after,
            );
        law_found_checkpoints(entries, rest, config, load, before);
        assert forall|i: int| 0 <= i < before.len() implies entries.contains(#[trigger] before[i])
            || exists|k: int|
            0 <= k < files.len() && comes_from_file(
                before[i],
                #[trigger] files[k],
                config,
                load,
            ) by {
            if !entries.contains(before[i]) {
                let k = choose|k: int|
                    0 <= k < rest.len() && comes_from_file(
                        before[i],
                        #[trigger] rest[k],
                        config,
                        load,
                    );
                assert(files[k] == rest[k]);
            }
        }
        let file = files[last];
        if is_candidate(file, config.checkpoint_prefix) {
            let (path, answer) = choose|path: String, answer: StorageResult<GraphCheckpoint>|
                #[trigger]
                call_ensures(load, (&path,), answer) && path@ == joined(
                    config.checkpoint_dir,
                    file.name@,
                ) && match answer {
                    Ok(checkpoint) => after == with_entry(
                        before,
                        entry_of(file.name@, config, checkpoint.metadata),
                    ),
                    Err(_) => after == before,
                };
            if let Ok(checkpoint) = answer {
                let entry = entry_of(file.name@, config, checkpoint.metadata);
                lemma_with_entry(before, entry);
                assert(comes_from_file(entry, file, config, load));
                if is_known(before, entry.id) {
                    assert(has_id(before, position_of(before, entry.id), entry.id));
                }
                assert forall|i: int| 0 <= i < after.len() implies entries.contains(
                    #[trigger] after[i],
                ) || exists|k: int|
                    0 <= k < files.len() && comes_from_file(
                        after[i],
                        #[trigger] files[k],
                        config,
                        load,
                    ) by {
                    if after[i] == entry {
                        assert(comes_from_file(after[i], files[last], config, load));
                    } else {
                        assert(after[i] == before[i]);
                    }
                }
            }
        }
    }
}

/// Every file that looks like one of a checkpoint, and whose checkpoint can be loaded, is known in
/// the end under the identifier in its name.
pub proof fn law_found_known<L: Fn(&String) -> StorageResult<GraphCheckpoint>>(
    entries: Seq<EntryView>,
    files: Seq<FoundFile>,
    config: ConfigView,
    load: L,
    after: Seq<EntryView>,
    k: int,
)
    requires
        ids_differ(entries),
        looks_through(entries, files, config, load, after),
        0 <= k < files.len(),
        is_candidate(files[k], config.checkpoint_prefix),
        forall|path: String, answer: StorageResult<GraphCheckpoint>| #[trigger]
            call_ensures(load, (&path,), answer) && path@ == joined(
                config.checkpoint_dir,
                files[k].name@,
            ) ==> answer is Ok,
    ensures
        exists|i: int|
            0 <= i < after.len() && (#[trigger] after[i]).id == super::names::id_in_name(
                files[k].name@,
                config.checkpoint_prefix,
            ),
    decreases files.len(),
{
    let id = super::names::id_in_name(files[k].name@, config.checkpoint_prefix);
    let rest = files.drop_last();
    let before = choose|before: Seq<EntryView>|
        looks_through(entries, rest, config, load, before) && #[trigger] looks_at(
            before,
            files.last(),
            config,
            load,
            after,
        );
    law_found_checkpoints(entries, rest, config, load, before);
    if k < rest.len() {
        assert(rest[k] == files[k]);
        law_found_known(entries, rest, config, load, before, k);
        let i = choose|i: int| 0 <= i < before.len() && (#[trigger] before[i]).id == id;
        if after != before {
            let file = files.last();
            let (path, answer) = choose|path: String, answer: StorageResult<GraphCheckpoint>|
                #[trigger]
                call_ensures(load, (&path,), answer) && path@ == joined(
                    config.checkpoint_dir,
                    file.name@,
                ) && match answer {
                    Ok(checkpoint) => after == with_entry(
                        before,
                        entry_of(file.name@, config, checkpoint.metadata),
                    ),
                    Err(_) => after == before,
                };
            let entry = entry_of(file.name@, config, answer->Ok_0.metadata);
            if is_known(before, entry.id) {
                assert(has_id(before, position_of(before, entry.id), entry.id));
            }
            assert(after[i].id == id);
        }
        assert(after[i].id == id);
    } else {
        let file = files.last();
        let (path, answer) = choose|path: String, answer: StorageResult<GraphCheckpoint>|
            #[trigger]
            call_ensures(load, (&path,), answer) && path@ == joined(
                config.checkpoint_dir,
                file.name@,
            ) && match answer {
                Ok(checkpoint) => after == with_entry(
                    before,
                    entry_of(file.name@, config, checkpoint.metadata),
                ),
                Err(_) => after == before,
            };
        let entry = entry_of(file.name@, config, answer->Ok_0.metadata);
        law_entry_added(before, entry);
        let i = choose|i: int| 0 <= i < after.len() && after[i] == entry;
        assert(after[i].id == id);
    }
}

/// Applying the retention policy removes the file of every checkpoint that is forgotten, one for
/// each that is too many, and no other file.
pub proof fn law_surplus_removed(
    entries: Seq<EntryView>,
    count: nat,
    events: Seq<Event>,
    after: Seq<EntryView>,
)
    requires
        prunes(entries, count, events, after, Ok(())),
        count <= entries.len(),
    ensures
        events.len() == count,
        after.len() == entries.len() - count,
        forall|k: int|
            0 <= k < events.len() ==> ((#[trigger] events[k]) matches Event::Remove(path, answer)
                && answer is Ok && exists|i: int|
                0 <= i < entries.len() && (#[trigger] entries[i]).path == path),
        forall|i: int|
            0 <= i < entries.len() && !after.contains(#[trigger] entries[i]) ==> exists|k: int|
                0 <= k < events.len() && ((#[trigger] events[k]) matches Event::Remove(path, _)
                    && path == entries[i].path),
    decreases count,
{
    if count > 0 {
        lemma_oldest(entries);
        let at = oldest(entries);
        let rest = entries.remove(at);
        let later = events.drop_first();
        law_surplus_removed(rest, (count - 1) as nat, later, after);
        assert forall|k: int| 0 <= k < events.len() implies ((#[trigger] events[k]) matches
            Event::Remove(path, answer) && answer is Ok && exists|i: int|
            0 <= i < entries.len() && (#[trigger] entries[i]).path == path) by {
            if k > 0 {
                assert(events[k] == later[k - 1]);
                let path = events[k]->Remove_0;
                let i = choose|i: int| 0 <= i < rest.len() && (#[trigger] rest[i]).path == path;
                let old_i = if i < at {
                    i
                } else {
                    i + 1
                };
                assert(entries[old_i] == rest[i]);
            }
        }
        assert forall|i: int|
            0 <= i < entries.len() && !after.contains(#[trigger] entries[i]) implies exists|k: int|
            0 <= k < events.len() && ((#[trigger] events[k]) matches Event::Remove(path, _) && path
                == entries[i].path) by {
            if i == at {
                assert(events[0] matches Event::Remove(path, _) && path == entries[i].path);
            } else {
                let new_i = if i < at {
                    i
                } else {
                    i - 1
                };
                assert(rest[new_i] == entries[i]);
                let k = choose|k: int|
                    0 <= k < later.len() && ((#[trigger] later[k]) matches Event::Remove(path, _)
                        && path == rest[new_i].path);
                assert(events[k + 1] == later[k]);
            }
        }
    }
}

proof fn lemma_oldest(entries: Seq<EntryView>)
    requires
        entries.len() > 0,
    ensures
        is_oldest(entries, oldest(entries)),
{
    let i = lemma_some_oldest(entries, entries.len() as int);
    assert(is_oldest(entries, i));
}

proof fn lemma_some_oldest(entries: Seq<EntryView>, n: int) -> (i: int)
    requires
        0 < n <= entries.len(),
    ensures
        0 <= i < n,
        forall|j: int| 0 <= j < n ==> entries[i].created_at <= (#[trigger] entries[j]).created_at,
        forall|j: int| 0 <= j < i ==> entries[i].created_at < (#[trigger] entries[j]).created_at,
    decreases n,
{
    if n == 1 {
        0
    } else {
        let i = lemma_some_oldest(entries, n - 1);
        if entries[n - 1].created_at < entries[i].created_at {
            n - 1
        } else {
            i
        }
    }
}

/// The text `n` times in a row.
pub open spec fn repeated(text: Seq<char>, n: nat) -> Seq<char>
    decreases n,
{
    if n == 0 {
        Seq::empty()
    } else {
        text + repeated(text, (n - 1) as nat)
    }
}

/// Taking a prefix off a text takes it off as often as the text starts with it: what is left does
/// not start with it any more, and the text is the prefix some times in a row and what is left.
pub proof fn law_prefix_taken_off(text: Seq<char>, prefix: Seq<char>) -> (n: nat)
    ensures
        text == repeated(prefix, n) + without_prefix(text, prefix),
        prefix.len() > 0 ==> !starts(without_prefix(text, prefix), prefix),
    decreases text.len(),
{
    if prefix.len() > 0 && starts(text, prefix) {
        let rest = text.subrange(prefix.len() as int, text.len() as int);
        let m = law_prefix_taken_off(rest, prefix);
        assert(text =~= prefix + rest);
        assert(text =~= repeated(prefix, m + 1) + without_prefix(text, prefix));
        m + 1
    } else {
        assert(text =~= repeated(prefix, 0) + text);
        0
    }
}

/// A file's name loses what stands from its last dot on, unless it has no dot or the last one stands
/// at its start.
pub proof fn law_stem(name: Seq<char>, k: int)
    requires
        -1 <= k < name.len(),
        k >= 0 ==> name[k] == '.',
        forall|i: int| k < i < name.len() ==> #[trigger] name[i] != '.',
    ensures
        stem(name) == if k > 0 {
            name.subrange(0, k)
        } else {
            name
        },
{
    lemma_last_dot(name, k);
}

proof fn lemma_last_dot(name: Seq<char>, k: int)
    requires
        -1 <= k < name.len(),
        k >= 0 ==> name[k] == '.',
        forall|i: int| k < i < name.len() ==> #[trigger] name[i] != '.',
    ensures
        last_dot(name) == k,
    decreases name.len(),
{
    if name.len() > 0 && k < name.len() - 1 {
        assert(name[name.len() - 1] != '.');
        let rest = name.drop_last();
        assert forall|i: int| k < i < rest.len() implies #[trigger] rest[i] != '.' by {
            assert(name[i] != '.');
        }
        lemma_last_dot(rest, k);
    }
}

/// A checkpoint that was kept had the log truncated at its position, its file made and written, and
/// is known from then on unless it was one too many.
pub proof fn law_kept(
    before: CheckpointsView,
    checkpoint: CheckpointView,
    description: Option<Seq<char>>,
    events: Seq<Event>,
    id: Seq<char>,
    after: CheckpointsView,
    given: Seq<char>,
)
    requires
        keeps(before, checkpoint, description, events, id, after, Ok(given)),
        ids_differ(before.entries),
    ensures
        given == id,
        events.len() >= 6,
        events[0] == Event::Truncate(checkpoint.metadata.lsn, Ok(())),
        ({
            let path = joined(
                before.config.checkpoint_dir,
                name_with_id(before.config.checkpoint_prefix, id),
            );
            &&& events[1] matches Event::Create(created, Ok(_)) && created == path
            &&& events[2] matches Event::Serialize(made, Ok(bytes)) && made == checkpoint && (
            events[3] matches Event::Write(filled, file, Ok(_)) && filled == path && file == framed(
                bytes,
                crc32_of(bytes),
            ))
        }),
        after.config == before.config,
        after.last_auto == Some(events[5]->Time_0),
        before.config.max_checkpoints == 0 || before.entries.len() < before.config.max_checkpoints
            ==> exists|i: int|
            0 <= i < after.entries.len() && (#[trigger] after.entries[i]).id == id
                && after.entries[i].metadata == checkpoint.metadata && after.entries[i].description
                == description,
{
    let part = events.subrange(1, 4);
    assert(part[0] == events[1] && part[1] == events[2] && part[2] == events[3]);
    let created = events[4]->Time_0;
    let now = events[5]->Time_0;
    let saved = with_saved(before, id, checkpoint.metadata, description, created, now);
    let at = law_saved_entry(before, id, checkpoint.metadata, description, created, now);
    assert(saved.entries.len() <= before.entries.len() + 1) by {
        if is_known(before.entries, id) {
            assert(has_id(before.entries, position_of(before.entries, id), id));
        }
    }
    if before.config.max_checkpoints == 0 || before.entries.len() < before.config.max_checkpoints {
        assert(surplus(saved) == 0);
        assert(after.entries == saved.entries);
        assert(after.entries[at].id == id);
    }
}

/// A file that cannot be removed ends the retention policy with its error. The checkpoints whose
/// files were removed before it are forgotten, and so is its own; nothing is asked behind it.
pub proof fn law_removal_failed(
    entries: Seq<EntryView>,
    count: nat,
    events: Seq<Event>,
    after: Seq<EntryView>,
    error: ErrorView,
)
    requires
        prunes(entries, count, events, after, Err(error)),
        count <= entries.len(),
    ensures
        0 < events.len() <= count,
        after.len() == entries.len() - events.len(),
        forall|k: int|
            0 <= k < events.len() - 1 ==> (#[trigger] events[k]) is Remove && events[k]->Remove_1
                is Ok,
        events.last() is Remove,
        events.last()->Remove_1 is Err,
        error == ErrorView::CheckpointIo(events.last()->Remove_1->Err_0),
    decreases count,
{
    lemma_oldest(entries);
    let rest = entries.remove(oldest(entries));
    let later = events.drop_first();
    if events[0]->Remove_1 is Ok {
        law_removal_failed(rest, (count - 1) as nat, later, after, error);
        assert(later.last() == events.last());
        assert forall|k: int| 0 <= k < events.len() - 1 implies (#[trigger] events[k]) is Remove
            && events[k]->Remove_1 is Ok by {
            if k > 0 {
                assert(events[k] == later[k - 1]);
            }
        }
    }
}

/// A checkpoint for which the log was not truncated, or whose file was not made and written, leaves
/// everything that is known of checkpoints as it was, and the last thing asked is what failed. One
/// of which an error tells after that is there all the same, and the times at which it was made and
/// kept were asked.
pub proof fn law_not_kept(
    before: CheckpointsView,
    checkpoint: CheckpointView,
    description: Option<Seq<char>>,
    events: Seq<Event>,
    id: Seq<char>,
    after: CheckpointsView,
    error: ErrorView,
)
    requires
        keeps(before, checkpoint, description, events, id, after, Err(error)),
    ensures
        events.len() > 0,
        events.len() < 6 ==> {
            &&& after == before
            &&& match events.last() {
                Event::Truncate(lsn, answer) => events.len() == 1 && lsn == checkpoint.metadata.lsn
                    && answer == Err::<(), ErrorView>(error),
                Event::Create(_, Err(text)) => events.len() == 2 && error
                    == ErrorView::CheckpointIo(text),
                Event::Serialize(_, Err(text)) => events.len() == 3 && error
                    == ErrorView::SerializationFailed(text),
                Event::Write(_, _, Err(text)) => events.len() == 4 && error
                    == ErrorView::CheckpointIo(text),
                _ => false,
            }
        },
        events.len() >= 6 ==> {
            &&& after.config == before.config
            &&& events[4] is Time && events[5] is Time
            &&& after.last_auto == Some(events[5]->Time_0)
        },
{
    let rest = events.drop_first();
    if events.len() < 6 {
        if events.len() > 1 {
            assert(rest.last() == events.last());
            assert(rest[0] == events[1]);
            if rest.len() > 1 {
                assert(rest[1] == events[2]);
            }
            if rest.len() > 2 {
                assert(rest[2] == events[3]);
            }
        }
    }
}

/// A file that cannot be read, one that is not laid out as it should be, and one whose bytes are no
/// checkpoint are refused, each with its own error; any other gives the checkpoint in it.
pub proof fn law_load_outcome<
    R: Fn(&String) -> Result<Vec<u8>, String>,
    D: Fn(&Vec<u8>) -> Result<GraphCheckpoint, String>,
>(
    path: String,
    read: R,
    deserialize: D,
    file: Result<Vec<u8>, String>,
    answer: Result<GraphCheckpoint, String>,
    loaded: Result<CheckpointView, ErrorView>,
)
    requires
        loads(path, read, deserialize, loaded),
        forall|given: Result<Vec<u8>, String>| #[trigger]
            call_ensures(read, (&path,), given) ==> given == file,
        forall|bytes: Vec<u8>, given: Result<GraphCheckpoint, String>| #[trigger]
            call_ensures(deserialize, (&bytes,), given) && file is Ok && opened(file->Ok_0@)
                == Ok::<Seq<u8>, ErrorView>(bytes@) ==> given == answer,
    ensures
        file matches Err(text) ==> loaded == Err::<CheckpointView, ErrorView>(
            ErrorView::CheckpointIo(text@),
        ),
        file is Ok && opened(file->Ok_0@) is Err ==> loaded == Err::<CheckpointView, ErrorView>(
            opened(file->Ok_0@)->Err_0,
        ),
        file is Ok && opened(file->Ok_0@) is Ok && answer is Err ==> loaded == Err::<
            CheckpointView,
            ErrorView,
        >(ErrorView::DeserializationFailed(answer->Err_0@)),
        file is Ok && opened(file->Ok_0@) is Ok && answer is Ok ==> loaded == Ok::<
            CheckpointView,
            ErrorView,
        >(answer->Ok_0@),
{
    if file is Ok && opened(file->Ok_0@) is Ok {
        assert(decodes(deserialize, opened(file->Ok_0@)->Ok_0, loaded));
    }
}

} // verus!
