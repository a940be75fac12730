//! What setting, creating, undoing and reading come to, said of the data itself.

use vstd::prelude::*;

#[allow(unused_imports)]
use super::memory_graph::{
    edge_back, edge_before, vertex_back, vertex_before, with_change, with_edge, with_vertex,
};
#[allow(unused_imports)]
use super::model::{
    props_after, props_after_first, Adjacency, DeltaView, EdgeView, OperationView, PropsView,
    StoreView, Timestamp, UndoPtr, UndoView, VertexView,
};
#[allow(unused_imports)]
use super::transaction::{
    all_stamped, read_chain, read_error, reads_valid, stamped, undone, TxnView,
};
#[allow(unused_imports)]
use crate::collections::skip::NeighborKey;
#[allow(unused_imports)]
use crate::common::text::digits;
#[allow(unused_imports)]
use crate::common::types::{EdgeId, VertexId};
#[allow(unused_imports)]
use crate::common::value::ScalarValue;
#[allow(unused_imports)]
use crate::storage::error::ErrorView;

verus! {

/// Setting properties sets every one of them: where a position is set, it holds the value that is
/// given for it last, and every position that is not set keeps its value. Positions without a value
/// and values without a position do nothing.
pub proof fn law_props_set(properties: Seq<ScalarValue>, op: PropsView)
    requires
        forall|i: int|
            0 <= i < op.indices.len() && i < op.props.len() ==> (#[trigger] op.indices[i])
                < properties.len(),
    ensures
        props_after(properties, op).len() == properties.len(),
        forall|i: int|
            0 <= i < op.indices.len() && i < op.props.len() && (forall|j: int|
                i < j < op.indices.len() && j < op.props.len() ==> #[trigger] op.indices[j]
                    != op.indices[i]) ==> props_after(properties, op)[#[trigger] op.indices[i] as int]
                == op.props[i],
        forall|k: int|
            0 <= k < properties.len() && (forall|i: int|
                0 <= i < op.indices.len() && i < op.props.len() ==> #[trigger] op.indices[i] != k)
                ==> #[trigger] props_after(properties, op)[k] == properties[k],
{
    let n = if op.indices.len() <= op.props.len() {
        op.indices.len()
    } else {
        op.props.len()
    };
    lemma_props_set(properties, op, n);
    let after = props_after(properties, op);
    assert(after == props_after_first(properties, op, n));
    assert forall|i: int|
        0 <= i < op.indices.len() && i < op.props.len() && (forall|j: int|
            i < j < op.indices.len() && j < op.props.len() ==> #[trigger] op.indices[j]
                != op.indices[i]) implies after[#[trigger] op.indices[i] as int] == op.props[i] by {
        assert(i < n);
    }
}

proof fn lemma_props_set(properties: Seq<ScalarValue>, op: PropsView, n: nat)
    requires
        n <= op.indices.len(),
        n <= op.props.len(),
        forall|i: int| 0 <= i < n ==> (#[trigger] op.indices[i]) < properties.len(),
    ensures
        props_after_first(properties, op, n).len() == properties.len(),
        forall|i: int|
            0 <= i < n && (forall|j: int|
                i < j < n ==> #[trigger] op.indices[j] != op.indices[i]) ==> props_after_first(
                properties,
                op,
                n,
            )[#[trigger] op.indices[i] as int] == op.props[i],
        forall|k: int|
            0 <= k < properties.len() && (forall|i: int|
                0 <= i < n ==> #[trigger] op.indices[i] != k) ==> #[trigger] props_after_first(
                properties,
                op,
                n,
            )[k] == properties[k],
    decreases n,
{
    if n > 0 {
        let m = (n - 1) as nat;
        lemma_props_set(properties, op, m);
        let before = props_after_first(properties, op, m);
        let after = props_after_first(properties, op, n);
        assert(op.indices[n - 1] < properties.len());
        assert forall|i: int|
            0 <= i < n && (forall|j: int|
                i < j < n ==> #[trigger] op.indices[j] != op.indices[i]) implies after[
        #[trigger] op.indices[i] as int] == op.props[i] by {
            if i < n - 1 {
                assert(op.indices[n - 1] != op.indices[i]);
                assert(before[op.indices[i] as int] == op.props[i]);
            }
        }
        assert forall|k: int|
            0 <= k < properties.len() && (forall|i: int|
                0 <= i < n ==> #[trigger] op.indices[i] != k) implies #[trigger] after[k]
            == properties[k] by {
            assert(op.indices[n - 1] != k);
            assert(before[k] == properties[k]);
        }
    }
}

proof fn lemma_values_put_back(
    newer: Seq<ScalarValue>,
    older: Seq<ScalarValue>,
    op: PropsView,
)
    requires
        older.len() == newer.len(),
        op.indices.len() == op.props.len(),
        op.indices.no_duplicates(),
        forall|i: int|
            0 <= i < op.indices.len() ==> (#[trigger] op.indices[i]) < older.len()
                && older[op.indices[i] as int] == op.props[i],
        forall|k: int|
            0 <= k < older.len() && (forall|i: int|
                0 <= i < op.indices.len() ==> #[trigger] op.indices[i] != k)
                ==> #[trigger] older[k] == newer[k],
    ensures
        props_after(newer, op) == older,
{
    law_props_set(newer, op);
    let after = props_after(newer, op);
    assert forall|k: int| 0 <= k < older.len() implies #[trigger] after[k] == older[k] by {
        if exists|i: int| 0 <= i < op.indices.len() && op.indices[i] == k {
            let i = choose|i: int| 0 <= i < op.indices.len() && op.indices[i] == k;
            assert forall|j: int| i < j < op.indices.len() implies #[trigger] op.indices[j]
                != op.indices[i] by {}
            assert(after[op.indices[i] as int] == op.props[i]);
        }
    }
    assert(after =~= older);
}

/// Setting properties and then setting the same positions to the values that they had before gives
/// the old record back, for any number of positions.
pub proof fn law_props_put_back(properties: Seq<ScalarValue>, op: PropsView, undo: PropsView)
    requires
        op.indices.len() == op.props.len(),
        op.indices.no_duplicates(),
        forall|i: int| 0 <= i < op.indices.len() ==> (#[trigger] op.indices[i]) < properties.len(),
        undo.indices == op.indices,
        undo.props.len() == op.props.len(),
        forall|i: int|
            0 <= i < op.indices.len() ==> #[trigger] undo.props[i]
                == properties[op.indices[i] as int],
    ensures
        props_after(props_after(properties, op), undo) == properties,
{
    let after = props_after(properties, op);
    law_props_set(properties, op);
    assert forall|k: int|
        0 <= k < properties.len() && (forall|i: int|
            0 <= i < op.indices.len() ==> #[trigger] op.indices[i] != k) implies #[trigger] properties[k]
        == after[k] by {
        assert(after[k] == properties[k]);
    }
    assert forall|i: int| 0 <= i < undo.indices.len() implies (#[trigger] undo.indices[i])
        < properties.len() && properties[undo.indices[i] as int] == undo.props[i] by {}
    lemma_values_put_back(after, properties, undo);
}

/// The key at a position, if there is one.
pub open spec fn key_at(keys: Seq<u64>, i: int) -> UndoPtr {
    if 0 <= i < keys.len() {
        Some(keys[i])
    } else {
        None
    }
}

/// Whether the `i`th undo entry is there, tells when the version behind it was committed, and leads
/// on to the next entry.
pub open spec fn leads_on(
    undo: Map<u64, UndoView>,
    times: Seq<u64>,
    keys: Seq<u64>,
    i: int,
) -> bool {
    &&& undo.contains_key(keys[i])
    &&& undo[keys[i]].timestamp == Timestamp(times[i + 1])
    &&& undo[keys[i]].next == key_at(keys, i + 1)
}

proof fn lemma_chain(
    undo: Map<u64, UndoView>,
    times: Seq<u64>,
    keys: Seq<u64>,
    start_ts: Timestamp,
    i: int,
    j: int,
)
    requires
        times.len() == keys.len() + 1,
        0 <= i < j < times.len(),
        times[j] < start_ts.0,
        forall|k: int| 0 <= k < j ==> (#[trigger] times[k]) > start_ts.0,
        forall|a: int, b: int|
            0 <= a < b < keys.len() ==> (#[trigger] keys[a]) > (#[trigger] keys[b]),
        forall|k: int| 0 <= k < keys.len() ==> #[trigger] leads_on(undo, times, keys, k),
    ensures
        read_chain(undo, key_at(keys, i), start_ts) == keys.subrange(i, j),
    decreases j - i,
{
    assert(leads_on(undo, times, keys, i));
    if i + 1 == j {
        assert(keys.subrange(i, j) =~= seq![keys[i]]);
    } else {
        assert(times[i + 1] > start_ts.0);
        assert(keys[i + 1] < keys[i]);
        lemma_chain(undo, times, keys, start_ts, i + 1, j);
        assert(keys.subrange(i, j) =~= seq![keys[i]] + keys.subrange(i + 1, j));
    }
}

/// Whether an undo entry says how a newer version of a vertex came from an older one: it holds the
/// whole older version, or the older values of the properties that were set, each once, or it tells
/// that there was no vertex before.
pub open spec fn vertex_leads_back(
    delta: DeltaView,
    vid: VertexId,
    newer: VertexView,
    older: VertexView,
) -> bool {
    match delta {
        DeltaView::CreateVertex(data) => data == older && older.vid == vid,
        DeltaView::SetVertexProps(id, op) => {
            &&& id == vid
            &&& older == (VertexView { properties: older.properties, ..newer })
            &&& older.properties.len() == newer.properties.len()
            &&& op.indices.len() == op.props.len()
            &&& op.indices.no_duplicates()
            &&& forall|i: int|
                0 <= i < op.indices.len() ==> (#[trigger] op.indices[i]) < older.properties.len()
                    && older.properties[op.indices[i] as int] == op.props[i]
            &&& forall|k: int|
                0 <= k < older.properties.len() && (forall|i: int|
                    0 <= i < op.indices.len() ==> #[trigger] op.indices[i] != k)
                    ==> #[trigger] older.properties[k] == newer.properties[k]
        },
        DeltaView::DelVertex(id) => id == vid && older == (VertexView {
            is_tombstone: true,
            ..newer
        }),
        _ => false,
    }
}

proof fn lemma_vertex_one_back(
    delta: DeltaView,
    vid: VertexId,
    newer: VertexView,
    older: VertexView,
)
    requires
        vertex_leads_back(delta, vid, newer, older),
    ensures
        vertex_before(newer, delta) == older,
{
    if let DeltaView::SetVertexProps(_, op) = delta {
        lemma_values_put_back(newer.properties, older.properties, op);
    }
}

/// Applying the undo entry of a vertex that a transaction wrote gives back the older version, with
/// its commit timestamp and the way further back. No other vertex, no edge and no neighbour is
/// touched.
pub proof fn law_vertex_write_undone(
    store: StoreView,
    entry: UndoView,
    txn_id: Timestamp,
    vid: VertexId,
    older: VertexView,
)
    requires
        store.vertices.contains_key(vid),
        store.vertices[vid].commit_ts == txn_id,
        vertex_leads_back(entry.delta, vid, store.vertices[vid].data, older),
        entry.delta is CreateVertex ==> !older.is_tombstone,
    ensures
        ({
            let after = undone(store, entry, txn_id);
            &&& after.vertices.contains_key(vid)
            &&& after.vertices[vid].data == older
            &&& after.vertices[vid].commit_ts == entry.timestamp
            &&& after.vertices[vid].undo_ptr == entry.next
            &&& after.vertices.dom() == store.vertices.dom()
            &&& forall|other: VertexId|
                other != vid ==> #[trigger] after.vertices[other] == store.vertices[other]
            &&& after.edges == store.edges
            &&& after.adjacency == store.adjacency
            &&& after.undo == store.undo
        }),
{
    let newer = store.vertices[vid].data;
    if let DeltaView::SetVertexProps(_, op) = entry.delta {
        lemma_values_put_back(newer.properties, older.properties, op);
    }
    let after = undone(store, entry, txn_id);
    assert(after.vertices.dom() =~= store.vertices.dom());
}

/// An undo entry of a transaction changes nothing of a vertex that another wrote last.
pub proof fn law_vertex_of_others_kept(
    store: StoreView,
    entry: UndoView,
    txn_id: Timestamp,
    vid: VertexId,
)
    requires
        store.vertices.contains_key(vid),
        store.vertices[vid].commit_ts != txn_id,
    ensures
        undone(store, entry, txn_id).vertices.contains_key(vid),
        undone(store, entry, txn_id).vertices[vid] == store.vertices[vid],
{
}

/// Whether a vertex has versions, the newest first, with the times when they were committed and
/// the undo entries that lead from each version to the one before it.
pub open spec fn vertex_has_versions(
    store: StoreView,
    vid: VertexId,
    versions: Seq<VertexView>,
    times: Seq<u64>,
    keys: Seq<u64>,
) -> bool {
    &&& store.vertices.contains_key(vid)
    &&& versions.len() == times.len()
    &&& versions.len() == keys.len() + 1
    &&& store.vertices[vid].data == versions[0]
    &&& store.vertices[vid].commit_ts == Timestamp(times[0])
    &&& store.vertices[vid].undo_ptr == key_at(keys, 0)
    &&& forall|i: int, j: int|
        0 <= i < j < times.len() ==> (#[trigger] times[i]) > (#[trigger] times[j])
    &&& forall|i: int, j: int|
        0 <= i < j < keys.len() ==> (#[trigger] keys[i]) > (#[trigger] keys[j])
    &&& forall|i: int|
        0 <= i < keys.len() ==> #[trigger] leads_on(store.undo, times, keys, i)
            && vertex_leads_back(
            store.undo[keys[i]].delta,
            vid,
            versions[i],
            versions[i + 1],
        )
}

/// A transaction sees the newest version of a vertex that was committed before it started, however
/// many newer versions there are; and it sees the vertex unless that version is a deletion.
pub proof fn law_vertex_snapshot(
    store: StoreView,
    vid: VertexId,
    versions: Seq<VertexView>,
    times: Seq<u64>,
    keys: Seq<u64>,
    reader: TxnView,
    j: int,
)
    requires
        vertex_has_versions(store, vid, versions, times, keys),
        0 <= j < versions.len(),
        times[j] < reader.start_ts.0,
        forall|i: int| 0 <= i < j ==> (#[trigger] times[i]) > reader.start_ts.0,
        j > 0 ==> times[0] != reader.txn_id.0,
    ensures
        store.vertex_seen(vid, reader) == versions[j],
        store.vertex_visible(vid, reader) == !versions[j].is_tombstone,
{
    if j > 0 {
        assert(times[0] > reader.start_ts.0);
        lemma_chain(store.undo, times, keys, reader.start_ts, 0, j);
        assert(store.vertex_way(vid, reader) == keys.subrange(0, j));
        lemma_vertex_versions(store, vid, versions, times, keys, j, 0);
    }
}

proof fn lemma_vertex_versions(
    store: StoreView,
    vid: VertexId,
    versions: Seq<VertexView>,
    times: Seq<u64>,
    keys: Seq<u64>,
    j: int,
    i: int,
)
    requires
        vertex_has_versions(store, vid, versions, times, keys),
        0 <= i <= j < versions.len(),
    ensures
        vertex_back(versions[i], store.undo, keys.subrange(0, j), i) == versions[j],
    decreases j - i,
{
    if i < j {
        assert(keys.subrange(0, j)[i] == keys[i]);
        assert(leads_on(store.undo, times, keys, i));
        lemma_vertex_one_back(store.undo[keys[i]].delta, vid, versions[i], versions[i + 1]);
        lemma_vertex_versions(store, vid, versions, times, keys, j, i + 1);
    }
}

/// A transaction sees what it wrote itself, whatever was there before.
pub proof fn law_own_vertex_seen(store: StoreView, vid: VertexId, writer: TxnView)
    requires
        store.vertices.contains_key(vid),
        store.vertices[vid].commit_ts == writer.txn_id,
    ensures
        store.vertex_seen(vid, writer) == store.vertices[vid].data,
        store.vertex_visible(vid, writer) == !store.vertices[vid].data.is_tombstone,
{
}

/// Whether an undo entry says how a newer version of an edge came from an older one: it holds the
/// whole older version, or the older values of the properties that were set, each once, or it tells
/// that there was no edge before.
pub open spec fn edge_leads_back(
    delta: DeltaView,
    eid: EdgeId,
    newer: EdgeView,
    older: EdgeView,
) -> bool {
    match delta {
        DeltaView::CreateEdge(data) => data == older && older.eid == eid,
        DeltaView::SetEdgeProps(id, op) => {
            &&& id == eid
            &&& older == (EdgeView { properties: older.properties, ..newer })
            &&& older.properties.len() == newer.properties.len()
            &&& op.indices.len() == op.props.len()
            &&& op.indices.no_duplicates()
            &&& forall|i: int|
                0 <= i < op.indices.len() ==> (#[trigger] op.indices[i]) < older.properties.len()
                    && older.properties[op.indices[i] as int] == op.props[i]
            &&& forall|k: int|
                0 <= k < older.properties.len() && (forall|i: int|
                    0 <= i < op.indices.len() ==> #[trigger] op.indices[i] != k)
                    ==> #[trigger] older.properties[k] == newer.properties[k]
        },
        DeltaView::DelEdge(id) => id == eid && older == (EdgeView {
            is_tombstone: true,
            ..newer
        }),
        _ => false,
    }
}

proof fn lemma_edge_one_back(
    delta: DeltaView,
    eid: EdgeId,
    newer: EdgeView,
    older: EdgeView,
)
    requires
        edge_leads_back(delta, eid, newer, older),
    ensures
        edge_before(newer, delta) == older,
{
    if let DeltaView::SetEdgeProps(_, op) = delta {
        lemma_values_put_back(newer.properties, older.properties, op);
    }
}

/// Applying the undo entry of an edge that a transaction wrote gives back the older version, with
/// its commit timestamp and the way further back. No other edge, no vertex and no neighbour is
/// touched.
pub proof fn law_edge_write_undone(
    store: StoreView,
    entry: UndoView,
    txn_id: Timestamp,
    eid: EdgeId,
    older: EdgeView,
)
    requires
        store.edges.contains_key(eid),
        store.edges[eid].commit_ts == txn_id,
        edge_leads_back(entry.delta, eid, store.edges[eid].data, older),
        entry.delta is CreateEdge ==> !older.is_tombstone,
    ensures
        ({
            let after = undone(store, entry, txn_id);
            &&& after.edges.contains_key(eid)
            &&& after.edges[eid].data == older
            &&& after.edges[eid].commit_ts == entry.timestamp
            &&& after.edges[eid].undo_ptr == entry.next
            &&& after.edges.dom() == store.edges.dom()
            &&& forall|other: EdgeId|
                other != eid ==> #[trigger] after.edges[other] == store.edges[other]
            &&& after.vertices == store.vertices
            &&& after.adjacency == store.adjacency
            &&& after.undo == store.undo
        }),
{
    let newer = store.edges[eid].data;
    if let DeltaView::SetEdgeProps(_, op) = entry.delta {
        lemma_values_put_back(newer.properties, older.properties, op);
    }
    let after = undone(store, entry, txn_id);
    assert(after.edges.dom() =~= store.edges.dom());
}

/// An undo entry of a transaction changes nothing of an edge that another wrote last.
pub proof fn law_edge_of_others_kept(
    store: StoreView,
    entry: UndoView,
    txn_id: Timestamp,
    eid: EdgeId,
)
    requires
        store.edges.contains_key(eid),
        store.edges[eid].commit_ts != txn_id,
    ensures
        undone(store, entry, txn_id).edges.contains_key(eid),
        undone(store, entry, txn_id).edges[eid] == store.edges[eid],
{
}

/// Whether an edge has versions, the newest first, with the times when they were committed and
/// the undo entries that lead from each version to the one before it.
pub open spec fn edge_has_versions(
    store: StoreView,
    eid: EdgeId,
    versions: Seq<EdgeView>,
    times: Seq<u64>,
    keys: Seq<u64>,
) -> bool {
    &&& store.edges.contains_key(eid)
    &&& versions.len() == times.len()
    &&& versions.len() == keys.len() + 1
    &&& store.edges[eid].data == versions[0]
    &&& store.edges[eid].commit_ts == Timestamp(times[0])
    &&& store.edges[eid].undo_ptr == key_at(keys, 0)
    &&& forall|i: int, j: int|
        0 <= i < j < times.len() ==> (#[trigger] times[i]) > (#[trigger] times[j])
    &&& forall|i: int, j: int|
        0 <= i < j < keys.len() ==> (#[trigger] keys[i]) > (#[trigger] keys[j])
    &&& forall|i: int|
        0 <= i < keys.len() ==> #[trigger] leads_on(store.undo, times, keys, i)
            && edge_leads_back(
            store.undo[keys[i]].delta,
            eid,
            versions[i],
            versions[i + 1],
        )
}

/// A transaction sees the newest version of an edge that was committed before it started, however
/// many newer versions there are; and it sees the edge unless that version is a deletion.
pub proof fn law_edge_snapshot(
    store: StoreView,
    eid: EdgeId,
    versions: Seq<EdgeView>,
    times: Seq<u64>,
    keys: Seq<u64>,
    reader: TxnView,
    j: int,
)
    requires
        edge_has_versions(store, eid, versions, times, keys),
        0 <= j < versions.len(),
        times[j] < reader.start_ts.0,
        forall|i: int| 0 <= i < j ==> (#[trigger] times[i]) > reader.start_ts.0,
        j > 0 ==> times[0] != reader.txn_id.0,
    ensures
        store.edge_seen(eid, reader) == versions[j],
        store.edge_visible(eid, reader) == !versions[j].is_tombstone,
{
    if j > 0 {
        assert(times[0] > reader.start_ts.0);
        lemma_chain(store.undo, times, keys, reader.start_ts, 0, j);
        assert(store.edge_way(eid, reader) == keys.subrange(0, j));
        lemma_edge_versions(store, eid, versions, times, keys, j, 0);
    }
}

proof fn lemma_edge_versions(
    store: StoreView,
    eid: EdgeId,
    versions: Seq<EdgeView>,
    times: Seq<u64>,
    keys: Seq<u64>,
    j: int,
    i: int,
)
    requires
        edge_has_versions(store, eid, versions, times, keys),
        0 <= i <= j < versions.len(),
    ensures
        edge_back(versions[i], store.undo, keys.subrange(0, j), i) == versions[j],
    decreases j - i,
{
    if i < j {
        assert(keys.subrange(0, j)[i] == keys[i]);
        assert(leads_on(store.undo, times, keys, i));
        lemma_edge_one_back(store.undo[keys[i]].delta, eid, versions[i], versions[i + 1]);
        lemma_edge_versions(store, eid, versions, times, keys, j, i + 1);
    }
}

/// A transaction sees what it wrote itself, whatever was there before.
pub proof fn law_own_edge_seen(store: StoreView, eid: EdgeId, writer: TxnView)
    requires
        store.edges.contains_key(eid),
        store.edges[eid].commit_ts == writer.txn_id,
    ensures
        store.edge_seen(eid, writer) == store.edges[eid].data,
        store.edge_visible(eid, writer) == !store.edges[eid].data.is_tombstone,
{
}

/// Creating a vertex adds it, as it was given, in the name of the transaction, and nothing else
/// changes but the undo log, which can take the vertex away again.
pub proof fn law_vertex_created(store: StoreView, vertex: VertexView, txn_id: Timestamp)
    requires
        store.next_undo < u64::MAX,
        !store.vertices.contains_key(vertex.vid),
    ensures
        ({
            let after = with_vertex(store, vertex, txn_id);
            &&& after.vertices.contains_key(vertex.vid)
            &&& after.vertices[vertex.vid].data == vertex
            &&& after.vertices[vertex.vid].commit_ts == txn_id
            &&& after.vertices[vertex.vid].undo_ptr == Some(store.next_undo)
            &&& after.undo.contains_key(store.next_undo)
            &&& after.undo[store.next_undo].delta == DeltaView::DelVertex(vertex.vid)
            &&& after.undo[store.next_undo].timestamp == Timestamp(0)
            &&& after.undo[store.next_undo].next is None
            &&& after.next_undo == store.next_undo + 1
            &&& forall|vid: VertexId|
                vid != vertex.vid ==> (#[trigger] after.vertices.contains_key(vid)
                    == store.vertices.contains_key(vid)) && after.vertices[vid]
                    == store.vertices[vid]
            &&& forall|key: u64|
                key != store.next_undo ==> (#[trigger] after.undo.contains_key(key)
                    == store.undo.contains_key(key)) && after.undo[key] == store.undo[key]
            &&& after.edges == store.edges
            &&& after.adjacency == store.adjacency
        }),
{
}

/// Whether a vertex has a neighbour along an edge that starts at it.
pub open spec fn leads_to(
    adjacency: Map<VertexId, Adjacency>,
    vid: VertexId,
    key: NeighborKey,
) -> bool {
    adjacency.contains_key(vid) && adjacency[vid].outgoing.contains(key)
}

/// Whether a vertex has a neighbour along an edge that leads to it.
pub open spec fn comes_from(
    adjacency: Map<VertexId, Adjacency>,
    vid: VertexId,
    key: NeighborKey,
) -> bool {
    adjacency.contains_key(vid) && adjacency[vid].incoming.contains(key)
}

/// Creating an edge adds it, as it was given, in the name of the transaction. Its source gets the
/// destination as a neighbour, its destination gets the source, along this edge and with its label;
/// no other neighbour comes or goes, and no other edge and no vertex is touched.
pub proof fn law_edge_created(store: StoreView, edge: EdgeView, txn_id: Timestamp)
    requires
        store.next_undo < u64::MAX,
        !store.edges.contains_key(edge.eid),
    ensures
        ({
            let after = with_edge(store, edge, txn_id);
            &&& after.edges.contains_key(edge.eid)
            &&& after.edges[edge.eid].data == edge
            &&& after.edges[edge.eid].commit_ts == txn_id
            &&& after.edges[edge.eid].undo_ptr == Some(store.next_undo)
            &&& after.undo.contains_key(store.next_undo)
            &&& after.undo[store.next_undo].delta == DeltaView::DelEdge(edge.eid)
            &&& after.undo[store.next_undo].timestamp == Timestamp(0)
            &&& after.undo[store.next_undo].next is None
            &&& after.next_undo == store.next_undo + 1
            &&& forall|eid: EdgeId|
                eid != edge.eid ==> (#[trigger] after.edges.contains_key(eid)
                    == store.edges.contains_key(eid)) && after.edges[eid] == store.edges[eid]
            &&& forall|key: u64|
                key != store.next_undo ==> (#[trigger] after.undo.contains_key(key)
                    == store.undo.contains_key(key)) && after.undo[key] == store.undo[key]
            &&& after.vertices == store.vertices
            &&& forall|vid: VertexId, key: NeighborKey| #[trigger]
                leads_to(after.adjacency, vid, key) <==> leads_to(store.adjacency, vid, key) || (vid
                    == edge.src_id && key == (edge.label_id, edge.dst_id, edge.eid))
            &&& forall|vid: VertexId, key: NeighborKey| #[trigger]
                comes_from(after.adjacency, vid, key) <==> comes_from(store.adjacency, vid, key) || (
                vid == edge.dst_id && key == (edge.label_id, edge.src_id, edge.eid))
            &&& forall|vid: VertexId| #[trigger]
                after.adjacency.contains_key(vid) <==> store.adjacency.contains_key(vid) || vid
                    == edge.src_id || vid == edge.dst_id
        }),
{
}

/// A change of a transaction is remembered for its abort and for the log, behind those before it.
pub proof fn law_change_recorded(txn: TxnView, key: u64, delta: DeltaView)
    ensures
        ({
            let after = with_change(txn, key, delta);
            &&& after.undo.len() == txn.undo.len() + 1
            &&& after.undo.last() == key
            &&& after.undo.drop_last() == txn.undo
            &&& after.redo.len() == txn.redo.len() + 1
            &&& after.redo.last().op == OperationView::Delta(delta)
            &&& after.redo.last().txn_id == txn.txn_id
            &&& after.redo.last().iso_level == txn.isolation_level
            &&& after.redo.last().lsn == 0
            &&& after.redo.drop_last() == txn.redo
            &&& after.vertex_reads == txn.vertex_reads
            &&& after.edge_reads == txn.edge_reads
            &&& after.start_ts == txn.start_ts
            &&& after.txn_id == txn.txn_id
            &&& after.commit_ts == txn.commit_ts
            &&& after.isolation_level == txn.isolation_level
        }),
{
    let after = with_change(txn, key, delta);
    assert(after.undo.drop_last() =~= txn.undo);
    assert(after.redo.drop_last() =~= txn.redo);
}

/// What a transaction read stands against its commit exactly where something of it is gone, or was
/// written by another transaction and that after this one started.
pub proof fn law_reads_stand(store: StoreView, txn: TxnView)
    ensures
        reads_valid(store, txn) <==> {
            &&& forall|vid: VertexId| #[trigger]
                txn.vertex_reads.contains(vid) ==> store.vertices.contains_key(vid) && (
                store.vertices[vid].commit_ts == txn.txn_id || store.vertices[vid].commit_ts.0
                    <= txn.start_ts.0)
            &&& forall|eid: EdgeId| #[trigger]
                txn.edge_reads.contains(eid) ==> store.edges.contains_key(eid) && (
                store.edges[eid].commit_ts == txn.txn_id || store.edges[eid].commit_ts.0
                    <= txn.start_ts.0)
        },
{
}

/// Whether one of the undo entries of a transaction is about a vertex.
pub open spec fn wrote_vertex(undo: Map<u64, UndoView>, keys: Seq<u64>, vid: VertexId) -> bool {
    exists|i: int|
        0 <= i < keys.len() && (undo[#[trigger] keys[i]].delta == DeltaView::DelVertex(vid) || (
        undo[keys[i]].delta matches DeltaView::CreateVertex(vertex) && vertex.vid == vid) || (
        undo[keys[i]].delta matches DeltaView::SetVertexProps(id, _) && id == vid))
}

/// Whether one of the undo entries of a transaction is about an edge.
pub open spec fn wrote_edge(undo: Map<u64, UndoView>, keys: Seq<u64>, eid: EdgeId) -> bool {
    exists|i: int|
        0 <= i < keys.len() && (undo[#[trigger] keys[i]].delta == DeltaView::DelEdge(eid) || (
        undo[keys[i]].delta matches DeltaView::CreateEdge(edge) && edge.eid == eid) || (
        undo[keys[i]].delta matches DeltaView::SetEdgeProps(id, _) && id == eid))
}

/// A commit stamps exactly what the transaction wrote: every vertex and edge that one of its undo
/// entries is about gets the commit timestamp and keeps its data and its way back, and nothing else
/// changes.
pub proof fn law_stamped_exactly(store: StoreView, keys: Seq<u64>, ts: Timestamp)
    requires
        forall|vid: VertexId|
            wrote_vertex(store.undo, keys, vid) ==> #[trigger] store.vertices.contains_key(vid),
        forall|eid: EdgeId|
            wrote_edge(store.undo, keys, eid) ==> #[trigger] store.edges.contains_key(eid),
    ensures
        ({
            let after = all_stamped(store, keys, ts, 0);
            &&& after.undo == store.undo
            &&& after.adjacency == store.adjacency
            &&& after.next_undo == store.next_undo
            &&& after.vertices.dom() == store.vertices.dom()
            &&& after.edges.dom() == store.edges.dom()
            &&& forall|vid: VertexId|
                store.vertices.contains_key(vid) ==> (#[trigger] after.vertices[vid]).data
                    == store.vertices[vid].data && after.vertices[vid].undo_ptr
                    == store.vertices[vid].undo_ptr && after.vertices[vid].commit_ts
                    == if wrote_vertex(store.undo, keys, vid) {
                    ts
                } else {
                    store.vertices[vid].commit_ts
                }
            &&& forall|eid: EdgeId|
                store.edges.contains_key(eid) ==> (#[trigger] after.edges[eid]).data
                    == store.edges[eid].data && after.edges[eid].undo_ptr
                    == store.edges[eid].undo_ptr && after.edges[eid].commit_ts == if wrote_edge(
                    store.undo,
                    keys,
                    eid,
                ) {
                    ts
                } else {
                    store.edges[eid].commit_ts
                }
        }),
{
    lemma_stamped_from(store, keys, ts, 0);
    assert(keys.skip(0) =~= keys);
}

proof fn lemma_wrote_first(undo: Map<u64, UndoView>, keys: Seq<u64>)
    requires
        keys.len() > 0,
    ensures
        forall|vid: VertexId| #[trigger]
            wrote_vertex(undo, keys, vid) <==> wrote_vertex(undo, seq![keys[0]], vid)
                || wrote_vertex(undo, keys.drop_first(), vid),
        forall|eid: EdgeId| #[trigger]
            wrote_edge(undo, keys, eid) <==> wrote_edge(undo, seq![keys[0]], eid) || wrote_edge(
                undo,
                keys.drop_first(),
                eid,
            ),
{
    let rest = keys.drop_first();
    let first = seq![keys[0]];
    assert(first[0] == keys[0]);
    assert forall|i: int| 0 <= i < rest.len() implies #[trigger] rest[i] == keys[i + 1] by {}
    assert forall|vid: VertexId| #[trigger] wrote_vertex(undo, keys, vid) <==> wrote_vertex(
        undo,
        first,
        vid,
    ) || wrote_vertex(undo, rest, vid) by {
        if wrote_vertex(undo, keys, vid) {
            let i = choose|i: int|
                0 <= i < keys.len() && (undo[#[trigger] keys[i]].delta == DeltaView::DelVertex(vid)
                    || (undo[keys[i]].delta matches DeltaView::CreateVertex(vertex) && vertex.vid
                    == vid) || (undo[keys[i]].delta matches DeltaView::SetVertexProps(id, _) && id
                    == vid));
            if i > 0 {
                assert(rest[i - 1] == keys[i]);
            }
        }
    }
    assert forall|eid: EdgeId| #[trigger] wrote_edge(undo, keys, eid) <==> wrote_edge(
        undo,
        first,
        eid,
    ) || wrote_edge(undo, rest, eid) by {
        if wrote_edge(undo, keys, eid) {
            let i = choose|i: int|
                0 <= i < keys.len() && (undo[#[trigger] keys[i]].delta == DeltaView::DelEdge(eid)
                    || (undo[keys[i]].delta matches DeltaView::CreateEdge(edge) && edge.eid == eid)
                    || (undo[keys[i]].delta matches DeltaView::SetEdgeProps(id, _) && id == eid));
            if i > 0 {
                assert(rest[i - 1] == keys[i]);
            }
        }
    }
}

proof fn lemma_stamped_from(store: StoreView, keys: Seq<u64>, ts: Timestamp, n: int)
    requires
        0 <= n <= keys.len(),
        forall|vid: VertexId|
            wrote_vertex(store.undo, keys.skip(n), vid) ==> #[trigger] store.vertices.contains_key(
                vid,
            ),
        forall|eid: EdgeId|
            wrote_edge(store.undo, keys.skip(n), eid) ==> #[trigger] store.edges.contains_key(eid),
    ensures
        ({
            let after = all_stamped(store, keys, ts, n);
            &&& after.undo == store.undo
            &&& after.adjacency == store.adjacency
            &&& after.next_undo == store.next_undo
            &&& after.vertices.dom() == store.vertices.dom()
            &&& after.edges.dom() == store.edges.dom()
            &&& forall|vid: VertexId|
                store.vertices.contains_key(vid) ==> (#[trigger] after.vertices[vid]).data
                    == store.vertices[vid].data && after.vertices[vid].undo_ptr
                    == store.vertices[vid].undo_ptr && after.vertices[vid].commit_ts
                    == if wrote_vertex(store.undo, keys.skip(n), vid) {
                    ts
                } else {
                    store.vertices[vid].commit_ts
                }
            &&& forall|eid: EdgeId|
                store.edges.contains_key(eid) ==> (#[trigger] after.edges[eid]).data
                    == store.edges[eid].data && after.edges[eid].undo_ptr
                    == store.edges[eid].undo_ptr && after.edges[eid].commit_ts == if wrote_edge(
                    store.undo,
                    keys.skip(n),
                    eid,
                ) {
                    ts
                } else {
                    store.edges[eid].commit_ts
                }
        }),
    decreases keys.len() - n,
{
    let left = keys.skip(n);
    if n < keys.len() {
        let delta = store.undo[keys[n]].delta;
        let next = stamped(store, delta, ts);
        let first = seq![keys[n]];
        assert(first[0] == keys[n]);
        lemma_wrote_first(store.undo, left);
        assert(left.drop_first() =~= keys.skip(n + 1));
        assert(left[0] == keys[n]);
        match delta {
            DeltaView::DelVertex(vid) => {
                assert(wrote_vertex(store.undo, first, vid));
            },
            DeltaView::CreateVertex(vertex) => {
                assert(wrote_vertex(store.undo, first, vertex.vid));
            },
            DeltaView::SetVertexProps(vid, _) => {
                assert(wrote_vertex(store.undo, first, vid));
            },
            DeltaView::DelEdge(eid) => {
                assert(wrote_edge(store.undo, first, eid));
            },
            DeltaView::CreateEdge(edge) => {
                assert(wrote_edge(store.undo, first, edge.eid));
            },
            DeltaView::SetEdgeProps(eid, _) => {
                assert(wrote_edge(store.undo, first, eid));
            },
            _ => {},
        }
        assert(next.vertices.dom() =~= store.vertices.dom());
        assert(next.edges.dom() =~= store.edges.dom());
        assert forall|vid: VertexId| store.vertices.contains_key(vid) implies (
        #[trigger] next.vertices[vid]).data == store.vertices[vid].data
            && next.vertices[vid].undo_ptr == store.vertices[vid].undo_ptr
            && next.vertices[vid].commit_ts == if wrote_vertex(store.undo, first, vid) {
            ts
        } else {
            store.vertices[vid].commit_ts
        } by {}
        assert forall|eid: EdgeId| store.edges.contains_key(eid) implies (
        #[trigger] next.edges[eid]).data == store.edges[eid].data && next.edges[eid].undo_ptr
            == store.edges[eid].undo_ptr && next.edges[eid].commit_ts == if wrote_edge(
            store.undo,
            first,
            eid,
        ) {
            ts
        } else {
            store.edges[eid].commit_ts
        } by {}
        lemma_stamped_from(next, keys, ts, n + 1);
    } else {
        assert forall|vid: VertexId| !wrote_vertex(store.undo, left, vid) by {}
        assert forall|eid: EdgeId| !wrote_edge(store.undo, left, eid) by {}
    }
}

/// The error that stands against a commit tells of something that was read: of a vertex or an edge
/// that is gone, by its number, or of a conflict where one of them was written by another
/// transaction since this one started. As long as a vertex that was read stands against the commit,
/// the error is not that an edge is gone.
pub proof fn law_read_error(store: StoreView, txn: TxnView, error: ErrorView)
    requires
        read_error(store, txn, error),
    ensures
        !reads_valid(store, txn),
        match error {
            ErrorView::VertexNotFound(text) => exists|vid: VertexId| #[trigger]
                txn.vertex_reads.contains(vid) && !store.vertices.contains_key(vid) && text
                    == digits(vid as nat),
            ErrorView::EdgeNotFound(text) => {
                &&& exists|eid: EdgeId| #[trigger]
                    txn.edge_reads.contains(eid) && !store.edges.contains_key(eid) && text
                        == digits(eid as nat)
                &&& forall|vid: VertexId| #[trigger]
                    txn.vertex_reads.contains(vid) ==> store.vertices.contains_key(vid)
            },
            ErrorView::ReadWriteConflict(_) => {
                ||| exists|vid: VertexId| #[trigger]
                    txn.vertex_reads.contains(vid) && store.vertices.contains_key(vid)
                        && store.vertices[vid].commit_ts != txn.txn_id
                        && store.vertices[vid].commit_ts.0 > txn.start_ts.0
                ||| exists|eid: EdgeId| #[trigger]
                    txn.edge_reads.contains(eid) && store.edges.contains_key(eid)
                        && store.edges[eid].commit_ts != txn.txn_id && store.edges[eid].commit_ts.0
                        > txn.start_ts.0
            },
            _ => false,
        },
{
}

} // verus!
