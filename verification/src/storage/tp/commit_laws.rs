//! What commits, aborts and garbage collections do, step by step.

use vstd::prelude::*;

#[allow(unused_imports)]
use super::gc::{
    adjacency_without, ascending, collects, collects_periodically, edge_dead, expired_edges,
    expired_vertices, forgotten, gc_due, noted, noted_all, swept, sweeps, undo_expired,
    undo_forgotten, vertex_noted, vertices_noted, vertices_swept, without_edge, ExpiredEdge,
};
#[allow(unused_imports)]
use super::gc_laws::{
    comes_after, is_end_point, is_listed, law_deleted_edge_removed, law_garbage_only,
    law_swept_exactly, law_vertices_swept_exactly, lemma_ascending_unique, tells,
};
#[allow(unused_imports)]
use super::manager::{is_least, least_key, ManagerView};
#[allow(unused_imports)]
use super::memory_graph::{reads_current, GraphView};
#[allow(unused_imports)]
use super::model::{
    with_adjacency, without_incoming, without_outgoing, Adjacency, DeltaView, EdgeView,
    IsolationLevel, OperationView, RedoView, StoreView, Timestamp, UndoView, VertexView,
};
#[allow(unused_imports)]
use super::outside::Event;
#[allow(unused_imports)]
use super::transaction::{
    abort_entries, aborts, accepted, all_stamped, appends, commit_log, finishes, graph_finishes,
    logs, reads_valid, refused, rolled_back, settles, TxnView,
};
#[allow(unused_imports)]
use super::write_laws::{comes_from, leads_to};
#[allow(unused_imports)]
use crate::collections::skip::NeighborKey;
#[allow(unused_imports)]
use crate::common::types::{EdgeId, VertexId};
#[allow(unused_imports)]
use crate::storage::error::ErrorView;

verus! {

/// Commit timestamps that are not asked for come one behind the other: each is the number of the
/// counter, which then stands one further. One that is asked for is handed out as it is, and the
/// next is the one behind it.
pub proof fn law_commit_timestamps_ascend(manager: ManagerView, given: Timestamp)
    requires
        manager.commit_ts_counter < u64::MAX,
        given.0 < u64::MAX,
    ensures
        manager.next_commit_ts(None).0 == manager.commit_ts_counter,
        manager.next_commit_ts(Some(given)) == given,
        manager.after_commit_ts(None).next_commit_ts(None).0 == manager.next_commit_ts(None).0 + 1,
        manager.after_commit_ts(Some(given)).next_commit_ts(None).0 == given.0 + 1,
        manager.after_commit_ts(None) == (ManagerView {
            commit_ts_counter: manager.after_commit_ts(None).commit_ts_counter,
            ..manager
        }),
        manager.after_commit_ts(Some(given)) == (ManagerView {
            commit_ts_counter: manager.after_commit_ts(Some(given)).commit_ts_counter,
            ..manager
        }),
{
}

/// A transaction reads the current version exactly where it wrote it itself, or where it was
/// committed no later than the transaction started.
pub proof fn law_current_version_read(commit_ts: Timestamp, txn: TxnView)
    ensures
        reads_current(commit_ts, txn) <==> commit_ts.0 == txn.txn_id.0 || commit_ts.0
            <= txn.start_ts.0,
{
}

/// A transaction that was started is active from then on, with its start; the others stay as they
/// were, and nothing is forgotten of those that were committed.
pub proof fn law_started_is_active(manager: ManagerView, txn_id: u64, start_ts: u64)
    ensures
        ({
            let after = manager.started(txn_id, start_ts);
            &&& after.active.contains_key(txn_id) && after.active[txn_id] == start_ts
            &&& forall|other: u64|
                other != txn_id ==> (#[trigger] after.active.contains_key(other)
                    == manager.active.contains_key(other)) && (manager.active.contains_key(other)
                    ==> after.active[other] == manager.active[other])
            &&& after.committed == manager.committed
            &&& after.committed_undo == manager.committed_undo
            &&& after.latest_commit_ts == manager.latest_commit_ts
            &&& after.commit_ts_counter == manager.commit_ts_counter
            &&& after.txn_id_counter == manager.txn_id_counter
            &&& after.last_gc_ts == manager.last_gc_ts
            &&& after.watermark >= manager.watermark
        }),
{
}

/// A transaction that is over is no longer active. Where it was committed, it is known under its
/// commit timestamp, with its undo entries; an aborted one is not known any more. The others stay
/// as they were.
pub proof fn law_finished_is_over(manager: ManagerView, txn: TxnView)
    ensures
        ({
            let after = manager.finished(txn);
            &&& !after.active.contains_key(txn.txn_id.0)
            &&& forall|other: u64|
                other != txn.txn_id.0 ==> (#[trigger] after.active.contains_key(other)
                    == manager.active.contains_key(other)) && (manager.active.contains_key(other)
                    ==> after.active[other] == manager.active[other])
            &&& txn.commit_ts matches Some(ts) ==> {
                &&& after.committed.contains_key(ts.0) && after.committed[ts.0] == txn.txn_id.0
                &&& after.committed_undo.contains_key(ts.0) && after.committed_undo[ts.0]
                    == txn.undo
            }
            &&& forall|ts: u64|
                txn.commit_ts != Some(Timestamp(ts)) ==> {
                    &&& #[trigger] after.committed.contains_key(ts)
                        == manager.committed.contains_key(ts)
                    &&& manager.committed.contains_key(ts) ==> after.committed[ts]
                        == manager.committed[ts]
                }
            &&& forall|ts: u64|
                txn.commit_ts != Some(Timestamp(ts)) ==> {
                    &&& #[trigger] after.committed_undo.contains_key(ts)
                        == manager.committed_undo.contains_key(ts)
                    &&& manager.committed_undo.contains_key(ts) ==> after.committed_undo[ts]
                        == manager.committed_undo[ts]
                }
            &&& after.latest_commit_ts == manager.latest_commit_ts
            &&& after.commit_ts_counter == manager.commit_ts_counter
            &&& after.txn_id_counter == manager.txn_id_counter
            &&& after.last_gc_ts == manager.last_gc_ts
            &&& after.watermark >= manager.watermark
        }),
{
}

/// The watermark is the last commit where no transaction is active, and else the start of the
/// active transaction with the least identifier, unless it was higher before.
pub proof fn law_watermark(manager: ManagerView, least: u64)
    ensures
        manager.active.dom() == Set::<u64>::empty() ==> manager.with_watermark().watermark == if
            manager.latest_commit_ts >= manager.watermark {
            manager.latest_commit_ts
        } else {
            manager.watermark
        },
        manager.active.contains_key(least) && (forall|other: u64| #[trigger]
            manager.active.contains_key(other) ==> least <= other)
            ==> manager.with_watermark().watermark == if manager.active[least]
            >= manager.watermark {
            manager.active[least]
        } else {
            manager.watermark
        },
        manager.with_watermark() == (ManagerView {
            watermark: manager.with_watermark().watermark,
            ..manager
        }),
{
    if manager.active.dom() == Set::<u64>::empty() {
        assert(manager.active =~= Map::<u64, u64>::empty());
    }
    if is_least(manager.active, least) {
        assert(is_least(manager.active, least_key(manager.active)));
        assert(manager.active != Map::<u64, u64>::empty()) by {
            assert(!Map::<u64, u64>::empty().contains_key(least));
        }
    }
}

/// A garbage collection takes place behind a commit exactly where the watermark has risen by more
/// than fifty since the last one. Where it does, the watermark of then is remembered, and what the
/// collection leaves of the transactions are those that were committed at the watermark or later.
pub proof fn law_collection_when_due(
    manager: ManagerView,
    store: StoreView,
    manager_after: ManagerView,
    store_after: StoreView,
)
    requires
        collects_periodically(manager, store, manager_after, store_after),
    ensures
        manager.watermark - manager.last_gc_ts <= 50 ==> manager_after == manager && store_after
            == store,
        manager.watermark - manager.last_gc_ts > 50 ==> {
            &&& manager_after.last_gc_ts == manager.watermark
            &&& forall|ts: u64| #[trigger]
                manager_after.committed.contains_key(ts) <==> manager.committed.contains_key(ts)
                    && ts >= manager.watermark
            &&& forall|ts: u64| #[trigger]
                manager_after.committed_undo.contains_key(ts)
                    <==> manager.committed_undo.contains_key(ts) && ts >= manager.watermark
            &&& forall|ts: u64| #[trigger]
                manager_after.committed_undo.contains_key(ts) ==> manager_after.committed_undo[ts]
                    == manager.committed_undo[ts]
            &&& forall|key: u64| #[trigger]
                store_after.undo.contains_key(key) <==> store.undo.contains_key(key) && forall|
                    ts: u64,
                | #[trigger]
                    manager.committed_undo.contains_key(ts) && ts < manager.watermark
                        ==> !manager.committed_undo[ts].contains(key)
        },
        manager_after.active == manager.active,
        manager_after.watermark == manager.watermark,
        manager_after.latest_commit_ts == manager.latest_commit_ts,
        manager_after.commit_ts_counter == manager.commit_ts_counter,
        manager_after.txn_id_counter == manager.txn_id_counter,
{
    if gc_due(manager) {
        let between = ManagerView { last_gc_ts: manager.last_gc_ts, ..manager_after };
        law_garbage_only(manager, store, between, store_after);
        assert(between == forgotten(manager));
    }
}

/// A transaction that was settled is committed: it had no commit timestamp before, it was active
/// and is not any more, and its timestamp is the next, or the given one, and the latest. The log
/// stands behind its entries and its commit, and where no garbage is to be collected the graph is
/// the one from before with what it wrote stamped.
pub proof fn law_settled(
    graph: GraphView,
    txn: TxnView,
    commit_ts: Option<Timestamp>,
    skip_wal: bool,
    events: Seq<Event>,
    graph_after: GraphView,
    txn_after: TxnView,
    ts: Timestamp,
)
    requires
        settles(graph, txn, commit_ts, skip_wal, events, graph_after, txn_after, Ok(ts)),
        graph.manager.commit_ts_counter < u64::MAX,
        graph.next_lsn + txn.redo.len() + 1 <= u64::MAX,
    ensures
        txn.commit_ts is None,
        txn.isolation_level == IsolationLevel::Serializable ==> {
            &&& forall|vid: VertexId| #[trigger]
                txn.vertex_reads.contains(vid) ==> graph.store.vertices.contains_key(vid) && (
                graph.store.vertices[vid].commit_ts == txn.txn_id
                    || graph.store.vertices[vid].commit_ts.0 <= txn.start_ts.0)
            &&& forall|eid: EdgeId| #[trigger]
                txn.edge_reads.contains(eid) ==> graph.store.edges.contains_key(eid) && (
                graph.store.edges[eid].commit_ts == txn.txn_id
                    || graph.store.edges[eid].commit_ts.0 <= txn.start_ts.0)
        },
        commit_ts is None ==> ts.0 == graph.manager.commit_ts_counter,
        commit_ts matches Some(given) ==> ts == given,
        txn_after.commit_ts == Some(ts),
        txn_after.undo == txn.undo,
        graph.manager.active.contains_key(txn.txn_id.0),
        !graph_after.manager.active.contains_key(txn.txn_id.0),
        forall|other: u64|
            other != txn.txn_id.0 ==> (#[trigger] graph_after.manager.active.contains_key(other)
                == graph.manager.active.contains_key(other)),
        graph_after.manager.latest_commit_ts == ts.0,
        graph_after.next_lsn == if skip_wal {
            graph.next_lsn as int
        } else {
            graph.next_lsn + txn.redo.len() + 1
        },
        graph_after.checkpoint_config == graph.checkpoint_config,
        graph_after.checkpoints == graph.checkpoints,
        skip_wal ==> events.len() == 0,
        graph_after.manager.watermark - graph.manager.last_gc_ts <= 50 ==> {
            &&& graph_after.store == all_stamped(graph.store, txn.undo, ts, 0)
            &&& graph_after.manager.committed.contains_key(ts.0)
            &&& graph_after.manager.committed[ts.0] == txn.txn_id.0
            &&& graph_after.manager.committed_undo[ts.0] == txn.undo
        },
{
    let numbered = GraphView { manager: graph.manager.after_commit_ts(commit_ts), ..graph };
    assert(reads_valid(graph.store, txn) || txn.isolation_level != IsolationLevel::Serializable);
    assert(accepted(numbered, txn, ts, skip_wal, events, graph_after, txn_after, Ok(ts)));
    let latest = ManagerView { latest_commit_ts: ts.0, ..numbered.manager };
    let stamped = all_stamped(graph.store, txn.undo, ts, 0);
    assert(finishes(
        latest,
        stamped,
        txn_after,
        graph_after.manager,
        graph_after.store,
        Ok(()),
    ));
    assert(latest.active.contains_key(txn.txn_id.0));
    law_finished_is_over(latest, txn_after);
    law_collection_when_due(
        latest.finished(txn_after),
        stamped,
        graph_after.manager,
        graph_after.store,
    );
    super::write_laws::law_reads_stand(graph.store, txn);
}

/// A commit that is refused for what the transaction read, or because it was committed already,
/// leaves no commit behind: nothing is stamped, the undo entries of the transaction are applied and
/// forgotten, and where its abort succeeds it is no longer active and the error is the reason.
pub proof fn law_refused_is_aborted(
    graph: GraphView,
    txn: TxnView,
    commit_ts: Option<Timestamp>,
    skip_wal: bool,
    events: Seq<Event>,
    graph_after: GraphView,
    txn_after: TxnView,
    result: Result<Timestamp, ErrorView>,
)
    requires
        settles(graph, txn, commit_ts, skip_wal, events, graph_after, txn_after, result),
        txn.commit_ts is Some || (txn.isolation_level == IsolationLevel::Serializable && ((exists|
            vid: VertexId,
        | #[trigger]
            txn.vertex_reads.contains(vid) && (!graph.store.vertices.contains_key(vid) || (
            graph.store.vertices[vid].commit_ts != txn.txn_id
                && graph.store.vertices[vid].commit_ts.0 > txn.start_ts.0))) || (exists|
            eid: EdgeId,
        | #[trigger]
            txn.edge_reads.contains(eid) && (!graph.store.edges.contains_key(eid) || (
            graph.store.edges[eid].commit_ts != txn.txn_id && graph.store.edges[eid].commit_ts.0
                > txn.start_ts.0))))),
    ensures
        result is Err,
        txn_after == (TxnView { undo: Seq::empty(), ..txn }),
        exists|ended: Result<(), ErrorView>| #[trigger]
            aborts(
                GraphView { manager: graph.manager.after_commit_ts(commit_ts), ..graph },
                txn,
                false,
                events,
                graph_after,
                txn_after,
                ended,
            ),
{
    super::write_laws::law_reads_stand(graph.store, txn);
    let numbered = GraphView { manager: graph.manager.after_commit_ts(commit_ts), ..graph };
    let error = result->Err_0;
    if txn.isolation_level == IsolationLevel::Serializable && !reads_valid(graph.store, txn) {
        let reason = choose|reason: ErrorView| #[trigger]
            super::transaction::read_error(graph.store, txn, reason) && refused(
                numbered,
                txn,
                events,
                graph_after,
                txn_after,
                reason,
                error,
            );
        lemma_refused(numbered, txn, events, graph_after, txn_after, reason, error);
    } else {
        let ts = graph.manager.next_commit_ts(commit_ts);
        lemma_refused(
            numbered,
            txn,
            events,
            graph_after,
            txn_after,
            ErrorView::TransactionAlreadyCommitted(super::transaction::timestamp_text(ts)),
            error,
        );
    }
}

proof fn lemma_refused(
    graph: GraphView,
    txn: TxnView,
    events: Seq<Event>,
    graph_after: GraphView,
    txn_after: TxnView,
    reason: ErrorView,
    error: ErrorView,
)
    requires
        refused(graph, txn, events, graph_after, txn_after, reason, error),
    ensures
        txn_after == (TxnView { undo: Seq::empty(), ..txn }),
        exists|ended: Result<(), ErrorView>| #[trigger]
            aborts(graph, txn, false, events, graph_after, txn_after, ended),
{
    if aborts(graph, txn, false, events, graph_after, txn_after, Ok(())) {
    } else {
        assert(aborts(graph, txn, false, events, graph_after, txn_after, Err(error)));
    }
}

/// An abort that succeeds ends the transaction: it was active and is not any more, nothing of it is
/// known as committed, its undo entries are forgotten, and the log got its abort and was made safe,
/// unless nothing was to be logged. The manager otherwise stays as it was but for the watermark.
pub proof fn law_aborted(
    graph: GraphView,
    txn: TxnView,
    skip_wal: bool,
    events: Seq<Event>,
    graph_after: GraphView,
    txn_after: TxnView,
)
    requires
        aborts(graph, txn, skip_wal, events, graph_after, txn_after, Ok(())),
        txn.commit_ts is None,
        graph.next_lsn < u64::MAX,
    ensures
        graph.manager.active.contains_key(txn.txn_id.0),
        !graph_after.manager.active.contains_key(txn.txn_id.0),
        forall|other: u64|
            other != txn.txn_id.0 ==> (#[trigger] graph_after.manager.active.contains_key(other)
                == graph.manager.active.contains_key(other)),
        graph_after.manager.committed == graph.manager.committed,
        graph_after.manager.committed_undo == graph.manager.committed_undo,
        graph_after.manager.latest_commit_ts == graph.manager.latest_commit_ts,
        graph_after.manager.commit_ts_counter == graph.manager.commit_ts_counter,
        graph_after.store == rolled_back(graph.store, txn),
        forall|key: u64| #[trigger]
            txn.undo.contains(key) ==> !graph_after.store.undo.contains_key(key),
        txn_after.undo.len() == 0,
        graph_after.next_lsn == if skip_wal {
            graph.next_lsn as int
        } else {
            graph.next_lsn + 1
        },
        skip_wal ==> events.len() == 0,
        !skip_wal ==> {
            &&& events.len() == 2
            &&& events[0] matches Event::Append(entry, answer) && {
                &&& answer is Ok
                &&& entry.lsn == graph.next_lsn
                &&& entry.txn_id == txn.txn_id
                &&& entry.iso_level == txn.isolation_level
                &&& entry.op is AbortTransaction
            }
            &&& events[1] == Event::Flush(Ok(()))
        },
{
    law_finished_is_over(graph.manager, txn_after);
    if !skip_wal {
        let entries = abort_entries(txn, graph.next_lsn);
        assert(logs(entries, events, Ok(())));
        let given = events.drop_last();
        assert(appends(entries, given, Ok(())));
        assert(given.len() == 1);
        assert(given[0] == events[0]);
    }
    assert forall|key: u64| #[trigger]
        txn.undo.contains(key) implies !graph_after.store.undo.contains_key(key) by {
        assert(txn.undo.to_set().contains(key));
    }
}

/// Removing a vertex from the neighbours takes away the vertex and, at other vertices, the
/// neighbours along its edges; every neighbour that is another vertex stays.
pub proof fn law_other_neighbors_kept(
    adjacency: Map<VertexId, Adjacency>,
    vid: VertexId,
    other: VertexId,
    key: NeighborKey,
)
    requires
        other != vid,
        key.1 != vid,
    ensures
        adjacency_without(adjacency, vid).contains_key(other) == adjacency.contains_key(other),
        leads_to(adjacency_without(adjacency, vid), other, key) == leads_to(adjacency, other, key),
        comes_from(adjacency_without(adjacency, vid), other, key) == comes_from(
            adjacency,
            other,
            key,
        ),
{
}

/// Removing an edge takes it away, and at its source the destination and at its destination the
/// source as a neighbour along it. No other neighbour is taken away, and no vertex and no other
/// edge.
pub proof fn law_edge_forgotten(store: StoreView, eid: EdgeId, edge: ExpiredEdge)
    ensures
        ({
            let after = without_edge(store, eid, edge);
            &&& !after.edges.contains_key(eid)
            &&& forall|other: EdgeId|
                other != eid ==> (#[trigger] after.edges.contains_key(other)
                    == store.edges.contains_key(other)) && (store.edges.contains_key(other)
                    ==> after.edges[other] == store.edges[other])
            &&& after.vertices == store.vertices
            &&& after.undo == store.undo
            &&& forall|vid: VertexId| #[trigger]
                after.adjacency.contains_key(vid) == store.adjacency.contains_key(vid)
            &&& forall|vid: VertexId, key: NeighborKey| #[trigger]
                leads_to(after.adjacency, vid, key) <==> leads_to(store.adjacency, vid, key) && !(
                vid == edge.src_id && key == (edge.label_id, edge.dst_id, eid))
            &&& forall|vid: VertexId, key: NeighborKey| #[trigger]
                comes_from(after.adjacency, vid, key) <==> comes_from(store.adjacency, vid, key)
                    && !(vid == edge.dst_id && key == (edge.label_id, edge.src_id, eid))
        }),
{
}

/// Whether an undo entry tells of an edge that it was created or deleted.
pub open spec fn tells_of_edge(delta: DeltaView, eid: EdgeId) -> bool {
    match delta {
        DeltaView::CreateEdge(edge) => edge.eid == eid,
        DeltaView::DelEdge(id) => id == eid,
        _ => false,
    }
}

proof fn lemma_noted_edge(
    undo: Map<u64, UndoView>,
    keys: Seq<u64>,
    expired: Map<EdgeId, ExpiredEdge>,
    i: int,
    edge: EdgeView,
)
    requires
        0 <= i <= keys.len(),
    ensures
        ({
            let after = noted_all(undo, keys, expired, i);
            let ends = ExpiredEdge {
                src_id: edge.src_id,
                dst_id: edge.dst_id,
                label_id: edge.label_id,
            };
            &&& (forall|k: int|
                i <= k < keys.len() && undo.contains_key(#[trigger] keys[k]) ==> !tells_of_edge(
                    undo[keys[k]].delta,
                    edge.eid,
                )) ==> after.contains_key(edge.eid) == expired.contains_key(edge.eid) && (
            expired.contains_key(edge.eid) ==> after[edge.eid] == expired[edge.eid])
            &&& forall|n: int|
                i <= n < keys.len() && undo.contains_key(#[trigger] keys[n]) && undo[keys[n]].delta
                    == DeltaView::CreateEdge(edge) && (forall|k: int|
                    n < k < keys.len() && undo.contains_key(#[trigger] keys[k]) ==> !tells_of_edge(
                        undo[keys[k]].delta,
                        edge.eid,
                    )) ==> after.contains_key(edge.eid) && after[edge.eid] == ends
        }),
    decreases keys.len() - i,
{
    if i < keys.len() {
        let next = if undo.contains_key(keys[i]) {
            noted(expired, undo[keys[i]].delta)
        } else {
            expired
        };
        lemma_noted_edge(undo, keys, next, i + 1, edge);
    }
}

proof fn lemma_expired_edge(
    manager: ManagerView,
    undo: Map<u64, UndoView>,
    commits: Seq<u64>,
    expired: Map<EdgeId, ExpiredEdge>,
    i: int,
    n: int,
    k: int,
    edge: EdgeView,
)
    requires
        0 <= i <= commits.len(),
        forall|a: int, b: int|
            0 <= a < b < commits.len() ==> (#[trigger] commits[a]) < (#[trigger] commits[b]),
        tells(manager, undo, commits, n, k, DeltaView::CreateEdge(edge)),
        forall|m: int, l: int, delta: DeltaView|
            comes_after(m, l, n, k) && #[trigger] tells(manager, undo, commits, m, l, delta)
                ==> !tells_of_edge(delta, edge.eid),
        i > n ==> expired.contains_key(edge.eid) && expired[edge.eid] == (ExpiredEdge {
            src_id: edge.src_id,
            dst_id: edge.dst_id,
            label_id: edge.label_id,
        }),
    ensures
        ({
            let all = expired_edges(manager, undo, commits, expired, i);
            all.contains_key(edge.eid) && all[edge.eid] == (ExpiredEdge {
                src_id: edge.src_id,
                dst_id: edge.dst_id,
                label_id: edge.label_id,
            })
        }),
    decreases commits.len() - i,
{
    if i < commits.len() && commits[i] < manager.watermark {
        let keys = manager.committed_undo[commits[i]];
        let next = noted_all(undo, keys, expired, 0);
        lemma_noted_edge(undo, keys, expired, 0, edge);
        assert forall|l: int|
            0 <= l < keys.len() && undo.contains_key(#[trigger] keys[l]) && comes_after(
                i,
                l,
                n,
                k,
            ) implies !tells_of_edge(undo[keys[l]].delta, edge.eid) by {
            assert(tells(manager, undo, commits, i, l, undo[keys[l]].delta));
        }
        if i == n {
            assert(undo.contains_key(keys[k]) && undo[keys[k]].delta == DeltaView::CreateEdge(
                edge,
            ));
        }
        lemma_expired_edge(manager, undo, commits, next, i + 1, n, k, edge);
    } else if i < n {
        assert(commits[i] < commits[n]);
    }
}

/// An edge that an expired transaction deleted, and of which no expired transaction has told since,
/// is gone through with its own end points and label, and is removed where it is still deleted.
pub proof fn law_deleted_edge_swept(
    manager: ManagerView,
    store: StoreView,
    manager_after: ManagerView,
    store_after: StoreView,
    commits: Seq<u64>,
    n: int,
    k: int,
    edge: EdgeView,
)
    requires
        collects(manager, store, manager_after, store_after),
        ascending(commits, manager.committed),
        tells(manager, store.undo, commits, n, k, DeltaView::CreateEdge(edge)),
        forall|m: int, l: int, delta: DeltaView|
            comes_after(m, l, n, k) && #[trigger] tells(manager, store.undo, commits, m, l, delta)
                ==> !tells_of_edge(delta, edge.eid),
        edge_dead(store, edge.eid),
    ensures
        !store_after.edges.contains_key(edge.eid),
        ({
            let all = expired_edges(manager, store.undo, commits, Map::empty(), 0);
            &&& all.contains_key(edge.eid)
            &&& all[edge.eid].src_id == edge.src_id
            &&& all[edge.eid].dst_id == edge.dst_id
            &&& all[edge.eid].label_id == edge.label_id
        }),
{
    lemma_expired_edge(manager, store.undo, commits, Map::empty(), 0, n, k, edge);
    law_deleted_edge_removed(manager, store, manager_after, store_after, commits, edge.eid);
}

proof fn lemma_noted_edge_told(
    undo: Map<u64, UndoView>,
    keys: Seq<u64>,
    expired: Map<EdgeId, ExpiredEdge>,
    i: int,
    eid: EdgeId,
)
    requires
        0 <= i <= keys.len(),
        noted_all(undo, keys, expired, i).contains_key(eid),
    ensures
        (exists|k: int|
            i <= k < keys.len() && undo.contains_key(#[trigger] keys[k]) && (
            undo[keys[k]].delta matches DeltaView::CreateEdge(edge) && edge.eid == eid) && forall|
                l: int,
            |
                k < l < keys.len() && undo.contains_key(#[trigger] keys[l]) ==> undo[keys[l]].delta
                    != DeltaView::DelEdge(eid)) || (expired.contains_key(eid) && forall|l: int|
            i <= l < keys.len() && undo.contains_key(#[trigger] keys[l]) ==> undo[keys[l]].delta
                != DeltaView::DelEdge(eid)),
    decreases keys.len() - i,
{
    if i < keys.len() {
        let next = if undo.contains_key(keys[i]) {
            noted(expired, undo[keys[i]].delta)
        } else {
            expired
        };
        lemma_noted_edge_told(undo, keys, next, i + 1, eid);
    }
}

proof fn lemma_expired_edge_told(
    manager: ManagerView,
    undo: Map<u64, UndoView>,
    commits: Seq<u64>,
    expired: Map<EdgeId, ExpiredEdge>,
    i: int,
    eid: EdgeId,
)
    requires
        0 <= i <= commits.len(),
        expired_edges(manager, undo, commits, expired, i).contains_key(eid),
        forall|a: int, b: int|
            0 <= a < b < commits.len() ==> (#[trigger] commits[a]) < (#[trigger] commits[b]),
    ensures
        (exists|n: int, k: int, edge: EdgeView| #[trigger]
            tells(manager, undo, commits, n, k, DeltaView::CreateEdge(edge)) && n >= i && edge.eid
                == eid && forall|m: int, l: int|
                comes_after(m, l, n, k) ==> !#[trigger] tells(
                    manager,
                    undo,
                    commits,
                    m,
                    l,
                    DeltaView::DelEdge(eid),
                )) || (expired.contains_key(eid) && forall|m: int, l: int|
            m >= i ==> !#[trigger] tells(manager, undo, commits, m, l, DeltaView::DelEdge(eid))),
    decreases commits.len() - i,
{
    if i < commits.len() && commits[i] < manager.watermark {
        let keys = manager.committed_undo[commits[i]];
        let next = noted_all(undo, keys, expired, 0);
        lemma_expired_edge_told(manager, undo, commits, next, i + 1, eid);
        if next.contains_key(eid) {
            lemma_noted_edge_told(undo, keys, expired, 0, eid);
            if exists|k: int|
                0 <= k < keys.len() && undo.contains_key(#[trigger] keys[k]) && (
                undo[keys[k]].delta matches DeltaView::CreateEdge(edge) && edge.eid == eid)
                    && forall|l: int|
                    k < l < keys.len() && undo.contains_key(#[trigger] keys[l])
                        ==> undo[keys[l]].delta != DeltaView::DelEdge(eid) {
                let k = choose|k: int|
                    0 <= k < keys.len() && undo.contains_key(#[trigger] keys[k]) && (
                    undo[keys[k]].delta matches DeltaView::CreateEdge(edge) && edge.eid == eid)
                        && forall|l: int|
                        k < l < keys.len() && undo.contains_key(#[trigger] keys[l])
                            ==> undo[keys[l]].delta != DeltaView::DelEdge(eid);
                let edge = undo[keys[k]].delta->CreateEdge_0;
                assert(tells(manager, undo, commits, i, k, DeltaView::CreateEdge(edge)));
            }
        }
    } else {
        assert forall|m: int, l: int| m >= i implies !#[trigger] tells(
            manager,
            undo,
            commits,
            m,
            l,
            DeltaView::DelEdge(eid),
        ) by {
            if i < m < commits.len() {
                assert(commits[i] < commits[m]);
            }
        }
    }
}

/// An edge that a garbage collection removes is one that was deleted: it is marked as deleted, a
/// transaction that was committed before the watermark deleted it, and none of those created it
/// again since.
pub proof fn law_only_expired_edges_removed(
    manager: ManagerView,
    store: StoreView,
    manager_after: ManagerView,
    store_after: StoreView,
    commits: Seq<u64>,
    eid: EdgeId,
)
    requires
        collects(manager, store, manager_after, store_after),
        ascending(commits, manager.committed),
        store.edges.contains_key(eid),
        !store_after.edges.contains_key(eid),
    ensures
        store.edges[eid].data.is_tombstone,
        exists|n: int, k: int, edge: EdgeView| #[trigger]
            tells(manager, store.undo, commits, n, k, DeltaView::CreateEdge(edge)) && edge.eid
                == eid && forall|m: int, l: int|
                comes_after(m, l, n, k) ==> !#[trigger] tells(
                    manager,
                    store.undo,
                    commits,
                    m,
                    l,
                    DeltaView::DelEdge(eid),
                ),
{
    let (other, edge_order, vertex_order) = choose|
        other: Seq<u64>,
        edge_order: Seq<EdgeId>,
        vertex_order: Seq<VertexId>,
    | #[trigger]
        sweeps(manager, store, other, edge_order, vertex_order, store_after);
    lemma_ascending_unique(commits, other, manager.committed);
    let expired = expired_edges(manager, store.undo, commits, Map::empty(), 0);
    let clean = undo_forgotten(store, manager);
    let halfway = swept(clean, expired, edge_order, 0);
    law_swept_exactly(clean, expired, edge_order, 0);
    law_vertices_swept_exactly(halfway, vertex_order, 0);
    assert(!halfway.edges.contains_key(eid));
    assert(is_listed(edge_order, 0, eid));
    let at = choose|at: int| 0 <= at < edge_order.len() && #[trigger] edge_order[at] == eid;
    assert(edge_order.contains(eid));
    lemma_expired_edge_told(manager, store.undo, commits, Map::empty(), 0, eid);
}

proof fn lemma_noted_vertex_told(
    undo: Map<u64, UndoView>,
    keys: Seq<u64>,
    expired: Set<VertexId>,
    i: int,
    vid: VertexId,
)
    requires
        0 <= i <= keys.len(),
        vertices_noted(undo, keys, expired, i).contains(vid),
    ensures
        expired.contains(vid) || exists|k: int|
            i <= k < keys.len() && undo.contains_key(#[trigger] keys[k]) && (
            undo[keys[k]].delta matches DeltaView::CreateVertex(vertex) && vertex.vid == vid),
    decreases keys.len() - i,
{
    if i < keys.len() {
        let next = if undo.contains_key(keys[i]) {
            vertex_noted(expired, undo[keys[i]].delta)
        } else {
            expired
        };
        lemma_noted_vertex_told(undo, keys, next, i + 1, vid);
    }
}

proof fn lemma_expired_vertex_told(
    manager: ManagerView,
    undo: Map<u64, UndoView>,
    commits: Seq<u64>,
    expired: Set<VertexId>,
    i: int,
    vid: VertexId,
)
    requires
        0 <= i <= commits.len(),
        expired_vertices(manager, undo, commits, expired, i).contains(vid),
    ensures
        expired.contains(vid) || exists|n: int, k: int, vertex: VertexView| #[trigger]
            tells(manager, undo, commits, n, k, DeltaView::CreateVertex(vertex)) && vertex.vid
                == vid,
    decreases commits.len() - i,
{
    if i < commits.len() && commits[i] < manager.watermark {
        let keys = manager.committed_undo[commits[i]];
        let next = vertices_noted(undo, keys, expired, 0);
        lemma_expired_vertex_told(manager, undo, commits, next, i + 1, vid);
        if next.contains(vid) && !expired.contains(vid) {
            lemma_noted_vertex_told(undo, keys, expired, 0, vid);
            let k = choose|k: int|
                0 <= k < keys.len() && undo.contains_key(#[trigger] keys[k]) && (
                undo[keys[k]].delta matches DeltaView::CreateVertex(vertex) && vertex.vid == vid);
            let vertex = undo[keys[k]].delta->CreateVertex_0;
            assert(tells(manager, undo, commits, i, k, DeltaView::CreateVertex(vertex)));
        }
    }
}

/// A vertex that a garbage collection removes is marked as deleted, and a transaction that was
/// committed before the watermark deleted it, or deleted an edge that starts or ends at it.
pub proof fn law_only_expired_vertices_removed(
    manager: ManagerView,
    store: StoreView,
    manager_after: ManagerView,
    store_after: StoreView,
    commits: Seq<u64>,
    vid: VertexId,
)
    requires
        collects(manager, store, manager_after, store_after),
        ascending(commits, manager.committed),
        store.vertices.contains_key(vid),
        !store_after.vertices.contains_key(vid),
    ensures
        store.vertices[vid].data.is_tombstone,
        (exists|n: int, k: int, vertex: VertexView| #[trigger]
            tells(manager, store.undo, commits, n, k, DeltaView::CreateVertex(vertex))
                && vertex.vid == vid) || (exists|n: int, k: int, edge: EdgeView| #[trigger]
            tells(manager, store.undo, commits, n, k, DeltaView::CreateEdge(edge)) && (edge.src_id
                == vid || edge.dst_id == vid)),
{
    let (other, edge_order, vertex_order) = choose|
        other: Seq<u64>,
        edge_order: Seq<EdgeId>,
        vertex_order: Seq<VertexId>,
    | #[trigger]
        sweeps(manager, store, other, edge_order, vertex_order, store_after);
    lemma_ascending_unique(commits, other, manager.committed);
    let expired = expired_edges(manager, store.undo, commits, Map::empty(), 0);
    let clean = undo_forgotten(store, manager);
    let halfway = swept(clean, expired, edge_order, 0);
    law_swept_exactly(clean, expired, edge_order, 0);
    law_vertices_swept_exactly(halfway, vertex_order, 0);
    if halfway.vertices.contains_key(vid) {
        assert(is_listed(vertex_order, 0, vid));
        let at = choose|at: int| 0 <= at < vertex_order.len() && #[trigger] vertex_order[at] == vid;
        assert(vertex_order.contains(vid));
        lemma_expired_vertex_told(manager, store.undo, commits, Set::empty(), 0, vid);
    } else {
        assert(is_end_point(expired, edge_order, 0, vid));
        let at = choose|at: int|
            0 <= at < edge_order.len() && (expired[#[trigger] edge_order[at]].src_id == vid
                || expired[edge_order[at]].dst_id == vid);
        let eid = edge_order[at];
        assert(edge_order.contains(eid));
        lemma_expired_ends_told(manager, store.undo, commits, Map::empty(), 0, eid);
    }
}

proof fn lemma_noted_ends_told(
    undo: Map<u64, UndoView>,
    keys: Seq<u64>,
    expired: Map<EdgeId, ExpiredEdge>,
    i: int,
    eid: EdgeId,
)
    requires
        0 <= i <= keys.len(),
        noted_all(undo, keys, expired, i).contains_key(eid),
    ensures
        ({
            let ends = noted_all(undo, keys, expired, i)[eid];
            (expired.contains_key(eid) && expired[eid] == ends) || exists|k: int|
                i <= k < keys.len() && undo.contains_key(#[trigger] keys[k]) && (
                undo[keys[k]].delta matches DeltaView::CreateEdge(edge) && edge.src_id
                    == ends.src_id && edge.dst_id == ends.dst_id)
        }),
    decreases keys.len() - i,
{
    if i < keys.len() {
        let next = if undo.contains_key(keys[i]) {
            noted(expired, undo[keys[i]].delta)
        } else {
            expired
        };
        lemma_noted_ends_told(undo, keys, next, i + 1, eid);
    }
}

proof fn lemma_expired_ends_told(
    manager: ManagerView,
    undo: Map<u64, UndoView>,
    commits: Seq<u64>,
    expired: Map<EdgeId, ExpiredEdge>,
    i: int,
    eid: EdgeId,
)
    requires
        0 <= i <= commits.len(),
        expired_edges(manager, undo, commits, expired, i).contains_key(eid),
    ensures
        ({
            let ends = expired_edges(manager, undo, commits, expired, i)[eid];
            (expired.contains_key(eid) && expired[eid] == ends) || exists|
                n: int,
                k: int,
                edge: EdgeView,
            | #[trigger]
                tells(manager, undo, commits, n, k, DeltaView::CreateEdge(edge)) && edge.src_id
                    == ends.src_id && edge.dst_id == ends.dst_id
        }),
    decreases commits.len() - i,
{
    if i < commits.len() && commits[i] < manager.watermark {
        let keys = manager.committed_undo[commits[i]];
        let next = noted_all(undo, keys, expired, 0);
        let ends = expired_edges(manager, undo, commits, expired, i)[eid];
        lemma_expired_ends_told(manager, undo, commits, next, i + 1, eid);
        if next.contains_key(eid) && next[eid] == ends {
            lemma_noted_ends_told(undo, keys, expired, 0, eid);
            if !(expired.contains_key(eid) && expired[eid] == ends) {
                let k = choose|k: int|
                    0 <= k < keys.len() && undo.contains_key(#[trigger] keys[k]) && (
                    undo[keys[k]].delta matches DeltaView::CreateEdge(edge) && edge.src_id
                        == ends.src_id && edge.dst_id == ends.dst_id);
                let edge = undo[keys[k]].delta->CreateEdge_0;
                assert(tells(manager, undo, commits, i, k, DeltaView::CreateEdge(edge)));
            }
        }
    }
}

/// Ending a transaction succeeds exactly where it is active, and else fails because it is not found.
pub proof fn law_finish_active_only(
    manager: ManagerView,
    store: StoreView,
    txn: TxnView,
    manager_after: ManagerView,
    store_after: StoreView,
    result: Result<(), ErrorView>,
)
    requires
        finishes(manager, store, txn, manager_after, store_after, result),
    ensures
        result is Ok <==> manager.active.contains_key(txn.txn_id.0),
        result matches Err(error) ==> error is TransactionNotFound,
        !manager_after.active.contains_key(txn.txn_id.0),
{
    if manager.active.contains_key(txn.txn_id.0) {
        law_finished_is_over(manager, txn);
        if txn.commit_ts is Some {
            law_collection_when_due(manager.finished(txn), store, manager_after, store_after);
        }
    } else {
        law_collection_when_due(manager, store, manager_after, store_after);
    }
}

/// Where the log fails, nothing is asked of it behind the failure: every entry before was taken, in
/// their order, and the last thing asked is the one that failed.
pub proof fn law_log_stops_at_failure(
    entries: Seq<RedoView>,
    events: Seq<Event>,
    error: ErrorView,
)
    requires
        logs(entries, events, Err(error)),
    ensures
        0 < events.len() <= entries.len() + 1,
        forall|i: int|
            0 <= i < events.len() - 1 ==> #[trigger] events[i] == Event::Append(
                entries[i],
                Ok(()),
            ),
        events.len() <= entries.len() ==> events.last() == Event::Append(
            entries[events.len() - 1],
            Err::<(), ErrorView>(error),
        ) || events.last() == Event::Flush(Err(error)),
        events.len() == entries.len() + 1 ==> events.last() == Event::Flush(Err(error)),
{
    if !appends(entries, events, Err(error)) {
        let given = events.drop_last();
        assert(appends(entries, given, Ok(())));
        assert forall|i: int| 0 <= i < events.len() - 1 implies #[trigger] events[i]
            == Event::Append(entries[i], Ok(())) by {
            assert(given[i] == events[i]);
        }
    }
}

/// A manager starts without transactions. The identifiers of transactions start in the upper half of
/// all numbers, behind the first of it, and commit timestamps start at one, so that the one is never
/// taken for the other before half of all numbers were handed out.
pub proof fn law_first_numbers()
    ensures
        ({
            let first = ManagerView::initial();
            &&& forall|id: u64| !(#[trigger] first.active.contains_key(id))
            &&& forall|ts: u64| !(#[trigger] first.committed.contains_key(ts))
            &&& forall|ts: u64| !(#[trigger] first.committed_undo.contains_key(ts))
            &&& first.txn_id_counter == 0x8000_0000_0000_0001
            &&& first.commit_ts_counter == 1
            &&& first.latest_commit_ts == 0 && first.watermark == 0 && first.last_gc_ts == 0
        }),
{
}

} // verus!
