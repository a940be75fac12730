//! Transactions: read sets, undo entries, commit and abort.

use vstd::prelude::*;

#[allow(unused_imports)]
use super::checkpoint::recovery::auto_checks;
#[allow(unused_imports)]
use super::gc::collects_periodically;
use super::manager::{ManagerView, MemTxnManager};
use super::memory_graph::{GraphView, MemoryGraph};
#[allow(unused_imports)]
use super::model::{
    props_after, props_fit, DeltaView, EdgeVersion, EdgeView, OperationView, PropsView, RedoView,
    StoreView, UndoView, VertexVersion, VertexView,
};
use super::model::{
    set_props, DeltaOp, GraphStore, IsolationLevel, Operation, RedoEntry, Timestamp, UndoPtr,
};
#[allow(unused_imports)]
use super::outside::{
    asked, goes_on, lemma_further, lemma_nothing, lemma_once, lemma_one_more, Event,
};
use super::outside::Outside;
use super::read_set::ReadSet;
use crate::collections::skip::{skip_map_insert, skip_map_remove};
use crate::common::text::{decimal, with_number};
#[allow(unused_imports)]
use crate::common::text::digits;
use crate::common::types::{EdgeId, VertexId};
#[allow(unused_imports)]
use crate::storage::error::ErrorView;
use crate::storage::error::{
    edge_not_found, vertex_not_found, StorageError, StorageResult, TransactionError,
};

verus! {

/// A transaction.
pub struct MemTransaction {
    /// How far the transaction is kept apart from others.
    pub isolation_level: IsolationLevel,
    /// When it started.
    pub start_ts: Timestamp,
    /// When it was committed.
    pub commit_ts: Option<Timestamp>,
    /// Its identifier.
    pub txn_id: Timestamp,
    /// The vertices that it read.
    pub vertex_reads: ReadSet,
    /// The edges that it read.
    pub edge_reads: ReadSet,
    /// The places of its undo entries.
    pub undo_buffer: Vec<u64>,
    /// Its entries for the write-ahead log.
    pub redo_buffer: Vec<RedoEntry>,
}

/// What a transaction is.
pub struct TxnView {
    /// How far the transaction is kept apart from others.
    pub isolation_level: IsolationLevel,
    /// When it started.
    pub start_ts: Timestamp,
    /// When it was committed.
    pub commit_ts: Option<Timestamp>,
    /// Its identifier.
    pub txn_id: Timestamp,
    /// The vertices that it read.
    pub vertex_reads: Set<VertexId>,
    /// The edges that it read.
    pub edge_reads: Set<EdgeId>,
    /// The places of its undo entries.
    pub undo: Seq<u64>,
    /// Its entries for the write-ahead log.
    pub redo: Seq<RedoView>,
}

/// What entries of the write-ahead log are.
pub open spec fn redo_view(entries: Seq<RedoEntry>) -> Seq<RedoView> {
    entries.map_values(|entry: RedoEntry| entry@)
}

impl View for MemTransaction {
    type V = TxnView;

    open spec fn view(&self) -> TxnView {
        TxnView {
            isolation_level: self.isolation_level,
            start_ts: self.start_ts,
            commit_ts: self.commit_ts,
            txn_id: self.txn_id,
            vertex_reads: self.vertex_reads@,
            edge_reads: self.edge_reads@,
            undo: self.undo_buffer@,
            redo: redo_view(self.redo_buffer@),
        }
    }
}

/// The text of a timestamp.
pub open spec fn timestamp_text(ts: Timestamp) -> Seq<char> {
    "Timestamp("@ + digits(ts.0 as nat) + ")"@
}

/// What an operation came to.
pub open spec fn outcome(result: StorageResult<()>) -> Result<(), ErrorView> {
    match result {
        Ok(_) => Ok(()),
        Err(error) => Err(error@),
    }
}

/// Whether a version was written by another transaction after a transaction started.
pub open spec fn modified_since(commit_ts: Timestamp, txn: TxnView) -> bool {
    commit_ts != txn.txn_id && commit_ts.0 > txn.start_ts.0
}

/// Why a vertex that was read stands against a commit, if it does.
pub open spec fn vertex_conflict(store: StoreView, txn: TxnView, vid: VertexId) -> Option<
    ErrorView,
> {
    if !store.vertices.contains_key(vid) {
        Some(ErrorView::VertexNotFound(digits(vid as nat)))
    } else if modified_since(store.vertices[vid].commit_ts, txn) {
        Some(
            ErrorView::ReadWriteConflict(
                "Vertex is being modified by transaction "@ + timestamp_text(
                    store.vertices[vid].commit_ts,
                ),
            ),
        )
    } else {
        None
    }
}

/// Why an edge that was read stands against a commit, if it does.
pub open spec fn edge_conflict(store: StoreView, txn: TxnView, eid: EdgeId) -> Option<ErrorView> {
    if !store.edges.contains_key(eid) {
        Some(ErrorView::EdgeNotFound(digits(eid as nat)))
    } else if modified_since(store.edges[eid].commit_ts, txn) {
        Some(
            ErrorView::ReadWriteConflict(
                "Edge is being modified by transaction "@ + timestamp_text(
                    store.edges[eid].commit_ts,
                ),
            ),
        )
    } else {
        None
    }
}

/// Whether nothing that was read stands against a commit.
pub open spec fn reads_valid(store: StoreView, txn: TxnView) -> bool {
    &&& forall|vid: VertexId| #[trigger]
        txn.vertex_reads.contains(vid) ==> vertex_conflict(store, txn, vid) is None
    &&& forall|eid: EdgeId| #[trigger]
        txn.edge_reads.contains(eid) ==> edge_conflict(store, txn, eid) is None
}

/// Whether an error is one that stands against a commit. Vertices go before edges.
pub open spec fn read_error(store: StoreView, txn: TxnView, error: ErrorView) -> bool {
    ||| exists|vid: VertexId| #[trigger]
        txn.vertex_reads.contains(vid) && vertex_conflict(store, txn, vid) == Some(error)
    ||| {
        &&& forall|vid: VertexId| #[trigger]
            txn.vertex_reads.contains(vid) ==> vertex_conflict(store, txn, vid) is None
        &&& exists|eid: EdgeId| #[trigger]
            txn.edge_reads.contains(eid) && edge_conflict(store, txn, eid) == Some(error)
    }
}

/// The text of a timestamp, behind another text.
fn with_timestamp(before: &str, ts: Timestamp) -> (text: String)
    ensures
        text@ == before@ + timestamp_text(ts),
{
    let mut text = before.to_string();
    let number = with_number("Timestamp(", ts.0, ")");
    text.append(number.as_str());
    text
}

impl ManagerView {
    /// The manager after an active transaction is over.
    pub open spec fn finished(self, txn: TxnView) -> ManagerView {
        let over = ManagerView { active: self.active.remove(txn.txn_id.0), ..self };
        match txn.commit_ts {
            Some(ts) => ManagerView {
                committed: over.committed.insert(ts.0, txn.txn_id.0),
                committed_undo: over.committed_undo.insert(ts.0, txn.undo),
                ..over
            },
            None => over,
        }.with_watermark()
    }
}

/// Whether ending a transaction leads from one state to another. Garbage is collected after a
/// commit. A transaction that is not active is an error, and an occasion to collect garbage too.
pub open spec fn finishes(
    manager: ManagerView,
    store: StoreView,
    txn: TxnView,
    manager_after: ManagerView,
    store_after: StoreView,
    result: Result<(), ErrorView>,
) -> bool {
    if manager.active.contains_key(txn.txn_id.0) {
        &&& result is Ok
        &&& if txn.commit_ts is Some {
            collects_periodically(manager.finished(txn), store, manager_after, store_after)
        } else {
            manager_after == manager.finished(txn) && store_after == store
        }
    } else {
        &&& result == Err::<(), ErrorView>(
            ErrorView::TransactionNotFound(timestamp_text(txn.txn_id)),
        )
        &&& collects_periodically(manager, store, manager_after, store_after)
    }
}

impl MemTxnManager {
    /// Ends a transaction.
    pub fn finish_transaction(&mut self, store: &mut GraphStore, txn: &MemTransaction) -> (result:
        StorageResult<()>)
        requires
            old(self).wf(),
            old(store).wf(),
        ensures
            final(self).wf(),
            final(store).wf(),
            finishes(
                old(self)@,
                old(store)@,
                txn@,
                final(self)@,
                final(store)@,
                outcome(result),
            ),
    {
        let removed = skip_map_remove(&mut self.active_txns, txn.txn_id.0);
        if removed.is_some() {
            if let Some(commit_ts) = txn.commit_ts {
                let ghost before = self@;
                skip_map_insert(&mut self.committed_txns, commit_ts.0, txn.txn_id.0);
                let undo = txn.undo_buffer.clone();
                self.committed_undo.insert(commit_ts.0, undo);
                proof {
                    assert(undo@ =~= txn.undo_buffer@);
                    assert(self@.committed_undo =~= before.committed_undo.insert(
                        commit_ts.0,
                        txn@.undo,
                    ));
                    assert(self@.committed_undo.dom() =~= self@.committed.dom());
                }
            }
            self.update_watermark();
            assert(self@ == old(self)@.finished(txn@));
            if txn.commit_ts.is_some() {
                return self.periodic_garbage_collect(store);
            }
            return Ok(());
        }
        proof {
            assert(self@.active =~= old(self)@.active);
        }
        match self.periodic_garbage_collect(store) {
            Ok(_) => {},
            Err(error) => {
                return Err(error);
            },
        }
        Err(
            StorageError::Transaction(
                TransactionError::TransactionNotFound(with_number("Timestamp(", txn.txn_id.0, ")")),
            ),
        )
    }
}

/// Whether an undo entry's change can be stamped: what it changes is there.
pub open spec fn stampable(store: StoreView, delta: DeltaView) -> bool {
    match delta {
        DeltaView::DelVertex(vid) => store.vertices.contains_key(vid),
        DeltaView::CreateVertex(vertex) => store.vertices.contains_key(vertex.vid),
        DeltaView::SetVertexProps(vid, _) => store.vertices.contains_key(vid),
        DeltaView::DelEdge(eid) => store.edges.contains_key(eid),
        DeltaView::CreateEdge(edge) => store.edges.contains_key(edge.eid),
        DeltaView::SetEdgeProps(eid, _) => store.edges.contains_key(eid),
        DeltaView::AddLabel(_) => false,
        DeltaView::RemoveLabel(_) => false,
    }
}

/// The graph with a vertex's version stamped with a commit timestamp.
pub open spec fn vertex_stamped(store: StoreView, vid: VertexId, ts: Timestamp) -> StoreView {
    StoreView {
        vertices: store.vertices.insert(
            vid,
            VertexVersion { commit_ts: ts, ..store.vertices[vid] },
        ),
        ..store
    }
}

/// The graph with an edge's version stamped with a commit timestamp.
pub open spec fn edge_stamped(store: StoreView, eid: EdgeId, ts: Timestamp) -> StoreView {
    StoreView {
        edges: store.edges.insert(eid, EdgeVersion { commit_ts: ts, ..store.edges[eid] }),
        ..store
    }
}

/// The graph with what a change wrote stamped with a commit timestamp.
pub open spec fn stamped(store: StoreView, delta: DeltaView, ts: Timestamp) -> StoreView {
    match delta {
        DeltaView::DelVertex(vid) => vertex_stamped(store, vid, ts),
        DeltaView::CreateVertex(vertex) => vertex_stamped(store, vertex.vid, ts),
        DeltaView::SetVertexProps(vid, _) => vertex_stamped(store, vid, ts),
        DeltaView::DelEdge(eid) => edge_stamped(store, eid, ts),
        DeltaView::CreateEdge(edge) => edge_stamped(store, edge.eid, ts),
        DeltaView::SetEdgeProps(eid, _) => edge_stamped(store, eid, ts),
        _ => store,
    }
}

/// The graph with what the changes from the `i`th on wrote stamped with a commit timestamp.
pub open spec fn all_stamped(store: StoreView, keys: Seq<u64>, ts: Timestamp, i: int) -> StoreView
    decreases keys.len() - i,
{
    if i < 0 || i >= keys.len() {
        store
    } else {
        all_stamped(stamped(store, store.undo[keys[i]].delta, ts), keys, ts, i + 1)
    }
}

/// Whether all changes of a transaction can be stamped.
pub open spec fn all_stampable(store: StoreView, keys: Seq<u64>) -> bool {
    forall|i: int|
        0 <= i < keys.len() ==> store.undo.contains_key(#[trigger] keys[i]) && stampable(
            store,
            store.undo[keys[i]].delta,
        )
}

/// Whether an undo entry can be undone: the properties that it sets are there.
pub open spec fn undoable(store: StoreView, entry: UndoView, txn_id: Timestamp) -> bool {
    match entry.delta {
        DeltaView::SetVertexProps(vid, op) => store.vertices.contains_key(vid)
            && store.vertices[vid].commit_ts == txn_id ==> props_fit(
            store.vertices[vid].data.properties,
            op,
        ),
        DeltaView::SetEdgeProps(eid, op) => store.edges.contains_key(eid)
            && store.edges[eid].commit_ts == txn_id ==> props_fit(
            store.edges[eid].data.properties,
            op,
        ),
        DeltaView::AddLabel(_) => false,
        DeltaView::RemoveLabel(_) => false,
        _ => true,
    }
}

/// The graph with a vertex taken back to the version before, if the transaction wrote it.
pub open spec fn vertex_undone(
    store: StoreView,
    vid: VertexId,
    data: VertexView,
    entry: UndoView,
    txn_id: Timestamp,
) -> StoreView {
    if store.vertices.contains_key(vid) && store.vertices[vid].commit_ts == txn_id {
        StoreView {
            vertices: store.vertices.insert(
                vid,
                VertexVersion { data, commit_ts: entry.timestamp, undo_ptr: entry.next },
            ),
            ..store
        }
    } else {
        store
    }
}

/// The graph with an edge taken back to the version before, if the transaction wrote it.
pub open spec fn edge_undone(
    store: StoreView,
    eid: EdgeId,
    data: EdgeView,
    entry: UndoView,
    txn_id: Timestamp,
) -> StoreView {
    if store.edges.contains_key(eid) && store.edges[eid].commit_ts == txn_id {
        StoreView {
            edges: store.edges.insert(
                eid,
                EdgeVersion { data, commit_ts: entry.timestamp, undo_ptr: entry.next },
            ),
            ..store
        }
    } else {
        store
    }
}

/// The graph after an undo entry was applied.
pub open spec fn undone(store: StoreView, entry: UndoView, txn_id: Timestamp) -> StoreView {
    match entry.delta {
        DeltaView::CreateVertex(vertex) => vertex_undone(
            store,
            vertex.vid,
            VertexView { is_tombstone: false, ..vertex },
            entry,
            txn_id,
        ),
        DeltaView::CreateEdge(edge) => edge_undone(
            store,
            edge.eid,
            EdgeView { is_tombstone: false, ..edge },
            entry,
            txn_id,
        ),
        DeltaView::SetVertexProps(vid, op) => vertex_undone(
            store,
            vid,
            VertexView {
                properties: props_after(store.vertices[vid].data.properties, op),
                ..store.vertices[vid].data
            },
            entry,
            txn_id,
        ),
        DeltaView::SetEdgeProps(eid, op) => edge_undone(
            store,
            eid,
            EdgeView {
                properties: props_after(store.edges[eid].data.properties, op),
                ..store.edges[eid].data
            },
            entry,
            txn_id,
        ),
        DeltaView::DelVertex(vid) => vertex_undone(
            store,
            vid,
            VertexView { is_tombstone: true, ..store.vertices[vid].data },
            entry,
            txn_id,
        ),
        DeltaView::DelEdge(eid) => edge_undone(
            store,
            eid,
            EdgeView { is_tombstone: true, ..store.edges[eid].data },
            entry,
            txn_id,
        ),
        _ => store,
    }
}

/// The graph after the first `n` undo entries were applied, the newest first.
pub open spec fn all_undone(
    store: StoreView,
    keys: Seq<u64>,
    txn_id: Timestamp,
    n: int,
) -> StoreView
    decreases n,
{
    if n <= 0 || n > keys.len() {
        store
    } else {
        all_undone(undone(store, store.undo[keys[n - 1]], txn_id), keys, txn_id, n - 1)
    }
}

/// Whether the first `n` undo entries can be applied, the newest first.
pub open spec fn all_undoable(store: StoreView, keys: Seq<u64>, txn_id: Timestamp, n: int) -> bool
    decreases n,
{
    if n <= 0 || n > keys.len() {
        true
    } else {
        &&& store.undo.contains_key(keys[n - 1])
        &&& undoable(store, store.undo[keys[n - 1]], txn_id)
        &&& all_undoable(undone(store, store.undo[keys[n - 1]], txn_id), keys, txn_id, n - 1)
    }
}

/// Whether the changes of a transaction can be undone.
pub open spec fn can_undo(store: StoreView, txn: TxnView) -> bool {
    all_undoable(store, txn.undo, txn.txn_id, txn.undo.len() as int)
}

impl GraphStore {
    /// Stamps a vertex's version.
    fn stamp_vertex(&mut self, vid: VertexId, ts: Timestamp)
        requires
            old(self).wf(),
            old(self)@.vertices.contains_key(vid),
        ensures
            final(self).wf(),
            final(self)@ == vertex_stamped(old(self)@, vid, ts),
    {
        if let Some(vertex) = self.vertices.get_mut(vid) {
            vertex.commit_ts = ts;
        }
        assert(self@.vertices =~= vertex_stamped(old(self)@, vid, ts).vertices);
    }

    /// Stamps an edge's version.
    fn stamp_edge(&mut self, eid: EdgeId, ts: Timestamp)
        requires
            old(self).wf(),
            old(self)@.edges.contains_key(eid),
        ensures
            final(self).wf(),
            final(self)@ == edge_stamped(old(self)@, eid, ts),
    {
        if let Some(edge) = self.edges.get_mut(eid) {
            edge.commit_ts = ts;
        }
        assert(self@.edges =~= edge_stamped(old(self)@, eid, ts).edges);
    }

    /// Stamps what a transaction wrote with its commit timestamp.
    fn stamp_all(&mut self, keys: &Vec<u64>, ts: Timestamp)
        requires
            old(self).wf(),
            all_stampable(old(self)@, keys@),
        ensures
            final(self).wf(),
            final(self)@ == all_stamped(old(self)@, keys@, ts, 0),
    {
        for i in 0..keys.len()
            invariant
                self.wf(),
                all_stampable(self@, keys@),
                all_stamped(old(self)@, keys@, ts, 0) == all_stamped(self@, keys@, ts, i as int),
        {
            let ghost before = self@;
            let ghost key = keys@[i as int];
            assert(self@.undo.contains_key(key));
            let target = match self.undo_log.get(keys[i]) {
                Some(entry) => {
                    assert(entry@ == before.undo[key]);
                    match entry.delta() {
                        DeltaOp::DelVertex(vid) => (true, *vid),
                        DeltaOp::CreateVertex(vertex) => (true, vertex.vid),
                        DeltaOp::SetVertexProps(vid, _) => (true, *vid),
                        DeltaOp::DelEdge(eid) => (false, *eid),
                        DeltaOp::CreateEdge(edge) => (false, edge.eid),
                        DeltaOp::SetEdgeProps(eid, _) => (false, *eid),
                        DeltaOp::AddLabel(_) => (false, 0),
                        DeltaOp::RemoveLabel(_) => (false, 0),
                    }
                },
                None => (false, 0),
            };
            assert(stampable(before, before.undo[key].delta));
            if target.0 {
                self.stamp_vertex(target.1, ts);
            } else {
                self.stamp_edge(target.1, ts);
            }
            assert(self@ == stamped(before, before.undo[key].delta, ts));
            assert(all_stampable(self@, keys@)) by {
                assert forall|j: int| 0 <= j < keys@.len() implies self@.undo.contains_key(
                    #[trigger] keys@[j],
                ) && stampable(self@, self@.undo[keys@[j]].delta) by {
                    assert(stampable(before, before.undo[keys@[j]].delta));
                }
            }
        }
    }

    /// Applies an undo entry.
    fn undo_entry(&mut self, key: u64, txn_id: Timestamp)
        requires
            old(self).wf(),
            old(self)@.undo.contains_key(key),
            undoable(old(self)@, old(self)@.undo[key], txn_id),
        ensures
            final(self).wf(),
            final(self)@ == undone(old(self)@, old(self)@.undo[key], txn_id),
    {
        let ghost start = self@;
        if let Some(entry) = self.undo_log.get(key) {
            assert(entry@ == start.undo[key]);
            let commit_ts = entry.timestamp();
            let next: UndoPtr = entry.next();
            match entry.delta() {
                DeltaOp::CreateVertex(vertex) => {
                    if let Some(current) = self.vertices.get_mut(vertex.vid) {
                        if current.commit_ts == txn_id {
                            current.data = vertex.duplicate();
                            current.data.is_tombstone = false;
                            current.commit_ts = commit_ts;
                            current.undo_ptr = next;
                        }
                    }
                },
                DeltaOp::CreateEdge(edge) => {
                    if let Some(current) = self.edges.get_mut(edge.eid) {
                        if current.commit_ts == txn_id {
                            current.data = edge.duplicate();
                            current.data.is_tombstone = false;
                            current.commit_ts = commit_ts;
                            current.undo_ptr = next;
                        }
                    }
                },
                DeltaOp::SetVertexProps(vid, op) => {
                    if let Some(current) = self.vertices.get_mut(*vid) {
                        if current.commit_ts == txn_id {
                            set_props(&mut current.data.properties, op);
                            current.commit_ts = commit_ts;
                            current.undo_ptr = next;
                        }
                    }
                },
                DeltaOp::SetEdgeProps(eid, op) => {
                    if let Some(current) = self.edges.get_mut(*eid) {
                        if current.commit_ts == txn_id {
                            set_props(&mut current.data.properties, op);
                            current.commit_ts = commit_ts;
                            current.undo_ptr = next;
                        }
                    }
                },
                DeltaOp::DelVertex(vid) => {
                    if let Some(current) = self.vertices.get_mut(*vid) {
                        if current.commit_ts == txn_id {
                            current.data.is_tombstone = true;
                            current.commit_ts = commit_ts;
                            current.undo_ptr = next;
                        }
                    }
                },
                DeltaOp::DelEdge(eid) => {
                    if let Some(current) = self.edges.get_mut(*eid) {
                        if current.commit_ts == txn_id {
                            current.data.is_tombstone = true;
                            current.commit_ts = commit_ts;
                            current.undo_ptr = next;
                        }
                    }
                },
                DeltaOp::AddLabel(_) => {},
                DeltaOp::RemoveLabel(_) => {},
            }
        }
        assert(self@.vertices =~= undone(start, start.undo[key], txn_id).vertices);
        assert(self@.edges =~= undone(start, start.undo[key], txn_id).edges);
    }

    /// Applies the undo entries of a transaction, the newest first.
    fn undo_all(&mut self, keys: &Vec<u64>, txn_id: Timestamp)
        requires
            old(self).wf(),
            all_undoable(old(self)@, keys@, txn_id, keys@.len() as int),
        ensures
            final(self).wf(),
            final(self)@ == all_undone(old(self)@, keys@, txn_id, keys@.len() as int),
    {
        let mut n: usize = keys.len();
        while n > 0
            invariant
                n <= keys@.len(),
                self.wf(),
                all_undoable(self@, keys@, txn_id, n as int),
                all_undone(old(self)@, keys@, txn_id, keys@.len() as int) == all_undone(
                    self@,
                    keys@,
                    txn_id,
                    n as int,
                ),
            decreases n,
        {
            n = n - 1;
            self.undo_entry(keys[n], txn_id);
        }
    }
}

/// The undo entries that a reader goes through from a place on: back to the first whose version
/// was committed before the reader started, or to where the chain ends.
pub open spec fn read_chain(undo: Map<u64, UndoView>, ptr: UndoPtr, start_ts: Timestamp) -> Seq<u64>
    decreases
            match ptr {
                Some(key) => key + 1,
                None => 0,
            },
{
    match ptr {
        None => Seq::empty(),
        Some(key) => if !undo.contains_key(key) {
            Seq::empty()
        } else if undo[key].timestamp.0 < start_ts.0 {
            seq![key]
        } else {
            match undo[key].next {
                Some(next) => if next < key {
                    seq![key] + read_chain(undo, Some(next), start_ts)
                } else {
                    seq![key]
                },
                None => seq![key],
            }
        },
    }
}

/// Whether handing entries to the log, one after the other, asks and comes to that. The first entry
/// that is refused is the last that is handed over.
pub open spec fn appends(
    entries: Seq<RedoView>,
    events: Seq<Event>,
    result: Result<(), ErrorView>,
) -> bool {
    &&& events.len() <= entries.len()
    &&& forall|i: int|
        0 <= i < events.len() ==> #[trigger] events[i] == Event::Append(
            entries[i],
            if i + 1 == events.len() {
                result
            } else {
                Ok(())
            },
        )
    &&& result is Ok ==> events.len() == entries.len()
    &&& result is Err ==> events.len() > 0
}

/// Whether writing entries to the log asks and comes to that: they are handed over in their order,
/// and behind them the log is made safe.
pub open spec fn logs(
    entries: Seq<RedoView>,
    events: Seq<Event>,
    result: Result<(), ErrorView>,
) -> bool {
    ||| result is Err && appends(entries, events, result)
    ||| {
        &&& events.len() > 0
        &&& appends(entries, events.drop_last(), Ok(()))
        &&& events.last() == Event::Flush(result)
    }
}

proof fn lemma_appends_more(
    entries: Seq<RedoView>,
    events: Seq<Event>,
    entry: RedoView,
    result: Result<(), ErrorView>,
)
    requires
        appends(entries, events, Ok(())),
    ensures
        appends(entries.push(entry), events.push(Event::Append(entry, result)), result),
{
}

proof fn lemma_appends_refused(
    entries: Seq<RedoView>,
    rest: Seq<RedoView>,
    events: Seq<Event>,
    result: Result<(), ErrorView>,
)
    requires
        appends(entries, events, result),
        result is Err,
    ensures
        appends(entries + rest, events, result),
{
}

/// Hands entries to the log.
fn append_all<O: Outside>(out: &mut O, entries: &Vec<RedoEntry>) -> (result: StorageResult<()>)
    ensures
        goes_on(*old(out), *final(out)),
        appends(redo_view(entries@), asked(*old(out), *final(out)), outcome(result)),
{
    proof {
        lemma_nothing(*out);
        assert(redo_view(entries@).take(0) =~= Seq::empty());
    }
    for i in 0..entries.len()
        invariant
            goes_on(*old(out), *out),
            appends(
                redo_view(entries@).take(i as int),
                asked(*old(out), *out),
                Ok(()),
            ),
    {
        let ghost before = *out;
        let ghost all = redo_view(entries@);
        let answer = out.append(&entries[i]);
        proof {
            let event = Event::Append(entries@[i as int]@, outcome(answer));
            lemma_one_more(*old(out), before, *out, event);
            lemma_appends_more(
                all.take(i as int),
                asked(*old(out), before),
                all[i as int],
                outcome(answer),
            );
            assert(all.take(i + 1) =~= all.take(i as int).push(all[i as int]));
        }
        match answer {
            Ok(_) => {},
            Err(error) => {
                proof {
                    lemma_appends_refused(
                        all.take(i + 1),
                        all.skip(i + 1),
                        asked(*old(out), *out),
                        Err(error@),
                    );
                    assert(all.take(i + 1) + all.skip(i + 1) =~= all);
                }
                return Err(error);
            },
        }
    }
    assert(redo_view(entries@).take(entries@.len() as int) =~= redo_view(entries@));
    Ok(())
}

/// The entries of its own that a transaction hands to the log at its commit, with consecutive
/// positions.
pub open spec fn redo_entries(txn: TxnView, lsn: u64) -> Seq<RedoView> {
    Seq::new(
        txn.redo.len(),
        |i: int| RedoView { lsn: lsn.wrapping_add(i as u64), ..txn.redo[i] },
    )
}

/// The entry that a transaction hands to the log behind its own at its commit.
pub open spec fn commit_entries(txn: TxnView, ts: Timestamp, lsn: u64) -> Seq<RedoView> {
    seq![
        RedoView {
            lsn,
            txn_id: txn.txn_id,
            iso_level: txn.isolation_level,
            op: OperationView::CommitTransaction(ts),
        },
    ]
}

/// What a transaction hands to the log at its commit: its own entries, and then the commit.
pub open spec fn commit_log(txn: TxnView, ts: Timestamp, lsn: u64) -> Seq<RedoView> {
    redo_entries(txn, lsn) + commit_entries(txn, ts, lsn.wrapping_add(txn.redo.len() as u64))
}

/// The entry that a transaction hands to the log at its abort.
pub open spec fn abort_entries(txn: TxnView, lsn: u64) -> Seq<RedoView> {
    seq![
        RedoView {
            lsn,
            txn_id: txn.txn_id,
            iso_level: txn.isolation_level,
            op: OperationView::AbortTransaction,
        },
    ]
}

/// The graph after the undo entries of a transaction were applied and forgotten.
pub open spec fn rolled_back(store: StoreView, txn: TxnView) -> StoreView {
    let after = all_undone(store, txn.undo, txn.txn_id, txn.undo.len() as int);
    StoreView { undo: after.undo.remove_keys(txn.undo.to_set()), ..after }
}

/// Whether ending a transaction of a graph leads from one state to another.
pub open spec fn graph_finishes(
    graph: GraphView,
    txn: TxnView,
    graph_after: GraphView,
    result: Result<(), ErrorView>,
) -> bool {
    &&& graph_after == (GraphView {
        manager: graph_after.manager,
        store: graph_after.store,
        ..graph
    })
    &&& finishes(
        graph.manager,
        graph.store,
        txn,
        graph_after.manager,
        graph_after.store,
        result,
    )
}

/// Whether an abort leads from one state to another, and asks that of the world.
///
/// The changes are undone, the abort is logged, and the transaction is ended. Where the log
/// fails, the transaction is not ended.
pub open spec fn aborts(
    graph: GraphView,
    txn: TxnView,
    skip_wal: bool,
    events: Seq<Event>,
    graph_after: GraphView,
    txn_after: TxnView,
    result: Result<(), ErrorView>,
) -> bool {
    let undone = GraphView { store: rolled_back(graph.store, txn), ..graph };
    let logged = GraphView { next_lsn: graph.next_lsn.wrapping_add(1), ..undone };
    let entries = abort_entries(txn, graph.next_lsn);
    &&& txn_after == (TxnView { undo: Seq::empty(), ..txn })
    &&& if skip_wal {
        events.len() == 0 && graph_finishes(undone, txn_after, graph_after, result)
    } else {
        ||| result is Err && logs(entries, events, result) && graph_after == logged
        ||| logs(entries, events, Ok(())) && graph_finishes(logged, txn_after, graph_after, result)
    }
}

/// Whether a refused commit leads from one state to another: the transaction is aborted, and the
/// error is the abort's own, or else the reason of the refusal.
pub open spec fn refused(
    graph: GraphView,
    txn: TxnView,
    events: Seq<Event>,
    graph_after: GraphView,
    txn_after: TxnView,
    reason: ErrorView,
    error: ErrorView,
) -> bool {
    ||| aborts(graph, txn, false, events, graph_after, txn_after, Ok(())) && error == reason
    ||| aborts(graph, txn, false, events, graph_after, txn_after, Err(error))
}

/// Whether an accepted commit leads from one state to another, and asks that of the world.
///
/// What the transaction wrote is stamped with the commit timestamp, the redo entries are logged,
/// then the commit, and the transaction is ended. Where the log fails, the transaction is not
/// ended. The commit takes its position in the log only after the redo entries have been taken.
pub open spec fn accepted(
    graph: GraphView,
    txn: TxnView,
    ts: Timestamp,
    skip_wal: bool,
    events: Seq<Event>,
    graph_after: GraphView,
    txn_after: TxnView,
    result: Result<Timestamp, ErrorView>,
) -> bool {
    let stamped = GraphView { store: all_stamped(graph.store, txn.undo, ts, 0), ..graph };
    let lsn = graph.next_lsn.wrapping_add(txn.redo.len() as u64);
    let redone = GraphView { next_lsn: lsn, ..stamped };
    let logged = GraphView { next_lsn: lsn.wrapping_add(1), ..stamped };
    let before_end = if skip_wal {
        stamped
    } else {
        logged
    };
    let latest = GraphView {
        manager: ManagerView { latest_commit_ts: ts.0, ..before_end.manager },
        ..before_end
    };
    let entries = commit_log(txn, ts, graph.next_lsn);
    let ended = match result {
        Ok(_) => Ok::<(), ErrorView>(()),
        Err(error) => Err(error),
    };
    &&& result matches Ok(committed) ==> committed == ts
    &&& txn_after == (TxnView {
        commit_ts: Some(ts),
        redo: if skip_wal {
            txn.redo
        } else {
            Seq::empty()
        },
        ..txn
    })
    &&& if skip_wal {
        events.len() == 0 && graph_finishes(latest, txn_after, graph_after, ended)
    } else {
        ||| {
            &&& result is Err
            &&& logs(entries, events, ended)
            &&& graph_after == if events.len() <= txn.redo.len() {
                redone
            } else {
                logged
            }
        }
        ||| logs(entries, events, Ok(())) && graph_finishes(latest, txn_after, graph_after, ended)
    }
}

/// Whether a commit, up to where checkpoints are thought of, leads from one state to another, and
/// asks that of the world.
///
/// A commit timestamp is handed out in any case. A serializable transaction is refused where
/// something that it read stands against it, and every transaction is refused that has a commit
/// timestamp already.
pub open spec fn settles(
    graph: GraphView,
    txn: TxnView,
    commit_ts: Option<Timestamp>,
    skip_wal: bool,
    events: Seq<Event>,
    graph_after: GraphView,
    txn_after: TxnView,
    result: Result<Timestamp, ErrorView>,
) -> bool {
    let ts = graph.manager.next_commit_ts(commit_ts);
    let numbered = GraphView { manager: graph.manager.after_commit_ts(commit_ts), ..graph };
    if txn.isolation_level == IsolationLevel::Serializable && !reads_valid(graph.store, txn) {
        &&& result matches Err(error)
        &&& exists|reason: ErrorView| #[trigger]
            read_error(graph.store, txn, reason) && refused(
                numbered,
                txn,
                events,
                graph_after,
                txn_after,
                reason,
                error,
            )
    } else if txn.commit_ts is Some {
        &&& result matches Err(error)
        &&& refused(
            numbered,
            txn,
            events,
            graph_after,
            txn_after,
            ErrorView::TransactionAlreadyCommitted(timestamp_text(ts)),
            error,
        )
    } else {
        accepted(numbered, txn, ts, skip_wal, events, graph_after, txn_after, result)
    }
}

/// Whether a commit leads from one state to another, and asks that of the world: the transaction is
/// settled, and where that succeeds, an automatic checkpoint is made if it is time for one. The
/// error is that of the commit, or of the checkpoint behind it.
pub open spec fn commits(
    graph: GraphView,
    txn: TxnView,
    commit_ts: Option<Timestamp>,
    skip_wal: bool,
    events: Seq<Event>,
    graph_after: GraphView,
    txn_after: TxnView,
    result: Result<Timestamp, ErrorView>,
) -> bool {
    exists|between: GraphView, settled: Result<Timestamp, ErrorView>, n: int| #[trigger]
        settles(
            graph,
            txn,
            commit_ts,
            skip_wal,
            events.take(n),
            between,
            txn_after,
            settled,
        ) && 0 <= n <= events.len() && match settled {
            Err(_) => n == events.len() && graph_after == between && result == settled,
            Ok(_) => exists|made: Result<Option<Seq<char>>, ErrorView>| #[trigger]
                auto_checks(between, events.skip(n), graph_after, made) && result == match made {
                    Ok(_) => settled,
                    Err(error) => Err(error),
                },
        }
}

/// What a commit came to.
pub open spec fn commit_outcome(result: StorageResult<Timestamp>) -> Result<Timestamp, ErrorView> {
    match result {
        Ok(ts) => Ok(ts),
        Err(error) => Err(error@),
    }
}

/// Whether a commit or an abort of a transaction is possible: its undo entries are there, and what
/// they change is.
pub open spec fn txn_ok(graph: GraphView, txn: TxnView) -> bool {
    &&& all_stampable(graph.store, txn.undo)
    &&& can_undo(graph.store, txn)
}

impl MemTransaction {
    /// A transaction that has not done anything yet.
    pub fn with_memgraph(
        txn_id: Timestamp,
        start_ts: Timestamp,
        isolation_level: IsolationLevel,
    ) -> (txn: Self)
        ensures
            txn@ == (TxnView {
                isolation_level,
                start_ts,
                commit_ts: None,
                txn_id,
                vertex_reads: Set::empty(),
                edge_reads: Set::empty(),
                undo: Seq::empty(),
                redo: Seq::empty(),
            }),
    {
        let txn = MemTransaction {
            isolation_level,
            start_ts,
            commit_ts: None,
            txn_id,
            vertex_reads: ReadSet::new(),
            edge_reads: ReadSet::new(),
            undo_buffer: Vec::new(),
            redo_buffer: Vec::new(),
        };
        assert(txn@.redo =~= Seq::empty());
        assert(txn@.undo =~= Seq::empty());
        txn
    }

    /// Looks for something that was read and stands against a commit: it is gone, or another
    /// transaction has modified it since this one started. Which of several is reported is left
    /// open, but vertices go before edges.
    pub fn validate_read_sets(&self, store: &GraphStore) -> (result: StorageResult<()>)
        requires
            store.wf(),
        ensures
            match result {
                Ok(_) => reads_valid(store@, self@),
                Err(error) => !reads_valid(store@, self@) && read_error(store@, self@, error@),
            },
    {
        let vertices = self.vertex_reads.ids();
        for i in 0..vertices.len()
            invariant
                store.wf(),
                forall|key: u64| #[trigger]
                    vertices@.contains(key) <==> self@.vertex_reads.contains(key),
                forall|j: int|
                    0 <= j < i ==> vertex_conflict(store@, self@, #[trigger] vertices@[j]) is None,
        {
            let vid = vertices[i];
            assert(self@.vertex_reads.contains(vertices@[i as int])) by {
                assert(vertices@.contains(vertices@[i as int]));
            }
            match store.vertices.get(vid) {
                None => {
                    return Err(vertex_not_found(decimal(vid)));
                },
                Some(current) => {
                    assert(store@.vertices[vid] == current@);
                    if current.commit_ts != self.txn_id && current.commit_ts.0 > self.start_ts.0 {
                        return Err(
                            StorageError::Transaction(
                                TransactionError::ReadWriteConflict(
                                    with_timestamp(
                                        "Vertex is being modified by transaction ",
                                        current.commit_ts,
                                    ),
                                ),
                            ),
                        );
                    }
                },
            }
        }
        assert forall|vid: VertexId| #[trigger]
            self@.vertex_reads.contains(vid) implies vertex_conflict(store@, self@, vid) is None by {
            assert(vertices@.contains(vid));
            let j = choose|j: int| 0 <= j < vertices@.len() && vertices@[j] == vid;
            assert(vertex_conflict(store@, self@, vertices@[j]) is None);
        }
        let edges = self.edge_reads.ids();
        for i in 0..edges.len()
            invariant
                store.wf(),
                forall|vid: VertexId| #[trigger]
                    self@.vertex_reads.contains(vid) ==> vertex_conflict(store@, self@, vid)
                        is None,
                forall|key: u64| #[trigger]
                    edges@.contains(key) <==> self@.edge_reads.contains(key),
                forall|j: int|
                    0 <= j < i ==> edge_conflict(store@, self@, #[trigger] edges@[j]) is None,
        {
            let eid = edges[i];
            assert(self@.edge_reads.contains(edges@[i as int])) by {
                assert(edges@.contains(edges@[i as int]));
            }
            match store.edges.get(eid) {
                None => {
                    return Err(edge_not_found(decimal(eid)));
                },
                Some(current) => {
                    assert(store@.edges[eid] == current@);
                    if current.commit_ts != self.txn_id && current.commit_ts.0 > self.start_ts.0 {
                        return Err(
                            StorageError::Transaction(
                                TransactionError::ReadWriteConflict(
                                    with_timestamp(
                                        "Edge is being modified by transaction ",
                                        current.commit_ts,
                                    ),
                                ),
                            ),
                        );
                    }
                },
            }
        }
        assert forall|eid: EdgeId| #[trigger]
            self@.edge_reads.contains(eid) implies edge_conflict(store@, self@, eid) is None by {
            assert(edges@.contains(eid));
            let j = choose|j: int| 0 <= j < edges@.len() && edges@[j] == eid;
            assert(edge_conflict(store@, self@, edges@[j]) is None);
        }
        Ok(())
    }

    /// When the transaction started.
    pub fn start_ts(&self) -> (start_ts: Timestamp)
        ensures
            start_ts == self@.start_ts,
    {
        self.start_ts
    }

    /// The identifier.
    pub fn txn_id(&self) -> (txn_id: Timestamp)
        ensures
            txn_id == self@.txn_id,
    {
        self.txn_id
    }

    /// The vertices that were read, each once, in no particular order.
    pub fn vertex_reads(&self) -> (reads: Vec<VertexId>)
        ensures
            reads@.no_duplicates(),
            reads@.to_set() == self@.vertex_reads,
    {
        let reads = self.vertex_reads.ids();
        assert(reads@.to_set() =~= self@.vertex_reads);
        reads
    }

    /// The edges that were read, each once, in no particular order.
    pub fn edge_reads(&self) -> (reads: Vec<EdgeId>)
        ensures
            reads@.no_duplicates(),
            reads@.to_set() == self@.edge_reads,
    {
        let reads = self.edge_reads.ids();
        assert(reads@.to_set() =~= self@.edge_reads);
        reads
    }

    /// How far the transaction is kept apart from others.
    pub fn isolation_level(&self) -> (level: &IsolationLevel)
        ensures
            *level == self@.isolation_level,
    {
        &self.isolation_level
    }

    /// Notes that a vertex was read.
    pub fn note_vertex_read(&mut self, vid: VertexId)
        ensures
            final(self)@ == (TxnView {
                vertex_reads: old(self)@.vertex_reads.insert(vid),
                ..old(self)@
            }),
    {
        self.vertex_reads.note(vid);
    }

    /// Notes that an edge was read.
    pub fn note_edge_read(&mut self, eid: EdgeId)
        ensures
            final(self)@ == (TxnView {
                edge_reads: old(self)@.edge_reads.insert(eid),
                ..old(self)@
            }),
    {
        self.edge_reads.note(eid);
    }

    /// The undo entries that a reader has to apply, from a place on: back to the first whose
    /// version was committed before the reader started.
    pub fn apply_deltas_for_read(
        store: &GraphStore,
        undo_ptr: UndoPtr,
        txn_start_ts: Timestamp,
    ) -> (keys: Vec<u64>)
        requires
            store.wf(),
        ensures
            keys@ == read_chain(store@.undo, undo_ptr, txn_start_ts),
            forall|i: int| 0 <= i < keys@.len() ==> store@.undo.contains_key(#[trigger] keys@[i]),
    {
        let mut keys: Vec<u64> = Vec::new();
        let mut ptr: UndoPtr = undo_ptr;
        loop
            invariant
                store.wf(),
                read_chain(store@.undo, undo_ptr, txn_start_ts) == keys@ + read_chain(
                    store@.undo,
                    ptr,
                    txn_start_ts,
                ),
                forall|i: int|
                    0 <= i < keys@.len() ==> store@.undo.contains_key(#[trigger] keys@[i]),
            decreases
                    match ptr {
                        Some(key) => key + 1,
                        None => 0,
                    },
        {
            match ptr {
                None => {
                    assert(keys@ + Seq::<u64>::empty() =~= keys@);
                    return keys;
                },
                Some(key) => {
                    match store.undo_log.get(key) {
                        None => {
                            assert(keys@ + Seq::<u64>::empty() =~= keys@);
                            return keys;
                        },
                        Some(entry) => {
                            assert(store@.undo[key] == entry@);
                            let ghost before = keys@;
                            keys.push(key);
                            if entry.timestamp().0 < txn_start_ts.0 {
                                assert(keys@ =~= before + seq![key]);
                                return keys;
                            }
                            ptr = entry.next();
                            assert(keys@ + read_chain(store@.undo, ptr, txn_start_ts) =~= before
                                + (seq![key] + read_chain(store@.undo, ptr, txn_start_ts)));
                            assert(ptr is None ==> keys@ + read_chain(
                                store@.undo,
                                ptr,
                                txn_start_ts,
                            ) =~= before + seq![key]);
                        },
                    }
                },
            }
        }
    }

    /// Commits the transaction at the next timestamp, and makes an automatic checkpoint if it is
    /// time for one.
    pub fn commit<O: Outside>(&mut self, graph: &mut MemoryGraph, out: &mut O) -> (result:
        StorageResult<Timestamp>)
        requires
            old(graph).wf(),
            txn_ok(old(graph)@, old(self)@),
        ensures
            final(graph).wf(),
            goes_on(*old(out), *final(out)),
            commits(
                old(graph)@,
                old(self)@,
                None,
                false,
                asked(*old(out), *final(out)),
                final(graph)@,
                final(self)@,
                commit_outcome(result),
            ),
    {
        self.commit_at(graph, None, false, out)
    }

    /// Aborts the transaction.
    pub fn abort<O: Outside>(&mut self, graph: &mut MemoryGraph, out: &mut O) -> (result:
        StorageResult<()>)
        requires
            old(graph).wf(),
            can_undo(old(graph)@.store, old(self)@),
        ensures
            final(graph).wf(),
            goes_on(*old(out), *final(out)),
            aborts(
                old(graph)@,
                old(self)@,
                false,
                asked(*old(out), *final(out)),
                final(graph)@,
                final(self)@,
                outcome(result),
            ),
    {
        self.abort_at(graph, false, out)
    }

    /// Undoes what the transaction wrote, logs the abort unless told not to, and ends the
    /// transaction.
    pub fn abort_at<O: Outside>(
        &mut self,
        graph: &mut MemoryGraph,
        skip_wal: bool,
        out: &mut O,
    ) -> (result: StorageResult<()>)
        requires
            old(graph).wf(),
            can_undo(old(graph)@.store, old(self)@),
        ensures
            final(graph).wf(),
            goes_on(*old(out), *final(out)),
            aborts(
                old(graph)@,
                old(self)@,
                skip_wal,
                asked(*old(out), *final(out)),
                final(graph)@,
                final(self)@,
                outcome(result),
            ),
    {
        let mut undo_entries: Vec<u64> = Vec::new();
        std::mem::swap(&mut undo_entries, &mut self.undo_buffer);
        graph.store.undo_all(&undo_entries, self.txn_id);
        graph.store.forget_undo(&undo_entries);
        let ghost undone = graph@;
        assert(undone == (GraphView {
            store: rolled_back(old(graph)@.store, old(self)@),
            ..old(graph)@
        }));
        assert(self@ =~= (TxnView { undo: Seq::empty(), ..old(self)@ }));
        proof {
            lemma_nothing(*out);
        }
        if !skip_wal {
            let lsn: u64 = graph.next_lsn;
            graph.next_lsn = lsn.wrapping_add(1);
            let entry = RedoEntry {
                lsn,
                txn_id: self.txn_id,
                iso_level: self.isolation_level,
                op: Operation::AbortTransaction,
            };
            let ghost first = *out;
            let ghost entries = abort_entries(old(self)@, lsn);
            let answer = out.append(&entry);
            let ghost second = *out;
            proof {
                lemma_once(first, second, Event::Append(entry@, outcome(answer)));
                assert(entries =~= seq![entry@]);
                assert(appends(entries, asked(first, second), outcome(answer)));
            }
            match answer {
                Ok(_) => {},
                Err(error) => {
                    return Err(error);
                },
            }
            let answer = out.flush();
            proof {
                let event = Event::Flush(outcome(answer));
                lemma_one_more(first, second, *out, event);
                assert(asked(first, *out).drop_last() =~= asked(first, second));
                assert(logs(entries, asked(first, *out), outcome(answer)));
            }
            match answer {
                Ok(_) => {},
                Err(error) => {
                    return Err(error);
                },
            }
        }
        graph.txn_manager.finish_transaction(&mut graph.store, self)
    }

    /// The entries of its own that the transaction hands to the log at its commit.
    fn take_redo_entries(&mut self, graph: &mut MemoryGraph) -> (entries: Vec<RedoEntry>)
        requires
            old(graph).wf(),
        ensures
            final(graph).wf(),
            redo_view(entries@) == redo_entries(old(self)@, old(graph)@.next_lsn),
            final(self)@ == (TxnView { redo: Seq::empty(), ..old(self)@ }),
            final(graph)@ == (GraphView {
                next_lsn: old(graph)@.next_lsn.wrapping_add(old(self)@.redo.len() as u64),
                ..old(graph)@
            }),
    {
        let mut entries: Vec<RedoEntry> = Vec::new();
        std::mem::swap(&mut entries, &mut self.redo_buffer);
        let ghost redo = old(self)@.redo;
        let ghost base = old(graph)@.next_lsn;
        let count: usize = entries.len();
        for i in 0..count
            invariant
                count == entries@.len(),
                redo.len() == count,
                graph.wf(),
                graph@ == (GraphView { next_lsn: base.wrapping_add(i as u64), ..old(graph)@ }),
                forall|j: int|
                    0 <= j < count ==> (#[trigger] entries@[j])@ == if j < i {
                        RedoView { lsn: base.wrapping_add(j as u64), ..redo[j] }
                    } else {
                        redo[j]
                    },
        {
            let lsn: u64 = graph.next_lsn;
            graph.next_lsn = lsn.wrapping_add(1);
            let ghost before = entries@;
            entries[i].lsn = lsn;
            assert forall|j: int| 0 <= j < count implies (#[trigger] entries@[j])@ == if j < i + 1 {
                RedoView { lsn: base.wrapping_add(j as u64), ..redo[j] }
            } else {
                redo[j]
            } by {
                assert(before[j]@ == if j < i {
                    RedoView { lsn: base.wrapping_add(j as u64), ..redo[j] }
                } else {
                    redo[j]
                });
            }
        }
        assert(redo_view(entries@) =~= redo_entries(old(self)@, base));
        assert(self@.redo =~= Seq::empty());
        entries
    }

    /// Settles the transaction: commits it, at a given timestamp or at the next, and logs it unless
    /// told not to, without thinking of checkpoints.
    pub fn settle<O: Outside>(
        &mut self,
        graph: &mut MemoryGraph,
        commit_ts: Option<Timestamp>,
        skip_wal: bool,
        out: &mut O,
    ) -> (result: StorageResult<Timestamp>)
        requires
            old(graph).wf(),
            txn_ok(old(graph)@, old(self)@),
            commit_ts matches Some(given) ==> given.0 < u64::MAX,
        ensures
            final(graph).wf(),
            goes_on(*old(out), *final(out)),
            settles(
                old(graph)@,
                old(self)@,
                commit_ts,
                skip_wal,
                asked(*old(out), *final(out)),
                final(graph)@,
                final(self)@,
                commit_outcome(result),
            ),
    {
        let ts = graph.txn_manager.new_commit_ts(commit_ts);
        let ghost numbered = graph@;
        let ghost txn = self@;
        proof {
            lemma_nothing(*out);
        }
        if self.isolation_level == IsolationLevel::Serializable {
            match self.validate_read_sets(&graph.store) {
                Ok(_) => {},
                Err(error) => {
                    let ghost reason = error@;
                    assert(read_error(numbered.store, txn, reason));
                    match self.abort(graph, out) {
                        Ok(_) => {},
                        Err(failed) => {
                            return Err(failed);
                        },
                    }
                    return Err(error);
                },
            }
        }
        if self.commit_ts.is_some() {
            match self.abort(graph, out) {
                Ok(_) => {},
                Err(failed) => {
                    return Err(failed);
                },
            }
            return Err(
                StorageError::Transaction(
                    TransactionError::TransactionAlreadyCommitted(
                        with_number("Timestamp(", ts.0, ")"),
                    ),
                ),
            );
        }
        self.commit_ts = Some(ts);
        graph.store.stamp_all(&self.undo_buffer, ts);
        if !skip_wal {
            match self.log_commit(graph, ts, out) {
                Ok(_) => {},
                Err(error) => {
                    return Err(error);
                },
            }
        }
        graph.txn_manager.latest_commit_ts = ts.0;
        match graph.txn_manager.finish_transaction(&mut graph.store, self) {
            Ok(_) => Ok(ts),
            Err(error) => Err(error),
        }
    }

    /// Logs the transaction's own entries and its commit.
    fn log_commit<O: Outside>(
        &mut self,
        graph: &mut MemoryGraph,
        ts: Timestamp,
        out: &mut O,
    ) -> (result: StorageResult<()>)
        requires
            old(graph).wf(),
        ensures
            final(graph).wf(),
            goes_on(*old(out), *final(out)),
            logs(
                commit_log(old(self)@, ts, old(graph)@.next_lsn),
                asked(*old(out), *final(out)),
                outcome(result),
            ),
            final(self)@ == (TxnView { redo: Seq::empty(), ..old(self)@ }),
            ({
                let lsn = old(graph)@.next_lsn.wrapping_add(old(self)@.redo.len() as u64);
                final(graph)@ == (GraphView {
                    next_lsn: if asked(*old(out), *final(out)).len() <= old(self)@.redo.len() {
                        lsn
                    } else {
                        lsn.wrapping_add(1)
                    },
                    ..old(graph)@
                })
            }),
    {
        let ghost txn = self@;
        let ghost base = graph@.next_lsn;
        let ghost all = commit_log(txn, ts, base);
        let ghost first = *out;
        let entries = self.take_redo_entries(graph);
        match append_all(out, &entries) {
            Ok(_) => {},
            Err(error) => {
                proof {
                    lemma_appends_refused(
                        redo_entries(txn, base),
                        commit_entries(txn, ts, base.wrapping_add(txn.redo.len() as u64)),
                        asked(first, *out),
                        Err(error@),
                    );
                }
                return Err(error);
            },
        }
        let ghost second = *out;
        let lsn: u64 = graph.next_lsn;
        graph.next_lsn = lsn.wrapping_add(1);
        let last = RedoEntry {
            lsn,
            txn_id: self.txn_id,
            iso_level: self.isolation_level,
            op: Operation::CommitTransaction(ts),
        };
        let answer = out.append(&last);
        let ghost third = *out;
        proof {
            lemma_one_more(first, second, third, Event::Append(last@, outcome(answer)));
            lemma_appends_more(
                redo_entries(txn, base),
                asked(first, second),
                last@,
                outcome(answer),
            );
            assert(all =~= redo_entries(txn, base).push(last@));
        }
        match answer {
            Ok(_) => {},
            Err(error) => {
                return Err(error);
            },
        }
        let answer = out.flush();
        proof {
            lemma_one_more(first, third, *out, Event::Flush(outcome(answer)));
            assert(asked(first, *out).drop_last() =~= asked(first, third));
        }
        answer
    }

    /// Commits the transaction, at a given timestamp or at the next, logs it unless told not to,
    /// and makes an automatic checkpoint if it is time for one. As the graph is held meanwhile, no
    /// other transaction can end: where some are active, the time for the checkpoint is up.
    pub fn commit_at<O: Outside>(
        &mut self,
        graph: &mut MemoryGraph,
        commit_ts: Option<Timestamp>,
        skip_wal: bool,
        out: &mut O,
    ) -> (result: StorageResult<Timestamp>)
        requires
            old(graph).wf(),
            txn_ok(old(graph)@, old(self)@),
            commit_ts matches Some(given) ==> given.0 < u64::MAX,
        ensures
            final(graph).wf(),
            goes_on(*old(out), *final(out)),
            commits(
                old(graph)@,
                old(self)@,
                commit_ts,
                skip_wal,
                asked(*old(out), *final(out)),
                final(graph)@,
                final(self)@,
                commit_outcome(result),
            ),
    {
        let ghost first = *out;
        let settled = self.settle(graph, commit_ts, skip_wal, out);
        let ghost second = *out;
        let ghost between = graph@;
        let ghost n = asked(first, second).len() as int;
        let result = match settled {
            Ok(ts) => match graph.check_auto_checkpoint(out) {
                Ok(_) => Ok(ts),
                Err(error) => Err(error),
            },
            Err(error) => Err(error),
        };
        proof {
            if settled is Err {
                lemma_nothing(second);
            }
            lemma_further(first, second, *out);
            let events = asked(first, *out);
            assert(events.take(n) =~= asked(first, second));
            assert(events.skip(n) =~= asked(second, *out));
            assert(settles(
                old(graph)@,
                old(self)@,
                commit_ts,
                skip_wal,
                events.take(n),
                between,
                self@,
                commit_outcome(settled),
            ));
        }
        result
    }
}

} // verus!
