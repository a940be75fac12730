//! A transaction together with whether it has been dealt with.

use vstd::prelude::*;

use super::memory_graph::MemoryGraph;
use super::model::Timestamp;
use super::outside::Outside;
#[allow(unused_imports)]
use super::outside::{asked, goes_on, lemma_nothing};
#[allow(unused_imports)]
use super::transaction::{
    aborts, can_undo, commit_outcome, commits, outcome, txn_ok, TxnView,
};
use super::transaction::MemTransaction;
use crate::storage::error::StorageResult;

verus! {

/// A transaction that is rolled back when it is let go without having been committed or aborted.
pub struct TransactionHandle {
    inner: MemTransaction,
    is_handled: bool,
}

impl TransactionHandle {
    /// The transaction.
    pub closed spec fn txn(self) -> TxnView {
        self.inner@
    }

    /// Whether the transaction has been committed or aborted.
    pub closed spec fn handled(self) -> bool {
        self.is_handled
    }

    /// A handle on a transaction.
    pub fn new(txn: MemTransaction) -> (handle: Self)
        ensures
            handle.txn() == txn@,
            !handle.handled(),
    {
        TransactionHandle { inner: txn, is_handled: false }
    }

    /// Marks the transaction as dealt with. It will not be rolled back.
    pub fn mark_handled(&mut self)
        ensures
            final(self).txn() == old(self).txn(),
            final(self).handled(),
    {
        self.is_handled = true;
    }

    /// The transaction.
    pub fn inner(&self) -> (txn: &MemTransaction)
        ensures
            txn@ == self.txn(),
    {
        &self.inner
    }

    /// Whether the transaction has been dealt with.
    pub fn is_handled(&self) -> (handled: bool)
        ensures
            handled == self.handled(),
    {
        self.is_handled
    }

    /// Commits the transaction. It is dealt with where that succeeds.
    pub fn commit<O: Outside>(&mut self, graph: &mut MemoryGraph, out: &mut O) -> (result:
        StorageResult<Timestamp>)
        requires
            old(graph).wf(),
            txn_ok(old(graph)@, old(self).txn()),
        ensures
            final(graph).wf(),
            goes_on(*old(out), *final(out)),
            commits(
                old(graph)@,
                old(self).txn(),
                None,
                false,
                asked(*old(out), *final(out)),
                final(graph)@,
                final(self).txn(),
                commit_outcome(result),
            ),
            final(self).handled() == (old(self).handled() || result is Ok),
    {
        let result = self.inner.commit(graph, out);
        if result.is_ok() {
            self.mark_handled();
        }
        result
    }

    /// Aborts the transaction. It is dealt with where that succeeds.
    pub fn abort<O: Outside>(&mut self, graph: &mut MemoryGraph, out: &mut O) -> (result:
        StorageResult<()>)
        requires
            old(graph).wf(),
            can_undo(old(graph)@.store, old(self).txn()),
        ensures
            final(graph).wf(),
            goes_on(*old(out), *final(out)),
            aborts(
                old(graph)@,
                old(self).txn(),
                false,
                asked(*old(out), *final(out)),
                final(graph)@,
                final(self).txn(),
                outcome(result),
            ),
            final(self).handled() == (old(self).handled() || result is Ok),
    {
        let result = self.inner.abort(graph, out);
        if result.is_ok() {
            self.mark_handled();
        }
        result
    }

    /// Lets the transaction go. One that has not been dealt with is aborted, and whether that
    /// succeeds is of no interest. Says whether the transaction was aborted.
    pub fn release<O: Outside>(self, graph: &mut MemoryGraph, out: &mut O) -> (rolled_back: bool)
        requires
            old(graph).wf(),
            !self.handled() ==> can_undo(old(graph)@.store, self.txn()),
        ensures
            final(graph).wf(),
            goes_on(*old(out), *final(out)),
            rolled_back == !self.handled(),
            self.handled() ==> final(graph)@ == old(graph)@ && asked(*old(out), *final(out)).len()
                == 0,
            !self.handled() ==> exists|txn_after: TxnView, result| #[trigger]
                aborts(
                    old(graph)@,
                    self.txn(),
                    false,
                    asked(*old(out), *final(out)),
                    final(graph)@,
                    txn_after,
                    result,
                ),
    {
        let mut handle = self;
        if handle.is_handled {
            proof {
                lemma_nothing(*out);
            }
            return false;
        }
        let result = handle.inner.abort(graph, out);
        assert(aborts(
            old(graph)@,
            self.txn(),
            false,
            asked(*old(out), *out),
            graph@,
            handle.txn(),
            outcome(result),
        ));
        true
    }
}

} // verus!
