//! The manager of transactions: identifiers, timestamps and the watermark.

use crossbeam_skiplist::SkipMap;
use vstd::prelude::*;

use super::model::{Timestamp, TXN_ID_START};
use super::transaction::MemTransaction;
use crate::collections::skip::{skip_map_front, skip_map_insert, skip_map_new};
#[allow(unused_imports)]
use crate::collections::skip::skip_map_contents;
use crate::collections::slot_map::SlotMap;

verus! {

/// The watermark must be this much beyond the last garbage collection for the next.
pub const PERIODIC_GC_THRESHOLD: u64 = 50;

/// The manager of transactions.
pub struct MemTxnManager {
    /// The start timestamps of the active transactions, by identifier.
    pub active_txns: SkipMap<u64, u64>,
    /// The identifiers of the committed transactions, by commit timestamp.
    pub committed_txns: SkipMap<u64, u64>,
    /// The places of the undo entries of the committed transactions, by commit timestamp.
    pub committed_undo: SlotMap<Vec<u64>>,
    /// The last commit timestamp.
    pub latest_commit_ts: u64,
    /// The next commit timestamp.
    pub commit_ts_counter: u64,
    /// The next transaction identifier.
    pub txn_id_counter: u64,
    /// What every active transaction may read up to.
    pub watermark: u64,
    /// The watermark at the last garbage collection.
    pub last_gc_ts: u64,
}

/// What the manager holds.
pub struct ManagerView {
    /// The start timestamps of the active transactions, by identifier.
    pub active: Map<u64, u64>,
    /// The identifiers of the committed transactions, by commit timestamp.
    pub committed: Map<u64, u64>,
    /// The places of the undo entries of the committed transactions, by commit timestamp.
    pub committed_undo: Map<u64, Seq<u64>>,
    /// The last commit timestamp.
    pub latest_commit_ts: u64,
    /// The next commit timestamp.
    pub commit_ts_counter: u64,
    /// The next transaction identifier.
    pub txn_id_counter: u64,
    /// What every active transaction may read up to.
    pub watermark: u64,
    /// The watermark at the last garbage collection.
    pub last_gc_ts: u64,
}

impl View for MemTxnManager {
    type V = ManagerView;

    open spec fn view(&self) -> ManagerView {
        ManagerView {
            active: skip_map_contents(self.active_txns),
            committed: skip_map_contents(self.committed_txns),
            committed_undo: self.committed_undo@.map_values(|keys: Vec<u64>| keys@),
            latest_commit_ts: self.latest_commit_ts,
            commit_ts_counter: self.commit_ts_counter,
            txn_id_counter: self.txn_id_counter,
            watermark: self.watermark,
            last_gc_ts: self.last_gc_ts,
        }
    }
}

/// Whether a key is the least of a map.
pub open spec fn is_least(map: Map<u64, u64>, key: u64) -> bool {
    &&& map.contains_key(key)
    &&& forall|other: u64| #[trigger] map.contains_key(other) ==> key <= other
}

/// The least key of a map.
pub open spec fn least_key(map: Map<u64, u64>) -> u64 {
    choose|key: u64| is_least(map, key)
}

impl ManagerView {
    /// The manager before any transaction.
    pub open spec fn initial() -> ManagerView {
        ManagerView {
            active: Map::empty(),
            committed: Map::empty(),
            committed_undo: Map::empty(),
            latest_commit_ts: 0,
            commit_ts_counter: 1,
            txn_id_counter: (TXN_ID_START + 1) as u64,
            watermark: 0,
            last_gc_ts: 0,
        }
    }

    /// The start timestamp of the active transaction with the least identifier, or the last commit
    /// timestamp where no transaction is active.
    pub open spec fn oldest(self) -> u64 {
        if self.active == Map::<u64, u64>::empty() {
            self.latest_commit_ts
        } else {
            self.active[least_key(self.active)]
        }
    }

    /// The manager with its watermark brought up to date. The watermark never falls.
    pub open spec fn with_watermark(self) -> ManagerView {
        ManagerView {
            watermark: if self.oldest() >= self.watermark {
                self.oldest()
            } else {
                self.watermark
            },
            ..self
        }
    }

    /// The manager with one more active transaction.
    pub open spec fn started(self, txn_id: u64, start_ts: u64) -> ManagerView {
        ManagerView { active: self.active.insert(txn_id, start_ts), ..self }.with_watermark()
    }

    /// The manager after a commit timestamp was handed out.
    pub open spec fn after_commit_ts(self, ts: Option<Timestamp>) -> ManagerView {
        match ts {
            Some(given) => ManagerView { commit_ts_counter: (given.0 + 1) as u64, ..self },
            None => ManagerView {
                commit_ts_counter: self.commit_ts_counter.wrapping_add(1),
                ..self
            },
        }
    }

    /// The commit timestamp that is handed out.
    pub open spec fn next_commit_ts(self, ts: Option<Timestamp>) -> Timestamp {
        match ts {
            Some(given) => given,
            None => Timestamp(self.commit_ts_counter),
        }
    }
}

impl Default for MemTxnManager {
    fn default() -> (manager: Self)
        ensures
            manager.wf(),
            manager@ == ManagerView::initial(),
    {
        let manager = MemTxnManager {
            active_txns: skip_map_new(),
            committed_txns: skip_map_new(),
            committed_undo: SlotMap::new(),
            latest_commit_ts: 0,
            commit_ts_counter: 1,
            txn_id_counter: TXN_ID_START + 1,
            watermark: 0,
            last_gc_ts: 0,
        };
        assert(manager@.committed_undo =~= Map::empty());
        manager
    }
}

impl MemTxnManager {
    /// Whether the manager is well formed: the undo entries of every committed transaction are
    /// listed, and the watermark has not fallen behind the last garbage collection.
    pub open spec fn wf(&self) -> bool {
        &&& self.committed_undo.wf()
        &&& self@.committed_undo.dom() == self@.committed.dom()
        &&& self@.last_gc_ts <= self@.watermark
    }

    /// A manager without transactions.
    pub fn new() -> (manager: Self)
        ensures
            manager.wf(),
            manager@ == ManagerView::initial(),
    {
        MemTxnManager::default()
    }

    /// Registers a transaction as active.
    pub fn start_transaction(&mut self, txn: &MemTransaction)
        requires
            old(self).wf(),
        ensures
            final(self).wf(),
            final(self)@ == old(self)@.started(txn@.txn_id.0, txn@.start_ts.0),
    {
        skip_map_insert(&mut self.active_txns, txn.txn_id.0, txn.start_ts.0);
        self.update_watermark();
    }

    /// Hands out a commit timestamp: the given one, or the next.
    pub fn new_commit_ts(&mut self, ts: Option<Timestamp>) -> (commit_ts: Timestamp)
        requires
            old(self).wf(),
            ts matches Some(given) ==> given.0 < u64::MAX,
        ensures
            final(self).wf(),
            commit_ts == old(self)@.next_commit_ts(ts),
            final(self)@ == old(self)@.after_commit_ts(ts),
    {
        match ts {
            Some(given) => {
                self.commit_ts_counter = given.0 + 1;
                given
            },
            None => {
                let next: u64 = self.commit_ts_counter;
                self.commit_ts_counter = next.wrapping_add(1);
                Timestamp::with_ts(next)
            },
        }
    }

    /// Hands out a transaction identifier: the given one, or the next.
    pub fn new_txn_id(&mut self, txn_id: Option<Timestamp>) -> (id: Timestamp)
        requires
            old(self).wf(),
            txn_id matches Some(given) ==> given.0 < u64::MAX,
        ensures
            final(self).wf(),
            match txn_id {
                Some(given) => {
                    &&& id == given
                    &&& final(self)@ == (ManagerView {
                        txn_id_counter: (given.0 + 1) as u64,
                        ..old(self)@
                    })
                },
                None => {
                    &&& id == Timestamp(old(self)@.txn_id_counter)
                    &&& final(self)@ == (ManagerView {
                        txn_id_counter: old(self)@.txn_id_counter.wrapping_add(1),
                        ..old(self)@
                    })
                },
            },
    {
        match txn_id {
            Some(given) => {
                self.txn_id_counter = given.0 + 1;
                given
            },
            None => {
                let next: u64 = self.txn_id_counter;
                self.txn_id_counter = next.wrapping_add(1);
                Timestamp::with_ts(next)
            },
        }
    }

    /// Brings the watermark up to date: to the start of the oldest active transaction, or to the
    /// last commit where none is active. It never falls.
    pub fn update_watermark(&mut self)
        requires
            old(self).wf(),
        ensures
            final(self).wf(),
            final(self)@ == old(self)@.with_watermark(),
    {
        let oldest: u64 = match skip_map_front(&self.active_txns) {
            Some((key, start_ts)) => {
                proof {
                    assert(is_least(self@.active, key));
                    assert(is_least(self@.active, least_key(self@.active)));
                    assert(key == least_key(self@.active));
                }
                start_ts
            },
            None => self.latest_commit_ts,
        };
        if oldest >= self.watermark {
            self.watermark = oldest;
        }
    }
}

/// The watermark never falls.
pub proof fn law_watermark_rises(manager: ManagerView)
    ensures
        manager.with_watermark().watermark >= manager.watermark,
        manager.with_watermark().watermark >= manager.oldest(),
        manager.with_watermark().with_watermark() == manager.with_watermark(),
{
}

/// Whether transactions with greater identifiers started later.
pub open spec fn starts_in_order(active: Map<u64, u64>) -> bool {
    forall|a: u64, b: u64|
        #![trigger active[a], active[b]]
        active.contains_key(a) && active.contains_key(b) && a <= b ==> active[a] <= active[b]
}

/// While transactions with greater identifiers started later and none started before the
/// watermark, the watermark is the earliest start of an active transaction.
pub proof fn law_watermark_is_oldest_start(manager: ManagerView, txn_id: u64)
    requires
        starts_in_order(manager.active),
        manager.active.contains_key(txn_id),
        exists|key: u64| is_least(manager.active, key),
        forall|key: u64| #[trigger]
            manager.active.contains_key(key) ==> manager.watermark <= manager.active[key],
    ensures
        manager.with_watermark().watermark <= manager.active[txn_id],
        exists|key: u64| #[trigger]
            manager.active.contains_key(key) && manager.with_watermark().watermark
                == manager.active[key],
{
    let least = least_key(manager.active);
    assert(is_least(manager.active, least));
    assert(manager.active != Map::<u64, u64>::empty()) by {
        assert(!Map::<u64, u64>::empty().contains_key(txn_id));
    }
    assert(manager.active[least] <= manager.active[txn_id]);
}

/// Starting a transaction with the next identifier and the next timestamp keeps the transactions
/// in order.
pub proof fn law_start_keeps_order(manager: ManagerView, txn_id: u64, start_ts: u64)
    requires
        starts_in_order(manager.active),
        forall|key: u64| #[trigger]
            manager.active.contains_key(key) ==> key < txn_id && manager.active[key] <= start_ts,
    ensures
        starts_in_order(manager.started(txn_id, start_ts).active),
{
}

} // verus!
