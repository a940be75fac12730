//! Transactions over the graph in memory: timestamps, visibility, aborts and garbage.

use std::cell::{Cell, RefCell};

use minigu::common::value::ScalarValue;
use minigu::storage::error::{
    EdgeNotFoundError, StorageError, StorageResult, TransactionError, VertexNotFoundError, WalError,
};
use minigu::storage::properties::PropertyRecord;
use minigu::storage::tp::checkpoint::manager::CheckpointManagerConfig;
use minigu::storage::tp::checkpoint::snapshot::GraphCheckpoint;
use minigu::storage::tp::handle::TransactionHandle;
use minigu::storage::tp::memory_graph::MemoryGraph;
use minigu::storage::tp::model::{
    DeltaOp, Edge, IsolationLevel, Operation, RedoEntry, SetPropsOp, Timestamp, UndoEntry, Vertex,
    VersionedEdge, VersionedVertex,
};
use minigu::storage::tp::outside::{Outside, World};
use minigu::storage::tp::transaction::MemTransaction;

type NeighborKey = (u32, u64, u64);

/// A world with a log of its own, and without files.
fn with_log<A: Fn(&RedoEntry) -> StorageResult<()>>(append: A) -> impl Outside {
    World::new(
        append,
        || Ok(()),
        |_lsn: u64| Ok(()),
        |_path: &String| unreachable!(),
        |_checkpoint: &GraphCheckpoint| unreachable!(),
        |_path: &String, _bytes: &Vec<u8>| unreachable!(),
        |_path: &String| unreachable!(),
        || 0,
    )
}

/// A world whose log takes everything.
fn quiet() -> impl Outside {
    with_log(|_entry: &RedoEntry| Ok(()))
}

fn fresh() -> MemoryGraph {
    MemoryGraph::with_config_fresh(CheckpointManagerConfig::default())
}

fn person(vid: u64, name: &str) -> Vertex {
    Vertex::new(
        vid,
        1,
        PropertyRecord::new(vec![
            ScalarValue::String(Some(name.to_string())),
            ScalarValue::Int32(Some(20)),
        ]),
    )
}

fn relation(eid: u64, src: u64, dst: u64, label: u32) -> Edge {
    Edge::new(eid, src, dst, label, PropertyRecord::new(vec![]))
}

fn begin(graph: &mut MemoryGraph) -> MemTransaction {
    graph.begin_transaction(IsolationLevel::Serializable)
}

/// A graph of three people; the first knows the others.
fn small_graph() -> MemoryGraph {
    let mut graph = fresh();
    let mut txn = begin(&mut graph);
    for vid in 1..4 {
        graph.create_vertex(&mut txn, person(vid, "someone")).unwrap();
    }
    graph.create_edge(&mut txn, relation(1, 1, 2, 7)).unwrap();
    graph.create_edge(&mut txn, relation(2, 1, 3, 5)).unwrap();
    graph.create_edge(&mut txn, relation(3, 3, 1, 7)).unwrap();
    txn.commit(&mut graph, &mut quiet()).unwrap();
    graph
}

#[test]
fn test_watermark_tracking() {
    let mut graph = fresh();
    let base_commit_ts = graph.txn_manager.latest_commit_ts;

    let mut txn0 = begin(&mut graph);
    assert_eq!(txn0.start_ts().0, base_commit_ts + 1);
    assert_eq!(graph.txn_manager.watermark, base_commit_ts + 1);

    {
        let mut txn_store_1 = begin(&mut graph);
        assert_eq!(txn_store_1.start_ts().0, base_commit_ts + 2);
        let commit_ts = txn_store_1.commit(&mut graph, &mut quiet()).unwrap();
        assert_eq!(commit_ts.0, base_commit_ts + 3);
    }

    // Unchanged, since the first transaction is still active.
    assert_eq!(graph.txn_manager.watermark, txn0.start_ts.0);

    let mut txn1 = begin(&mut graph);
    assert_eq!(txn1.start_ts().0, base_commit_ts + 4);
    assert_eq!(graph.txn_manager.watermark, txn0.start_ts.0);

    {
        let mut txn_store_2 = begin(&mut graph);
        assert_eq!(txn_store_2.start_ts().0, base_commit_ts + 5);
        let commit_ts = txn_store_2.commit(&mut graph, &mut quiet()).unwrap();
        assert_eq!(commit_ts.0, base_commit_ts + 6);
    }
    assert_eq!(graph.txn_manager.watermark, txn0.start_ts.0);

    let mut txn2 = begin(&mut graph);
    assert_eq!(txn2.start_ts().0, base_commit_ts + 7);
    assert_eq!(graph.txn_manager.watermark, txn0.start_ts.0);

    txn0.abort(&mut graph, &mut quiet()).unwrap();
    assert_eq!(graph.txn_manager.watermark, txn1.start_ts().0);

    {
        let mut txn_store_3 = begin(&mut graph);
        assert_eq!(txn_store_3.start_ts().0, base_commit_ts + 8);
        let commit_ts = txn_store_3.commit(&mut graph, &mut quiet()).unwrap();
        assert_eq!(commit_ts.0, base_commit_ts + 9);
    }
    assert_eq!(graph.txn_manager.watermark, txn1.start_ts().0);

    let mut txn3 = begin(&mut graph);
    assert_eq!(txn3.start_ts().0, base_commit_ts + 10);
    assert_eq!(graph.txn_manager.watermark, txn1.start_ts().0);

    txn1.abort(&mut graph, &mut quiet()).unwrap();
    assert_eq!(graph.txn_manager.watermark, txn2.start_ts().0);

    txn2.abort(&mut graph, &mut quiet()).unwrap();
    assert_eq!(graph.txn_manager.watermark, txn3.start_ts().0);

    {
        let mut txn_store_4 = begin(&mut graph);
        assert_eq!(txn_store_4.start_ts().0, base_commit_ts + 11);
        let commit_ts = txn_store_4.commit(&mut graph, &mut quiet()).unwrap();
        assert_eq!(commit_ts.0, base_commit_ts + 12);
    }
    assert_eq!(graph.txn_manager.watermark, txn3.start_ts().0);

    let mut txn4 = begin(&mut graph);
    assert_eq!(txn4.start_ts().0, base_commit_ts + 13);
    assert_eq!(graph.txn_manager.watermark, txn3.start_ts().0);

    txn3.abort(&mut graph, &mut quiet()).unwrap();
    assert_eq!(graph.txn_manager.watermark, txn4.start_ts().0);

    // Unchanged: nothing is active, and the last commit came before.
    txn4.abort(&mut graph, &mut quiet()).unwrap();
    assert_eq!(graph.txn_manager.watermark, txn4.start_ts().0);

    {
        let mut txn_store_5 = begin(&mut graph);
        assert_eq!(txn_store_5.start_ts().0, base_commit_ts + 14);
        let commit_ts = txn_store_5.commit(&mut graph, &mut quiet()).unwrap();
        assert_eq!(commit_ts.0, base_commit_ts + 15);
    }

    // The last commit, since nothing is active.
    assert_eq!(graph.txn_manager.watermark, base_commit_ts + 15);

    let mut txn5 = begin(&mut graph);
    assert_eq!(txn5.start_ts().0, base_commit_ts + 16);
    assert_eq!(graph.txn_manager.watermark, txn5.start_ts().0);

    txn5.abort(&mut graph, &mut quiet()).unwrap();
    assert_eq!(graph.txn_manager.watermark, txn5.start_ts().0);
}

#[test]
fn a_transaction_sees_what_it_created() {
    let mut graph = fresh();
    let mut writer = begin(&mut graph);
    let mut other = begin(&mut graph);
    assert_eq!(graph.create_vertex(&mut writer, person(1, "a")).unwrap(), 1);
    assert_eq!(graph.create_vertex(&mut writer, person(2, "b")).unwrap(), 2);
    assert_eq!(graph.create_edge(&mut writer, relation(9, 1, 2, 4)).unwrap(), 9);
    assert_eq!(graph.get_vertex(&mut writer, 1).unwrap().vid, 1);
    assert_eq!(graph.get_edge(&mut writer, 9).unwrap().dst_id, 2);
    // Others do not, whether they started before or after.
    let mut later = begin(&mut graph);
    for reader in [&mut other, &mut later] {
        match graph.get_vertex(reader, 1) {
            Err(StorageError::VertexNotFound(VertexNotFoundError::VertexNotFound(text))) => {
                assert_eq!(text, "1");
            }
            other => panic!("unexpected outcome {:?}", other),
        }
        match graph.get_edge(reader, 9) {
            Err(StorageError::EdgeNotFound(EdgeNotFoundError::EdgeNotFound(text))) => {
                assert_eq!(text, "9");
            }
            other => panic!("unexpected outcome {:?}", other),
        }
    }
    // After the commit, only those that start later do.
    writer.commit(&mut graph, &mut quiet()).unwrap();
    assert!(graph.get_vertex(&mut other, 1).is_err());
    assert!(graph.get_edge(&mut later, 9).is_err());
    let mut last = begin(&mut graph);
    assert!(graph.get_vertex(&mut last, 1).is_ok());
    assert!(graph.get_edge(&mut last, 9).is_ok());
}

#[test]
fn edges_need_their_end_points() {
    let mut graph = fresh();
    let mut txn = begin(&mut graph);
    graph.create_vertex(&mut txn, person(1, "a")).unwrap();
    for (src, dst, missing) in [(1, 2, "2"), (3, 1, "3"), (4, 5, "4")] {
        match graph.create_edge(&mut txn, relation(1, src, dst, 1)) {
            Err(StorageError::VertexNotFound(VertexNotFoundError::VertexNotFound(text))) => {
                assert_eq!(text, missing);
            }
            other => panic!("unexpected outcome {:?}", other),
        }
    }
    assert_eq!(graph.store.edges.len(), 0);
}

#[test]
fn an_abort_undoes_what_was_created() {
    let mut graph = small_graph();
    let mut txn = begin(&mut graph);
    graph.create_vertex(&mut txn, person(4, "new")).unwrap();
    graph.create_edge(&mut txn, relation(4, 4, 1, 6)).unwrap();
    txn.abort(&mut graph, &mut quiet()).unwrap();
    let mut reader = begin(&mut graph);
    assert!(graph.get_vertex(&mut reader, 4).is_err());
    assert!(graph.get_edge(&mut reader, 4).is_err());
    assert!(graph.get_vertex(&mut reader, 1).is_ok());
    let mut iter = reader.iter_adjacency_incoming::<fn(&NeighborKey) -> bool>(&graph.store, 1);
    assert_eq!(iter.next().unwrap().unwrap(), (7, 3, 3));
    assert!(iter.next().is_none());
}

#[test]
fn the_log_gets_changes_and_end() {
    let written: RefCell<Vec<(u64, String)>> = RefCell::new(Vec::new());
    let flushed = Cell::new(0);
    let append = |entry: &RedoEntry| -> StorageResult<()> {
        let what = match &entry.op {
            Operation::BeginTransaction(ts) => format!("begin {}", ts.0),
            Operation::CommitTransaction(ts) => format!("commit {}", ts.0),
            Operation::AbortTransaction => "abort".to_string(),
            Operation::Delta(DeltaOp::CreateVertex(vertex)) => format!("vertex {}", vertex.vid),
            Operation::Delta(other) => panic!("unexpected change {:?}", other),
        };
        written.borrow_mut().push((entry.lsn, what));
        Ok(())
    };
    let mut log = World::new(
        append,
        || {
            flushed.set(written.borrow().len());
            Ok(())
        },
        |_lsn: u64| Ok(()),
        |_path: &String| unreachable!(),
        |_checkpoint: &GraphCheckpoint| unreachable!(),
        |_path: &String, _bytes: &Vec<u8>| unreachable!(),
        |_path: &String| unreachable!(),
        || 0,
    );
    let mut graph = fresh();
    let mut txn = begin(&mut graph);
    graph.create_vertex(&mut txn, person(1, "a")).unwrap();
    graph.create_vertex(&mut txn, person(2, "b")).unwrap();
    txn.commit(&mut graph, &mut log).unwrap();
    assert_eq!(flushed.get(), 3);
    let mut txn = begin(&mut graph);
    txn.abort(&mut graph, &mut log).unwrap();
    assert_eq!(flushed.get(), 4);
    let texts: Vec<String> = written.borrow().iter().map(|entry| entry.1.clone()).collect();
    let lsns: Vec<u64> = written.borrow().iter().map(|entry| entry.0).collect();
    assert_eq!(texts, vec!["vertex 1", "vertex 2", "commit 2", "abort"]);
    for i in 0..lsns.len() {
        assert_eq!(lsns[i], i as u64);
    }
    assert_eq!(graph.next_lsn, lsns.len() as u64);
}

#[test]
fn a_log_that_fails_stops_the_commit() {
    let failing = |_entry: &RedoEntry| -> StorageResult<()> {
        Err(StorageError::Wal(WalError::Io("full".to_string())))
    };
    let mut graph = fresh();
    let mut txn = begin(&mut graph);
    graph.create_vertex(&mut txn, person(1, "a")).unwrap();
    match txn.commit(&mut graph, &mut with_log(failing)) {
        Err(StorageError::Wal(WalError::Io(text))) => assert_eq!(text, "full"),
        other => panic!("unexpected outcome {:?}", other),
    }
}

#[test]
fn a_transaction_is_committed_once() {
    let mut graph = fresh();
    let mut txn = begin(&mut graph);
    assert_eq!(txn.commit(&mut graph, &mut quiet()).unwrap().0, 2);
    match txn.commit(&mut graph, &mut quiet()) {
        // It is no longer active, so that it cannot even be aborted.
        Err(StorageError::Transaction(TransactionError::TransactionNotFound(text))) => {
            assert_eq!(text, "Timestamp(9223372036854775809)");
        }
        other => panic!("unexpected outcome {:?}", other),
    }
    // One that is active again can.
    graph.txn_manager.start_transaction(&txn);
    match txn.commit(&mut graph, &mut quiet()) {
        Err(StorageError::Transaction(TransactionError::TransactionAlreadyCommitted(text))) => {
            assert_eq!(text, "Timestamp(4)");
        }
        other => panic!("unexpected outcome {:?}", other),
    }
    match graph.txn_manager.finish_transaction(&mut graph.store, &txn) {
        Err(StorageError::Transaction(TransactionError::TransactionNotFound(text))) => {
            assert_eq!(text, "Timestamp(9223372036854775809)");
        }
        other => panic!("unexpected outcome {:?}", other),
    }
}

#[test]
fn reads_that_were_overwritten_stand_against_a_commit() {
    let mut graph = small_graph();
    let mut reader = begin(&mut graph);
    graph.get_vertex(&mut reader, 1).unwrap();
    graph.get_edge(&mut reader, 1).unwrap();
    assert!(reader.validate_read_sets(&graph.store).is_ok());

    graph.store.edges.get_mut(1).unwrap().commit_ts = Timestamp(50);
    match reader.validate_read_sets(&graph.store) {
        Err(StorageError::Transaction(TransactionError::ReadWriteConflict(text))) => {
            assert_eq!(text, "Edge is being modified by transaction Timestamp(50)");
        }
        other => panic!("unexpected outcome {:?}", other),
    }
    graph.store.vertices.get_mut(1).unwrap().commit_ts = Timestamp(60);
    match reader.commit(&mut graph, &mut quiet()) {
        Err(StorageError::Transaction(TransactionError::ReadWriteConflict(text))) => {
            assert_eq!(text, "Vertex is being modified by transaction Timestamp(60)");
        }
        other => panic!("unexpected outcome {:?}", other),
    }
    graph.store.vertices.remove(1);
    match reader.validate_read_sets(&graph.store) {
        Err(StorageError::VertexNotFound(VertexNotFoundError::VertexNotFound(text))) => {
            assert_eq!(text, "1");
        }
        other => panic!("unexpected outcome {:?}", other),
    }
}

#[test]
fn snapshot_transactions_do_not_check_their_reads() {
    let mut graph = small_graph();
    let mut reader = graph.begin_transaction(IsolationLevel::Snapshot);
    graph.get_vertex(&mut reader, 1).unwrap();
    graph.store.vertices.get_mut(1).unwrap().commit_ts = Timestamp(60);
    assert!(reader.commit(&mut graph, &mut quiet()).is_ok());
}

#[test]
fn older_versions_are_rebuilt_from_the_undo_log() {
    let mut graph = small_graph();
    let reader = begin(&mut graph);
    let writer = begin(&mut graph);
    // The name was set twice since the reader started.
    let before = |name: &str| {
        DeltaOp::SetVertexProps(
            1,
            SetPropsOp { indices: vec![0], props: vec![ScalarValue::String(Some(name.to_string()))] },
        )
    };
    graph.store.undo_log.insert(100, UndoEntry::new(before("first"), Timestamp(2), None));
    graph.store.undo_log.insert(101, UndoEntry::new(before("second"), Timestamp(9), Some(100)));
    graph.store.next_undo = 102;
    let mut data = person(1, "third");
    data.label_id = 1;
    graph.store.vertices.insert(
        1,
        VersionedVertex { data, commit_ts: writer.txn_id(), undo_ptr: Some(101) },
    );
    assert_eq!(
        MemTransaction::apply_deltas_for_read(&graph.store, Some(101), reader.start_ts()),
        vec![101, 100]
    );
    let seen = graph.store.get_visible_vertex(1, &reader).unwrap();
    assert_eq!(
        seen.properties.get(0),
        Some(&ScalarValue::String(Some("first".to_string())))
    );
    let own = graph.store.get_visible_vertex(1, &writer).unwrap();
    assert_eq!(own.properties.get(0), Some(&ScalarValue::String(Some("third".to_string()))));
    let later = MemTransaction::with_memgraph(
        Timestamp(u64::MAX),
        Timestamp(10),
        IsolationLevel::Snapshot,
    );
    let seen = graph.store.get_visible_vertex(1, &later).unwrap();
    assert_eq!(
        seen.properties.get(0),
        Some(&ScalarValue::String(Some("second".to_string())))
    );
}

#[test]
fn neighbours_come_in_order() {
    let mut graph = small_graph();
    let txn = begin(&mut graph);
    let mut iter = txn.iter_adjacency_outgoing::<fn(&NeighborKey) -> bool>(&graph.store, 1);
    assert!(iter.current_entry().is_none());
    assert_eq!(iter.next().unwrap().unwrap(), (5, 3, 2));
    assert_eq!(iter.current_entry(), Some(&(5, 3, 2)));
    assert_eq!(iter.next().unwrap().unwrap(), (7, 2, 1));
    assert!(iter.next().is_none());

    let mut iter = txn.iter_adjacency::<fn(&NeighborKey) -> bool>(&graph.store, 1);
    let mut all = Vec::new();
    while let Some(next) = iter.next() {
        all.push(next.unwrap());
    }
    assert_eq!(all, vec![(5, 3, 2), (7, 2, 1), (7, 3, 3)]);

    let mut iter = txn.iter_adjacency_incoming::<fn(&NeighborKey) -> bool>(&graph.store, 1);
    assert_eq!(iter.next().unwrap().unwrap(), (7, 3, 3));
    assert!(iter.next().is_none());

    let mut iter = txn
        .iter_adjacency::<fn(&NeighborKey) -> bool>(&graph.store, 1)
        .filter(|key| key.0 == 7);
    assert_eq!(iter.next().unwrap().unwrap(), (7, 2, 1));

    let mut iter = txn.iter_adjacency::<fn(&NeighborKey) -> bool>(&graph.store, 1);
    assert!(iter.seek(2).unwrap());
    assert_eq!(iter.current_entry(), Some(&(5, 3, 2)));
    assert!(iter.seek(3).unwrap());
    assert!(!iter.seek(3).unwrap());

    let mut iter = txn.iter_adjacency::<fn(&NeighborKey) -> bool>(&graph.store, 99);
    assert!(iter.next().is_none());
}

#[test]
fn neighbours_along_unseen_edges_are_passed_over() {
    let mut graph = small_graph();
    let mut writer = begin(&mut graph);
    graph.create_edge(&mut writer, relation(10, 1, 2, 1)).unwrap();
    let reader = begin(&mut graph);
    let mut iter = reader.iter_adjacency_outgoing::<fn(&NeighborKey) -> bool>(&graph.store, 1);
    assert_eq!(iter.next().unwrap().unwrap(), (5, 3, 2));
    let mut iter = writer.iter_adjacency_outgoing::<fn(&NeighborKey) -> bool>(&graph.store, 1);
    assert_eq!(iter.next().unwrap().unwrap(), (1, 2, 10));
}

#[test]
fn more_neighbours_than_a_batch_holds() {
    let mut graph = fresh();
    let mut txn = begin(&mut graph);
    graph.create_vertex(&mut txn, person(0, "hub")).unwrap();
    for i in 1..200 {
        graph.create_vertex(&mut txn, person(i, "spoke")).unwrap();
        graph.create_edge(&mut txn, relation(i, 0, i, 1)).unwrap();
    }
    let mut iter = txn.iter_adjacency_outgoing::<fn(&NeighborKey) -> bool>(&graph.store, 0);
    for i in 1..200 {
        assert_eq!(iter.next().unwrap().unwrap(), (1, i, i));
    }
    assert!(iter.next().is_none());
}

#[test]
fn vertices_are_gone_through() {
    let mut graph = small_graph();
    let mut writer = begin(&mut graph);
    graph.create_vertex(&mut writer, person(8, "unseen")).unwrap();
    let mut txn = begin(&mut graph);
    let mut iter = txn.iter_vertices::<fn(&Vertex) -> bool>(&graph.store);
    assert!(iter.vertex().is_none());
    let mut seen = Vec::new();
    while let Some(vertex) = iter.next(&mut txn) {
        seen.push(vertex.unwrap().vid);
        assert_eq!(iter.vertex().unwrap().vid, *seen.last().unwrap());
        assert_eq!(iter.properties().len(), 1);
    }
    seen.sort();
    assert_eq!(seen, vec![1, 2, 3]);
    assert_eq!(txn.vertex_reads().len(), 3);
    assert_eq!(txn.edge_reads().len(), 0);

    let mut iter =
        txn.iter_vertices::<fn(&Vertex) -> bool>(&graph.store).filter(|vertex| vertex.vid == 2);
    assert_eq!(iter.next(&mut txn).unwrap().unwrap().vid, 2);
    assert!(iter.next(&mut txn).is_none());

    let mut iter = txn.iter_vertices::<fn(&Vertex) -> bool>(&graph.store);
    assert!(!iter.seek(&mut txn, 7).unwrap());
    assert!(iter.vertex().is_none());
}

#[test]
fn deleted_edges_are_collected() {
    let mut graph = small_graph();
    let mut txn = begin(&mut graph);
    // The transaction deletes the edge from the third person to the first.
    let old = Edge::new(3, 3, 1, 7, PropertyRecord::new(vec![]));
    let mut data = old.duplicate();
    data.is_tombstone = true;
    let key = graph.store.next_undo;
    graph
        .store
        .undo_log
        .insert(key, UndoEntry::new(DeltaOp::CreateEdge(old), Timestamp(2), None));
    graph.store.next_undo = key + 1;
    graph.store.edges.insert(
        3,
        VersionedEdge { data, commit_ts: txn.txn_id(), undo_ptr: Some(key) },
    );
    txn.undo_buffer.push(key);
    txn.commit(&mut graph, &mut quiet()).unwrap();
    assert!(graph.store.edges.contains_key(3));
    assert_eq!(graph.txn_manager.committed_txns.len(), 2);

    // The commit is at the watermark, so only the one before it is over.
    graph.txn_manager.garbage_collect(&mut graph.store).unwrap();
    assert!(graph.store.edges.contains_key(3));
    assert_eq!(graph.txn_manager.committed_txns.len(), 1);

    let _later = begin(&mut graph);
    graph.txn_manager.garbage_collect(&mut graph.store).unwrap();
    assert!(!graph.store.edges.contains_key(3));
    assert!(graph.store.edges.contains_key(1));
    assert_eq!(graph.store.adjacency_list.get(1).unwrap().incoming.len(), 0);
    assert_eq!(graph.store.adjacency_list.get(3).unwrap().outgoing.len(), 0);
    assert!(graph.store.vertices.contains_key(3));
    assert_eq!(graph.txn_manager.committed_txns.len(), 0);
}

#[test]
fn deleted_end_points_are_collected_with_their_edges() {
    let mut graph = small_graph();
    let mut txn = begin(&mut graph);
    let old = Edge::new(3, 3, 1, 7, PropertyRecord::new(vec![]));
    let mut data = old.duplicate();
    data.is_tombstone = true;
    let key = graph.store.next_undo;
    graph
        .store
        .undo_log
        .insert(key, UndoEntry::new(DeltaOp::CreateEdge(old), Timestamp(2), None));
    graph.store.next_undo = key + 1;
    graph.store.edges.insert(
        3,
        VersionedEdge { data, commit_ts: txn.txn_id(), undo_ptr: Some(key) },
    );
    txn.undo_buffer.push(key);
    txn.commit(&mut graph, &mut quiet()).unwrap();
    graph.store.vertices.get_mut(3).unwrap().data.is_tombstone = true;
    let _later = begin(&mut graph);
    graph.txn_manager.garbage_collect(&mut graph.store).unwrap();
    assert!(!graph.store.vertices.contains_key(3));
    assert!(graph.store.vertices.contains_key(1));
    // The other edge that led to the vertex is no longer mentioned.
    let adjacent = graph.store.adjacency_list.get(1).unwrap();
    assert_eq!((adjacent.outgoing.len(), adjacent.incoming.len()), (1, 0));
}

/// Deletes a vertex in a transaction.
fn delete_vertex(graph: &mut MemoryGraph, txn: &mut MemTransaction, vid: u64) {
    let current = graph.store.vertices.get(vid).unwrap();
    let entry = UndoEntry::new(
        DeltaOp::CreateVertex(current.data.duplicate()),
        current.commit_ts,
        current.undo_ptr,
    );
    let key = graph.store.next_undo;
    graph.store.undo_log.insert(key, entry);
    graph.store.next_undo = key + 1;
    let current = graph.store.vertices.get_mut(vid).unwrap();
    current.data.is_tombstone = true;
    current.commit_ts = txn.txn_id();
    current.undo_ptr = Some(key);
    txn.undo_buffer.push(key);
}

/// Sets a property of a vertex in a transaction.
fn set_age(graph: &mut MemoryGraph, txn: &mut MemTransaction, vid: u64, index: usize, age: i32) {
    let current = graph.store.vertices.get(vid).unwrap();
    let entry = UndoEntry::new(
        DeltaOp::SetVertexProps(
            vid,
            SetPropsOp {
                indices: vec![index],
                props: vec![current.data.properties.get(index).unwrap().duplicate()],
            },
        ),
        current.commit_ts,
        current.undo_ptr,
    );
    let key = graph.store.next_undo;
    graph.store.undo_log.insert(key, entry);
    graph.store.next_undo = key + 1;
    let current = graph.store.vertices.get_mut(vid).unwrap();
    current.data.properties.set_prop(index, ScalarValue::Int32(Some(age)));
    current.commit_ts = txn.txn_id();
    current.undo_ptr = Some(key);
    txn.undo_buffer.push(key);
}

#[test]
fn deleted_vertices_are_collected_without_any_edge() {
    let mut graph = small_graph();
    let mut txn = begin(&mut graph);
    graph.create_vertex(&mut txn, person(4, "alone")).unwrap();
    txn.commit(&mut graph, &mut quiet()).unwrap();
    let mut txn = begin(&mut graph);
    delete_vertex(&mut graph, &mut txn, 4);
    txn.commit(&mut graph, &mut quiet()).unwrap();
    let _later = begin(&mut graph);
    graph.txn_manager.garbage_collect(&mut graph.store).unwrap();
    assert!(!graph.store.vertices.contains_key(4));
    assert!(graph.store.vertices.contains_key(3));
    assert_eq!(graph.txn_manager.committed_txns.len(), 0);
}

#[test]
fn an_abort_undoes_every_write_of_a_vertex() {
    let mut graph = small_graph();
    let mut txn = begin(&mut graph);
    set_age(&mut graph, &mut txn, 1, 0, 77);
    set_age(&mut graph, &mut txn, 1, 1, 88);
    set_age(&mut graph, &mut txn, 1, 1, 99);
    delete_vertex(&mut graph, &mut txn, 1);
    assert!(graph.get_vertex(&mut txn, 1).is_err());
    txn.abort(&mut graph, &mut quiet()).unwrap();
    let current = graph.store.vertices.get(1).unwrap();
    assert_eq!(current.commit_ts, Timestamp(2));
    assert!(!current.data.is_tombstone);
    assert_eq!(
        current.data.properties.get(0).unwrap().duplicate(),
        ScalarValue::String(Some("someone".to_string()))
    );
    assert_eq!(current.data.properties.get(1).unwrap().duplicate(), ScalarValue::Int32(Some(20)));
}

#[test]
fn garbage_is_collected_after_commits() {
    let mut graph = small_graph();
    for _ in 0..40 {
        let mut txn = begin(&mut graph);
        txn.commit(&mut graph, &mut quiet()).unwrap();
    }
    // Every commit raises the watermark by two; a collection is due once it has risen by more
    // than fifty.
    assert!(graph.txn_manager.last_gc_ts > 0);
    assert!(graph.txn_manager.committed_txns.len() < 41);
}

#[test]
fn a_log_that_fails_tells_how_far_it_got() {
    let mut graph = fresh();
    let mut txn = begin(&mut graph);
    graph.create_vertex(&mut txn, person(1, "a")).unwrap();
    graph.create_vertex(&mut txn, person(2, "b")).unwrap();
    let failing = |_entry: &RedoEntry| -> StorageResult<()> {
        Err(StorageError::Wal(WalError::Io("full".to_string())))
    };
    assert!(txn.commit(&mut graph, &mut with_log(failing)).is_err());
    // The commit has not taken a position.
    assert_eq!(graph.next_lsn, 2);

    let mut graph = fresh();
    let mut txn = begin(&mut graph);
    graph.create_vertex(&mut txn, person(1, "a")).unwrap();
    let failing_at_the_end = |entry: &RedoEntry| -> StorageResult<()> {
        match &entry.op {
            Operation::CommitTransaction(_) => {
                Err(StorageError::Wal(WalError::Io("full".to_string())))
            }
            _ => Ok(()),
        }
    };
    assert!(txn.commit(&mut graph, &mut with_log(failing_at_the_end)).is_err());
    assert_eq!(graph.next_lsn, 2);
}

#[test]
fn a_log_that_refuses_an_entry_gets_none_behind_it() {
    let handed: RefCell<Vec<u64>> = RefCell::new(Vec::new());
    let mut graph = fresh();
    let mut txn = begin(&mut graph);
    for vid in 1..4 {
        graph.create_vertex(&mut txn, person(vid, "a")).unwrap();
    }
    let refusing_the_second = |entry: &RedoEntry| -> StorageResult<()> {
        handed.borrow_mut().push(entry.lsn);
        if entry.lsn == 1 {
            Err(StorageError::Wal(WalError::Io("full".to_string())))
        } else {
            Ok(())
        }
    };
    assert!(txn.commit(&mut graph, &mut with_log(refusing_the_second)).is_err());
    assert_eq!(handed.take(), vec![0, 1]);
    assert_eq!(graph.next_lsn, 3);
    assert_eq!(graph.txn_manager.latest_commit_ts, 0);
}

#[test]
fn vertices_are_sought_in_any_order() {
    let mut graph = fresh();
    let mut txn = begin(&mut graph);
    for vid in [5, 3, 9] {
        graph.create_vertex(&mut txn, person(vid, "someone")).unwrap();
    }
    for vid in [3, 5, 9] {
        let mut iter = txn.iter_vertices::<fn(&Vertex) -> bool>(&graph.store);
        assert!(iter.seek(&mut txn, vid).unwrap());
        assert_eq!(iter.vertex().unwrap().vid, vid);
    }
    // What is not there is not found, and the iterator is at a greater one.
    let mut iter = txn.iter_vertices::<fn(&Vertex) -> bool>(&graph.store);
    assert!(!iter.seek(&mut txn, 4).unwrap());
    assert!(iter.vertex().unwrap().vid > 4);
    // What a filter refuses is not found either.
    let mut iter =
        txn.iter_vertices::<fn(&Vertex) -> bool>(&graph.store).filter(|vertex| vertex.vid != 3);
    assert!(!iter.seek(&mut txn, 3).unwrap());
}

#[test]
fn edges_are_sought_in_any_order() {
    let mut graph = fresh();
    let mut txn = begin(&mut graph);
    for vid in 1..5 {
        graph.create_vertex(&mut txn, person(vid, "someone")).unwrap();
    }
    // In the order of label and neighbour, the edges are met as 30, 10, 20.
    graph.create_edge(&mut txn, relation(30, 1, 2, 1)).unwrap();
    graph.create_edge(&mut txn, relation(10, 1, 3, 1)).unwrap();
    graph.create_edge(&mut txn, relation(20, 1, 4, 2)).unwrap();
    for (eid, neighbor) in [(10, (1, 3, 10)), (20, (2, 4, 20)), (30, (1, 2, 30))] {
        let mut iter = txn.iter_adjacency_outgoing::<fn(&NeighborKey) -> bool>(&graph.store, 1);
        assert!(iter.seek(eid).unwrap());
        assert_eq!(iter.current_entry(), Some(&neighbor));
    }
    let mut iter = txn.iter_adjacency_outgoing::<fn(&NeighborKey) -> bool>(&graph.store, 1);
    assert!(iter.seek(10).unwrap());
    assert_eq!(iter.next().unwrap().unwrap(), (2, 4, 20));
    assert!(iter.next().is_none());
    let mut iter = txn.iter_adjacency_outgoing::<fn(&NeighborKey) -> bool>(&graph.store, 1);
    assert!(!iter.seek(15).unwrap());
    assert_eq!(iter.current_entry(), Some(&(1, 2, 30)));
}

#[test]
fn garbage_that_a_reader_may_miss_stays() {
    let mut graph = small_graph();
    let _reader = begin(&mut graph);
    let mut txn = begin(&mut graph);
    txn.commit(&mut graph, &mut quiet()).unwrap();
    // Only the commit before the reader's start is over.
    graph.txn_manager.garbage_collect(&mut graph.store).unwrap();
    assert_eq!(graph.txn_manager.committed_txns.len(), 1);
    // The watermark has not gone far enough.
    let mut next = begin(&mut graph);
    next.commit(&mut graph, &mut quiet()).unwrap();
    graph.txn_manager.periodic_garbage_collect(&mut graph.store).unwrap();
    assert_eq!(graph.txn_manager.committed_txns.len(), 2);
}

#[test]
fn a_collection_changes_nothing_for_a_reader() {
    let mut graph = small_graph();
    let mut txn = begin(&mut graph);
    set_age(&mut graph, &mut txn, 1, 1, 30);
    txn.commit(&mut graph, &mut quiet()).unwrap();
    let mut reader = begin(&mut graph);
    let mut txn = begin(&mut graph);
    set_age(&mut graph, &mut txn, 1, 1, 40);
    delete_vertex(&mut graph, &mut txn, 1);
    txn.commit(&mut graph, &mut quiet()).unwrap();

    let undo = graph.store.undo_log.len();
    graph.txn_manager.garbage_collect(&mut graph.store).unwrap();
    assert!(graph.store.undo_log.len() < undo);
    let seen = graph.get_vertex(&mut reader, 1).unwrap();
    assert_eq!(seen.properties.get(1).unwrap().duplicate(), ScalarValue::Int32(Some(30)));
    let mut later = begin(&mut graph);
    assert!(graph.get_vertex(&mut later, 1).is_err());
}

#[test]
fn timestamps_can_be_given() {
    let mut graph = fresh();
    assert_eq!(graph.txn_manager.new_commit_ts(Some(Timestamp(40))), Timestamp(40));
    assert_eq!(graph.txn_manager.new_commit_ts(None), Timestamp(41));
    assert_eq!(graph.txn_manager.new_txn_id(Some(Timestamp(1 << 63))), Timestamp(1 << 63));
    assert_eq!(graph.txn_manager.new_txn_id(None), Timestamp((1 << 63) + 1));
}

#[test]
fn handles_are_dealt_with_once() {
    let mut graph = fresh();
    let mut txn = begin(&mut graph);
    graph.create_vertex(&mut txn, person(1, "kept")).unwrap();
    let mut handle = TransactionHandle::new(txn);
    assert!(!handle.is_handled());
    handle.commit(&mut graph, &mut quiet()).unwrap();
    assert!(handle.is_handled());
    assert!(!handle.release(&mut graph, &mut quiet()));

    let mut txn = begin(&mut graph);
    graph.create_vertex(&mut txn, person(2, "dropped")).unwrap();
    let handle = TransactionHandle::new(txn);
    assert_eq!(handle.inner().start_ts().0, 3);
    assert!(handle.release(&mut graph, &mut quiet()));

    let mut txn = begin(&mut graph);
    assert!(graph.get_vertex(&mut txn, 1).is_ok());
    assert!(graph.get_vertex(&mut txn, 2).is_err());
    let mut handle = TransactionHandle::new(txn);
    handle.abort(&mut graph, &mut quiet()).unwrap();
    assert!(handle.is_handled());
}
