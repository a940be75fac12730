//! Checkpoints of a graph, and how they are kept and found again.

use std::cell::{Cell, RefCell};
use std::collections::HashMap;

use minigu::common::value::ScalarValue;
use minigu::storage::error::{CheckpointError, StorageError, StorageResult, WalError};
use minigu::storage::properties::PropertyRecord;
use minigu::storage::tp::checkpoint::frame::{accept, frame, seal, unframe, unseal};
use minigu::storage::tp::checkpoint::manager::{
    CheckpointManager, CheckpointManagerConfig, FoundFile, Quiescence,
};
use minigu::storage::tp::checkpoint::names::{
    checkpoint_file, checkpoint_id, join_path, starts_with,
};
use minigu::storage::tp::checkpoint::snapshot::{
    CheckpointMetadata, GraphCheckpoint, SerializedAdjacency, SerializedEdge, SerializedVertex,
};
use minigu::storage::tp::handle::TransactionHandle;
use minigu::storage::tp::memory_graph::MemoryGraph;
use minigu::storage::tp::model::{
    DeltaOp, Edge, IsolationLevel, Operation, RedoEntry, SetPropsOp, Timestamp, UndoEntry, Vertex,
};
use minigu::storage::tp::outside::{Outside, World};

const PERSON: u32 = 1;
const FRIEND: u32 = 1;
const FOLLOW: u32 = 2;

const SECOND: u128 = 1_000_000_000;

/// A world whose log takes everything, without files.
fn quiet() -> impl Outside {
    World::new(
        |_entry: &RedoEntry| Ok(()),
        || Ok(()),
        |_lsn: u64| Ok(()),
        |_path: &String| unreachable!(),
        |_checkpoint: &GraphCheckpoint| unreachable!(),
        |_path: &String, _bytes: &Vec<u8>| unreachable!(),
        |_path: &String| unreachable!(),
        || 0,
    )
}

fn person(vid: u64, name: &str, age: i32) -> Vertex {
    Vertex::new(
        vid,
        PERSON,
        PropertyRecord::new(vec![
            ScalarValue::String(Some(name.to_string())),
            ScalarValue::Int32(Some(age)),
        ]),
    )
}

fn relation(eid: u64, src: u64, dst: u64, label: u32) -> Edge {
    Edge::new(
        eid,
        src,
        dst,
        label,
        PropertyRecord::new(vec![ScalarValue::String(Some(format!("2024-01-0{}", eid)))]),
    )
}

/// Four people, and four relations among them.
fn mock_graph() -> MemoryGraph {
    let mut graph = MemoryGraph::with_config_fresh(mock_checkpoint_config());
    let mut txn = graph.begin_transaction(IsolationLevel::Serializable);
    graph.create_vertex(&mut txn, person(1, "Alice", 25)).unwrap();
    graph.create_vertex(&mut txn, person(2, "Bob", 28)).unwrap();
    graph.create_vertex(&mut txn, person(3, "Carol", 24)).unwrap();
    graph.create_vertex(&mut txn, person(4, "David", 27)).unwrap();
    graph.create_edge(&mut txn, relation(1, 1, 2, FRIEND)).unwrap();
    graph.create_edge(&mut txn, relation(2, 2, 3, FRIEND)).unwrap();
    graph.create_edge(&mut txn, relation(3, 1, 3, FOLLOW)).unwrap();
    graph.create_edge(&mut txn, relation(4, 4, 1, FOLLOW)).unwrap();
    txn.commit(&mut graph, &mut quiet()).unwrap();
    graph
}

fn mock_checkpoint_config() -> CheckpointManagerConfig {
    CheckpointManagerConfig {
        checkpoint_dir: "checkpoints".to_string(),
        max_checkpoints: 3,
        auto_checkpoint_interval_secs: 0,
        checkpoint_prefix: "test_checkpoint".to_string(),
        transaction_timeout_secs: 10,
    }
}

type Props = Vec<(u8, Option<String>, Option<i64>)>;
type Plain = (
    (u64, u64, u64, u32),
    Vec<(u64, u32, Props, bool, u64)>,
    Vec<((u64, u64, u64, u32), Props, bool, u64)>,
    Vec<(u64, Vec<(u64, u64)>, Vec<(u64, u64)>)>,
);

fn plain_props(record: &PropertyRecord) -> Props {
    let mut props = Vec::new();
    for i in 0..record.len() {
        match record.get(i).unwrap() {
            ScalarValue::String(text) => props.push((0, text.clone(), None)),
            ScalarValue::Int32(n) => props.push((1, None, n.map(|n| n as i64))),
            other => panic!("unexpected property {:?}", other),
        }
    }
    props
}

fn record_of(props: Props) -> PropertyRecord {
    let mut values = Vec::new();
    for (tag, text, n) in props {
        if tag == 0 {
            values.push(ScalarValue::String(text));
        } else {
            values.push(ScalarValue::Int32(n.map(|n| n as i32)));
        }
    }
    PropertyRecord::new(values)
}

fn serialize(checkpoint: &GraphCheckpoint) -> Result<Vec<u8>, String> {
    let metadata = &checkpoint.metadata;
    let mut plain: Plain = (
        (metadata.timestamp, metadata.lsn, metadata.latest_commit_ts, metadata.version),
        Vec::new(),
        Vec::new(),
        Vec::new(),
    );
    for vertex in checkpoint.vertices.values() {
        let data = &vertex.data;
        plain.1.push((
            data.vid,
            data.label_id,
            plain_props(&data.properties),
            data.is_tombstone,
            vertex.commit_ts.0,
        ));
    }
    for edge in checkpoint.edges.values() {
        let data = &edge.data;
        plain.2.push((
            (data.eid, data.src_id, data.dst_id, data.label_id),
            plain_props(&data.properties),
            data.is_tombstone,
            edge.commit_ts.0,
        ));
    }
    for (vid, list) in &checkpoint.adjacency_list {
        plain.3.push((*vid, list.outgoing.clone(), list.incoming.clone()));
    }
    postcard::to_allocvec(&plain).map_err(|e| e.to_string())
}

fn deserialize(bytes: &Vec<u8>) -> Result<GraphCheckpoint, String> {
    let plain: Plain = postcard::from_bytes(bytes).map_err(|e| e.to_string())?;
    let mut checkpoint = GraphCheckpoint {
        metadata: CheckpointMetadata {
            timestamp: (plain.0).0,
            lsn: (plain.0).1,
            latest_commit_ts: (plain.0).2,
            version: (plain.0).3,
        },
        vertices: HashMap::new(),
        edges: HashMap::new(),
        adjacency_list: HashMap::new(),
    };
    for (vid, label, props, is_tombstone, ts) in plain.1 {
        let mut data = Vertex::new(vid, label, record_of(props));
        data.is_tombstone = is_tombstone;
        checkpoint
            .vertices
            .insert(vid, SerializedVertex { data, commit_ts: Timestamp(ts) });
    }
    for ((eid, src, dst, label), props, is_tombstone, ts) in plain.2 {
        let mut data = Edge::new(eid, src, dst, label, record_of(props));
        data.is_tombstone = is_tombstone;
        checkpoint.edges.insert(eid, SerializedEdge { data, commit_ts: Timestamp(ts) });
    }
    for (vid, outgoing, incoming) in plain.3 {
        checkpoint.adjacency_list.insert(vid, SerializedAdjacency { outgoing, incoming });
    }
    Ok(checkpoint)
}

/// A directory in memory.
struct Directory {
    files: RefCell<HashMap<String, Vec<u8>>>,
}

impl Directory {
    fn new() -> Self {
        Directory { files: RefCell::new(HashMap::new()) }
    }

    fn create(&self, path: &String) -> Result<(), String> {
        self.files.borrow_mut().insert(path.clone(), Vec::new());
        Ok(())
    }

    fn write(&self, path: &String, bytes: &Vec<u8>) -> Result<(), String> {
        match self.files.borrow_mut().get_mut(path) {
            Some(file) => {
                *file = bytes.clone();
                Ok(())
            }
            None => Err(format!("{} is not there", path)),
        }
    }

    fn read(&self, path: &String) -> Result<Vec<u8>, String> {
        match self.files.borrow().get(path) {
            Some(file) => Ok(file.clone()),
            None => Err(format!("{} is not there", path)),
        }
    }

    fn remove(&self, path: &String) -> Result<(), String> {
        match self.files.borrow_mut().remove(path) {
            Some(_) => Ok(()),
            None => Err(format!("{} is not there", path)),
        }
    }

    fn load(&self, path: &String) -> StorageResult<GraphCheckpoint> {
        GraphCheckpoint::load_from_file(path, &|path: &String| self.read(path), &deserialize)
    }

    fn save(&self, checkpoint: &GraphCheckpoint, path: &String) -> StorageResult<()> {
        checkpoint.save_to_file(path, &mut self.world(|| 0))
    }

    /// A world with these files, whose log takes everything.
    fn world<'a, N: Fn() -> u128 + 'a>(&'a self, clock: N) -> impl Outside + 'a {
        World::new(
            |_entry: &RedoEntry| Ok(()),
            || Ok(()),
            |_lsn: u64| Ok(()),
            |path: &String| self.create(path),
            serialize,
            |path: &String, bytes: &Vec<u8>| self.write(path, bytes),
            |path: &String| self.remove(path),
            clock,
        )
    }

    fn listing(&self) -> Result<Vec<FoundFile>, String> {
        let mut found = Vec::new();
        for name in self.files.borrow().keys() {
            let name = name.strip_prefix("checkpoints/").unwrap().to_string();
            found.push(FoundFile { name, is_file: true });
        }
        Ok(found)
    }
}

fn names_of(vertex: &Vertex) -> Vec<ScalarValue> {
    let mut values = Vec::new();
    for i in 0..vertex.properties.len() {
        values.push(vertex.properties.get(i).unwrap().duplicate());
    }
    values
}

fn values_of(record: &PropertyRecord) -> Vec<ScalarValue> {
    (0..record.len()).map(|i| record.get(i).unwrap().duplicate()).collect()
}

#[test]
fn test_checkpoint_creation() {
    let mut graph = mock_graph();
    let checkpoint = GraphCheckpoint::new(&mut graph, 77);

    assert!(checkpoint.vertices.len() == 4);
    assert!(checkpoint.edges.len() == 4);

    let alice_vid = 1;
    let alice_serialized = checkpoint.vertices.get(&alice_vid).unwrap();
    assert_eq!(alice_serialized.data.vid, alice_vid);
    assert_eq!(
        names_of(&alice_serialized.data)[0],
        ScalarValue::String(Some("Alice".to_string()))
    );

    let alice_adj = checkpoint.adjacency_list.get(&alice_vid).unwrap();
    assert!(alice_adj.outgoing.len() == 2);
    assert!(alice_adj.incoming.len() == 1);

    assert_eq!(checkpoint.metadata.timestamp, 77);
    assert_eq!(checkpoint.metadata.latest_commit_ts, 2);
    assert_eq!(checkpoint.metadata.version, 1);
    assert!(checkpoint.is_complete());
}

#[test]
fn test_checkpoint_save_and_load() {
    let mut graph = mock_graph();
    let directory = Directory::new();
    let checkpoint_path = "checkpoint_save_load.bin".to_string();
    let checkpoint = GraphCheckpoint::new(&mut graph, 0);
    directory.save(&checkpoint, &checkpoint_path).unwrap();

    let loaded_checkpoint = directory.load(&checkpoint_path).unwrap();

    assert_eq!(loaded_checkpoint.vertices.len(), checkpoint.vertices.len());
    assert_eq!(loaded_checkpoint.edges.len(), checkpoint.edges.len());
    assert_eq!(loaded_checkpoint.adjacency_list.len(), checkpoint.adjacency_list.len());

    directory.remove(&checkpoint_path).unwrap();
}

#[test]
fn test_checkpoint_restore() {
    let mut original_graph = mock_graph();
    let checkpoint = GraphCheckpoint::new(&mut original_graph, 0);
    let mut restored_graph = checkpoint.restore(mock_checkpoint_config()).unwrap();

    let mut origin_txn = original_graph.begin_transaction(IsolationLevel::Serializable);
    let mut restore_txn = restored_graph.begin_transaction(IsolationLevel::Serializable);

    for vid in [1, 2] {
        let original = original_graph.get_vertex(&mut origin_txn, vid).unwrap();
        let restored = restored_graph.get_vertex(&mut restore_txn, vid).unwrap();
        assert_eq!(original.vid, restored.vid);
        assert_eq!(values_of(&original.properties), values_of(&restored.properties));
    }

    for eid in [1, 3] {
        let original = original_graph.get_edge(&mut origin_txn, eid).unwrap();
        let restored = restored_graph.get_edge(&mut restore_txn, eid).unwrap();
        assert_eq!(original.eid, restored.eid);
        assert_eq!(values_of(&original.properties), values_of(&restored.properties));
    }

    let original_alice_adj = original_graph.store.adjacency_list.get(1).unwrap();
    let restored_alice_adj = restored_graph.store.adjacency_list.get(1).unwrap();
    assert_eq!(original_alice_adj.outgoing.len(), restored_alice_adj.outgoing.len());
    assert_eq!(original_alice_adj.incoming.len(), restored_alice_adj.incoming.len());
    assert_eq!(restored_graph.next_lsn, checkpoint.metadata.lsn);
    assert_eq!(restored_graph.txn_manager.latest_commit_ts, 2);
}

#[test]
fn test_checkpoint_with_corrupted_file() {
    let mut graph = mock_graph();
    let directory = Directory::new();
    let checkpoint_path = "checkpoint_corrupted.bin".to_string();
    let checkpoint = GraphCheckpoint::new(&mut graph, 0);
    directory.save(&checkpoint, &checkpoint_path).unwrap();

    // What comes behind the length and the checksum.
    {
        let mut bytes = directory.read(&checkpoint_path).unwrap();
        bytes[8..12].copy_from_slice(&[0, 0, 0, 0]);
        directory.write(&checkpoint_path, &bytes).unwrap();
    }

    let result = directory.load(&checkpoint_path);
    assert!(result.is_err());
    match result {
        Err(StorageError::Checkpoint(CheckpointError::ChecksumMismatch)) => {}
        _ => panic!("Expected checksum mismatch error"),
    }
}

#[test]
fn test_checkpoint_manager() {
    let mut graph = mock_graph();
    let directory = Directory::new();
    let time = Cell::new(1000 * SECOND);
    let mut out = directory.world(|| time.get());
    let load = |path: &String| directory.load(path);
    let mut manager =
        CheckpointManager::new(mock_checkpoint_config(), directory.listing(), &load).unwrap();

    let mut checkpoint_ids = Vec::new();
    for i in 0..5 {
        let description = Some(format!("Test checkpoint {}", i));
        let id = manager.create_checkpoint(&mut graph, description, &mut out).unwrap();
        time.set(time.get() + SECOND);
        checkpoint_ids.push(id);
    }

    let checkpoints = manager.list_checkpoints();
    assert_eq!(checkpoints.len(), 3);
    assert_eq!(checkpoints[0].id, checkpoint_ids[4]);
    assert_eq!(checkpoints[0].created_at, 1004);
    assert_eq!(checkpoints[2].id, checkpoint_ids[2]);
    assert_eq!(checkpoints[2].description, Some("Test checkpoint 2".to_string()));

    assert!(manager.get_checkpoint(&checkpoint_ids[0]).is_err());
    assert!(manager.get_checkpoint(&checkpoint_ids[1]).is_err());

    assert!(manager.get_checkpoint(&checkpoint_ids[2]).is_ok());
    assert!(manager.get_checkpoint(&checkpoint_ids[3]).is_ok());
    assert!(manager.get_checkpoint(&checkpoint_ids[4]).is_ok());

    let checkpoint = manager.load_checkpoint(&checkpoint_ids[4], &load).unwrap();
    assert_eq!(checkpoint.vertices.len(), 4);

    let config = CheckpointManagerConfig { max_checkpoints: 7, ..mock_checkpoint_config() };
    let mut restored_graph =
        manager.restore_from_checkpoint(&checkpoint_ids[4], config, &load).unwrap();
    assert_eq!(restored_graph.checkpoint_config.max_checkpoints, 7);

    let mut original_txn = graph.begin_transaction(IsolationLevel::Serializable);
    let mut restored_txn = restored_graph.begin_transaction(IsolationLevel::Serializable);

    let original_alice = graph.get_vertex(&mut original_txn, 1).unwrap();
    let restored_alice = restored_graph.get_vertex(&mut restored_txn, 1).unwrap();
    assert_eq!(original_alice.vid, restored_alice.vid);

    assert_eq!(
        manager.get_checkpoint(&checkpoint_ids[4]).unwrap().path,
        format!("checkpoints/test_checkpoint_{}.bin", checkpoint_ids[4])
    );
    manager.delete_checkpoint(&checkpoint_ids[4], &mut out).unwrap();
    assert!(manager.get_checkpoint(&checkpoint_ids[4]).is_err());
    assert_eq!(directory.files.borrow().len(), 2);
}

#[test]
fn identifiers_are_random() {
    let mut graph = mock_graph();
    let directory = Directory::new();
    let mut out = directory.world(|| 5 * SECOND);
    let load = |path: &String| directory.load(path);
    let mut manager =
        CheckpointManager::new(mock_checkpoint_config(), directory.listing(), &load).unwrap();
    let first = manager.create_checkpoint(&mut graph, None, &mut out).unwrap();
    let second = manager.create_checkpoint(&mut graph, None, &mut out).unwrap();
    assert_ne!(first, second);
    for id in [&first, &second] {
        assert_eq!(id.len(), 36);
        for (i, c) in id.chars().enumerate() {
            if i == 8 || i == 13 || i == 18 || i == 23 {
                assert_eq!(c, '-');
            } else {
                assert!(matches!(c, '0'..='9' | 'a'..='f'));
            }
        }
    }
    // The files are found again by another manager.
    let again =
        CheckpointManager::new(mock_checkpoint_config(), directory.listing(), &load).unwrap();
    assert!(again.get_checkpoint(&first).is_ok());
    assert!(again.get_checkpoint(&second).is_ok());
    assert_eq!(again.get_checkpoint(&first).unwrap().description, None);
    assert_eq!(again.get_checkpoint(&first).unwrap().created_at, 5);
}

#[test]
fn active_transactions_are_waited_for() {
    let mut graph = mock_graph();
    let load = |_path: &String| -> StorageResult<GraphCheckpoint> { unreachable!() };
    let mut manager =
        CheckpointManager::new(mock_checkpoint_config(), Ok(vec![]), &load).unwrap();
    assert_eq!(manager.wait_for_transaction_quiescence(&graph, 0), Quiescence::Reached);
    let mut txn = graph.begin_transaction(IsolationLevel::Snapshot);
    assert_eq!(
        manager.wait_for_transaction_quiescence(&graph, 10 * SECOND),
        Quiescence::Waiting
    );
    assert_eq!(
        manager.wait_for_transaction_quiescence(&graph, 10 * SECOND + 1),
        Quiescence::TimedOut
    );
    let directory = Directory::new();
    let mut out = directory.world(|| 0);
    match manager.create_checkpoint(&mut graph, None, &mut out) {
        Err(StorageError::Checkpoint(CheckpointError::Timeout)) => {}
        other => panic!("unexpected outcome {:?}", other),
    }
    txn.abort(&mut graph, &mut quiet()).unwrap();
    assert_eq!(manager.wait_for_transaction_quiescence(&graph, 0), Quiescence::Reached);
    assert!(manager.create_checkpoint(&mut graph, None, &mut out).is_ok());
}

#[test]
fn each_step_of_a_checkpoint_can_fail() {
    let load = |_path: &String| -> StorageResult<GraphCheckpoint> { unreachable!() };
    let failing = Cell::new(0);
    let fail = |step: i32| -> Result<(), String> {
        if failing.get() == step {
            Err(format!("step {}", step))
        } else {
            Ok(())
        }
    };
    let steps: RefCell<Vec<i32>> = RefCell::new(Vec::new());
    let step = |step: i32| -> Result<(), String> {
        steps.borrow_mut().push(step);
        fail(step)
    };
    let mut out = World::new(
        |_entry: &RedoEntry| Ok(()),
        || Ok(()),
        |_lsn: u64| step(1).map_err(|e| StorageError::Wal(WalError::Io(e))),
        |_path: &String| step(2),
        |_checkpoint: &GraphCheckpoint| step(3).map(|_| vec![1, 2, 3]),
        |_path: &String, _bytes: &Vec<u8>| step(4),
        |_path: &String| step(5),
        || 0,
    );
    let mut config = mock_checkpoint_config();
    config.max_checkpoints = 1;
    let mut manager = CheckpointManager::new(config, Ok(vec![]), &load).unwrap();
    let mut graph = mock_graph();
    failing.set(1);
    let failed = manager.create_checkpoint(&mut graph, None, &mut out);
    // Nothing is tried behind the step that fails.
    assert_eq!(steps.take(), (1..=1).collect::<Vec<i32>>());
    match failed {
        Err(StorageError::Wal(WalError::Io(text))) => assert_eq!(text, "step 1"),
        other => panic!("unexpected outcome {:?}", other),
    }
    failing.set(2);
    let failed = manager.create_checkpoint(&mut graph, None, &mut out);
    // Nothing is tried behind the step that fails.
    assert_eq!(steps.take(), (1..=2).collect::<Vec<i32>>());
    match failed {
        Err(StorageError::Checkpoint(CheckpointError::Io(text))) => assert_eq!(text, "step 2"),
        other => panic!("unexpected outcome {:?}", other),
    }
    failing.set(3);
    let failed = manager.create_checkpoint(&mut graph, None, &mut out);
    // Nothing is tried behind the step that fails.
    assert_eq!(steps.take(), (1..=3).collect::<Vec<i32>>());
    match failed {
        Err(StorageError::Checkpoint(CheckpointError::SerializationFailed(text))) => {
            assert_eq!(text, "step 3");
        }
        other => panic!("unexpected outcome {:?}", other),
    }
    failing.set(4);
    let failed = manager.create_checkpoint(&mut graph, None, &mut out);
    // Nothing is tried behind the step that fails.
    assert_eq!(steps.take(), (1..=4).collect::<Vec<i32>>());
    match failed {
        Err(StorageError::Checkpoint(CheckpointError::Io(text))) => assert_eq!(text, "step 4"),
        other => panic!("unexpected outcome {:?}", other),
    }
    assert_eq!(manager.list_checkpoints().len(), 0);
    failing.set(5);
    assert!(manager.create_checkpoint(&mut graph, None, &mut out).is_ok());
    match manager.create_checkpoint(&mut graph, None, &mut out) {
        Err(StorageError::Checkpoint(CheckpointError::Io(text))) => assert_eq!(text, "step 5"),
        other => panic!("unexpected outcome {:?}", other),
    }
    // What could not be removed is forgotten all the same.
    assert_eq!(manager.list_checkpoints().len(), 1);
}

#[test]
fn missing_checkpoints_are_reported() {
    let load = |_path: &String| -> StorageResult<GraphCheckpoint> { unreachable!() };
    let mut manager =
        CheckpointManager::new(mock_checkpoint_config(), Ok(vec![]), &load).unwrap();
    match manager.get_checkpoint("nothing") {
        Err(StorageError::Checkpoint(CheckpointError::CheckpointNotFound(id))) => {
            assert_eq!(id, "nothing");
        }
        other => panic!("unexpected outcome {:?}", other),
    }
    assert!(manager.load_checkpoint("nothing", &load).is_err());
    assert!(manager.delete_checkpoint("nothing", &mut quiet()).is_err());
    match CheckpointManager::new(mock_checkpoint_config(), Err("no".to_string()), &load) {
        Err(StorageError::Checkpoint(CheckpointError::Io(text))) => assert_eq!(text, "no"),
        _ => panic!("there should be an error"),
    }
}

#[test]
fn automatic_checkpoints_follow_the_clock() {
    let mut graph = mock_graph();
    let directory = Directory::new();
    let time = Cell::new(1000 * SECOND);
    let mut out = directory.world(|| time.get());
    let load = |path: &String| directory.load(path);
    assert_eq!(graph.check_auto_checkpoint(&mut out).unwrap(), None);
    match graph.create_managed_checkpoint(None, &mut out) {
        Err(StorageError::Checkpoint(CheckpointError::DirectoryError(text))) => {
            assert_eq!(text, "No checkpoint manager configured");
        }
        other => panic!("unexpected outcome {:?}", other),
    }
    let mut config = mock_checkpoint_config();
    config.auto_checkpoint_interval_secs = 60;
    graph.checkpoint_manager = Some(CheckpointManager::new(config, Ok(vec![]), &load).unwrap());
    let first = graph.check_auto_checkpoint(&mut out).unwrap().unwrap();
    let manager = graph.checkpoint_manager.as_ref().unwrap();
    let entry = manager.get_checkpoint(&first).unwrap();
    let description = entry.description.clone().unwrap();
    assert!(description.starts_with("Auto checkpoint at "));
    assert!(description.len() > "Auto checkpoint at ".len());
    time.set(1059 * SECOND + 999_999_999);
    assert_eq!(graph.check_auto_checkpoint(&mut out).unwrap(), None);
    time.set(1060 * SECOND);
    assert!(graph.check_auto_checkpoint(&mut out).unwrap().is_some());
    // A clock that was set back.
    time.set(1059 * SECOND);
    assert!(graph.check_auto_checkpoint(&mut out).unwrap().is_some());
    assert!(graph.create_managed_checkpoint(Some("mine".to_string()), &mut out).is_ok());
    assert_eq!(graph.checkpoint_manager.as_ref().unwrap().list_checkpoints().len(), 3);
}

#[test]
fn a_commit_can_bring_a_checkpoint() {
    let mut graph = mock_graph();
    let directory = Directory::new();
    let failing = Cell::new(false);
    let time = Cell::new(0);
    let mut out = World::new(
        |_entry: &RedoEntry| Ok(()),
        || Ok(()),
        |_lsn: u64| Ok(()),
        |path: &String| {
            if failing.get() {
                Err("no room".to_string())
            } else {
                directory.create(path)
            }
        },
        serialize,
        |path: &String, bytes: &Vec<u8>| directory.write(path, bytes),
        |path: &String| directory.remove(path),
        || time.get(),
    );
    let load = |path: &String| directory.load(path);
    // Without a manager there is none.
    let mut txn = graph.begin_transaction(IsolationLevel::Serializable);
    let ts = txn.commit(&mut graph, &mut out).unwrap();
    assert_eq!(ts, Timestamp(4));
    assert_eq!(directory.files.borrow().len(), 0);
    let mut config = mock_checkpoint_config();
    config.auto_checkpoint_interval_secs = 60;
    graph.checkpoint_manager = Some(CheckpointManager::new(config, Ok(vec![]), &load).unwrap());
    failing.set(true);
    let mut txn = graph.begin_transaction(IsolationLevel::Serializable);
    match txn.commit(&mut graph, &mut out) {
        Err(StorageError::Checkpoint(CheckpointError::Io(text))) => assert_eq!(text, "no room"),
        other => panic!("unexpected outcome {:?}", other),
    }
    // The transaction is committed all the same.
    assert_eq!(graph.txn_manager.latest_commit_ts, 6);
    failing.set(false);
    let mut txn = graph.begin_transaction(IsolationLevel::Serializable);
    txn.commit_at(&mut graph, Some(Timestamp(20)), true, &mut out).unwrap();
    assert_eq!(graph.txn_manager.latest_commit_ts, 20);
    assert_eq!(directory.files.borrow().len(), 1);
    // The same through a handle. Where another transaction is active, time is up.
    let _reader = graph.begin_transaction(IsolationLevel::Serializable);
    let mut handle =
        TransactionHandle::new(graph.begin_transaction(IsolationLevel::Serializable));
    time.set(60 * SECOND);
    match handle.commit(&mut graph, &mut out) {
        Err(StorageError::Checkpoint(CheckpointError::Timeout)) => {}
        other => panic!("unexpected outcome {:?}", other),
    }
    assert!(!handle.is_handled());
    assert_eq!(graph.txn_manager.latest_commit_ts, 23);
    assert_eq!(directory.files.borrow().len(), 1);
}

fn entry_at(lsn: u64) -> RedoEntry {
    RedoEntry {
        lsn,
        txn_id: Timestamp(1),
        iso_level: IsolationLevel::Serializable,
        op: Operation::Delta(DeltaOp::DelVertex(lsn)),
    }
}

#[test]
fn recovery_starts_from_the_latest_checkpoint() {
    let mut graph = mock_graph();
    let directory = Directory::new();
    graph.next_lsn = 6;
    let old = GraphCheckpoint::new(&mut graph, 1);
    let recent = GraphCheckpoint::new(&mut graph, 2);
    directory.save(&old, &"checkpoints/test_checkpoint_a.bin".to_string()).unwrap();
    directory.save(&recent, &"checkpoints/test_checkpoint_b.bin".to_string()).unwrap();
    let listing = Ok(vec![
        FoundFile { name: "other.bin".to_string(), is_file: true },
        FoundFile { name: "test_checkpoint_dir".to_string(), is_file: false },
        FoundFile { name: "test_checkpoint_b.bin".to_string(), is_file: true },
        FoundFile { name: "test_checkpoint_a.bin".to_string(), is_file: true },
    ]);
    let modified = |name: &String| -> Result<u128, String> {
        match name.as_str() {
            "checkpoints/test_checkpoint_a.bin" => Ok(10),
            "checkpoints/test_checkpoint_b.bin" => Ok(20),
            other => panic!("{} is none of ours", other),
        }
    };
    let config = mock_checkpoint_config();
    assert_eq!(
        MemoryGraph::find_most_recent_checkpoint(&config, &listing, &modified).unwrap(),
        Some("checkpoints/test_checkpoint_b.bin".to_string())
    );
    let load = |path: &String| directory.load(path);
    let read_all = || Ok(vec![entry_at(5), entry_at(7), entry_at(9)]);
    let applied: RefCell<Vec<u64>> = RefCell::new(Vec::new());
    let apply = |graph: MemoryGraph, entries: Vec<RedoEntry>| -> StorageResult<MemoryGraph> {
        applied.borrow_mut().extend(entries.iter().map(|entry| entry.lsn));
        Ok(graph)
    };
    let recovered = MemoryGraph::recover_from_checkpoint_and_wal(
        &config, &listing, &modified, &load, &read_all, &apply,
    )
    .unwrap();
    assert_eq!(recovered.next_lsn, 7);
    assert_eq!(recovered.store.vertices.len(), 4);
    assert_eq!(applied.take(), vec![7, 9]);

    // Without a checkpoint, the log is all there is.
    let recovered = MemoryGraph::recover_from_checkpoint_and_wal(
        &config, &Ok(vec![]), &modified, &load, &read_all, &apply,
    )
    .unwrap();
    assert_eq!(recovered.store.vertices.len(), 0);
    assert_eq!(applied.take(), vec![5, 7, 9]);

    // Nothing is applied where the checkpoint has it all.
    let nothing_new = || Ok(vec![entry_at(5)]);
    let recovered = MemoryGraph::recover_from_checkpoint_and_wal(
        &config, &listing, &modified, &load, &nothing_new, &apply,
    )
    .unwrap();
    assert_eq!(recovered.store.vertices.len(), 4);
    assert_eq!(applied.take(), Vec::<u64>::new());

    // An error of the applying step comes out.
    let refusing = |_graph: MemoryGraph, _entries: Vec<RedoEntry>| -> StorageResult<MemoryGraph> {
        Err(StorageError::Checkpoint(CheckpointError::Io("not applied".to_string())))
    };
    let refused = MemoryGraph::recover_from_checkpoint_and_wal(
        &config, &listing, &modified, &load, &read_all, &refusing,
    );
    assert!(matches!(
        refused,
        Err(StorageError::Checkpoint(CheckpointError::Io(text))) if text == "not applied"
    ));

    let failing = |_name: &String| -> Result<u128, String> { Err("no time".to_string()) };
    match MemoryGraph::find_most_recent_checkpoint(&config, &listing, &failing) {
        Err(StorageError::Checkpoint(CheckpointError::Io(text))) => assert_eq!(text, "no time"),
        other => panic!("unexpected outcome {:?}", other),
    }
}

#[test]
fn frames_hold_length_and_checksum() {
    let bytes = b"123456789".to_vec();
    let file = seal(&bytes);
    // The check value of CRC-32 for these nine digits.
    assert_eq!(file[0..4], 9u32.to_le_bytes());
    assert_eq!(file[4..8], 0xcbf43926u32.to_le_bytes());
    assert_eq!(file[8..], bytes[..]);
    assert_eq!(unseal(&file).unwrap(), bytes);

    assert_eq!(frame(&vec![7], 1), vec![1, 0, 0, 0, 1, 0, 0, 0, 7]);
    assert_eq!(unframe(&vec![1, 0, 0, 0, 1, 0, 0, 0, 7, 8]).unwrap(), (vec![7], 1));
    assert_eq!(accept(vec![7], 3, 3).unwrap(), vec![7]);
    match accept(vec![7], 3, 4) {
        Err(StorageError::Checkpoint(CheckpointError::ChecksumMismatch)) => {}
        other => panic!("unexpected outcome {:?}", other),
    }
    for len in [0, 3, 7, 16] {
        match unseal(&file[..len].to_vec()) {
            Err(StorageError::Checkpoint(CheckpointError::Io(_))) => {}
            other => panic!("unexpected outcome {:?}", other),
        }
    }
}

#[test]
fn bytes_that_are_no_checkpoint_are_refused() {
    let directory = Directory::new();
    let path = "file".to_string();
    directory.files.borrow_mut().insert(path.clone(), seal(&vec![0xff]));
    match directory.load(&path) {
        Err(StorageError::Checkpoint(CheckpointError::DeserializationFailed(_))) => {}
        _ => panic!("there should be an error"),
    }
    match directory.load(&"absent".to_string()) {
        Err(StorageError::Checkpoint(CheckpointError::Io(text))) => {
            assert_eq!(text, "absent is not there");
        }
        _ => panic!("there should be an error"),
    }
}

#[test]
fn names_of_files_hold_the_identifier() {
    let name = checkpoint_file("checkpoint", "some-id");
    assert_eq!(name, "checkpoint_some-id.bin");
    assert_eq!(checkpoint_id(&name, "checkpoint"), "some-id");
    assert!(starts_with("checkpoint_x", "checkpoint"));
    assert!(!starts_with("check", "checkpoint"));
    assert!(starts_with("anything", ""));
}

#[test]
fn paths_are_joined() {
    for (dir, name) in [("a", "b"), ("a/", "b"), ("", "b"), ("a", "/b"), ("/", "b"), ("a/b", "c")] {
        let path = std::path::Path::new(dir).join(name);
        assert_eq!(join_path(dir, name), path.to_str().unwrap());
    }
}

#[test]
fn neighbours_along_missing_edges_are_noticed() {
    let mut graph = mock_graph();
    let mut checkpoint = GraphCheckpoint::new(&mut graph, 0);
    assert!(checkpoint.is_complete());
    checkpoint.edges.remove(&3);
    assert!(!checkpoint.is_complete());
}

#[test]
fn a_restored_graph_gives_the_same_checkpoint() {
    let mut graph = mock_graph();
    let checkpoint = GraphCheckpoint::new(&mut graph, 9);
    let mut restored = checkpoint.restore(mock_checkpoint_config()).unwrap();
    let again = GraphCheckpoint::new(&mut restored, 9);
    assert_eq!(again.metadata.lsn, checkpoint.metadata.lsn);
    assert_eq!(again.metadata.latest_commit_ts, checkpoint.metadata.latest_commit_ts);
    for (vid, vertex) in &checkpoint.vertices {
        let other = again.vertices.get(vid).unwrap();
        assert_eq!(other.commit_ts, vertex.commit_ts);
        assert_eq!(values_of(&other.data.properties), values_of(&vertex.data.properties));
    }
    for (vid, list) in &checkpoint.adjacency_list {
        let other = again.adjacency_list.get(vid).unwrap();
        assert_eq!(other.outgoing, list.outgoing);
        assert_eq!(other.incoming, list.incoming);
    }
}

#[test]
fn what_is_not_committed_is_left_out() {
    let mut graph = mock_graph();
    let committed = GraphCheckpoint::new(&mut graph, 0);
    let mut txn = graph.begin_transaction(IsolationLevel::Serializable);
    graph.create_vertex(&mut txn, person(5, "Eve", 30)).unwrap();
    // The transaction renames a vertex and deletes an edge.
    let vertex = graph.store.vertices.get(1).unwrap();
    let rename = UndoEntry::new(
        DeltaOp::SetVertexProps(
            1,
            SetPropsOp {
                indices: vec![0],
                props: vec![ScalarValue::String(Some("Alice".to_string()))],
            },
        ),
        vertex.commit_ts,
        vertex.undo_ptr,
    );
    let edge = graph.store.edges.get(4).unwrap();
    let delete =
        UndoEntry::new(DeltaOp::CreateEdge(edge.data.duplicate()), edge.commit_ts, edge.undo_ptr);
    let key = graph.store.next_undo;
    graph.store.undo_log.insert(key, rename);
    graph.store.undo_log.insert(key + 1, delete);
    graph.store.next_undo = key + 2;
    let vertex = graph.store.vertices.get_mut(1).unwrap();
    vertex.data.properties.set_prop(0, ScalarValue::String(Some("Mallory".to_string())));
    vertex.commit_ts = txn.txn_id();
    vertex.undo_ptr = Some(key);
    let edge = graph.store.edges.get_mut(4).unwrap();
    edge.data.is_tombstone = true;
    edge.commit_ts = txn.txn_id();
    edge.undo_ptr = Some(key + 1);
    txn.undo_buffer.push(key);
    txn.undo_buffer.push(key + 1);

    let during = GraphCheckpoint::new(&mut graph, 0);
    assert_eq!(during.metadata.version, 1);
    assert_eq!(during.vertices.len(), 4);
    assert!(!during.vertices.contains_key(&5));
    let alice = during.vertices.get(&1).unwrap();
    assert_eq!(names_of(&alice.data)[0], ScalarValue::String(Some("Alice".to_string())));
    assert_eq!(alice.commit_ts, committed.vertices.get(&1).unwrap().commit_ts);
    assert_eq!(during.edges.len(), 4);
    assert!(!during.edges.get(&4).unwrap().data.is_tombstone);
    assert_eq!(during.edges.get(&4).unwrap().commit_ts, committed.edges.get(&4).unwrap().commit_ts);

    txn.commit(&mut graph, &mut quiet()).unwrap();
    let after = GraphCheckpoint::new(&mut graph, 0);
    assert_eq!(after.vertices.len(), 5);
    assert!(after.edges.get(&4).unwrap().data.is_tombstone);
    let alice = after.vertices.get(&1).unwrap();
    assert_eq!(names_of(&alice.data)[0], ScalarValue::String(Some("Mallory".to_string())));
}
