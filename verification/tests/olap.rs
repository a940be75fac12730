//! The analytical storage: blocks of edges, columns of properties, and their compression.

use dashmap::DashMap;
use minigu::common::value::ScalarValue;
use minigu::storage::ap::model::{
    OlapEdge, OlapPropertyStore, OlapStorage, OlapStorageEdge, OlapVertex, PropertyColumn,
    BLOCK_CAPACITY, NO_BLOCK,
};
use minigu::storage::error::{EdgeNotFoundError, StorageError, VertexNotFoundError};
use minigu::storage::properties::PropertyRecord;

fn storage(columns: usize) -> OlapStorage {
    OlapStorage {
        logic_id_counter: 0,
        dense_id_map: DashMap::default(),
        vertices: vec![],
        edges: vec![],
        property_columns: (0..columns).map(|_| PropertyColumn { blocks: vec![] }).collect(),
        is_edge_compressed: false,
        compressed_edges: vec![],
        is_property_compressed: false,
        compressed_properties: vec![],
    }
}

fn vertex(vid: u64) -> OlapVertex {
    OlapVertex {
        vid,
        properties: PropertyRecord::new(vec![ScalarValue::Int32(Some(vid as i32))]),
        block_offset: 0,
    }
}

fn edge(label: u32, src: u64, dst: u64, weight: Option<i32>) -> OlapEdge {
    OlapEdge {
        label_id: Some(label),
        src_id: src,
        dst_id: dst,
        properties: OlapPropertyStore::new(vec![weight.map(|n| ScalarValue::Int32(Some(n)))]),
    }
}

/// Three vertices, with edges from the first to the others.
fn small() -> OlapStorage {
    let mut storage = storage(1);
    for vid in [5, 6, 7] {
        assert_eq!(storage.create_vertex(&(), vertex(vid)).unwrap(), vid);
    }
    storage.create_edge(&(), edge(102, 5, 20, Some(2))).unwrap();
    storage.create_edge(&(), edge(101, 5, 12, None)).unwrap();
    assert_eq!(storage.create_edge(&(), edge(100, 5, 10, Some(0))).unwrap(), Some(100));
    storage
}

fn missing_vertex<T>(result: Result<T, StorageError>) -> String {
    match result {
        Err(StorageError::VertexNotFound(VertexNotFoundError::VertexNotFound(text))) => text,
        _ => panic!("there should be no vertex"),
    }
}

fn missing_edge<T>(result: Result<T, StorageError>) -> String {
    match result {
        Err(StorageError::EdgeNotFound(EdgeNotFoundError::EdgeNotFound(text))) => text,
        _ => panic!("there should be no edge"),
    }
}

#[test]
fn created_vertices_are_found() {
    let mut storage = small();
    let found = storage.get_vertex(&(), 6).unwrap();
    assert_eq!(found.vid, 6);
    assert_eq!(found.block_offset, NO_BLOCK);
    assert_eq!(found.properties.get(0), Some(&ScalarValue::Int32(Some(6))));
    assert_eq!(missing_vertex(storage.get_vertex(&(), 9)), "Vertex 9 not found");
    assert_eq!(
        missing_vertex(storage.create_vertex(&(), vertex(5))),
        "Vertex 5 is existed"
    );
    assert_eq!(
        missing_vertex(storage.create_edge(&(), edge(1, 9, 5, None))),
        "Source vertex 9 not found"
    );
}

#[test]
fn vertices_are_told_apart_by_their_identifiers() {
    let mut changed = vertex(1);
    changed.properties = PropertyRecord::new(vec![ScalarValue::Int32(Some(7))]);
    changed.block_offset = 3;
    assert!(vertex(1) == changed);
    assert!(vertex(1) != vertex(2));
}

#[test]
fn edges_are_kept_in_order() {
    let storage = small();
    let block = &storage.edges[0];
    assert_eq!(block.edge_counter, 3);
    let dsts: Vec<u64> = block.edges[..3].iter().map(|edge| edge.dst_id).collect();
    assert_eq!(dsts, vec![10, 12, 20]);
    assert_eq!((block.min_dst_id, block.max_dst_id), (10, 20));
    assert_eq!((block.min_label_id, block.max_label_id), (Some(100), Some(102)));
    assert_eq!(block.edges[3], OlapStorageEdge::default());
    assert_eq!(block.src_id, 5);
    // The properties are where their edges are.
    let values = &storage.property_columns[0].blocks[0].values;
    assert_eq!(values[0], Some(ScalarValue::Int32(Some(0))));
    assert_eq!(values[1], None);
    assert_eq!(values[2], Some(ScalarValue::Int32(Some(2))));
    let found = storage.get_edge(&(), Some(102)).unwrap();
    assert_eq!((found.src_id, found.dst_id), (5, 20));
    assert_eq!(found.properties.get(0), Some(ScalarValue::Int32(Some(2))));
    assert_eq!(missing_edge(storage.get_edge(&(), Some(99))), "Edge 99 not found");
}

#[test]
fn iterators_go_through_everything() {
    let mut storage = small();
    storage.create_edge(&(), edge(200, 6, 5, Some(9))).unwrap();
    let mut vertices = storage.iter_vertices(&()).unwrap();
    let mut vids = Vec::new();
    while let Some(next) = vertices.next() {
        vids.push(next.unwrap().vid);
    }
    assert_eq!(vids, vec![5, 6, 7]);
    let mut edges = storage.iter_edges(&()).unwrap();
    let mut ends = Vec::new();
    while let Some(next) = edges.next() {
        let next = next.unwrap();
        ends.push((next.src_id, next.dst_id));
    }
    assert_eq!(ends, vec![(5, 10), (5, 12), (5, 20), (6, 5)]);
    let mut adjacent = storage.iter_adjacency(&(), 5).unwrap();
    let mut dsts = Vec::new();
    while let Some(next) = adjacent.next() {
        let next = next.unwrap();
        assert_eq!(next.src_id, 5);
        dsts.push(next.dst_id);
    }
    assert_eq!(dsts, vec![10, 12, 20]);
    assert!(storage.iter_adjacency(&(), 7).unwrap().next().is_none());
    assert_eq!(missing_vertex(storage.iter_adjacency(&(), 9)), "Vertex 9 not found");
}

#[test]
fn a_full_block_is_followed_by_another() {
    let mut storage = storage(0);
    storage.create_vertex(&(), vertex(5)).unwrap();
    for i in 0..BLOCK_CAPACITY as u64 + 1 {
        let mut added = edge(i as u32 + 10, 5, i + 2, None);
        added.properties = OlapPropertyStore::new(vec![]);
        storage.create_edge(&(), added).unwrap();
    }
    assert_eq!(storage.edges.len(), 2);
    assert_eq!(storage.edges[0].edge_counter, BLOCK_CAPACITY);
    assert_eq!(storage.edges[1].edge_counter, 1);
    assert_eq!(storage.edges[1].pre_block_index, Some(0));
    assert_eq!(storage.get_vertex(&(), 5).unwrap().block_offset, 1);
    let mut adjacent = storage.iter_adjacency(&(), 5).unwrap();
    // The last block comes first.
    assert_eq!(adjacent.next().unwrap().unwrap().dst_id, BLOCK_CAPACITY as u64 + 2);
    let mut rest = 0;
    while let Some(next) = adjacent.next() {
        next.unwrap();
        rest += 1;
    }
    assert_eq!(rest, BLOCK_CAPACITY);
}

#[test]
fn properties_are_set() {
    let mut storage = small();
    storage
        .set_vertex_property(&(), 6, vec![0], vec![ScalarValue::Int32(Some(60))])
        .unwrap();
    assert_eq!(
        storage.get_vertex(&(), 6).unwrap().properties.get(0),
        Some(&ScalarValue::Int32(Some(60)))
    );
    storage
        .set_edge_property(&(), Some(101), vec![0], vec![ScalarValue::Int32(Some(1))])
        .unwrap();
    assert_eq!(
        storage.get_edge(&(), Some(101)).unwrap().properties.get(0),
        Some(ScalarValue::Int32(Some(1)))
    );
    assert!(storage.set_vertex_property(&(), 9, vec![], vec![]).is_err());
    assert!(storage.set_edge_property(&(), Some(9), vec![], vec![]).is_err());
}

#[test]
fn deleted_edges_leave_no_gap() {
    let mut storage = small();
    storage.delete_edge(&(), Some(101)).unwrap();
    let block = &storage.edges[0];
    assert_eq!(block.edge_counter, 2);
    assert_eq!(block.edges[1], OlapStorageEdge { label_id: Some(102), dst_id: 20 });
    assert_eq!(block.edges[2], OlapStorageEdge::default());
    assert_eq!(
        storage.property_columns[0].blocks[0].values[1],
        Some(ScalarValue::Int32(Some(2)))
    );
    assert_eq!(missing_edge(storage.get_edge(&(), Some(101))), "Edge 101 not found");
    assert_eq!(missing_edge(storage.delete_edge(&(), Some(101))), "Edge 101 not found");
    storage.delete_edge(&(), Some(100)).unwrap();
    storage.delete_edge(&(), Some(102)).unwrap();
    assert!(storage.edges[0].is_tombstone);
}

#[test]
fn deleted_vertices_take_their_blocks_along() {
    let mut storage = small();
    storage.delete_vertex(&(), 5).unwrap();
    assert!(storage.edges[0].is_tombstone);
    assert_eq!(storage.vertices.len(), 2);
    assert!(storage.iter_edges(&()).unwrap().next().is_none());
    assert_eq!(missing_vertex(storage.delete_vertex(&(), 5)), "Vertex 5 not found");
}

#[test]
fn edges_are_compressed_to_differences() {
    let mut storage = small();
    storage.compress_edge();
    assert!(storage.is_edge_compressed);
    assert!(storage.edges.is_empty());
    let block = &storage.compressed_edges[0];
    assert_eq!(block.first_dst_id, 10);
    assert_eq!(block.edge_counter, 3);
    // The greatest difference is eight, which takes four bits.
    assert_eq!(block.delta_bit_width, 4);
    let bits: Vec<bool> = (0..8).map(|i| block.compressed_dst_ids.get(i)).collect();
    assert_eq!(bits, vec![false, true, false, false, false, false, false, true]);
    assert_eq!(block.label_ids[..4], [Some(100), Some(101), Some(102), Some(1)]);
    // Once is enough.
    storage.compress_edge();
    assert_eq!(storage.compressed_edges.len(), 1);
}

#[test]
fn properties_are_compressed_to_those_present() {
    let mut storage = small();
    storage.compress_property();
    assert!(storage.property_columns.is_empty());
    let block = &storage.compressed_properties[0].blocks[0];
    assert!(block.bitmap.get(0));
    assert!(!block.bitmap.get(1));
    assert!(block.bitmap.get(2));
    assert!(!block.bitmap.get(255));
    assert_eq!(block.offsets[0], 2);
    assert_eq!(block.offsets[1], 0);
    assert_eq!(
        block.values,
        vec![ScalarValue::Int32(Some(0)), ScalarValue::Int32(Some(2))]
    );
    storage.compress_property();
    assert_eq!(storage.compressed_properties.len(), 1);
}

#[test]
fn deleting_what_was_created_gives_the_block_back() {
    let mut storage = small();
    let before = storage.edges[0].edges;
    storage.create_edge(&(), edge(150, 5, 15, Some(5))).unwrap();
    assert_eq!(storage.edges[0].edges[2].dst_id, 15);
    storage.delete_edge(&(), Some(150)).unwrap();
    assert_eq!(storage.edges[0].edges, before);
    assert_eq!(storage.edges[0].edge_counter, 3);
}

#[test]
fn the_edges_of_a_vertex_are_met_once() {
    let mut storage = storage(1);
    for vid in [5, 6] {
        storage.create_vertex(&(), vertex(vid)).unwrap();
    }
    let count = 2 * BLOCK_CAPACITY as u32 + 3;
    for i in 0..count {
        storage.create_edge(&(), edge(100 + i, 5, 1000 - i as u64, Some(i as i32))).unwrap();
        storage.create_edge(&(), edge(2000 + i, 6, 7, None)).unwrap();
    }
    let mut iter = storage.iter_adjacency(&(), 5).unwrap();
    let mut met = Vec::new();
    while let Some(next) = iter.next() {
        let edge = next.unwrap();
        assert_eq!(edge.src_id, 5);
        met.push((edge.label_id.unwrap(), edge.dst_id));
    }
    assert!(iter.next().is_none());
    assert_eq!(met.len(), count as usize);
    // The last block first, and in each block the edges by destination.
    let last: Vec<(u32, u64)> =
        (2 * BLOCK_CAPACITY as u32..count).rev().map(|i| (100 + i, 1000 - i as u64)).collect();
    assert_eq!(met[..3], last[..]);
    let mut labels: Vec<u32> = met.iter().map(|pair| pair.0).collect();
    labels.sort();
    assert_eq!(labels, (100..100 + count).collect::<Vec<u32>>());
}
