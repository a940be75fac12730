//! The transactional storage: versions of vertices and edges in memory.

pub mod model;
pub mod outside;
pub mod read_set;
pub mod manager;
pub mod gc;
pub mod gc_laws;
pub mod handle;
pub mod laws;
pub mod write_laws;
pub mod commit_laws;
pub mod memory_graph;
pub mod transaction;
pub mod iterators;
pub mod checkpoint;
