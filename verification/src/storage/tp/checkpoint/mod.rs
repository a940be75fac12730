//! Checkpoints: snapshots of the graph, their files, and recovery from them.

pub mod committed;
pub mod frame;
pub mod snapshot;
pub mod laws;
pub mod names;
pub mod manager;
pub mod recovery;
pub mod recovery_laws;
pub mod file_laws;
