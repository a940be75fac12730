//! The analytical storage: vertices and blocks of edges in arrays.

pub mod bits;
pub mod model;
pub mod olap_graph;
pub mod iterators;
pub mod update;
pub mod compress;
pub mod laws;
pub mod slot_laws;
