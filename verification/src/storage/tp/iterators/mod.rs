//! Iteration over what a transaction sees.

pub mod adjacency_iterator;
pub mod laws;
pub mod walk_laws;
pub mod vertex_iterator;
