//! Procedures that can be called by name.

pub mod create_test_graph;
