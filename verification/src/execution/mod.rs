//! Execution of queries over chunks of rows.

pub mod aggregate;
pub mod collect;
pub mod error;
pub mod evaluator;
pub mod executor;
pub mod laws;
pub mod stream_laws;
pub mod value_laws;
pub mod number_laws;
pub mod group_laws;
pub mod state;
