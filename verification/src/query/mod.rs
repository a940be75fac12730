//! From parsed queries to plans.

pub mod ast;
pub mod binder;
pub mod bound;
pub mod error;
pub mod laws;
pub mod pattern;
pub mod plan;
pub mod statement;
