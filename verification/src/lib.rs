//! An embedded graph database core whose logic is verified with Verus.

pub mod catalog;
pub mod collections;
pub mod common;
pub mod execution;
pub mod procedures;
pub mod query;
pub mod session;
pub mod shell;
pub mod client_laws;
pub mod storage;
