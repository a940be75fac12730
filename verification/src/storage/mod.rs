//! Storage of property graphs.

pub mod ap;
pub mod error;
pub mod properties;
pub mod tp;
