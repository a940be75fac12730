//! Identifiers, scalar values and the other data that every layer shares.

pub mod array;
pub mod chunk;
pub mod data_type;
pub mod laws;
pub mod share;
pub mod text;
pub mod types;
pub mod value;
