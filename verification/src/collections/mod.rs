//! The concurrent collections that the storage engine is built on, with the contracts that the
//! rest of the library relies on, and the verified containers layered on top of them.

pub mod dash;
pub mod skip;
pub mod slot_map;
