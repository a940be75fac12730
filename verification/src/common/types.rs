//! Identifiers of graph elements.

use vstd::prelude::*;

verus! {

/// Identifies a vertex.
pub type VertexId = u64;

/// Identifies an edge.
pub type EdgeId = u64;

/// Identifies a label. Labels are numbered from one.
pub type LabelId = u32;

} // verus!
