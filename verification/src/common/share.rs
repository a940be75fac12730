//! Sharing of immutable data between owners.

use std::sync::Arc;

use vstd::prelude::*;

verus! {

/// `Arc::clone`: a second pointer to the same value.
#[verifier::external_body]
pub(crate) fn share<T>(shared: &Arc<T>) -> (copy: Arc<T>)
    ensures
        copy == *shared,
{
    shared.clone()
}

} // verus!
