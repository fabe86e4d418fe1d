//! Sharing of immutable values between the streams of a request.
use std::sync::Arc;
use vstd::prelude::*;

verus! {

/// Calls `Arc::clone`. Believed, as the standard library documents it: the
/// new handle points to the same value.
#[verifier::external_body]
pub(crate) fn share<T>(handle: &Arc<T>) -> (other: Arc<T>)
    ensures
        other == *handle,
{
    Arc::clone(handle)
}

} // verus!
