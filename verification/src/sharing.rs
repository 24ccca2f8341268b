use std::sync::Arc;
use vstd::prelude::*;

verus! {

/// `Arc::clone`: a second owner of the value that `handle` owns. The two
/// own the same value, so what is behind them is equal.
#[verifier::external_body]
pub(crate) fn share<T>(handle: &Arc<T>) -> (shared: Arc<T>)
    ensures
        shared == *handle,
{
    Arc::clone(handle)
}

} // verus!
