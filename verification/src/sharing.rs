//! Shared-ownership helpers: the copy-on-write discipline for vertex payloads
//! and edge weights rests on these two operations.

use vstd::prelude::*;
use std::sync::Arc;

verus! {

use vstd::pervasive::cloned;

/// Relies on Arc::clone: the result is a new handle to the same shared value,
/// so it equals the original.
#[verifier::external_body]
pub(crate) fn arc_clone<T>(a: &Arc<T>) -> (r: Arc<T>)
    ensures
        r == *a,
{
    Arc::clone(a)
}

/// Relies on Arc::make_mut: gives exclusive access to the shared value, cloning
/// it first when other handles exist; afterwards the handle holds exactly what
/// was written through the returned reference.
#[verifier::external_body]
pub(crate) fn arc_make_mut<T: Clone>(a: &mut Arc<T>) -> (r: &mut T)
    ensures
        cloned::<T>(**old(a), *r),
        **final(a) == *final(r),
{
    Arc::make_mut(a)
}

} // verus!
