//! Sharing of immutable values behind reference-counted pointers.
use std::rc::Rc;
use vstd::prelude::*;

verus! {

/// Another pointer to the value `rc` points to.
///
/// Calls `Rc::clone`, which std documents as making a new pointer to the same
/// allocation: the value seen through the result is the value seen through
/// `rc`. That equality is taken on trust.
#[verifier::external_body]
pub(crate) fn share<T>(rc: &Rc<T>) -> (res: Rc<T>)
    ensures
        res == *rc,
{
    Rc::clone(rc)
}

} // verus!
