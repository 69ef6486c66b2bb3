//! Narrow access to properties of a reference-counted allocation.
//!
//! The list's `same` operation distinguishes two handles to the literal same
//! allocation from two independently built, structurally equal lists.  That
//! distinction lies below the level of values, so the comparison itself is
//! delegated to the standard library and only what holds of every outcome is
//! stated here.

use std::rc::Rc;
use vstd::prelude::*;

verus! {

/// Relies on `std::rc::Rc::ptr_eq`: it returns `true` only when both handles
/// point to the same allocation, and one allocation holds one value, so a
/// `true` answer implies the pointed-to values are equal.  Which of two
/// structurally equal allocations a handle refers to is invisible to the
/// caller, so nothing is promised of a `false` answer.
#[verifier::external_body]
pub(crate) fn same_allocation<T>(a: &Rc<T>, b: &Rc<T>) -> (r: bool)
    ensures
        r ==> *a == *b,
{
    Rc::ptr_eq(a, b)
}

} // verus!
