//! Storage that handles share, and the closed set of types it holds.
use crate::float64::Float64;
use std::sync::Arc;
use vstd::prelude::*;

verus! {

/// Only the physical types of the format have it: those of value and code
/// buffers, and those of bitmaps and of a dictionary's strings.
pub trait Sealed {

}

impl Sealed for Float64 {

}

impl Sealed for i64 {

}

impl Sealed for u32 {

}

impl Sealed for i32 {

}

impl Sealed for u8 {

}

/// `std::sync::Arc::make_mut`: a mutable reference to the shared vector,
/// which is first copied where other handles share it. The elements are
/// those that were shared (the element types are a closed set, and clones of
/// theirs are copies), and what is written through the reference is what
/// this handle then holds; other handles keep what they had.
#[verifier::external_body]
pub(crate) fn make_unique<T: Sealed + Copy>(shared: &mut Arc<Vec<T>>) -> (owned: &mut Vec<T>)
    ensures
        owned@ == (**old(shared))@,
        (**final(shared))@ == (*final(owned))@,
{
    Arc::make_mut(shared)
}

} // verus!
