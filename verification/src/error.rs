//! Why an input is turned away.

use vstd::prelude::*;

verus! {

/// The ways in which an input can be unfit for an operation.
#[derive(Clone, Copy, Debug, PartialEq, Eq, Structural)]
pub enum InvalidInput {
    /// A dimension is zero.
    Empty,
    /// The sample array does not have the length that the dimensions call for.
    LengthMismatch,
    /// The buffer has more pixels than the operation can take.
    TooLarge,
    /// The buffer is smaller than the window that the operation slides over it.
    TooSmall,
    /// The input comes when none is awaited.
    Unexpected,
}

} // verus!
