//! The ways in which a dithering operation is refused.

use vstd::prelude::*;

verus! {

/// Why an operation was refused.
#[derive(Clone, Copy, Debug, PartialEq, Eq, Structural)]
pub enum DitherError {
    /// The matrix dimension or the resolution multiplier is zero.
    ZeroDimension,
    /// The layer and the target of a layered pass differ in width or height.
    DimensionMismatch,
}

} // verus!
