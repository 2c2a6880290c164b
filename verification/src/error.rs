//! The conditions under which the library refuses its input.

use vstd::prelude::*;

verus! {

/// A precondition that the input did not meet.
#[derive(Debug, Clone, Copy, PartialEq, Eq, Structural)]
pub enum PreconditionViolation {
    /// The number of pixels handed over is not width times height.
    LengthMismatch,
    /// A width or a height is above what a coordinate can address.
    DimensionTooLarge,
    /// The library of overlay pictures is empty.
    EmptyLibrary,
    /// An annealing run of zero steps was asked for.
    ZeroSteps,
    /// A layer with zero restarts was asked for.
    ZeroStarts,
}

} // verus!
