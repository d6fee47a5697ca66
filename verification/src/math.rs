//! Choices of vector norm and of distance. The floating-point computations
//! that interpret them belong to the callers that consume feature vectors;
//! the library only carries the selection.

use vstd::prelude::*;

verus! {

/// The vector norms a caller may normalize by.
#[derive(Debug, Clone, Copy, PartialEq, Eq, Structural)]
pub enum Norm {
    /// Sum of absolute values.
    L1,
    /// Square root of the sum of squares.
    L2,
}

/// The distances a nearest-neighbor consumer may rank by.
#[derive(Debug, Clone, Copy, PartialEq, Eq, Structural)]
pub enum Distance {
    Euclidean,
    Manhattan,
}

} // verus!
