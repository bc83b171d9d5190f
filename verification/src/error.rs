//! The ways in which setting up or stepping a pipeline can fail.

use vstd::prelude::*;

verus! {

/// A configuration that no pipeline can be built from.
#[derive(Clone, Copy, Debug, PartialEq, Eq, Structural)]
pub enum ConfigurationError {
    /// The grid size is not a power of two.
    GridNotPowerOfTwo,
    /// The grid size is a power of two beyond `MAX_GRID`.
    GridTooLarge,
    /// The wind intensity is not greater than zero.
    WindNotPositive,
    /// The capillary suppression length is not greater than zero.
    SuppressionNotPositive,
}

/// A value that is not a finite number, found in a field that a step produced.
#[derive(Clone, Copy, Debug, PartialEq, Eq, Structural)]
pub enum NumericAnomaly {
    /// The field does not hold one value per cell of the grid.
    WrongLength,
    /// The value at this position of the field is a NaN or an infinity.
    NotFinite { index: usize },
}

} // verus!
