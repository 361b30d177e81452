//! Errors that the simulation reports to its caller.

use vstd::prelude::*;

verus! {

/// Why an operation on the simulation was refused. Nothing is changed by
/// an operation that returns one of these.
#[derive(Clone, Copy, Debug, PartialEq, Eq, Structural)]
pub enum SimError {
    /// A requested grid size is not positive or is above the supported
    /// maximum.
    InvalidDimensions,
    /// There is no grid: none was created yet, or it was freed.
    NotInitialized,
    /// A coordinate lies outside the grid.
    OutOfBounds,
    /// A cell names a material that the material table does not hold.
    UnknownMaterial,
    /// A material table breaks its own rules: too many materials, a range
    /// outside the reaction list, a probability above one, or a reaction
    /// that produces a material outside the table.
    InvalidMaterial,
}

} // verus!
