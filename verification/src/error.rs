//! The ways in which an operation on a universe can be refused.

use vstd::prelude::*;

verus! {

/// Why a universe refused an input. A refused call leaves the universe as
/// it was.
#[derive(Debug, Clone, Copy, PartialEq, Eq, Structural)]
pub enum UniverseError {
    /// A buffer holds fewer items than the grid needs.
    InvalidLength,
    /// An extent is zero, the grid would have more than `u32::MAX` cells,
    /// or a seeding pattern does not fit the extents.
    InvalidDimension,
}

} // verus!
