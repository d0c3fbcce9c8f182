//! Conway's Game of Life on a torus, with bit-packed cell storage.
//!
//! [`Universe`] owns the grid and its operations; [`grid::Grid`] is the
//! mathematical model that their contracts speak of.

pub mod bitset;
pub mod error;
pub mod grid;
pub mod packing;
pub mod pattern;
pub mod seed;
pub mod universe;

pub use error::UniverseError;
pub use seed::Seeding;
pub use universe::Universe;
