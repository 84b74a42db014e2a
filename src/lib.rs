//! Conway's Game of Life on a toroidal grid, with the cell states packed one
//! bit per cell in a `FixedBitSet`.

pub mod bitset;
pub mod laws;
pub mod life;
pub mod universe;

pub use life::get_state;

pub use universe::{Universe, UniverseError};
