//! A solver for triangular number walls.
//!
//! A wall of `n` rows has `i` cells in row `i`; every cell that has two
//! cells below it holds their sum. [`mauer`] owns the grid, the propagation
//! of known values and the solving of a single missing bottom cell.
//! [`wall`] holds the binomial helper and the cell type built on it.

pub mod mauer;
pub mod wall;
