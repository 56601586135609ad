//! Conway's Game of Life on a toroidal, bit-packed grid.
//!
//! Each 128-bit word holds 128 horizontally adjacent cells. A generation is
//! computed with a bit-sliced carry-save counter that tallies the live
//! neighbours of all 128 lanes of a word at once.

pub mod lanes;
pub mod torus;
pub mod counter;
pub mod rows;
pub mod bands;
pub mod grid;
pub mod stepper;
pub mod parallel;
pub mod protocol;
pub mod laws;
pub mod render;
pub mod seed;
