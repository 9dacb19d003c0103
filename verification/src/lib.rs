//! A toroidal Conway's Game of Life engine with incrementally maintained
//! neighbor counts.
//!
//! Each cell stores its alive flag together with a cached count of its live
//! Moore neighbors. Spawning or killing a cell updates the cached counts of
//! its eight (wrapped) neighbors, so a generation step never has to recount
//! neighbors from scratch.

pub mod bitstring;
pub mod cell;
pub mod field;
pub mod gol;
pub mod torus;
