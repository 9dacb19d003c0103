//! The cell and grid types that the engine drives.

pub mod cell;
pub mod cell_array;

pub use cell::Cell;
pub use cell_array::CellArray;
