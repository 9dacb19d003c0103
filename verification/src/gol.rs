//! The game-of-life engine and its building blocks: cells, the toroidal
//! grid, the two-buffer engine, and pattern seeding.

pub mod cell;
pub mod cell_array;
pub mod engine;
pub mod patterns;
pub mod types;
pub mod utils;

pub use engine::Engine;
