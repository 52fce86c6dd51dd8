//! Conway's Game of Life on a toroidal grid.
//!
//! The library holds the verified core of the game: the cell and grid data
//! model, the per-generation transition rule with toroidal wraparound, the
//! pattern catalog with its placement operator, and the line-oriented text
//! codec used to persist grids. Console I/O (menus, rendering, key polling,
//! files) lives outside the library and drives it with plain values.

pub mod cell;
pub mod codec;
pub mod config;
pub mod digits;
pub mod engine;
pub mod grid;
pub mod input;
pub mod patterns;
