//! Conway's Game of Life on a fixed-size rectangular grid, with machine-checked
//! contracts for the grid, the neighbourhood geometry and the transition rule.

pub mod cell;
pub mod driver;
pub mod engine;
pub mod grid;
pub mod model;
pub mod patterns;
pub mod theorems;
