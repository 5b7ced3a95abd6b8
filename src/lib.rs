//! An artificial-life simulator: a toroidal grid of bytes on which tiny
//! programs run, copy regions of the grid, and fork copies of themselves.

mod random;
pub mod grid;
pub mod instruction;
pub mod state;
pub mod organism;
pub mod command;
pub mod world;
