//! Conway's Game of Life on a bounded grid, with a fence that removes gliders
//! reaching the border and a detector for populations that have settled.

pub mod grid;
pub mod count;
pub mod rules;
pub mod traps;
pub mod census;
pub mod seed;
pub mod session;
