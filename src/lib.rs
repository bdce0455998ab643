//! Generation of a single Minesweeper board: random mine placement,
//! neighbour counting, and text rendering, with the board's invariants
//! proved over a mathematical model of the grid.

pub mod board;
pub mod cell;
pub mod laws;
pub mod model;
pub mod placer;
