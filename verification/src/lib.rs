//! Rules engine for a Minesweeper-style puzzle.
//!
//! A square grid of cells, each either a mine or carrying the count of its
//! neighboring mines, with player actions to reveal (`dig_cell`) or flag
//! (`toggle_flag`) cells and a completion check. Board generation places a
//! given number of mines uniformly at random, computes every safe cell's
//! adjacency count, and pre-reveals a configurable number of safe cells.

pub mod board;
pub mod cell;
pub mod count;
mod shuffle;
