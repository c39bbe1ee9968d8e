//! Exhaustive depth-first search over reversible game states, with a
//! nine-by-nine Sudoku board as the state it is used on.

pub mod solver;
pub mod sudoku;
