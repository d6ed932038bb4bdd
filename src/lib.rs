//! A 3×3 tic-tac-toe engine: the board with its rules, and an exhaustive
//! minimax search that picks optimal moves.

pub mod board;
pub mod search;
pub mod play;
