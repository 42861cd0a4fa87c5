//! The rules of tic-tac-toe: the board, legal moves, turn order, and how a game ends.

pub mod board;
pub mod game;
pub mod play;
