//! A tic-tac-toe board packed into one word, its eight symmetries and canonical forms, and a
//! walk over every game that sorts the reachable positions into classes of symmetric boards.

pub mod board;
pub mod board_iterator;
pub mod canonical;
pub mod classify;
pub mod codegen;
pub mod encoding;
pub mod errors;
pub mod game;
pub mod game_state;
pub mod player;
