use vstd::prelude::*;

verus! {

/// The ways an operation on a board can fail.
#[derive(Debug, Clone, Copy, PartialEq, Eq, Structural)]
pub enum TicTacToeError {
    /// The encoding or text does not describe a reachable board.
    InvalidBoard,
    /// A 2-bit code or a text token that is not a mark.
    InvalidPlayerEnum,
    /// A move onto an occupied cell.
    IllegalMove,
    /// A cell position outside `0..9`.
    OutOfBounds,
}

impl TicTacToeError {
    /// A one-line description of the error.
    pub fn message(&self) -> (r: &'static str) {
        match self {
            TicTacToeError::IllegalMove => "illegal move - must be empty spot",
            TicTacToeError::InvalidPlayerEnum => "invalid PlayerEnum - convert from &str (\" \",  \"X\", \"O\") or u32 (0, 1, 2)",
            TicTacToeError::InvalidBoard => "invalid Board",
            TicTacToeError::OutOfBounds => "attempted to access Board position not in range (0-8) inclusive",
        }
    }
}

} // verus!
