//! The errors the engine reports.

use vstd::prelude::*;

verus! {

/// Why a board could not be built or a position could not be used.
#[derive(Debug, Clone, Copy, PartialEq, Eq, Structural)]
pub enum GameError {
    /// The board has no column or no row, or more cells than can be counted;
    /// the fields are its width and height.
    InvalidBoardSize(usize, usize),
    /// The number of mines (first field) is zero, or the cells that may take
    /// one (second field) are not more than the mines.
    InvalidMinesCount(usize, usize),
    /// The position (column, row) lies outside the board.
    InvalidCellPosition(usize, usize),
}

pub type GameResult<T> = Result<T, GameError>;

} // verus!
