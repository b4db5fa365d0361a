//! The status of a game and the difficulty it is played at.

use vstd::prelude::*;

verus! {

/// Where a game stands.
#[derive(Debug, Clone, Copy, PartialEq, Eq, Structural)]
pub enum GameStatus {
    Won,
    Lost,
    InProgress,
    New,
}

impl GameStatus {
    /// Whether the game has ended, won or lost.
    pub open spec fn over(self) -> bool {
        self is Won || self is Lost
    }

    /// The face that stands for a status.
    pub open spec fn glyph(self) -> Seq<char> {
        match self {
            GameStatus::Won => "😎"@,
            GameStatus::Lost => "👺"@,
            GameStatus::InProgress => "🙂"@,
            GameStatus::New => "🙂"@,
        }
    }

    pub fn is_over(&self) -> (b: bool)
        ensures
            b == self.over(),
    {
        matches!(self, GameStatus::Won | GameStatus::Lost)
    }

    pub fn is_won(&self) -> (b: bool)
        ensures
            b == (*self is Won),
    {
        matches!(self, GameStatus::Won)
    }

    pub fn is_lost(&self) -> (b: bool)
        ensures
            b == (*self is Lost),
    {
        matches!(self, GameStatus::Lost)
    }

    pub fn is_in_progress(&self) -> (b: bool)
        ensures
            b == (*self is InProgress),
    {
        matches!(self, GameStatus::InProgress)
    }

    pub fn is_new(&self) -> (b: bool)
        ensures
            b == (*self is New),
    {
        matches!(self, GameStatus::New)
    }

    /// The face that stands for this status.
    pub fn to_string(&self) -> (s: String)
        ensures
            s@ == self.glyph(),
    {
        match self {
            GameStatus::Won => "😎".to_owned(),
            GameStatus::Lost => "👺".to_owned(),
            GameStatus::InProgress => "🙂".to_owned(),
            GameStatus::New => "🙂".to_owned(),
        }
    }
}

impl Default for GameStatus {
    fn default() -> (status: Self)
        ensures
            status == GameStatus::InProgress,
    {
        GameStatus::InProgress
    }
}

/// The size of a board, as (width, height), and the number of its mines.
#[derive(Debug, Clone, Copy, PartialEq, Eq)]
pub struct GameDifficulty {
    pub board_size: (usize, usize),
    pub mines_count: usize,
}

impl GameDifficulty {
    /// Nine by nine cells, ten mines.
    pub fn beginner() -> (difficulty: Self)
        ensures
            difficulty == (GameDifficulty { board_size: (9, 9), mines_count: 10 }),
    {
        Self { board_size: (9, 9), mines_count: 10 }
    }

    /// Sixteen by sixteen cells, forty mines.
    pub fn intermediate() -> (difficulty: Self)
        ensures
            difficulty == (GameDifficulty { board_size: (16, 16), mines_count: 40 }),
    {
        Self { board_size: (16, 16), mines_count: 40 }
    }

    /// Thirty columns of sixteen cells, a hundred mines.
    pub fn expert() -> (difficulty: Self)
        ensures
            difficulty == (GameDifficulty { board_size: (30, 16), mines_count: 100 }),
    {
        Self { board_size: (30, 16), mines_count: 100 }
    }

    /// The values a custom game starts from: a hundred by a hundred cells, ten
    /// mines.
    pub fn custom() -> (difficulty: Self)
        ensures
            difficulty == (GameDifficulty { board_size: (100, 100), mines_count: 10 }),
    {
        Self { board_size: (100, 100), mines_count: 10 }
    }

    /// The number of columns.
    pub open spec fn width(self) -> nat {
        self.board_size.0 as nat
    }

    /// The number of rows.
    pub open spec fn height(self) -> nat {
        self.board_size.1 as nat
    }

    /// The number of cells.
    pub open spec fn capacity(self) -> nat {
        self.width() * self.height()
    }

    /// A difficulty is valid when the board has a column and a row, and holds
    /// at least one mine and at least one cell without a mine.
    pub open spec fn valid(self) -> bool {
        &&& self.width() > 0
        &&& self.height() > 0
        &&& 0 < self.mines_count < self.capacity()
    }

    /// Whether the cells of the board can be counted in an `isize`.
    pub open spec fn countable(self) -> bool {
        self.capacity() <= isize::MAX
    }
}

impl Default for GameDifficulty {
    fn default() -> (difficulty: Self)
        ensures
            difficulty == (GameDifficulty { board_size: (9, 9), mines_count: 10 }),
    {
        GameDifficulty::beginner()
    }
}

} // verus!
