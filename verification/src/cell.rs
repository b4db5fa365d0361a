//! Coordinates, cell contents and cell visibility.

use vstd::prelude::*;

verus! {

/// What a cell hides: a mine, or the number of mines among its eight neighbours.
#[derive(Debug, Clone, Copy, PartialEq, Eq, Structural, Hash)]
pub enum CellContent {
    Mine,
    Empty,
    One,
    Two,
    Three,
    Four,
    Five,
    Six,
    Seven,
    Eight,
}

impl CellContent {
    /// The number a content stands for; a mine stands for 99.
    pub open spec fn number(self) -> int {
        match self {
            CellContent::Mine => 99,
            CellContent::Empty => 0,
            CellContent::One => 1,
            CellContent::Two => 2,
            CellContent::Three => 3,
            CellContent::Four => 4,
            CellContent::Five => 5,
            CellContent::Six => 6,
            CellContent::Seven => 7,
            CellContent::Eight => 8,
        }
    }

    /// The content of a cell without a mine that has `n` mines around it.
    /// Counts below zero read as zero and counts above eight as eight.
    pub open spec fn of_count(n: int) -> CellContent {
        if n <= 0 {
            CellContent::Empty
        } else if n == 1 {
            CellContent::One
        } else if n == 2 {
            CellContent::Two
        } else if n == 3 {
            CellContent::Three
        } else if n == 4 {
            CellContent::Four
        } else if n == 5 {
            CellContent::Five
        } else if n == 6 {
            CellContent::Six
        } else if n == 7 {
            CellContent::Seven
        } else {
            CellContent::Eight
        }
    }

    /// The content after one more neighbouring mine was found: a count goes up
    /// by one and stops at eight, a mine stays a mine.
    pub open spec fn incremented(self) -> CellContent {
        if self is Mine {
            CellContent::Mine
        } else {
            CellContent::of_count(self.number() + 1)
        }
    }

    /// What a revealed cell with this content shows.
    pub open spec fn glyph(self) -> Seq<char> {
        match self {
            CellContent::Mine => "💣"@,
            CellContent::Empty => " "@,
            CellContent::One => "1"@,
            CellContent::Two => "2"@,
            CellContent::Three => "3"@,
            CellContent::Four => "4"@,
            CellContent::Five => "5"@,
            CellContent::Six => "6"@,
            CellContent::Seven => "7"@,
            CellContent::Eight => "8"@,
        }
    }

    /// Counts one more neighbouring mine.
    pub fn add_one(&mut self)
        ensures
            *final(self) == old(self).incremented(),
    {
        *self = match *self {
            CellContent::Mine => CellContent::Mine,
            CellContent::Empty => CellContent::One,
            CellContent::One => CellContent::Two,
            CellContent::Two => CellContent::Three,
            CellContent::Three => CellContent::Four,
            CellContent::Four => CellContent::Five,
            CellContent::Five => CellContent::Six,
            CellContent::Six => CellContent::Seven,
            CellContent::Seven => CellContent::Eight,
            CellContent::Eight => CellContent::Eight,
        };
    }

    pub fn is_mine(self) -> (b: bool)
        ensures
            b == (self is Mine),
    {
        matches!(self, CellContent::Mine)
    }

    pub fn is_blank(self) -> (b: bool)
        ensures
            b == (self is Empty),
    {
        matches!(self, CellContent::Empty)
    }

    /// The number this content stands for.
    pub fn as_number(self) -> (n: u8)
        ensures
            n == self.number(),
    {
        match self {
            CellContent::Mine => 99,
            CellContent::Empty => 0,
            CellContent::One => 1,
            CellContent::Two => 2,
            CellContent::Three => 3,
            CellContent::Four => 4,
            CellContent::Five => 5,
            CellContent::Six => 6,
            CellContent::Seven => 7,
            CellContent::Eight => 8,
        }
    }

    /// The text a revealed cell with this content shows.
    pub fn to_string(&self) -> (s: String)
        ensures
            s@ == self.glyph(),
    {
        match self {
            CellContent::Mine => "💣".to_owned(),
            CellContent::Empty => " ".to_owned(),
            CellContent::One => "1".to_owned(),
            CellContent::Two => "2".to_owned(),
            CellContent::Three => "3".to_owned(),
            CellContent::Four => "4".to_owned(),
            CellContent::Five => "5".to_owned(),
            CellContent::Six => "6".to_owned(),
            CellContent::Seven => "7".to_owned(),
            CellContent::Eight => "8".to_owned(),
        }
    }
}

impl Default for CellContent {
    fn default() -> (content: Self)
        ensures
            content == CellContent::Empty,
    {
        CellContent::Empty
    }
}

/// A coordinate on the board: `x` is the column, `y` the row.
#[derive(Debug, Clone, Copy, PartialEq, Eq, Structural, Hash)]
pub struct CellPosition {
    pub x: usize,
    pub y: usize,
}

impl CellPosition {
    /// The position in column `x` and row `y`.
    pub fn new(x: usize, y: usize) -> (pos: Self)
        ensures
            pos == (CellPosition { x, y }),
    {
        Self { x, y }
    }

    /// The linear index of a position on a board whose columns hold
    /// `board_size` cells.
    pub open spec fn index(self, board_size: int) -> int {
        self.x * board_size + self.y
    }

    /// The position that a linear index stands for.
    pub fn from_index(index: usize, board_size: usize) -> (pos: Self)
        requires
            board_size > 0,
        ensures
            pos.x == index / board_size,
            pos.y == index % board_size,
    {
        Self { x: index / board_size, y: index % board_size }
    }

    /// The linear index of this position.
    pub fn to_index(self, board_size: usize) -> (index: usize)
        requires
            self.index(board_size as int) <= usize::MAX,
        ensures
            index == self.index(board_size as int),
    {
        assert(self.x * board_size >= 0) by (nonlinear_arith);
        (self.x * board_size) + self.y
    }

    /// Whether `other` is one of the eight positions around `self`.
    pub open spec fn adjacent(self, other: CellPosition) -> bool {
        &&& self != other
        &&& -1 <= other.x - self.x <= 1
        &&& -1 <= other.y - self.y <= 1
    }

    /// A position and its index determine each other: the index of a position
    /// in a row below `board_size` leads back to that position.
    pub proof fn index_roundtrip(self, board_size: usize)
        requires
            self.y < board_size,
            self.index(board_size as int) <= usize::MAX,
        ensures
            self.index(board_size as int) / (board_size as int) == self.x,
            self.index(board_size as int) % (board_size as int) == self.y,
    {
        let b = board_size as int;
        let x = self.x as int;
        let y = self.y as int;
        vstd::arithmetic::div_mod::lemma_fundamental_div_mod_converse(x * b + y, b, x, y);
    }

    /// Every index is the index of the position it stands for, and that
    /// position lies in a row below `board_size`.
    pub proof fn position_roundtrip(index: usize, board_size: usize)
        requires
            board_size > 0,
        ensures
            (index / board_size) * board_size + index % board_size == index,
            index % board_size < board_size,
    {
        vstd::arithmetic::div_mod::lemma_fundamental_div_mod(index as int, board_size as int);
        assert((index / board_size) * board_size == board_size * (index / board_size))
            by (nonlinear_arith);
    }
}

impl From<(usize, usize)> for CellPosition {
    fn from(pair: (usize, usize)) -> (pos: Self) {
        Self { x: pair.0, y: pair.1 }
    }
}

impl vstd::std_specs::convert::FromSpecImpl<(usize, usize)> for CellPosition {
    open spec fn obeys_from_spec() -> bool {
        true
    }

    open spec fn from_spec(pair: (usize, usize)) -> Self {
        CellPosition { x: pair.0, y: pair.1 }
    }
}

/// Whether a cell is still concealed, was revealed, or carries a flag.
#[derive(Debug, Clone, Copy, PartialEq, Eq, Structural, Hash)]
pub enum CellState {
    Hidden,
    Revealed,
    Flagged,
}

impl CellState {
    pub fn is_hidden(self) -> (b: bool)
        ensures
            b == (self is Hidden),
    {
        matches!(self, CellState::Hidden)
    }

    pub fn is_revealed(self) -> (b: bool)
        ensures
            b == (self is Revealed),
    {
        matches!(self, CellState::Revealed)
    }

    pub fn is_flagged(self) -> (b: bool)
        ensures
            b == (self is Flagged),
    {
        matches!(self, CellState::Flagged)
    }
}

impl Default for CellState {
    fn default() -> (state: Self)
        ensures
            state == CellState::Hidden,
    {
        CellState::Hidden
    }
}

/// One cell of the board.
#[derive(Debug, Clone, Copy, PartialEq, Eq, Structural, Hash)]
pub struct Cell {
    pub content: CellContent,
    pub state: CellState,
}

impl Cell {
    /// What the cell shows to the player: nothing while hidden, a flag while
    /// flagged, its content once revealed.
    pub open spec fn glyph(self) -> Seq<char> {
        match self.state {
            CellState::Hidden => Seq::<char>::empty(),
            CellState::Revealed => self.content.glyph(),
            CellState::Flagged => "🚩"@,
        }
    }

    /// The same cell, revealed.
    pub open spec fn revealed(self) -> Cell {
        Cell { content: self.content, state: CellState::Revealed }
    }

    /// The same cell with a flag, if it was hidden.
    pub open spec fn flagged(self) -> Cell {
        if self.state is Hidden {
            Cell { content: self.content, state: CellState::Flagged }
        } else {
            self
        }
    }

    /// The same cell without its flag, if it had one.
    pub open spec fn unflagged(self) -> Cell {
        if self.state is Flagged {
            Cell { content: self.content, state: CellState::Hidden }
        } else {
            self
        }
    }

    pub fn is_hidden(self) -> (b: bool)
        ensures
            b == (self.state is Hidden),
    {
        matches!(self.state, CellState::Hidden)
    }

    pub fn is_revealed(self) -> (b: bool)
        ensures
            b == (self.state is Revealed),
    {
        matches!(self.state, CellState::Revealed)
    }

    pub fn is_flagged(self) -> (b: bool)
        ensures
            b == (self.state is Flagged),
    {
        matches!(self.state, CellState::Flagged)
    }

    pub fn is_mine(self) -> (b: bool)
        ensures
            b == (self.content is Mine),
    {
        matches!(self.content, CellContent::Mine)
    }

    pub fn is_empty(self) -> (b: bool)
        ensures
            b == (self.content is Empty),
    {
        matches!(self.content, CellContent::Empty)
    }

    /// Reveals the cell, whatever its state was.
    pub fn uncover(&mut self)
        ensures
            *final(self) == old(self).revealed(),
    {
        self.state = CellState::Revealed;
    }

    /// Puts a flag on a hidden cell. Returns whether it did.
    pub fn flag(&mut self) -> (toggled: bool)
        ensures
            toggled == (old(self).state is Hidden),
            *final(self) == old(self).flagged(),
    {
        if self.is_hidden() {
            self.state = CellState::Flagged;
            true
        } else {
            false
        }
    }

    /// Takes the flag off a flagged cell. Returns whether it did.
    pub fn unflag(&mut self) -> (toggled: bool)
        ensures
            toggled == (old(self).state is Flagged),
            *final(self) == old(self).unflagged(),
    {
        if self.is_flagged() {
            self.state = CellState::Hidden;
            true
        } else {
            false
        }
    }

    /// The text the cell shows to the player.
    pub fn to_string(&self) -> (s: String)
        ensures
            s@ == self.glyph(),
    {
        match self.state {
            CellState::Hidden => String::new(),
            CellState::Revealed => self.content.to_string(),
            CellState::Flagged => "🚩".to_owned(),
        }
    }
}

impl Default for Cell {
    fn default() -> (cell: Self)
        ensures
            cell == (Cell { content: CellContent::Empty, state: CellState::Hidden }),
    {
        Cell { content: CellContent::Empty, state: CellState::Hidden }
    }
}

} // verus!
