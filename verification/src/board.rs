//! The board: a grid of cells, the mines among them, and the operations that
//! change one cell at a time.

use vstd::prelude::*;
use crate::cell::{Cell, CellContent, CellPosition, CellState};
use crate::error::{GameError, GameResult};
use crate::game::GameDifficulty;
use crate::grid::{grid, lemma_grid_len, lemma_neighbors, neighbor, neighbors, unmarked};
use crate::lists::{lemma_push_fresh, lemma_swap_remove, lemma_take_ends, lemma_take_step};
use crate::rng::{new_rng, random_below};
use vstd::set_lib::{lemma_len_subset, lemma_set_disjoint_lens};

verus! {

/// What revealing a cell led to.
#[derive(Debug, Clone, Copy, PartialEq, Eq, Structural)]
pub enum RevealResult {
    /// The cell was revealed and held no mine.
    Continue,
    /// The cell at this position was revealed and held a mine.
    GameOver(CellPosition),
    /// Nothing was revealed.
    CantReveal,
}

/// A board as a mathematical value: its size and the cell at each position.
pub struct BoardView {
    pub width: nat,
    pub height: nat,
    pub cells: Map<CellPosition, Cell>,
}

impl BoardView {
    /// The board of the given size on which every cell is hidden and empty.
    pub open spec fn blank(width: nat, height: nat) -> BoardView {
        BoardView {
            width,
            height,
            cells: Map::new(
                |p: CellPosition| p.x < width && p.y < height,
                |p: CellPosition| Cell { content: CellContent::Empty, state: CellState::Hidden },
            ),
        }
    }

    pub open spec fn in_bounds(self, pos: CellPosition) -> bool {
        pos.x < self.width && pos.y < self.height
    }

    pub open spec fn is_mine(self, pos: CellPosition) -> bool {
        self.in_bounds(pos) && self.cells[pos].content is Mine
    }

    pub open spec fn is_hidden(self, pos: CellPosition) -> bool {
        self.in_bounds(pos) && self.cells[pos].state is Hidden
    }

    pub open spec fn is_revealed(self, pos: CellPosition) -> bool {
        self.in_bounds(pos) && self.cells[pos].state is Revealed
    }

    pub open spec fn is_flagged(self, pos: CellPosition) -> bool {
        self.in_bounds(pos) && self.cells[pos].state is Flagged
    }

    /// The positions that hold a mine.
    pub open spec fn mines(self) -> Set<CellPosition> {
        Set::new(|p: CellPosition| self.is_mine(p))
    }

    /// The positions that carry a flag.
    pub open spec fn flagged(self) -> Set<CellPosition> {
        Set::new(|p: CellPosition| self.is_flagged(p))
    }

    /// The revealed positions that hold no mine.
    pub open spec fn revealed_safe(self) -> Set<CellPosition> {
        Set::new(|p: CellPosition| self.is_revealed(p) && !self.is_mine(p))
    }

    /// The positions that hold no mine.
    pub open spec fn safe(self) -> Set<CellPosition> {
        Set::new(|p: CellPosition| self.in_bounds(p) && !self.is_mine(p))
    }

    /// One if column `x`, row `y` lies on the board and holds a mine, else zero.
    pub open spec fn mine_at(self, x: int, y: int) -> int {
        if 0 <= x < self.width && 0 <= y < self.height && self.cells[CellPosition {
            x: x as usize,
            y: y as usize,
        }].content is Mine {
            1
        } else {
            0
        }
    }

    /// The number of mines among the eight neighbours of `pos`.
    pub open spec fn adjacent_mines(self, pos: CellPosition) -> int {
        self.mine_at(pos.x - 1, pos.y - 1) + self.mine_at(pos.x - 1, pos.y as int) + self.mine_at(
            pos.x - 1,
            pos.y + 1,
        ) + self.mine_at(pos.x as int, pos.y - 1) + self.mine_at(pos.x as int, pos.y + 1)
            + self.mine_at(pos.x + 1, pos.y - 1) + self.mine_at(pos.x + 1, pos.y as int)
            + self.mine_at(pos.x + 1, pos.y + 1)
    }

    /// The cell at `pos`, if it lies on the board and holds no mine, shows the
    /// number of mines around it.
    pub open spec fn number_ok(self, pos: CellPosition) -> bool {
        self.in_bounds(pos) && !self.is_mine(pos) ==> self.cells[pos].content
            == CellContent::of_count(self.adjacent_mines(pos))
    }

    /// Every cell without a mine shows the number of mines around it.
    pub open spec fn numbered(self) -> bool {
        forall|p: CellPosition| #[trigger] self.number_ok(p)
    }

    /// The board has a cell at each of its positions and nowhere else, its
    /// cells can be counted, and its numbers are right.
    pub open spec fn wf(self) -> bool {
        &&& self.width > 0
        &&& self.height > 0
        &&& self.width * self.height <= isize::MAX
        &&& self.cells.dom() == grid(self.width, self.height)
        &&& self.numbered()
    }

    /// This board with the cell at `pos` replaced.
    pub open spec fn with_cell(self, pos: CellPosition, cell: Cell) -> BoardView {
        BoardView { width: self.width, height: self.height, cells: self.cells.insert(pos, cell) }
    }

    /// This board with the state of every cell in `region` set to revealed.
    pub open spec fn with_revealed(self, region: Set<CellPosition>) -> BoardView {
        BoardView {
            width: self.width,
            height: self.height,
            cells: Map::new(
                |p: CellPosition| self.cells.dom().contains(p),
                |p: CellPosition|
                    if region.contains(p) {
                        self.cells[p].revealed()
                    } else {
                        self.cells[p]
                    },
            ),
        }
    }

    /// This board with a flag on every cell in `region` that was hidden.
    pub open spec fn with_flagged(self, region: Set<CellPosition>) -> BoardView {
        BoardView {
            width: self.width,
            height: self.height,
            cells: Map::new(
                |p: CellPosition| self.cells.dom().contains(p),
                |p: CellPosition|
                    if region.contains(p) {
                        self.cells[p].flagged()
                    } else {
                        self.cells[p]
                    },
            ),
        }
    }

    /// This board with every cell hidden again.
    pub open spec fn concealed(self) -> BoardView {
        BoardView {
            width: self.width,
            height: self.height,
            cells: Map::new(
                |p: CellPosition| self.cells.dom().contains(p),
                |p: CellPosition|
                    Cell { content: self.cells[p].content, state: CellState::Hidden },
            ),
        }
    }

    /// The mines that carry no flag.
    pub open spec fn unflagged_mines(self) -> Set<CellPosition> {
        Set::new(|p: CellPosition| self.is_mine(p) && !self.is_flagged(p))
    }

    /// Whether `other` has the size of this board and, at each position, a
    /// cell in the state of the cell here.
    pub open spec fn same_states(self, other: BoardView) -> bool {
        &&& self.width == other.width
        &&& self.height == other.height
        &&& self.cells.dom() == other.cells.dom()
        &&& forall|p: CellPosition|
            self.in_bounds(p) ==> (#[trigger] self.cells[p]).state == other.cells[p].state
    }

    /// This board with the content of each neighbour of `pos` incremented.
    pub open spec fn with_counted(self, pos: CellPosition) -> BoardView {
        BoardView {
            width: self.width,
            height: self.height,
            cells: Map::new(
                |p: CellPosition| self.cells.dom().contains(p),
                |p: CellPosition|
                    if pos.adjacent(p) {
                        Cell {
                            content: self.cells[p].content.incremented(),
                            state: self.cells[p].state,
                        }
                    } else {
                        self.cells[p]
                    },
            ),
        }
    }

    /// This board with one more mine, at `pos`, counted by its neighbours.
    pub open spec fn with_mine(self, pos: CellPosition) -> BoardView {
        self.with_cell(
            pos,
            Cell { content: CellContent::Mine, state: self.cells[pos].state },
        ).with_counted(pos)
    }

    /// The cells that may take a mine when mines are dealt: hidden cells
    /// without a mine, other than `excluded` and those in `reserved`.
    pub open spec fn eligible(self, excluded: CellPosition, reserved: Set<CellPosition>) -> Set<
        CellPosition,
    > {
        Set::new(
            |p: CellPosition|
                self.is_hidden(p) && !self.is_mine(p) && p != excluded && !reserved.contains(p),
        )
    }
}

impl BoardView {
    /// Neither side of a consistent board is longer than its cells can be
    /// counted.
    pub proof fn lemma_sides(self)
        requires
            self.wf(),
        ensures
            self.width <= isize::MAX,
            self.height <= isize::MAX,
    {
        let w = self.width as int;
        let h = self.height as int;
        assert(w <= w * h && h <= w * h) by (nonlinear_arith)
            requires
                w > 0,
                h > 0,
        ;
    }

    /// The sets of positions that a board speaks of are finite, and none
    /// holds more positions than the board has cells.
    pub proof fn lemma_finite(self)
        requires
            self.width <= usize::MAX,
            self.height <= usize::MAX,
        ensures
            grid(self.width, self.height).finite(),
            grid(self.width, self.height).len() == self.width * self.height,
            self.mines().finite(),
            self.flagged().finite(),
            self.revealed_safe().finite(),
            self.safe().finite(),
            self.mines().len() <= self.width * self.height,
            self.flagged().len() <= self.width * self.height,
            self.revealed_safe().len() <= self.width * self.height,
            self.safe().len() <= self.width * self.height,
    {
        lemma_grid_len(self.width, self.height);
        lemma_len_subset(self.mines(), grid(self.width, self.height));
        lemma_len_subset(self.flagged(), grid(self.width, self.height));
        lemma_len_subset(self.revealed_safe(), grid(self.width, self.height));
        lemma_len_subset(self.safe(), grid(self.width, self.height));
    }

    /// The cells without a mine are the cells that are left beside the mines,
    /// and the revealed ones among them are no more.
    pub proof fn lemma_safe_len(self)
        requires
            self.wf(),
        ensures
            self.safe().len() + self.mines().len() == self.width * self.height,
            self.revealed_safe().subset_of(self.safe()),
            self.revealed_safe().len() <= self.safe().len(),
            self.safe().finite(),
            self.mines().finite(),
            self.revealed_safe().finite(),
    {
        self.lemma_sides();
        self.lemma_finite();
        assert(self.safe() + self.mines() =~= grid(self.width, self.height));
        assert(self.safe().disjoint(self.mines()));
        lemma_set_disjoint_lens(self.safe(), self.mines());
        lemma_len_subset(self.revealed_safe(), self.safe());
    }

    /// Revealing cells keeps the board consistent and moves no mine.
    pub proof fn lemma_with_revealed(self, region: Set<CellPosition>)
        requires
            self.wf(),
        ensures
            self.with_revealed(region).wf(),
            self.with_revealed(region).mines() == self.mines(),
            self.with_revealed(region).safe() == self.safe(),
    {
        let after = self.with_revealed(region);
        assert(after.cells.dom() =~= self.cells.dom());
        assert forall|p: CellPosition| #[trigger] after.number_ok(p) by {
            assert(self.number_ok(p));
            assert(forall|x: int, y: int| after.mine_at(x, y) == self.mine_at(x, y));
        }
        assert(after.mines() =~= self.mines());
        assert(after.safe() =~= self.safe());
    }

    /// Flagging cells keeps the board consistent, moves no mine and reveals
    /// nothing.
    pub proof fn lemma_with_flagged(self, region: Set<CellPosition>)
        requires
            self.wf(),
        ensures
            self.with_flagged(region).wf(),
            self.with_flagged(region).mines() == self.mines(),
            self.with_flagged(region).safe() == self.safe(),
            self.with_flagged(region).revealed_safe() == self.revealed_safe(),
    {
        let after = self.with_flagged(region);
        assert(after.cells.dom() =~= self.cells.dom());
        assert forall|p: CellPosition| #[trigger] after.number_ok(p) by {
            assert(self.number_ok(p));
            assert(forall|x: int, y: int| after.mine_at(x, y) == self.mine_at(x, y));
        }
        assert(after.mines() =~= self.mines());
        assert(after.safe() =~= self.safe());
        assert(after.revealed_safe() =~= self.revealed_safe());
    }

    /// A new mine, counted by its neighbours, keeps the board consistent and
    /// changes no state.
    pub proof fn lemma_with_mine(self, pos: CellPosition)
        requires
            self.wf(),
            self.in_bounds(pos),
            !self.is_mine(pos),
        ensures
            self.with_mine(pos).wf(),
            self.with_mine(pos).same_states(self),
            self.with_mine(pos).mines() == self.mines().insert(pos),
            self.with_mine(pos).flagged() == self.flagged(),
            self.with_mine(pos).revealed_safe() == self.revealed_safe().remove(pos),
    {
        let after = self.with_mine(pos);
        self.lemma_sides();
        assert(after.cells.dom() =~= self.cells.dom());
        assert forall|x: int, y: int|
            after.mine_at(x, y) == self.mine_at(x, y) + (if x == pos.x && y == pos.y {
                1int
            } else {
                0int
            }) by {
            if 0 <= x < self.width && 0 <= y < self.height {
                let q = CellPosition { x: x as usize, y: y as usize };
                assert(self.cells.dom().contains(q));
            }
        }
        assert forall|p: CellPosition| #[trigger] after.number_ok(p) by {
            assert(self.number_ok(p));
            if after.in_bounds(p) && !after.is_mine(p) {
                assert(self.cells.dom().contains(p));
                assert(after.adjacent_mines(p) == self.adjacent_mines(p) + (if pos.adjacent(p) {
                    1int
                } else {
                    0int
                }));
            }
        }
        assert(after.mines() =~= self.mines().insert(pos));
        assert(after.flagged() =~= self.flagged());
        assert(after.revealed_safe() =~= self.revealed_safe().remove(pos));
    }

    /// Changing the state of one cell keeps the board consistent and moves
    /// that one position between the sets of flagged and of revealed cells.
    pub proof fn lemma_state_change(self, pos: CellPosition, state: CellState)
        requires
            self.wf(),
            self.in_bounds(pos),
        ensures
            ({
                let after = self.with_cell(
                    pos,
                    Cell { content: self.cells[pos].content, state },
                );
                &&& after.wf()
                &&& after.mines() == self.mines()
                &&& after.safe() == self.safe()
                &&& after.flagged() == if state is Flagged {
                    self.flagged().insert(pos)
                } else {
                    self.flagged().remove(pos)
                }
                &&& after.revealed_safe() == if state is Revealed && !self.is_mine(pos) {
                    self.revealed_safe().insert(pos)
                } else {
                    self.revealed_safe().remove(pos)
                }
            }),
    {
        let after = self.with_cell(pos, Cell { content: self.cells[pos].content, state });
        assert(after.cells.dom() =~= self.cells.dom());
        assert forall|p: CellPosition| #[trigger] after.number_ok(p) by {
            assert(self.number_ok(p));
            assert(forall|x: int, y: int| after.mine_at(x, y) == self.mine_at(x, y));
        }
        assert(after.mines() =~= self.mines());
        assert(after.safe() =~= self.safe());
        if state is Flagged {
            assert(after.flagged() =~= self.flagged().insert(pos));
        } else {
            assert(after.flagged() =~= self.flagged().remove(pos));
        }
        if state is Revealed && !self.is_mine(pos) {
            assert(after.revealed_safe() =~= self.revealed_safe().insert(pos));
        } else {
            assert(after.revealed_safe() =~= self.revealed_safe().remove(pos));
        }
    }
}

/// The grid of cells and what is counted on it.
pub struct Board {
    cells: Vec<Vec<Cell>>,
    width: usize,
    height: usize,
    mine_positions: Vec<CellPosition>,
    revealed_count: usize,
    flagged_count: isize,
}

impl View for Board {
    type V = BoardView;

    closed spec fn view(&self) -> BoardView {
        BoardView {
            width: self.width as nat,
            height: self.height as nat,
            cells: Map::new(
                |p: CellPosition| p.x < self.width && p.y < self.height,
                |p: CellPosition| self.cells@[p.x as int]@[p.y as int],
            ),
        }
    }
}

impl Board {
    /// The grid has the board's size.
    pub closed spec fn shaped(&self) -> bool {
        &&& self.cells@.len() == self.width
        &&& forall|x: int| 0 <= x < self.width ==> (#[trigger] self.cells@[x])@.len() == self.height
    }

    /// The list of mines and the two counters agree with the grid.
    pub closed spec fn counted(&self) -> bool {
        &&& self.mine_positions@.no_duplicates()
        &&& self.mine_positions@.to_set() == self@.mines()
        &&& self.revealed_count == self@.revealed_safe().len()
        &&& self.flagged_count == self@.flagged().len()
    }

    /// The board is consistent: see [`BoardView::wf`] for what that says of
    /// its cells.
    pub open spec fn wf(&self) -> bool {
        &&& self.shaped()
        &&& self.counted()
        &&& self@.wf()
    }

    /// What checking a difficulty answers.
    pub open spec fn difficulty_check(difficulty: GameDifficulty) -> GameResult<()> {
        if difficulty.width() == 0 || difficulty.height() == 0 || !difficulty.countable() {
            Err(GameError::InvalidBoardSize(difficulty.board_size.0, difficulty.board_size.1))
        } else if difficulty.mines_count == 0 || difficulty.mines_count >= difficulty.capacity() {
            Err(
                GameError::InvalidMinesCount(
                    difficulty.mines_count,
                    difficulty.capacity() as usize,
                ),
            )
        } else {
            Ok(())
        }
    }

    /// Accepts a valid difficulty whose cells can be counted, and says what is
    /// wrong with any other.
    pub fn validate_difficulty(difficulty: GameDifficulty) -> (result: GameResult<()>)
        ensures
            result == Self::difficulty_check(difficulty),
            result is Ok <==> difficulty.valid() && difficulty.countable(),
    {
        let (width, height) = difficulty.board_size;
        if width == 0 || height == 0 {
            return Err(GameError::InvalidBoardSize(width, height));
        }
        let limit: usize = isize::MAX as usize;
        let capacity: usize = match width.checked_mul(height) {
            Some(capacity) => capacity,
            None => {
                return Err(GameError::InvalidBoardSize(width, height));
            },
        };
        if capacity > limit {
            return Err(GameError::InvalidBoardSize(width, height));
        }
        if difficulty.mines_count == 0 || difficulty.mines_count >= capacity {
            return Err(GameError::InvalidMinesCount(difficulty.mines_count, capacity));
        }
        Ok(())
    }

    /// A board of the difficulty's size on which every cell is hidden and
    /// empty. No mine is placed yet.
    pub fn new(difficulty: GameDifficulty) -> (result: GameResult<Self>)
        ensures
            match result {
                Ok(board) => {
                    &&& Self::difficulty_check(difficulty) is Ok
                    &&& board.wf()
                    &&& board@ == BoardView::blank(difficulty.width(), difficulty.height())
                },
                Err(e) => Self::difficulty_check(difficulty) == Err::<(), GameError>(e),
            },
    {
        match Self::validate_difficulty(difficulty) {
            Err(e) => {
                return Err(e);
            },
            Ok(()) => {},
        }
        let (width, height) = difficulty.board_size;
        let blank = Cell { content: CellContent::Empty, state: CellState::Hidden };
        let mut cells: Vec<Vec<Cell>> = Vec::new();
        let mut x: usize = 0;
        while x < width
            invariant
                x <= width,
                cells@.len() == x,
                forall|i: int|
                    0 <= i < x ==> (#[trigger] cells@[i])@ == Seq::new(
                        height as nat,
                        |j: int| blank,
                    ),
            decreases width - x,
        {
            let mut column: Vec<Cell> = Vec::new();
            let mut y: usize = 0;
            while y < height
                invariant
                    y <= height,
                    column@ == Seq::new(y as nat, |j: int| blank),
                decreases height - y,
            {
                column.push(blank);
                y += 1;
            }
            cells.push(column);
            x += 1;
        }
        let board = Board {
            cells,
            width,
            height,
            mine_positions: Vec::new(),
            revealed_count: 0,
            flagged_count: 0,
        };
        proof {
            assert(board@.cells =~= BoardView::blank(width as nat, height as nat).cells);
            assert(board@ == BoardView::blank(difficulty.width(), difficulty.height()));
            assert(board@.mines() =~= Set::empty());
            assert(board.mine_positions@.to_set() =~= Set::empty());
            assert(board@.revealed_safe() =~= Set::empty());
            assert(board@.flagged() =~= Set::empty());
            assert(board@.cells.dom() =~= grid(board@.width, board@.height));
        }
        Ok(board)
    }

    /// Whether `pos` lies on the board.
    pub fn validate_position(&self, pos: CellPosition) -> (result: GameResult<()>)
        ensures
            self@.in_bounds(pos) ==> result is Ok,
            !self@.in_bounds(pos) ==> result == Err::<(), GameError>(
                GameError::InvalidCellPosition(pos.x, pos.y),
            ),
    {
        if pos.x >= self.width || pos.y >= self.height {
            return Err(GameError::InvalidCellPosition(pos.x, pos.y));
        }
        Ok(())
    }

    /// The cell at `pos`.
    pub fn cell(&self, pos: CellPosition) -> (result: GameResult<&Cell>)
        requires
            self.wf(),
        ensures
            match result {
                Ok(cell) => self@.in_bounds(pos) && *cell == self@.cells[pos],
                Err(e) => !self@.in_bounds(pos) && e == GameError::InvalidCellPosition(
                    pos.x,
                    pos.y,
                ),
            },
    {
        match self.validate_position(pos) {
            Err(e) => {
                return Err(e);
            },
            Ok(()) => {},
        }
        Ok(&self.cells[pos.x][pos.y])
    }

    /// Sets the state of the cell at `pos` and leaves the counters alone.
    fn put_state(&mut self, pos: CellPosition, state: CellState)
        requires
            old(self).shaped(),
            old(self)@.in_bounds(pos),
        ensures
            final(self).shaped(),
            final(self)@ == old(self)@.with_cell(
                pos,
                Cell { content: old(self)@.cells[pos].content, state },
            ),
            final(self).mine_positions == old(self).mine_positions,
            final(self).revealed_count == old(self).revealed_count,
            final(self).flagged_count == old(self).flagged_count,
    {
        self.cells[pos.x][pos.y].state = state;
        proof {
            assert(self@.cells =~= old(self)@.with_cell(
                pos,
                Cell { content: old(self)@.cells[pos].content, state },
            ).cells);
        }
    }

    /// Puts a flag on the cell at `pos` if it is hidden. Returns whether it
    /// did.
    pub fn flag(&mut self, pos: CellPosition) -> (result: GameResult<bool>)
        requires
            old(self).wf(),
        ensures
            final(self).wf(),
            match result {
                Ok(toggled) => {
                    &&& old(self)@.in_bounds(pos)
                    &&& toggled == old(self)@.is_hidden(pos)
                    &&& final(self)@ == old(self)@.with_cell(pos, old(self)@.cells[pos].flagged())
                },
                Err(e) => {
                    &&& !old(self)@.in_bounds(pos)
                    &&& e == GameError::InvalidCellPosition(pos.x, pos.y)
                    &&& final(self)@ == old(self)@
                },
            },
    {
        match self.validate_position(pos) {
            Err(e) => {
                return Err(e);
            },
            Ok(()) => {},
        }
        if self.cells[pos.x][pos.y].is_hidden() {
            proof {
                self@.lemma_state_change(pos, CellState::Flagged);
                self@.lemma_finite();
                self@.with_cell(pos, self@.cells[pos].flagged()).lemma_finite();
            }
            self.put_state(pos, CellState::Flagged);
            self.flagged_count = self.flagged_count + 1;
            Ok(true)
        } else {
            proof {
                assert(self@.cells =~= self@.with_cell(pos, self@.cells[pos].flagged()).cells);
            }
            Ok(false)
        }
    }

    /// Takes the flag off the cell at `pos` if it has one. Returns whether it
    /// did.
    pub fn unflag(&mut self, pos: CellPosition) -> (result: GameResult<bool>)
        requires
            old(self).wf(),
        ensures
            final(self).wf(),
            match result {
                Ok(toggled) => {
                    &&& old(self)@.in_bounds(pos)
                    &&& toggled == old(self)@.is_flagged(pos)
                    &&& final(self)@ == old(self)@.with_cell(
                        pos,
                        old(self)@.cells[pos].unflagged(),
                    )
                },
                Err(e) => {
                    &&& !old(self)@.in_bounds(pos)
                    &&& e == GameError::InvalidCellPosition(pos.x, pos.y)
                    &&& final(self)@ == old(self)@
                },
            },
    {
        match self.validate_position(pos) {
            Err(e) => {
                return Err(e);
            },
            Ok(()) => {},
        }
        if self.cells[pos.x][pos.y].is_flagged() {
            proof {
                self@.lemma_state_change(pos, CellState::Hidden);
                self@.lemma_finite();
                assert(self@.flagged().contains(pos));
            }
            self.put_state(pos, CellState::Hidden);
            self.flagged_count = self.flagged_count - 1;
            Ok(true)
        } else {
            proof {
                assert(self@.cells =~= self@.with_cell(pos, self@.cells[pos].unflagged()).cells);
            }
            Ok(false)
        }
    }

    /// What revealing the single cell at `pos` answers on a board.
    pub open spec fn uncover_result(board: BoardView, pos: CellPosition) -> RevealResult {
        if !board.is_hidden(pos) {
            RevealResult::CantReveal
        } else if board.is_mine(pos) {
            RevealResult::GameOver(pos)
        } else {
            RevealResult::Continue
        }
    }

    /// Reveals the cell at `pos` if it is hidden, and no other cell.
    pub fn uncover(&mut self, pos: CellPosition) -> (result: GameResult<RevealResult>)
        requires
            old(self).wf(),
        ensures
            final(self).wf(),
            match result {
                Ok(outcome) => {
                    &&& old(self)@.in_bounds(pos)
                    &&& outcome == Self::uncover_result(old(self)@, pos)
                    &&& final(self)@ == if old(self)@.is_hidden(pos) {
                        old(self)@.with_cell(pos, old(self)@.cells[pos].revealed())
                    } else {
                        old(self)@
                    }
                },
                Err(e) => {
                    &&& !old(self)@.in_bounds(pos)
                    &&& e == GameError::InvalidCellPosition(pos.x, pos.y)
                    &&& final(self)@ == old(self)@
                },
            },
    {
        match self.validate_position(pos) {
            Err(e) => {
                return Err(e);
            },
            Ok(()) => {},
        }
        let cell = self.cells[pos.x][pos.y];
        if cell.is_revealed() || cell.is_flagged() {
            return Ok(RevealResult::CantReveal);
        }
        proof {
            self@.lemma_state_change(pos, CellState::Revealed);
            self@.lemma_finite();
            self@.with_cell(pos, self@.cells[pos].revealed()).lemma_finite();
        }
        self.put_state(pos, CellState::Revealed);
        if cell.is_mine() {
            return Ok(RevealResult::GameOver(pos));
        }
        self.revealed_count = self.revealed_count + 1;
        Ok(RevealResult::Continue)
    }

    /// Reveals every mine that carries no flag.
    pub fn reveal_mines(&mut self)
        requires
            old(self).wf(),
        ensures
            final(self).wf(),
            final(self)@ == old(self)@.with_revealed(old(self)@.unflagged_mines()),
    {
        let ghost before = self@;
        let count = self.mine_positions.len();
        let mut i: usize = 0;
        proof {
            lemma_take_ends(self.mine_positions@);
            assert(self@.cells =~= before.with_revealed(
                Set::new(
                    |p: CellPosition|
                        self.mine_positions@.take(0).contains(p) && !before.is_flagged(p),
                ),
            ).cells);
        }
        while i < count
            invariant
                i <= count,
                count == self.mine_positions@.len(),
                self.wf(),
                self@.mines() == before.mines(),
                self@ == before.with_revealed(
                    Set::new(
                        |p: CellPosition|
                            self.mine_positions@.take(i as int).contains(p) && !before.is_flagged(
                                p,
                            ),
                    ),
                ),
            decreases count - i,
        {
            let pos = self.mine_positions[i];
            let ghost mines = self.mine_positions@;
            let ghost step = self@;
            proof {
                assert(mines.to_set().contains(pos));
                assert(step.is_mine(pos));
                lemma_take_step(mines, i as int);
            }
            if !self.cells[pos.x][pos.y].is_flagged() {
                proof {
                    step.lemma_state_change(pos, CellState::Revealed);
                    assert(step.flagged().remove(pos) =~= step.flagged());
                    assert(step.revealed_safe().remove(pos) =~= step.revealed_safe());
                }
                self.put_state(pos, CellState::Revealed);
            }
            proof {
                assert(self@.cells =~= before.with_revealed(
                    Set::new(
                        |p: CellPosition|
                            mines.take(i as int + 1).contains(p) && !before.is_flagged(p),
                    ),
                ).cells);
            }
            i += 1;
        }
        proof {
            let mines = self.mine_positions@;
            assert(mines.take(count as int) =~= mines);
            assert(self.mine_positions@.to_set() == before.mines());
            assert(Set::new(|p: CellPosition| mines.contains(p) && !before.is_flagged(p))
                =~= before.unflagged_mines()) by {
                assert forall|p: CellPosition| mines.contains(p) <==> before.is_mine(p) by {
                    assert(mines.to_set().contains(p) <==> before.mines().contains(p));
                }
            }
        }
    }

    /// Puts a flag on every mine that is hidden.
    pub fn flag_mines(&mut self)
        requires
            old(self).wf(),
        ensures
            final(self).wf(),
            final(self)@ == old(self)@.with_flagged(old(self)@.mines()),
    {
        let ghost before = self@;
        let count = self.mine_positions.len();
        let mut i: usize = 0;
        proof {
            lemma_take_ends(self.mine_positions@);
            assert(self@.cells =~= before.with_flagged(
                self.mine_positions@.take(0).to_set(),
            ).cells);
        }
        while i < count
            invariant
                i <= count,
                count == self.mine_positions@.len(),
                self.wf(),
                self@.mines() == before.mines(),
                self@ == before.with_flagged(self.mine_positions@.take(i as int).to_set()),
            decreases count - i,
        {
            let pos = self.mine_positions[i];
            let ghost mines = self.mine_positions@;
            let ghost step = self@;
            proof {
                assert(mines.to_set().contains(pos));
                assert(step.is_mine(pos));
                lemma_take_step(mines, i as int);
            }
            if self.cells[pos.x][pos.y].is_hidden() {
                proof {
                    step.lemma_state_change(pos, CellState::Flagged);
                    assert(step.revealed_safe().remove(pos) =~= step.revealed_safe());
                    step.lemma_finite();
                    step.with_cell(pos, step.cells[pos].flagged()).lemma_finite();
                }
                self.put_state(pos, CellState::Flagged);
                self.flagged_count = self.flagged_count + 1;
            }
            proof {
                assert(self@.cells =~= before.with_flagged(
                    mines.take(i as int + 1).to_set(),
                ).cells);
            }
            i += 1;
        }
        proof {
            let mines = self.mine_positions@;
            assert(mines.take(count as int) =~= mines);
        }
    }

    /// Adds to `out` the neighbour of `pos` that lies `dx` columns and `dy`
    /// rows away, if it is on the board.
    fn push_neighbor(&self, out: &mut Vec<CellPosition>, pos: CellPosition, dx: isize, dy: isize)
        ensures
            final(out)@ == old(out)@ + neighbor(
                pos,
                dx as int,
                dy as int,
                self@.width,
                self@.height,
            ),
    {
        if let Some(x) = pos.x.checked_add_signed(dx) {
            if let Some(y) = pos.y.checked_add_signed(dy) {
                if x < self.width && y < self.height {
                    out.push(CellPosition { x, y });
                    proof {
                        assert(out@ =~= old(out)@ + seq![CellPosition { x, y }]);
                    }
                    return ;
                }
            }
        }
        proof {
            assert(out@ =~= old(out)@ + Seq::<CellPosition>::empty());
        }
    }

    /// The neighbours of `pos` that lie on the board: up to eight, none
    /// twice, and `pos` itself is not among them.
    pub fn adjacent_positions(&self, pos: CellPosition) -> (around: Vec<CellPosition>)
        ensures
            around@ == neighbors(pos, self@.width, self@.height),
            around@.no_duplicates(),
            around@.len() <= 8,
            forall|p: CellPosition| #[trigger]
                around@.contains(p) <==> (self@.in_bounds(p) && pos.adjacent(p)),
    {
        let mut around: Vec<CellPosition> = Vec::with_capacity(8);
        self.push_neighbor(&mut around, pos, -1, -1);
        self.push_neighbor(&mut around, pos, -1, 0);
        self.push_neighbor(&mut around, pos, -1, 1);
        self.push_neighbor(&mut around, pos, 0, -1);
        self.push_neighbor(&mut around, pos, 0, 1);
        self.push_neighbor(&mut around, pos, 1, -1);
        self.push_neighbor(&mut around, pos, 1, 0);
        self.push_neighbor(&mut around, pos, 1, 1);
        proof {
            lemma_neighbors(pos, self@.width, self@.height);
            assert(around@ =~= neighbors(pos, self@.width, self@.height));
        }
        around
    }

    /// Counts the mine at `mine` in each of its neighbours.
    fn calculate_adjacent_mines(&mut self, mine: CellPosition)
        requires
            old(self).shaped(),
        ensures
            final(self).shaped(),
            final(self)@ == old(self)@.with_counted(mine),
            final(self).mine_positions == old(self).mine_positions,
            final(self).revealed_count == old(self).revealed_count,
            final(self).flagged_count == old(self).flagged_count,
    {
        let ghost before = self@;
        let around = self.adjacent_positions(mine);
        let count = around.len();
        let mut i: usize = 0;
        proof {
            lemma_take_ends(around@);
        }
        while i < count
            invariant
                i <= count,
                count == around@.len(),
                around@.no_duplicates(),
                forall|p: CellPosition| #[trigger]
                    around@.contains(p) <==> (before.in_bounds(p) && mine.adjacent(p)),
                self.shaped(),
                self@.width == before.width,
                self@.height == before.height,
                self@.cells.dom() == before.cells.dom(),
                forall|p: CellPosition|
                    before.in_bounds(p) ==> #[trigger] self@.cells[p] == if around@.take(
                        i as int,
                    ).contains(p) {
                        Cell {
                            content: before.cells[p].content.incremented(),
                            state: before.cells[p].state,
                        }
                    } else {
                        before.cells[p]
                    },
                self.mine_positions == old(self).mine_positions,
                self.revealed_count == old(self).revealed_count,
                self.flagged_count == old(self).flagged_count,
            decreases count - i,
        {
            let pos = around[i];
            let ghost step = self@;
            proof {
                lemma_take_step(around@, i as int);
                assert(around@.contains(pos));
            }
            self.cells[pos.x][pos.y].content.add_one();
            proof {
                assert(self@.cells =~= step.with_cell(
                    pos,
                    Cell {
                        content: step.cells[pos].content.incremented(),
                        state: step.cells[pos].state,
                    },
                ).cells);
            }
            i += 1;
        }
        proof {
            lemma_take_ends(around@);
            assert(self@.cells =~= before.with_counted(mine).cells);
        }
    }

    /// Puts a mine on the cell at `pos`, which has none, and counts it in the
    /// cells around.
    fn place_mine(&mut self, pos: CellPosition)
        requires
            old(self).wf(),
            old(self)@.in_bounds(pos),
            !old(self)@.is_mine(pos),
        ensures
            final(self).wf(),
            final(self)@ == old(self)@.with_mine(pos),
    {
        let ghost before = self@;
        proof {
            before.lemma_with_mine(pos);
            before.lemma_finite();
            self.mine_positions@.unique_seq_to_set();
        }
        let was_revealed = self.cells[pos.x][pos.y].is_revealed();
        self.cells[pos.x][pos.y].content = CellContent::Mine;
        proof {
            assert(self@.cells =~= before.with_cell(
                pos,
                Cell { content: CellContent::Mine, state: before.cells[pos].state },
            ).cells);
        }
        self.mine_positions.push(pos);
        if was_revealed {
            proof {
                assert(before.revealed_safe().contains(pos));
            }
            self.revealed_count = self.revealed_count - 1;
        } else {
            proof {
                assert(before.revealed_safe().remove(pos) =~= before.revealed_safe());
            }
        }
        self.calculate_adjacent_mines(pos);
        proof {
            let mines = old(self).mine_positions@;
            assert(!mines.contains(pos)) by {
                assert(mines.to_set().contains(pos) <==> before.mines().contains(pos));
            }
            assert(self.mine_positions@ == mines.push(pos));
            lemma_push_fresh(mines, pos);
        }
    }

    /// Puts a mine on each of the given positions that has none, and counts
    /// the new mines in the cells around them. No state changes. Where a
    /// position lies off the board, nothing is done and the first such
    /// position is reported.
    pub fn place_mines(&mut self, mines: &Vec<CellPosition>) -> (result: GameResult<()>)
        requires
            old(self).wf(),
        ensures
            final(self).wf(),
            match result {
                Ok(()) => {
                    &&& forall|i: int| 0 <= i < mines@.len() ==> old(self)@.in_bounds(mines@[i])
                    &&& final(self)@.same_states(old(self)@)
                    &&& final(self)@.mines() == old(self)@.mines() + mines@.to_set()
                },
                Err(e) => {
                    &&& final(self)@ == old(self)@
                    &&& exists|i: int|
                        {
                            &&& 0 <= i < mines@.len()
                            &&& !old(self)@.in_bounds(#[trigger] mines@[i])
                            &&& e == GameError::InvalidCellPosition(mines@[i].x, mines@[i].y)
                            &&& forall|j: int| 0 <= j < i ==> old(self)@.in_bounds(mines@[j])
                        }
                },
            },
    {
        let ghost before = self@;
        let count = mines.len();
        let mut i: usize = 0;
        while i < count
            invariant
                i <= count,
                count == mines@.len(),
                self.wf(),
                self@ == before,
                forall|j: int| 0 <= j < i ==> before.in_bounds(mines@[j]),
            decreases count - i,
        {
            let pos = mines[i];
            if pos.x >= self.width || pos.y >= self.height {
                proof {
                    assert(!before.in_bounds(mines@[i as int]));
                }
                return Err(GameError::InvalidCellPosition(pos.x, pos.y));
            }
            i += 1;
        }
        let mut k: usize = 0;
        proof {
            lemma_take_ends(mines@);
            assert(before.mines() + mines@.take(0).to_set() =~= before.mines());
        }
        while k < count
            invariant
                k <= count,
                count == mines@.len(),
                forall|j: int| 0 <= j < count ==> before.in_bounds(mines@[j]),
                self.wf(),
                self@.same_states(before),
                self@.mines() == before.mines() + mines@.take(k as int).to_set(),
            decreases count - k,
        {
            let pos = mines[k];
            let ghost step = self@;
            proof {
                lemma_take_step(mines@, k as int);
                assert(step.in_bounds(pos));
            }
            if !self.cells[pos.x][pos.y].is_mine() {
                proof {
                    step.lemma_with_mine(pos);
                }
                self.place_mine(pos);
            }
            proof {
                assert(self@.mines() =~= before.mines() + mines@.take(k as int + 1).to_set());
            }
            k += 1;
        }
        proof {
            lemma_take_ends(mines@);
        }
        Ok(())
    }

    /// The cells that may take a mine, each once.
    fn candidates(&self, excluded: CellPosition, reserved: &Vec<CellPosition>) -> (out: Vec<
        CellPosition,
    >)
        requires
            self.wf(),
        ensures
            out@.no_duplicates(),
            out@.to_set() == self@.eligible(excluded, reserved@.to_set()),
            out@.len() == self@.eligible(excluded, reserved@.to_set()).len(),
    {
        let width = self.width;
        let height = self.height;
        let mut blocked = unmarked(width, height);
        let count = reserved.len();
        let mut i: usize = 0;
        proof {
            lemma_take_ends(reserved@);
        }
        while i < count
            invariant
                i <= count,
                count == reserved@.len(),
                width == self.width,
                height == self.height,
                blocked@.len() == width,
                forall|c: int| 0 <= c < width ==> (#[trigger] blocked@[c])@.len() == height,
                forall|p: CellPosition|
                    p.x < width && p.y < height ==> (#[trigger] blocked@[p.x as int]@[p.y as int]
                        <==> reserved@.take(i as int).contains(p)),
            decreases count - i,
        {
            let pos = reserved[i];
            proof {
                lemma_take_step(reserved@, i as int);
            }
            if pos.x < width && pos.y < height {
                blocked[pos.x][pos.y] = true;
            }
            i += 1;
        }
        proof {
            lemma_take_ends(reserved@);
        }
        let ghost wanted = self@.eligible(excluded, reserved@.to_set());
        let mut out: Vec<CellPosition> = Vec::new();
        let mut x: usize = 0;
        while x < width
            invariant
                x <= width,
                width == self.width,
                height == self.height,
                self.wf(),
                blocked@.len() == width,
                forall|c: int| 0 <= c < width ==> (#[trigger] blocked@[c])@.len() == height,
                forall|p: CellPosition|
                    p.x < width && p.y < height ==> (#[trigger] blocked@[p.x as int]@[p.y as int]
                        <==> reserved@.contains(p)),
                wanted == self@.eligible(excluded, reserved@.to_set()),
                out@.no_duplicates(),
                forall|p: CellPosition| #[trigger]
                    out@.contains(p) <==> (wanted.contains(p) && p.x < x),
            decreases width - x,
        {
            let mut y: usize = 0;
            while y < height
                invariant
                    y <= height,
                    x < width,
                    width == self.width,
                    height == self.height,
                    self.wf(),
                    blocked@.len() == width,
                    forall|c: int| 0 <= c < width ==> (#[trigger] blocked@[c])@.len() == height,
                    forall|p: CellPosition|
                        p.x < width && p.y < height ==> (#[trigger] blocked@[p.x as int]@[p.y as int]
                            <==> reserved@.contains(p)),
                    wanted == self@.eligible(excluded, reserved@.to_set()),
                    out@.no_duplicates(),
                    forall|p: CellPosition| #[trigger]
                        out@.contains(p) <==> (wanted.contains(p) && (p.x < x || (p.x == x && p.y
                            < y))),
                decreases height - y,
            {
                let pos = CellPosition { x, y };
                let cell = self.cells[x][y];
                let free = !blocked[x][y];
                let ghost so_far = out@;
                if cell.is_hidden() && !cell.is_mine() && free && !(x == excluded.x && y
                    == excluded.y) {
                    out.push(pos);
                    proof {
                        lemma_push_fresh(so_far, pos);
                    }
                }
                proof {
                    assert(wanted.contains(pos) <==> out@.contains(pos));
                }
                y += 1;
            }
            x += 1;
        }
        proof {
            assert(out@.to_set() =~= wanted);
            out@.unique_seq_to_set();
        }
        out
    }

    /// What dealing mines answers before any mine is dealt.
    pub open spec fn deal_check(
        board: BoardView,
        difficulty: GameDifficulty,
        excluded: CellPosition,
        reserved: Set<CellPosition>,
    ) -> GameResult<()> {
        if Self::difficulty_check(difficulty) is Err {
            Self::difficulty_check(difficulty)
        } else if difficulty.width() != board.width || difficulty.height() != board.height {
            Err(GameError::InvalidBoardSize(difficulty.board_size.0, difficulty.board_size.1))
        } else if board.eligible(excluded, reserved).len() < difficulty.mines_count {
            Err(
                GameError::InvalidMinesCount(
                    difficulty.mines_count,
                    board.eligible(excluded, reserved).len() as usize,
                ),
            )
        } else {
            Ok(())
        }
    }

    /// Deals the mines of a difficulty at random: as many as it asks for, on
    /// hidden cells that hold none, never on `excluded` and never on a
    /// position of `pre_flagged`. The new mines are counted in the cells
    /// around them and no state changes. Where the difficulty is invalid or
    /// not of this board's size, or too few cells may take a mine, nothing is
    /// done.
    pub fn generate_mines(
        &mut self,
        difficulty: GameDifficulty,
        excluded: CellPosition,
        pre_flagged: &Vec<CellPosition>,
    ) -> (result: GameResult<()>)
        requires
            old(self).wf(),
        ensures
            final(self).wf(),
            result == Self::deal_check(old(self)@, difficulty, excluded, pre_flagged@.to_set()),
            result is Err ==> final(self)@ == old(self)@,
            result is Ok ==> {
                &&& final(self)@.numbered()
                &&& final(self)@.same_states(old(self)@)
                &&& old(self)@.mines().subset_of(final(self)@.mines())
                &&& final(self)@.mines().difference(old(self)@.mines()).subset_of(
                    old(self)@.eligible(excluded, pre_flagged@.to_set()),
                )
                &&& final(self)@.mines().len() == old(self)@.mines().len()
                    + difficulty.mines_count
                &&& !old(self)@.is_mine(excluded) ==> !final(self)@.is_mine(excluded)
                &&& forall|p: CellPosition|
                    pre_flagged@.contains(p) && !old(self)@.is_mine(p) ==> !(
                    #[trigger] final(self)@.is_mine(p))
            },
    {
        let ghost before = self@;
        let ghost wanted = before.eligible(excluded, pre_flagged@.to_set());
        match Self::validate_difficulty(difficulty) {
            Err(e) => {
                return Err(e);
            },
            Ok(()) => {},
        }
        if difficulty.board_size.0 != self.width || difficulty.board_size.1 != self.height {
            return Err(
                GameError::InvalidBoardSize(difficulty.board_size.0, difficulty.board_size.1),
            );
        }
        let mut candidates = self.candidates(excluded, pre_flagged);
        if candidates.len() < difficulty.mines_count {
            return Err(GameError::InvalidMinesCount(difficulty.mines_count, candidates.len()));
        }
        let mut rng = new_rng();
        let mut chosen: Vec<CellPosition> = Vec::new();
        while chosen.len() < difficulty.mines_count
            invariant
                chosen@.len() <= difficulty.mines_count,
                difficulty.mines_count <= wanted.len(),
                candidates@.len() + chosen@.len() == wanted.len(),
                candidates@.no_duplicates(),
                chosen@.no_duplicates(),
                forall|p: CellPosition| #[trigger] candidates@.contains(p) ==> wanted.contains(p),
                forall|p: CellPosition|
                    #[trigger] chosen@.contains(p) ==> wanted.contains(p) && !candidates@.contains(
                        p,
                    ),
            decreases difficulty.mines_count - chosen@.len(),
        {
            let i = random_below(&mut rng, candidates.len());
            let ghost left = candidates@;
            let ghost taken = chosen@;
            let pos = candidates.swap_remove(i);
            chosen.push(pos);
            proof {
                lemma_swap_remove(left, i as int);
                assert(left.contains(pos));
                lemma_push_fresh(taken, pos);
            }
        }
        let count = chosen.len();
        let mut k: usize = 0;
        proof {
            lemma_take_ends(chosen@);
            assert(before.mines() + chosen@.take(0).to_set() =~= before.mines());
            before.lemma_finite();
        }
        while k < count
            invariant
                k <= count,
                count == chosen@.len(),
                chosen@.no_duplicates(),
                forall|p: CellPosition| #[trigger] chosen@.contains(p) ==> wanted.contains(p),
                wanted == before.eligible(excluded, pre_flagged@.to_set()),
                before.mines().finite(),
                self.wf(),
                self@.same_states(before),
                self@.mines() == before.mines() + chosen@.take(k as int).to_set(),
                self@.mines().len() == before.mines().len() + k,
            decreases count - k,
        {
            let pos = chosen[k];
            let ghost step = self@;
            proof {
                lemma_take_step(chosen@, k as int);
                assert(chosen@.contains(pos));
                assert(wanted.contains(pos));
                assert(!step.mines().contains(pos));
                step.lemma_with_mine(pos);
                step.lemma_finite();
            }
            self.place_mine(pos);
            proof {
                assert(self@.mines() =~= before.mines() + chosen@.take(k as int + 1).to_set());
            }
            k += 1;
        }
        proof {
            lemma_take_ends(chosen@);
            assert(self@.mines().difference(before.mines()).subset_of(wanted));
            if !before.is_mine(excluded) && self@.is_mine(excluded) {
                assert(self@.mines().difference(before.mines()).contains(excluded));
            }
            assert forall|p: CellPosition|
                pre_flagged@.contains(p) && !before.is_mine(p) implies !(#[trigger] self@.is_mine(
                p,
            )) by {
                if self@.is_mine(p) {
                    assert(self@.mines().difference(before.mines()).contains(p));
                    assert(pre_flagged@.to_set().contains(p));
                }
            }
        }
        Ok(())
    }

    /// The positions of the mines, each once.
    pub fn mine_positions(&self) -> (mines: &Vec<CellPosition>)
        requires
            self.wf(),
        ensures
            mines@.no_duplicates(),
            mines@.to_set() == self@.mines(),
            mines@.len() == self@.mines().len(),
    {
        proof {
            self.mine_positions@.unique_seq_to_set();
        }
        &self.mine_positions
    }

    /// The number of revealed cells that hold no mine.
    pub fn revealed_count(&self) -> (count: usize)
        requires
            self.wf(),
        ensures
            count == self@.revealed_safe().len(),
    {
        self.revealed_count
    }

    /// The number of cells that carry a flag.
    pub fn flagged_count(&self) -> (count: isize)
        requires
            self.wf(),
        ensures
            count == self@.flagged().len(),
    {
        self.flagged_count
    }

    /// The width and the height of the board.
    pub fn size(&self) -> (size: (usize, usize))
        ensures
            size.0 == self@.width,
            size.1 == self@.height,
    {
        (self.width, self.height)
    }
}

} // verus!
