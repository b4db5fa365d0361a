//! The rules of the game as mathematics: what a game is, what each command
//! makes of it, and what holds of every game.

use vstd::prelude::*;
use crate::board::{BoardView, RevealResult};
use crate::cell::{CellPosition, CellState};
use crate::game::{GameDifficulty, GameStatus};
use crate::grid::neighbors;
use crate::region::{
    lemma_region_hidden,
    lemma_region_safe,
    lemma_region_single,
    lemma_region_start,
    region,
};
use vstd::set_lib::lemma_subset_equality;

verus! {

/// A game as a mathematical value.
pub struct GameView {
    pub board: BoardView,
    pub difficulty: GameDifficulty,
    pub status: GameStatus,
    /// Whether the clock was started.
    pub timing: bool,
    pub elapsed_seconds: u64,
    /// The positions revealed since they were last cleared.
    pub revealed_cells: Set<CellPosition>,
    /// The positions flagged since they were last cleared.
    pub flagged_cells: Set<CellPosition>,
    /// How far the display of the remaining flags has counted up.
    pub counter: int,
}

impl GameView {
    /// The game before its first move.
    pub open spec fn fresh(difficulty: GameDifficulty) -> GameView {
        GameView {
            board: BoardView::blank(difficulty.width(), difficulty.height()),
            difficulty,
            status: GameStatus::New,
            timing: false,
            elapsed_seconds: 0,
            revealed_cells: Set::empty(),
            flagged_cells: Set::empty(),
            counter: 0,
        }
    }

    /// The board holds as many mines as the difficulty asks for.
    pub open spec fn dealt(self) -> bool {
        self.board.mines().len() == self.difficulty.mines_count
    }

    /// Every cell without a mine is revealed.
    pub open spec fn cleared(self) -> bool {
        self.board.revealed_safe() == self.board.safe()
    }

    /// What holds of a game whatever its status: the board is consistent and
    /// of the difficulty's size, the counter has not passed the number of
    /// mines, and the two lists name revealed and flagged cells only.
    pub open spec fn frame(self) -> bool {
        &&& self.board.wf()
        &&& self.difficulty.valid()
        &&& self.difficulty.countable()
        &&& self.board.width == self.difficulty.width()
        &&& self.board.height == self.difficulty.height()
        &&& 0 <= self.counter <= self.difficulty.mines_count
        &&& forall|p: CellPosition| #[trigger] self.revealed_cells.contains(p) ==> self.board.is_revealed(p)
        &&& forall|p: CellPosition| #[trigger] self.flagged_cells.contains(p) ==> self.board.is_flagged(p)
    }

    /// What holds of a game in each status.
    pub open spec fn status_wf(self) -> bool {
        match self.status {
            GameStatus::New => self == GameView { counter: self.counter, ..Self::fresh(self.difficulty) },
            GameStatus::InProgress => {
                &&& self.dealt()
                &&& self.timing
                &&& !self.cleared()
                &&& forall|p: CellPosition| #[trigger] self.board.is_mine(p) ==> !self.board.is_revealed(p)
            },
            GameStatus::Won => {
                &&& self.dealt()
                &&& self.timing
                &&& self.cleared()
                &&& self.board.flagged() == self.board.mines()
            },
            GameStatus::Lost => {
                &&& self.dealt()
                &&& self.timing
                &&& !self.cleared()
                &&& forall|p: CellPosition| #[trigger]
                    self.board.is_mine(p) ==> self.board.is_revealed(p) || self.board.is_flagged(p)
                &&& exists|p: CellPosition| #[trigger] self.board.is_mine(p) && self.board.is_revealed(p)
            },
        }
    }

    /// The game is consistent.
    pub open spec fn wf(self) -> bool {
        &&& self.frame()
        &&& self.status_wf()
    }

    /// Whether `dealt` is a board that the first move at `pos` may begin on:
    /// this board with the mines of the difficulty on it, none of them at
    /// `pos`.
    pub open spec fn deals(self, dealt: BoardView, pos: CellPosition) -> bool {
        &&& dealt.wf()
        &&& dealt.same_states(self.board)
        &&& dealt.mines().len() == self.difficulty.mines_count
        &&& !dealt.is_mine(pos)
    }

    /// The game after its first move began on the board `dealt`.
    pub open spec fn started(self, dealt: BoardView) -> GameView {
        GameView { board: dealt, status: GameStatus::InProgress, timing: true, ..self }
    }

    /// The game that a move was made on, given the game `later` that the
    /// move led to: the game itself, or, where the move was the first, the
    /// game begun on the board that `later` shows once its cells are hidden
    /// again.
    pub open spec fn begun(self, later: GameView) -> GameView {
        if self.status is New {
            self.started(later.board.concealed())
        } else {
            self
        }
    }

    /// The game with the cells of `opened` revealed.
    pub open spec fn with_opened(self, opened: Set<CellPosition>) -> GameView {
        GameView {
            board: self.board.with_revealed(opened),
            revealed_cells: self.revealed_cells + opened,
            ..self
        }
    }

    /// The mines that are hidden.
    pub open spec fn hidden_mines(self) -> Set<CellPosition> {
        Set::new(|p: CellPosition| self.board.is_mine(p) && self.board.is_hidden(p))
    }

    /// The game once it is lost: every mine without a flag is revealed.
    pub open spec fn lost(self) -> GameView {
        GameView { status: GameStatus::Lost, ..self.with_opened(self.board.unflagged_mines()) }
    }

    /// The game once it is won: every mine carries a flag.
    pub open spec fn won(self) -> GameView {
        GameView {
            board: self.board.with_flagged(self.board.mines()),
            status: GameStatus::Won,
            flagged_cells: self.flagged_cells + self.board.mines(),
            ..self
        }
    }

    /// Whether revealing the cell at `pos` does anything: the game is not
    /// over and the cell is hidden.
    pub open spec fn can_reveal(self, pos: CellPosition) -> bool {
        !self.status.over() && self.board.is_hidden(pos)
    }

    /// What revealing the cell at `pos` answers.
    pub open spec fn reveal_outcome(self, pos: CellPosition) -> RevealResult {
        if !self.can_reveal(pos) {
            RevealResult::CantReveal
        } else if self.board.is_mine(pos) {
            RevealResult::GameOver(pos)
        } else {
            RevealResult::Continue
        }
    }

    /// The game after the hidden cell at `pos` was revealed while the game
    /// was in progress: the region of `pos` is open; the game is lost if
    /// `pos` holds a mine, and won if no cell without a mine is left hidden.
    pub open spec fn after_reveal(self, pos: CellPosition) -> GameView {
        let opened = self.with_opened(region(self.board, pos));
        if self.board.is_mine(pos) {
            opened.lost()
        } else if opened.cleared() {
            opened.won()
        } else {
            opened
        }
    }

    /// The game after a command to reveal the cell at `pos`, once the game
    /// has begun.
    pub open spec fn revealed_at(self, pos: CellPosition) -> GameView {
        if self.can_reveal(pos) {
            self.after_reveal(pos)
        } else {
            self
        }
    }

    /// The game after the flag of the cell at `pos` was toggled: a flagged
    /// cell is hidden again, a hidden cell is flagged, a revealed cell stays
    /// as it is.
    pub open spec fn toggled(self, pos: CellPosition) -> GameView {
        if self.board.is_flagged(pos) {
            GameView {
                board: self.board.with_cell(pos, self.board.cells[pos].unflagged()),
                flagged_cells: self.flagged_cells.remove(pos),
                ..self
            }
        } else if self.board.is_hidden(pos) {
            GameView {
                board: self.board.with_cell(pos, self.board.cells[pos].flagged()),
                flagged_cells: self.flagged_cells.insert(pos),
                ..self
            }
        } else {
            self
        }
    }

    /// The game after a tick at which the clock read `seconds`: a game in
    /// progress takes the reading, and the counter goes up by one until it
    /// has reached the number of mines.
    pub open spec fn ticked(self, seconds: u64) -> GameView {
        GameView {
            elapsed_seconds: if self.status is InProgress {
                seconds
            } else {
                self.elapsed_seconds
            },
            counter: if self.counter < self.difficulty.mines_count {
                self.counter + 1
            } else {
                self.counter
            },
            ..self
        }
    }

    /// The number of flags that the display shows as left: the counter while
    /// it counts up, then the mines less the flags on the board.
    pub open spec fn flags_remaining(self) -> int {
        if self.counter < self.difficulty.mines_count {
            self.counter
        } else {
            self.difficulty.mines_count - self.board.flagged().len()
        }
    }

    /// The seconds that the display shows: the elapsed seconds, 999 at most.
    pub open spec fn shown_seconds(self) -> u64 {
        if self.elapsed_seconds < 999 {
            self.elapsed_seconds
        } else {
            999
        }
    }

    /// The game after a command to reveal each of `cells`, in their order.
    pub open spec fn revealed_each(self, cells: Seq<CellPosition>) -> GameView
        decreases cells.len(),
    {
        if cells.len() == 0 {
            self
        } else {
            self.revealed_each(cells.drop_last()).revealed_at(cells.last())
        }
    }

    /// What a run of reveals answers once one more reveal has answered
    /// `step`: a mine that was hit, else that the game continues if any
    /// reveal said so, else that nothing was revealed.
    pub open spec fn joined(so_far: RevealResult, step: RevealResult) -> RevealResult {
        match step {
            RevealResult::GameOver(mine) => RevealResult::GameOver(mine),
            RevealResult::Continue => if so_far is GameOver {
                so_far
            } else {
                RevealResult::Continue
            },
            RevealResult::CantReveal => so_far,
        }
    }

    /// What the commands to reveal each of `cells`, in their order, answer
    /// together.
    pub open spec fn outcome_of_each(self, cells: Seq<CellPosition>) -> RevealResult
        decreases cells.len(),
    {
        if cells.len() == 0 {
            RevealResult::CantReveal
        } else {
            Self::joined(
                self.outcome_of_each(cells.drop_last()),
                self.revealed_each(cells.drop_last()).reveal_outcome(cells.last()),
            )
        }
    }

    /// What tells the flagged cells of the board from the others.
    pub open spec fn flagged_on(self) -> spec_fn(CellPosition) -> bool {
        |p: CellPosition| self.board.is_flagged(p)
    }

    /// What tells the hidden cells of the board from the others.
    pub open spec fn hidden_on(self) -> spec_fn(CellPosition) -> bool {
        |p: CellPosition| self.board.is_hidden(p)
    }

    /// The number of flagged cells around `pos`.
    pub open spec fn flags_around(self, pos: CellPosition) -> nat {
        neighbors(pos, self.board.width, self.board.height).filter(
            self.flagged_on(),
        ).len()
    }

    /// The hidden cells around `pos`, in the order of its neighbours.
    pub open spec fn hidden_around(self, pos: CellPosition) -> Seq<CellPosition> {
        neighbors(pos, self.board.width, self.board.height).filter(self.hidden_on())
    }

    /// Whether a chord on the cell at `pos` is taken up: the game is not
    /// over, the cell is revealed, and as many cells around it are flagged
    /// as its number says.
    pub open spec fn can_chord(self, pos: CellPosition) -> bool {
        &&& !self.status.over()
        &&& self.board.is_revealed(pos)
        &&& self.flags_around(pos) == self.board.cells[pos].content.number()
    }

    /// The game after a chord on the cell at `pos`.
    pub open spec fn chorded(self, pos: CellPosition) -> GameView {
        if self.can_chord(pos) {
            self.revealed_each(self.hidden_around(pos))
        } else {
            self
        }
    }

    /// What a chord on the cell at `pos` answers.
    pub open spec fn chord_outcome(self, pos: CellPosition) -> RevealResult {
        if self.can_chord(pos) {
            self.outcome_of_each(self.hidden_around(pos))
        } else {
            RevealResult::CantReveal
        }
    }

    /// Whether every cell without a mine is revealed can be told from the
    /// number of such cells that are revealed.
    pub proof fn lemma_cleared(self)
        requires
            self.frame(),
            self.dealt(),
        ensures
            self.cleared() <==> self.board.revealed_safe().len() == self.difficulty.capacity()
                - self.difficulty.mines_count,
            self.board.revealed_safe().len() <= self.difficulty.capacity()
                - self.difficulty.mines_count,
    {
        self.board.lemma_safe_len();
        if self.board.revealed_safe().len() == self.board.safe().len() {
            lemma_subset_equality(self.board.revealed_safe(), self.board.safe());
        }
    }

    /// A game that begins on a board with the mines of its difficulty, all
    /// cells hidden, is consistent and in progress.
    pub proof fn lemma_started(self, dealt: BoardView)
        requires
            self.wf(),
            self.status is New,
            dealt.wf(),
            dealt.same_states(self.board),
            dealt.mines().len() == self.difficulty.mines_count,
        ensures
            self.started(dealt).wf(),
            forall|p: CellPosition| self.board.in_bounds(p) ==> #[trigger] dealt.is_hidden(p),
            self.started(dealt).board.concealed() == dealt,
    {
        let after = self.started(dealt);
        assert forall|p: CellPosition| self.board.in_bounds(p) implies #[trigger] dealt.is_hidden(
            p,
        ) by {
            assert(dealt.cells[p].state == self.board.cells[p].state);
        }
        dealt.lemma_safe_len();
        assert(dealt.revealed_safe() =~= Set::empty());
        assert(dealt.safe().len() > 0) by {
            let w = self.difficulty.width() as int;
            let h = self.difficulty.height() as int;
            assert(dealt.width * dealt.height == w * h);
        }
        assert(!after.cleared());
        assert(dealt.concealed().cells =~= dealt.cells);
    }

    /// A game in progress on which the region of a hidden cell without a mine
    /// was opened is as consistent as before, but that it may be cleared.
    pub proof fn lemma_opened(self, pos: CellPosition)
        requires
            self.wf(),
            self.status is InProgress,
            self.board.is_hidden(pos),
            !self.board.is_mine(pos),
        ensures
            self.with_opened(region(self.board, pos)).frame(),
            self.with_opened(region(self.board, pos)).dealt(),
            forall|p: CellPosition| #[trigger]
                self.with_opened(region(self.board, pos)).board.is_mine(p) ==> !self.with_opened(
                    region(self.board, pos),
                ).board.is_revealed(p),
    {
        let opened = region(self.board, pos);
        self.board.lemma_with_revealed(opened);
        lemma_region_safe(self.board, pos);
        let after = self.with_opened(opened);
        assert forall|p: CellPosition| #[trigger] after.board.is_mine(p) implies !after.board.is_revealed(
            p,
        ) by {
            assert(self.board.is_mine(p));
        }
    }

    /// A game on which every cell without a mine is revealed is won, and
    /// consistent, once every mine carries a flag.
    pub proof fn lemma_won(self)
        requires
            self.frame(),
            self.status is InProgress,
            self.dealt(),
            self.timing,
            self.cleared(),
            forall|p: CellPosition| #[trigger] self.board.is_mine(p) ==> !self.board.is_revealed(p),
        ensures
            self.won().wf(),
    {
        self.board.lemma_with_flagged(self.board.mines());
        let after = self.won();
        assert(after.board.flagged() =~= after.board.mines()) by {
            assert forall|p: CellPosition| after.board.is_flagged(p) implies after.board.is_mine(
                p,
            ) by {
                if !self.board.is_mine(p) {
                    assert(self.board.safe().contains(p));
                    assert(self.board.revealed_safe().contains(p));
                }
            }
        }
    }

    /// A game in progress is lost, and consistent, once the region of a
    /// hidden mine was opened and the mines without a flag were revealed.
    pub proof fn lemma_lost(self, pos: CellPosition)
        requires
            self.wf(),
            self.status is InProgress,
            self.board.is_hidden(pos),
            self.board.is_mine(pos),
        ensures
            self.after_reveal(pos).wf(),
            self.after_reveal(pos).status is Lost,
            self.after_reveal(pos) == self.with_opened(region(self.board, pos)).lost(),
            region(self.board, pos) == set![pos],
            self.with_opened(region(self.board, pos)).revealed_cells + self.with_opened(
                region(self.board, pos),
            ).hidden_mines() == self.after_reveal(pos).revealed_cells,
    {
        let opened = region(self.board, pos);
        lemma_region_single(self.board, pos);
        self.board.lemma_with_revealed(opened);
        let mid = self.with_opened(opened);
        mid.board.lemma_with_revealed(mid.board.unflagged_mines());
        let after = mid.lost();
        assert(after.board.is_mine(pos) && after.board.is_revealed(pos));
        assert(after.board.revealed_safe() =~= self.board.revealed_safe()) by {
            assert forall|p: CellPosition|
                after.board.revealed_safe().contains(p) implies self.board.revealed_safe().contains(
                p,
            ) by {
                assert(!self.board.is_mine(p));
                assert(!opened.contains(p));
                assert(!mid.board.unflagged_mines().contains(p));
            }
        }
        assert forall|p: CellPosition| #[trigger] after.board.is_mine(p) implies after.board.is_revealed(
            p,
        ) || after.board.is_flagged(p) by {
            assert(mid.board.is_mine(p));
        }
        assert(mid.revealed_cells + mid.hidden_mines() =~= after.revealed_cells) by {
            assert forall|p: CellPosition|
                mid.board.unflagged_mines().contains(p) && !mid.hidden_mines().contains(
                    p,
                ) implies mid.revealed_cells.contains(p) by {
                assert(self.board.is_mine(p));
                assert(p == pos);
            }
        }
    }

    /// Toggling a flag keeps a game in progress consistent.
    pub proof fn lemma_toggled(self, pos: CellPosition)
        requires
            self.wf(),
            self.status is InProgress,
            self.board.in_bounds(pos),
        ensures
            self.toggled(pos).wf(),
    {
        let after = self.toggled(pos);
        if self.board.is_flagged(pos) {
            self.board.lemma_state_change(pos, CellState::Hidden);
            assert(after.board.revealed_safe() =~= self.board.revealed_safe());
        } else if self.board.is_hidden(pos) {
            self.board.lemma_state_change(pos, CellState::Flagged);
            assert(after.board.revealed_safe() =~= self.board.revealed_safe());
        }
        assert forall|p: CellPosition| #[trigger] after.board.is_mine(p) implies !after.board.is_revealed(
            p,
        ) by {
            assert(self.board.is_mine(p));
        }
    }

    /// Revealing a hidden cell without a mine moves no mine, hides nothing
    /// that was revealed, and neither puts a flag on a cell without a mine
    /// nor takes one off.
    pub proof fn lemma_reveal_safe_keeps(self, pos: CellPosition)
        requires
            self.wf(),
            self.status is InProgress,
            self.board.is_hidden(pos),
            !self.board.is_mine(pos),
        ensures
            self.after_reveal(pos).board.width == self.board.width,
            self.after_reveal(pos).board.height == self.board.height,
            self.after_reveal(pos).board.is_revealed(pos),
            forall|p: CellPosition| #[trigger]
                self.after_reveal(pos).board.is_mine(p) <==> self.board.is_mine(p),
            forall|p: CellPosition|
                self.board.is_revealed(p) ==> #[trigger] self.after_reveal(pos).board.is_revealed(p),
            forall|p: CellPosition|
                !self.board.is_mine(p) ==> (#[trigger] self.after_reveal(pos).board.is_flagged(p)
                    <==> self.board.is_flagged(p)),
    {
        let opened = self.with_opened(region(self.board, pos));
        self.board.lemma_sides();
        lemma_region_hidden(self.board, pos);
        lemma_region_start(self.board, pos);
        assert(region(self.board, pos).contains(pos));
    }

    /// Commands to reveal cells that hold no mine and carry no flag, given
    /// while the game is not lost, leave each of those cells revealed and the
    /// game in progress or won. Together they answer that the game
    /// continues, if the first of the cells was hidden and the game in
    /// progress.
    pub proof fn lemma_revealed_each_safe(self, cells: Seq<CellPosition>)
        requires
            self.wf(),
            self.status is InProgress || self.status is Won,
            forall|i: int|
                0 <= i < cells.len() ==> self.board.in_bounds(#[trigger] cells[i])
                    && !self.board.is_mine(cells[i]) && !self.board.is_flagged(cells[i]),
        ensures
            self.revealed_each(cells).wf(),
            self.revealed_each(cells).status is InProgress || self.revealed_each(cells).status is Won,
            self.revealed_each(cells).board.width == self.board.width,
            self.revealed_each(cells).board.height == self.board.height,
            forall|p: CellPosition| #[trigger]
                self.revealed_each(cells).board.is_mine(p) <==> self.board.is_mine(p),
            forall|p: CellPosition|
                self.board.is_revealed(p) ==> #[trigger] self.revealed_each(cells).board.is_revealed(
                    p,
                ),
            forall|p: CellPosition|
                !self.board.is_mine(p) ==> (#[trigger] self.revealed_each(cells).board.is_flagged(p)
                    <==> self.board.is_flagged(p)),
            forall|i: int|
                0 <= i < cells.len() ==> self.revealed_each(cells).board.is_revealed(
                    #[trigger] cells[i],
                ),
            !(self.outcome_of_each(cells) is GameOver),
            cells.len() > 0 && self.status is InProgress && self.board.is_hidden(cells[0])
                ==> self.outcome_of_each(cells) == RevealResult::Continue,
        decreases cells.len(),
    {
        if cells.len() > 0 {
            let earlier = cells.drop_last();
            let last = cells.last();
            self.lemma_revealed_each_safe(earlier);
            let mid = self.revealed_each(earlier);
            let after = mid.revealed_at(last);
            assert(after == self.revealed_each(cells));
            assert(cells[cells.len() - 1] == last);
            assert(!mid.board.is_mine(last));
            assert(!mid.board.is_flagged(last));
            if mid.can_reveal(last) {
                mid.law_reveal_safe(last);
                mid.lemma_reveal_safe_keeps(last);
            } else {
                if mid.status is Won {
                    assert(mid.board.safe().contains(last));
                    assert(mid.board.revealed_safe().contains(last));
                }
                assert(mid.board.is_revealed(last));
            }
            assert forall|i: int| 0 <= i < cells.len() implies after.board.is_revealed(
                #[trigger] cells[i],
            ) by {
                if i < cells.len() - 1 {
                    assert(earlier[i] == cells[i]);
                    assert(mid.board.is_revealed(earlier[i]));
                }
            }
            if earlier.len() > 0 {
                assert(earlier[0] == cells[0]);
            }
        }
    }

    /// Once a game has begun, its board holds as many mines as its
    /// difficulty asks for, and every cell without a mine shows the number of
    /// mines around it.
    pub proof fn law_begun_game_is_dealt(self)
        requires
            self.wf(),
            !(self.status is New),
        ensures
            self.board.mines().len() == self.difficulty.mines_count,
            self.board.numbered(),
    {
    }

    /// The first move of a game, if it reveals a cell, never hits a mine:
    /// the cell is revealed and listed, it holds no mine, and the game goes
    /// on or is won at once.
    pub proof fn law_first_reveal_is_safe(self, dealt: BoardView, pos: CellPosition)
        requires
            self.wf(),
            self.status is New,
            self.board.in_bounds(pos),
            self.deals(dealt, pos),
        ensures
            self.started(dealt).after_reveal(pos).wf(),
            !self.started(dealt).after_reveal(pos).board.is_mine(pos),
            self.started(dealt).after_reveal(pos).board.is_revealed(pos),
            self.started(dealt).after_reveal(pos).revealed_cells.contains(pos),
            self.started(dealt).after_reveal(pos).status is InProgress || self.started(
                dealt,
            ).after_reveal(pos).status is Won,
            self.started(dealt).reveal_outcome(pos) == RevealResult::Continue,
    {
        let base = self.started(dealt);
        self.lemma_started(dealt);
        assert(dealt.is_hidden(pos));
        base.law_reveal_safe(pos);
        base.lemma_reveal_safe_keeps(pos);
        lemma_region_start(dealt, pos);
    }

    /// Revealing a hidden cell without a mine, while the game is in
    /// progress, opens the region of that cell and no other cell. The game is
    /// then won if that leaves no cell without a mine hidden, and in that
    /// case every mine carries a flag; else it is still in progress.
    pub proof fn law_reveal_safe(self, pos: CellPosition)
        requires
            self.wf(),
            self.status is InProgress,
            self.board.is_hidden(pos),
            !self.board.is_mine(pos),
        ensures
            self.after_reveal(pos).wf(),
            forall|p: CellPosition|
                self.board.in_bounds(p) ==> (#[trigger] self.after_reveal(pos).board.is_revealed(p)
                    <==> self.board.is_revealed(p) || region(self.board, pos).contains(p)),
            forall|p: CellPosition| #[trigger]
                region(self.board, pos).contains(p) ==> self.board.is_hidden(p)
                    && !self.board.is_mine(p),
            self.after_reveal(pos).revealed_cells == self.revealed_cells + region(self.board, pos),
            self.after_reveal(pos).status is Won <==> self.with_opened(
                region(self.board, pos),
            ).cleared(),
            self.after_reveal(pos).status is Won || self.after_reveal(pos).status is InProgress,
            self.after_reveal(pos).status is Won ==> forall|p: CellPosition| #[trigger]
                self.board.is_mine(p) ==> self.after_reveal(pos).board.is_flagged(p),
    {
        let opened = self.with_opened(region(self.board, pos));
        self.lemma_opened(pos);
        lemma_region_safe(self.board, pos);
        self.board.lemma_sides();
        lemma_region_hidden(self.board, pos);
        if opened.cleared() {
            opened.lemma_won();
            opened.board.lemma_with_flagged(opened.board.mines());
            assert forall|p: CellPosition| #[trigger] self.board.is_mine(p) implies self.after_reveal(
                pos,
            ).board.is_flagged(p) by {
                assert(opened.board.is_mine(p));
                assert(!opened.board.is_revealed(p));
            }
        }
    }

    /// A game is won exactly when every cell without a mine is revealed, and
    /// on a won game the flagged cells are the mines.
    pub proof fn law_won_iff_cleared(self)
        requires
            self.wf(),
        ensures
            self.status is Won <==> self.cleared(),
            self.status is Won ==> self.board.flagged() == self.board.mines(),
    {
        if self.status is New {
            self.board.lemma_safe_len();
            assert(self.board.mines() =~= Set::empty());
            assert(self.board.revealed_safe() =~= Set::empty());
            let w = self.difficulty.width() as int;
            let h = self.difficulty.height() as int;
            assert(self.board.width * self.board.height == w * h);
        }
    }

    /// Revealing a hidden mine, while the game is in progress, loses the
    /// game: that mine and every other mine without a flag is revealed, and
    /// nothing else changes on the board.
    pub proof fn law_reveal_mine(self, pos: CellPosition)
        requires
            self.wf(),
            self.status is InProgress,
            self.board.is_hidden(pos),
            self.board.is_mine(pos),
        ensures
            self.after_reveal(pos).wf(),
            self.after_reveal(pos).status is Lost,
            forall|p: CellPosition|
                self.board.is_mine(p) && !self.board.is_flagged(p) ==> #[trigger] self.after_reveal(
                    pos,
                ).board.is_revealed(p),
            forall|p: CellPosition|
                self.board.in_bounds(p) && !(self.board.is_mine(p) && !self.board.is_flagged(p))
                    ==> #[trigger] self.after_reveal(pos).board.cells[p] == self.board.cells[p],
    {
        self.lemma_lost(pos);
    }

    /// A chord on a cell around which the flags do not match its number does
    /// nothing and answers that nothing was revealed.
    pub proof fn law_chord_needs_matching_flags(self, pos: CellPosition)
        requires
            self.wf(),
            self.flags_around(pos) != self.board.cells[pos].content.number(),
        ensures
            self.chorded(pos) == self,
            self.chord_outcome(pos) == RevealResult::CantReveal,
    {
    }

    /// A chord on a cell around which the flags match its number, and no
    /// hidden cell holds a mine, reveals every hidden cell around it. It
    /// answers that the game continues if there was such a cell, and leaves
    /// the game as it is if there was none.
    pub proof fn law_chord_reveals_neighbours(self, pos: CellPosition)
        requires
            self.wf(),
            self.can_chord(pos),
            forall|p: CellPosition| #[trigger]
                self.hidden_around(pos).contains(p) ==> !self.board.is_mine(p),
        ensures
            self.chorded(pos).wf(),
            self.chorded(pos).status is InProgress || self.chorded(pos).status is Won,
            forall|p: CellPosition| #[trigger]
                self.hidden_around(pos).contains(p) ==> self.chorded(pos).board.is_revealed(p),
            self.chord_outcome(pos) == if self.hidden_around(pos).len() > 0 {
                RevealResult::Continue
            } else {
                RevealResult::CantReveal
            },
            self.hidden_around(pos).len() == 0 ==> self.chorded(pos) == self,
    {
        let around = neighbors(pos, self.board.width, self.board.height);
        let cells = self.hidden_around(pos);
        assert forall|i: int| 0 <= i < cells.len() implies self.board.is_hidden(
            #[trigger] cells[i],
        ) by {
            around.lemma_filter_pred(self.hidden_on(), i);
        }
        assert forall|i: int| 0 <= i < cells.len() implies self.board.in_bounds(
            #[trigger] cells[i],
        ) && !self.board.is_mine(cells[i]) && !self.board.is_flagged(cells[i]) by {
            assert(self.board.is_hidden(cells[i]));
            assert(cells.contains(cells[i]));
        }
        assert(self.status is InProgress) by {
            if self.status is New {
                assert(self.board.is_hidden(pos));
            }
        }
        self.lemma_revealed_each_safe(cells);
        assert forall|p: CellPosition| #[trigger] cells.contains(p) implies self.chorded(
            pos,
        ).board.is_revealed(p) by {
            let i = choose|i: int| 0 <= i < cells.len() && cells[i] == p;
            assert(self.revealed_each(cells).board.is_revealed(cells[i]));
        }
    }

    /// Once a game is won and the counter of the display has counted up to
    /// the number of mines, the display shows no flag as left.
    pub proof fn law_no_flags_left_when_won(self)
        requires
            self.wf(),
            self.status is Won,
            self.counter == self.difficulty.mines_count,
        ensures
            self.flags_remaining() == 0,
    {
    }
}

} // verus!
