//! The game: a board behind a status, with the bookkeeping the player's
//! commands need.

use vstd::prelude::*;
use std::time::Instant;
use crate::board::{Board, RevealResult};
use crate::cell::{CellPosition, CellState};
use crate::clock::{earlier, now, seconds_since};
use crate::error::{GameError, GameResult};
use crate::game::{GameDifficulty, GameStatus};
use crate::grid::{grid, neighbors, unmarked};
use crate::lists::{lemma_push_fresh, lemma_swap_remove, lemma_take_ends, lemma_take_step};
use crate::region::{
    lemma_empty_is_clear,
    lemma_queue_bound,
    lemma_reach_step,
    lemma_region_single,
    lemma_region_start,
    lemma_scan_done,
    marking,
    reaches,
    region,
    scanning,
};
use crate::rules::GameView;

verus! {

/// The state of one game.
pub struct GameState {
    board: Board,
    difficulty: GameDifficulty,
    status: GameStatus,
    start_time: Option<Instant>,
    elapsed_seconds: u64,
    revealed_cells: Vec<CellPosition>,
    flagged_cells: Vec<CellPosition>,
    custom_flags_remaining: isize,
}

impl View for GameState {
    type V = GameView;

    closed spec fn view(&self) -> GameView {
        GameView {
            board: self.board@,
            difficulty: self.difficulty,
            status: self.status,
            timing: self.start_time is Some,
            elapsed_seconds: self.elapsed_seconds,
            revealed_cells: self.revealed_cells@.to_set(),
            flagged_cells: self.flagged_cells@.to_set(),
            counter: self.custom_flags_remaining as int,
        }
    }
}

impl GameState {
    /// The board and the two lists are sound: the board is consistent and
    /// neither list names a position twice.
    pub closed spec fn sound(&self) -> bool {
        &&& self.board.wf()
        &&& self.revealed_cells@.no_duplicates()
        &&& self.flagged_cells@.no_duplicates()
    }

    /// The game is consistent: see [`GameView::wf`].
    pub open spec fn wf(&self) -> bool {
        &&& self.sound()
        &&& self@.wf()
    }

    /// A game of the given difficulty before its first move. No mine is
    /// placed yet.
    pub fn new(difficulty: GameDifficulty) -> (result: GameResult<Self>)
        ensures
            match result {
                Ok(game) => {
                    &&& Board::difficulty_check(difficulty) is Ok
                    &&& game.wf()
                    &&& game@ == GameView::fresh(difficulty)
                },
                Err(e) => Board::difficulty_check(difficulty) == Err::<(), GameError>(e),
            },
    {
        let board = match Board::new(difficulty) {
            Ok(board) => board,
            Err(e) => {
                return Err(e);
            },
        };
        let game = GameState {
            board,
            difficulty,
            status: GameStatus::New,
            start_time: None,
            elapsed_seconds: 0,
            revealed_cells: Vec::new(),
            flagged_cells: Vec::new(),
            custom_flags_remaining: 0,
        };
        proof {
            assert(game.revealed_cells@.to_set() =~= Set::empty());
            assert(game.flagged_cells@.to_set() =~= Set::empty());
        }
        Ok(game)
    }

    /// Reveals the region of the hidden cell at `start_pos`, cell by cell,
    /// and lists each cell it reveals. Stops at once where `start_pos` holds
    /// a mine.
    fn reveal_area(&mut self, start_pos: CellPosition) -> (outcome: RevealResult)
        requires
            old(self).sound(),
            old(self)@.board.is_hidden(start_pos),
            forall|p: CellPosition| #[trigger]
                old(self)@.revealed_cells.contains(p) ==> old(self)@.board.is_revealed(p),
        ensures
            final(self).sound(),
            final(self)@ == old(self)@.with_opened(region(old(self)@.board, start_pos)),
            outcome == if old(self)@.board.is_mine(start_pos) {
                RevealResult::GameOver(start_pos)
            } else {
                RevealResult::Continue
            },
    {
        let ghost before = self.board@;
        let ghost listed = self.revealed_cells@;
        let (width, height) = self.board.size();
        let mut visited = unmarked(width, height);
        let mut to_reveal: Vec<CellPosition> = Vec::new();
        to_reveal.push(start_pos);
        visited[start_pos.x][start_pos.y] = true;
        let mut head: usize = 0;
        proof {
            assert forall|p: CellPosition| #[trigger]
                listed.to_set().contains(p) implies before.is_revealed(p) by {
                assert(old(self)@.revealed_cells.contains(p));
            }
            before.lemma_sides();
            lemma_region_start(before, start_pos);
            lemma_take_ends(to_reveal@);
            assert(to_reveal@ =~= seq![start_pos]);
            assert(self.board@.cells =~= before.with_revealed(to_reveal@.take(0).to_set()).cells);
            assert(listed + to_reveal@.take(0) =~= listed);
            assert forall|p: CellPosition| before.in_bounds(p) implies (#[trigger] visited@[p.x as int]@[p.y as int]
                <==> to_reveal@.contains(p)) by {
                if p == start_pos {
                    assert(to_reveal@[0] == p);
                }
            }
        }
        while head < to_reveal.len()
            invariant
                before.wf(),
                before.width == width,
                before.height == height,
                forall|p: CellPosition| #[trigger] listed.to_set().contains(p) ==> before.is_revealed(p),
                listed.no_duplicates(),
                before == old(self).board@,
                listed == old(self).revealed_cells@,
                self.board.wf(),
                self.flagged_cells@.no_duplicates(),
                self.flagged_cells == old(self).flagged_cells,
                self.difficulty == old(self).difficulty,
                self.status == old(self).status,
                self.start_time == old(self).start_time,
                self.elapsed_seconds == old(self).elapsed_seconds,
                self.custom_flags_remaining == old(self).custom_flags_remaining,
                scanning(before, start_pos, to_reveal@, head as int),
                marking(visited@, before, to_reveal@),
                head > 0 ==> !before.is_mine(start_pos),
                self.board@ == before.with_revealed(to_reveal@.take(head as int).to_set()),
                self.revealed_cells@ == listed + to_reveal@.take(head as int),
            decreases before.width * before.height - head,
        {
            let pos = to_reveal[head];
            let ghost queue = to_reveal@;
            let ghost step = self.board@;
            proof {
                lemma_queue_bound(before, queue);
                lemma_take_step(queue, head as int);
                assert(before.is_hidden(queue[head as int]));
                assert(step.cells[pos] == before.cells[pos]);
            }
            let outcome = match self.board.uncover(pos) {
                Ok(outcome) => outcome,
                Err(_) => RevealResult::CantReveal,
            };
            self.revealed_cells.push(pos);
            proof {
                assert(self.board@.cells =~= before.with_revealed(
                    queue.take(head as int + 1).to_set(),
                ).cells);
                assert(self.revealed_cells@ =~= listed + queue.take(head as int + 1));
            }
            match outcome {
                RevealResult::Continue => {
                    proof {
                        if head == 0 {
                            assert(pos == start_pos);
                        }
                    }
                    let shows_nothing = match self.board.cell(pos) {
                        Ok(cell) => cell.is_empty(),
                        Err(_) => false,
                    };
                    if shows_nothing {
                        let around = self.board.adjacent_positions(pos);
                        let count = around.len();
                        let mut j: usize = 0;
                        proof {
                            lemma_take_ends(around@);
                        }
                        while j < count
                            invariant
                                j <= count,
                                count == around@.len(),
                                head < to_reveal@.len(),
                                pos == to_reveal@[head as int],
                                before.wf(),
                                before.width == width,
                                before.height == height,
                                before.cells[pos].content is Empty,
                                !before.is_mine(start_pos),
                                self.board.wf(),
                                forall|p: CellPosition| #[trigger]
                                    around@.contains(p) <==> (before.in_bounds(p) && pos.adjacent(p)),
                                scanning(before, start_pos, to_reveal@, head as int),
                                marking(visited@, before, to_reveal@),
                                to_reveal@.take(head as int + 1) == queue.take(head as int + 1),
                                self.board@ == before.with_revealed(
                                    queue.take(head as int + 1).to_set(),
                                ),
                                forall|p: CellPosition|
                                    #[trigger] around@.take(j as int).contains(p) && before.is_hidden(p)
                                        ==> to_reveal@.contains(p),
                            decreases count - j,
                        {
                            let next = around[j];
                            let ghost waiting = to_reveal@;
                            proof {
                                lemma_take_step(around@, j as int);
                                assert(around@.contains(next));
                            }
                            if !visited[next.x][next.y] {
                                let hidden = match self.board.cell(next) {
                                    Ok(cell) => cell.is_hidden(),
                                    Err(_) => false,
                                };
                                proof {
                                    assert(!waiting.contains(next));
                                    assert(!queue.take(head as int + 1).contains(next)) by {
                                        let done = waiting.take(head as int + 1);
                                        if done.contains(next) {
                                            let k = choose|k: int|
                                                0 <= k < done.len() && done[k] == next;
                                            assert(waiting[k] == next);
                                        }
                                    }
                                    assert(self.board@.cells[next] == before.cells[next]);
                                }
                                if hidden {
                                    visited[next.x][next.y] = true;
                                    to_reveal.push(next);
                                    proof {
                                        lemma_push_fresh(waiting, next);
                                        assert(reaches(before, start_pos, waiting[head as int]));
                                        lemma_reach_step(before, start_pos, pos, next);
                                        lemma_empty_is_clear(before, pos, next);
                                        assert(to_reveal@.take(head as int + 1) =~= queue.take(
                                            head as int + 1,
                                        ));
                                        assert forall|i: int|
                                            0 <= i < to_reveal@.len() implies before.is_hidden(
                                            #[trigger] to_reveal@[i],
                                        ) && reaches(before, start_pos, to_reveal@[i]) by {
                                            if i < waiting.len() {
                                                assert(to_reveal@[i] == waiting[i]);
                                            }
                                        }
                                        assert forall|i: int|
                                            1 <= i < to_reveal@.len() implies !before.is_mine(
                                            #[trigger] to_reveal@[i],
                                        ) by {
                                            if i < waiting.len() {
                                                assert(to_reveal@[i] == waiting[i]);
                                            }
                                        }
                                        assert forall|i: int, other: CellPosition|
                                            0 <= i < head && before.cells[to_reveal@[i]].content is Empty
                                                && #[trigger] to_reveal@[i].adjacent(other)
                                                && before.is_hidden(other) implies to_reveal@.contains(
                                            other,
                                        ) by {
                                            assert(to_reveal@[i] == waiting[i]);
                                            assert(waiting[i].adjacent(other));
                                        }
                                    }
                                }
                            }
                            j += 1;
                        }
                        proof {
                            assert forall|i: int, other: CellPosition|
                                0 <= i < head + 1 && before.cells[to_reveal@[i]].content is Empty
                                    && #[trigger] to_reveal@[i].adjacent(other) && before.is_hidden(
                                    other,
                                ) implies to_reveal@.contains(other) by {
                                if i == head {
                                    assert(around@.contains(other));
                                }
                            }
                        }
                    }
                    head += 1;
                },
                RevealResult::GameOver(mine_pos) => {
                    proof {
                        assert(head == 0);
                        lemma_region_single(before, start_pos);
                        assert(queue.take(1).to_set() =~= set![start_pos]) by {
                            assert(queue.take(1) =~= seq![start_pos]);
                            assert(seq![start_pos][0] == start_pos);
                        }
                        assert(listed + queue.take(1) =~= listed.push(start_pos));
                        assert(!listed.contains(start_pos)) by {
                            if listed.contains(start_pos) {
                                assert(listed.to_set().contains(start_pos));
                            }
                        }
                        lemma_push_fresh(listed, start_pos);
                        assert(self.revealed_cells@.to_set() =~= listed.to_set() + set![start_pos]);
                    }
                    return RevealResult::GameOver(mine_pos);
                },
                RevealResult::CantReveal => {
                    proof {
                        assert(false);
                    }
                    return RevealResult::CantReveal;
                },
            }
        }
        proof {
            let queue = to_reveal@;
            lemma_take_ends(queue);
            lemma_scan_done(before, start_pos, queue);
            vstd::seq_lib::seq_to_set_distributes_over_add(listed, queue);
            assert((listed + queue).no_duplicates()) by {
                assert forall|a: int, b: int|
                    0 <= a < (listed + queue).len() && 0 <= b < (listed + queue).len() && a
                        != b implies (listed + queue)[a] != (listed + queue)[b] by {
                    if a < listed.len() && b >= listed.len() {
                        assert(listed.to_set().contains(listed[a]));
                        assert(before.is_hidden(queue[b - listed.len()]));
                    }
                    if b < listed.len() && a >= listed.len() {
                        assert(listed.to_set().contains(listed[b]));
                        assert(before.is_hidden(queue[a - listed.len()]));
                    }
                }
            }
            if before.is_mine(start_pos) {
                assert(queue[0] == start_pos);
                assert(false);
            }
        }
        RevealResult::Continue
    }

    /// Starts the clock one second in the past, so that the first second
    /// shows at once; where the clock cannot name that instant, now.
    fn start_clock(&mut self)
        ensures
            final(self).start_time is Some,
            final(self).board == old(self).board,
            final(self).difficulty == old(self).difficulty,
            final(self).status == old(self).status,
            final(self).elapsed_seconds == old(self).elapsed_seconds,
            final(self).revealed_cells == old(self).revealed_cells,
            final(self).flagged_cells == old(self).flagged_cells,
            final(self).custom_flags_remaining == old(self).custom_flags_remaining,
    {
        let instant = now();
        self.start_time = Some(
            match earlier(instant, 1) {
                Some(start) => start,
                None => instant,
            },
        );
    }

    /// Begins the game: starts the clock and deals the mines, none of them
    /// at `revealed_cell`.
    fn start_game(&mut self, revealed_cell: CellPosition)
        requires
            old(self).wf(),
            old(self)@.status is New,
            old(self)@.board.in_bounds(revealed_cell),
        ensures
            final(self).wf(),
            old(self)@.deals(final(self)@.board, revealed_cell),
            final(self)@ == old(self)@.started(final(self)@.board),
    {
        let ghost before = self@;
        self.start_clock();
        proof {
            let blank = before.board;
            let reserved = self.flagged_cells@.to_set();
            blank.lemma_finite();
            assert(reserved =~= Set::empty());
            assert(blank.eligible(revealed_cell, reserved) =~= grid(
                blank.width,
                blank.height,
            ).remove(revealed_cell));
            assert(blank.mines() =~= Set::empty());
            assert(Board::deal_check(blank, self.difficulty, revealed_cell, reserved) is Ok);
        }
        match self.board.generate_mines(self.difficulty, revealed_cell, &self.flagged_cells) {
            Ok(()) => {},
            Err(_) => {
                proof {
                    assert(false);
                }
            },
        }
        self.status = GameStatus::InProgress;
        proof {
            let dealt = self.board@;
            assert(!dealt.is_mine(revealed_cell)) by {
                if dealt.is_mine(revealed_cell) {
                    assert(dealt.mines().difference(before.board.mines()).contains(revealed_cell));
                }
            }
            before.lemma_started(dealt);
        }
    }

    /// Whether `list` names `pos`.
    fn holds(list: &Vec<CellPosition>, pos: CellPosition) -> (found: bool)
        ensures
            found == list@.contains(pos),
    {
        let mut i: usize = 0;
        while i < list.len()
            invariant
                i <= list@.len(),
                forall|j: int| 0 <= j < i ==> list@[j] != pos,
            decreases list@.len() - i,
        {
            if list[i] == pos {
                return true;
            }
            i += 1;
        }
        false
    }

    /// Adds to the list of revealed cells the mines that are hidden.
    fn list_hidden_mines(&mut self)
        requires
            old(self).sound(),
            forall|p: CellPosition| #[trigger]
                old(self)@.revealed_cells.contains(p) ==> old(self)@.board.is_revealed(p),
        ensures
            final(self).sound(),
            final(self)@ == (GameView {
                revealed_cells: old(self)@.revealed_cells + old(self)@.hidden_mines(),
                ..old(self)@
            }),
    {
        let ghost before = self@;
        let ghost listed = self.revealed_cells@;
        let mines = self.board.mine_positions();
        let count = mines.len();
        let mut i: usize = 0;
        proof {
            lemma_take_ends(mines@);
            assert(listed.to_set() + Set::new(
                |p: CellPosition| mines@.take(0).contains(p) && before.board.is_hidden(p),
            ) =~= listed.to_set());
        }
        while i < count
            invariant
                i <= count,
                count == mines@.len(),
                mines@.no_duplicates(),
                mines@.to_set() == before.board.mines(),
                before == old(self)@,
                self.board == old(self).board,
                self.board.wf(),
                self.flagged_cells == old(self).flagged_cells,
                self.flagged_cells@.no_duplicates(),
                self.difficulty == old(self).difficulty,
                self.status == old(self).status,
                self.start_time == old(self).start_time,
                self.elapsed_seconds == old(self).elapsed_seconds,
                self.custom_flags_remaining == old(self).custom_flags_remaining,
                listed == old(self).revealed_cells@,
                forall|p: CellPosition| #[trigger] listed.to_set().contains(p) ==> before.board.is_revealed(
                    p,
                ),
                self.revealed_cells@.no_duplicates(),
                self.revealed_cells@.to_set() == listed.to_set() + Set::new(
                    |p: CellPosition|
                        mines@.take(i as int).contains(p) && before.board.is_hidden(p),
                ),
            decreases count - i,
        {
            let pos = mines[i];
            let ghost so_far = self.revealed_cells@;
            proof {
                lemma_take_step(mines@, i as int);
                assert(mines@.to_set().contains(pos));
                assert(before.board.is_mine(pos));
            }
            let hidden = match self.board.cell(pos) {
                Ok(cell) => cell.is_hidden(),
                Err(_) => false,
            };
            if hidden {
                proof {
                    assert(!so_far.contains(pos)) by {
                        if so_far.contains(pos) {
                            assert(so_far.to_set().contains(pos));
                        }
                    }
                    lemma_push_fresh(so_far, pos);
                }
                self.revealed_cells.push(pos);
            }
            proof {
                assert(self.revealed_cells@.to_set() =~= listed.to_set() + Set::new(
                    |p: CellPosition|
                        mines@.take(i as int + 1).contains(p) && before.board.is_hidden(p),
                ));
            }
            i += 1;
        }
        proof {
            lemma_take_ends(mines@);
            assert(Set::new(|p: CellPosition| mines@.contains(p) && before.board.is_hidden(p))
                =~= before.hidden_mines()) by {
                assert forall|p: CellPosition| mines@.contains(p) <==> before.board.is_mine(p) by {
                    assert(mines@.to_set().contains(p) <==> before.board.mines().contains(p));
                }
            }
        }
    }

    /// Adds to the list of flagged cells the mines that it does not name.
    fn list_mines(&mut self)
        requires
            old(self).sound(),
        ensures
            final(self).sound(),
            final(self)@ == (GameView {
                flagged_cells: old(self)@.flagged_cells + old(self)@.board.mines(),
                ..old(self)@
            }),
    {
        let ghost before = self@;
        let ghost listed = self.flagged_cells@;
        let mines = self.board.mine_positions();
        let count = mines.len();
        let mut i: usize = 0;
        proof {
            lemma_take_ends(mines@);
            assert(listed.to_set() + mines@.take(0).to_set() =~= listed.to_set());
        }
        while i < count
            invariant
                i <= count,
                count == mines@.len(),
                mines@.to_set() == before.board.mines(),
                before == old(self)@,
                listed == old(self).flagged_cells@,
                self.board == old(self).board,
                self.board.wf(),
                self.revealed_cells == old(self).revealed_cells,
                self.revealed_cells@.no_duplicates(),
                self.difficulty == old(self).difficulty,
                self.status == old(self).status,
                self.start_time == old(self).start_time,
                self.elapsed_seconds == old(self).elapsed_seconds,
                self.custom_flags_remaining == old(self).custom_flags_remaining,
                self.flagged_cells@.no_duplicates(),
                self.flagged_cells@.to_set() == listed.to_set() + mines@.take(i as int).to_set(),
            decreases count - i,
        {
            let pos = mines[i];
            let ghost so_far = self.flagged_cells@;
            proof {
                lemma_take_step(mines@, i as int);
            }
            if !Self::holds(&self.flagged_cells, pos) {
                proof {
                    lemma_push_fresh(so_far, pos);
                }
                self.flagged_cells.push(pos);
            }
            proof {
                assert(self.flagged_cells@.to_set() =~= listed.to_set() + mines@.take(
                    i as int + 1,
                ).to_set());
            }
            i += 1;
        }
        proof {
            lemma_take_ends(mines@);
        }
    }

    /// Ends the game as won if every cell without a mine is revealed: every
    /// mine then gets a flag and is listed as flagged. Returns whether the
    /// game is won.
    fn check_win_condition(&mut self) -> (won: bool)
        requires
            old(self).sound(),
            old(self)@.frame(),
            old(self)@.status is InProgress,
            old(self)@.dealt(),
            old(self)@.timing,
            forall|p: CellPosition| #[trigger]
                old(self)@.board.is_mine(p) ==> !old(self)@.board.is_revealed(p),
        ensures
            final(self).wf(),
            won == old(self)@.cleared(),
            final(self)@ == if old(self)@.cleared() {
                old(self)@.won()
            } else {
                old(self)@
            },
    {
        let ghost before = self@;
        proof {
            before.lemma_cleared();
            assert(self.difficulty.board_size.0 * self.difficulty.board_size.1
                == self.difficulty.capacity());
        }
        let capacity = self.difficulty.board_size.0 * self.difficulty.board_size.1;
        if self.board.revealed_count() == capacity - self.difficulty.mines_count
            && !self.status.is_lost() {
            proof {
                before.lemma_won();
            }
            self.status = GameStatus::Won;
            self.list_mines();
            self.board.flag_mines();
            true
        } else {
            false
        }
    }

    /// Reveals the cell at `pos` and, where it shows no number, the region
    /// around it. The first move of a game deals the mines, none of them at
    /// `pos`. Revealing a mine loses the game, revealing the last cell
    /// without a mine wins it. Nothing happens where the game is over or the
    /// cell is not hidden.
    pub fn reveal_cell(&mut self, pos: CellPosition) -> (result: GameResult<RevealResult>)
        requires
            old(self).wf(),
        ensures
            final(self).wf(),
            match result {
                Ok(outcome) => {
                    &&& old(self)@.board.in_bounds(pos)
                    &&& if old(self)@.can_reveal(pos) {
                        let base = old(self)@.begun(final(self)@);
                        &&& old(self)@.status is New ==> old(self)@.deals(base.board, pos)
                        &&& final(self)@ == base.after_reveal(pos)
                        &&& outcome == base.reveal_outcome(pos)
                    } else {
                        &&& final(self)@ == old(self)@
                        &&& outcome == RevealResult::CantReveal
                    }
                },
                Err(e) => {
                    &&& !old(self)@.board.in_bounds(pos)
                    &&& e == GameError::InvalidCellPosition(pos.x, pos.y)
                    &&& final(self)@ == old(self)@
                },
            },
    {
        let hidden = match self.board.cell(pos) {
            Ok(cell) => cell.is_hidden(),
            Err(e) => {
                return Err(e);
            },
        };
        if self.status.is_over() || !hidden {
            return Ok(RevealResult::CantReveal);
        }
        if self.status.is_new() {
            self.start_game(pos);
        }
        let ghost base = self@;
        proof {
            if old(self)@.status is New {
                old(self)@.lemma_started(base.board);
            }
            assert(base.board.is_hidden(pos));
            base.board.lemma_with_revealed(region(base.board, pos));
            if base.board.is_mine(pos) {
                base.lemma_lost(pos);
            } else {
                base.lemma_opened(pos);
            }
        }
        let outcome = self.reveal_area(pos);
        match outcome {
            RevealResult::Continue => {
                self.check_win_condition();
            },
            RevealResult::GameOver(_) => {
                self.status = GameStatus::Lost;
                self.list_hidden_mines();
                self.board.reveal_mines();
            },
            RevealResult::CantReveal => {},
        }
        proof {
            assert(self@ == base.after_reveal(pos));
            if old(self)@.status is New {
                assert(self@.board.concealed().cells =~= base.board.cells) by {
                    assert(self@.board.cells.dom() =~= base.board.cells.dom());
                }
                assert(self@.board.concealed() == base.board);
            }
        }
        Ok(outcome)
    }

    /// Begins the game on the given mines instead of dealing them at random.
    /// This is done, and `true` returned, only where the game has not begun.
    /// The positions must lie on the board and name as many cells as the
    /// difficulty has mines; where they do not, nothing is done.
    pub fn start_with_mines(&mut self, mines: &Vec<CellPosition>) -> (result: GameResult<bool>)
        requires
            old(self).wf(),
        ensures
            final(self).wf(),
            match result {
                Ok(started) => {
                    &&& started == (old(self)@.status is New)
                    &&& if started {
                        &&& forall|i: int|
                            0 <= i < mines@.len() ==> old(self)@.board.in_bounds(mines@[i])
                        &&& final(self)@.board.mines() == mines@.to_set()
                        &&& final(self)@.board.same_states(old(self)@.board)
                        &&& final(self)@ == old(self)@.started(final(self)@.board)
                    } else {
                        final(self)@ == old(self)@
                    }
                },
                Err(e) => {
                    &&& old(self)@.status is New
                    &&& final(self)@ == old(self)@
                    &&& if exists|i: int|
                        0 <= i < mines@.len() && !old(self)@.board.in_bounds(#[trigger] mines@[i]) {
                        exists|i: int|
                            {
                                &&& 0 <= i < mines@.len()
                                &&& !old(self)@.board.in_bounds(#[trigger] mines@[i])
                                &&& e == GameError::InvalidCellPosition(mines@[i].x, mines@[i].y)
                                &&& forall|j: int|
                                    0 <= j < i ==> old(self)@.board.in_bounds(mines@[j])
                            }
                    } else {
                        &&& mines@.to_set().len() != old(self)@.difficulty.mines_count
                        &&& e == GameError::InvalidMinesCount(
                            mines@.to_set().len() as usize,
                            old(self)@.difficulty.capacity() as usize,
                        )
                    }
                },
            },
    {
        if !self.status.is_new() {
            return Ok(false);
        }
        let ghost before = self@;
        let mut board = match Board::new(self.difficulty) {
            Ok(board) => board,
            Err(e) => {
                proof {
                    assert(false);
                }
                return Err(e);
            },
        };
        match board.place_mines(mines) {
            Ok(()) => {},
            Err(e) => {
                return Err(e);
            },
        }
        proof {
            assert(before.board.mines() =~= Set::empty());
            assert(board@.mines() =~= mines@.to_set());
            assert(self.difficulty.board_size.0 * self.difficulty.board_size.1
                == self.difficulty.capacity());
        }
        let placed = board.mine_positions().len();
        if placed != self.difficulty.mines_count {
            let capacity = self.difficulty.board_size.0 * self.difficulty.board_size.1;
            return Err(GameError::InvalidMinesCount(placed, capacity));
        }
        self.board = board;
        self.start_clock();
        self.status = GameStatus::InProgress;
        proof {
            before.lemma_started(self.board@);
        }
        Ok(true)
    }

    /// Takes `pos` off the list of flagged cells, if the list names it.
    fn unlist_flag(&mut self, pos: CellPosition)
        requires
            old(self).sound(),
        ensures
            final(self).sound(),
            final(self)@ == (GameView {
                flagged_cells: old(self)@.flagged_cells.remove(pos),
                ..old(self)@
            }),
    {
        let mut i: usize = 0;
        while i < self.flagged_cells.len()
            invariant
                i <= self.flagged_cells@.len(),
                *self == *old(self),
                self.sound(),
                forall|j: int| 0 <= j < i ==> self.flagged_cells@[j] != pos,
            decreases self.flagged_cells@.len() - i,
        {
            if self.flagged_cells[i] == pos {
                proof {
                    lemma_swap_remove(self.flagged_cells@, i as int);
                }
                self.flagged_cells.swap_remove(i);
                proof {
                    assert(self.flagged_cells@.to_set() =~= old(self).flagged_cells@.to_set().remove(
                        pos,
                    ));
                }
                return ;
            }
            i += 1;
        }
        proof {
            assert(self.flagged_cells@.to_set() =~= old(self).flagged_cells@.to_set().remove(pos));
        }
    }

    /// Puts a flag on the hidden cell at `pos`, or takes the flag off it.
    /// The first move of a game deals the mines, none of them at `pos`.
    /// Returns whether a flag was put or taken: never once the game is over,
    /// and never on a revealed cell.
    pub fn toggle_flag(&mut self, pos: CellPosition) -> (result: GameResult<bool>)
        requires
            old(self).wf(),
        ensures
            final(self).wf(),
            match result {
                Ok(toggled) => {
                    &&& old(self)@.board.in_bounds(pos)
                    &&& if old(self)@.status.over() {
                        &&& !toggled
                        &&& final(self)@ == old(self)@
                    } else {
                        let base = old(self)@.begun(final(self)@);
                        &&& old(self)@.status is New ==> old(self)@.deals(base.board, pos)
                        &&& final(self)@ == base.toggled(pos)
                        &&& toggled == !base.board.is_revealed(pos)
                    }
                },
                Err(e) => {
                    &&& !old(self)@.board.in_bounds(pos)
                    &&& e == GameError::InvalidCellPosition(pos.x, pos.y)
                    &&& final(self)@ == old(self)@
                },
            },
    {
        match self.board.validate_position(pos) {
            Ok(()) => {},
            Err(e) => {
                return Err(e);
            },
        }
        if self.status.is_over() {
            return Ok(false);
        }
        if self.status.is_new() {
            self.start_game(pos);
        }
        let ghost base = self@;
        proof {
            if old(self)@.status is New {
                old(self)@.lemma_started(base.board);
            }
            base.lemma_toggled(pos);
        }
        let cell = match self.board.cell(pos) {
            Ok(cell) => *cell,
            Err(e) => {
                return Err(e);
            },
        };
        let toggled = if cell.is_flagged() {
            self.unlist_flag(pos);
            match self.board.unflag(pos) {
                Ok(toggled) => toggled,
                Err(_) => false,
            }
        } else if cell.is_hidden() {
            proof {
                assert(!self.flagged_cells@.contains(pos)) by {
                    if self.flagged_cells@.contains(pos) {
                        assert(base.flagged_cells.contains(pos));
                    }
                }
                lemma_push_fresh(self.flagged_cells@, pos);
            }
            self.flagged_cells.push(pos);
            match self.board.flag(pos) {
                Ok(toggled) => toggled,
                Err(_) => false,
            }
        } else {
            false
        };
        proof {
            assert(self@ == base.toggled(pos));
            if old(self)@.status is New {
                assert(self@.board.concealed().cells =~= base.board.cells) by {
                    assert(self@.board.cells.dom() =~= base.board.cells.dom());
                }
                assert(self@.board.concealed() == base.board);
            }
        }
        Ok(toggled)
    }

    /// The number of flags that the display shows as left.
    pub fn flags_remaining(&self) -> (left: isize)
        requires
            self.wf(),
        ensures
            left == self@.flags_remaining(),
    {
        proof {
            self@.board.lemma_finite();
            self@.board.lemma_safe_len();
        }
        let mines = self.difficulty.mines_count as isize;
        if self.custom_flags_remaining < mines {
            self.custom_flags_remaining
        } else {
            mines - self.board.flagged_count()
        }
    }

    /// Where the game stands.
    pub fn status(&self) -> (status: &GameStatus)
        ensures
            *status == self@.status,
    {
        &self.status
    }

    /// Whether the game has ended, won or lost.
    pub fn is_over(&self) -> (over: bool)
        ensures
            over == self@.status.over(),
    {
        self.status.is_over()
    }

    /// The seconds that the display shows: the elapsed seconds, 999 at most.
    pub fn elapsed_seconds(&self) -> (seconds: u64)
        ensures
            seconds == self@.shown_seconds(),
    {
        if self.elapsed_seconds < 999 {
            self.elapsed_seconds
        } else {
            999
        }
    }

    /// The difficulty the game is played at.
    pub fn difficulty(&self) -> (difficulty: &GameDifficulty)
        ensures
            *difficulty == self@.difficulty,
    {
        &self.difficulty
    }

    /// A tick at which the clock read `seconds` since the game began: a game
    /// in progress takes the reading, and the counter of the display goes up
    /// by one until it has reached the number of mines.
    pub fn tick_at(&mut self, seconds: u64)
        requires
            old(self).wf(),
        ensures
            final(self).wf(),
            final(self)@ == old(self)@.ticked(seconds),
    {
        let ghost before = self@;
        if self.status.is_in_progress() {
            self.elapsed_seconds = seconds;
        }
        let mines = self.difficulty.mines_count as isize;
        if self.custom_flags_remaining < mines {
            self.custom_flags_remaining = self.custom_flags_remaining + 1;
        }
        proof {
            assert(self@ == before.ticked(seconds));
            assert(self@.board == before.board);
            if before.status is Lost {
                let p = choose|p: CellPosition| #[trigger]
                    before.board.is_mine(p) && before.board.is_revealed(p);
                assert(self@.board.is_mine(p) && self@.board.is_revealed(p));
            }
        }
    }

    /// A tick: reads the clock and does what [`GameState::tick_at`] does with
    /// the reading.
    pub fn tick(&mut self)
        requires
            old(self).wf(),
        ensures
            final(self).wf(),
            final(self)@ == old(self)@.ticked(final(self)@.elapsed_seconds),
    {
        let seconds = if self.status.is_in_progress() {
            match self.start_time {
                Some(start) => seconds_since(&start),
                None => self.elapsed_seconds,
            }
        } else {
            self.elapsed_seconds
        };
        self.tick_at(seconds);
    }

    /// Begins anew at the given difficulty, if it is valid.
    fn rebuild(&mut self, difficulty: GameDifficulty) -> (result: GameResult<()>)
        ensures
            result == Board::difficulty_check(difficulty),
            result is Ok ==> final(self).wf() && final(self)@ == GameView::fresh(difficulty),
            result is Err ==> *final(self) == *old(self),
    {
        let board = match Board::new(difficulty) {
            Ok(board) => board,
            Err(e) => {
                return Err(e);
            },
        };
        self.board = board;
        self.difficulty = difficulty;
        self.status = GameStatus::New;
        self.start_time = None;
        self.elapsed_seconds = 0;
        self.revealed_cells = Vec::new();
        self.flagged_cells = Vec::new();
        self.custom_flags_remaining = 0;
        proof {
            assert(self.revealed_cells@.to_set() =~= Set::empty());
            assert(self.flagged_cells@.to_set() =~= Set::empty());
        }
        Ok(())
    }

    /// Begins anew at the same difficulty: a blank board, nothing listed, no
    /// time elapsed, the counter at zero.
    pub fn restart(&mut self) -> (result: GameResult<()>)
        requires
            old(self).wf(),
        ensures
            final(self).wf(),
            result is Ok,
            final(self)@ == GameView::fresh(old(self)@.difficulty),
    {
        self.rebuild(self.difficulty)
    }

    /// Begins anew at another difficulty. Where that difficulty is not
    /// valid, the game stays as it is.
    pub fn change_difficulty(&mut self, difficulty: GameDifficulty) -> (result: GameResult<()>)
        requires
            old(self).wf(),
        ensures
            final(self).wf(),
            result == Board::difficulty_check(difficulty),
            final(self)@ == if result is Ok {
                GameView::fresh(difficulty)
            } else {
                old(self)@
            },
    {
        self.rebuild(difficulty)
    }

    /// What the cell at `pos` shows to the player.
    pub fn display_cell(&self, pos: CellPosition) -> (result: GameResult<String>)
        requires
            self.wf(),
        ensures
            match result {
                Ok(text) => self@.board.in_bounds(pos) && text@ == self@.board.cells[pos].glyph(),
                Err(e) => !self@.board.in_bounds(pos) && e == GameError::InvalidCellPosition(
                    pos.x,
                    pos.y,
                ),
            },
    {
        match self.board.cell(pos) {
            Ok(cell) => Ok(cell.to_string()),
            Err(e) => Err(e),
        }
    }

    /// The cells revealed since the list was last cleared, each once.
    pub fn revealed_cells(&self) -> (cells: &Vec<CellPosition>)
        requires
            self.wf(),
        ensures
            cells@.no_duplicates(),
            cells@.to_set() == self@.revealed_cells,
    {
        &self.revealed_cells
    }

    /// Empties the list of revealed cells. The board stays as it is.
    pub fn clear_revealed_cells(&mut self)
        requires
            old(self).wf(),
        ensures
            final(self).wf(),
            final(self)@ == (GameView { revealed_cells: Set::empty(), ..old(self)@ }),
    {
        let ghost before = self@;
        self.revealed_cells.clear();
        proof {
            assert(self.revealed_cells@.to_set() =~= Set::empty());
            assert(self@.board == before.board);
            if before.status is Lost {
                let p = choose|p: CellPosition| #[trigger]
                    before.board.is_mine(p) && before.board.is_revealed(p);
                assert(self@.board.is_mine(p) && self@.board.is_revealed(p));
            }
        }
    }

    /// The cells flagged since the list was last cleared, each once.
    pub fn flagged_cells(&self) -> (cells: &Vec<CellPosition>)
        requires
            self.wf(),
        ensures
            cells@.no_duplicates(),
            cells@.to_set() == self@.flagged_cells,
    {
        &self.flagged_cells
    }

    /// Empties the list of flagged cells. The board stays as it is.
    pub fn clear_flagged_cells(&mut self)
        requires
            old(self).wf(),
        ensures
            final(self).wf(),
            final(self)@ == (GameView { flagged_cells: Set::empty(), ..old(self)@ }),
    {
        let ghost before = self@;
        self.flagged_cells.clear();
        proof {
            assert(self.flagged_cells@.to_set() =~= Set::empty());
            assert(self@.board == before.board);
            if before.status is Lost {
                let p = choose|p: CellPosition| #[trigger]
                    before.board.is_mine(p) && before.board.is_revealed(p);
                assert(self@.board.is_mine(p) && self@.board.is_revealed(p));
            }
        }
    }

    /// The neighbours of `pos` that lie on the board.
    pub fn adjacent_positions(&self, pos: CellPosition) -> (around: Vec<CellPosition>)
        ensures
            around@ == neighbors(pos, self@.board.width, self@.board.height),
            around@.no_duplicates(),
            around@.len() <= 8,
            forall|p: CellPosition| #[trigger]
                around@.contains(p) <==> (self@.board.in_bounds(p) && pos.adjacent(p)),
    {
        self.board.adjacent_positions(pos)
    }

    /// Reveals the hidden cells around the revealed cell at `pos`, each as
    /// [`GameState::reveal_cell`] does, if as many cells around it are
    /// flagged as its number says. Nothing happens where the game is over,
    /// the cell is not revealed, or the flags do not match the number.
    /// Answers the mine that was hit, if one was; else that the game
    /// continues, if a cell was revealed; else that nothing was revealed.
    pub fn chording(&mut self, pos: CellPosition) -> (result: GameResult<RevealResult>)
        requires
            old(self).wf(),
        ensures
            final(self).wf(),
            match result {
                Ok(outcome) => {
                    &&& old(self)@.board.in_bounds(pos)
                    &&& final(self)@ == old(self)@.chorded(pos)
                    &&& outcome == old(self)@.chord_outcome(pos)
                },
                Err(e) => {
                    &&& !old(self)@.board.in_bounds(pos)
                    &&& e == GameError::InvalidCellPosition(pos.x, pos.y)
                    &&& final(self)@ == old(self)@
                },
            },
    {
        let ghost before = self@;
        let cell = match self.board.cell(pos) {
            Ok(cell) => *cell,
            Err(e) => {
                return Err(e);
            },
        };
        if self.status.is_over() || cell.is_hidden() || cell.is_flagged() {
            return Ok(RevealResult::CantReveal);
        }
        let around = self.board.adjacent_positions(pos);
        let count = around.len();
        let mut flagged_adjacent: u8 = 0;
        let mut hidden: Vec<CellPosition> = Vec::with_capacity(8);
        let mut j: usize = 0;
        proof {
            assert(around@.take(0) =~= Seq::<CellPosition>::empty());
            assert(around@.take(0).filter(before.flagged_on()) =~= Seq::<CellPosition>::empty()) by {
                reveal(Seq::filter);
            }
            assert(around@.take(0).filter(before.hidden_on()) =~= Seq::<CellPosition>::empty()) by {
                reveal(Seq::filter);
            }
        }
        while j < count
            invariant
                j <= count,
                count == around@.len(),
                count <= 8,
                self.wf(),
                self@ == before,
                forall|p: CellPosition| #[trigger] around@.contains(p) ==> before.board.in_bounds(p),
                flagged_adjacent == around@.take(j as int).filter(before.flagged_on()).len(),
                flagged_adjacent <= j,
                hidden@ == around@.take(j as int).filter(before.hidden_on()),
            decreases count - j,
        {
            let next = around[j];
            proof {
                assert(around@.contains(next));
                assert(around@.take(j as int + 1) =~= around@.take(j as int).push(next));
                around@.take(j as int).lemma_filter_push(next, before.flagged_on());
                around@.take(j as int).lemma_filter_push(next, before.hidden_on());
            }
            let state = match self.board.cell(next) {
                Ok(cell) => cell.state,
                Err(_) => CellState::Revealed,
            };
            if state.is_flagged() {
                flagged_adjacent = flagged_adjacent + 1;
            } else if state.is_hidden() {
                hidden.push(next);
            }
            j += 1;
        }
        proof {
            assert(around@.take(count as int) =~= around@);
        }
        if flagged_adjacent != cell.content.as_number() {
            return Ok(RevealResult::CantReveal);
        }
        let ghost cells = hidden@;
        let total = hidden.len();
        let mut game_over = false;
        let mut end_cell = CellPosition::new(0, 0);
        let mut revealed = false;
        let mut k: usize = 0;
        proof {
            assert(cells.take(0) =~= Seq::<CellPosition>::empty());
            assert forall|p: CellPosition| #[trigger] cells.contains(p) implies before.board.in_bounds(
                p,
            ) by {
                around@.lemma_filter_contains_rev(before.hidden_on(), p);
            }
        }
        while k < total
            invariant
                k <= total,
                total == cells.len(),
                cells == hidden@,
                before.wf(),
                !(before.status is New),
                forall|p: CellPosition| #[trigger] cells.contains(p) ==> before.board.in_bounds(p),
                self.wf(),
                !(self@.status is New),
                self@.board.width == before.board.width,
                self@.board.height == before.board.height,
                self@ == before.revealed_each(cells.take(k as int)),
                (if game_over {
                    RevealResult::GameOver(end_cell)
                } else if revealed {
                    RevealResult::Continue
                } else {
                    RevealResult::CantReveal
                }) == before.outcome_of_each(cells.take(k as int)),
            decreases total - k,
        {
            let next = hidden[k];
            proof {
                assert(cells.contains(next));
                assert(cells.take(k as int + 1).drop_last() =~= cells.take(k as int));
                assert(cells.take(k as int + 1).last() == next);
            }
            match self.reveal_cell(next) {
                Ok(RevealResult::GameOver(mine_pos)) => {
                    game_over = true;
                    end_cell = mine_pos;
                },
                Ok(RevealResult::Continue) => {
                    revealed = true;
                },
                Ok(RevealResult::CantReveal) => {},
                Err(e) => {
                    proof {
                        assert(false);
                    }
                    return Err(e);
                },
            }
            k += 1;
        }
        proof {
            assert(cells.take(total as int) =~= cells);
        }
        if game_over {
            Ok(RevealResult::GameOver(end_cell))
        } else if revealed {
            Ok(RevealResult::Continue)
        } else {
            Ok(RevealResult::CantReveal)
        }
    }
}

} // verus!
