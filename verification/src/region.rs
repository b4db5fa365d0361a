//! The region that revealing a cell opens: the cell itself and, where cells
//! show no number, whatever hidden cells lie around them.

use vstd::prelude::*;
use crate::board::BoardView;
use crate::cell::CellPosition;
use crate::grid::{grid, marks_shaped};
use vstd::set_lib::lemma_len_subset;

verus! {

/// A trail leads over hidden cells from one neighbour to the next, and each
/// of its cells but the last shows no number.
pub open spec fn is_trail(board: BoardView, trail: Seq<CellPosition>) -> bool {
    &&& trail.len() > 0
    &&& forall|i: int| 0 <= i < trail.len() ==> board.is_hidden(#[trigger] trail[i])
    &&& forall|i: int|
        0 <= i < trail.len() - 1 ==> board.cells[#[trigger] trail[i]].content is Empty
            && trail[i].adjacent(trail[i + 1])
}

/// Whether a trail leads from `start` to `pos`.
pub open spec fn reaches(board: BoardView, start: CellPosition, pos: CellPosition) -> bool {
    exists|trail: Seq<CellPosition>|
        #[trigger] is_trail(board, trail) && trail[0] == start && trail.last() == pos
}

/// The cells that revealing `start` opens.
pub open spec fn region(board: BoardView, start: CellPosition) -> Set<CellPosition> {
    Set::new(|p: CellPosition| reaches(board, start, p))
}

/// A hidden cell belongs to its own region.
pub proof fn lemma_region_start(board: BoardView, start: CellPosition)
    requires
        board.is_hidden(start),
    ensures
        reaches(board, start, start),
        region(board, start).contains(start),
{
    let trail = seq![start];
    assert(is_trail(board, trail));
    assert(trail[0] == start && trail.last() == start);
}

/// A region grows from a cell without a number to the hidden cells around it.
pub proof fn lemma_reach_step(
    board: BoardView,
    start: CellPosition,
    pos: CellPosition,
    next: CellPosition,
)
    requires
        reaches(board, start, pos),
        board.cells[pos].content is Empty,
        pos.adjacent(next),
        board.is_hidden(next),
    ensures
        reaches(board, start, next),
{
    let trail = choose|trail: Seq<CellPosition>|
        #[trigger] is_trail(board, trail) && trail[0] == start && trail.last() == pos;
    let longer = trail.push(next);
    assert forall|i: int| 0 <= i < longer.len() implies board.is_hidden(#[trigger] longer[i]) by {
        if i < trail.len() {
            assert(longer[i] == trail[i]);
        }
    }
    assert forall|i: int| 0 <= i < longer.len() - 1 implies board.cells[#[trigger] longer[i]].content is Empty
        && longer[i].adjacent(longer[i + 1]) by {
        assert(longer[i] == trail[i]);
        if i < trail.len() - 1 {
            assert(longer[i + 1] == trail[i + 1]);
        }
    }
    assert(is_trail(board, longer));
    assert(longer[0] == start && longer.last() == next);
}

/// A cell belongs to the region of a hidden cell `start` exactly if it is
/// `start`, or is hidden and lies next to a cell of the region that shows no
/// number: the region is the cells without a number that are linked to
/// `start`, and the hidden cells around them.
pub proof fn law_region_shape(board: BoardView, start: CellPosition, pos: CellPosition)
    requires
        board.is_hidden(start),
    ensures
        region(board, start).contains(pos) <==> (pos == start || exists|from: CellPosition|
            #![trigger region(board, start).contains(from)]
            region(board, start).contains(from) && board.cells[from].content is Empty
                && from.adjacent(pos) && board.is_hidden(pos)),
{
    lemma_region_start(board, start);
    if region(board, start).contains(pos) && pos != start {
        let trail = choose|trail: Seq<CellPosition>|
            #[trigger] is_trail(board, trail) && trail[0] == start && trail.last() == pos;
        assert(trail.len() > 1);
        let shorter = trail.drop_last();
        let from = shorter.last();
        assert forall|i: int| 0 <= i < shorter.len() implies board.is_hidden(
            #[trigger] shorter[i],
        ) by {
            assert(shorter[i] == trail[i]);
        }
        assert forall|i: int| 0 <= i < shorter.len() - 1 implies board.cells[#[trigger] shorter[i]].content is Empty
            && shorter[i].adjacent(shorter[i + 1]) by {
            assert(shorter[i] == trail[i]);
            assert(shorter[i + 1] == trail[i + 1]);
        }
        assert(is_trail(board, shorter));
        assert(shorter[0] == start);
        assert(reaches(board, start, from));
        assert(from == trail[trail.len() - 2]);
        assert(board.cells[trail[trail.len() - 2]].content is Empty && trail[trail.len()
            - 2].adjacent(trail[trail.len() - 2 + 1]));
        assert(board.is_hidden(trail[trail.len() - 1]));
        assert(region(board, start).contains(from));
    }
    if exists|from: CellPosition|
        #![trigger region(board, start).contains(from)]
        region(board, start).contains(from) && board.cells[from].content is Empty && from.adjacent(
            pos,
        ) && board.is_hidden(pos) {
        let from = choose|from: CellPosition|
            #![trigger region(board, start).contains(from)]
            region(board, start).contains(from) && board.cells[from].content is Empty
                && from.adjacent(pos) && board.is_hidden(pos);
        lemma_reach_step(board, start, from, pos);
    }
}

/// The region of a cell that shows a number, or holds a mine, is that cell
/// alone.
pub proof fn lemma_region_single(board: BoardView, start: CellPosition)
    requires
        board.is_hidden(start),
        !(board.cells[start].content is Empty),
    ensures
        region(board, start) == set![start],
{
    lemma_region_start(board, start);
    assert forall|p: CellPosition| region(board, start).contains(p) implies p == start by {
        let trail = choose|trail: Seq<CellPosition>|
            #[trigger] is_trail(board, trail) && trail[0] == start && trail.last() == p;
        if trail.len() > 1 {
            assert(board.cells[trail[0]].content is Empty);
        }
    }
    assert(region(board, start) =~= set![start]);
}

/// A region holds hidden cells of the board only, so it is finite.
pub proof fn lemma_region_hidden(board: BoardView, start: CellPosition)
    requires
        board.width <= usize::MAX,
        board.height <= usize::MAX,
    ensures
        forall|p: CellPosition| #[trigger] region(board, start).contains(p) ==> board.is_hidden(p),
        region(board, start).finite(),
        region(board, start).len() <= board.width * board.height,
{
    assert forall|p: CellPosition| #[trigger]
        region(board, start).contains(p) implies board.is_hidden(p) by {
        let trail = choose|trail: Seq<CellPosition>|
            #[trigger] is_trail(board, trail) && trail[0] == start && trail.last() == p;
        assert(board.is_hidden(trail[trail.len() - 1]));
    }
    board.lemma_finite();
    assert(region(board, start).subset_of(grid(board.width, board.height)));
    lemma_len_subset(region(board, start), grid(board.width, board.height));
}

/// No mine lies next to a cell without a number.
pub proof fn lemma_empty_is_clear(board: BoardView, pos: CellPosition, next: CellPosition)
    requires
        board.wf(),
        board.in_bounds(pos),
        board.cells[pos].content is Empty,
        board.in_bounds(next),
        pos.adjacent(next),
    ensures
        !board.is_mine(next),
{
    assert(board.number_ok(pos));
    assert(board.mine_at(next.x as int, next.y as int) == 0);
}

/// A trail that begins on a cell without a mine meets no mine.
proof fn lemma_trail_safe(board: BoardView, trail: Seq<CellPosition>, i: int)
    requires
        board.wf(),
        is_trail(board, trail),
        !board.is_mine(trail[0]),
        0 <= i < trail.len(),
    ensures
        !board.is_mine(trail[i]),
    decreases i,
{
    if i > 0 {
        lemma_trail_safe(board, trail, i - 1);
        assert(board.is_hidden(trail[i - 1]));
        assert(board.is_hidden(trail[i]));
        lemma_empty_is_clear(board, trail[i - 1], trail[i]);
    }
}

/// The region of a cell without a mine holds no mine.
pub proof fn lemma_region_safe(board: BoardView, start: CellPosition)
    requires
        board.wf(),
        !board.is_mine(start),
    ensures
        forall|p: CellPosition| #[trigger] region(board, start).contains(p) ==> !board.is_mine(p),
{
    assert forall|p: CellPosition| #[trigger]
        region(board, start).contains(p) implies !board.is_mine(p) by {
        let trail = choose|trail: Seq<CellPosition>|
            #[trigger] is_trail(board, trail) && trail[0] == start && trail.last() == p;
        lemma_trail_safe(board, trail, trail.len() - 1);
    }
}

/// Whether a set of positions holds, with each of its cells that shows no
/// number, the hidden cells around that cell.
pub open spec fn closed_under_spread(board: BoardView, cells: Set<CellPosition>) -> bool {
    forall|p: CellPosition, next: CellPosition|
        #![trigger cells.contains(p), p.adjacent(next)]
        cells.contains(p) && board.cells[p].content is Empty && p.adjacent(next)
            && board.is_hidden(next) ==> cells.contains(next)
}

/// A trail that begins in a set closed under spreading stays in it.
proof fn lemma_trail_covered(
    board: BoardView,
    cells: Set<CellPosition>,
    trail: Seq<CellPosition>,
    i: int,
)
    requires
        is_trail(board, trail),
        cells.contains(trail[0]),
        closed_under_spread(board, cells),
        0 <= i < trail.len(),
    ensures
        cells.contains(trail[i]),
    decreases i,
{
    if i > 0 {
        lemma_trail_covered(board, cells, trail, i - 1);
        assert(board.cells[trail[i - 1]].content is Empty && trail[i - 1].adjacent(trail[i]));
        assert(board.is_hidden(trail[i]));
    }
}

/// A set that holds `start` and is closed under spreading holds the whole
/// region of `start`.
pub proof fn lemma_region_covered(board: BoardView, start: CellPosition, cells: Set<CellPosition>)
    requires
        cells.contains(start),
        closed_under_spread(board, cells),
    ensures
        region(board, start).subset_of(cells),
{
    assert forall|p: CellPosition| region(board, start).contains(p) implies cells.contains(p) by {
        let trail = choose|trail: Seq<CellPosition>|
            #[trigger] is_trail(board, trail) && trail[0] == start && trail.last() == p;
        lemma_trail_covered(board, cells, trail, trail.len() - 1);
    }
}

/// What holds of the cells that a flood has queued, `head` of them done:
/// the first is `start`, none occurs twice, each is hidden and in the region
/// of `start`, none but the first may hold a mine, and the hidden cells
/// around each done cell that shows no number are queued too.
pub open spec fn scanning(
    board: BoardView,
    start: CellPosition,
    queue: Seq<CellPosition>,
    head: int,
) -> bool {
    &&& 0 <= head <= queue.len()
    &&& queue.len() >= 1
    &&& queue[0] == start
    &&& queue.no_duplicates()
    &&& forall|i: int|
        0 <= i < queue.len() ==> board.is_hidden(#[trigger] queue[i]) && reaches(
            board,
            start,
            queue[i],
        )
    &&& forall|i: int| 1 <= i < queue.len() ==> !board.is_mine(#[trigger] queue[i])
    &&& forall|i: int, next: CellPosition|
        0 <= i < head && board.cells[queue[i]].content is Empty && #[trigger] queue[i].adjacent(
            next,
        ) && board.is_hidden(next) ==> queue.contains(next)
}

/// Whether the marks say which positions of the board are queued.
pub open spec fn marking(
    marks: Seq<Vec<bool>>,
    board: BoardView,
    queue: Seq<CellPosition>,
) -> bool {
    &&& marks_shaped(marks, board.width, board.height)
    &&& forall|p: CellPosition|
        board.in_bounds(p) ==> (#[trigger] marks[p.x as int]@[p.y as int] <==> queue.contains(p))
}

/// A queue of cells of the board, none twice, is no longer than the board
/// has cells.
pub proof fn lemma_queue_bound(board: BoardView, queue: Seq<CellPosition>)
    requires
        board.width <= usize::MAX,
        board.height <= usize::MAX,
        queue.no_duplicates(),
        forall|i: int| 0 <= i < queue.len() ==> board.in_bounds(#[trigger] queue[i]),
    ensures
        queue.len() <= board.width * board.height,
{
    board.lemma_finite();
    queue.unique_seq_to_set();
    assert(queue.to_set().subset_of(grid(board.width, board.height)));
    lemma_len_subset(queue.to_set(), grid(board.width, board.height));
}

/// Once every queued cell is done, the queue holds the region of `start`.
pub proof fn lemma_scan_done(board: BoardView, start: CellPosition, queue: Seq<CellPosition>)
    requires
        scanning(board, start, queue, queue.len() as int),
    ensures
        queue.to_set() == region(board, start),
{
    let cells = queue.to_set();
    assert(queue.contains(queue[0]));
    assert forall|p: CellPosition, next: CellPosition|
        #![trigger cells.contains(p), p.adjacent(next)]
        cells.contains(p) && board.cells[p].content is Empty && p.adjacent(next)
            && board.is_hidden(next) implies cells.contains(next) by {
        let i = choose|i: int| 0 <= i < queue.len() && queue[i] == p;
        assert(queue[i].adjacent(next));
    }
    lemma_region_covered(board, start, cells);
    assert forall|p: CellPosition| cells.contains(p) implies region(board, start).contains(p) by {
        let i = choose|i: int| 0 <= i < queue.len() && queue[i] == p;
        assert(reaches(board, start, queue[i]));
    }
    assert(cells =~= region(board, start));
}

} // verus!
