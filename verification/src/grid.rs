//! Positions on a board: the set of all of them, and the neighbours of one.

use vstd::prelude::*;
use vstd::set_lib::lemma_set_disjoint_lens;
use crate::cell::CellPosition;

verus! {

/// The positions of a board with `width` columns and `height` rows.
pub open spec fn grid(width: nat, height: nat) -> Set<CellPosition> {
    Set::new(|p: CellPosition| p.x < width && p.y < height)
}

/// The first `height` positions of column `x`.
pub open spec fn column(x: nat, height: nat) -> Set<CellPosition> {
    Set::new(|p: CellPosition| p.x == x && p.y < height)
}

/// A column of `height` cells holds `height` positions.
pub proof fn lemma_column_len(x: nat, height: nat)
    requires
        x <= usize::MAX,
        height <= usize::MAX,
    ensures
        column(x, height).finite(),
        column(x, height).len() == height,
    decreases height,
{
    if height == 0 {
        assert(column(x, height) =~= Set::empty());
    } else {
        let below = (height - 1) as nat;
        lemma_column_len(x, below);
        let top = CellPosition { x: x as usize, y: below as usize };
        assert(column(x, height) =~= column(x, below).insert(top));
    }
}

/// A board of `width` columns and `height` rows holds `width * height`
/// positions.
pub proof fn lemma_grid_len(width: nat, height: nat)
    requires
        width <= usize::MAX,
        height <= usize::MAX,
    ensures
        grid(width, height).finite(),
        grid(width, height).len() == width * height,
    decreases width,
{
    if width == 0 {
        assert(grid(width, height) =~= Set::empty());
        assert(width * height == 0) by (nonlinear_arith)
            requires
                width == 0,
        ;
    } else {
        let left = (width - 1) as nat;
        lemma_grid_len(left, height);
        lemma_column_len(left, height);
        assert(grid(width, height) =~= grid(left, height) + column(left, height));
        assert(grid(left, height).disjoint(column(left, height)));
        lemma_set_disjoint_lens(grid(left, height), column(left, height));
        assert(left * height + height == width * height) by (nonlinear_arith)
            requires
                left + 1 == width,
        ;
    }
}

/// Whether a grid of marks has `width` columns of `height` marks each.
pub open spec fn marks_shaped(marks: Seq<Vec<bool>>, width: nat, height: nat) -> bool {
    &&& marks.len() == width
    &&& forall|x: int| 0 <= x < width ==> (#[trigger] marks[x])@.len() == height
}

/// A grid of `width` columns of `height` marks, none of them set.
pub(crate) fn unmarked(width: usize, height: usize) -> (marks: Vec<Vec<bool>>)
    ensures
        marks_shaped(marks@, width as nat, height as nat),
        forall|p: CellPosition| p.x < width && p.y < height ==> !(#[trigger] marks@[p.x as int]@[p.y as int]),
{
    let mut marks: Vec<Vec<bool>> = Vec::new();
    let mut x: usize = 0;
    while x < width
        invariant
            x <= width,
            marks@.len() == x,
            forall|i: int|
                0 <= i < x ==> (#[trigger] marks@[i])@ == Seq::new(height as nat, |j: int| false),
        decreases width - x,
    {
        let mut column: Vec<bool> = Vec::new();
        let mut y: usize = 0;
        while y < height
            invariant
                y <= height,
                column@ == Seq::new(y as nat, |j: int| false),
            decreases height - y,
        {
            column.push(false);
            y += 1;
        }
        marks.push(column);
        x += 1;
    }
    marks
}

/// The neighbour of `pos` that lies `dx` columns and `dy` rows away, as a
/// sequence of one position, or of none where that place is off the board.
pub open spec fn neighbor(pos: CellPosition, dx: int, dy: int, width: nat, height: nat) -> Seq<
    CellPosition,
> {
    let x = pos.x + dx;
    let y = pos.y + dy;
    if 0 <= x < width && 0 <= y < height {
        seq![CellPosition { x: x as usize, y: y as usize }]
    } else {
        Seq::empty()
    }
}

/// The neighbours of `pos` on the board, column by column and, within a
/// column, row by row.
pub open spec fn neighbors(pos: CellPosition, width: nat, height: nat) -> Seq<CellPosition> {
    neighbor(pos, -1, -1, width, height) + neighbor(pos, -1, 0, width, height) + neighbor(
        pos,
        -1,
        1,
        width,
        height,
    ) + neighbor(pos, 0, -1, width, height) + neighbor(pos, 0, 1, width, height) + neighbor(
        pos,
        1,
        -1,
        width,
        height,
    ) + neighbor(pos, 1, 0, width, height) + neighbor(pos, 1, 1, width, height)
}

/// Appending at most one new item to a sequence without repeats gives a
/// sequence without repeats that holds the items of both.
proof fn lemma_append_one(s: Seq<CellPosition>, t: Seq<CellPosition>)
    requires
        s.no_duplicates(),
        t.len() <= 1,
        forall|p: CellPosition| t.contains(p) ==> !s.contains(p),
    ensures
        (s + t).no_duplicates(),
        (s + t).len() == s.len() + t.len(),
        forall|p: CellPosition| #[trigger]
            (s + t).contains(p) <==> (s.contains(p) || t.contains(p)),
{
    let u = s + t;
    assert forall|p: CellPosition| u.contains(p) <==> (s.contains(p) || t.contains(p)) by {
        if u.contains(p) {
            let i = choose|i: int| 0 <= i < u.len() && u[i] == p;
            if i < s.len() {
                assert(s[i] == p);
            } else {
                assert(t[i - s.len()] == p);
            }
        }
        if s.contains(p) {
            let i = choose|i: int| 0 <= i < s.len() && s[i] == p;
            assert(u[i] == p);
        }
        if t.contains(p) {
            let i = choose|i: int| 0 <= i < t.len() && t[i] == p;
            assert(u[s.len() + i] == p);
        }
    }
    assert forall|i: int, j: int| 0 <= i < u.len() && 0 <= j < u.len() && i != j implies u[i]
        != u[j] by {
        if i < s.len() && j < s.len() {
        } else if i >= s.len() && j >= s.len() {
        } else if i < s.len() {
            assert(t.contains(t[j - s.len()]));
            assert(s.contains(s[i]));
        } else {
            assert(t.contains(t[i - s.len()]));
            assert(s.contains(s[j]));
        }
    }
}

/// The neighbour in a given direction is the one position there, if it lies
/// on the board.
proof fn lemma_neighbor(pos: CellPosition, dx: int, dy: int, width: nat, height: nat)
    requires
        width <= usize::MAX,
        height <= usize::MAX,
    ensures
        neighbor(pos, dx, dy, width, height).len() <= 1,
        forall|p: CellPosition| #[trigger]
            neighbor(pos, dx, dy, width, height).contains(p) <==> (p.x < width && p.y < height
                && p.x == pos.x + dx && p.y == pos.y + dy),
{
    let t = neighbor(pos, dx, dy, width, height);
    assert forall|p: CellPosition| #[trigger]
        t.contains(p) <==> (p.x < width && p.y < height && p.x == pos.x + dx && p.y == pos.y
            + dy) by {
        if p.x < width && p.y < height && p.x == pos.x + dx && p.y == pos.y + dy {
            assert(t[0] == p);
        }
    }
}

/// The neighbours of a position are the positions of the board that lie
/// around it, each listed once.
pub proof fn lemma_neighbors(pos: CellPosition, width: nat, height: nat)
    requires
        width <= usize::MAX,
        height <= usize::MAX,
    ensures
        neighbors(pos, width, height).no_duplicates(),
        neighbors(pos, width, height).len() <= 8,
        forall|p: CellPosition| #[trigger]
            neighbors(pos, width, height).contains(p) <==> (p.x < width && p.y < height
                && pos.adjacent(p)),
{
    let n1 = neighbor(pos, -1, -1, width, height);
    let n2 = neighbor(pos, -1, 0, width, height);
    let n3 = neighbor(pos, -1, 1, width, height);
    let n4 = neighbor(pos, 0, -1, width, height);
    let n5 = neighbor(pos, 0, 1, width, height);
    let n6 = neighbor(pos, 1, -1, width, height);
    let n7 = neighbor(pos, 1, 0, width, height);
    let n8 = neighbor(pos, 1, 1, width, height);
    lemma_neighbor(pos, -1, -1, width, height);
    lemma_neighbor(pos, -1, 0, width, height);
    lemma_neighbor(pos, -1, 1, width, height);
    lemma_neighbor(pos, 0, -1, width, height);
    lemma_neighbor(pos, 0, 1, width, height);
    lemma_neighbor(pos, 1, -1, width, height);
    lemma_neighbor(pos, 1, 0, width, height);
    lemma_neighbor(pos, 1, 1, width, height);
    assert(n1.no_duplicates());
    lemma_append_one(n1, n2);
    lemma_append_one(n1 + n2, n3);
    lemma_append_one(n1 + n2 + n3, n4);
    lemma_append_one(n1 + n2 + n3 + n4, n5);
    lemma_append_one(n1 + n2 + n3 + n4 + n5, n6);
    lemma_append_one(n1 + n2 + n3 + n4 + n5 + n6, n7);
    lemma_append_one(n1 + n2 + n3 + n4 + n5 + n6 + n7, n8);
    let all = n1 + n2 + n3 + n4 + n5 + n6 + n7 + n8;
    assert(all == neighbors(pos, width, height));
    assert forall|p: CellPosition| #[trigger]
        all.contains(p) <==> (p.x < width && p.y < height && pos.adjacent(p)) by {
        assert(all.contains(p) <==> (n1 + n2 + n3 + n4 + n5 + n6 + n7).contains(p) || n8.contains(
            p,
        ));
        assert((n1 + n2 + n3 + n4 + n5 + n6 + n7).contains(p) <==> (n1 + n2 + n3 + n4 + n5
            + n6).contains(p) || n7.contains(p));
        assert((n1 + n2 + n3 + n4 + n5 + n6).contains(p) <==> (n1 + n2 + n3 + n4 + n5).contains(p)
            || n6.contains(p));
        assert((n1 + n2 + n3 + n4 + n5).contains(p) <==> (n1 + n2 + n3 + n4).contains(p)
            || n5.contains(p));
        assert((n1 + n2 + n3 + n4).contains(p) <==> (n1 + n2 + n3).contains(p) || n4.contains(p));
        assert((n1 + n2 + n3).contains(p) <==> (n1 + n2).contains(p) || n3.contains(p));
        assert((n1 + n2).contains(p) <==> n1.contains(p) || n2.contains(p));
    }
}

} // verus!
