//! The grid as a sequence of cells, and the geometry of its lines.
//!
//! A board of side `n` is a sequence of `n * n` cells in row-major order.
//! A line is three cells a fixed stride apart that stay on one row, one
//! column or one diagonal.

use crate::player::{opponent, Player};
use vstd::prelude::*;

verus! {

/// A cell is empty or holds the mark of one side.
pub type Cell = Option<Player>;

/// The cells of the grid, row by row.
pub type Board = Vec<Cell>;

/// `n` is the side of a grid of `len` cells, and the grid is large enough
/// to hold a line.
pub open spec fn is_side(n: int, len: int) -> bool {
    3 <= n && n * n == len
}

/// The cells form a square grid of side three or more.
pub open spec fn valid_board(cells: Seq<Cell>) -> bool {
    exists|n: int| is_side(n, cells.len() as int)
}

/// The side of the grid.
pub open spec fn side(cells: Seq<Cell>) -> int {
    choose|n: int| is_side(n, cells.len() as int)
}

/// The number of directions in which a line can run.
pub const DIRECTIONS: usize = 4;

/// The offset between neighbouring cells of a line: direction 0 runs along
/// a row, 1 down to the left, 2 down a column, 3 down to the right.
pub open spec fn stride(n: int, dir: int) -> int {
    if dir == 0 {
        1
    } else if dir == 1 {
        n - 1
    } else if dir == 2 {
        n
    } else {
        n + 1
    }
}

/// The line that begins at `start` and runs in direction `dir` stays inside
/// the grid and does not wrap from one row into the next.
pub open spec fn line_fits(n: int, dir: int, start: int) -> bool {
    let row = start / n;
    let col = start % n;
    &&& 0 <= dir < 4
    &&& 0 <= start < n * n
    &&& (dir == 0 || dir == 3) ==> col + 2 < n
    &&& dir == 1 ==> col >= 2
    &&& dir != 0 ==> row + 2 < n
}

/// The side that holds all three cells of the line at (`dir`, `start`), if
/// that line fits the grid and one side holds it.
pub open spec fn line_owner(cells: Seq<Cell>, n: int, dir: int, start: int) -> Option<Player> {
    let s = stride(n, dir);
    if line_fits(n, dir, start) && cells[start] is Some && cells[start + s] == cells[start]
        && cells[start + 2 * s] == cells[start] {
        cells[start]
    } else {
        None
    }
}

/// The order in which lines are looked at: by direction, then by start.
pub open spec fn scanned_before(d1: int, s1: int, d2: int, s2: int) -> bool {
    d1 < d2 || (d1 == d2 && s1 < s2)
}

/// The line at (`dir`, `start`) is held by one side and no line scanned
/// before it is.
pub open spec fn first_line(cells: Seq<Cell>, n: int, dir: int, start: int) -> bool {
    &&& line_owner(cells, n, dir, start) is Some
    &&& forall|d: int, s: int|
        scanned_before(d, s, dir, start) ==> line_owner(cells, n, d, s) is None
}

/// Some line is held by one side.
pub open spec fn has_line(cells: Seq<Cell>, n: int) -> bool {
    exists|d: int, s: int| line_owner(cells, n, d, s) is Some
}

/// The side that holds the first line in scan order.
pub open spec fn winner(cells: Seq<Cell>, n: int) -> Player {
    let (d, s) = choose|d: int, s: int| first_line(cells, n, d, s);
    line_owner(cells, n, d, s).unwrap()
}

/// No cell is empty.
pub open spec fn is_full(cells: Seq<Cell>) -> bool {
    forall|i: int| 0 <= i < cells.len() ==> cells[i] is Some
}

/// The number of empty cells.
pub open spec fn empties(cells: Seq<Cell>) -> nat
    decreases cells.len(),
{
    if cells.len() == 0 {
        0
    } else {
        empties(cells.drop_last()) + if cells.last() is None {
            1nat
        } else {
            0nat
        }
    }
}

/// The board with every mark handed to the other side.
pub open spec fn swap_marks(cells: Seq<Cell>) -> Seq<Cell> {
    Seq::new(
        cells.len(),
        |i: int|
            match cells[i] {
                Some(p) => Some(opponent(p)),
                None => None,
            },
    )
}

/// The board of `len` cells without a mark.
pub open spec fn blank(len: nat) -> Seq<Cell> {
    Seq::new(len, |i: int| None)
}

/// Makes a board of `len` empty cells.
pub fn blank_board(len: usize) -> (board: Board)
    ensures
        board@ == blank(len as nat),
{
    let mut board: Board = Vec::new();
    let mut i: usize = 0;
    while i < len
        invariant
            i <= len,
            board@ == blank(i as nat),
        decreases len - i,
    {
        board.push(None);
        i = i + 1;
    }
    board
}

/// Makes a board that holds what `board` holds, cell by cell.
pub fn copy_board(board: &Board) -> (copy: Board)
    ensures
        copy@ == board@,
{
    let mut copy: Board = Vec::new();
    let mut i: usize = 0;
    while i < board.len()
        invariant
            i <= board@.len(),
            copy@ == board@.take(i as int),
        decreases board@.len() - i,
    {
        copy.push(board[i]);
        i = i + 1;
    }
    copy
}

/// Puts `mark` into cell `place` and leaves the other cells as they are.
pub fn mark_cell(board: &mut Board, place: usize, mark: Cell)
    requires
        place < old(board)@.len(),
    ensures
        final(board)@ == old(board)@.update(place as int, mark),
    no_unwind
{
    board[place] = mark;
}

/// Squaring keeps the order of non-negative numbers.
pub proof fn lemma_square_order(a: int, b: int)
    requires
        0 <= a,
        0 <= b,
    ensures
        a <= b <==> a * a <= b * b,
        a < b <==> a * a < b * b,
{
    assert(a <= b ==> a * a <= b * b) by (nonlinear_arith)
        requires
            0 <= a,
            0 <= b,
    ;
    assert(a < b ==> a * a < b * b) by (nonlinear_arith)
        requires
            0 <= a,
            0 <= b,
    ;
    assert(b <= a ==> b * b <= a * a) by (nonlinear_arith)
        requires
            0 <= a,
            0 <= b,
    ;
    assert(b < a ==> b * b < a * a) by (nonlinear_arith)
        requires
            0 <= a,
            0 <= b,
    ;
}

/// A grid of side three or more has more cells than its side is long.
pub proof fn lemma_side_below_length(n: int)
    requires
        3 <= n,
    ensures
        n + 1 < n * n,
{
    assert(n + 1 < n * n) by (nonlinear_arith)
        requires
            3 <= n,
    ;
}

/// A grid has one side only.
pub proof fn lemma_side_unique(cells: Seq<Cell>, n: int)
    requires
        is_side(n, cells.len() as int),
    ensures
        valid_board(cells),
        side(cells) == n,
{
    let m = side(cells);
    assert(is_side(m, cells.len() as int));
    lemma_square_order(n, m);
}

/// The three cells of a line that fits are cells of the grid.
pub proof fn lemma_line_in_grid(n: int, dir: int, start: int)
    requires
        3 <= n,
        line_fits(n, dir, start),
    ensures
        0 <= start,
        1 <= stride(n, dir),
        start + 2 * stride(n, dir) < n * n,
{
    let row = start / n;
    let col = start % n;
    vstd::arithmetic::div_mod::lemma_fundamental_div_mod(start, n);
    vstd::arithmetic::div_mod::lemma_mod_pos_bound(start, n);
    assert(start == n * row + col);
    assert(0 <= row) by (nonlinear_arith)
        requires
            start == n * row + col,
            0 <= start,
            0 <= col < n,
    ;
    assert(row < n) by (nonlinear_arith)
        requires
            start == n * row + col,
            start < n * n,
            0 <= col,
            0 < n,
    ;
    if dir == 0 {
        assert(n * row + n <= n * n) by (nonlinear_arith)
            requires
                0 <= row < n,
        ;
    } else {
        assert(n * row + 3 * n <= n * n) by (nonlinear_arith)
            requires
                0 <= row,
                row + 3 <= n,
        ;
    }
}

/// There are at most as many empty cells as cells.
pub proof fn lemma_empties_bound(cells: Seq<Cell>)
    ensures
        empties(cells) <= cells.len(),
    decreases cells.len(),
{
    if cells.len() > 0 {
        lemma_empties_bound(cells.drop_last());
    }
}

/// Marking an empty cell leaves one empty cell fewer.
pub proof fn lemma_empties_mark(cells: Seq<Cell>, i: int, p: Player)
    requires
        0 <= i < cells.len(),
        cells[i] is None,
    ensures
        empties(cells.update(i, Some(p))) + 1 == empties(cells),
    decreases cells.len(),
{
    let marked = cells.update(i, Some(p));
    if i == cells.len() - 1 {
        assert(marked.drop_last() =~= cells.drop_last());
    } else {
        lemma_empties_mark(cells.drop_last(), i, p);
        assert(marked.drop_last() =~= cells.drop_last().update(i, Some(p)));
    }
}

/// A board is full exactly when it has no empty cell.
pub proof fn lemma_full_iff_no_empties(cells: Seq<Cell>)
    ensures
        is_full(cells) <==> empties(cells) == 0,
    decreases cells.len(),
{
    if cells.len() > 0 {
        let front = cells.drop_last();
        lemma_full_iff_no_empties(front);
        if is_full(cells) {
            assert forall|i: int| 0 <= i < front.len() implies front[i] is Some by {
                assert(front[i] == cells[i]);
            }
        }
        if empties(cells) == 0 {
            assert forall|i: int| 0 <= i < cells.len() implies cells[i] is Some by {
                if i < front.len() {
                    assert(front[i] == cells[i]);
                }
            }
        }
    }
}

} // verus!
