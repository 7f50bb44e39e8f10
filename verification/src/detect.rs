//! Telling whether a position is won, tied or still open.

use crate::board::{
    empties, first_line, has_line, is_full, is_side, lemma_full_iff_no_empties,
    lemma_line_in_grid, lemma_side_below_length, lemma_side_unique, lemma_square_order, line_fits, line_owner,
    scanned_before, side, stride, swap_marks, valid_board, winner, Cell, DIRECTIONS,
};
use crate::player::{opponent, swap_result, GameResult, Player};
use itertools::Itertools;
use vstd::prelude::*;

verus! {

/// The outcome of a position on a grid of side `n`: a win for the side
/// that holds the first line in scan order, else a tie if the board is
/// full, else an open game.
pub open spec fn outcome_on(cells: Seq<Cell>, n: int) -> GameResult {
    if has_line(cells, n) {
        GameResult::Win(winner(cells, n))
    } else if is_full(cells) {
        GameResult::Tie
    } else {
        GameResult::NotEnded
    }
}

/// The outcome of a position.
pub open spec fn outcome(cells: Seq<Cell>) -> GameResult {
    outcome_on(cells, side(cells))
}

/// A small number for what a cell holds, so that cells can be compared as
/// integers.
pub open spec fn cell_code(c: Cell) -> u8 {
    match c {
        None => 0u8,
        Some(Player::X) => 1u8,
        Some(Player::O) => 2u8,
    }
}

/// The code of a cell.
fn code_of(c: Cell) -> (k: u8)
    ensures
        k == cell_code(c),
{
    match c {
        None => 0,
        Some(Player::X) => 1,
        Some(Player::O) => 2,
    }
}

/// `Itertools::all_equal` over the items of a slice of bytes. It takes the
/// first item, if there is one, and compares every later item with it by
/// `==`; so it answers whether any two items of the slice are equal, and
/// says yes for an empty slice. This contract is taken on trust.
#[verifier::external_body]
fn all_equal(items: &[u8]) -> (same: bool)
    ensures
        same == (forall|i: int, j: int|
            0 <= i < items@.len() && 0 <= j < items@.len() ==> items@[i] == items@[j]),
{
    items.iter().all_equal()
}

/// The side of a square grid of `len` cells, found by counting up to the
/// root of `len`; `None` where `len` is no square of a number from three
/// up.
pub fn side_of_length(len: usize) -> (found: Option<usize>)
    ensures
        match found {
            Some(n) => is_side(n as int, len as int),
            None => forall|m: int| !is_side(m, len as int),
        },
{
    let mut n: usize = 3;
    loop
        invariant
            3 <= n,
            forall|m: int| m < n ==> !is_side(m, len as int),
            n == 3 || (n - 1) * (n - 1) < len,
        decreases len - n,
    {
        proof {
            lemma_square_order(n - 1, n as int);
            lemma_side_below_length(n as int);
        }
        let fits = match n.checked_mul(n) {
            Some(square) => {
                if square == len {
                    return Some(n);
                }
                square < len
            },
            None => false,
        };
        if !fits {
            proof {
                assert forall|m: int| !is_side(m, len as int) by {
                    if n <= m {
                        lemma_square_order(n as int, m);
                    }
                }
            }
            return None;
        }
        n = n + 1;
    }
}

/// The side of the grid.
pub fn board_side(board: &[Cell]) -> (n: usize)
    requires
        valid_board(board@),
    ensures
        n as int == side(board@),
        is_side(n as int, board@.len() as int),
{
    match side_of_length(board.len()) {
        Some(n) => {
            proof {
                lemma_side_unique(board@, n as int);
            }
            n
        },
        None => {
            proof {
                assert(is_side(side(board@), board@.len() as int));
            }
            3
        },
    }
}

/// The side that holds the line at (`dir`, `start`), if the line fits the
/// grid and one side holds all three of its cells.
pub fn line_mark(board: &[Cell], n: usize, dir: usize, start: usize) -> (owner: Option<Player>)
    requires
        is_side(n as int, board@.len() as int),
        dir < DIRECTIONS,
        start < board@.len(),
    ensures
        owner == line_owner(board@, n as int, dir as int, start as int),
{
    let row = start / n;
    let col = start % n;
    let fits = ((dir != 0 && dir != 3) || col < n - 2) && (dir != 1 || col >= 2) && (dir == 0
        || row < n - 2);
    if !fits {
        return None;
    }
    assert(line_fits(n as int, dir as int, start as int));
    proof {
        lemma_line_in_grid(n as int, dir as int, start as int);
        lemma_side_below_length(n as int);
    }
    let step = if dir == 0 {
        1
    } else if dir == 1 {
        n - 1
    } else if dir == 2 {
        n
    } else {
        n + 1
    };
    assert(step == stride(n as int, dir as int));
    let first = board[start];
    let second = board[start + step];
    let third = board[start + 2 * step];
    let run: [u8; 3] = [code_of(first), code_of(second), code_of(third)];
    let same = all_equal(run.as_slice());
    proof {
        let codes = run@;
        assert(codes[0] == cell_code(first) && codes[1] == cell_code(second) && codes[2]
            == cell_code(third));
        if same {
            assert(codes[0] == codes[1] && codes[0] == codes[2]);
        }
    }
    if first.is_some() && same {
        first
    } else {
        None
    }
}

/// Tells whether no cell of the board is empty.
pub fn board_is_full(board: &[Cell]) -> (full: bool)
    ensures
        full == is_full(board@),
{
    let mut i: usize = 0;
    while i < board.len()
        invariant
            i <= board@.len(),
            forall|k: int| 0 <= k < i ==> board@[k] is Some,
        decreases board@.len() - i,
    {
        if board[i].is_none() {
            return false;
        }
        i = i + 1;
    }
    true
}

/// Tells the outcome of a position: it looks at the lines direction by
/// direction and start by start, reports the holder of the first line that
/// one side holds, and otherwise tells a full board from an open one.
pub fn check_win(board: &[Cell]) -> (result: GameResult)
    requires
        valid_board(board@),
    ensures
        result == outcome(board@),
{
    let n = board_side(board);
    let len = board.len();
    let mut dir: usize = 0;
    while dir < DIRECTIONS
        invariant
            dir <= DIRECTIONS,
            len == board@.len(),
            is_side(n as int, len as int),
            n as int == side(board@),
            forall|d: int, s: int|
                0 <= d < dir && 0 <= s < len ==> line_owner(board@, n as int, d, s) is None,
        decreases DIRECTIONS - dir,
    {
        let mut start: usize = 0;
        while start < len
            invariant
                dir < DIRECTIONS,
                start <= len,
                len == board@.len(),
                is_side(n as int, len as int),
                n as int == side(board@),
                forall|d: int, s: int|
                    0 <= d < dir && 0 <= s < len ==> line_owner(board@, n as int, d, s) is None,
                forall|s: int|
                    0 <= s < start ==> line_owner(board@, n as int, dir as int, s) is None,
            decreases len - start,
        {
            match line_mark(board, n, dir, start) {
                Some(p) => {
                    proof {
                        assert(first_line(board@, n as int, dir as int, start as int));
                        lemma_first_line_wins(board@, n as int, dir as int, start as int);
                    }
                    return GameResult::Win(p);
                },
                None => {},
            }
            start = start + 1;
        }
        dir = dir + 1;
    }
    assert(!has_line(board@, n as int));
    if board_is_full(board) {
        GameResult::Tie
    } else {
        GameResult::NotEnded
    }
}

/// The first line in scan order is the only one of its kind, so the side
/// that holds it is the winner.
pub proof fn lemma_first_line_wins(cells: Seq<Cell>, n: int, dir: int, start: int)
    requires
        first_line(cells, n, dir, start),
    ensures
        has_line(cells, n),
        Some(winner(cells, n)) == line_owner(cells, n, dir, start),
{
    let (d, s) = choose|d: int, s: int| first_line(cells, n, d, s);
    assert(first_line(cells, n, d, s));
    if scanned_before(d, s, dir, start) {
        assert(line_owner(cells, n, d, s) is None);
    } else if scanned_before(dir, start, d, s) {
        assert(line_owner(cells, n, dir, start) is None);
    }
}

/// Where one side holds a line, some line that a side holds comes first in
/// scan order, and it does not come after the given one.
pub proof fn lemma_first_line_exists(cells: Seq<Cell>, n: int, dir: int, start: int) -> (first: (
    int,
    int,
))
    requires
        line_owner(cells, n, dir, start) is Some,
    ensures
        first_line(cells, n, first.0, first.1),
        !scanned_before(dir, start, first.0, first.1),
    decreases dir, start,
{
    if exists|d: int, s: int|
        scanned_before(d, s, dir, start) && line_owner(cells, n, d, s) is Some {
        let (d, s) = choose|d: int, s: int|
            scanned_before(d, s, dir, start) && line_owner(cells, n, d, s) is Some;
        assert(line_fits(n, d, s));
        assert(line_fits(n, dir, start));
        lemma_first_line_exists(cells, n, d, s)
    } else {
        (dir, start)
    }
}

/// A board on which one side holds a line is won, and the winner holds a
/// line.
pub proof fn lemma_line_means_win(cells: Seq<Cell>, dir: int, start: int)
    requires
        line_owner(cells, side(cells), dir, start) is Some,
    ensures
        outcome(cells) is Win,
        exists|d: int, s: int|
            line_owner(cells, side(cells), d, s) == Some(outcome(cells)->Win_0),
{
    let n = side(cells);
    let (d, s) = lemma_first_line_exists(cells, n, dir, start);
    lemma_first_line_wins(cells, n, d, s);
}

/// A board on which one side holds a line and the other side holds none is
/// won by the side that holds the line.
pub proof fn lemma_only_holder_wins(cells: Seq<Cell>, p: Player, dir: int, start: int)
    requires
        line_owner(cells, side(cells), dir, start) == Some(p),
        forall|d: int, s: int| line_owner(cells, side(cells), d, s) != Some(opponent(p)),
    ensures
        outcome(cells) == GameResult::Win(p),
{
    lemma_line_means_win(cells, dir, start);
}

/// A board without a mark is an open game, whatever its side.
pub proof fn lemma_empty_board_open(cells: Seq<Cell>)
    requires
        valid_board(cells),
        forall|i: int| 0 <= i < cells.len() ==> cells[i] is None,
    ensures
        outcome(cells) == GameResult::NotEnded,
{
    let n = side(cells);
    assert forall|d: int, s: int| line_owner(cells, n, d, s) is None by {
        if line_fits(n, d, s) {
            assert(cells[s] is None);
        }
    }
    lemma_square_order(3, n);
    assert(cells[0] is None);
}

/// A full board on which no side holds a line is a tie.
pub proof fn lemma_full_board_without_line_ties(cells: Seq<Cell>)
    requires
        is_full(cells),
        forall|d: int, s: int| line_owner(cells, side(cells), d, s) is None,
    ensures
        outcome(cells) == GameResult::Tie,
{
}

/// An open game has an empty cell.
pub proof fn lemma_open_game_has_room(cells: Seq<Cell>)
    requires
        outcome(cells) == GameResult::NotEnded,
    ensures
        empties(cells) > 0,
        exists|i: int| 0 <= i < cells.len() && cells[i] is None,
{
    lemma_full_iff_no_empties(cells);
}

/// Handing every mark to the other side hands the win to the other side and
/// changes nothing else about the outcome.
pub proof fn lemma_outcome_swap(cells: Seq<Cell>)
    requires
        valid_board(cells),
    ensures
        outcome(swap_marks(cells)) == swap_result(outcome(cells)),
{
    let n = side(cells);
    let swapped = swap_marks(cells);
    assert(side(swapped) == n);
    assert forall|d: int, s: int|
        line_owner(swapped, n, d, s) == (match line_owner(cells, n, d, s) {
            Some(p) => Some(opponent(p)),
            None => None,
        }) by {
        if line_fits(n, d, s) {
            lemma_line_in_grid(n, d, s);
        }
    }
    if has_line(cells, n) {
        let (d, s) = choose|d: int, s: int| line_owner(cells, n, d, s) is Some;
        let (fd, fs) = lemma_first_line_exists(cells, n, d, s);
        lemma_first_line_wins(cells, n, fd, fs);
        assert(first_line(swapped, n, fd, fs));
        lemma_first_line_wins(swapped, n, fd, fs);
    } else {
        assert(!has_line(swapped, n));
        assert(is_full(swapped) == is_full(cells)) by {
            if is_full(cells) {
                assert forall|i: int| 0 <= i < swapped.len() implies swapped[i] is Some by {
                    assert(cells[i] is Some);
                }
            }
            if is_full(swapped) {
                assert forall|i: int| 0 <= i < cells.len() implies cells[i] is Some by {
                    assert(swapped[i] is Some);
                }
            }
        }
    }
}

} // verus!
