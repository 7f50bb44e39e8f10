//! What the best move is, and why pruning does not change it.
//!
//! `minimax` describes the search that visits every line of play.
//! `alpha_beta` describes the search that skips the lines of play which
//! cannot matter any more. The laws at the end relate the two.

use crate::board::{empties, lemma_empties_mark, Cell};
use crate::detect::{lemma_open_game_has_room, outcome};
use crate::player::{opponent, GameResult, Player};
use vstd::prelude::*;

verus! {

/// A move with the value that the search gives it.
#[derive(Debug, Copy, Clone, PartialEq, Eq)]
pub struct Move {
    /// What the position is worth to the searching side after the move.
    pub score: i64,
    /// The cell to mark.
    pub index: usize,
}

/// A rated move as the contracts speak of it, with unbounded integers.
pub struct Rated {
    pub score: int,
    pub index: int,
}

impl View for Move {
    type V = Rated;

    open spec fn view(&self) -> Rated {
        Rated { score: self.score as int, index: self.index as int }
    }
}

/// Where a scan over the cells of a position stands: the best move so far,
/// the window as it has been narrowed, and whether the window has closed.
pub struct Scan {
    pub best: Rated,
    pub alpha: int,
    pub beta: int,
    pub cut: bool,
}

/// The side that marks a cell at a node: the searching side where its own
/// choice is looked for, its opponent where the reply is.
pub open spec fn mover(me: Player, maximizing: bool) -> Player {
    if maximizing {
        me
    } else {
        opponent(me)
    }
}

/// What a decided game is worth to `me` when it is reached after `depth`
/// moves: a win counts for more the sooner it comes, a loss for less the
/// later it comes.
pub open spec fn leaf_score(w: Player, me: Player, depth: int) -> int {
    if w == me {
        100 - depth
    } else {
        depth - 100
    }
}

/// The value a scan starts from, which any real score improves on.
pub open spec fn worst(maximizing: bool) -> int {
    if maximizing {
        i64::MIN as int
    } else {
        i64::MAX as int
    }
}

/// Whether a new score is strictly better than the best one so far. An
/// equal score is no improvement, so the first of several equally good
/// cells is kept.
pub open spec fn improves(maximizing: bool, new: int, old: int) -> bool {
    if maximizing {
        new > old
    } else {
        new < old
    }
}

/// The position after `p` has marked cell `i`.
pub open spec fn place(cells: Seq<Cell>, i: int, p: Player) -> Seq<Cell> {
    cells.update(i, Some(p))
}

/// The best move of the side to move and its value to `me`, found by
/// following every line of play to its end. A decided position is worth
/// its leaf score and names cell 0.
pub open spec fn minimax(cells: Seq<Cell>, me: Player, maximizing: bool, depth: int) -> Rated
    decreases empties(cells), 1int, 0int,
{
    match outcome(cells) {
        GameResult::Win(w) => Rated { score: leaf_score(w, me, depth), index: 0 },
        GameResult::Tie => Rated { score: 0, index: 0 },
        GameResult::NotEnded => minimax_upto(cells, me, maximizing, depth, cells.len() as int),
    }
}

/// The best move among the empty cells below `upto`: the first cell, in
/// index order, whose reply value no other cell below `upto` beats.
pub open spec fn minimax_upto(
    cells: Seq<Cell>,
    me: Player,
    maximizing: bool,
    depth: int,
    upto: int,
) -> Rated
    decreases empties(cells), 0int, upto,
{
    if upto <= 0 || upto > cells.len() {
        Rated { score: worst(maximizing), index: 0 }
    } else {
        let i = upto - 1;
        let prev = minimax_upto(cells, me, maximizing, depth, i);
        if cells[i] is Some {
            prev
        } else {
            proof {
                lemma_empties_mark(cells, i, mover(me, maximizing));
            }
            let reply = minimax(
                place(cells, i, mover(me, maximizing)),
                me,
                !maximizing,
                depth + 1,
            );
            if improves(maximizing, reply.score, prev.score) {
                Rated { score: reply.score, index: i }
            } else {
                prev
            }
        }
    }
}

/// What marking the empty cell `i` is worth to `me`, when the side to move
/// marks it and both sides play on as well as they can.
pub open spec fn reply_score(
    cells: Seq<Cell>,
    me: Player,
    maximizing: bool,
    depth: int,
    i: int,
) -> int {
    minimax(place(cells, i, mover(me, maximizing)), me, !maximizing, depth + 1).score
}

/// The move that the pruned search returns for the window from `alpha` to
/// `beta`.
pub open spec fn alpha_beta(
    cells: Seq<Cell>,
    me: Player,
    alpha: int,
    beta: int,
    maximizing: bool,
    depth: int,
) -> Rated
    decreases empties(cells), 1int, 0int,
{
    match outcome(cells) {
        GameResult::Win(w) => Rated { score: leaf_score(w, me, depth), index: 0 },
        GameResult::Tie => Rated { score: 0, index: 0 },
        GameResult::NotEnded => alpha_beta_upto(
            cells,
            me,
            alpha,
            beta,
            maximizing,
            depth,
            cells.len() as int,
        ).best,
    }
}

/// The pruned scan after the cells below `upto`. Each empty cell is
/// searched with the window as it stands; its value may improve the best
/// move and narrows the window on the side of the player to move. Once
/// `beta <= alpha` the window has closed and the remaining cells are
/// skipped.
pub open spec fn alpha_beta_upto(
    cells: Seq<Cell>,
    me: Player,
    alpha: int,
    beta: int,
    maximizing: bool,
    depth: int,
    upto: int,
) -> Scan
    decreases empties(cells), 0int, upto,
{
    if upto <= 0 || upto > cells.len() {
        Scan { best: Rated { score: worst(maximizing), index: 0 }, alpha, beta, cut: false }
    } else {
        let i = upto - 1;
        let prev = alpha_beta_upto(cells, me, alpha, beta, maximizing, depth, i);
        if prev.cut || cells[i] is Some {
            prev
        } else {
            proof {
                lemma_empties_mark(cells, i, mover(me, maximizing));
            }
            let reply = alpha_beta(
                place(cells, i, mover(me, maximizing)),
                me,
                prev.alpha,
                prev.beta,
                !maximizing,
                depth + 1,
            );
            let best = if improves(maximizing, reply.score, prev.best.score) {
                Rated { score: reply.score, index: i }
            } else {
                prev.best
            };
            let a = if maximizing && reply.score > prev.alpha {
                reply.score
            } else {
                prev.alpha
            };
            let b = if !maximizing && reply.score < prev.beta {
                reply.score
            } else {
                prev.beta
            };
            Scan { best, alpha: a, beta: b, cut: b <= a }
        }
    }
}

/// The least score of a game that ends after at most `deepest` moves.
pub open spec fn score_floor(deepest: int) -> int {
    if deepest <= 200 {
        -100
    } else {
        100 - deepest
    }
}

/// The greatest score of a game that ends after at most `deepest` moves.
pub open spec fn score_ceiling(deepest: int) -> int {
    if deepest <= 200 {
        100
    } else {
        deepest - 100
    }
}

/// How the pruned scan and the full scan stand to each other after the
/// same cells.
proof fn lemma_scans_agree(
    cells: Seq<Cell>,
    me: Player,
    alpha: int,
    beta: int,
    maximizing: bool,
    depth: int,
    upto: int,
)
    requires
        i64::MIN <= alpha < beta <= i64::MAX,
        0 <= upto <= cells.len(),
    ensures
        ({
            let s = alpha_beta_upto(cells, me, alpha, beta, maximizing, depth, upto);
            let m = minimax_upto(cells, me, maximizing, depth, upto);
            if maximizing {
                &&& s.beta == beta
                &&& s.best.score >= i64::MIN
                &&& s.alpha == if s.best.score > alpha {
                    s.best.score
                } else {
                    alpha
                }
                &&& s.cut == (beta <= s.alpha)
                &&& !s.cut && s.best.score <= alpha ==> m.score <= s.best.score
                &&& !s.cut && s.best.score > alpha ==> m == s.best
                &&& s.cut ==> m.score >= s.best.score
            } else {
                &&& s.alpha == alpha
                &&& s.best.score <= i64::MAX
                &&& s.beta == if s.best.score < beta {
                    s.best.score
                } else {
                    beta
                }
                &&& s.cut == (s.beta <= alpha)
                &&& !s.cut && s.best.score >= beta ==> m.score >= s.best.score
                &&& !s.cut && s.best.score < beta ==> m == s.best
                &&& s.cut ==> m.score <= s.best.score
            }
        }),
    decreases empties(cells), 0int, upto,
{
    if upto > 0 {
        let i = upto - 1;
        lemma_scans_agree(cells, me, alpha, beta, maximizing, depth, i);
        let prev = alpha_beta_upto(cells, me, alpha, beta, maximizing, depth, i);
        if !prev.cut && cells[i] is None {
            lemma_empties_mark(cells, i, mover(me, maximizing));
            lemma_alpha_beta_window(
                place(cells, i, mover(me, maximizing)),
                me,
                prev.alpha,
                prev.beta,
                !maximizing,
                depth + 1,
            );
        }
    }
}

/// What the pruned search tells about the full search, for any window.
/// A score at or below `alpha` is an upper bound of the true value, a score
/// at or above `beta` is a lower bound of it, and a score inside the window
/// is the true value, found at the same cell.
pub proof fn lemma_alpha_beta_window(
    cells: Seq<Cell>,
    me: Player,
    alpha: int,
    beta: int,
    maximizing: bool,
    depth: int,
)
    requires
        i64::MIN <= alpha < beta <= i64::MAX,
    ensures
        ({
            let pruned = alpha_beta(cells, me, alpha, beta, maximizing, depth);
            let full = minimax(cells, me, maximizing, depth);
            &&& pruned.score <= alpha ==> full.score <= pruned.score
            &&& pruned.score >= beta ==> full.score >= pruned.score
            &&& alpha < pruned.score < beta ==> pruned == full
        }),
    decreases empties(cells), 1int, 0int,
{
    if outcome(cells) == GameResult::NotEnded {
        lemma_scans_agree(cells, me, alpha, beta, maximizing, depth, cells.len() as int);
    }
}

/// The full scan returns the starting value while it has met no empty
/// cell, and after that a score within the bounds at an empty cell that it
/// has met.
proof fn lemma_scan_bounds(cells: Seq<Cell>, me: Player, maximizing: bool, depth: int, upto: int)
    requires
        0 <= depth,
        depth + empties(cells) <= i64::MAX,
        0 <= upto <= cells.len(),
    ensures
        ({
            let m = minimax_upto(cells, me, maximizing, depth, upto);
            let deepest = depth + empties(cells);
            if forall|k: int| 0 <= k < upto ==> cells[k] is Some {
                m.score == worst(maximizing)
            } else {
                &&& score_floor(deepest) <= m.score <= score_ceiling(deepest)
                &&& 0 <= m.index < upto
                &&& cells[m.index] is None
            }
        }),
    decreases empties(cells), 0int, upto,
{
    if upto > 0 {
        let i = upto - 1;
        lemma_scan_bounds(cells, me, maximizing, depth, i);
        if cells[i] is None {
            lemma_empties_mark(cells, i, mover(me, maximizing));
            lemma_minimax_bounds(place(cells, i, mover(me, maximizing)), me, !maximizing, depth + 1);
        } else {
            if forall|k: int| 0 <= k < i ==> cells[k] is Some {
                assert forall|k: int| 0 <= k < upto implies cells[k] is Some by {}
            }
        }
    }
}

/// The value of a position lies between the least and the greatest score
/// of a game that can still follow, and the best move in an open game is
/// an empty cell.
pub proof fn lemma_minimax_bounds(cells: Seq<Cell>, me: Player, maximizing: bool, depth: int)
    requires
        0 <= depth,
        depth + empties(cells) <= i64::MAX,
    ensures
        ({
            let m = minimax(cells, me, maximizing, depth);
            let deepest = depth + empties(cells);
            &&& score_floor(deepest) <= m.score <= score_ceiling(deepest)
            &&& i64::MIN < m.score < i64::MAX
            &&& outcome(cells) == GameResult::NotEnded ==> 0 <= m.index < cells.len()
                && cells[m.index] is None
        }),
    decreases empties(cells), 1int, 0int,
{
    if outcome(cells) == GameResult::NotEnded {
        lemma_open_game_has_room(cells);
        lemma_scan_bounds(cells, me, maximizing, depth, cells.len() as int);
    }
}

/// After the cells below `upto` the full scan holds the first of the best
/// cells among them.
proof fn lemma_scan_is_best(cells: Seq<Cell>, me: Player, maximizing: bool, depth: int, upto: int)
    requires
        0 <= depth,
        depth + empties(cells) <= i64::MAX,
        0 <= upto <= cells.len(),
    ensures
        ({
            let m = minimax_upto(cells, me, maximizing, depth, upto);
            &&& forall|i: int|
                0 <= i < upto && cells[i] is None ==> !improves(
                    maximizing,
                    #[trigger] reply_score(cells, me, maximizing, depth, i),
                    m.score,
                )
            &&& forall|i: int|
                0 <= i < m.index && cells[i] is None ==> improves(
                    maximizing,
                    m.score,
                    #[trigger] reply_score(cells, me, maximizing, depth, i),
                )
            &&& m.score != worst(maximizing) ==> m.score == reply_score(
                cells,
                me,
                maximizing,
                depth,
                m.index,
            )
        }),
    decreases upto,
{
    if upto > 0 {
        let i = upto - 1;
        lemma_scan_is_best(cells, me, maximizing, depth, i);
        lemma_scan_bounds(cells, me, maximizing, depth, i);
        if cells[i] is None {
            lemma_empties_mark(cells, i, mover(me, maximizing));
            lemma_minimax_bounds(place(cells, i, mover(me, maximizing)), me, !maximizing, depth + 1);
        }
    }
}

/// The best move in an open game is an empty cell whose worth no other
/// empty cell beats, and every empty cell before it is worth strictly less
/// to the side to move.
pub proof fn lemma_best_move_is_optimal(
    cells: Seq<Cell>,
    me: Player,
    maximizing: bool,
    depth: int,
)
    requires
        0 <= depth,
        depth + empties(cells) <= i64::MAX,
        outcome(cells) == GameResult::NotEnded,
    ensures
        ({
            let m = minimax(cells, me, maximizing, depth);
            &&& 0 <= m.index < cells.len()
            &&& cells[m.index] is None
            &&& m.score == reply_score(cells, me, maximizing, depth, m.index)
            &&& forall|i: int|
                0 <= i < cells.len() && cells[i] is None ==> !improves(
                    maximizing,
                    #[trigger] reply_score(cells, me, maximizing, depth, i),
                    m.score,
                )
            &&& forall|i: int|
                0 <= i < m.index && cells[i] is None ==> improves(
                    maximizing,
                    m.score,
                    #[trigger] reply_score(cells, me, maximizing, depth, i),
                )
        }),
{
    lemma_minimax_bounds(cells, me, maximizing, depth);
    lemma_scan_is_best(cells, me, maximizing, depth, cells.len() as int);
}

/// Pruning changes neither the score nor the cell: with the window wide
/// open the pruned search returns the move of the full search.
pub proof fn lemma_pruning_keeps_best_move(
    cells: Seq<Cell>,
    me: Player,
    maximizing: bool,
    depth: int,
)
    requires
        0 <= depth,
        depth + empties(cells) <= i64::MAX,
    ensures
        alpha_beta(cells, me, i64::MIN as int, i64::MAX as int, maximizing, depth) == minimax(
            cells,
            me,
            maximizing,
            depth,
        ),
{
    lemma_minimax_bounds(cells, me, maximizing, depth);
    lemma_alpha_beta_window(cells, me, i64::MIN as int, i64::MAX as int, maximizing, depth);
}

} // verus!
