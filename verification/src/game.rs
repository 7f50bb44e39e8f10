//! A game in progress: the board, whose turn it is, and the moves of the
//! players and of the computer.

use crate::board::{
    blank, blank_board, copy_board, empties, lemma_empties_bound, lemma_empties_mark,
    lemma_side_unique, mark_cell, valid_board, Board, Cell,
};
use crate::detect::{board_side, check_win, outcome, side_of_length};
use crate::player::{opponent, turn, GameResult, MoveError, Player};
use crate::search::{
    alpha_beta, alpha_beta_upto, leaf_score, lemma_minimax_bounds,
    lemma_pruning_keeps_best_move, minimax, minimax_upto, mover, Move, Scan,
};
use vstd::prelude::*;

verus! {

/// A game as the contracts speak of it.
pub struct GameView {
    /// The cells of the grid, row by row.
    pub cells: Seq<Cell>,
    /// The side that moves next.
    pub turn: Player,
}

/// A game in progress.
#[derive(Debug)]
pub struct TicTacToe {
    board: Board,
    turn: Player,
}

impl View for TicTacToe {
    type V = GameView;

    closed spec fn view(&self) -> GameView {
        GameView { cells: self.board@, turn: self.turn }
    }
}

impl Clone for TicTacToe {
    /// A second game in the same state.
    fn clone(&self) -> (copy: Self)
        ensures
            copy@ == self@,
    {
        proof {
            use_type_invariant(self);
        }
        TicTacToe { board: copy_board(&self.board), turn: self.turn }
    }
}

/// The game after the side to move has marked `place`, or the game as it
/// is where that move is not allowed.
pub open spec fn play(g: GameView, place: int) -> GameView {
    if 0 <= place < g.cells.len() && g.cells[place] is None {
        GameView { cells: g.cells.update(place, Some(g.turn)), turn: opponent(g.turn) }
    } else {
        g
    }
}

/// What a move to `place` returns: the outcome of the position it leads
/// to, or the reason why it is refused.
pub open spec fn play_result(g: GameView, place: int) -> Result<GameResult, MoveError> {
    if place < 0 || place >= g.cells.len() {
        Err(MoveError::IndexOutOfRange)
    } else if g.cells[place] is Some {
        Err(MoveError::PlaceIsOccupied)
    } else {
        Ok(outcome(play(g, place).cells))
    }
}

/// The cell that the computer chooses for the side to move.
pub open spec fn best_choice(g: GameView) -> int {
    minimax(g.cells, g.turn, true, 0).index
}

impl TicTacToe {
    /// The board is a square grid that a vector can hold.
    #[verifier::type_invariant]
    spec fn well_formed(self) -> bool {
        valid_board(self.board@) && self.board@.len() <= isize::MAX
    }

    /// Starts a game on an empty grid of `size` rows and `size` columns,
    /// with `X` to move.
    pub fn with_size(size: usize) -> (game: Self)
        requires
            3 <= size,
            size * size <= isize::MAX,
        ensures
            game@.cells == blank((size * size) as nat),
            game@.turn == Player::X,
    {
        let board = blank_board(size * size);
        proof {
            lemma_side_unique(board@, size as int);
        }
        TicTacToe { board, turn: Player::X }
    }

    /// Takes up a game at the position `board` with `turn` to move. There
    /// is no such game where the cells do not form a square grid of side
    /// three or more, or are more than a vector holds.
    pub fn with_board(board: Board, turn: Player) -> (game: Option<Self>)
        ensures
            game is Some <==> valid_board(board@) && board@.len() <= isize::MAX,
            game matches Some(g) ==> g@.cells == board@ && g@.turn == turn,
    {
        if board.len() > isize::MAX as usize {
            return None;
        }
        match side_of_length(board.len()) {
            Some(n) => {
                proof {
                    lemma_side_unique(board@, n as int);
                }
                Some(TicTacToe { board, turn })
            },
            None => None,
        }
    }

    /// The cells of the grid, row by row.
    pub fn board(&self) -> (board: &Board)
        ensures
            board@ == self@.cells,
            valid_board(board@),
            board@.len() <= isize::MAX,
    {
        proof {
            use_type_invariant(self);
        }
        &self.board
    }

    /// Starts over: the grid keeps its size, every cell is empty again and
    /// `X` is to move.
    pub fn reset(&mut self)
        ensures
            final(self)@.cells == blank(old(self)@.cells.len()),
            final(self)@.turn == Player::X,
    {
        proof {
            use_type_invariant(&*self);
        }
        let size = board_side(self.board.as_slice());
        *self = TicTacToe::with_size(size);
    }

    /// Marks cell `place` for the side to move, hands the move to the
    /// other side and tells the outcome of the new position. A move beyond
    /// the grid or onto a marked cell is refused and changes nothing.
    pub fn player_move(&mut self, place: usize) -> (result: Result<GameResult, MoveError>)
        ensures
            final(self)@ == play(old(self)@, place as int),
            result == play_result(old(self)@, place as int),
    {
        proof {
            use_type_invariant(&*self);
        }
        if place >= self.board.len() {
            return Err(MoveError::IndexOutOfRange);
        }
        if !self.board[place].is_none() {
            return Err(MoveError::PlaceIsOccupied);
        }
        mark_cell(&mut self.board, place, Some(self.turn));
        self.turn = turn(self.turn);
        Ok(check_win(self.board.as_slice()))
    }

    /// Lets the computer move for the side whose turn it is: it marks the
    /// cell that the search rates best. In an open game that move is always
    /// accepted. In a decided game the search names cell 0, and the move is
    /// judged like any other.
    pub fn ai_move(&mut self) -> (result: Result<GameResult, MoveError>)
        ensures
            final(self)@ == play(old(self)@, best_choice(old(self)@)),
            result == play_result(old(self)@, best_choice(old(self)@)),
            outcome(old(self)@.cells) == GameResult::NotEnded ==> result is Ok,
    {
        let choice = self.best_move();
        proof {
            use_type_invariant(&*self);
            lemma_empties_bound(self.board@);
            lemma_minimax_bounds(self.board@, self.turn, true, 0);
        }
        self.player_move(choice.index)
    }

    /// The best move for the side to move, with its score: the pruned
    /// search over the whole window, which finds what the full search
    /// finds. In an open game the move is an empty cell of the grid.
    pub fn best_move(&self) -> (best: Move)
        ensures
            best@ == minimax(self@.cells, self@.turn, true, 0),
            best@ == alpha_beta(self@.cells, self@.turn, i64::MIN as int, i64::MAX as int, true, 0),
            outcome(self@.cells) == GameResult::NotEnded ==> best.index < self@.cells.len()
                && self@.cells[best.index as int] is None,
    {
        proof {
            use_type_invariant(self);
            lemma_empties_bound(self.board@);
            lemma_pruning_keeps_best_move(self.board@, self.turn, true, 0);
            lemma_minimax_bounds(self.board@, self.turn, true, 0);
        }
        self.get_best_move(copy_board(&self.board), i64::MIN, i64::MAX, true, 0)
    }

    /// The mark that is placed at a node of the search: that of the side
    /// to move where its own choice is looked for, that of the other side
    /// where the reply is.
    pub fn maxmin_turn(&self, maximizing: bool) -> (mark: Option<Player>)
        ensures
            mark == Some(mover(self@.turn, maximizing)),
    {
        Some(
            if maximizing {
                self.turn
            } else {
                turn(self.turn)
            },
        )
    }

    /// The score of a position that `winner` has won after `depth` moves.
    fn score_of_win(&self, winner: Player, depth: usize) -> (score: i64)
        requires
            depth <= isize::MAX,
        ensures
            score == leaf_score(winner, self@.turn, depth as int),
    {
        if winner == self.turn {
            100 - (depth as i64)
        } else {
            (depth as i64) - 100
        }
    }

    /// Searches `board` for the side to move of this game, `depth` moves
    /// into the search, with the window from `alpha` to `beta`. At a
    /// maximizing node the mark of that side is placed and the highest
    /// score is looked for, at the others the mark of its opponent and the
    /// lowest. Cells are tried in index order, each with the window as the
    /// cells before it have left it, and only a strictly better score
    /// replaces the best move; when the window has closed, the cells that
    /// are left are skipped.
    pub fn get_best_move(
        &self,
        board: Board,
        alpha: i64,
        beta: i64,
        maximizing: bool,
        depth: usize,
    ) -> (best: Move)
        requires
            valid_board(board@),
            depth + empties(board@) <= isize::MAX,
        ensures
            best@ == alpha_beta(
                board@,
                self@.turn,
                alpha as int,
                beta as int,
                maximizing,
                depth as int,
            ),
        decreases empties(board@),
    {
        match check_win(board.as_slice()) {
            GameResult::Win(winner) => {
                return Move { score: self.score_of_win(winner, depth), index: 0 };
            },
            GameResult::Tie => {
                return Move { score: 0, index: 0 };
            },
            GameResult::NotEnded => {},
        }
        let ghost cells = board@;
        let ghost me = self@.turn;
        let mark = self.maxmin_turn(maximizing);
        let mut best = Move {
            score: if maximizing {
                i64::MIN
            } else {
                i64::MAX
            },
            index: 0,
        };
        let mut low = alpha;
        let mut high = beta;
        let mut cut = false;
        let mut i: usize = 0;
        while i < board.len()
            invariant
                i <= board@.len(),
                board@ == cells,
                valid_board(cells),
                self@.turn == me,
                mark == Some(mover(me, maximizing)),
                depth + empties(cells) <= isize::MAX,
                alpha_beta_upto(
                    cells,
                    me,
                    alpha as int,
                    beta as int,
                    maximizing,
                    depth as int,
                    i as int,
                ) == (Scan { best: best@, alpha: low as int, beta: high as int, cut }),
            decreases board@.len() - i,
        {
            if !cut && board[i].is_none() {
                proof {
                    lemma_empties_mark(cells, i as int, mover(me, maximizing));
                }
                let mut child = copy_board(&board);
                mark_cell(&mut child, i, mark);
                let reply = self.get_best_move(child, low, high, !maximizing, depth + 1);
                if (maximizing && reply.score > best.score) || (!maximizing && reply.score
                    < best.score) {
                    best = Move { score: reply.score, index: i };
                }
                if maximizing && reply.score > low {
                    low = reply.score;
                }
                if !maximizing && reply.score < high {
                    high = reply.score;
                }
                cut = high <= low;
            }
            i = i + 1;
        }
        best
    }

    /// Searches `board` like `get_best_move`, but follows every line of
    /// play to its end and skips nothing.
    pub fn exhaustive_best_move(&self, board: Board, maximizing: bool, depth: usize) -> (best:
        Move)
        requires
            valid_board(board@),
            depth + empties(board@) <= isize::MAX,
        ensures
            best@ == minimax(board@, self@.turn, maximizing, depth as int),
        decreases empties(board@),
    {
        match check_win(board.as_slice()) {
            GameResult::Win(winner) => {
                return Move { score: self.score_of_win(winner, depth), index: 0 };
            },
            GameResult::Tie => {
                return Move { score: 0, index: 0 };
            },
            GameResult::NotEnded => {},
        }
        let ghost cells = board@;
        let ghost me = self@.turn;
        let mark = self.maxmin_turn(maximizing);
        let mut best = Move {
            score: if maximizing {
                i64::MIN
            } else {
                i64::MAX
            },
            index: 0,
        };
        let mut i: usize = 0;
        while i < board.len()
            invariant
                i <= board@.len(),
                board@ == cells,
                valid_board(cells),
                self@.turn == me,
                mark == Some(mover(me, maximizing)),
                depth + empties(cells) <= isize::MAX,
                minimax_upto(cells, me, maximizing, depth as int, i as int) == best@,
            decreases board@.len() - i,
        {
            if board[i].is_none() {
                proof {
                    lemma_empties_mark(cells, i as int, mover(me, maximizing));
                }
                let mut child = copy_board(&board);
                mark_cell(&mut child, i, mark);
                let reply = self.exhaustive_best_move(child, !maximizing, depth + 1);
                if (maximizing && reply.score > best.score) || (!maximizing && reply.score
                    < best.score) {
                    best = Move { score: reply.score, index: i };
                }
            }
            i = i + 1;
        }
        best
    }
}

} // verus!
