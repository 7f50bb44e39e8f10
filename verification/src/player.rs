//! The two sides, the outcome of a position and the ways a move can fail.

use vstd::prelude::*;

verus! {

/// One of the two sides. `X` opens the game.
#[derive(Debug, Copy, Clone, PartialEq, Eq, Structural)]
pub enum Player {
    X,
    O,
}

/// What a position amounts to: a win for one side, a full board without a
/// winning line, or a game that is still open.
#[derive(Debug, Copy, Clone, PartialEq, Eq, Structural)]
pub enum GameResult {
    Win(Player),
    Tie,
    NotEnded,
}

/// Why a move was refused.
#[derive(Debug, Copy, Clone, PartialEq, Eq, Structural)]
pub enum MoveError {
    /// The chosen cell already holds a mark.
    PlaceIsOccupied,
    /// The chosen index lies beyond the last cell.
    IndexOutOfRange,
}

/// The other side.
pub open spec fn opponent(p: Player) -> Player {
    match p {
        Player::X => Player::O,
        Player::O => Player::X,
    }
}

/// The outcome with the two sides exchanged.
pub open spec fn swap_result(r: GameResult) -> GameResult {
    match r {
        GameResult::Win(p) => GameResult::Win(opponent(p)),
        GameResult::Tie => GameResult::Tie,
        GameResult::NotEnded => GameResult::NotEnded,
    }
}

/// Hands the move to the other side.
pub fn turn(player: Player) -> (next: Player)
    ensures
        next == opponent(player),
{
    match player {
        Player::X => Player::O,
        Player::O => Player::X,
    }
}

/// Exchanging the sides twice changes nothing, and no side is its own
/// opponent.
pub proof fn lemma_opponent_involutive(p: Player)
    ensures
        opponent(opponent(p)) == p,
        opponent(p) != p,
{
}

} // verus!
