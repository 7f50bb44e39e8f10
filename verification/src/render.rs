//! The board as a line of text.

use crate::board::{Board, Cell};
use crate::player::Player;
use vstd::prelude::*;

verus! {

/// The character that stands for a cell: `_` for an empty one, else the
/// letter of the side that holds it.
pub open spec fn cell_char(c: Cell) -> char {
    match c {
        None => '_',
        Some(Player::O) => 'O',
        Some(Player::X) => 'X',
    }
}

/// `String::push`: appends one character to the end of the string. This
/// contract is taken on trust.
#[verifier::external_body]
fn push_char(text: &mut String, c: char)
    ensures
        final(text)@ == old(text)@.push(c),
{
    text.push(c)
}

/// Writes the board as one character for each cell, in index order.
pub fn board_to_string(board: &Board) -> (text: String)
    ensures
        text@.len() == board@.len(),
        forall|i: int| 0 <= i < board@.len() ==> text@[i] == cell_char(board@[i]),
{
    let mut text = String::new();
    let mut i: usize = 0;
    while i < board.len()
        invariant
            i <= board@.len(),
            text@.len() == i,
            forall|k: int| 0 <= k < i ==> text@[k] == cell_char(board@[k]),
        decreases board@.len() - i,
    {
        let c = match board[i] {
            None => '_',
            Some(Player::O) => 'O',
            Some(Player::X) => 'X',
        };
        push_char(&mut text, c);
        i = i + 1;
    }
    text
}

} // verus!
