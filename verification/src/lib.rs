//! Tic-tac-toe on an N by N grid with three in a row to win, and a computer
//! player that searches the whole game tree.
//!
//! Every function here carries a contract that Verus proves: the outcome
//! detector against a declarative description of the winning lines, the move
//! rules against the state they leave behind, and the pruned search against
//! the plain minimax value it has to reproduce.

pub mod board;
pub mod detect;
pub mod game;
pub mod player;
pub mod render;
pub mod search;

pub use board::{Board, Cell};
pub use detect::check_win;
pub use game::TicTacToe;
pub use player::{turn, GameResult, MoveError, Player};
pub use render::board_to_string;
pub use search::Move;
