use tictactoe::{turn, GameResult, MoveError, Player, TicTacToe};

fn cells(text: &str) -> Vec<Option<Player>> {
    text.chars()
        .filter(|c| !c.is_whitespace())
        .map(|c| match c {
            'X' => Some(Player::X),
            'O' => Some(Player::O),
            _ => None,
        })
        .collect()
}

#[test]
fn turn_hands_the_move_to_the_other_side() {
    assert_eq!(turn(Player::X), Player::O);
    assert_eq!(turn(Player::O), Player::X);
    assert_eq!(turn(turn(Player::X)), Player::X);
    assert_eq!(turn(turn(Player::O)), Player::O);
}

#[test]
fn a_new_game_has_an_empty_square_board() {
    for side in 3..=7 {
        let game = TicTacToe::with_size(side);
        assert_eq!(game.board().len(), side * side);
        assert!(game.board().iter().all(|c| c.is_none()));
    }
}

#[test]
fn x_opens_and_the_sides_alternate() {
    let mut game = TicTacToe::with_size(3);
    assert_eq!(game.player_move(4).unwrap(), GameResult::NotEnded);
    assert_eq!(game.board()[4], Some(Player::X));
    assert_eq!(game.player_move(0).unwrap(), GameResult::NotEnded);
    assert_eq!(game.board()[0], Some(Player::O));
    assert_eq!(game.player_move(8).unwrap(), GameResult::NotEnded);
    assert_eq!(game.board()[8], Some(Player::X));
    assert_eq!(game.board().iter().filter(|c| c.is_some()).count(), 3);
}

#[test]
fn the_move_that_completes_a_line_wins() {
    let mut game = TicTacToe::with_board(cells("XOX OXO __O"), Player::X).unwrap();
    assert_eq!(game.player_move(6).unwrap(), GameResult::Win(Player::X));
    assert_eq!(*game.board(), cells("XOX OXO X_O"));
}

#[test]
fn a_game_played_to_a_win() {
    let mut game = TicTacToe::with_size(3);
    assert_eq!(game.player_move(0).unwrap(), GameResult::NotEnded);
    assert_eq!(game.player_move(3).unwrap(), GameResult::NotEnded);
    assert_eq!(game.player_move(1).unwrap(), GameResult::NotEnded);
    assert_eq!(game.player_move(4).unwrap(), GameResult::NotEnded);
    assert_eq!(game.player_move(2).unwrap(), GameResult::Win(Player::X));
}

#[test]
fn the_second_side_can_win_too() {
    let mut game = TicTacToe::with_size(3);
    for place in [0, 2, 1, 4, 8] {
        assert_eq!(game.player_move(place).unwrap(), GameResult::NotEnded);
    }
    assert_eq!(game.player_move(6).unwrap(), GameResult::Win(Player::O));
}

#[test]
fn a_game_played_to_a_tie() {
    let mut game = TicTacToe::with_size(3);
    for place in [0, 1, 2, 4, 3, 5, 7, 6] {
        assert_eq!(game.player_move(place).unwrap(), GameResult::NotEnded);
    }
    assert_eq!(game.player_move(8).unwrap(), GameResult::Tie);
    assert_eq!(*game.board(), cells("XOX XOO OXX"));
}

#[test]
fn an_occupied_cell_is_refused_and_nothing_changes() {
    let mut game = TicTacToe::with_size(3);
    game.player_move(4).unwrap();
    let before = game.board().clone();
    assert_eq!(game.player_move(4), Err(MoveError::PlaceIsOccupied));
    assert_eq!(*game.board(), before);
    // the refused move did not use up the turn of O
    assert_eq!(game.player_move(5).unwrap(), GameResult::NotEnded);
    assert_eq!(game.board()[5], Some(Player::O));
}

#[test]
fn an_index_beyond_the_board_is_refused_and_nothing_changes() {
    for side in 3..=5 {
        let mut game = TicTacToe::with_size(side);
        game.player_move(1).unwrap();
        let before = game.board().clone();
        assert_eq!(game.player_move(side * side), Err(MoveError::IndexOutOfRange));
        assert_eq!(game.player_move(side * side + 1), Err(MoveError::IndexOutOfRange));
        assert_eq!(game.player_move(usize::MAX), Err(MoveError::IndexOutOfRange));
        assert_eq!(*game.board(), before);
        assert_eq!(game.player_move(side * side - 1).unwrap(), GameResult::NotEnded);
        assert_eq!(game.board()[side * side - 1], Some(Player::O));
    }
}

#[test]
fn reset_empties_the_board_and_gives_x_the_move() {
    for side in 3..=5 {
        let mut game = TicTacToe::with_size(side);
        for place in [0, 4, 8] {
            game.player_move(place).unwrap();
        }
        game.reset();
        assert_eq!(game.board().len(), side * side);
        assert!(game.board().iter().all(|c| c.is_none()));
        game.player_move(2).unwrap();
        assert_eq!(game.board()[2], Some(Player::X));
    }
}

#[test]
fn reset_after_a_decided_game_starts_over() {
    let mut game = TicTacToe::with_size(3);
    for place in [0, 3, 1, 4, 2] {
        game.player_move(place).unwrap();
    }
    game.reset();
    assert_eq!(*game.board(), cells("___ ___ ___"));
    assert_eq!(game.player_move(0).unwrap(), GameResult::NotEnded);
    assert_eq!(game.board()[0], Some(Player::X));
}

#[test]
fn moves_after_the_end_are_still_applied() {
    let mut game = TicTacToe::with_size(3);
    for place in [0, 3, 1, 4, 2] {
        game.player_move(place).unwrap();
    }
    assert_eq!(game.player_move(8).unwrap(), GameResult::Win(Player::X));
    assert_eq!(game.board()[8], Some(Player::O));
}

#[test]
fn a_game_can_be_taken_up_at_a_position() {
    let game = TicTacToe::with_board(cells("XO_ ___ ___"), Player::X).unwrap();
    assert_eq!(*game.board(), cells("XO_ ___ ___"));
    let mut game = TicTacToe::with_board(vec![None; 16], Player::O).unwrap();
    game.player_move(15).unwrap();
    assert_eq!(game.board()[15], Some(Player::O));
}

#[test]
fn a_board_that_is_no_square_grid_is_refused() {
    for len in [0, 1, 2, 3, 4, 8, 10, 15, 17, 24] {
        assert!(TicTacToe::with_board(vec![None; len], Player::X).is_none());
    }
    for side in 3..=6 {
        assert!(TicTacToe::with_board(vec![None; side * side], Player::X).is_some());
    }
}

#[test]
fn a_copy_of_a_game_goes_its_own_way() {
    let mut game = TicTacToe::with_size(3);
    game.player_move(0).unwrap();
    let mut copy = game.clone();
    copy.player_move(1).unwrap();
    assert_eq!(*game.board(), cells("X__ ___ ___"));
    assert_eq!(*copy.board(), cells("XO_ ___ ___"));
}
