use tictactoe::{board_to_string, Player, TicTacToe};

#[test]
fn an_empty_board_is_a_row_of_underscores() {
    let game = TicTacToe::with_size(3);
    assert_eq!(board_to_string(game.board()), "_________");
}

#[test]
fn each_cell_shows_its_mark() {
    let board = vec![
        Some(Player::X),
        None,
        Some(Player::O),
        None,
        Some(Player::X),
        Some(Player::O),
        None,
        None,
        Some(Player::X),
    ];
    assert_eq!(board_to_string(&board), "X_O_XO__X");
}

#[test]
fn the_text_follows_the_moves() {
    let mut game = TicTacToe::with_size(4);
    game.player_move(5).unwrap();
    game.player_move(0).unwrap();
    assert_eq!(board_to_string(game.board()), "O____X__________");
}

#[test]
fn a_board_without_cells_is_an_empty_text() {
    assert_eq!(board_to_string(&Vec::new()), "");
}
