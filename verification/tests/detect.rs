use tictactoe::{check_win, GameResult, Player};

fn cells(text: &str) -> Vec<Option<Player>> {
    text.chars()
        .filter(|c| !c.is_whitespace())
        .map(|c| match c {
            'X' => Some(Player::X),
            'O' => Some(Player::O),
            _ => None,
        })
        .collect()
}

fn with_marks(side: usize, mark: Player, places: &[usize]) -> Vec<Option<Player>> {
    let mut board = vec![None; side * side];
    for &place in places {
        board[place] = Some(mark);
    }
    board
}

fn swapped(board: &[Option<Player>]) -> Vec<Option<Player>> {
    board
        .iter()
        .map(|c| match c {
            Some(Player::X) => Some(Player::O),
            Some(Player::O) => Some(Player::X),
            None => None,
        })
        .collect()
}

fn swapped_result(result: GameResult) -> GameResult {
    match result {
        GameResult::Win(Player::X) => GameResult::Win(Player::O),
        GameResult::Win(Player::O) => GameResult::Win(Player::X),
        other => other,
    }
}

fn nth_board(mut code: usize, len: usize) -> Vec<Option<Player>> {
    let mut board = Vec::new();
    for _ in 0..len {
        board.push(match code % 3 {
            0 => None,
            1 => Some(Player::X),
            _ => Some(Player::O),
        });
        code /= 3;
    }
    board
}

#[test]
fn empty_board_is_open_for_every_side() {
    for side in 3..=9 {
        let board: Vec<Option<Player>> = vec![None; side * side];
        assert_eq!(check_win(&board), GameResult::NotEnded);
    }
}

#[test]
fn a_row_wins_for_its_holder() {
    assert_eq!(check_win(&cells("XXX ___ ___")), GameResult::Win(Player::X));
    assert_eq!(check_win(&cells("___ OOO ___")), GameResult::Win(Player::O));
    assert_eq!(check_win(&cells("O_O _X_ XXX")), GameResult::Win(Player::X));
}

#[test]
fn a_column_wins_for_its_holder() {
    assert_eq!(check_win(&cells("X__ X__ X__")), GameResult::Win(Player::X));
    assert_eq!(check_win(&cells("_O_ _O_ _O_")), GameResult::Win(Player::O));
    assert_eq!(check_win(&cells("__X __X __X")), GameResult::Win(Player::X));
}

#[test]
fn a_diagonal_wins_for_its_holder() {
    assert_eq!(check_win(&cells("X__ _X_ __X")), GameResult::Win(Player::X));
    assert_eq!(check_win(&cells("__O _O_ O__")), GameResult::Win(Player::O));
}

#[test]
fn three_in_a_row_win_anywhere_on_a_larger_grid() {
    // row 2, columns 1 to 3
    assert_eq!(check_win(&with_marks(4, Player::O, &[9, 10, 11])), GameResult::Win(Player::O));
    // column 3, rows 1 to 3
    assert_eq!(check_win(&with_marks(4, Player::X, &[7, 11, 15])), GameResult::Win(Player::X));
    // down to the right from row 1, column 1
    assert_eq!(check_win(&with_marks(4, Player::X, &[5, 10, 15])), GameResult::Win(Player::X));
    // down to the left from row 0, column 3
    assert_eq!(check_win(&with_marks(4, Player::O, &[3, 6, 9])), GameResult::Win(Player::O));
    // down to the left from row 1, column 2
    assert_eq!(check_win(&with_marks(4, Player::O, &[6, 9, 12])), GameResult::Win(Player::O));
    // the middle of a grid of side five
    assert_eq!(check_win(&with_marks(5, Player::X, &[11, 12, 13])), GameResult::Win(Player::X));
    assert_eq!(check_win(&with_marks(5, Player::X, &[14, 19, 24])), GameResult::Win(Player::X));
    assert_eq!(check_win(&with_marks(5, Player::O, &[12, 16, 20])), GameResult::Win(Player::O));
    assert_eq!(check_win(&with_marks(5, Player::O, &[12, 18, 24])), GameResult::Win(Player::O));
}

#[test]
fn a_run_that_wraps_into_the_next_row_is_no_line() {
    // stride 1 across the end of a row
    assert_eq!(check_win(&with_marks(3, Player::X, &[2, 3, 4])), GameResult::NotEnded);
    assert_eq!(check_win(&with_marks(3, Player::X, &[1, 2, 3])), GameResult::NotEnded);
    assert_eq!(check_win(&with_marks(4, Player::O, &[2, 3, 4])), GameResult::NotEnded);
    assert_eq!(check_win(&with_marks(4, Player::O, &[3, 4, 5])), GameResult::NotEnded);
    // stride side - 1 from a column too far left
    assert_eq!(check_win(&with_marks(3, Player::X, &[0, 2, 4])), GameResult::NotEnded);
    assert_eq!(check_win(&with_marks(3, Player::X, &[1, 3, 5])), GameResult::NotEnded);
    assert_eq!(check_win(&with_marks(4, Player::X, &[1, 4, 7])), GameResult::NotEnded);
    // stride side + 1 from a column too far right
    assert_eq!(check_win(&with_marks(4, Player::O, &[3, 8, 13])), GameResult::NotEnded);
    assert_eq!(check_win(&with_marks(4, Player::O, &[2, 7, 12])), GameResult::NotEnded);
    assert_eq!(check_win(&with_marks(3, Player::O, &[1, 5])), GameResult::NotEnded);
    // any other stride
    assert_eq!(check_win(&with_marks(4, Player::X, &[0, 2, 4])), GameResult::NotEnded);
    assert_eq!(check_win(&with_marks(5, Player::X, &[0, 3, 6])), GameResult::NotEnded);
}

#[test]
fn mixed_marks_are_no_line() {
    assert_eq!(check_win(&cells("XXO ___ ___")), GameResult::NotEnded);
    assert_eq!(check_win(&cells("XOX ___ ___")), GameResult::NotEnded);
    assert_eq!(check_win(&cells("OXX ___ ___")), GameResult::NotEnded);
    assert_eq!(check_win(&cells("X__ _O_ __X")), GameResult::NotEnded);
    assert_eq!(check_win(&cells("XX_ ___ ___")), GameResult::NotEnded);
}

#[test]
fn a_full_board_without_a_line_is_a_tie() {
    assert_eq!(check_win(&cells("XOX XOO OXX")), GameResult::Tie);
    assert_eq!(check_win(&cells("XOX OXX OXO")), GameResult::Tie);
    assert_eq!(check_win(&cells("XXOO OOXX XXOO OOXX")), GameResult::Tie);
}

#[test]
fn a_full_board_with_a_line_is_a_win() {
    assert_eq!(check_win(&cells("XXX OOX OXO")), GameResult::Win(Player::X));
    assert_eq!(check_win(&cells("XOX OOX XOO")), GameResult::Win(Player::O));
}

#[test]
fn one_empty_cell_keeps_the_game_open() {
    assert_eq!(check_win(&cells("XOX XOO O_X")), GameResult::NotEnded);
}

#[test]
fn the_first_line_in_scan_order_decides() {
    // both lines run along a row: the lower start comes first
    assert_eq!(check_win(&cells("XXX OOO ___")), GameResult::Win(Player::X));
    assert_eq!(check_win(&cells("OOO XXX ___")), GameResult::Win(Player::O));
    // a row comes before a column, whatever their starts
    let mut board = with_marks(4, Player::X, &[3, 7, 11]);
    for place in [12, 13, 14] {
        board[place] = Some(Player::O);
    }
    assert_eq!(check_win(&board), GameResult::Win(Player::O));
    // down to the left comes before down to the right
    let mut board = with_marks(4, Player::X, &[0, 5, 10]);
    let mut board = with_marks(5, Player::X, &[0, 6, 12]);
    for place in [9, 13, 17] {
        board[place] = Some(Player::O);
    }
    assert_eq!(check_win(&board), GameResult::Win(Player::O));
}

#[test]
fn swapping_the_marks_swaps_the_winner_on_every_small_board() {
    for code in 0..19683 {
        let board = nth_board(code, 9);
        assert_eq!(check_win(&swapped(&board)), swapped_result(check_win(&board)));
    }
}

#[test]
fn swapping_the_marks_swaps_the_winner_on_larger_boards() {
    let mut code: usize = 12345;
    for _ in 0..2000 {
        code = (code * 1103515245 + 12345) % 43046721;
        let board = nth_board(code, 16);
        assert_eq!(check_win(&swapped(&board)), swapped_result(check_win(&board)));
    }
}

#[test]
fn every_outcome_occurs_among_the_small_boards() {
    let mut wins_x = 0;
    let mut wins_o = 0;
    let mut ties = 0;
    let mut open = 0;
    for code in 0..19683 {
        match check_win(&nth_board(code, 9)) {
            GameResult::Win(Player::X) => wins_x += 1,
            GameResult::Win(Player::O) => wins_o += 1,
            GameResult::Tie => ties += 1,
            GameResult::NotEnded => open += 1,
        }
    }
    assert_eq!(wins_x, wins_o);
    assert_eq!(wins_x + wins_o + ties + open, 19683);
    assert!(ties > 0 && open > 0 && wins_x > 0);
}
