use gametree::game::game::GamePlayer;
use gametree::game::rules::GameRules;
use gametree::game::state::GameState;
use gametree::game_implementations::connect_four::{BoardError, ConnectFour, MoveError, Piece};

const E: Piece = Piece::Empty;
const R: Piece = Piece::Red;
const B: Piece = Piece::Black;

fn empty_board(rows: usize, cols: usize) -> Vec<Vec<Piece>> {
    vec![vec![E; cols]; rows]
}

fn position(board: Vec<Vec<Piece>>, red_turn: bool) -> ConnectFour {
    ConnectFour::from_board(board, red_turn).unwrap()
}

#[test]
fn test_open_row() {
    let connect_four = ConnectFour::initial_state();

    let open_row = ConnectFour::get_open_row(connect_four.board(), 0).unwrap();
    let col_count = connect_four.board().first().unwrap().len();

    // The board has six rows and seven columns: the lowest row is row 5.
    assert_eq!(open_row, connect_four.board().len() - 1);

    for col in 0..col_count {
        let open_row = ConnectFour::get_open_row(connect_four.board(), col).unwrap();
        assert_eq!(open_row, connect_four.board().len() - 1);
    }
}

#[test]
fn test_all_open_rows() {
    let connect_four = ConnectFour::initial_state();

    let open_rows = ConnectFour::get_all_open_rows(connect_four.board());
    let num_rows = connect_four.board().len();

    for (row, _column) in open_rows {
        assert_eq!(row, num_rows - 1);
    }

    let connect_four = connect_four.make_user_move(0).unwrap();
    let open_rows = ConnectFour::get_all_open_rows(connect_four.board());
    let num_rows = connect_four.board().len();

    for (row, column) in open_rows {
        if column == 0 {
            assert_eq!(row, num_rows - 2);
        } else {
            assert_eq!(row, num_rows - 1);
        }
    }
}

#[test]
fn initial_state_is_the_empty_six_by_seven_board() {
    let start = ConnectFour::initial_state();
    assert_eq!(start.board(), &empty_board(6, 7));
    assert_eq!(start.player_turn(), GamePlayer::Player1);
    assert_eq!(start.last_move(), None);
    assert!(!start.is_winning_state());
    assert!(!start.is_game_over());
}

#[test]
fn empty_board_has_seven_moves_in_column_order() {
    let start = ConnectFour::initial_state();
    let moves = start.possible_moves();
    assert_eq!(moves.len(), 7);
    for (column, child) in moves.iter().enumerate() {
        let mut expected = empty_board(6, 7);
        expected[5][column] = R;
        assert_eq!(child.board(), &expected);
        assert_eq!(child.player_turn(), GamePlayer::Player2);
        assert_eq!(child.last_move(), Some((5, column)));
    }
    // The position that was moved from is as it was.
    assert_eq!(start.board(), &empty_board(6, 7));
}

#[test]
fn all_open_rows_are_listed_left_to_right() {
    let board = vec![
        vec![E, R, E, E],
        vec![E, B, E, R],
        vec![B, R, E, B],
    ];
    assert_eq!(
        ConnectFour::get_all_open_rows(&board),
        vec![(1, 0), (2, 2), (0, 3)]
    );
    assert_eq!(ConnectFour::get_open_row(&board, 1), None);
    assert_eq!(ConnectFour::get_open_row(&board, 2), Some(2));
}

#[test]
fn open_row_is_the_lowest_empty_cell_even_under_a_piece() {
    // A piece that floats above an empty cell: the lowest empty cell counts.
    let board = vec![vec![E], vec![R], vec![E], vec![B]];
    assert_eq!(ConnectFour::get_open_row(&board, 0), Some(2));
}

#[test]
fn number_of_moves_is_number_of_columns_with_room() {
    let board = vec![
        vec![R, E, B, E, R],
        vec![B, E, R, E, B],
        vec![R, B, R, B, R],
    ];
    let state = position(board, true);
    assert_eq!(state.possible_moves().len(), 2);
    let full = position(vec![vec![R, B, R], vec![B, R, B]], true);
    assert_eq!(full.possible_moves().len(), 0);
    assert!(full.is_game_over());
    assert!(!full.is_winning_state());
}

#[test]
fn won_game_has_no_moves() {
    let mut board = empty_board(6, 7);
    for column in 0..4 {
        board[5][column] = R;
    }
    let state = position(board, false);
    assert!(state.is_winning_state());
    assert!(state.is_game_over());
    assert_eq!(state.possible_moves().len(), 0);
}

#[test]
fn move_drops_to_the_lowest_empty_cell() {
    let mut state = ConnectFour::initial_state();
    for expected_row in (0..6).rev() {
        state = state.make_user_move(3).unwrap();
        assert_eq!(state.last_move(), Some((expected_row, 3)));
        assert_ne!(state.board()[expected_row][3], E);
        for below in expected_row + 1..6 {
            assert_ne!(state.board()[below][3], E);
        }
    }
    assert_eq!(state.board()[5][3], R);
    assert_eq!(state.board()[4][3], B);
    assert_eq!(state.board()[0][3], B);
}

#[test]
fn user_move_into_full_column_is_an_error() {
    let mut state = ConnectFour::initial_state();
    for _ in 0..6 {
        state = state.make_user_move(2).unwrap();
    }
    assert_eq!(state.make_user_move(2).err(), Some(MoveError::ColumnFull));
    assert!(state.make_user_move(1).is_ok());
}

#[test]
fn user_move_outside_the_board_is_an_error() {
    let state = ConnectFour::initial_state();
    assert_eq!(
        state.make_user_move(7).err(),
        Some(MoveError::ColumnOutOfRange)
    );
    assert_eq!(
        state.make_user_move(usize::MAX).err(),
        Some(MoveError::ColumnOutOfRange)
    );
    assert!(state.make_user_move(6).is_ok());
}

#[test]
fn set_position_places_the_movers_piece_and_passes_the_turn() {
    let state = ConnectFour::initial_state();
    let next = state.set_position(2, 4);
    let mut expected = empty_board(6, 7);
    expected[2][4] = R;
    assert_eq!(next.board(), &expected);
    assert_eq!(next.player_turn(), GamePlayer::Player2);
    assert_eq!(next.last_move(), Some((2, 4)));
    let after = next.set_position(0, 0);
    expected[0][0] = B;
    assert_eq!(after.board(), &expected);
    assert_eq!(after.player_turn(), GamePlayer::Player1);
}

#[test]
fn from_board_rejects_malformed_boards() {
    assert_eq!(
        ConnectFour::from_board(Vec::new(), true).err(),
        Some(BoardError::NoRows)
    );
    assert_eq!(
        ConnectFour::from_board(vec![vec![E, E], vec![E]], true).err(),
        Some(BoardError::NotRectangular)
    );
    let state = ConnectFour::from_board(vec![vec![R, E], vec![E, B]], false).unwrap();
    assert_eq!(state.board(), &vec![vec![R, E], vec![E, B]]);
    assert_eq!(state.player_turn(), GamePlayer::Player2);
    assert_eq!(state.last_move(), None);
}

#[test]
fn bottom_row_of_four_wins_for_the_last_mover() {
    let mut board = empty_board(6, 7);
    for column in 0..4 {
        board[5][column] = R;
    }
    // Black is to move, so red made the last move.
    let state = position(board, false);
    assert!(state.is_winning_state());
    assert_eq!(state.reward_value(GamePlayer::Player1), 1);
    assert_eq!(state.reward_value(GamePlayer::Player2), -1);
}

#[test]
fn four_of_the_player_to_move_do_not_win() {
    let mut board = empty_board(6, 7);
    for column in 0..4 {
        board[5][column] = R;
    }
    // Red is to move: the last mover is black, who has no line.
    let state = position(board, true);
    assert!(!state.is_winning_state());
    assert_eq!(state.reward_value(GamePlayer::Player1), 0);
    assert_eq!(state.reward_value(GamePlayer::Player2), 0);
}

#[test]
fn reward_is_antisymmetric() {
    let mut board = empty_board(6, 7);
    for row in 2..6 {
        board[row][6] = B;
    }
    let won = position(board, true);
    assert!(won.is_winning_state());
    assert_eq!(won.reward_value(GamePlayer::Player2), 1);
    assert_eq!(
        won.reward_value(GamePlayer::Player1),
        -won.reward_value(GamePlayer::Player2)
    );
    let draw = position(vec![vec![R, B, R], vec![B, R, B]], true);
    assert_eq!(draw.reward_value(GamePlayer::Player1), 0);
    assert_eq!(draw.reward_value(GamePlayer::Player2), 0);
}

#[test]
fn four_in_a_row_win_in_every_row_and_place() {
    for row in 0..6 {
        for start in 0..4 {
            let mut board = empty_board(6, 7);
            for i in 0..4 {
                board[row][start + i] = B;
            }
            assert!(position(board, true).is_winning_state());
        }
    }
}

#[test]
fn four_in_a_column_win_in_every_column_and_place() {
    for column in 0..7 {
        for start in 0..3 {
            let mut board = empty_board(6, 7);
            for i in 0..4 {
                board[start + i][column] = R;
            }
            assert!(position(board, false).is_winning_state());
        }
    }
}

#[test]
fn four_on_a_rising_diagonal_win() {
    for row in 3..6 {
        for column in 0..4 {
            let mut board = empty_board(6, 7);
            for i in 0..4 {
                board[row - i][column + i] = R;
            }
            assert!(position(board.clone(), false).is_winning_state());
            assert!(ConnectFour::diagonal_up_win(&board, R));
            assert!(!ConnectFour::horizontal_win(&board, R));
        }
    }
}

#[test]
fn four_on_a_falling_diagonal_win() {
    for row in 0..3 {
        for column in 0..4 {
            let mut board = empty_board(6, 7);
            for i in 0..4 {
                board[row + i][column + i] = B;
            }
            assert!(position(board.clone(), true).is_winning_state());
            assert!(!ConnectFour::diagonal_up_win(&board, B));
        }
    }
}

#[test]
fn three_in_every_direction_do_not_win() {
    let board = vec![
        vec![E, E, E, E, E, E, E],
        vec![E, E, E, E, E, E, E],
        vec![E, E, E, E, E, E, E],
        vec![R, E, R, E, E, E, E],
        vec![R, R, B, E, E, E, E],
        vec![R, R, R, B, E, E, E],
    ];
    assert!(!position(board.clone(), false).is_winning_state());
    assert!(!position(board, true).is_winning_state());
}

#[test]
fn a_run_broken_by_the_other_piece_does_not_win() {
    let mut board = empty_board(6, 7);
    board[5] = vec![R, R, R, B, R, R, R];
    assert!(!ConnectFour::horizontal_win(&board, R));
    assert!(!position(board, false).is_winning_state());
}

#[test]
fn horizontal_win_scans_rows_of_any_length() {
    let rows = vec![vec![R], vec![], vec![B, R, R, R, R], vec![R, R, R]];
    assert!(ConnectFour::horizontal_win(&rows, R));
    assert!(!ConnectFour::horizontal_win(&rows, B));
    assert!(!ConnectFour::horizontal_win(&Vec::new(), R));
}

#[test]
fn rising_diagonals_run_from_bottom_left_to_top_right() {
    let board = vec![vec![R, B, E], vec![R, B, B]];
    assert_eq!(
        ConnectFour::rising_diagonals(&board),
        vec![vec![R], vec![R, B], vec![B, E], vec![B]]
    );
    let column = vec![vec![R], vec![B]];
    assert_eq!(
        ConnectFour::rising_diagonals(&column),
        vec![vec![R], vec![B]]
    );
    assert_eq!(
        ConnectFour::rising_diagonals(&vec![Vec::new(), Vec::new()]),
        Vec::<Vec<Piece>>::new()
    );
}

#[test]
fn state_to_string_starts_every_row_with_a_line_feed() {
    let state = position(vec![vec![E, R, E], vec![B, R, B]], true);
    assert_eq!(state.state_to_string(), "\n.R.\nBRB");
    assert_eq!(
        ConnectFour::initial_state().state_to_string(),
        "\n.......\n.......\n.......\n.......\n.......\n......."
    );
}

#[test]
fn player_turn_alternates() {
    let state = ConnectFour::initial_state();
    assert_eq!(state.player_turn(), GamePlayer::Player1);
    let state = state.make_user_move(0).unwrap();
    assert_eq!(state.player_turn(), GamePlayer::Player2);
    let state = state.make_user_move(0).unwrap();
    assert_eq!(state.player_turn(), GamePlayer::Player1);
}

#[test]
fn next_player_toggles() {
    assert_eq!(GamePlayer::Player1.next_player(), GamePlayer::Player2);
    assert_eq!(GamePlayer::Player2.next_player(), GamePlayer::Player1);
    assert_eq!(
        GamePlayer::Player1.next_player().next_player(),
        GamePlayer::Player1
    );
}
