use gametree::game::game::GamePlayer;
use gametree::game::rules::GameRules;
use gametree::game::state::GameState;
use gametree::game::strategy::{first_best, take_first_best, GameStrategy};
use gametree::game_implementations::connect_four::{ConnectFour, Piece};
use gametree::strategies::brute_force::BruteForce;
use gametree::strategies::mcts::{MCTS, PLAYOUTS};

const E: Piece = Piece::Empty;
const R: Piece = Piece::Red;
const B: Piece = Piece::Black;

fn position(board: Vec<Vec<Piece>>, red_turn: bool) -> ConnectFour {
    ConnectFour::from_board(board, red_turn).unwrap()
}

/// Red to move wins at once in the last column; any other move lets black
/// complete the falling diagonal.
fn four_by_four() -> Vec<Vec<Piece>> {
    vec![
        vec![B, E, E, E],
        vec![R, B, B, E],
        vec![B, R, B, E],
        vec![R, R, R, E],
    ]
}

#[test]
fn first_best_keeps_the_earliest_of_equal_scores() {
    assert_eq!(first_best(&vec![3, 7, 7, 1]), Some(1));
    assert_eq!(first_best(&vec![5, 5, 5]), Some(0));
    assert_eq!(first_best(&vec![-2, -1, -3]), Some(1));
    assert_eq!(first_best(&vec![i64::MIN]), Some(0));
    assert_eq!(first_best(&vec![0, i64::MAX, i64::MAX]), Some(1));
    assert_eq!(first_best(&Vec::new()), None);
}

#[test]
fn take_first_best_hands_out_the_move_of_the_first_best_score() {
    assert_eq!(
        take_first_best(vec!["a", "b", "c"], &vec![-5, 9, 9]),
        Some("b")
    );
    assert_eq!(take_first_best(vec!["a", "b"], &vec![0, 0]), Some("a"));
    assert_eq!(take_first_best(vec!["a", "b"], &vec![1]), None);
    assert_eq!(take_first_best(Vec::<u8>::new(), &Vec::new()), None);
}

#[test]
fn brute_force_takes_the_immediate_win() {
    let state = position(four_by_four(), true);
    let next = BruteForce::make_move(state);
    let mut expected = four_by_four();
    expected[3][3] = R;
    assert_eq!(next.board(), &expected);
    assert_eq!(next.player_turn(), GamePlayer::Player2);
    assert_eq!(next.last_move(), Some((3, 3)));
    assert!(next.is_winning_state());
}

#[test]
fn brute_force_is_deterministic() {
    for _ in 0..5 {
        let next = BruteForce::make_move(position(four_by_four(), true));
        assert_eq!(next.last_move(), Some((3, 3)));
    }
}

#[test]
fn brute_force_score_is_the_negamax_value() {
    let state = position(four_by_four(), true);
    // Red wins by force.
    assert_eq!(BruteForce::calculate_score(&state, GamePlayer::Player1), 1);
    // After a move to the second column black wins at once.
    let blunder = state.make_user_move(1).unwrap();
    assert_eq!(
        BruteForce::calculate_score(&blunder, GamePlayer::Player2),
        1
    );
    // A position without moves is worth its reward.
    let won = state.make_user_move(3).unwrap();
    assert_eq!(BruteForce::calculate_score(&won, GamePlayer::Player1), 1);
    assert_eq!(BruteForce::calculate_score(&won, GamePlayer::Player2), -1);
    let draw = position(vec![vec![R, B, R], vec![B, R, B]], true);
    assert_eq!(BruteForce::calculate_score(&draw, GamePlayer::Player1), 0);
}

#[test]
fn brute_force_keeps_the_first_of_equal_moves() {
    // No move wins and every line of play ends in a draw.
    let state = position(vec![vec![E, E, E]], true);
    let next = BruteForce::make_move(state);
    assert_eq!(next.last_move(), Some((0, 0)));
    let state = position(vec![vec![R, E, E]], false);
    let next = BruteForce::calculate_best_move(state, GamePlayer::Player2);
    assert_eq!(next.last_move(), Some((0, 1)));
}

#[test]
fn brute_force_blocks_when_it_cannot_win() {
    // Black to move must take the second column, or red completes the row.
    let board = vec![vec![E, E, R, R, R]];
    let state = position(board, false);
    assert_eq!(BruteForce::calculate_score(&state, GamePlayer::Player2), 0);
    let next = BruteForce::make_move(state);
    assert_eq!(next.last_move(), Some((0, 1)));
}

#[test]
fn playout_of_a_finished_game_is_its_result() {
    let mut board = vec![vec![E; 7]; 6];
    for column in 0..4 {
        board[5][column] = R;
    }
    let red_won = position(board, false);
    assert_eq!(MCTS::play_game_entirely(&red_won), 1);
    let mut board = vec![vec![E; 7]; 6];
    for row in 0..4 {
        board[row][0] = B;
    }
    let black_won = position(board, true);
    assert_eq!(MCTS::play_game_entirely(&black_won), -1);
    let draw = position(vec![vec![R, B, R], vec![B, R, B]], true);
    assert_eq!(MCTS::play_game_entirely(&draw), 0);
}

#[test]
fn playout_agrees_with_the_first_players_reward() {
    let won = position(four_by_four(), true).make_user_move(3).unwrap();
    assert_eq!(
        MCTS::play_game_entirely(&won),
        won.reward_value(GamePlayer::Player1)
    );
    assert_eq!(
        MCTS::play_game_entirely(&won),
        -won.reward_value(GamePlayer::Player2)
    );
}

#[test]
fn playout_of_a_forced_line_is_its_result() {
    // One cell is left, and red wins by taking it.
    let board = vec![vec![R, R, R, E]];
    assert_eq!(MCTS::play_game_entirely(&position(board, true)), 1);
    // One cell is left, and nobody wins.
    let board = vec![vec![R, B, E]];
    assert_eq!(MCTS::play_game_entirely(&position(board, true)), 0);
}

#[test]
fn playout_ends_in_a_win_or_a_draw() {
    let start = ConnectFour::initial_state();
    for _ in 0..20 {
        let outcome = MCTS::play_game_entirely(&start);
        assert!(-1 <= outcome && outcome <= 1);
    }
}

#[test]
fn score_for_negates_for_the_second_player() {
    assert_eq!(MCTS::score_for(312, GamePlayer::Player1), 312);
    assert_eq!(MCTS::score_for(312, GamePlayer::Player2), -312);
    assert_eq!(MCTS::score_for(-1000, GamePlayer::Player2), 1000);
    assert_eq!(MCTS::score_for(0, GamePlayer::Player2), 0);
    assert_eq!(PLAYOUTS, 1000);
}

#[test]
fn mcts_takes_the_immediate_win_in_most_trials() {
    // Red wins in the fourth column. The fifth leads to a draw.
    let board = vec![vec![R, R, R, E, E]];
    let trials = 200;
    let mut wins = 0;
    for _ in 0..trials {
        let next = MCTS::make_move(position(board.clone(), true));
        if next.last_move() == Some((0, 3)) {
            assert!(next.is_winning_state());
            wins += 1;
        }
    }
    assert!(2 * wins > trials);
}

#[test]
fn mcts_prefers_the_win_on_a_board_with_many_lines_of_play() {
    let trials = 50;
    let mut wins = 0;
    for _ in 0..trials {
        let next = MCTS::make_move(position(four_by_four(), true));
        if next.last_move() == Some((3, 3)) {
            wins += 1;
        }
    }
    assert!(2 * wins > trials);
}

#[test]
fn mcts_takes_the_immediate_win_as_second_player() {
    let board = vec![vec![E, E, B, B, B]];
    let trials = 20;
    let mut wins = 0;
    for _ in 0..trials {
        let next = MCTS::make_move(position(board.clone(), false));
        if next.last_move() == Some((0, 1)) {
            wins += 1;
        }
    }
    assert!(2 * wins > trials);
}

#[test]
fn mcts_returns_one_of_the_possible_moves() {
    let state = position(four_by_four(), true);
    let moves = state.possible_moves();
    let next = MCTS::make_move(state);
    assert!(moves.iter().any(|child| child.board() == next.board()
        && child.last_move() == next.last_move()
        && child.player_turn() == next.player_turn()));
}
