//! Monte-Carlo evaluation: every move is scored by random playouts.

use crate::game::game::GamePlayer;
use crate::game::rules::{reward_for, GameRules};
use crate::game::state::GameState;
use crate::game::strategy::{
    as_ints, has_winning_move, is_first_best, is_successor, take_first_best, GameStrategy,
};
use rand::seq::IndexedRandom;
use vstd::prelude::*;

verus! {

/// The strategy that scores every move by random playouts.
pub struct MCTS {}

/// The number of playouts that score one move.
pub const PLAYOUTS: i64 = 1000;

/// What a game that ends in `m` counts in a playout: `1` where the first
/// player has won, `-1` where the second has, `0` where nobody has.
pub open spec fn outcome_of<S: GameRules>(m: S::V) -> int {
    if !S::won(m) {
        0
    } else if S::to_move(m) == GamePlayer::Player1 {
        -1
    } else {
        1
    }
}

/// Whether a playout from `m` can end with `outcome`: some line of play from
/// `m` ends in a position that counts as `outcome`.
pub open spec fn is_playout_outcome<S: GameRules>(m: S::V, outcome: int) -> bool
    decreases S::plies_left(m),
    when S::valid(m)
{
    if S::won(m) || S::successors(m).len() == 0 {
        outcome == outcome_of::<S>(m)
    } else {
        proof {
            S::lemma_successors(m);
        }
        exists|i: int|
            0 <= i < S::successors(m).len() && is_playout_outcome::<S>(
                #[trigger] S::successors(m)[i],
                outcome,
            )
    }
}

/// What a playout counts where `player` wins.
pub open spec fn win_for(player: GamePlayer) -> int {
    match player {
        GamePlayer::Player1 => 1,
        GamePlayer::Player2 => -1,
    }
}

/// A playout counts a win for the first player as that player's reward
/// counts it: the two conventions agree.
pub proof fn lemma_outcome_is_first_players_reward<S: GameRules>(m: S::V)
    ensures
        outcome_of::<S>(m) == reward_for(S::won(m), S::to_move(m), GamePlayer::Player1),
        outcome_of::<S>(m) == -reward_for(S::won(m), S::to_move(m), GamePlayer::Player2),
{
}

/// A playout ends with a win for one side or with a draw.
pub proof fn lemma_playout_outcome_bounds<S: GameRules>(m: S::V, outcome: int)
    requires
        S::valid(m),
        is_playout_outcome::<S>(m, outcome),
    ensures
        -1 <= outcome <= 1,
    decreases S::plies_left(m),
{
    if !(S::won(m) || S::successors(m).len() == 0) {
        S::lemma_successors(m);
        let i = choose|i: int|
            0 <= i < S::successors(m).len() && is_playout_outcome::<S>(
                #[trigger] S::successors(m)[i],
                outcome,
            );
        lemma_playout_outcome_bounds::<S>(S::successors(m)[i], outcome);
    }
}

/// One of `states`, picked uniformly at random by `IndexedRandom::choose` of
/// the rand crate with the generator that `rand::rng` hands out for the
/// current thread; `None` where there is none to pick. Not verified: the
/// contract says only what holds of every pick, not which one it is.
#[verifier::external_body]
fn choose_one<S>(states: &Vec<S>) -> (picked: Option<&S>)
    ensures
        picked is None <==> states.len() == 0,
        picked matches Some(state) ==> exists|i: int|
            0 <= i < states.len() && #[trigger] states[i] == *state,
{
    states.choose(&mut rand::rng())
}

impl MCTS {
    /// Plays the game to its end with random moves: `1` if the first player
    /// wins, `-1` if the second wins, `0` for a draw.
    pub fn play_game_entirely<S>(game: &S) -> (outcome: i64) where S: GameRules + GameState + Clone
        requires
            S::valid(game@),
        ensures
            is_playout_outcome::<S>(game@, outcome as int),
            -1 <= outcome <= 1,
        decreases S::plies_left(game@),
    {
        if game.is_winning_state() {
            match game.player_turn() {
                GamePlayer::Player1 => {
                    return -1;
                },
                GamePlayer::Player2 => {
                    return 1;
                },
            }
        }
        let possible_games = game.possible_moves();
        if possible_games.is_empty() {
            return 0;
        }
        proof {
            S::lemma_successors(game@);
        }
        match choose_one(&possible_games) {
            Some(random_game) => {
                let ghost i = choose|i: int|
                    0 <= i < possible_games.len() && #[trigger] possible_games[i] == *random_game;
                assert(random_game@ == S::successors(game@)[i]);
                MCTS::play_game_entirely(random_game)
            },
            // There is a move to pick.
            None => 0,
        }
    }

    /// The score of a move for `player`, given the sum of the outcomes of its
    /// playouts: the sum for the first player, the negated sum for the
    /// second.
    pub fn score_for(total: i64, player: GamePlayer) -> (score: i64)
        requires
            total > i64::MIN,
        ensures
            player == GamePlayer::Player1 ==> score == total,
            player == GamePlayer::Player2 ==> score == -total,
    {
        match player {
            GamePlayer::Player1 => total,
            GamePlayer::Player2 => -total,
        }
    }

    /// The position after the move that did best for `player` in the
    /// playouts: the first of the moves with the greatest score.
    ///
    /// Which move that is depends on the playouts. Whatever they were: if the
    /// player to move asks and one move wins at once, then every playout from
    /// the chosen position was a win for that player, so a win can be reached
    /// from it.
    pub fn calculate_best_move<S>(game: S, player: GamePlayer) -> (best: S) where
        S: GameRules + GameState + Clone,

        requires
            S::valid(game@),
            S::successors(game@).len() > 0,
        ensures
            is_successor::<S>(game@, best@),
            S::valid(best@),
            player == S::to_move(game@) && has_winning_move::<S>(game@) ==> is_playout_outcome::<S>(
                best@,
                win_for(player),
            ),
    {
        let possible_games = game.possible_moves();
        proof {
            S::lemma_successors(game@);
        }
        let mut scores: Vec<i64> = Vec::new();
        let mut i: usize = 0;
        while i < possible_games.len()
            invariant
                i <= possible_games.len(),
                scores.len() == i,
                possible_games.len() == S::successors(game@).len(),
                forall|j: int|
                    0 <= j < possible_games.len() ==> {
                        &&& (#[trigger] possible_games[j])@ == S::successors(game@)[j]
                        &&& S::valid(possible_games[j]@)
                        &&& S::to_move(possible_games[j]@) == S::to_move(game@).other()
                    },
                forall|j: int|
                    0 <= j < i ==> {
                        &&& (#[trigger] scores[j]) <= PLAYOUTS
                        &&& scores[j] == PLAYOUTS ==> is_playout_outcome::<S>(
                            possible_games[j]@,
                            win_for(player),
                        )
                        &&& player == S::to_move(game@) && S::won(possible_games[j]@) ==> scores[j]
                            == PLAYOUTS
                    },
            decreases possible_games.len() - i,
        {
            /* Play possible game 1000 times and calculate the score */
            let possible_game = &possible_games[i];
            let mut res: i64 = 0;
            let mut played: i64 = 0;
            while played < PLAYOUTS
                invariant
                    0 <= played <= PLAYOUTS,
                    -played <= res <= played,
                    S::valid(possible_game@),
                    played > 0 && res == played ==> is_playout_outcome::<S>(possible_game@, 1),
                    played > 0 && res == -played ==> is_playout_outcome::<S>(possible_game@, -1),
                    S::won(possible_game@) && outcome_of::<S>(possible_game@) == 1 ==> res
                        == played,
                    S::won(possible_game@) && outcome_of::<S>(possible_game@) == -1 ==> res
                        == -played,
                decreases PLAYOUTS - played,
            {
                res = res + MCTS::play_game_entirely(possible_game);
                played += 1;
            }
            scores.push(MCTS::score_for(res, player));
            i += 1;
        }
        let ghost all_scores = scores@;
        match take_first_best(possible_games, &scores) {
            Some(best_game) => {
                proof {
                    let k = choose|k: int|
                        is_first_best(as_ints(all_scores), k) && best_game == possible_games[k];
                    assert(as_ints(all_scores)[k] == all_scores[k]);
                    if player == S::to_move(game@) && has_winning_move::<S>(game@) {
                        let w = choose|w: int|
                            0 <= w < S::successors(game@).len() && S::won(
                                #[trigger] S::successors(game@)[w],
                            );
                        assert(possible_games[w]@ == S::successors(game@)[w]);
                        assert(as_ints(all_scores)[w] == all_scores[w]);
                        assert(all_scores[w] == PLAYOUTS);
                        assert(all_scores[k] == PLAYOUTS);
                    }
                }
                best_game
            },
            // There is a score for every move, and there is a move.
            None => game,
        }
    }
}

impl GameStrategy for MCTS {
    /// The position after the move that did best for the player to move in
    /// the playouts.
    fn make_move<S>(game: S) -> (next: S) where S: GameRules + GameState + Clone + Send + Sync
        ensures
            has_winning_move::<S>(game@) ==> is_playout_outcome::<S>(
                next@,
                win_for(S::to_move(game@)),
            ),
    {
        let player = game.player_turn();
        MCTS::calculate_best_move(game, player)
    }
}

} // verus!
