//! Exhaustive search: every line of play is followed to its end.

use crate::game::game::GamePlayer;
use crate::game::rules::{reward_for, GameRules};
use crate::game::state::GameState;
use crate::game::strategy::{
    as_ints, has_winning_move, is_first_best, is_successor, take_first_best, GameStrategy,
};
use vstd::prelude::*;

verus! {

/// The strategy that searches the whole game tree.
pub struct BruteForce {}

/// What the position `m` is worth to `viewpoint`: its reward where no move is
/// left, else the best that a move can reach, each move being worth the
/// negated worth of its position to the opponent.
pub open spec fn negamax<S: GameRules>(m: S::V, viewpoint: GamePlayer) -> int
    decreases S::plies_left(m), S::successors(m).len() + 1,
    when S::valid(m)
{
    if S::successors(m).len() == 0 {
        reward_for(S::won(m), S::to_move(m), viewpoint)
    } else {
        best_reply::<S>(m, viewpoint, S::successors(m).len())
    }
}

/// The greatest worth to `viewpoint` among the first `n` moves from `m`.
pub open spec fn best_reply<S: GameRules>(m: S::V, viewpoint: GamePlayer, n: nat) -> int
    decreases S::plies_left(m), n,
    when S::valid(m) && 1 <= n <= S::successors(m).len()
{
    proof {
        S::lemma_successors(m);
    }
    let last = -negamax::<S>(S::successors(m)[n - 1], viewpoint.other());
    if n == 1 {
        last
    } else {
        let before = best_reply::<S>(m, viewpoint, (n - 1) as nat);
        if last > before {
            last
        } else {
            before
        }
    }
}

/// What each move from `m` is worth to `player`, in move order.
pub open spec fn move_values<S: GameRules>(m: S::V, player: GamePlayer) -> Seq<int> {
    Seq::new(
        S::successors(m).len(),
        |i: int| -negamax::<S>(S::successors(m)[i], player.other()),
    )
}

/// A position is worth a win, a loss or a draw.
pub proof fn lemma_negamax_bounds<S: GameRules>(m: S::V, viewpoint: GamePlayer)
    requires
        S::valid(m),
    ensures
        -1 <= negamax::<S>(m, viewpoint) <= 1,
    decreases S::plies_left(m), S::successors(m).len() + 1,
{
    if S::successors(m).len() > 0 {
        lemma_best_reply::<S>(m, viewpoint, S::successors(m).len());
    }
}

/// The best of the first `n` moves is worth a win, a loss or a draw, no move
/// among them is worth more, and one of them is worth as much.
pub proof fn lemma_best_reply<S: GameRules>(m: S::V, viewpoint: GamePlayer, n: nat)
    requires
        S::valid(m),
        1 <= n <= S::successors(m).len(),
    ensures
        -1 <= best_reply::<S>(m, viewpoint, n) <= 1,
        forall|i: int|
            0 <= i < n ==> (#[trigger] move_values::<S>(m, viewpoint)[i]) <= best_reply::<S>(
                m,
                viewpoint,
                n,
            ),
        exists|i: int|
            0 <= i < n && (#[trigger] move_values::<S>(m, viewpoint)[i]) == best_reply::<S>(
                m,
                viewpoint,
                n,
            ),
    decreases S::plies_left(m), n,
{
    S::lemma_successors(m);
    lemma_negamax_bounds::<S>(S::successors(m)[n - 1], viewpoint.other());
    let values = move_values::<S>(m, viewpoint);
    if n > 1 {
        let fewer = (n - 1) as nat;
        lemma_best_reply::<S>(m, viewpoint, fewer);
        let before = choose|i: int|
            0 <= i < fewer && (#[trigger] values[i]) == best_reply::<S>(m, viewpoint, fewer);
        if values[n - 1] > best_reply::<S>(m, viewpoint, fewer) {
            assert(values[n - 1] == best_reply::<S>(m, viewpoint, n));
        } else {
            assert(values[before] == best_reply::<S>(m, viewpoint, n));
        }
    } else {
        assert(values[0] == best_reply::<S>(m, viewpoint, n));
    }
}

/// A move that wins at once is worth a win to the player who makes it, and
/// no move is worth more: the search never passes over a win.
pub proof fn lemma_winning_move_is_worth_most<S: GameRules>(m: S::V, i: int)
    requires
        S::valid(m),
        0 <= i < S::successors(m).len(),
        S::won(S::successors(m)[i]),
    ensures
        move_values::<S>(m, S::to_move(m))[i] == 1,
        forall|j: int|
            0 <= j < S::successors(m).len() ==> (#[trigger] move_values::<S>(m, S::to_move(m))[j])
                <= 1,
{
    S::lemma_successors(m);
    S::lemma_successors(S::successors(m)[i]);
    assert forall|j: int| 0 <= j < S::successors(m).len() implies (#[trigger] move_values::<S>(
        m,
        S::to_move(m),
    )[j]) <= 1 by {
        lemma_negamax_bounds::<S>(S::successors(m)[j], S::to_move(m).other());
    }
}

impl BruteForce {
    /// What the position is worth to `player` when both sides play their best
    /// from here on.
    pub fn calculate_score<S>(game: &S, player: GamePlayer) -> (score: i64) where
        S: GameRules + GameState,

        requires
            S::valid(game@),
        ensures
            score == negamax::<S>(game@, player),
        decreases S::plies_left(game@),
    {
        let possible_games = game.possible_moves();
        if possible_games.is_empty() {
            return game.reward_value(player);
        }
        proof {
            S::lemma_successors(game@);
            lemma_negamax_bounds::<S>(S::successors(game@)[0], player.other());
        }
        let mut best_game: i64 = -1 * BruteForce::calculate_score(
            &possible_games[0],
            player.next_player(),
        );
        let mut i: usize = 1;
        while i < possible_games.len()
            invariant
                1 <= i <= possible_games.len(),
                S::valid(game@),
                possible_games.len() == S::successors(game@).len(),
                forall|j: int|
                    0 <= j < possible_games.len() ==> (#[trigger] possible_games[j])@
                        == S::successors(game@)[j],
                best_game == best_reply::<S>(game@, player, i as nat),
            decreases possible_games.len() - i,
        {
            proof {
                S::lemma_successors(game@);
                lemma_negamax_bounds::<S>(S::successors(game@)[i as int], player.other());
            }
            let score = -1 * BruteForce::calculate_score(&possible_games[i], player.next_player());
            if score > best_game {
                best_game = score;
            }
            i += 1;
        }
        best_game
    }

    /// The position after the best move for `player`: the first of the moves
    /// that are worth most to `player`.
    pub fn calculate_best_move<S>(game: S, player: GamePlayer) -> (best: S) where
        S: GameRules + GameState + Clone,

        requires
            S::valid(game@),
            S::successors(game@).len() > 0,
        ensures
            exists|k: int|
                is_first_best(move_values::<S>(game@, player), k) && best@ == S::successors(
                    game@,
                )[k],
            is_successor::<S>(game@, best@),
            S::valid(best@),
    {
        let possible_games = game.possible_moves();
        let mut scores: Vec<i64> = Vec::new();
        let mut i: usize = 0;
        while i < possible_games.len()
            invariant
                i <= possible_games.len(),
                S::valid(game@),
                possible_games.len() == S::successors(game@).len(),
                forall|j: int|
                    0 <= j < possible_games.len() ==> (#[trigger] possible_games[j])@
                        == S::successors(game@)[j],
                scores.len() == i,
                forall|j: int|
                    0 <= j < i ==> (#[trigger] scores[j]) == move_values::<S>(game@, player)[j],
            decreases possible_games.len() - i,
        {
            proof {
                S::lemma_successors(game@);
                lemma_negamax_bounds::<S>(S::successors(game@)[i as int], player.other());
            }
            let score = -1 * BruteForce::calculate_score(&possible_games[i], player.next_player());
            scores.push(score);
            i += 1;
        }
        assert(as_ints(scores@) =~= move_values::<S>(game@, player));
        proof {
            S::lemma_successors(game@);
        }
        match take_first_best(possible_games, &scores) {
            Some(best_game) => best_game,
            // There is a score for every move, and there is a move.
            None => game,
        }
    }
}

impl GameStrategy for BruteForce {
    /// The position after the best move for the player to move. Where a move
    /// wins at once, the position is lost for the opponent.
    fn make_move<S>(game: S) -> (next: S) where S: GameRules + GameState + Clone + Send + Sync
        ensures
            exists|k: int|
                is_first_best(move_values::<S>(game@, S::to_move(game@)), k) && next@
                    == S::successors(game@)[k],
            has_winning_move::<S>(game@) ==> negamax::<S>(next@, S::to_move(game@).other()) == -1,
    {
        let player = game.player_turn();
        let next = BruteForce::calculate_best_move(game, player);
        proof {
            if has_winning_move::<S>(game@) {
                let w = choose|w: int|
                    0 <= w < S::successors(game@).len() && S::won(
                        #[trigger] S::successors(game@)[w],
                    );
                lemma_winning_move_is_worth_most::<S>(game@, w);
                let k = choose|k: int|
                    is_first_best(move_values::<S>(game@, player), k) && next@ == S::successors(
                        game@,
                    )[k];
                assert(move_values::<S>(game@, player)[w] <= move_values::<S>(game@, player)[k]);
            }
        }
        next
    }
}

} // verus!
