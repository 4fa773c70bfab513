//! What the rules of a game decide: the legal moves, the end of the game and
//! its result.

use super::game::GamePlayer;
use super::state::GameState;
use vstd::prelude::*;

verus! {

/// What a position is worth to `player`, given whether the last move won the
/// game and who moves next: `1` to the player who made the winning move, `-1`
/// to the opponent, `0` where nobody has won.
pub open spec fn reward_for(won: bool, to_move: GamePlayer, player: GamePlayer) -> int {
    if !won {
        0
    } else if player == to_move.other() {
        1
    } else {
        -1
    }
}

/// A game that is won is worth to one player the opposite of what it is worth
/// to the other, and a game that nobody has won is worth nothing to either.
pub proof fn lemma_reward_is_antisymmetric(won: bool, to_move: GamePlayer, player: GamePlayer)
    ensures
        reward_for(won, to_move, player) == -reward_for(won, to_move, player.other()),
        !won ==> reward_for(won, to_move, player) == 0 && reward_for(won, to_move, player.other())
            == 0,
        won ==> reward_for(won, to_move, to_move.other()) == 1 && reward_for(won, to_move, to_move)
            == -1,
{
}

/// The rules of a game, over the positions of [`GameState`].
pub trait GameRules: GameState {
    /// The positions that one move leads to from `m`, in the order in which
    /// the moves are offered. Empty exactly where the game is over.
    spec fn successors(m: Self::V) -> Seq<Self::V>;

    /// Whether the player who made the last move has won with it.
    spec fn won(m: Self::V) -> bool;

    /// A bound on the number of moves that can still be made from `m`.
    spec fn plies_left(m: Self::V) -> nat;

    /// A won game has no further moves. Every move leads to a well-formed
    /// position in which the other player moves, and uses up at least one of
    /// the plies left.
    proof fn lemma_successors(m: Self::V)
        requires
            Self::valid(m),
        ensures
            Self::won(m) ==> Self::successors(m).len() == 0,
            forall|i: int|
                0 <= i < Self::successors(m).len() ==> {
                    &&& Self::valid(#[trigger] Self::successors(m)[i])
                    &&& Self::to_move(Self::successors(m)[i]) == Self::to_move(m).other()
                    &&& Self::plies_left(Self::successors(m)[i]) < Self::plies_left(m)
                },
    ;

    /// The positions reachable in one move, in move order.
    fn possible_moves(&self) -> (moves: Vec<Self>)
        requires
            Self::valid(self@),
        ensures
            moves.len() == Self::successors(self@).len(),
            forall|i: int| 0 <= i < moves.len() ==> (#[trigger] moves[i])@ == Self::successors(self@)[i],
    ;

    /// Whether no move is left or the game is won.
    fn is_game_over(&self) -> (over: bool)
        requires
            Self::valid(self@),
        ensures
            over == (Self::successors(self@).len() == 0 || Self::won(self@)),
    ;

    /// Whether the player who made the last move has won with it.
    fn is_winning_state(&self) -> (won: bool)
        requires
            Self::valid(self@),
        ensures
            won == Self::won(self@),
    ;

    /// What the position is worth to `player`.
    fn reward_value(&self, player: GamePlayer) -> (reward: i64)
        requires
            Self::valid(self@),
        ensures
            reward == reward_for(Self::won(self@), Self::to_move(self@), player),
    ;
}

} // verus!
