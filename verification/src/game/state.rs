//! What every game state offers, whatever the game.

use super::game::GamePlayer;
use vstd::prelude::*;

verus! {

/// A position of a two-player game. Positions are values: a move makes a new
/// position and leaves the old one as it was.
///
/// The contracts speak of the view of a position, its mathematical model.
pub trait GameState: View + Sized {
    /// Whether `m` is a well-formed position of this game.
    spec fn valid(m: Self::V) -> bool;

    /// The position from which every game starts.
    spec fn start() -> Self::V;

    /// The player who moves next in `m`.
    spec fn to_move(m: Self::V) -> GamePlayer;

    /// The text that shows `m`.
    spec fn rendering(m: Self::V) -> Seq<char>;

    /// The starting position is well formed.
    proof fn lemma_start_is_valid()
        ensures
            Self::valid(Self::start()),
    ;

    /// The starting position.
    fn initial_state() -> (state: Self)
        ensures
            state@ == Self::start(),
            Self::valid(state@),
    ;

    /// The position as text. The text depends on the position alone.
    fn state_to_string(&self) -> (text: String)
        ensures
            text@ == Self::rendering(self@),
    ;

    /// The player who moves next.
    fn player_turn(&self) -> (player: GamePlayer)
        ensures
            player == Self::to_move(self@),
    ;
}

} // verus!
