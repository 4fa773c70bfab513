//! The two players and the turn order between them.

use vstd::prelude::*;

verus! {

/// One of the two sides of a game. `Player1` moves first.
#[derive(PartialEq, Eq, Structural, Clone, Copy, Debug)]
pub enum GamePlayer {
    Player1,
    Player2,
}

impl GamePlayer {
    /// The opponent of `self`.
    pub open spec fn other(self) -> GamePlayer {
        match self {
            GamePlayer::Player1 => GamePlayer::Player2,
            GamePlayer::Player2 => GamePlayer::Player1,
        }
    }

    /// The player who moves after `self`.
    pub fn next_player(self) -> (next: GamePlayer)
        ensures
            next == self.other(),
    {
        if self == GamePlayer::Player1 {
            GamePlayer::Player2
        } else {
            GamePlayer::Player1
        }
    }

    /// Passing the turn twice gives it back to the same player, and passing it
    /// once never does.
    pub proof fn lemma_other_is_involution(self)
        ensures
            self.other().other() == self,
            self.other() != self,
    {
    }
}

} // verus!
