//! What a strategy is, and how a move is chosen once every move has a score.

use super::rules::GameRules;
use super::state::GameState;
use vstd::prelude::*;

verus! {

/// Whether one move leads from `m` to `next`.
pub open spec fn is_successor<S: GameRules>(m: S::V, next: S::V) -> bool {
    exists|i: int| 0 <= i < S::successors(m).len() && S::successors(m)[i] == next
}

/// Whether one move from `m` wins the game at once.
pub open spec fn has_winning_move<S: GameRules>(m: S::V) -> bool {
    exists|i: int| 0 <= i < S::successors(m).len() && S::won(#[trigger] S::successors(m)[i])
}

/// Whether `k` is the place of the first greatest score: no score is greater
/// than the one at `k`, and every score before `k` is smaller.
pub open spec fn is_first_best(scores: Seq<int>, k: int) -> bool {
    &&& 0 <= k < scores.len()
    &&& forall|j: int| 0 <= j < scores.len() ==> scores[j] <= scores[k]
    &&& forall|j: int| 0 <= j < k ==> scores[j] < scores[k]
}

/// The scores as mathematical integers.
pub open spec fn as_ints(scores: Seq<i64>) -> Seq<int> {
    scores.map_values(|score: i64| score as int)
}

/// There is only one first greatest score.
pub proof fn lemma_first_best_is_unique(scores: Seq<int>, k: int, l: int)
    requires
        is_first_best(scores, k),
        is_first_best(scores, l),
    ensures
        k == l,
{
    if k < l {
        assert(scores[k] < scores[l]);
        assert(scores[l] <= scores[k]);
    }
    if l < k {
        assert(scores[l] < scores[k]);
        assert(scores[k] <= scores[l]);
    }
}

/// The place of the first greatest of `scores`, or `None` where there is no
/// score. Among equal scores the earliest wins.
pub fn first_best(scores: &Vec<i64>) -> (best: Option<usize>)
    ensures
        best is None <==> scores.len() == 0,
        best matches Some(k) ==> is_first_best(as_ints(scores@), k as int),
{
    if scores.len() == 0 {
        return None;
    }
    let mut best: usize = 0;
    let mut i: usize = 1;
    while i < scores.len()
        invariant
            1 <= i <= scores.len(),
            best < i,
            forall|j: int| 0 <= j < i ==> scores[j] <= scores[best as int],
            forall|j: int| 0 <= j < best ==> scores[j] < scores[best as int],
        decreases scores.len() - i,
    {
        if scores[i] > scores[best] {
            best = i;
        }
        i += 1;
    }
    Some(best)
}

/// The one of `moves` that goes with the first greatest of `scores`, where
/// there is a score for every move and there is a move; else `None`.
pub fn take_first_best<S>(moves: Vec<S>, scores: &Vec<i64>) -> (best: Option<S>)
    ensures
        best is Some <==> moves.len() == scores.len() && moves.len() > 0,
        best matches Some(chosen) ==> exists|k: int|
            is_first_best(as_ints(scores@), k) && chosen == moves[k],
{
    if moves.len() != scores.len() {
        return None;
    }
    let mut moves = moves;
    match first_best(scores) {
        Some(k) => Some(moves.remove(k)),
        None => None,
    }
}

/// A way to choose the next move.
pub trait GameStrategy {
    /// The position after the move that the strategy chooses for the player
    /// to move. The game must not be over.
    fn make_move<S>(game: S) -> (next: S) where S: GameRules + GameState + Clone + Send + Sync
        requires
            S::valid(game@),
            S::successors(game@).len() > 0,
        ensures
            is_successor::<S>(game@, next@),
            S::valid(next@),
    ;
}

} // verus!
