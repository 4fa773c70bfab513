//! The strategies that pick a move.

pub mod brute_force;
pub mod mcts;
