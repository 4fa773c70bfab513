//! A framework for two-player, perfect-information, deterministic board games,
//! a Connect-Four rules engine built on it, and two strategies that pick moves:
//! an exhaustive negamax search and a Monte-Carlo rollout evaluation.

pub mod game;
pub mod game_implementations;
pub mod strategies;
pub mod utils;
