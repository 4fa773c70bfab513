//! The abstract game: players, states, rules and strategies.

pub mod game;
pub mod rules;
pub mod state;
pub mod strategy;
