//! The games that implement the abstract game.

pub mod columns;
pub mod connect_four;
pub mod diagonals;
pub mod lines;
pub mod position;
