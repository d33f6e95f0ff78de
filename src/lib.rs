//! A last-one-standing elimination game on a rectangular grid.
//!
//! Tokens take turns moving on the board according to their movement
//! policy; a token that lands on another living token's cell captures it,
//! and the game ends when a single token is left alive.

pub mod dimensions;
pub mod error;
pub mod random;
pub mod token;
pub mod board;
pub mod game;
