//! Rules engine and automated solver for a five-letter word-guessing puzzle.
//!
//! [`game::Game`] holds one secret and judges guesses against it;
//! [`solver::Solver`] plays a game to the end by guessing the best-scoring
//! candidate and pruning its pool with the feedback it gets.

pub mod word;
pub mod feedback;
pub mod dictionary;
pub mod game;
pub mod pruning;
pub mod ranking;
pub mod score;
pub mod solver;
