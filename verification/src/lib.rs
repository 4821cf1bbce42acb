//! Rule engine for a tile-merging puzzle in the Threes family: a 4x4 grid of
//! numbered cards that merge when pushed in one of four directions, with new
//! cards drawn from a shuffled base pool plus a probabilistic bonus draw.

pub mod board;
pub mod card;
pub mod deck;
pub mod laws;
pub mod moves;
mod rng;
