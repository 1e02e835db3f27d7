//! Winner of the subtraction game "batchet" under optimal play.
//!
//! Two players alternately remove a number of stones taken from a fixed set
//! of legal move sizes (which always holds 1); whoever removes the last stone
//! wins. The evaluator memoizes sub-results by stone count alone and reuses
//! them for either mover through the symmetry between the two players.
pub mod cache;
pub mod game;
pub mod input;
pub mod moves;
pub mod player;

pub use cache::OutcomeCache;
pub use moves::MoveSet;
pub use player::Player;
