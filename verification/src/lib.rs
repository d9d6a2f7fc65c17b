//! The state of a 3x3 cube and the tables that a two-phase search reads:
//! coordinates of the state, their transitions under the 18 face turns, and a
//! table of lower bounds on the distance to the solved state.
//!
//! - `face`, `moves`: the six sides and the 18 face turns.
//! - `cubies`, `corners`, `edges`, `cube`: the state of the cube and the
//!   moves on it.
//! - `ranking`: the ranks of arrangements that the coordinates are made of.
//! - `coordinate`, `merge`, `pruning`: the coordinates and the tables.
//! - `laws`: what holds of the coordinates and of the tables.
//! - `cache`: what is written to disk for a table.

pub mod ranking;
pub mod cubies;
pub mod face;
pub mod moves;
pub mod corners;
pub mod edges;
pub mod cube;
pub mod pruning;
pub mod coordinate;
pub mod laws;
pub mod merge;
pub mod cache;
