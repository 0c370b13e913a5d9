//! Rules of a falling-block puzzle game: the seven tetromino shapes, the
//! well of occupied cells, line clearing and scoring, and the decisions
//! taken on gravity ticks, key presses and rotation requests.

pub mod board;
pub mod piece;
pub mod rotation;
pub mod ruleset;
pub mod rules;
pub mod shape;
pub mod spawn;
