//! A sliding-tile puzzle engine in the style of 2048.
//!
//! The crate models a rectangular grid of numeric tiles. A move pulls every
//! tile toward one edge, merges equal neighbours once, adds the merged values
//! to the score and, if anything moved, places a new tile on a free cell.
//! Every executable function carries a contract over a mathematical model of
//! the grid, and the contracts are proved.
//!
//! - [`tile`]: one cell, its value, its colour and its label.
//! - [`line`]: the pull of one row or column.
//! - [`grid`]: the mathematical model of the grid, the moves and the spawn.
//! - [`board`]: the board as it is stored, with the moves on it.
//! - [`status`]: where a game stands.
//! - [`session`]: what each key does to a game in progress.
//! - [`laws`]: what holds of every game.

pub mod board;
pub mod grid;
pub mod laws;
pub mod line;
mod random;
pub mod session;
pub mod status;
pub mod tile;

pub use board::Board;
pub use grid::Direction;
pub use session::{Key, Reaction, Screen, Session};
pub use status::GameStatus;
pub use tile::Tile;
