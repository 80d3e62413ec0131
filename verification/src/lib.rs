//! Tic-tac-toe with an exhaustive, provably optimal opponent.
//!
//! [`rules`] states the game over a board of nine cells, [`board`] holds the
//! board of a game in play, [`value`] says what a position is worth and what
//! a pruned search returns for it, [`search`] is that search, [`session`]
//! takes a game through its turns, and [`play`] is about the positions a
//! game can reach.

pub mod board;
pub mod play;
pub mod rules;
pub mod search;
pub mod session;
pub mod value;

pub use board::TicTacToe;
pub use rules::{GameOver, CELLS, PLAYER_ONE, PLAYER_TWO};
pub use session::Step;
