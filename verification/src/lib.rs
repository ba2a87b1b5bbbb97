//! An Othello engine for an 8x8 board: the board model, the legality and
//! capture rules, a fixed-depth move search, and the turn-by-turn state
//! machine of a game between a human (White) and the computer (Black).
//!
//! Every contract is stated over the [`board::Grid`] view of a board: its 64
//! cells in row-major order.

pub mod board;
pub mod rays;
pub mod legality;
pub mod capture;
pub mod search;
pub mod text;
pub mod game;
pub mod terminal;
pub mod render;
pub mod input;
