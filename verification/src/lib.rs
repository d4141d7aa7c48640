//! A falling-block puzzle engine on an exact integer grid, with a score
//! ranking service.

pub mod board;
pub mod clearing;
pub mod game;
pub mod grid;
pub mod leaderboard;
pub mod piece;
pub mod resolver;
pub mod shape;
