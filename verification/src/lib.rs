//! A verified minesweeper core: the minefield, its generation around a safe
//! first click, flagging, revealing with flood expansion, and win/loss
//! evaluation.

pub mod board;
pub mod flood;
pub mod game;
pub mod generate;
pub mod grid;
pub mod laws;
pub mod minefield;
pub mod play;
pub mod tile;

pub use board::Board;
pub use game::Game;
pub use generate::GenerationError;
pub use minefield::Minefield;
pub use tile::{Tile, TileData};
