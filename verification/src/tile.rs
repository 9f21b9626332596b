//! What a cell of the minefield holds and what the player sees of it.

use vstd::prelude::*;

verus! {

/// The content of a cell, fixed once the mines are laid.
#[derive(Clone, Copy, Debug, PartialEq, Eq)]
pub enum Tile {
    /// The cell holds a mine.
    Mine,
    /// The cell is safe; the number counts the mines on the adjacent cells.
    Clear(u8),
}

/// What the player knows of a cell.
#[derive(Clone, Copy, Debug, PartialEq, Eq)]
pub enum TileData {
    /// Not yet opened and not flagged.
    Unknown,
    /// Opened.
    Known,
    /// Marked by the player as a mine.
    Flagged,
    /// A flag that stood on a safe cell when the game was lost.
    WrongFlag,
}

} // verus!
