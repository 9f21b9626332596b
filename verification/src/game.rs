//! A game from the first click to its end: the mines are laid when the
//! player first clicks, around the clicked cell.

use crate::board::Board;
use crate::generate::{generated, has_room, GenerationError};
use crate::minefield::Minefield;
use vstd::prelude::*;

verus! {

/// A game of minesweeper.
#[derive(Clone, Debug, PartialEq, Eq)]
pub enum Game {
    /// No cell has been clicked: the mines are not laid yet.
    Uninitialized {
        /// The side of the grid.
        size: usize,
        /// The number of mines to lay.
        mines: usize,
    },
    /// The mines are laid and the game is played on `field`.
    Active {
        /// The minefield.
        field: Minefield,
        /// The number of mines to lay when the game starts anew.
        mines: usize,
    },
}

impl Game {
    /// The invariant of a game.
    pub open spec fn wf(&self) -> bool {
        match *self {
            Game::Uninitialized { size, .. } => size * size <= usize::MAX,
            Game::Active { field, .. } => field.wf(),
        }
    }

    /// The side of the grid.
    pub open spec fn side(&self) -> nat {
        match *self {
            Game::Uninitialized { size, .. } => size as nat,
            Game::Active { field, .. } => field@.size,
        }
    }

    /// The number of mines of a game.
    pub open spec fn mine_count(&self) -> nat {
        match *self {
            Game::Uninitialized { mines, .. } => mines as nat,
            Game::Active { mines, .. } => mines as nat,
        }
    }

    /// The mines are laid.
    pub open spec fn active(&self) -> bool {
        self is Active
    }

    /// The model of the minefield of an active game.
    pub open spec fn board(&self) -> Board
        recommends
            self.active(),
    {
        self->field@
    }

    /// The game is lost or won.
    pub open spec fn over(&self) -> bool {
        match *self {
            Game::Uninitialized { .. } => false,
            Game::Active { field, .. } => field@.lost || field@.won,
        }
    }

    /// A click on `(x, y)` is on the grid and the game is not over.
    pub open spec fn takes_click(&self, x: usize, y: usize) -> bool {
        x < self.side() && y < self.side() && !self.over()
    }

    /// A game on a grid of side `size` with `mines` mines, before the first
    /// click.
    pub fn new(size: usize, mines: usize) -> (game: Game)
        requires
            size * size <= usize::MAX,
        ensures
            game.wf(),
            game == (Game::Uninitialized { size, mines }),
    {
        Game::Uninitialized { size, mines }
    }

    /// The side of the grid.
    pub fn size(&self) -> (r: usize)
        ensures
            r == self.side(),
    {
        match self {
            Game::Uninitialized { size, .. } => *size,
            Game::Active { field, .. } => field.size(),
        }
    }

    /// The minefield, once the mines are laid.
    pub fn field(&self) -> (r: Option<&Minefield>)
        ensures
            match self {
                Game::Uninitialized { .. } => r is None,
                Game::Active { field, .. } => r == Some(field),
            },
    {
        match self {
            Game::Uninitialized { .. } => None,
            Game::Active { field, .. } => Some(field),
        }
    }

    /// Whether the game is lost or won.
    pub fn game_over(&self) -> (r: bool)
        ensures
            r == self.over(),
    {
        match self {
            Game::Uninitialized { .. } => false,
            Game::Active { field, .. } => field.game_over(),
        }
    }

    /// Starts the game anew: the mines will be laid at the next click.
    pub fn restart(&mut self)
        requires
            old(self).wf(),
        ensures
            final(self).wf(),
            *final(self) == (Game::Uninitialized {
                size: old(self).side() as usize,
                mines: old(self).mine_count() as usize,
            }),
    {
        let size: usize = self.size();
        let mines: usize = match self {
            Game::Uninitialized { mines, .. } => *mines,
            Game::Active { mines, .. } => *mines,
        };
        proof {
            if self.active() {
                self->field.lemma_wf_fits();
            }
        }
        *self = Game::Uninitialized { size, mines };
    }

    /// A click of the left button on the cell `(x, y)`. A click off the grid
    /// or after the end of the game does nothing. The first click has the
    /// mines laid around the clicked cell, drawn with `seed` in at most
    /// `max_draws` draws, then opens the cell and expands it; where the
    /// mines cannot be laid the game stays as it is. A later click is
    /// handled by the minefield.
    pub fn left_click(&mut self, x: usize, y: usize, seed: u64, max_draws: u64) -> (r: Result<
        (),
        GenerationError,
    >)
        requires
            old(self).wf(),
        ensures
            final(self).wf(),
            final(self).side() == old(self).side(),
            final(self).mine_count() == old(self).mine_count(),
            !old(self).takes_click(x, y) ==> r is Ok && *final(self) == *old(self),
            old(self).takes_click(x, y) && old(self).active() ==> r is Ok && final(self).active()
                && final(self).board() == old(self).board().handle_click((x as int, y as int)),
            old(self).takes_click(x, y) && !old(self).active() && !has_room(
                old(self).side(),
                old(self).mine_count(),
                (x as int, y as int),
            ) ==> r == Err::<(), GenerationError>(GenerationError::TooManyMines) && *final(self)
                == *old(self),
            old(self).takes_click(x, y) && !old(self).active() && has_room(
                old(self).side(),
                old(self).mine_count(),
                (x as int, y as int),
            ) ==> match r {
                Ok(_) => final(self).active() && old(self).mine_count() <= max_draws && exists|
                    b: Board,
                |
                    #[trigger] generated(
                        b,
                        old(self).side(),
                        old(self).mine_count(),
                        (x as int, y as int),
                    ) && final(self).board() == b.handle_click((x as int, y as int)).handle_click(
                        (x as int, y as int),
                    ),
                Err(e) => e == GenerationError::OutOfDraws && old(self).mine_count() > 0
                    && *final(self) == *old(self),
            },
    {
        if x >= self.size() || y >= self.size() || self.game_over() {
            return Ok(());
        }
        match self {
            Game::Uninitialized { size, mines } => {
                let size: usize = *size;
                let mines: usize = *mines;
                match Minefield::new_around_click(size, mines, x, y, seed, max_draws) {
                    Ok(mut field) => {
                        field.handle_click(x, y);
                        field.handle_click(x, y);
                        *self = Game::Active { field, mines };
                        Ok(())
                    },
                    Err(e) => Err(e),
                }
            },
            Game::Active { field, .. } => {
                field.handle_click(x, y);
                Ok(())
            },
        }
    }

    /// A click of the right button on the cell `(x, y)`: toggles the flag on
    /// the cell. A click off the grid, before the mines are laid or after the
    /// end of the game does nothing.
    pub fn right_click(&mut self, x: usize, y: usize)
        requires
            old(self).wf(),
        ensures
            final(self).wf(),
            final(self).side() == old(self).side(),
            final(self).mine_count() == old(self).mine_count(),
            old(self).takes_click(x, y) && old(self).active() ==> final(self).active()
                && final(self).board() == old(self).board().flag_tile((x as int, y as int)),
            !old(self).takes_click(x, y) || !old(self).active() ==> *final(self) == *old(self),
    {
        if x >= self.size() || y >= self.size() || self.game_over() {
            return ;
        }
        match self {
            Game::Uninitialized { .. } => {},
            Game::Active { field, .. } => {
                field.flag_tile(x, y);
            },
        }
    }
}

} // verus!
