//! The mathematical model of a minefield and of the moves of the game.

use crate::tile::{Tile, TileData};
use vstd::prelude::*;

verus! {

/// Two distinct cells that touch by a side or a corner.
pub open spec fn adjacent(p: (int, int), q: (int, int)) -> bool {
    &&& p != q
    &&& -1 <= p.0 - q.0 <= 1
    &&& -1 <= p.1 - q.1 <= 1
}

/// What the mark `mark` on a cell becomes when the game is lost: an unknown
/// mine is shown, a flag on a safe cell is shown to be wrong.
pub open spec fn mark_after_loss(mine: bool, mark: TileData) -> TileData {
    if mine && mark == TileData::Unknown {
        TileData::Known
    } else if !mine && mark == TileData::Flagged {
        TileData::WrongFlag
    } else {
        mark
    }
}

/// The abstract state of a minefield: a square grid of `size` by `size`
/// cells, addressed by `(x, y)`.
pub struct Board {
    /// The side of the grid.
    pub size: nat,
    /// The cells that hold a mine.
    pub mines: Set<(int, int)>,
    /// What the player sees of each cell.
    pub marks: Map<(int, int), TileData>,
    /// The flags the player may still place.
    pub remaining_flags: nat,
    /// The player opened a mine.
    pub lost: bool,
    /// The last evaluation found the game won.
    pub won: bool,
}

impl Board {
    /// `p` lies on the grid.
    pub open spec fn in_bounds(self, p: (int, int)) -> bool {
        0 <= p.0 < self.size && 0 <= p.1 < self.size
    }

    /// All cells of the grid.
    pub open spec fn cells(self) -> Set<(int, int)> {
        Set::new(|p: (int, int)| self.in_bounds(p))
    }

    /// The mines on the cells adjacent to `p`.
    pub open spec fn mines_around(self, p: (int, int)) -> Set<(int, int)> {
        Set::new(|q: (int, int)| self.mines.contains(q) && adjacent(p, q))
    }

    /// The number of mines adjacent to `p`.
    pub open spec fn adjacent_mines(self, p: (int, int)) -> nat {
        self.mines_around(p).len()
    }

    /// The content of the cell `p`.
    pub open spec fn tile(self, p: (int, int)) -> Tile {
        if self.mines.contains(p) {
            Tile::Mine
        } else {
            Tile::Clear(self.adjacent_mines(p) as u8)
        }
    }

    /// The cells on which `mark` stands.
    pub open spec fn marked(self, mark: TileData) -> Set<(int, int)> {
        Set::new(|p: (int, int)| self.in_bounds(p) && self.marks[p] == mark)
    }

    /// The cells that carry a flag, right or wrong.
    pub open spec fn flags(self) -> Set<(int, int)> {
        Set::new(
            |p: (int, int)|
                self.in_bounds(p) && (self.marks[p] == TileData::Flagged || self.marks[p]
                    == TileData::WrongFlag),
        )
    }

    /// The invariant of a minefield: the mines lie on the grid, every cell has
    /// a mark, each mine is matched by a flag placed or still to place, and
    /// wrong flags are shown only on safe cells of a lost game.
    pub open spec fn valid(self) -> bool {
        &&& self.mines.subset_of(self.cells())
        &&& self.marks.dom() == self.cells()
        &&& self.remaining_flags + self.flags().len() == self.mines.len()
        &&& self.marked(TileData::WrongFlag).disjoint(self.mines)
        &&& !self.lost ==> self.marked(TileData::WrongFlag) == Set::<(int, int)>::empty()
    }

    /// The board of side `size` without a mine, of which nothing is known.
    pub open spec fn empty(size: nat) -> Board {
        Board {
            size,
            mines: Set::empty(),
            marks: Map::new(
                |p: (int, int)| 0 <= p.0 < size && 0 <= p.1 < size,
                |p: (int, int)| TileData::Unknown,
            ),
            remaining_flags: 0,
            lost: false,
            won: false,
        }
    }

    /// The board with one more mine, on `p`, and one more flag to place.
    pub open spec fn lay_mine(self, p: (int, int)) -> Board {
        Board {
            mines: self.mines.insert(p),
            remaining_flags: self.remaining_flags + 1,
            ..self
        }
    }

    /// The game is won: it is not lost, every flag is placed, every flag
    /// stands on a mine, and no cell is unknown.
    pub open spec fn winning(self) -> bool {
        &&& !self.lost
        &&& self.remaining_flags == 0
        &&& forall|p: (int, int)|
            self.in_bounds(p) ==> #[trigger] self.marks[p] != TileData::Unknown
        &&& forall|p: (int, int)|
            self.in_bounds(p) && #[trigger] self.marks[p] == TileData::Flagged
                ==> self.mines.contains(p)
    }

    /// The board after the win has been evaluated anew.
    pub open spec fn check_win(self) -> Board {
        Board { won: self.winning(), ..self }
    }

    /// The board after the flag on `p` has been toggled: a flag is taken
    /// back, or placed where one is left to place, and the win is evaluated
    /// when the last flag has been placed.
    pub open spec fn flag_tile(self, p: (int, int)) -> Board {
        match self.marks[p] {
            TileData::Flagged => Board {
                marks: self.marks.insert(p, TileData::Unknown),
                remaining_flags: self.remaining_flags + 1,
                ..self
            },
            TileData::Unknown => if self.remaining_flags > 0 {
                let placed = Board {
                    marks: self.marks.insert(p, TileData::Flagged),
                    remaining_flags: (self.remaining_flags - 1) as nat,
                    ..self
                };
                if placed.remaining_flags == 0 {
                    placed.check_win()
                } else {
                    placed
                }
            } else {
                self
            },
            _ => self,
        }
    }

    /// The board after the flags on `cells` have been toggled one after
    /// another.
    pub open spec fn flag_tiles(self, cells: Seq<(int, int)>) -> Board
        decreases cells.len(),
    {
        if cells.len() == 0 {
            self
        } else {
            self.flag_tiles(cells.drop_last()).flag_tile(cells.last())
        }
    }

    /// The board after every mine has been shown and every wrong flag marked.
    pub open spec fn reveal_all_mines(self) -> Board {
        Board {
            marks: Map::new(
                |p: (int, int)| self.in_bounds(p),
                |p: (int, int)| mark_after_loss(self.mines.contains(p), self.marks[p]),
            ),
            ..self
        }
    }

    /// The board after the cell `p` has been opened: a safe cell becomes
    /// known, a mine loses the game.
    pub open spec fn reveal_tile(self, p: (int, int)) -> Board {
        if self.mines.contains(p) {
            (Board { lost: true, ..self }).reveal_all_mines()
        } else {
            Board { marks: self.marks.insert(p, TileData::Known), ..self }
        }
    }

    /// The unknown cell `p` is reached from `origin` by a chain of at most
    /// `n + 1` unknown cells: the first is adjacent to `origin`, each is
    /// adjacent to the one before it, and all but `p` have no mine around
    /// them.
    pub open spec fn spreads_to(self, origin: (int, int), p: (int, int), n: nat) -> bool
        decreases n,
    {
        &&& self.in_bounds(p)
        &&& self.marks[p] == TileData::Unknown
        &&& (adjacent(origin, p) || (n > 0 && exists|q: (int, int)|
            #[trigger] adjacent(q, p) && self.tile(q) == Tile::Clear(0) && self.spreads_to(
                origin,
                q,
                (n - 1) as nat,
            )))
    }

    /// An expansion of `origin` opens `p`.
    pub open spec fn floods(self, origin: (int, int), p: (int, int)) -> bool {
        exists|n: nat| self.spreads_to(origin, p, n)
    }

    /// The flagged cells adjacent to `p`.
    pub open spec fn flags_around(self, p: (int, int)) -> Set<(int, int)> {
        Set::new(
            |q: (int, int)|
                self.in_bounds(q) && adjacent(p, q) && self.marks[q] == TileData::Flagged,
        )
    }

    /// The cell `p` is safe and at least as many flags stand around it as
    /// mines lie around it.
    pub open spec fn expands(self, p: (int, int)) -> bool {
        !self.mines.contains(p) && self.flags_around(p).len() >= self.adjacent_mines(p)
    }

    /// An unknown mine is adjacent to `p`.
    pub open spec fn explodes(self, p: (int, int)) -> bool {
        exists|q: (int, int)|
            self.in_bounds(q) && adjacent(p, q) && self.marks[q] == TileData::Unknown
                && #[trigger] self.mines.contains(q)
    }

    /// The board on which every cell that an expansion of `origin` opens is
    /// known.
    pub open spec fn flooded(self, origin: (int, int)) -> Board {
        Board {
            marks: Map::new(
                |p: (int, int)| self.in_bounds(p),
                |p: (int, int)|
                    if self.floods(origin, p) {
                        TileData::Known
                    } else {
                        self.marks[p]
                    },
            ),
            ..self
        }
    }

    /// The board after the known cell `p` has been expanded: nothing changes
    /// unless enough flags stand around `p`; else the unknown cells around
    /// `p` are opened, and so on around every opened cell without a mine
    /// around it. Where a mine is among them the game is lost.
    pub open spec fn try_expand_tile(self, p: (int, int)) -> Board {
        if !self.expands(p) {
            self
        } else if self.explodes(p) {
            (Board { lost: true, ..self.flooded(p) }).reveal_all_mines()
        } else {
            self.flooded(p)
        }
    }

    /// The board after a click on `p`: an unknown cell is opened, a known
    /// cell is expanded, and the win is evaluated.
    pub open spec fn handle_click(self, p: (int, int)) -> Board {
        match self.marks[p] {
            TileData::Unknown => self.reveal_tile(p).check_win(),
            TileData::Known => self.try_expand_tile(p).check_win(),
            _ => self.check_win(),
        }
    }
}

} // verus!
