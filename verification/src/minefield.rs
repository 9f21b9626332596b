//! The minefield and the operations of the game on it.

use crate::board::{adjacent, mark_after_loss, Board};
use crate::grid::lemma_cells;
use crate::laws::{
    lemma_adjacent_mines, lemma_check_win_valid, lemma_counts, lemma_flag_tile_valid,
    lemma_lay_mine_counts, lemma_lay_mine_valid, lemma_reveal_all_mines_valid,
    lemma_reveal_tile_valid,
};
use crate::tile::{Tile, TileData};
use vstd::prelude::*;
use vstd::set_lib::lemma_len_subset;

verus! {

/// The cell that a pair of indices addresses.
pub open spec fn cell(c: (usize, usize)) -> (int, int) {
    (c.0 as int, c.1 as int)
}

/// The cell `q` stands in the list `cells`.
pub open spec fn listed(cells: Seq<(usize, usize)>, q: (int, int)) -> bool {
    exists|i: int| 0 <= i < cells.len() && (#[trigger] cells[i]) == (q.0 as usize, q.1 as usize)
}

/// The cells of a grid of side `size` that are adjacent to `(x, y)`, each
/// once, row by row.
pub fn neighbours(size: usize, x: usize, y: usize) -> (r: Vec<(usize, usize)>)
    requires
        x < size,
        y < size,
    ensures
        forall|i: int|
            0 <= i < r.len() ==> (#[trigger] r[i]).0 < size && r[i].1 < size && adjacent(
                (x as int, y as int),
                cell(r[i]),
            ),
        forall|q: (int, int)|
            0 <= q.0 < size && 0 <= q.1 < size && adjacent((x as int, y as int), q) ==> listed(
                r@,
                q,
            ),
        forall|i: int, j: int| 0 <= i < j < r.len() ==> r[i] != r[j],
        forall|i: int, j: int|
            0 <= i < j < r.len() ==> r[i].1 < r[j].1 || (r[i].1 == r[j].1 && r[i].0 < r[j].0),
{
    let lo_x: usize = if x > 0 {
        x - 1
    } else {
        x
    };
    let hi_x: usize = if x + 1 < size {
        x + 2
    } else {
        size
    };
    let lo_y: usize = if y > 0 {
        y - 1
    } else {
        y
    };
    let hi_y: usize = if y + 1 < size {
        y + 2
    } else {
        size
    };
    let mut r: Vec<(usize, usize)> = Vec::new();
    let mut ny: usize = lo_y;
    while ny < hi_y
        invariant
            lo_x <= x < hi_x <= size,
            lo_y <= y < hi_y <= size,
            lo_x == 0 || lo_x == x - 1,
            hi_x == size || hi_x == x + 2,
            lo_y == 0 || lo_y == y - 1,
            hi_y == size || hi_y == y + 2,
            lo_y <= ny <= hi_y,
            forall|i: int|
                0 <= i < r.len() ==> lo_x <= (#[trigger] r[i]).0 < hi_x && lo_y <= r[i].1 < ny
                    && r[i] != (x, y),
            forall|q: (int, int)|
                lo_x <= q.0 < hi_x && lo_y <= q.1 < ny && q != (x as int, y as int)
                    ==> #[trigger] listed(r@, q),
            forall|i: int, j: int|
                0 <= i < j < r.len() ==> r[i].1 < r[j].1 || (r[i].1 == r[j].1 && r[i].0 < r[j].0),
        decreases hi_y - ny,
    {
        let mut nx: usize = lo_x;
        while nx < hi_x
            invariant
                lo_x <= nx <= hi_x <= size,
                lo_y <= ny < hi_y <= size,
                forall|i: int|
                    0 <= i < r.len() ==> lo_x <= (#[trigger] r[i]).0 < hi_x && lo_y <= r[i].1 <= ny
                        && (r[i].1 == ny ==> r[i].0 < nx) && r[i] != (x, y),
                forall|q: (int, int)|
                    lo_x <= q.0 < hi_x && lo_y <= q.1 <= ny && (q.1 == ny ==> q.0 < nx) && q != (
                        x as int,
                        y as int,
                    ) ==> #[trigger] listed(r@, q),
                forall|i: int, j: int|
                    0 <= i < j < r.len() ==> r[i].1 < r[j].1 || (r[i].1 == r[j].1 && r[i].0
                        < r[j].0),
            decreases hi_x - nx,
        {
            if nx != x || ny != y {
                let ghost before = r@;
                r.push((nx, ny));
                proof {
                    assert forall|q: (int, int)|
                        lo_x <= q.0 < hi_x && lo_y <= q.1 <= ny && (q.1 == ny ==> q.0 < nx + 1)
                            && q != (x as int, y as int) implies #[trigger] listed(r@, q) by {
                        if q == (nx as int, ny as int) {
                            assert(r[before.len() as int] == (nx, ny));
                        } else {
                            assert(listed(before, q));
                            let i = choose|i: int|
                                0 <= i < before.len() && (#[trigger] before[i]) == (
                                    q.0 as usize,
                                    q.1 as usize,
                                );
                            assert(r[i] == before[i]);
                        }
                    }
                }
            }
            nx += 1;
        }
        ny += 1;
    }
    r
}

/// A square minefield with the state of the game played on it.
#[derive(Clone, Debug, PartialEq, Eq)]
pub struct Minefield {
    field: Vec<Vec<(Tile, TileData)>>,
    size: usize,
    has_lost: bool,
    has_won: bool,
    remaining_flags: usize,
}

impl View for Minefield {
    type V = Board;

    closed spec fn view(&self) -> Board {
        Board {
            size: self.size as nat,
            mines: Set::new(
                |p: (int, int)|
                    0 <= p.0 < self.size && 0 <= p.1 < self.size && self.field[p.0][p.1].0 is Mine,
            ),
            marks: Map::new(
                |p: (int, int)| 0 <= p.0 < self.size && 0 <= p.1 < self.size,
                |p: (int, int)| self.field[p.0][p.1].1,
            ),
            remaining_flags: self.remaining_flags as nat,
            lost: self.has_lost,
            won: self.has_won,
        }
    }
}

impl Minefield {
    /// The grid holds `size` columns of `size` cells each, which can be
    /// counted in `usize`.
    spec fn shaped(&self) -> bool {
        &&& self.size * self.size <= usize::MAX
        &&& self.field.len() == self.size
        &&& forall|x: int| 0 <= x < self.size ==> (#[trigger] self.field[x]).len() == self.size
    }

    /// Every stored content is the one that the mines determine.
    spec fn counted(&self) -> bool {
        forall|x: int, y: int|
            0 <= x < self.size && 0 <= y < self.size ==> (#[trigger] self.field[x][y]).0
                == self@.tile((x, y))
    }

    /// The representation invariant: the grid is square, every stored content
    /// is the one that the mines determine, and the model is valid.
    pub closed spec fn wf(&self) -> bool {
        &&& self.shaped()
        &&& self.counted()
        &&& self@.valid()
    }

    /// The model of a well-formed minefield is valid.
    pub proof fn lemma_wf_valid(&self)
        requires
            self.wf(),
        ensures
            self@.valid(),
    {
    }

    /// The cells of a well-formed minefield can be counted in `usize`.
    pub proof fn lemma_wf_fits(&self)
        requires
            self.wf(),
        ensures
            self@.size * self@.size <= usize::MAX,
    {
    }

    /// The side of the grid.
    pub fn size(&self) -> (r: usize)
        ensures
            r == self@.size,
    {
        self.size
    }

    /// The flags that the player may still place.
    pub fn remaining_flags(&self) -> (r: usize)
        ensures
            r == self@.remaining_flags,
    {
        self.remaining_flags
    }

    /// Whether the player opened a mine.
    pub fn has_lost(&self) -> (r: bool)
        ensures
            r == self@.lost,
    {
        self.has_lost
    }

    /// Whether the last evaluation found the game won.
    pub fn has_won(&self) -> (r: bool)
        ensures
            r == self@.won,
    {
        self.has_won
    }

    /// Whether the game is lost or won.
    pub fn game_over(&self) -> (r: bool)
        ensures
            r == (self@.lost || self@.won),
    {
        self.has_lost || self.has_won
    }

    /// The content of the cell `(x, y)`.
    pub fn tile(&self, x: usize, y: usize) -> (r: Tile)
        requires
            self.wf(),
            x < self@.size,
            y < self@.size,
        ensures
            r == self@.tile((x as int, y as int)),
    {
        self.field[x][y].0
    }

    /// What the player sees of the cell `(x, y)`.
    pub fn data(&self, x: usize, y: usize) -> (r: TileData)
        requires
            self.wf(),
            x < self@.size,
            y < self@.size,
        ensures
            r == self@.marks[(x as int, y as int)],
    {
        self.field[x][y].1
    }

    fn set_data(&mut self, x: usize, y: usize, data: TileData)
        requires
            old(self).shaped(),
            x < old(self).size,
            y < old(self).size,
        ensures
            final(self).shaped(),
            final(self).size == old(self).size,
            final(self).has_lost == old(self).has_lost,
            final(self).has_won == old(self).has_won,
            final(self).remaining_flags == old(self).remaining_flags,
            final(self).field[x as int][y as int] == (old(self).field[x as int][y as int].0, data),
            forall|i: int, j: int|
                0 <= i < old(self).size && 0 <= j < old(self).size && (i != x || j != y) ==> (
                #[trigger] final(self).field[i][j]) == old(self).field[i][j],
            final(self)@ == (Board {
                marks: old(self)@.marks.insert((x as int, y as int), data),
                ..old(self)@
            }),
            old(self).counted() ==> final(self).counted(),
    {
        self.field[x][y].1 = data;
        proof {
            assert(self@.marks =~= old(self)@.marks.insert((x as int, y as int), data));
            assert(self@.mines =~= old(self)@.mines);
        }
    }

    fn set_tile(&mut self, x: usize, y: usize, tile: Tile)
        requires
            old(self).shaped(),
            x < old(self).size,
            y < old(self).size,
        ensures
            final(self).shaped(),
            final(self).size == old(self).size,
            final(self).has_lost == old(self).has_lost,
            final(self).has_won == old(self).has_won,
            final(self).remaining_flags == old(self).remaining_flags,
            final(self).field[x as int][y as int] == (tile, old(self).field[x as int][y as int].1),
            forall|i: int, j: int|
                0 <= i < old(self).size && 0 <= j < old(self).size && (i != x || j != y) ==> (
                #[trigger] final(self).field[i][j]) == old(self).field[i][j],
    {
        self.field[x][y].0 = tile;
    }

    /// A field of `size` by `size` unknown cells without any mine.
    pub fn empty(size: usize) -> (r: Self)
        requires
            size * size <= usize::MAX,
        ensures
            r.wf(),
            r@ == Board::empty(size as nat),
    {
        let mut field: Vec<Vec<(Tile, TileData)>> = Vec::new();
        let mut x: usize = 0;
        while x < size
            invariant
                x <= size,
                field.len() == x,
                forall|i: int| 0 <= i < x ==> (#[trigger] field[i]).len() == size,
                forall|i: int, j: int|
                    0 <= i < x && 0 <= j < size ==> (#[trigger] field[i][j]) == (
                        Tile::Clear(0),
                        TileData::Unknown,
                    ),
            decreases size - x,
        {
            let mut row: Vec<(Tile, TileData)> = Vec::new();
            let mut y: usize = 0;
            while y < size
                invariant
                    y <= size,
                    row.len() == y,
                    forall|j: int|
                        0 <= j < y ==> (#[trigger] row[j]) == (Tile::Clear(0), TileData::Unknown),
                decreases size - y,
            {
                row.push((Tile::Clear(0), TileData::Unknown));
                y += 1;
            }
            field.push(row);
            x += 1;
        }
        let r = Self { field, size, has_lost: false, has_won: false, remaining_flags: 0 };
        proof {
            assert(r@.mines =~= Set::<(int, int)>::empty());
            assert(r@.marks =~= Board::empty(size as nat).marks);
            assert(r@.flags() =~= Set::<(int, int)>::empty());
            assert(r@.marked(TileData::WrongFlag) =~= Set::<(int, int)>::empty());
            assert(r@.marks.dom() =~= r@.cells());
            assert forall|x: int, y: int| 0 <= x < size && 0 <= y < size implies (
            #[trigger] r.field[x][y]).0 == r@.tile((x, y)) by {
                assert(r@.mines_around((x, y)) =~= Set::<(int, int)>::empty());
            }
        }
        r
    }

    /// Lays a mine on the cell `(x, y)`, unless one lies there, and counts it
    /// on the cells around it and among the flags to place. The cell must
    /// not show a wrong flag, which stands on safe cells only.
    pub fn place_mine(&mut self, x: usize, y: usize) -> (placed: bool)
        requires
            old(self).wf(),
            x < old(self)@.size,
            y < old(self)@.size,
            old(self)@.marks[(x as int, y as int)] != TileData::WrongFlag,
        ensures
            final(self).wf(),
            placed == !old(self)@.mines.contains((x as int, y as int)),
            final(self)@ == if placed {
                old(self)@.lay_mine((x as int, y as int))
            } else {
                old(self)@
            },
    {
        if let Tile::Mine = self.field[x][y].0 {
            return false;
        }
        let ghost p = (x as int, y as int);
        let ghost start = self@;
        let ghost laid = self@.lay_mine(p);
        proof {
            lemma_counts(start);
            lemma_cells(start);
            lemma_lay_mine_valid(start, p);
            lemma_len_subset(start.mines.insert(p), start.cells());
        }
        self.remaining_flags += 1;
        self.set_tile(x, y, Tile::Mine);
        let around = neighbours(self.size, x, y);
        let mut k: usize = 0;
        while k < around.len()
            invariant
                old(self).wf(),
                start == old(self)@,
                laid == start.lay_mine(p),
                p == (x as int, y as int),
                !start.mines.contains(p),
                x < self.size,
                y < self.size,
                self.shaped(),
                self.size == old(self).size,
                self.has_lost == old(self).has_lost,
                self.has_won == old(self).has_won,
                self.remaining_flags == old(self).remaining_flags + 1,
                k <= around.len(),
                forall|i: int|
                    0 <= i < around.len() ==> (#[trigger] around[i]).0 < self.size && around[i].1
                        < self.size && adjacent(p, (around[i].0 as int, around[i].1 as int)),
                forall|i: int, j: int| 0 <= i < j < around.len() ==> around[i] != around[j],
                forall|q: (int, int)|
                    0 <= q.0 < self.size && 0 <= q.1 < self.size && adjacent(p, q) ==> listed(
                        around@,
                        q,
                    ),
                self.field[x as int][y as int] == (Tile::Mine, old(self).field[x as int][y as int].1),
                forall|i: int, j: int|
                    0 <= i < self.size && 0 <= j < self.size ==> (#[trigger] self.field[i][j]).1
                        == old(self).field[i][j].1,
                forall|i: int, j: int|
                    0 <= i < self.size && 0 <= j < self.size && (i, j) != p && !adjacent(p, (i, j))
                        ==> (#[trigger] self.field[i][j]).0 == old(self).field[i][j].0,
                forall|m: int|
                    0 <= m < k ==> self.field[(#[trigger] around[m]).0 as int][around[m].1 as int].0
                        == laid.tile((around[m].0 as int, around[m].1 as int)),
                forall|m: int|
                    k <= m < around.len() ==> self.field[(#[trigger] around[m]).0 as int][around[m].1 as int].0
                        == old(self).field[around[m].0 as int][around[m].1 as int].0,
            decreases around.len() - k,
        {
            let (nx, ny) = around[k];
            let ghost c = (nx as int, ny as int);
            proof {
                lemma_lay_mine_counts(start, p, c);
                lemma_adjacent_mines(laid, c);
                lemma_adjacent_mines(start, c);
            }
            if let Tile::Clear(value) = self.field[nx][ny].0 {
                self.set_tile(nx, ny, Tile::Clear(value + 1));
            }
            k += 1;
        }
        proof {
            assert(self@.mines =~= laid.mines);
            assert(self@.marks =~= laid.marks);
            assert forall|i: int, j: int| 0 <= i < self.size && 0 <= j < self.size implies (
            #[trigger] self.field[i][j]).0 == self@.tile((i, j)) by {
                let c = (i, j);
                lemma_lay_mine_counts(start, p, c);
                if c != p && adjacent(p, c) {
                    assert(listed(around@, c));
                    let m = choose|m: int|
                        0 <= m < around.len() && (#[trigger] around[m]) == (
                            c.0 as usize,
                            c.1 as usize,
                        );
                    assert(self.field[i][j].0 == laid.tile(cell(around[m])));
                }
            }
        }
        true
    }

    /// Whether the game is won as the field stands: it is not lost, no flag
    /// is left to place, every flag stands on a mine, and no cell is unknown.
    pub fn is_winning(&self) -> (r: bool)
        requires
            self.wf(),
        ensures
            r == self@.winning(),
    {
        if self.has_lost {
            return false;
        }
        if self.remaining_flags != 0 {
            return false;
        }
        let mut x: usize = 0;
        while x < self.size
            invariant
                self.wf(),
                x <= self.size,
                forall|i: int, j: int|
                    0 <= i < x && 0 <= j < self.size ==> {
                        &&& (#[trigger] self.field[i][j]).1 != TileData::Unknown
                        &&& self.field[i][j].1 == TileData::Flagged ==> self.field[i][j].0 is Mine
                    },
            decreases self.size - x,
        {
            let mut y: usize = 0;
            while y < self.size
                invariant
                    self.wf(),
                    x < self.size,
                    y <= self.size,
                    forall|j: int|
                        0 <= j < y ==> {
                            &&& (#[trigger] self.field[x as int][j]).1 != TileData::Unknown
                            &&& self.field[x as int][j].1 == TileData::Flagged
                                ==> self.field[x as int][j].0 is Mine
                        },
                decreases self.size - y,
            {
                match self.field[x][y].1 {
                    TileData::Flagged => {
                        if let Tile::Clear(_) = self.field[x][y].0 {
                            assert(self@.marks[(x as int, y as int)] == TileData::Flagged);
                            return false;
                        }
                    },
                    TileData::Unknown => {
                        return false;
                    },
                    _ => {},
                }
                y += 1;
            }
            x += 1;
        }
        proof {
            assert forall|p: (int, int)| self@.in_bounds(p) implies #[trigger] self@.marks[p]
                != TileData::Unknown by {
                assert(self.field[p.0][p.1].1 != TileData::Unknown);
            }
            assert forall|p: (int, int)|
                self@.in_bounds(p) && #[trigger] self@.marks[p]
                    == TileData::Flagged implies self@.mines.contains(p) by {
                assert(self.field[p.0][p.1].0 is Mine);
            }
        }
        true
    }

    /// Evaluates the win anew.
    pub fn check_win(&mut self)
        requires
            old(self).wf(),
        ensures
            final(self).wf(),
            final(self)@ == old(self)@.check_win(),
    {
        let won = self.is_winning();
        self.has_won = won;
        proof {
            lemma_check_win_valid(old(self)@);
        }
    }

    /// Toggles the flag on the cell `(x, y)`: takes a flag back, or places one
    /// where one is left to place. Evaluates the win when the last flag has
    /// been placed.
    pub fn flag_tile(&mut self, x: usize, y: usize)
        requires
            old(self).wf(),
            x < old(self)@.size,
            y < old(self)@.size,
        ensures
            final(self).wf(),
            final(self)@ == old(self)@.flag_tile((x as int, y as int)),
    {
        proof {
            lemma_counts(self@);
            lemma_flag_tile_valid(self@, (x as int, y as int));
        }
        match self.field[x][y].1 {
            TileData::Flagged => {
                self.set_data(x, y, TileData::Unknown);
                self.remaining_flags += 1;
            },
            TileData::Unknown => {
                if self.remaining_flags > 0 {
                    self.set_data(x, y, TileData::Flagged);
                    self.remaining_flags -= 1;
                    if self.remaining_flags == 0 {
                        proof {
                            let placed = Board {
                                marks: old(self)@.marks.insert(
                                    (x as int, y as int),
                                    TileData::Flagged,
                                ),
                                remaining_flags: 0,
                                ..old(self)@
                            };
                            lemma_valid_without_win(placed.check_win(), placed);
                        }
                        self.check_win();
                    }
                }
            },
            _ => {},
        }
    }

    /// Shows every unknown mine and marks every flag that stands on a safe
    /// cell as wrong. Flags on mines stay.
    pub fn reveal_all_mines(&mut self)
        requires
            old(self).wf(),
            old(self)@.lost,
        ensures
            final(self).wf(),
            final(self)@ == old(self)@.reveal_all_mines(),
    {
        let mut x: usize = 0;
        while x < self.size
            invariant
                old(self).wf(),
                self.shaped(),
                self.size == old(self).size,
                self.has_lost == old(self).has_lost,
                self.has_won == old(self).has_won,
                self.remaining_flags == old(self).remaining_flags,
                x <= self.size,
                forall|i: int, j: int|
                    0 <= i < self.size && 0 <= j < self.size ==> (#[trigger] self.field[i][j]) == (
                        old(self).field[i][j].0,
                        if i < x {
                            mark_after_loss(old(self).field[i][j].0 is Mine, old(self).field[i][j].1)
                        } else {
                            old(self).field[i][j].1
                        },
                    ),
            decreases self.size - x,
        {
            let mut y: usize = 0;
            while y < self.size
                invariant
                    old(self).wf(),
                    self.shaped(),
                    self.size == old(self).size,
                    self.has_lost == old(self).has_lost,
                    self.has_won == old(self).has_won,
                    self.remaining_flags == old(self).remaining_flags,
                    x < self.size,
                    y <= self.size,
                    forall|i: int, j: int|
                        0 <= i < self.size && 0 <= j < self.size ==> (#[trigger] self.field[i][j])
                            == (
                            old(self).field[i][j].0,
                            if i < x || (i == x && j < y) {
                                mark_after_loss(
                                    old(self).field[i][j].0 is Mine,
                                    old(self).field[i][j].1,
                                )
                            } else {
                                old(self).field[i][j].1
                            },
                        ),
                decreases self.size - y,
            {
                match self.field[x][y].0 {
                    Tile::Mine => {
                        if let TileData::Unknown = self.field[x][y].1 {
                            self.set_data(x, y, TileData::Known);
                        }
                    },
                    Tile::Clear(_) => {
                        if let TileData::Flagged = self.field[x][y].1 {
                            self.set_data(x, y, TileData::WrongFlag);
                        }
                    },
                }
                y += 1;
            }
            x += 1;
        }
        proof {
            assert(self@.mines =~= old(self)@.mines);
            assert(self@.marks =~= old(self)@.reveal_all_mines().marks);
            lemma_reveal_all_mines_valid(old(self)@);
        }
    }

    /// Opens the unknown cell `(x, y)`. A safe cell becomes known; a mine
    /// loses the game and has all mines shown.
    pub fn reveal_tile(&mut self, x: usize, y: usize)
        requires
            old(self).wf(),
            x < old(self)@.size,
            y < old(self)@.size,
            old(self)@.marks[(x as int, y as int)] == TileData::Unknown,
        ensures
            final(self).wf(),
            final(self)@ == old(self)@.reveal_tile((x as int, y as int)),
    {
        proof {
            lemma_reveal_tile_valid(self@, (x as int, y as int));
        }
        if let Tile::Mine = self.field[x][y].0 {
            self.has_lost = true;
            proof {
                let l = Board { lost: true, ..old(self)@ };
                assert(l.cells() =~= old(self)@.cells());
                assert(l.flags() =~= old(self)@.flags());
            }
            self.reveal_all_mines();
            return ;
        }
        self.set_data(x, y, TileData::Known);
    }
}

/// Validity does not depend on whether the game is held won.
proof fn lemma_valid_without_win(b: Board, c: Board)
    requires
        b.valid(),
        c == (Board { won: c.won, ..b }),
    ensures
        c.valid(),
{
    assert(c.cells() =~= b.cells());
    assert(c.flags() =~= b.flags());
    assert(c.marked(TileData::WrongFlag) =~= b.marked(TileData::WrongFlag));
}

} // verus!
