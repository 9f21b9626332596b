//! The moves of the player: expanding a known cell and clicking.

use crate::board::adjacent;
use crate::flood::{
    lemma_flooded_mine, lemma_floods_start, lemma_floods_step, lemma_rest_is_expansion,
    lemma_reveal_tile_unknown, mark_in_progress,
};
use crate::laws::{lemma_adjacent_mines, lemma_flags_around};
use crate::minefield::{cell, listed, neighbours, Minefield};
use crate::tile::{Tile, TileData};
use vstd::prelude::*;
use vstd::set_lib::lemma_len_subset;

verus! {

/// A cell listed in `cells` is listed without the last entry, or is the last
/// entry.
proof fn lemma_listed_without_last(cells: Seq<(usize, usize)>, q: (int, int))
    requires
        cells.len() > 0,
        listed(cells, q),
    ensures
        listed(cells.drop_last(), q) || cells.last() == (q.0 as usize, q.1 as usize),
{
    let i = choose|i: int|
        0 <= i < cells.len() && (#[trigger] cells[i]) == (q.0 as usize, q.1 as usize);
    if i < cells.len() - 1 {
        assert(cells.drop_last()[i] == cells[i]);
    }
}

/// A cell listed in one of two lists is listed in the two joined.
proof fn lemma_listed_joined(
    cells: Seq<(usize, usize)>,
    more: Seq<(usize, usize)>,
    q: (int, int),
)
    requires
        listed(cells, q) || listed(more, q),
    ensures
        listed(cells + more, q),
{
    if listed(cells, q) {
        let i = choose|i: int|
            0 <= i < cells.len() && (#[trigger] cells[i]) == (q.0 as usize, q.1 as usize);
        assert((cells + more)[i] == cells[i]);
    } else {
        let i = choose|i: int|
            0 <= i < more.len() && (#[trigger] more[i]) == (q.0 as usize, q.1 as usize);
        assert((cells + more)[cells.len() + i] == more[i]);
    }
}

impl Minefield {
    /// The number of flags on the cells around `(x, y)`.
    fn count_flags_around(&self, x: usize, y: usize) -> (count: u8)
        requires
            self.wf(),
            x < self@.size,
            y < self@.size,
        ensures
            count == self@.flags_around((x as int, y as int)).len(),
    {
        let ghost p = (x as int, y as int);
        let around = neighbours(self.size(), x, y);
        let mut count: u8 = 0;
        let ghost mut seen = Set::<(int, int)>::empty();
        let mut k: usize = 0;
        while k < around.len()
            invariant
                self.wf(),
                p == (x as int, y as int),
                k <= around.len(),
                forall|i: int|
                    0 <= i < around.len() ==> (#[trigger] around[i]).0 < self@.size && around[i].1
                        < self@.size && adjacent(p, cell(around[i])),
                forall|i: int, j: int| 0 <= i < j < around.len() ==> around[i] != around[j],
                seen.finite(),
                count == seen.len(),
                seen.subset_of(self@.flags_around(p)),
                forall|m: int|
                    0 <= m < k && self@.marks[cell(#[trigger] around[m])] == TileData::Flagged
                        ==> seen.contains(cell(around[m])),
                forall|m: int| k <= m < around.len() ==> !seen.contains(cell(#[trigger] around[m])),
            decreases around.len() - k,
        {
            let (nx, ny) = around[k];
            if let TileData::Flagged = self.data(nx, ny) {
                proof {
                    lemma_flags_around(self@, p);
                    lemma_len_subset(seen.insert((nx as int, ny as int)), self@.flags_around(p));
                }
                count += 1;
                proof {
                    seen = seen.insert((nx as int, ny as int));
                }
            }
            k += 1;
        }
        proof {
            assert forall|q: (int, int)| self@.flags_around(p).contains(q) implies seen.contains(
                q,
            ) by {
                assert(listed(around@, q));
                let m = choose|m: int|
                    0 <= m < around.len() && (#[trigger] around[m]) == (q.0 as usize, q.1 as usize);
                assert(cell(around[m]) == q);
            }
            assert(seen =~= self@.flags_around(p));
        }
        count
    }

    /// The unknown cells around `(x, y)`.
    fn unknown_around(&self, x: usize, y: usize) -> (found: Vec<(usize, usize)>)
        requires
            self.wf(),
            x < self@.size,
            y < self@.size,
        ensures
            forall|i: int|
                0 <= i < found.len() ==> (#[trigger] found[i]).0 < self@.size && found[i].1
                    < self@.size && adjacent((x as int, y as int), cell(found[i]))
                    && self@.marks[cell(found[i])] == TileData::Unknown,
            forall|q: (int, int)|
                self@.in_bounds(q) && adjacent((x as int, y as int), q) && self@.marks[q]
                    == TileData::Unknown ==> listed(found@, q),
    {
        let ghost p = (x as int, y as int);
        let around = neighbours(self.size(), x, y);
        let mut found: Vec<(usize, usize)> = Vec::new();
        let mut k: usize = 0;
        while k < around.len()
            invariant
                self.wf(),
                p == (x as int, y as int),
                k <= around.len(),
                forall|i: int|
                    0 <= i < around.len() ==> (#[trigger] around[i]).0 < self@.size && around[i].1
                        < self@.size && adjacent(p, cell(around[i])),
                forall|i: int|
                    0 <= i < found.len() ==> (#[trigger] found[i]).0 < self@.size && found[i].1
                        < self@.size && adjacent(p, cell(found[i])) && self@.marks[cell(found[i])]
                        == TileData::Unknown,
                forall|m: int|
                    0 <= m < k && self@.marks[cell(#[trigger] around[m])] == TileData::Unknown
                        ==> listed(found@, cell(around[m])),
            decreases around.len() - k,
        {
            let (nx, ny) = around[k];
            if let TileData::Unknown = self.data(nx, ny) {
                let ghost before = found@;
                found.push((nx, ny));
                proof {
                    assert(found@ == before + seq![(nx, ny)]);
                    assert(found[before.len() as int] == (nx, ny));
                    assert forall|m: int|
                        0 <= m < k && self@.marks[cell(#[trigger] around[m])]
                            == TileData::Unknown implies listed(found@, cell(around[m])) by {
                        lemma_listed_joined(before, seq![(nx, ny)], cell(around[m]));
                    }
                }
            }
            k += 1;
        }
        proof {
            assert forall|q: (int, int)|
                self@.in_bounds(q) && adjacent(p, q) && self@.marks[q]
                    == TileData::Unknown implies listed(found@, q) by {
                assert(listed(around@, q));
                let m = choose|m: int|
                    0 <= m < around.len() && (#[trigger] around[m]) == (q.0 as usize, q.1 as usize);
                assert(cell(around[m]) == q);
            }
        }
        found
    }

    /// Expands the known cell `(x, y)`. Nothing happens on a mine, nor where
    /// fewer flags stand around the cell than mines lie around it. Else the
    /// unknown cells around it are opened, and in turn the unknown cells
    /// around every opened cell that counts no mine. Flagged cells stay
    /// closed. Where a mine is opened the game is lost.
    pub fn try_expand_tile(&mut self, x: usize, y: usize)
        requires
            old(self).wf(),
            x < old(self)@.size,
            y < old(self)@.size,
            old(self)@.marks[(x as int, y as int)] == TileData::Known,
        ensures
            final(self).wf(),
            final(self)@ == old(self)@.try_expand_tile((x as int, y as int)),
    {
        let ghost origin = (x as int, y as int);
        let ghost start = self@;
        let size: usize = self.size();
        if let Tile::Clear(value) = self.tile(x, y) {
            proof {
                lemma_adjacent_mines(start, origin);
            }
            let flagged: u8 = self.count_flags_around(x, y);
            if flagged >= value {
                // open the unknown cells around, and around each that counts
                // no mine in turn
                let mut pending = self.unknown_around(x, y);
                let ghost mut opened = Set::<(int, int)>::empty();
                let ghost mut hit = false;
                proof {
                    self.lemma_wf_valid();
                    assert forall|i: int| 0 <= i < pending.len() implies start.floods(
                        origin,
                        cell(#[trigger] pending[i]),
                    ) by {
                        lemma_floods_start(start, origin, cell(pending[i]));
                    }
                }
                // `pending` holds the cells still to open. Each was unknown when
                // it was listed and may have been opened since.
                while pending.len() > 0
                    invariant
                        self.wf(),
                        start.valid(),
                        start.size == size,
                        self@.size == start.size,
                        self@.mines == start.mines,
                        self@.remaining_flags == start.remaining_flags,
                        self@.won == start.won,
                        self@.lost == (start.lost || hit),
                        hit ==> start.explodes(origin),
                        // only cells that the expansion is to open are opened or listed
                        forall|p: (int, int)| opened.contains(p) ==> start.floods(origin, p),
                        forall|p: (int, int)| opened.contains(p) && start.mines.contains(p) ==> hit,
                        forall|q: (int, int)|
                            start.in_bounds(q) ==> #[trigger] self@.marks[q] == mark_in_progress(
                                start,
                                opened,
                                hit,
                                q,
                            ),
                        forall|i: int|
                            0 <= i < pending.len() ==> (#[trigger] pending[i]).0 < start.size
                                && pending[i].1 < start.size && start.floods(
                                origin,
                                cell(pending[i]),
                            ),
                        // every cell that is to open next is opened or listed
                        forall|q: (int, int)|
                            start.in_bounds(q) && adjacent(origin, q) ==> #[trigger] self@.marks[q]
                                != TileData::Unknown || listed(pending@, q),
                        forall|c: (int, int), q: (int, int)|
                            opened.contains(c) && start.tile(c) == Tile::Clear(0)
                                && start.in_bounds(q) && #[trigger] adjacent(c, q)
                                ==> #[trigger] self@.marks[q] != TileData::Unknown || listed(
                                pending@,
                                q,
                            ),
                    decreases self@.marked(TileData::Unknown).len(), pending.len(),
                {
                    let ghost before = self@;
                    let ghost queue = pending@;
                    let ghost opened_before = opened;
                    let (cx, cy) = pending.pop().unwrap();
                    let ghost c = (cx as int, cy as int);
                    let ghost rest = pending@;
                    let ghost mut added = Seq::<(usize, usize)>::empty();
                    if let TileData::Unknown = self.data(cx, cy) {
                        self.reveal_tile(cx, cy);
                        proof {
                            lemma_reveal_tile_unknown(before, c);
                            opened = opened.insert(c);
                        }
                        match self.tile(cx, cy) {
                            Tile::Mine => {
                                proof {
                                    hit = true;
                                    lemma_flooded_mine(start, origin, c);
                                }
                            },
                            Tile::Clear(count) => {
                                if count == 0 {
                                    let mut more = self.unknown_around(cx, cy);
                                    proof {
                                        added = more@;
                                    }
                                    pending.append(&mut more);
                                    proof {
                                        assert forall|i: int|
                                            0 <= i < pending.len() implies (
                                        #[trigger] pending[i]).0 < start.size && pending[i].1
                                            < start.size && start.floods(
                                            origin,
                                            cell(pending[i]),
                                        ) by {
                                            if i >= rest.len() {
                                                let e = added[i - rest.len()];
                                                lemma_floods_step(start, origin, c, cell(e));
                                            }
                                        }
                                    }
                                }
                            },
                        }
                    }
                    proof {
                        assert forall|q: (int, int)|
                            start.in_bounds(q) && adjacent(origin, q) implies #[trigger] self@.marks[q]
                            != TileData::Unknown || listed(pending@, q) by {
                            if self@.marks[q] == TileData::Unknown {
                                lemma_listed_without_last(queue, q);
                                lemma_listed_joined(rest, added, q);
                            }
                        }
                        assert forall|c2: (int, int), q: (int, int)|
                            opened.contains(c2) && start.tile(c2) == Tile::Clear(0)
                                && start.in_bounds(q) && #[trigger] adjacent(c2, q) implies
                            #[trigger] self@.marks[q] != TileData::Unknown || listed(
                            pending@,
                            q,
                        ) by {
                            if self@.marks[q] == TileData::Unknown {
                                if opened_before.contains(c2) {
                                    lemma_listed_without_last(queue, q);
                                }
                                lemma_listed_joined(rest, added, q);
                            }
                        }
                    }
                }
                proof {
                    self.lemma_wf_valid();
                    assert(self@.cells() =~= start.cells());
                    lemma_rest_is_expansion(start, self@, opened, hit, origin);
                }
            }
        }
    }

    /// Handles a click on the cell `(x, y)`: an unknown cell is opened, a
    /// known cell is expanded, a flagged cell is left alone. Then the win is
    /// evaluated.
    pub fn handle_click(&mut self, x: usize, y: usize)
        requires
            old(self).wf(),
            x < old(self)@.size,
            y < old(self)@.size,
        ensures
            final(self).wf(),
            final(self)@ == old(self)@.handle_click((x as int, y as int)),
    {
        match self.data(x, y) {
            TileData::Unknown => {
                self.reveal_tile(x, y);
            },
            TileData::Known => {
                self.try_expand_tile(x, y);
            },
            _ => {},
        }
        self.check_win();
    }
}

} // verus!
