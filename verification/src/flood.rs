//! How an expansion spreads over the board.

use crate::board::{adjacent, mark_after_loss, Board};
use crate::grid::lemma_on_grid;
use crate::laws::lemma_adjacent_mines;
use crate::tile::{Tile, TileData};
use vstd::prelude::*;
use vstd::set_lib::lemma_len_subset;

verus! {

/// No mine is adjacent to a cell that counts none.
pub proof fn lemma_blank(b: Board, q: (int, int), p: (int, int))
    requires
        b.tile(q) == Tile::Clear(0),
        adjacent(q, p),
    ensures
        !b.mines.contains(p),
{
    lemma_adjacent_mines(b, q);
    if b.mines.contains(p) {
        assert(b.mines_around(q).contains(p));
    }
}

/// A mine that an expansion opens is adjacent to the expanded cell.
pub proof fn lemma_flooded_mine(b: Board, origin: (int, int), p: (int, int))
    requires
        b.floods(origin, p),
        b.mines.contains(p),
    ensures
        adjacent(origin, p),
        b.explodes(origin),
{
    let n = choose|n: nat| b.spreads_to(origin, p, n);
    if !adjacent(origin, p) {
        let q = choose|q: (int, int)|
            #[trigger] adjacent(q, p) && b.tile(q) == Tile::Clear(0) && b.spreads_to(
                origin,
                q,
                (n - 1) as nat,
            );
        lemma_blank(b, q, p);
    }
}

/// An unknown cell adjacent to the expanded cell is opened.
pub proof fn lemma_floods_start(b: Board, origin: (int, int), p: (int, int))
    requires
        b.in_bounds(p),
        b.marks[p] == TileData::Unknown,
        adjacent(origin, p),
    ensures
        b.floods(origin, p),
{
    assert(b.spreads_to(origin, p, 0));
}

/// An unknown cell adjacent to an opened cell that counts no mine is opened.
pub proof fn lemma_floods_step(b: Board, origin: (int, int), q: (int, int), p: (int, int))
    requires
        b.floods(origin, q),
        b.tile(q) == Tile::Clear(0),
        adjacent(q, p),
        b.in_bounds(p),
        b.marks[p] == TileData::Unknown,
    ensures
        b.floods(origin, p),
{
    let n = choose|n: nat| b.spreads_to(origin, q, n);
    assert(b.spreads_to(origin, p, n + 1));
}

/// The mark of `p` while an expansion of `start` is under way: `opened` are
/// the cells opened so far, `hit` says that a mine was among them.
pub open spec fn mark_in_progress(
    start: Board,
    opened: Set<(int, int)>,
    hit: bool,
    p: (int, int),
) -> TileData {
    let mark = if opened.contains(p) {
        TileData::Known
    } else {
        start.marks[p]
    };
    if hit {
        mark_after_loss(start.mines.contains(p), mark)
    } else {
        mark
    }
}

/// The expansion has come to rest: no unknown cell is left around the
/// expanded cell, nor around an opened cell that counts no mine.
pub open spec fn at_rest(
    start: Board,
    marks: Map<(int, int), TileData>,
    opened: Set<(int, int)>,
    origin: (int, int),
) -> bool {
    &&& forall|q: (int, int)|
        start.in_bounds(q) && adjacent(origin, q) ==> #[trigger] marks[q] != TileData::Unknown
    &&& forall|c: (int, int), q: (int, int)|
        opened.contains(c) && start.tile(c) == Tile::Clear(0) && start.in_bounds(q)
            && #[trigger] adjacent(c, q) ==> #[trigger] marks[q] != TileData::Unknown
}

/// Once the expansion has come to rest, no cell that it was to open is
/// unknown.
pub proof fn lemma_rest_covers(
    start: Board,
    marks: Map<(int, int), TileData>,
    opened: Set<(int, int)>,
    hit: bool,
    origin: (int, int),
    p: (int, int),
    n: nat,
)
    requires
        forall|q: (int, int)|
            start.in_bounds(q) ==> #[trigger] marks[q] == mark_in_progress(start, opened, hit, q),
        at_rest(start, marks, opened, origin),
        start.spreads_to(origin, p, n),
    ensures
        marks[p] != TileData::Unknown,
    decreases n,
{
    if !adjacent(origin, p) {
        let q = choose|q: (int, int)|
            #[trigger] adjacent(q, p) && start.tile(q) == Tile::Clear(0) && start.spreads_to(
                origin,
                q,
                (n - 1) as nat,
            );
        // `q` was unknown, is safe and is unknown no more: it was opened, and
        // nothing around an opened cell that counts no mine is unknown.
        lemma_rest_covers(start, marks, opened, hit, origin, q, (n - 1) as nat);
    }
}

/// The board that an expansion leaves when it has opened `opened`, with
/// `hit` saying that a mine was among them, and has come to rest, is the one
/// that the model gives.
pub proof fn lemma_rest_is_expansion(
    start: Board,
    end: Board,
    opened: Set<(int, int)>,
    hit: bool,
    origin: (int, int),
)
    requires
        start.valid(),
        end.size == start.size,
        end.mines == start.mines,
        end.remaining_flags == start.remaining_flags,
        end.won == start.won,
        end.lost == (start.lost || hit),
        end.marks.dom() == start.cells(),
        hit ==> start.explodes(origin),
        forall|p: (int, int)| opened.contains(p) ==> start.floods(origin, p),
        forall|p: (int, int)| opened.contains(p) && start.mines.contains(p) ==> hit,
        forall|q: (int, int)|
            start.in_bounds(q) ==> #[trigger] end.marks[q] == mark_in_progress(
                start,
                opened,
                hit,
                q,
            ),
        at_rest(start, end.marks, opened, origin),
    ensures
        end == if start.explodes(origin) {
            (Board { lost: true, ..start.flooded(origin) }).reveal_all_mines()
        } else {
            start.flooded(origin)
        },
{
    assert forall|p: (int, int)| start.floods(origin, p) implies end.marks[p]
        != TileData::Unknown by {
        let n = choose|n: nat| start.spreads_to(origin, p, n);
        lemma_rest_covers(start, end.marks, opened, hit, origin, p, n);
    }
    if start.explodes(origin) {
        // the unknown mine around `origin` is unknown no more: a mine was hit
        let q = choose|q: (int, int)|
            start.in_bounds(q) && adjacent(origin, q) && start.marks[q] == TileData::Unknown
                && #[trigger] start.mines.contains(q);
        lemma_floods_start(start, origin, q);
    }
    let expected = if start.explodes(origin) {
        (Board { lost: true, ..start.flooded(origin) }).reveal_all_mines()
    } else {
        start.flooded(origin)
    };
    assert forall|p: (int, int)| start.in_bounds(p) implies end.marks[p] == expected.marks[p] by {
        if start.floods(origin, p) {
            let n = choose|n: nat| start.spreads_to(origin, p, n);
            assert(start.marks[p] == TileData::Unknown);
        }
    }
    assert(end.marks =~= expected.marks);
}

/// Opening an unknown cell leaves fewer unknown cells.
pub proof fn lemma_reveal_tile_unknown(b: Board, p: (int, int))
    requires
        b.in_bounds(p),
        b.marks[p] == TileData::Unknown,
    ensures
        b.reveal_tile(p).marked(TileData::Unknown).len() < b.marked(TileData::Unknown).len(),
{
    let before = b.marked(TileData::Unknown);
    let after = b.reveal_tile(p).marked(TileData::Unknown);
    lemma_on_grid(b, before);
    lemma_len_subset(after, before.remove(p));
}

} // verus!
