//! Counting the cells of a grid and the cells around a cell.

use crate::board::{adjacent, Board};
use vstd::prelude::*;
use vstd::set_lib::{lemma_len_subset, lemma_set_disjoint_lens};

verus! {

/// The `h` cells of column `x` from row `y` on.
spec fn column(x: int, y: int, h: nat) -> Set<(int, int)> {
    Set::new(|p: (int, int)| p.0 == x && y <= p.1 < y + h)
}

/// The cells of the `w` columns from `x` on in the `h` rows from `y` on.
pub open spec fn block(x: int, w: nat, y: int, h: nat) -> Set<(int, int)> {
    Set::new(|p: (int, int)| x <= p.0 < x + w && y <= p.1 < y + h)
}

proof fn lemma_column(x: int, y: int, h: nat)
    ensures
        column(x, y, h).finite(),
        column(x, y, h).len() == h,
    decreases h,
{
    if h == 0 {
        assert(column(x, y, h) =~= Set::<(int, int)>::empty());
    } else {
        lemma_column(x, y, (h - 1) as nat);
        assert(column(x, y, h) =~= column(x, y, (h - 1) as nat).insert((x, y + h - 1)));
    }
}

/// A block of `w` columns and `h` rows has `w * h` cells.
pub proof fn lemma_block(x: int, w: nat, y: int, h: nat)
    ensures
        block(x, w, y, h).finite(),
        block(x, w, y, h).len() == w * h,
    decreases w,
{
    if w == 0 {
        assert(block(x, w, y, h) =~= Set::<(int, int)>::empty());
        assert(w * h == 0) by (nonlinear_arith)
            requires
                w == 0,
        ;
    } else {
        let rest = block(x, (w - 1) as nat, y, h);
        let last = column(x + w - 1, y, h);
        lemma_block(x, (w - 1) as nat, y, h);
        lemma_column(x + w - 1, y, h);
        assert(block(x, w, y, h) =~= rest + last);
        lemma_set_disjoint_lens(rest, last);
        assert(w * h == (w - 1) * h + h) by (nonlinear_arith);
    }
}

/// A grid of side `size` has `size * size` cells.
pub proof fn lemma_cells(b: Board)
    ensures
        b.cells().finite(),
        b.cells().len() == b.size * b.size,
{
    lemma_block(0, b.size, 0, b.size);
    assert(b.cells() =~= block(0, b.size, 0, b.size));
}

/// A set of cells of the grid is finite and no larger than the grid.
pub proof fn lemma_on_grid(b: Board, s: Set<(int, int)>)
    requires
        s.subset_of(b.cells()),
    ensures
        s.finite(),
        s.len() <= b.size * b.size,
{
    lemma_cells(b);
    lemma_len_subset(s, b.cells());
}

/// The cells adjacent to `p`, on the grid or off it.
pub open spec fn around(p: (int, int)) -> Set<(int, int)> {
    Set::new(|q: (int, int)| adjacent(p, q))
}

/// Eight cells are adjacent to a cell.
pub proof fn lemma_around(p: (int, int))
    ensures
        around(p).finite(),
        around(p).len() == 8,
{
    let (x, y) = p;
    assert(around(p) =~= set![
        (x - 1, y - 1),
        (x, y - 1),
        (x + 1, y - 1),
        (x - 1, y),
        (x + 1, y),
        (x - 1, y + 1),
        (x, y + 1),
        (x + 1, y + 1),
    ]);
}

/// A set of cells adjacent to `p` has at most eight elements.
pub proof fn lemma_near(p: (int, int), s: Set<(int, int)>)
    requires
        s.subset_of(around(p)),
    ensures
        s.finite(),
        s.len() <= 8,
{
    lemma_around(p);
    lemma_len_subset(s, around(p));
}

} // verus!
