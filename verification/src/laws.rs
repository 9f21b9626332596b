//! What holds of every valid board and of every move on it.

use crate::board::{adjacent, Board};
use crate::grid::{around, lemma_near, lemma_on_grid};
use crate::tile::{Tile, TileData};
use vstd::prelude::*;

verus! {

/// On a valid board the mines and the flags are finite in number, and there
/// are no more mines than cells.
pub proof fn lemma_counts(b: Board)
    requires
        b.valid(),
    ensures
        b.mines.finite(),
        b.flags().finite(),
        b.mines.len() <= b.size * b.size,
        b.flags().len() <= b.mines.len(),
{
    lemma_on_grid(b, b.mines);
    lemma_on_grid(b, b.flags());
}

/// At most eight mines lie around a cell.
pub proof fn lemma_adjacent_mines(b: Board, p: (int, int))
    ensures
        b.mines_around(p).finite(),
        b.adjacent_mines(p) <= 8,
{
    lemma_near(p, b.mines_around(p));
}

/// At most eight flags stand around a cell.
pub proof fn lemma_flags_around(b: Board, p: (int, int))
    ensures
        b.flags_around(p).finite(),
        b.flags_around(p).len() <= 8,
{
    lemma_near(p, b.flags_around(p));
}

/// A new mine on `p` adds one to the mines around each cell adjacent to `p`
/// and leaves the count of every other cell.
pub proof fn lemma_lay_mine_counts(b: Board, p: (int, int), c: (int, int))
    requires
        !b.mines.contains(p),
    ensures
        b.lay_mine(p).adjacent_mines(c) == b.adjacent_mines(c) + if adjacent(c, p) {
            1nat
        } else {
            0nat
        },
{
    lemma_adjacent_mines(b, c);
    if adjacent(c, p) {
        assert(b.lay_mine(p).mines_around(c) =~= b.mines_around(c).insert(p));
    } else {
        assert(b.lay_mine(p).mines_around(c) =~= b.mines_around(c));
    }
}

/// Laying a mine on a free cell that shows no wrong flag keeps a board
/// valid.
pub proof fn lemma_lay_mine_valid(b: Board, p: (int, int))
    requires
        b.valid(),
        b.in_bounds(p),
        !b.mines.contains(p),
        b.marks[p] != TileData::WrongFlag,
    ensures
        b.lay_mine(p).valid(),
{
    lemma_counts(b);
    let c = b.lay_mine(p);
    assert(c.cells() =~= b.cells());
    assert(c.flags() =~= b.flags());
    assert(c.marked(TileData::WrongFlag) =~= b.marked(TileData::WrongFlag));
}

/// Evaluating the win keeps a board valid.
pub proof fn lemma_check_win_valid(b: Board)
    requires
        b.valid(),
    ensures
        b.check_win().valid(),
{
    let c = b.check_win();
    assert(c.flags() =~= b.flags());
    assert(c.marked(TileData::WrongFlag) =~= b.marked(TileData::WrongFlag));
    assert(c.cells() =~= b.cells());
}

/// Toggling a flag keeps a board valid.
pub proof fn lemma_flag_tile_valid(b: Board, p: (int, int))
    requires
        b.valid(),
        b.in_bounds(p),
    ensures
        b.flag_tile(p).valid(),
{
    lemma_counts(b);
    let c = b.flag_tile(p);
    assert(c.cells() =~= b.cells());
    assert(c.marks.dom() =~= b.marks.dom());
    assert(c.marked(TileData::WrongFlag) =~= b.marked(TileData::WrongFlag));
    match b.marks[p] {
        TileData::Flagged => {
            assert(c.flags() =~= b.flags().remove(p));
        },
        TileData::Unknown => {
            if b.remaining_flags > 0 {
                assert(c.flags() =~= b.flags().insert(p));
            }
        },
        _ => {},
    }
}

/// Showing the mines of a lost game keeps a board valid.
pub proof fn lemma_reveal_all_mines_valid(b: Board)
    requires
        b.valid(),
        b.lost,
    ensures
        b.reveal_all_mines().valid(),
{
    let c = b.reveal_all_mines();
    assert(c.cells() =~= b.cells());
    assert(c.flags() =~= b.flags());
}

/// Opening an unknown cell keeps a board valid.
pub proof fn lemma_reveal_tile_valid(b: Board, p: (int, int))
    requires
        b.valid(),
        b.in_bounds(p),
        b.marks[p] == TileData::Unknown,
    ensures
        b.reveal_tile(p).valid(),
{
    if b.mines.contains(p) {
        let l = Board { lost: true, ..b };
        assert(l.cells() =~= b.cells());
        assert(l.flags() =~= b.flags());
        lemma_reveal_all_mines_valid(l);
    } else {
        let c = b.reveal_tile(p);
        assert(c.cells() =~= b.cells());
        assert(c.marks.dom() =~= b.marks.dom());
        assert(c.flags() =~= b.flags());
        assert(c.marked(TileData::WrongFlag) =~= b.marked(TileData::WrongFlag));
    }
}

/// The number that a safe cell shows is the number of mines around it.
pub proof fn lemma_tile_counts(b: Board, p: (int, int))
    ensures
        b.tile(p) is Mine <==> b.mines.contains(p),
        b.tile(p) matches Tile::Clear(count) ==> count == b.adjacent_mines(p),
{
    lemma_adjacent_mines(b, p);
}

/// While no flag is shown wrong, the flags left to place and the flags on
/// the board are together as many as the mines.
pub proof fn lemma_flag_budget(b: Board)
    requires
        b.valid(),
        b.marked(TileData::WrongFlag) == Set::<(int, int)>::empty(),
    ensures
        b.remaining_flags + b.marked(TileData::Flagged).len() == b.mines.len(),
{
    assert(b.flags() =~= b.marked(TileData::Flagged)) by {
        assert forall|p: (int, int)| b.flags().contains(p) implies b.marked(
            TileData::Flagged,
        ).contains(p) by {
            assert(!b.marked(TileData::WrongFlag).contains(p));
        }
    }
}

/// After any sequence of toggled flags the board is valid, holds the same
/// mines, and the flags left to place and the flags on the board are
/// together as many as the mines.
pub proof fn lemma_flag_tiles_budget(b: Board, cells: Seq<(int, int)>)
    requires
        b.valid(),
        b.marked(TileData::WrongFlag) == Set::<(int, int)>::empty(),
        forall|i: int| 0 <= i < cells.len() ==> b.in_bounds(#[trigger] cells[i]),
    ensures
        b.flag_tiles(cells).valid(),
        b.flag_tiles(cells).size == b.size,
        b.flag_tiles(cells).mines == b.mines,
        b.flag_tiles(cells).marked(TileData::WrongFlag) == Set::<(int, int)>::empty(),
        b.flag_tiles(cells).remaining_flags + b.flag_tiles(cells).marked(TileData::Flagged).len()
            == b.mines.len(),
    decreases cells.len(),
{
    if cells.len() > 0 {
        let before = b.flag_tiles(cells.drop_last());
        let p = cells.last();
        lemma_flag_tiles_budget(b, cells.drop_last());
        lemma_flag_tile_valid(before, p);
        let after = before.flag_tile(p);
        assert(after.marked(TileData::WrongFlag) =~= before.marked(TileData::WrongFlag));
        lemma_flag_budget(after);
    } else {
        lemma_flag_budget(b);
    }
}

/// Toggling the flag on a cell twice restores the marks, the flags left to
/// place and all else but, at most, the verdict on the win.
pub proof fn lemma_flag_tile_twice_restores_cells(b: Board, p: (int, int))
    requires
        b.valid(),
        b.in_bounds(p),
    ensures
        b.flag_tile(p).flag_tile(p) == (Board { won: b.flag_tile(p).flag_tile(p).won, ..b }),
{
    let c = b.flag_tile(p).flag_tile(p);
    assert(c.marks =~= b.marks);
}

/// Toggling the flag on a cell twice restores the board, where the verdict
/// on the win comes out as it stood.
pub proof fn lemma_flag_tile_twice(b: Board, p: (int, int))
    requires
        b.valid(),
        b.in_bounds(p),
        b.flag_tile(p).flag_tile(p).won == b.won,
    ensures
        b.flag_tile(p).flag_tile(p) == b,
{
    lemma_flag_tile_twice_restores_cells(b, p);
}

/// Opening a mine loses the game: then every mine is known or flagged, no
/// flag stands on a safe cell, and every flag that stood on one is shown
/// wrong.
pub proof fn lemma_reveal_mine(b: Board, p: (int, int))
    requires
        b.valid(),
        b.in_bounds(p),
        b.mines.contains(p),
    ensures
        b.reveal_tile(p).lost,
        forall|q: (int, int)|
            b.in_bounds(q) && b.mines.contains(q) ==> #[trigger] b.reveal_tile(p).marks[q]
                == TileData::Known || b.reveal_tile(p).marks[q] == TileData::Flagged,
        forall|q: (int, int)|
            b.in_bounds(q) && !b.mines.contains(q) ==> #[trigger] b.reveal_tile(p).marks[q]
                != TileData::Flagged,
        forall|q: (int, int)|
            b.in_bounds(q) && !b.mines.contains(q) && b.marks[q] == TileData::Flagged
                ==> #[trigger] b.reveal_tile(p).marks[q] == TileData::WrongFlag,
{
    assert forall|q: (int, int)| b.in_bounds(q) && b.mines.contains(q) implies #[trigger] b.marks[q]
        != TileData::WrongFlag by {
        if b.marks[q] == TileData::WrongFlag {
            assert(b.marked(TileData::WrongFlag).contains(q));
        }
    }
}

/// The win is found exactly where the game is not lost, no flag is left to
/// place, every flag stands on a mine, and no cell is unknown.
pub proof fn lemma_check_win(b: Board)
    ensures
        b.check_win().won <==> {
            &&& !b.lost
            &&& b.remaining_flags == 0
            &&& forall|p: (int, int)|
                b.in_bounds(p) && #[trigger] b.marks[p] == TileData::Flagged ==> b.mines.contains(p)
            &&& forall|p: (int, int)|
                b.in_bounds(p) ==> #[trigger] b.marks[p] != TileData::Unknown
        },
        b.check_win() == (Board { won: b.check_win().won, ..b }),
{
}

/// An unknown cell keeps a valid board from being won.
pub proof fn lemma_unknown_not_won(b: Board, p: (int, int))
    requires
        b.in_bounds(p),
        b.marks[p] == TileData::Unknown,
    ensures
        !b.check_win().won,
{
}

/// Expanding a cell keeps a board valid.
pub proof fn lemma_try_expand_tile_valid(b: Board, p: (int, int))
    requires
        b.valid(),
    ensures
        b.try_expand_tile(p).valid(),
{
    let f = b.flooded(p);
    assert(f.cells() =~= b.cells());
    assert(f.flags() =~= b.flags());
    assert(f.marked(TileData::WrongFlag) =~= b.marked(TileData::WrongFlag));
    if b.expands(p) && b.explodes(p) {
        let l = Board { lost: true, ..f };
        assert(l.cells() =~= b.cells());
        assert(l.flags() =~= b.flags());
        lemma_reveal_all_mines_valid(l);
    }
}

/// A click keeps a board valid.
pub proof fn lemma_handle_click_valid(b: Board, p: (int, int))
    requires
        b.valid(),
        b.in_bounds(p),
    ensures
        b.handle_click(p).valid(),
{
    match b.marks[p] {
        TileData::Unknown => {
            lemma_reveal_tile_valid(b, p);
            lemma_check_win_valid(b.reveal_tile(p));
        },
        TileData::Known => {
            lemma_try_expand_tile_valid(b, p);
            lemma_check_win_valid(b.try_expand_tile(p));
        },
        _ => {
            lemma_check_win_valid(b);
        },
    }
}

/// No move of the game changes the size of the grid or the mines on it.
pub proof fn lemma_moves_keep_mines(b: Board, p: (int, int))
    ensures
        b.flag_tile(p).size == b.size && b.flag_tile(p).mines == b.mines,
        b.reveal_tile(p).size == b.size && b.reveal_tile(p).mines == b.mines,
        b.try_expand_tile(p).size == b.size && b.try_expand_tile(p).mines == b.mines,
        b.handle_click(p).size == b.size && b.handle_click(p).mines == b.mines,
        b.check_win().size == b.size && b.check_win().mines == b.mines,
        b.reveal_all_mines().size == b.size && b.reveal_all_mines().mines == b.mines,
{
}

/// A lost game stays lost whatever the player does, and is never won by a
/// click or by the flag that is placed last.
pub proof fn lemma_lost_is_sticky(b: Board, p: (int, int))
    requires
        b.lost,
    ensures
        b.flag_tile(p).lost,
        b.reveal_tile(p).lost,
        b.try_expand_tile(p).lost,
        b.handle_click(p).lost,
        !b.check_win().won,
        !b.handle_click(p).won,
        b.flag_tile(p).won ==> b.won,
{
}

/// A click changes the mark of a cell in one of three ways only: an unknown
/// cell becomes known, and, where the click loses the game, a flag on a
/// safe cell is shown wrong. A flag is not opened, and no cell that was
/// known, or shown wrong, is changed.
pub proof fn lemma_click_moves_marks_forward(b: Board, p: (int, int), q: (int, int))
    requires
        b.valid(),
        b.in_bounds(p),
        b.in_bounds(q),
    ensures
        b.handle_click(p).marks[q] == b.marks[q] || (b.marks[q] == TileData::Unknown
            && b.handle_click(p).marks[q] == TileData::Known) || (b.marks[q] == TileData::Flagged
            && !b.mines.contains(q) && b.handle_click(p).lost && b.handle_click(p).marks[q]
            == TileData::WrongFlag),
{
    if b.marks[p] == TileData::Known && b.flooded(p).marks[q] != b.marks[q] {
        let n = choose|n: nat| b.spreads_to(p, q, n);
        assert(b.marks[q] == TileData::Unknown);
    }
}

/// Toggling a flag changes the mark of the cell between unknown and flagged
/// and leaves every other mark.
pub proof fn lemma_flag_tile_marks(b: Board, p: (int, int), q: (int, int))
    requires
        b.valid(),
        b.in_bounds(p),
        b.in_bounds(q),
    ensures
        q != p ==> b.flag_tile(p).marks[q] == b.marks[q],
        b.flag_tile(p).marks[p] == b.marks[p] || (b.marks[p] == TileData::Unknown && b.flag_tile(
            p,
        ).marks[p] == TileData::Flagged) || (b.marks[p] == TileData::Flagged && b.flag_tile(
            p,
        ).marks[p] == TileData::Unknown),
        b.flag_tile(p).remaining_flags <= b.mines.len(),
{
    lemma_flag_tile_valid(b, p);
    lemma_counts(b.flag_tile(p));
}

/// Every cell of a grid is reached from a cell by steps to adjacent cells
/// of the grid; where no mine lies and every other cell is unknown, an
/// expansion of that cell opens all the others.
proof fn lemma_floods_without_mines(b: Board, p: (int, int), q: (int, int), d: nat)
    requires
        b.in_bounds(p),
        b.in_bounds(q),
        b.mines == Set::<(int, int)>::empty(),
        forall|c: (int, int)| b.in_bounds(c) && c != p ==> #[trigger] b.marks[c] == TileData::Unknown,
        q != p,
        -d <= q.0 - p.0 <= d,
        -d <= q.1 - p.1 <= d,
    ensures
        b.floods(p, q),
    decreases d,
{
    if adjacent(p, q) {
        assert(b.spreads_to(p, q, 0));
    } else {
        let step_x: int = if q.0 > p.0 {
            q.0 - 1
        } else if q.0 < p.0 {
            q.0 + 1
        } else {
            q.0
        };
        let step_y: int = if q.1 > p.1 {
            q.1 - 1
        } else if q.1 < p.1 {
            q.1 + 1
        } else {
            q.1
        };
        let c = (step_x, step_y);
        lemma_floods_without_mines(b, p, c, (d - 1) as nat);
        let n = choose|n: nat| b.spreads_to(p, c, n);
        assert(b.mines_around(c) =~= Set::<(int, int)>::empty());
        assert(adjacent(c, q));
        assert(b.spreads_to(p, q, n + 1));
    }
}

/// On a field without mines of which nothing is known, two clicks on one
/// cell open every cell and win the game: the first opens the cell, the
/// second expands it.
pub proof fn lemma_two_clicks_without_mines(b: Board, p: (int, int))
    requires
        b.valid(),
        b.in_bounds(p),
        b.mines == Set::<(int, int)>::empty(),
        forall|c: (int, int)| b.in_bounds(c) ==> #[trigger] b.marks[c] == TileData::Unknown,
        !b.lost,
    ensures
        forall|c: (int, int)|
            b.in_bounds(c) ==> #[trigger] b.handle_click(p).handle_click(p).marks[c]
                == TileData::Known,
        b.handle_click(p).handle_click(p).won,
        !b.handle_click(p).handle_click(p).lost,
{
    let first = b.handle_click(p);
    let last = first.handle_click(p);
    assert(first.mines_around(p) =~= Set::<(int, int)>::empty());
    lemma_flags_around(first, p);
    assert forall|c: (int, int)| b.in_bounds(c) implies #[trigger] last.marks[c]
        == TileData::Known by {
        if c != p {
            lemma_floods_without_mines(first, p, c, b.size);
        }
    }
}

} // verus!
