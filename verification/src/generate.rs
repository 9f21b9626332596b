//! Laying the mines at random around a first click that must be safe.

use crate::board::{adjacent, Board};
use crate::flood::{lemma_blank, lemma_floods_start};
use crate::grid::{block, lemma_block, lemma_cells};
use crate::laws::{lemma_adjacent_mines, lemma_counts, lemma_flags_around};
use crate::minefield::Minefield;
use crate::tile::{Tile, TileData};
use macroquad::rand::RandGenerator;
use vstd::prelude::*;
use vstd::set_lib::{lemma_len_subset, lemma_set_disjoint_lens};

verus! {

/// The generator of `macroquad::rand`, a value that Verus carries through
/// without looking into it.
#[verifier::external_type_specification]
#[verifier::external_body]
pub struct ExRandGenerator(macroquad::rand::RandGenerator);

/// `RandGenerator::new` makes a generator. Nothing is claimed of it.
pub assume_specification[ macroquad::rand::RandGenerator::new ]() -> (generator:
    macroquad::rand::RandGenerator);

/// `RandGenerator::srand` seeds a generator. Nothing is claimed of the draws
/// that follow.
pub assume_specification[ macroquad::rand::RandGenerator::srand ](
    generator: &macroquad::rand::RandGenerator,
    seed: u64,
);

/// Draws a number below `bound` with `RandGenerator::gen_range`, from the
/// range that starts at `0`. The claim is that of the generator's
/// documentation: the draw lies in the range, its end left out. The
/// generator takes a fraction below one, scales it by the end of the range
/// and cuts off what follows the point, so the draw stays below `bound`.
/// Which number is drawn is left open.
#[verifier::external_body]
fn draw_below(generator: &RandGenerator, bound: usize) -> (draw: usize)
    requires
        bound > 0,
    ensures
        draw < bound,
{
    generator.gen_range(0, bound)
}

/// Why no minefield was generated.
#[derive(Clone, Copy, Debug, PartialEq, Eq)]
pub enum GenerationError {
    /// The grid has not enough cells for the mines beside the clicked cell
    /// and the cells around it, which must stay free.
    TooManyMines,
    /// The draws allowed were used up before the mines were laid with the
    /// clicked cell and the cells around it free.
    OutOfDraws,
}

/// The number of cells in a row of length `size` that lie at `x` or next to
/// it.
pub open spec fn span(size: nat, x: int) -> nat {
    1 + if x > 0 {
        1nat
    } else {
        0nat
    } + if x + 1 < size {
        1nat
    } else {
        0nat
    }
}

/// The number of cells that must stay free of mines for the click on `p` to
/// be safe: `p` and the cells of the grid adjacent to it.
pub open spec fn safe_zone(size: nat, p: (int, int)) -> nat {
    span(size, p.0) * span(size, p.1)
}

/// The grid of side `size` has room for `mines` mines outside the safe zone
/// of `p`.
pub open spec fn has_room(size: nat, mines: nat, p: (int, int)) -> bool {
    mines + safe_zone(size, p) <= size * size
}

/// `b` is a board as the generation around `p` gives it: `mines` mines lie
/// on a grid of side `size`, none on `p` nor around it, every cell is
/// unknown, a flag is to place for each mine, and the game is open.
pub open spec fn generated(b: Board, size: nat, mines: nat, p: (int, int)) -> bool {
    &&& b.valid()
    &&& b.size == size
    &&& b.mines.finite()
    &&& b.mines.len() == mines
    &&& b.tile(p) == Tile::Clear(0)
    &&& forall|q: (int, int)| b.in_bounds(q) ==> #[trigger] b.marks[q] == TileData::Unknown
    &&& b.remaining_flags == mines
    &&& !b.lost
    &&& !b.won
}

/// The cells of `b` that must stay free of mines for a click on `p` to be
/// safe.
pub open spec fn safe_cells(b: Board, p: (int, int)) -> Set<(int, int)> {
    Set::new(|q: (int, int)| b.in_bounds(q) && (q == p || adjacent(p, q)))
}

/// The safe zone of a cell of the grid counts the cells that must stay
/// free.
pub proof fn lemma_safe_zone(b: Board, p: (int, int))
    requires
        b.in_bounds(p),
    ensures
        safe_cells(b, p).finite(),
        safe_cells(b, p).len() == safe_zone(b.size, p),
{
    let x: int = if p.0 > 0 {
        p.0 - 1
    } else {
        p.0
    };
    let y: int = if p.1 > 0 {
        p.1 - 1
    } else {
        p.1
    };
    lemma_block(x, span(b.size, p.0), y, span(b.size, p.1));
    assert(safe_cells(b, p) =~= block(x, span(b.size, p.0), y, span(b.size, p.1)));
}

/// A board on which a click on `p` is safe has room for its mines outside
/// the safe zone of `p`.
pub proof fn lemma_safe_click_has_room(b: Board, p: (int, int))
    requires
        b.valid(),
        b.in_bounds(p),
        b.tile(p) == Tile::Clear(0),
    ensures
        has_room(b.size, b.mines.len(), p),
{
    let zone = safe_cells(b, p);
    lemma_counts(b);
    lemma_cells(b);
    lemma_safe_zone(b, p);
    assert forall|q: (int, int)| zone.contains(q) implies !b.mines.contains(q) by {
        if q != p {
            lemma_blank(b, p, q);
        }
    }
    lemma_set_disjoint_lens(b.mines, zone);
    lemma_len_subset(b.mines + zone, b.cells());
}

/// The first click on a generated board, which opens the clicked cell and
/// expands it, does not lose the game and leaves the clicked cell and every
/// cell around it known.
pub proof fn lemma_first_click_is_safe(b: Board, size: nat, mines: nat, p: (int, int))
    requires
        generated(b, size, mines, p),
        b.in_bounds(p),
    ensures
        !b.handle_click(p).handle_click(p).lost,
        forall|q: (int, int)|
            safe_cells(b, p).contains(q) ==> #[trigger] b.handle_click(p).handle_click(p).marks[q]
                == TileData::Known,
        b.handle_click(p).handle_click(p).mines == b.mines,
{
    let first = b.handle_click(p);
    let last = first.handle_click(p);
    lemma_flags_around(first, p);
    lemma_adjacent_mines(first, p);
    assert(!first.explodes(p)) by {
        if first.explodes(p) {
            let q = choose|q: (int, int)|
                first.in_bounds(q) && adjacent(p, q) && first.marks[q] == TileData::Unknown
                    && #[trigger] first.mines.contains(q);
            lemma_blank(b, p, q);
        }
    }
    assert forall|q: (int, int)| safe_cells(b, p).contains(q) implies #[trigger] last.marks[q]
        == TileData::Known by {
        if q != p {
            lemma_floods_start(first, p, q);
        }
    }
}

fn span_of(size: usize, x: usize) -> (r: usize)
    requires
        x < size,
    ensures
        r == span(size as nat, x as int),
        1 <= r <= 3,
{
    let mut r: usize = 1;
    if x > 0 {
        r += 1;
    }
    if x + 1 < size {
        r += 1;
    }
    r
}

impl Minefield {
    /// Generates a minefield of side `size` with `mines_amount` mines around
    /// a click on `(click_x, click_y)`, so that the clicked cell is safe and
    /// counts no mine around it. Positions are drawn from a generator seeded
    /// with `seed`; a position that holds a mine already is drawn again, and
    /// a layout that leaves the clicked cell unsafe is thrown away and laid
    /// anew. At most `max_draws` positions are drawn.
    ///
    /// Where the grid has no room for the mines the generation is refused.
    /// Else a field comes out as `generated` says, or the draws ran out, which
    /// cannot happen without mines to lay and must happen with fewer draws
    /// than mines.
    pub fn new_around_click(
        size: usize,
        mines_amount: usize,
        click_x: usize,
        click_y: usize,
        seed: u64,
        max_draws: u64,
    ) -> (r: Result<Minefield, GenerationError>)
        requires
            size * size <= usize::MAX,
            click_x < size,
            click_y < size,
        ensures
            !has_room(size as nat, mines_amount as nat, (click_x as int, click_y as int)) ==> r
                == Err::<Minefield, GenerationError>(GenerationError::TooManyMines),
            has_room(size as nat, mines_amount as nat, (click_x as int, click_y as int))
                ==> match r {
                Ok(field) => field.wf() && generated(
                    field@,
                    size as nat,
                    mines_amount as nat,
                    (click_x as int, click_y as int),
                ) && mines_amount <= max_draws,
                Err(e) => e == GenerationError::OutOfDraws && mines_amount > 0,
            },
    {
        let span_x: usize = span_of(size, click_x);
        let span_y: usize = span_of(size, click_y);
        assert(span_x * span_y <= 9) by (nonlinear_arith)
            requires
                span_x <= 3,
                span_y <= 3,
        ;
        let zone: usize = span_x * span_y;
        let total: usize = size * size;
        if mines_amount > total || zone > total - mines_amount {
            return Err(GenerationError::TooManyMines);
        }
        let generator = RandGenerator::new();
        generator.srand(seed);
        let mut draws_left: u64 = max_draws;
        loop
            invariant
                size * size <= usize::MAX,
                click_x < size,
                click_y < size,
                draws_left <= max_draws,
                has_room(size as nat, mines_amount as nat, (click_x as int, click_y as int)),
            decreases draws_left,
        {
            let ghost draws_before = draws_left;
            let mut field = Minefield::empty(size);
            let mut remaining_mines: usize = mines_amount;
            proof {
                field.lemma_wf_valid();
            }
            while remaining_mines > 0
                invariant
                    0 < size,
                    has_room(size as nat, mines_amount as nat, (click_x as int, click_y as int)),
                    field.wf(),
                    field@.size == size,
                    field@.mines.finite(),
                    field@.mines.len() + remaining_mines == mines_amount,
                    field@.remaining_flags == field@.mines.len(),
                    forall|q: (int, int)|
                        field@.in_bounds(q) ==> #[trigger] field@.marks[q] == TileData::Unknown,
                    !field@.lost,
                    !field@.won,
                    draws_left <= draws_before <= max_draws,
                    remaining_mines < mines_amount ==> draws_left < draws_before,
                    mines_amount - remaining_mines + draws_left <= draws_before,
                decreases draws_left,
            {
                if draws_left == 0 {
                    return Err(GenerationError::OutOfDraws);
                }
                draws_left -= 1;
                let x: usize = draw_below(&generator, size);
                let y: usize = draw_below(&generator, size);
                if field.place_mine(x, y) {
                    remaining_mines -= 1;
                }
            }
            proof {
                field.lemma_wf_valid();
                if mines_amount == 0 {
                    field@.mines.lemma_len0_is_empty();
                    assert(field@.mines_around((click_x as int, click_y as int)) =~= Set::<
                        (int, int),
                    >::empty());
                }
            }
            if let Tile::Clear(count) = field.tile(click_x, click_y) {
                if count == 0 {
                    return Ok(field);
                }
            }
        }
    }
}

} // verus!
