use minesweeper::minefield::neighbours;
use minesweeper::{Minefield, Tile, TileData};

fn field_with_mines(size: usize, mines: &[(usize, usize)]) -> Minefield {
    let mut field = Minefield::empty(size);
    for &(x, y) in mines {
        assert!(field.place_mine(x, y));
    }
    field
}

fn count_marks(field: &Minefield, mark: TileData) -> usize {
    let mut count = 0;
    for x in 0..field.size() {
        for y in 0..field.size() {
            if field.data(x, y) == mark {
                count += 1;
            }
        }
    }
    count
}

fn count_mines(field: &Minefield) -> usize {
    let mut count = 0;
    for x in 0..field.size() {
        for y in 0..field.size() {
            if field.tile(x, y) == Tile::Mine {
                count += 1;
            }
        }
    }
    count
}

#[test]
fn empty_field_is_unknown_and_clear() {
    let field = Minefield::empty(4);
    assert_eq!(field.size(), 4);
    assert_eq!(field.remaining_flags(), 0);
    assert!(!field.has_lost());
    assert!(!field.has_won());
    assert!(!field.game_over());
    for x in 0..4 {
        for y in 0..4 {
            assert_eq!(field.tile(x, y), Tile::Clear(0));
            assert_eq!(field.data(x, y), TileData::Unknown);
        }
    }
}

#[test]
fn empty_field_of_side_zero_has_no_cells() {
    let field = Minefield::empty(0);
    assert_eq!(field.size(), 0);
    assert!(field.is_winning());
}

#[test]
fn neighbours_of_an_inner_cell_are_eight_row_by_row() {
    assert_eq!(
        neighbours(5, 2, 3),
        vec![(1, 2), (2, 2), (3, 2), (1, 3), (3, 3), (1, 4), (2, 4), (3, 4)]
    );
}

#[test]
fn neighbours_are_clipped_at_corners_and_edges() {
    assert_eq!(neighbours(3, 0, 0), vec![(1, 0), (0, 1), (1, 1)]);
    assert_eq!(neighbours(3, 2, 2), vec![(1, 1), (2, 1), (1, 2)]);
    assert_eq!(neighbours(3, 1, 0), vec![(0, 0), (2, 0), (0, 1), (1, 1), (2, 1)]);
    assert_eq!(neighbours(3, 0, 2), vec![(0, 1), (1, 1), (1, 2)]);
    assert_eq!(neighbours(1, 0, 0), vec![]);
    assert_eq!(neighbours(2, 1, 0), vec![(0, 0), (0, 1), (1, 1)]);
}

#[test]
fn place_mine_counts_the_mine_on_the_cells_around() {
    let field = field_with_mines(3, &[(1, 1)]);
    assert_eq!(field.remaining_flags(), 1);
    for x in 0..3 {
        for y in 0..3 {
            let expected = if (x, y) == (1, 1) { Tile::Mine } else { Tile::Clear(1) };
            assert_eq!(field.tile(x, y), expected);
            assert_eq!(field.data(x, y), TileData::Unknown);
        }
    }
}

#[test]
fn place_mine_in_a_corner_leaves_far_cells_at_zero() {
    let field = field_with_mines(4, &[(0, 0)]);
    assert_eq!(field.tile(0, 0), Tile::Mine);
    assert_eq!(field.tile(1, 0), Tile::Clear(1));
    assert_eq!(field.tile(0, 1), Tile::Clear(1));
    assert_eq!(field.tile(1, 1), Tile::Clear(1));
    assert_eq!(field.tile(2, 0), Tile::Clear(0));
    assert_eq!(field.tile(2, 2), Tile::Clear(0));
    assert_eq!(field.tile(3, 3), Tile::Clear(0));
    assert_eq!(field.tile(0, 2), Tile::Clear(0));
}

#[test]
fn place_mine_adds_up_on_shared_neighbours() {
    let field = field_with_mines(3, &[(0, 0), (2, 0), (0, 2), (2, 2), (1, 0), (0, 1), (2, 1), (1, 2)]);
    assert_eq!(field.tile(1, 1), Tile::Clear(8));
    assert_eq!(field.remaining_flags(), 8);
    assert_eq!(count_mines(&field), 8);
}

#[test]
fn place_mine_twice_on_a_cell_is_refused() {
    let mut field = Minefield::empty(3);
    assert!(field.place_mine(2, 1));
    let before = field.clone();
    assert!(!field.place_mine(2, 1));
    assert_eq!(field, before);
    assert_eq!(field.remaining_flags(), 1);
    assert_eq!(field.tile(1, 1), Tile::Clear(1));
}

#[test]
fn flag_tile_places_and_takes_back_a_flag() {
    let mut field = field_with_mines(3, &[(1, 1), (0, 0)]);
    assert_eq!(field.remaining_flags(), 2);
    field.flag_tile(2, 2);
    assert_eq!(field.data(2, 2), TileData::Flagged);
    assert_eq!(field.remaining_flags(), 1);
    field.flag_tile(2, 2);
    assert_eq!(field.data(2, 2), TileData::Unknown);
    assert_eq!(field.remaining_flags(), 2);
}

#[test]
fn flag_tile_is_refused_when_no_flag_is_left() {
    let mut field = field_with_mines(3, &[(1, 1)]);
    field.flag_tile(0, 0);
    assert_eq!(field.remaining_flags(), 0);
    let before = field.clone();
    field.flag_tile(2, 2);
    assert_eq!(field, before);
    assert_eq!(field.data(2, 2), TileData::Unknown);
}

#[test]
fn flag_tile_on_an_empty_field_does_nothing() {
    let mut field = Minefield::empty(3);
    let before = field.clone();
    field.flag_tile(1, 2);
    assert_eq!(field, before);
}

#[test]
fn flag_tile_leaves_a_known_cell_alone() {
    let mut field = field_with_mines(3, &[(1, 1)]);
    field.reveal_tile(0, 0);
    let before = field.clone();
    field.flag_tile(0, 0);
    assert_eq!(field, before);
    assert_eq!(field.data(0, 0), TileData::Known);
}

#[test]
fn flags_left_and_flags_placed_add_up_to_the_mines() {
    let mut field = field_with_mines(4, &[(0, 0), (1, 2), (3, 3), (2, 1)]);
    let toggles = [(0, 0), (1, 1), (0, 0), (2, 2), (3, 3), (1, 1), (1, 2), (0, 3), (3, 0), (0, 3), (2, 1), (2, 2)];
    assert_eq!(field.remaining_flags() + count_marks(&field, TileData::Flagged), 4);
    for &(x, y) in &toggles {
        field.flag_tile(x, y);
        assert_eq!(field.remaining_flags() + count_marks(&field, TileData::Flagged), 4);
        assert_eq!(count_mines(&field), 4);
    }
}

#[test]
fn toggling_a_flag_twice_restores_the_field() {
    let mut field = field_with_mines(4, &[(0, 0), (1, 2), (3, 3)]);
    field.reveal_tile(3, 0);
    field.flag_tile(1, 2);
    for x in 0..4 {
        for y in 0..4 {
            let before = field.clone();
            field.flag_tile(x, y);
            field.flag_tile(x, y);
            assert_eq!(field, before);
        }
    }
}

#[test]
fn toggling_the_last_flag_twice_keeps_the_verdict_of_the_first_toggle() {
    let mut field = field_with_mines(2, &[(0, 0)]);
    field.reveal_tile(1, 0);
    field.reveal_tile(0, 1);
    field.reveal_tile(1, 1);
    assert!(!field.has_won());
    let before = field.clone();
    field.flag_tile(0, 0);
    assert!(field.has_won());
    field.flag_tile(0, 0);
    assert!(field.has_won());
    assert_eq!(field.remaining_flags(), before.remaining_flags());
    for x in 0..2 {
        for y in 0..2 {
            assert_eq!(field.data(x, y), before.data(x, y));
            assert_eq!(field.tile(x, y), before.tile(x, y));
        }
    }
    assert_ne!(field, before);
}

#[test]
fn placing_the_last_flag_evaluates_the_win() {
    let mut field = field_with_mines(2, &[(1, 1)]);
    field.reveal_tile(0, 0);
    field.reveal_tile(1, 0);
    field.reveal_tile(0, 1);
    assert!(!field.has_won());
    field.flag_tile(1, 1);
    assert!(field.has_won());
    assert!(field.game_over());
    assert!(!field.has_lost());
}

#[test]
fn reveal_tile_opens_a_safe_cell_only() {
    let mut field = field_with_mines(3, &[(1, 1)]);
    field.reveal_tile(2, 0);
    assert_eq!(field.data(2, 0), TileData::Known);
    assert_eq!(count_marks(&field, TileData::Known), 1);
    assert_eq!(count_marks(&field, TileData::Unknown), 8);
    assert!(!field.has_lost());
    assert_eq!(field.remaining_flags(), 1);
}

#[test]
fn reveal_tile_on_a_blank_cell_does_not_spread() {
    let mut field = Minefield::empty(4);
    field.reveal_tile(1, 1);
    assert_eq!(count_marks(&field, TileData::Known), 1);
    assert_eq!(count_marks(&field, TileData::Unknown), 15);
}

#[test]
fn revealing_a_mine_loses_and_shows_the_mines() {
    let mut field = field_with_mines(4, &[(0, 0), (1, 2), (3, 3)]);
    field.flag_tile(1, 2);
    field.flag_tile(2, 2);
    field.reveal_tile(3, 1);
    field.reveal_tile(0, 0);
    assert!(field.has_lost());
    assert!(field.game_over());
    assert!(!field.has_won());
    assert_eq!(field.data(0, 0), TileData::Known);
    assert_eq!(field.data(3, 3), TileData::Known);
    assert_eq!(field.data(1, 2), TileData::Flagged);
    assert_eq!(field.data(2, 2), TileData::WrongFlag);
    assert_eq!(field.data(3, 1), TileData::Known);
    assert_eq!(count_marks(&field, TileData::Unknown), 11);
    for x in 0..4 {
        for y in 0..4 {
            let mark = field.data(x, y);
            if field.tile(x, y) == Tile::Mine {
                assert!(mark == TileData::Known || mark == TileData::Flagged);
            } else {
                assert_ne!(mark, TileData::Flagged);
            }
        }
    }
    assert_eq!(field.remaining_flags(), 1);
}

#[test]
fn wrongly_flagged_cell_is_marked_when_the_game_is_lost() {
    let mut field = field_with_mines(3, &[(0, 0), (2, 2)]);
    field.flag_tile(1, 1);
    field.handle_click(0, 0);
    assert!(field.has_lost());
    assert_eq!(field.data(1, 1), TileData::WrongFlag);
    assert_eq!(field.data(0, 0), TileData::Known);
    assert_eq!(field.data(2, 2), TileData::Known);
    assert!(!field.has_won());
}

#[test]
fn reveal_all_mines_keeps_flags_on_mines_and_safe_unknown_cells() {
    let mut field = field_with_mines(3, &[(0, 0), (2, 2)]);
    field.flag_tile(0, 0);
    field.flag_tile(1, 0);
    field.reveal_tile(2, 2);
    assert_eq!(field.data(0, 0), TileData::Flagged);
    assert_eq!(field.data(1, 0), TileData::WrongFlag);
    assert_eq!(field.data(2, 2), TileData::Known);
    assert_eq!(field.data(1, 1), TileData::Unknown);
    let before = field.clone();
    field.reveal_all_mines();
    assert_eq!(field, before);
}

#[test]
fn check_win_needs_every_flag_placed() {
    let mut field = field_with_mines(2, &[(0, 0), (1, 1)]);
    field.reveal_tile(1, 0);
    field.reveal_tile(0, 1);
    field.flag_tile(0, 0);
    field.check_win();
    assert!(!field.has_won());
    assert!(!field.is_winning());
    field.flag_tile(1, 1);
    assert!(field.has_won());
}

#[test]
fn check_win_reports_not_won_while_a_safe_cell_is_unknown() {
    let mut field = field_with_mines(3, &[(0, 0), (2, 1)]);
    field.flag_tile(0, 0);
    field.flag_tile(2, 1);
    for &(x, y) in &[(1, 0), (2, 0), (0, 1), (1, 1), (0, 2), (1, 2)] {
        field.reveal_tile(x, y);
    }
    assert_eq!(field.data(2, 2), TileData::Unknown);
    field.check_win();
    assert!(!field.has_won());
    assert!(!field.game_over());
    field.reveal_tile(2, 2);
    field.check_win();
    assert!(field.has_won());
}

#[test]
fn check_win_refuses_a_flag_on_a_safe_cell() {
    let mut field = field_with_mines(2, &[(0, 0)]);
    field.reveal_tile(1, 0);
    field.reveal_tile(0, 1);
    field.flag_tile(1, 1);
    assert_eq!(field.remaining_flags(), 0);
    assert_eq!(field.data(1, 1), TileData::Flagged);
    assert!(!field.has_won());
    assert!(!field.is_winning());
    field.check_win();
    assert!(!field.has_won());
}

#[test]
fn check_win_never_wins_a_lost_game() {
    let mut field = field_with_mines(2, &[(0, 0)]);
    field.reveal_tile(1, 0);
    field.reveal_tile(0, 1);
    field.reveal_tile(1, 1);
    field.reveal_tile(0, 0);
    assert!(field.has_lost());
    assert_eq!(count_marks(&field, TileData::Unknown), 0);
    field.check_win();
    assert!(!field.has_won());
    assert!(!field.is_winning());
    assert!(field.game_over());
}

#[test]
fn check_win_is_idempotent() {
    let mut field = field_with_mines(2, &[(1, 1)]);
    field.reveal_tile(0, 0);
    field.reveal_tile(1, 0);
    field.reveal_tile(0, 1);
    field.flag_tile(1, 1);
    let won = field.clone();
    field.check_win();
    assert_eq!(field, won);
    field.check_win();
    assert_eq!(field, won);
}

#[test]
fn empty_field_wins_once_every_cell_is_known() {
    let mut field = Minefield::empty(2);
    field.check_win();
    assert!(!field.has_won());
    for x in 0..2 {
        for y in 0..2 {
            field.reveal_tile(x, y);
        }
    }
    field.check_win();
    assert!(field.has_won());
}
