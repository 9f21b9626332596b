use minesweeper::{Game, GenerationError, Tile, TileData};

fn count_marks(game: &Game, mark: TileData) -> usize {
    let field = game.field().unwrap();
    let mut count = 0;
    for x in 0..field.size() {
        for y in 0..field.size() {
            if field.data(x, y) == mark {
                count += 1;
            }
        }
    }
    count
}

#[test]
fn new_game_has_no_field_yet() {
    let game = Game::new(16, 64);
    assert_eq!(game.size(), 16);
    assert!(game.field().is_none());
    assert!(!game.game_over());
    assert_eq!(game, Game::Uninitialized { size: 16, mines: 64 });
}

#[test]
fn first_click_on_a_game_without_mines_opens_the_board_and_wins() {
    for x in 0..4 {
        for y in 0..4 {
            let mut game = Game::new(4, 0);
            assert_eq!(game.left_click(x, y, 5, u64::MAX), Ok(()));
            assert!(game.game_over());
            let field = game.field().unwrap();
            assert!(field.has_won());
            assert!(!field.has_lost());
            assert_eq!(field.remaining_flags(), 0);
            assert_eq!(count_marks(&game, TileData::Known), 16);
        }
    }
}

#[test]
fn first_click_lays_the_mines_and_expands_the_clicked_cell() {
    for seed in 0..10u64 {
        let mut game = Game::new(16, 64);
        assert_eq!(game.left_click(8, 8, seed, u64::MAX), Ok(()));
        let field = game.field().unwrap();
        assert_eq!(field.size(), 16);
        assert_eq!(field.remaining_flags(), 64);
        assert!(!field.has_lost());
        assert_eq!(field.tile(8, 8), Tile::Clear(0));
        for x in 7..10 {
            for y in 7..10 {
                assert_eq!(field.data(x, y), TileData::Known);
                assert_ne!(field.tile(x, y), Tile::Mine);
            }
        }
        let mut mines = 0;
        for x in 0..16 {
            for y in 0..16 {
                if field.tile(x, y) == Tile::Mine {
                    mines += 1;
                    assert_eq!(field.data(x, y), TileData::Unknown);
                }
            }
        }
        assert_eq!(mines, 64);
    }
}

#[test]
fn click_off_the_grid_is_ignored() {
    let mut game = Game::new(4, 2);
    assert_eq!(game.left_click(4, 0, 1, u64::MAX), Ok(()));
    assert_eq!(game.left_click(0, 9, 1, u64::MAX), Ok(()));
    assert!(game.field().is_none());
    game.right_click(7, 7);
    assert!(game.field().is_none());
    assert_eq!(game.left_click(0, 0, 1, u64::MAX), Ok(()));
    let before = game.clone();
    assert_eq!(game.left_click(4, 4, 1, u64::MAX), Ok(()));
    game.right_click(0, 4);
    assert_eq!(game, before);
}

#[test]
fn right_click_before_the_first_click_does_nothing() {
    let mut game = Game::new(4, 2);
    game.right_click(1, 1);
    assert_eq!(game, Game::new(4, 2));
}

#[test]
fn right_click_toggles_a_flag() {
    let mut game = Game::new(8, 10);
    assert_eq!(game.left_click(0, 0, 42, u64::MAX), Ok(()));
    assert_eq!(game.field().unwrap().data(7, 7), TileData::Unknown);
    game.right_click(7, 7);
    assert_eq!(game.field().unwrap().data(7, 7), TileData::Flagged);
    assert_eq!(game.field().unwrap().remaining_flags(), 9);
    game.right_click(7, 7);
    assert_eq!(game.field().unwrap().data(7, 7), TileData::Unknown);
    assert_eq!(game.field().unwrap().remaining_flags(), 10);
}

#[test]
fn clicks_are_ignored_once_the_game_is_over() {
    let mut game = Game::new(8, 10);
    assert_eq!(game.left_click(0, 0, 42, u64::MAX), Ok(()));
    let field = game.field().unwrap();
    let mut mine = (0, 0);
    for x in 0..8 {
        for y in 0..8 {
            if field.tile(x, y) == Tile::Mine {
                mine = (x, y);
            }
        }
    }
    assert_eq!(game.left_click(mine.0, mine.1, 1, u64::MAX), Ok(()));
    assert!(game.game_over());
    assert!(game.field().unwrap().has_lost());
    let lost = game.clone();
    for x in 0..8 {
        for y in 0..8 {
            assert_eq!(game.left_click(x, y, 1, u64::MAX), Ok(()));
            game.right_click(x, y);
        }
    }
    assert_eq!(game, lost);
}

#[test]
fn first_click_that_cannot_lay_the_mines_leaves_the_game_as_it_is() {
    let mut game = Game::new(4, 8);
    assert_eq!(game.left_click(1, 1, 1, u64::MAX), Err(GenerationError::TooManyMines));
    assert_eq!(game, Game::new(4, 8));
    assert_eq!(game.left_click(0, 0, 1, 3), Err(GenerationError::OutOfDraws));
    assert_eq!(game, Game::new(4, 8));
    assert_eq!(game.left_click(0, 0, 1, u64::MAX), Ok(()));
    assert_eq!(game.field().unwrap().remaining_flags(), 8);
}

#[test]
fn restart_forgets_the_field() {
    let mut game = Game::new(8, 10);
    assert_eq!(game.left_click(3, 3, 42, u64::MAX), Ok(()));
    assert!(game.field().is_some());
    game.restart();
    assert_eq!(game, Game::new(8, 10));
    game.restart();
    assert_eq!(game, Game::new(8, 10));
    assert_eq!(game.left_click(5, 5, 43, u64::MAX), Ok(()));
    assert_eq!(game.field().unwrap().tile(5, 5), Tile::Clear(0));
}
