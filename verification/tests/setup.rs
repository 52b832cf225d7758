use minesweeper::field::{setup_fits, Game, GameState, Tile, TileContent};

fn is_bomb(tile: &Tile) -> bool {
    matches!(tile.content, TileContent::Bomb)
}

fn count_bombs(game: &Game) -> usize {
    let mut n = 0;
    for column in game.get_field() {
        for tile in column {
            if is_bomb(tile) {
                n += 1;
            }
        }
    }
    n
}

fn bombs_around(field: &Vec<Vec<Tile>>, x: usize, y: usize) -> i32 {
    let w = field.len() as i64;
    let h = field[0].len() as i64;
    let mut n = 0;
    for dx in -1i64..=1 {
        for dy in -1i64..=1 {
            if dx == 0 && dy == 0 {
                continue;
            }
            let (a, b) = (x as i64 + dx, y as i64 + dy);
            if a >= 0 && a < w && b >= 0 && b < h && is_bomb(&field[a as usize][b as usize]) {
                n += 1;
            }
        }
    }
    n
}

fn assert_counts_exact(game: &Game) {
    let field = game.get_field();
    for x in 0..field.len() {
        for y in 0..field[x].len() {
            if !is_bomb(&field[x][y]) {
                assert_eq!(field[x][y].content, TileContent::Empty(bombs_around(field, x, y)));
            }
        }
    }
}

#[test]
fn new_game_has_the_asked_shape() {
    let game = Game::new(9, 7, 10).unwrap();
    assert_eq!(game.width(), 9);
    assert_eq!(game.height(), 7);
    assert_eq!(game.size(), (9, 7));
    assert_eq!(game.get_field().len(), 9);
    for column in game.get_field() {
        assert_eq!(column.len(), 7);
    }
}

#[test]
fn new_game_places_exactly_mine_count_bombs() {
    for &(w, h, mines) in &[(8usize, 8usize, 10i32), (9, 9, 10), (16, 16, 40), (30, 16, 99), (3, 3, 8), (5, 1, 4)] {
        for _ in 0..20 {
            let game = Game::new(w, h, mines).unwrap();
            assert_eq!(count_bombs(&game), mines as usize);
        }
    }
}

#[test]
fn new_game_counts_are_exact() {
    for &(w, h, mines) in &[(8usize, 8usize, 10i32), (16, 16, 40), (30, 16, 99), (3, 3, 8), (1, 6, 3)] {
        for _ in 0..20 {
            let game = Game::new(w, h, mines).unwrap();
            assert_counts_exact(&game);
        }
    }
}

#[test]
fn new_game_is_hidden_unflagged_and_waiting() {
    let game = Game::new(8, 8, 10).unwrap();
    for column in game.get_field() {
        for tile in column {
            assert!(!tile.revealed);
            assert!(!tile.flagged);
        }
    }
    assert_eq!(*game.state(), GameState::Playing(None));
    assert!(!game.preview());
    assert_eq!(game.mines_remaining(), 10);
    assert_eq!(game.time(), 0);
}

#[test]
fn new_game_without_mines_is_all_zero() {
    let game = Game::new(4, 5, 0).unwrap();
    for column in game.get_field() {
        for tile in column {
            assert_eq!(tile.content, TileContent::Empty(0));
        }
    }
    assert_eq!(game.mines_remaining(), 0);
}

#[test]
fn new_game_on_a_single_tile() {
    let game = Game::new(1, 1, 0).unwrap();
    assert_eq!(game.size(), (1, 1));
    assert_eq!(game.get_field()[0][0].content, TileContent::Empty(0));
}

#[test]
fn new_game_on_a_nearly_full_board() {
    // With one free tile in 1600 most draws hit a mine: the last mines are
    // sent to a free tile directly.
    let game = Game::new(40, 40, 1599).unwrap();
    assert_eq!(count_bombs(&game), 1599);
    assert_counts_exact(&game);
}

#[test]
fn new_game_boards_differ() {
    // 64 tiles, 32 mines: two boards out of ten agreeing on every tile would
    // mean that the draws are no draws at all.
    let first = Game::new(8, 8, 32).unwrap();
    let mut differs = false;
    for _ in 0..10 {
        let next = Game::new(8, 8, 32).unwrap();
        if next.get_field() != first.get_field() {
            differs = true;
        }
    }
    assert!(differs);
}

#[test]
fn new_rejects_as_many_mines_as_tiles() {
    assert!(Game::new(3, 3, 9).is_none());
    assert!(Game::new(3, 3, 10).is_none());
    assert!(Game::new(8, 8, 64).is_none());
    assert!(Game::new(1, 1, 1).is_none());
    assert!(Game::new(3, 3, 8).is_some());
}

#[test]
fn new_rejects_a_negative_mine_count() {
    assert!(Game::new(3, 3, -1).is_none());
    assert!(Game::new(8, 8, i32::MIN).is_none());
}

#[test]
fn new_rejects_an_empty_board() {
    assert!(Game::new(0, 5, 0).is_none());
    assert!(Game::new(5, 0, 0).is_none());
    assert!(Game::new(0, 0, 0).is_none());
}

#[test]
fn new_rejects_a_board_too_large_to_count_flags_on() {
    assert!(Game::new(65536, 32768, 10).is_none());
    assert!(Game::new(usize::MAX, 2, 10).is_none());
    assert!(Game::new(usize::MAX, usize::MAX, 10).is_none());
}

#[test]
fn setup_fits_draws_the_line_at_the_area() {
    assert!(setup_fits(8, 8, 63));
    assert!(!setup_fits(8, 8, 64));
    assert!(setup_fits(8, 8, 0));
    assert!(!setup_fits(8, 8, -1));
    assert!(!setup_fits(0, 8, 0));
    assert!(setup_fits(46340, 46340, 10));
    assert!(!setup_fits(46341, 46341, 10));
    assert!(setup_fits(2147483647, 1, 2147483646));
    assert!(!setup_fits(2147483648, 1, 10));
}

#[test]
fn with_mines_puts_the_mines_where_asked() {
    let game = Game::with_mines(4, 3, &vec![(0, 0), (3, 2), (1, 1)]).unwrap();
    let field = game.get_field();
    for x in 0..4 {
        for y in 0..3 {
            let wanted = (x, y) == (0, 0) || (x, y) == (3, 2) || (x, y) == (1, 1);
            assert_eq!(is_bomb(&field[x][y]), wanted);
        }
    }
    assert_eq!(game.mines_remaining(), 3);
    assert_counts_exact(&game);
}

#[test]
fn with_mines_counts_by_hand() {
    // Mines on (0,0) and (1,1) of a 3 x 3 board.
    let game = Game::with_mines(3, 3, &vec![(0, 0), (1, 1)]).unwrap();
    let field = game.get_field();
    let wanted = [
        [None, Some(2), Some(1)],
        [Some(2), None, Some(1)],
        [Some(1), Some(1), Some(1)],
    ];
    for x in 0..3 {
        for y in 0..3 {
            match wanted[x][y] {
                None => assert_eq!(field[x][y].content, TileContent::Bomb),
                Some(n) => assert_eq!(field[x][y].content, TileContent::Empty(n)),
            }
        }
    }
}

#[test]
fn with_mines_counts_up_to_eight() {
    let ring = vec![(0, 0), (0, 1), (0, 2), (1, 0), (1, 2), (2, 0), (2, 1), (2, 2)];
    let game = Game::with_mines(3, 3, &ring).unwrap();
    assert_eq!(game.get_field()[1][1].content, TileContent::Empty(8));
}

#[test]
fn with_mines_is_hidden_unflagged_and_waiting() {
    let game = Game::with_mines(3, 3, &vec![(2, 1)]).unwrap();
    for column in game.get_field() {
        for tile in column {
            assert!(!tile.revealed);
            assert!(!tile.flagged);
        }
    }
    assert_eq!(*game.state(), GameState::Playing(None));
    assert!(!game.preview());
}

#[test]
fn with_mines_rejects_a_mine_off_the_board() {
    assert!(Game::with_mines(3, 3, &vec![(3, 0)]).is_none());
    assert!(Game::with_mines(3, 3, &vec![(0, 3)]).is_none());
    assert!(Game::with_mines(3, 3, &vec![(1, 1), (7, 7)]).is_none());
}

#[test]
fn with_mines_rejects_a_mine_listed_twice() {
    assert!(Game::with_mines(3, 3, &vec![(1, 1), (1, 1)]).is_none());
    assert!(Game::with_mines(3, 3, &vec![(0, 0), (1, 1), (2, 2), (0, 0)]).is_none());
}

#[test]
fn with_mines_rejects_a_full_board() {
    assert!(Game::with_mines(1, 2, &vec![(0, 0), (0, 1)]).is_none());
    assert!(Game::with_mines(1, 2, &vec![(0, 0)]).is_some());
    assert!(Game::with_mines(0, 0, &vec![]).is_none());
}
