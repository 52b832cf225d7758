use minesweeper::field::{Game, GameState};

#[test]
fn flag_sets_and_counts() {
    let mut game = Game::with_mines(3, 3, &vec![(0, 0), (1, 1)]).unwrap();
    assert_eq!(game.mines_remaining(), 2);
    game.flag_tile(2, 2);
    assert!(game.get_field()[2][2].flagged);
    assert!(!game.get_field()[2][2].revealed);
    assert_eq!(game.mines_remaining(), 1);
    game.flag_tile(0, 0);
    assert_eq!(game.mines_remaining(), 0);
}

#[test]
fn flag_twice_is_no_change() {
    let mut game = Game::with_mines(4, 4, &vec![(0, 0), (3, 1)]).unwrap();
    game.flag_tile(1, 2);
    game.reveal_tile_at(2, 3, 9);
    let field_then = game.get_field().clone();
    let left_then = game.mines_remaining();
    let state_then = *game.state();
    for &(x, y) in &[(0usize, 0usize), (1, 2), (2, 3), (3, 3), (3, 1)] {
        game.flag_tile(x, y);
        game.flag_tile(x, y);
        assert_eq!(*game.get_field(), field_then);
        assert_eq!(game.mines_remaining(), left_then);
        assert_eq!(*game.state(), state_then);
    }
}

#[test]
fn flag_more_tiles_than_mines_floors_at_zero() {
    let mut game = Game::with_mines(3, 3, &vec![(1, 1)]).unwrap();
    let mut shown = Vec::new();
    for x in 0..3 {
        for y in 0..3 {
            game.flag_tile(x, y);
            shown.push(game.mines_remaining());
        }
    }
    assert_eq!(shown, vec![0; 9]);
    // Eight flags too many: the first eight taken off still leave none to find.
    for x in 0..3 {
        for y in 0..3 {
            game.flag_tile(x, y);
            let taken = x * 3 + y + 1;
            assert_eq!(game.mines_remaining(), if taken == 9 { 1 } else { 0 });
        }
    }
}

#[test]
fn flag_of_a_revealed_tile_does_nothing() {
    let mut game = Game::with_mines(3, 3, &vec![(0, 0)]).unwrap();
    game.reveal_tile(1, 1);
    game.flag_tile(1, 1);
    assert!(!game.get_field()[1][1].flagged);
    assert!(game.get_field()[1][1].revealed);
    assert_eq!(game.mines_remaining(), 1);
}

#[test]
fn flag_after_the_game_is_lost_does_nothing() {
    let mut game = Game::with_mines(3, 3, &vec![(0, 0)]).unwrap();
    game.flag_tile(2, 2);
    game.reveal_tile(0, 0);
    assert!(matches!(game.state(), GameState::Boom(_)));
    game.flag_tile(1, 1);
    game.flag_tile(2, 2);
    assert!(!game.get_field()[1][1].flagged);
    assert!(game.get_field()[2][2].flagged);
    assert_eq!(game.mines_remaining(), 0);
}

#[test]
fn flag_does_not_start_the_clock() {
    let mut game = Game::new(8, 8, 10).unwrap();
    game.flag_tile(3, 4);
    assert_eq!(*game.state(), GameState::Playing(None));
    assert_eq!(game.time(), 0);
}

#[test]
fn mines_remaining_is_never_negative() {
    let mut game = Game::new(8, 8, 10).unwrap();
    for step in 0..500usize {
        let (x, y) = ((step * 5) % 8, (step * 3 + step / 8) % 8);
        game.flag_tile(x, y);
        let flags: i32 = game.get_field().iter().flatten().filter(|t| t.flagged).count() as i32;
        assert!(game.mines_remaining() >= 0);
        assert_eq!(game.mines_remaining(), (10 - flags).max(0));
    }
}
