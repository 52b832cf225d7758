use minesweeper::field::Game;

fn lit(game: &Game) -> Vec<(usize, usize)> {
    let mut all = Vec::new();
    for x in 0..game.width() {
        for y in 0..game.height() {
            if game.preview_at(x, y) {
                all.push((x, y));
            }
        }
    }
    all
}

#[test]
fn hover_is_off_at_first() {
    let game = Game::with_mines(3, 3, &vec![(0, 0)]).unwrap();
    assert!(!game.preview());
    assert_eq!(lit(&game), vec![]);
}

#[test]
fn hover_over_a_hidden_tile_lights_it_alone() {
    let mut game = Game::with_mines(3, 3, &vec![(0, 0)]).unwrap();
    game.set_preview(Some((1, 1)));
    assert!(game.preview());
    assert_eq!(lit(&game), vec![(1, 1)]);
    game.set_preview(Some((0, 0)));
    assert_eq!(lit(&game), vec![(0, 0)]);
}

#[test]
fn hover_moved_off_the_board_is_off() {
    let mut game = Game::with_mines(3, 3, &vec![(0, 0)]).unwrap();
    game.set_preview(Some((1, 1)));
    game.set_preview(None);
    assert!(!game.preview());
    assert_eq!(lit(&game), vec![]);
}

#[test]
fn hover_over_a_flag_stays_where_it_was() {
    let mut game = Game::with_mines(3, 3, &vec![(0, 0)]).unwrap();
    game.flag_tile(2, 2);
    game.set_preview(Some((2, 2)));
    assert!(!game.preview());
    game.set_preview(Some((1, 0)));
    game.set_preview(Some((2, 2)));
    assert!(game.preview());
    assert_eq!(lit(&game), vec![(1, 0)]);
}

#[test]
fn hover_on_a_tile_flagged_later_lights_nothing() {
    let mut game = Game::with_mines(3, 3, &vec![(0, 0)]).unwrap();
    game.set_preview(Some((2, 2)));
    game.flag_tile(2, 2);
    assert!(game.preview());
    assert_eq!(lit(&game), vec![]);
}

#[test]
fn hover_over_a_revealed_number_lights_the_hidden_tiles_around() {
    let mut game = Game::with_mines(4, 4, &vec![(0, 0)]).unwrap();
    game.reveal_tile(1, 1);
    game.set_preview(Some((1, 1)));
    assert_eq!(
        lit(&game),
        vec![(0, 0), (0, 1), (0, 2), (1, 0), (1, 2), (2, 0), (2, 1), (2, 2)]
    );
    game.flag_tile(0, 0);
    assert_eq!(lit(&game), vec![(0, 1), (0, 2), (1, 0), (1, 2), (2, 0), (2, 1), (2, 2)]);
    game.reveal_tile(0, 1);
    assert_eq!(lit(&game), vec![(0, 2), (1, 0), (1, 2), (2, 0), (2, 1), (2, 2)]);
    // (2,2) has no mine around it: the reveal spreads over all that is left.
    game.reveal_tile(2, 2);
    assert_eq!(lit(&game), vec![]);
}

#[test]
fn hover_over_a_revealed_zero_lights_nothing() {
    let mut game = Game::with_mines(5, 1, &vec![(0, 0)]).unwrap();
    game.flag_tile(3, 0);
    game.reveal_tile(4, 0);
    game.flag_tile(3, 0);
    game.set_preview(Some((4, 0)));
    assert!(game.preview());
    assert_eq!(lit(&game), vec![]);
}

#[test]
fn hover_over_a_hidden_number_lights_it_alone() {
    let mut game = Game::with_mines(3, 3, &vec![(0, 0)]).unwrap();
    game.reveal_tile(0, 1);
    game.set_preview(Some((1, 1)));
    assert_eq!(lit(&game), vec![(1, 1)]);
}

#[test]
fn hover_lights_no_tile_two_steps_away() {
    let mut game = Game::with_mines(5, 5, &vec![(1, 1), (3, 3), (1, 3), (3, 1)]).unwrap();
    game.reveal_tile(2, 2);
    game.set_preview(Some((2, 2)));
    assert_eq!(
        lit(&game),
        vec![(1, 1), (1, 2), (1, 3), (2, 1), (2, 3), (3, 1), (3, 2), (3, 3)]
    );
    assert!(!game.preview_at(0, 2));
    assert!(!game.preview_at(2, 0));
    assert!(!game.preview_at(4, 2));
    assert!(!game.preview_at(2, 4));
    assert!(!game.preview_at(0, 0));
    assert!(!game.preview_at(2, 2));
}

#[test]
fn hover_does_nothing_once_the_game_is_over() {
    let mut game = Game::with_mines(3, 3, &vec![(0, 0)]).unwrap();
    game.set_preview(Some((1, 1)));
    game.reveal_tile(0, 0);
    assert!(!game.preview());
    game.set_preview(Some((2, 2)));
    assert!(!game.preview());
    assert_eq!(lit(&game), vec![]);
    game.set_preview(None);
    assert!(!game.preview());
}
