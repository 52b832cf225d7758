use minesweeper::field::{clamp_seconds, Game, GameState};

const SECOND: u128 = 1_000_000_000;

#[test]
fn clamp_seconds_counts_whole_seconds() {
    assert_eq!(clamp_seconds(0), 0);
    assert_eq!(clamp_seconds(SECOND - 1), 0);
    assert_eq!(clamp_seconds(SECOND), 1);
    assert_eq!(clamp_seconds(2 * SECOND - 1), 1);
    assert_eq!(clamp_seconds(59 * SECOND + 999_999_999), 59);
}

#[test]
fn clamp_seconds_stops_at_the_limit() {
    assert_eq!(clamp_seconds(998 * SECOND), 998);
    assert_eq!(clamp_seconds(999 * SECOND), 999);
    assert_eq!(clamp_seconds(1000 * SECOND), 999);
    assert_eq!(clamp_seconds(5_000_000 * SECOND), 999);
    assert_eq!(clamp_seconds(u128::MAX), 999);
}

#[test]
fn timer_shows_zero_before_the_first_reveal() {
    let game = Game::with_mines(3, 3, &vec![(0, 0)]).unwrap();
    assert_eq!(game.time_at(0), 0);
    assert_eq!(game.time_at(77 * SECOND), 0);
    assert_eq!(game.time_at(u128::MAX), 0);
    assert_eq!(game.time(), 0);
}

#[test]
fn timer_counts_from_the_first_reveal() {
    let mut game = Game::with_mines(3, 3, &vec![(0, 0)]).unwrap();
    game.reveal_tile_at(1, 1, 10 * SECOND + 500);
    assert_eq!(game.time_at(10 * SECOND + 500), 0);
    assert_eq!(game.time_at(11 * SECOND + 499), 0);
    assert_eq!(game.time_at(11 * SECOND + 500), 1);
    assert_eq!(game.time_at(13 * SECOND), 2);
    assert_eq!(game.time_at(2000 * SECOND), 999);
}

#[test]
fn timer_shows_zero_if_the_clock_went_back() {
    let mut game = Game::with_mines(3, 3, &vec![(0, 0)]).unwrap();
    game.reveal_tile_at(1, 1, 10 * SECOND);
    assert_eq!(game.time_at(3 * SECOND), 0);
    game.reveal_tile_at(0, 0, 3 * SECOND);
    assert_eq!(*game.state(), GameState::Boom(0));
}

#[test]
fn timer_never_goes_back_while_playing() {
    let mut game = Game::with_mines(4, 4, &vec![(0, 0)]).unwrap();
    let mut last = game.time_at(0);
    let mut now: u128 = 0;
    for step in 0..400u128 {
        now += step * 37_000_000;
        if step == 5 {
            game.reveal_tile_at(1, 1, now);
        }
        if step == 100 {
            game.flag_tile(3, 3);
        }
        if step == 200 {
            game.reveal_tile_at(0, 1, now);
        }
        let shown = game.time_at(now);
        assert!(shown >= last);
        assert!(shown >= 0 && shown <= 999);
        last = shown;
    }
    assert!(last > 0);
}

#[test]
fn timer_is_frozen_once_the_game_is_lost() {
    let mut game = Game::with_mines(3, 3, &vec![(0, 0)]).unwrap();
    game.reveal_tile_at(2, 2, 4 * SECOND);
    assert_eq!(game.time_at(20 * SECOND), 16);
    game.reveal_tile_at(0, 0, 21 * SECOND + 1);
    assert_eq!(*game.state(), GameState::Boom(17 * SECOND + 1));
    assert_eq!(game.time_at(21 * SECOND + 1), 17);
    assert_eq!(game.time_at(0), 17);
    assert_eq!(game.time_at(5000 * SECOND), 17);
    assert_eq!(game.time(), 17);
    assert_eq!(game.time(), 17);
}

#[test]
fn timer_is_frozen_once_the_game_is_won() {
    let mut game = Game::with_mines(3, 3, &vec![(0, 0)]).unwrap();
    game.reveal_tile_at(2, 2, 4 * SECOND);
    game.game_yay_at(1500 * SECOND);
    assert_eq!(*game.state(), GameState::Victory(1496 * SECOND));
    assert_eq!(game.time_at(0), 999);
    assert_eq!(game.time_at(9999 * SECOND), 999);
    assert_eq!(game.time(), 999);
}

#[test]
fn timer_of_a_game_lost_at_the_first_reveal() {
    let mut game = Game::with_mines(3, 3, &vec![(0, 0)]).unwrap();
    game.reveal_tile(0, 0);
    assert_eq!(*game.state(), GameState::Boom(0));
    assert_eq!(game.time(), 0);
}

#[test]
fn timer_runs_on_the_real_clock() {
    let mut game = Game::with_mines(3, 3, &vec![(0, 0)]).unwrap();
    game.reveal_tile(1, 1);
    let first = game.time();
    let second = game.time();
    assert!(first >= 0);
    assert!(second >= first);
    assert!(second <= 999);
    match *game.state() {
        GameState::Playing(Some(start)) => assert!(start < 3600 * SECOND),
        _ => panic!("the game is under way and its clock runs"),
    }
}
