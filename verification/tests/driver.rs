use ratatui_game_of_life::cell::State;
use ratatui_game_of_life::driver::{poll_timeout, Action, App, Input};
use ratatui_game_of_life::grid::{Coords, GameOfLife};
use ratatui_game_of_life::patterns::{starting_coords, MIN_HEIGHT, MIN_WIDTH};

#[test]
fn starting_pattern_has_blinker_glider_and_pulsar() {
    let coords = starting_coords();
    assert_eq!(coords.len(), 3 + 5 + 48);
    assert_eq!(coords[0], Coords { x: 0, y: 1 });
    assert_eq!(coords[2], Coords { x: 2, y: 1 });
    assert_eq!(coords[3], Coords { x: 6, y: 0 });
    assert_eq!(coords[7], Coords { x: 4, y: 1 });
    assert_eq!(coords[8], Coords { x: 5, y: 13 });
    assert_eq!(coords[55], Coords { x: 15, y: 23 });
}

#[test]
fn starting_pattern_just_fits_the_least_board() {
    let coords = starting_coords();
    assert_eq!(coords.iter().map(|c| c.x).max(), Some(MIN_WIDTH - 1));
    assert_eq!(coords.iter().map(|c| c.y).max(), Some(MIN_HEIGHT - 1));
    assert_eq!(MIN_WIDTH, 18);
    assert_eq!(MIN_HEIGHT, 24);
}

#[test]
fn new_app_holds_the_starting_pattern() {
    let app = App::new(18, 24);
    assert_eq!(app.board, GameOfLife::new(18, 24, starting_coords()));
    assert_eq!(app.board.get_live_cells().len(), 56);
    let app = App::new(80, 40);
    assert_eq!(app.board.max_x(), 80);
    assert_eq!(app.board.max_y(), 40);
    assert_eq!(app.board.get_cell_at(Coords { x: 1, y: 1 }).state, State::Alive);
    assert_eq!(app.board.get_cell_at(Coords { x: 79, y: 39 }).state, State::Dead);
}

#[test]
fn on_tick_advances_the_board() {
    let mut app = App::new(50, 25);
    let expected = app.board.next_frame();
    app.on_tick();
    assert_eq!(app.board, expected);
}

#[test]
fn q_quits_and_leaves_the_board() {
    let mut app = App::new(20, 24);
    let before = app.board.clone();
    assert_eq!(app.handle(Input::Key('q'), 1_000, 150), Action::Quit);
    assert_eq!(app.board, before);
    assert_eq!(app.handle(Input::Key('q'), 0, 150), Action::Quit);
    assert_eq!(app.board, before);
}

#[test]
fn another_key_does_not_quit() {
    let mut app = App::new(20, 24);
    let before = app.board.clone();
    assert_eq!(app.handle(Input::Key('Q'), 10, 150), Action::Waiting);
    assert_eq!(app.handle(Input::Key('x'), 10, 150), Action::Waiting);
    assert_eq!(app.board, before);
    assert_eq!(app.handle(Input::Key('x'), 150, 150), Action::Ticked);
    assert_eq!(app.board, before.next_frame());
}

#[test]
fn the_board_advances_once_a_tick_has_elapsed() {
    let mut app = App::new(20, 24);
    let before = app.board.clone();
    assert_eq!(app.handle(Input::Nothing, 149, 150), Action::Waiting);
    assert_eq!(app.board, before);
    assert_eq!(app.handle(Input::Nothing, 150, 150), Action::Ticked);
    assert_eq!(app.board, before.next_frame());
    assert_eq!(app.handle(Input::Nothing, 10_000, 150), Action::Ticked);
    assert_eq!(app.board, before.next_frame().next_frame());
}

#[test]
fn a_tick_rate_of_zero_ticks_every_time() {
    let mut app = App::new(20, 24);
    assert_eq!(app.handle(Input::Nothing, 0, 0), Action::Ticked);
}

#[test]
fn poll_timeout_is_what_is_left_of_the_tick() {
    assert_eq!(poll_timeout(150, 0), 150);
    assert_eq!(poll_timeout(150, 40), 110);
    assert_eq!(poll_timeout(150, 150), 0);
    assert_eq!(poll_timeout(150, 151), 0);
    assert_eq!(poll_timeout(150, u64::MAX), 0);
    assert_eq!(poll_timeout(u64::MAX, 1), u64::MAX - 1);
    assert_eq!(poll_timeout(0, 0), 0);
}
