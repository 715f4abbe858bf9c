use ratatui_game_of_life::cell::State;
use ratatui_game_of_life::grid::{Coords, GameOfLife};

fn at(x: usize, y: usize) -> Coords {
    Coords { x, y }
}

#[test]
fn next_frame_keeps_width_and_height() {
    for (width, height) in [(1, 1), (1, 7), (7, 1), (3, 3), (50, 25), (60, 30), (4, 9)] {
        let grid = GameOfLife::new(width, height, vec![at(0, 0)]);
        let next = grid.next_frame();
        assert_eq!(next.max_x(), width);
        assert_eq!(next.max_y(), height);
    }
}

#[test]
fn next_frame_leaves_the_grid_as_it_was() {
    let grid = GameOfLife::new(3, 3, vec![at(0, 1), at(1, 1), at(2, 1)]);
    let before = grid.clone();
    let _ = grid.next_frame();
    assert_eq!(grid, before);
}

#[test]
fn dead_grid_stays_dead() {
    for (width, height) in [(1, 1), (2, 2), (5, 3), (50, 25), (80, 40)] {
        let grid = GameOfLife::new(width, height, vec![]);
        let next = grid.next_frame();
        assert_eq!(next, grid);
        assert_eq!(next.get_live_cells(), vec![]);
        assert_eq!(next.next_frame(), grid);
    }
}

#[test]
fn blinker_oscillates_with_period_two() {
    let horizontal = GameOfLife::new(3, 3, vec![at(0, 1), at(1, 1), at(2, 1)]);
    let vertical = horizontal.next_frame();
    assert_eq!(vertical.get_live_cells(), vec![at(1, 0), at(1, 1), at(1, 2)]);
    assert_eq!(vertical, GameOfLife::new(3, 3, vec![at(1, 0), at(1, 1), at(1, 2)]));
    let back = vertical.next_frame();
    assert_eq!(back.get_live_cells(), vec![at(0, 1), at(1, 1), at(2, 1)]);
    assert_eq!(back, horizontal);
}

#[test]
fn blinker_oscillates_in_a_larger_grid() {
    let horizontal = GameOfLife::new(9, 6, vec![at(0, 1), at(1, 1), at(2, 1)]);
    let vertical = horizontal.next_frame();
    assert_eq!(vertical.get_live_cells(), vec![at(1, 0), at(1, 1), at(1, 2)]);
    assert_eq!(vertical.next_frame(), horizontal);
}

#[test]
fn blinker_dump_after_each_step() {
    let grid = GameOfLife::new(3, 3, vec![at(0, 1), at(1, 1), at(2, 1)]);
    assert_eq!(grid.to_string(), "...\nooo\n...");
    let grid = grid.next_frame();
    assert_eq!(grid.to_string(), ".o.\n.o.\n.o.");
    let grid = grid.next_frame();
    assert_eq!(grid.to_string(), "...\nooo\n...");
}

#[test]
fn isolated_cell_dies() {
    let cases = [(1, 1, 0, 0), (3, 3, 1, 1), (5, 4, 0, 0), (5, 4, 4, 3), (60, 30, 59, 0)];
    for (width, height, x, y) in cases {
        let grid = GameOfLife::new(width, height, vec![at(x, y)]);
        let next = grid.next_frame();
        assert_eq!(next.get_cell_at(at(x, y)).state, State::Dead);
        assert_eq!(next.get_live_cells(), vec![]);
    }
}

#[test]
fn single_cell_grid_is_dead_after_every_step() {
    let mut alive = GameOfLife::new(1, 1, vec![at(0, 0)]);
    let mut dead = GameOfLife::new(1, 1, vec![]);
    for _ in 0..5 {
        alive = alive.next_frame();
        dead = dead.next_frame();
        assert_eq!(alive.get_cell_at(at(0, 0)).state, State::Dead);
        assert_eq!(dead.get_cell_at(at(0, 0)).state, State::Dead);
    }
}

#[test]
fn block_is_still() {
    let block = GameOfLife::new(4, 4, vec![at(1, 1), at(2, 1), at(1, 2), at(2, 2)]);
    assert_eq!(block.next_frame(), block);
}

#[test]
fn block_in_a_corner_is_still() {
    let block = GameOfLife::new(2, 2, vec![at(0, 0), at(1, 0), at(0, 1), at(1, 1)]);
    assert_eq!(block.next_frame(), block);
}

#[test]
fn crowded_cell_dies() {
    // The centre of a full 3 by 3 grid has eight live neighbours, the edges
    // five, the corners three.
    let mut seeds = Vec::new();
    for y in 0..3 {
        for x in 0..3 {
            seeds.push(at(x, y));
        }
    }
    let next = GameOfLife::new(3, 3, seeds).next_frame();
    assert_eq!(next.to_string(), "o.o\n...\no.o");
}

#[test]
fn three_live_neighbors_give_birth_at_an_edge() {
    // (1, 0) is dead and has the three live cells below it as neighbours.
    let next = GameOfLife::new(3, 2, vec![at(0, 1), at(1, 1), at(2, 1)]).next_frame();
    assert_eq!(next.to_string(), ".o.\n.o.");
}

#[test]
fn glider_moves_one_cell_diagonally_in_four_steps() {
    let glider = |dx: usize, dy: usize| {
        vec![
            at(1 + dx, dy),
            at(2 + dx, 1 + dy),
            at(dx, 2 + dy),
            at(1 + dx, 2 + dy),
            at(2 + dx, 2 + dy),
        ]
    };
    let mut grid = GameOfLife::new(8, 8, glider(0, 0));
    for _ in 0..4 {
        grid = grid.next_frame();
    }
    assert_eq!(grid, GameOfLife::new(8, 8, glider(1, 1)));
}

#[test]
fn next_frame_reaches_the_far_corner_of_a_large_grid() {
    // A blinker at the far corner of a 60 by 30 grid still turns.
    let grid = GameOfLife::new(60, 30, vec![at(57, 28), at(58, 28), at(59, 28)]);
    assert_eq!(
        grid.next_frame().get_live_cells(),
        vec![at(58, 27), at(58, 28), at(58, 29)]
    );
}

#[test]
fn next_frame_works_on_a_grid_of_two_cells() {
    let grid = GameOfLife::new(2, 1, vec![at(0, 0), at(1, 0)]);
    assert_eq!(grid.next_frame().get_live_cells(), vec![]);
}

#[test]
fn every_cell_is_decided_from_the_same_generation() {
    // Deciding in place, row by row, would give another result here: the
    // top row dies first and would then starve the second.
    let grid = GameOfLife::new(4, 4, vec![at(1, 0), at(2, 0), at(1, 1), at(2, 1), at(0, 2)]);
    assert_eq!(grid.to_string(), ".oo.\n.oo.\no...\n....");
    assert_eq!(grid.next_frame().to_string(), ".oo.\no.o.\n.o..\n....");
}
