use ratatui_game_of_life::cell::{Cell, State};
use ratatui_game_of_life::engine::get_neighbors;
use ratatui_game_of_life::grid::{Coords, GameOfLife};

fn at(x: usize, y: usize) -> Coords {
    Coords { x, y }
}

fn neighbors(alive: usize, dead: usize) -> Vec<Cell> {
    let mut cells = vec![Cell::new(State::Alive); alive];
    cells.extend(vec![Cell::new(State::Dead); dead]);
    cells
}

#[test]
fn new_cell_has_the_state_given() {
    assert_eq!(Cell::new(State::Alive), Cell { state: State::Alive });
    assert_eq!(Cell::new(State::Dead), Cell { state: State::Dead });
    assert_ne!(Cell::new(State::Alive), Cell::new(State::Dead));
}

#[test]
fn live_cell_survives_with_two_or_three() {
    let cell = Cell::new(State::Alive);
    assert_eq!(cell.next_state(neighbors(2, 6)).state, State::Alive);
    assert_eq!(cell.next_state(neighbors(3, 5)).state, State::Alive);
}

#[test]
fn live_cell_dies_with_fewer_than_two() {
    let cell = Cell::new(State::Alive);
    assert_eq!(cell.next_state(neighbors(0, 8)).state, State::Dead);
    assert_eq!(cell.next_state(neighbors(1, 7)).state, State::Dead);
    assert_eq!(cell.next_state(neighbors(0, 0)).state, State::Dead);
}

#[test]
fn live_cell_dies_with_more_than_three() {
    let cell = Cell::new(State::Alive);
    for alive in 4..=8 {
        assert_eq!(cell.next_state(neighbors(alive, 8 - alive)).state, State::Dead);
    }
}

#[test]
fn dead_cell_is_born_with_exactly_three() {
    let cell = Cell::new(State::Dead);
    assert_eq!(cell.next_state(neighbors(3, 5)).state, State::Alive);
    assert_eq!(cell.next_state(neighbors(3, 0)).state, State::Alive);
}

#[test]
fn dead_cell_stays_dead_otherwise() {
    let cell = Cell::new(State::Dead);
    for alive in [0, 1, 2, 4, 5, 6, 7, 8] {
        assert_eq!(cell.next_state(neighbors(alive, 8 - alive)).state, State::Dead);
    }
}

#[test]
fn the_order_of_the_neighbors_does_not_matter() {
    let cell = Cell::new(State::Dead);
    let alive = Cell::new(State::Alive);
    let dead = Cell::new(State::Dead);
    assert_eq!(cell.next_state(vec![alive, dead, alive, dead, alive]).state, State::Alive);
    assert_eq!(cell.next_state(vec![dead, dead, alive, alive, alive]).state, State::Alive);
}

#[test]
fn inner_cell_has_eight_neighbors() {
    let grid = GameOfLife::new(3, 3, vec![]);
    assert_eq!(get_neighbors(at(1, 1), &grid).len(), 8);
}

#[test]
fn edge_cell_has_five_neighbors() {
    let grid = GameOfLife::new(3, 3, vec![]);
    assert_eq!(get_neighbors(at(1, 0), &grid).len(), 5);
    assert_eq!(get_neighbors(at(1, 2), &grid).len(), 5);
    assert_eq!(get_neighbors(at(0, 1), &grid).len(), 5);
    assert_eq!(get_neighbors(at(2, 1), &grid).len(), 5);
}

#[test]
fn corner_cell_has_three_neighbors() {
    let grid = GameOfLife::new(3, 3, vec![]);
    assert_eq!(get_neighbors(at(0, 0), &grid).len(), 3);
    assert_eq!(get_neighbors(at(2, 0), &grid).len(), 3);
    assert_eq!(get_neighbors(at(0, 2), &grid).len(), 3);
    assert_eq!(get_neighbors(at(2, 2), &grid).len(), 3);
}

#[test]
fn single_cell_has_no_neighbors() {
    let grid = GameOfLife::new(1, 1, vec![at(0, 0)]);
    assert_eq!(get_neighbors(at(0, 0), &grid), vec![]);
}

#[test]
fn cells_of_a_single_row_or_column_have_at_most_two_neighbors() {
    let row = GameOfLife::new(3, 1, vec![]);
    assert_eq!(get_neighbors(at(0, 0), &row).len(), 1);
    assert_eq!(get_neighbors(at(1, 0), &row).len(), 2);
    assert_eq!(get_neighbors(at(2, 0), &row).len(), 1);
    let column = GameOfLife::new(1, 3, vec![]);
    assert_eq!(get_neighbors(at(0, 0), &column).len(), 1);
    assert_eq!(get_neighbors(at(0, 1), &column).len(), 2);
    assert_eq!(get_neighbors(at(0, 2), &column).len(), 1);
}

#[test]
fn neighbors_come_in_a_fixed_order() {
    let alive = Cell::new(State::Alive);
    let dead = Cell::new(State::Dead);
    // Only the cell above left of the centre is alive: it comes first.
    let grid = GameOfLife::new(3, 3, vec![at(0, 0)]);
    assert_eq!(
        get_neighbors(at(1, 1), &grid),
        vec![alive, dead, dead, dead, dead, dead, dead, dead]
    );
    // Below left comes second, left third.
    let grid = GameOfLife::new(3, 3, vec![at(0, 2)]);
    assert_eq!(get_neighbors(at(1, 1), &grid)[1], alive);
    let grid = GameOfLife::new(3, 3, vec![at(0, 1)]);
    assert_eq!(get_neighbors(at(1, 1), &grid)[2], alive);
    // Above right, above, below right, right, below.
    let grid = GameOfLife::new(3, 3, vec![at(2, 0)]);
    assert_eq!(get_neighbors(at(1, 1), &grid)[3], alive);
    let grid = GameOfLife::new(3, 3, vec![at(1, 0)]);
    assert_eq!(get_neighbors(at(1, 1), &grid)[4], alive);
    let grid = GameOfLife::new(3, 3, vec![at(2, 2)]);
    assert_eq!(get_neighbors(at(1, 1), &grid)[5], alive);
    let grid = GameOfLife::new(3, 3, vec![at(2, 1)]);
    assert_eq!(get_neighbors(at(1, 1), &grid)[6], alive);
    let grid = GameOfLife::new(3, 3, vec![at(1, 2)]);
    assert_eq!(get_neighbors(at(1, 1), &grid)[7], alive);
}

#[test]
fn a_cell_is_not_its_own_neighbor() {
    let grid = GameOfLife::new(3, 3, vec![at(1, 1)]);
    let around = get_neighbors(at(1, 1), &grid);
    assert_eq!(around.len(), 8);
    assert!(around.iter().all(|cell| cell.state == State::Dead));
}

#[test]
fn the_grid_does_not_wrap() {
    // Live cells along the right edge are no neighbours of the left edge.
    let grid = GameOfLife::new(4, 3, vec![at(3, 0), at(3, 1), at(3, 2)]);
    let around = get_neighbors(at(0, 1), &grid);
    assert_eq!(around.len(), 5);
    assert!(around.iter().all(|cell| cell.state == State::Dead));
    // Nor is the bottom edge a neighbour of the top edge.
    let grid = GameOfLife::new(3, 4, vec![at(0, 3), at(1, 3), at(2, 3)]);
    let around = get_neighbors(at(1, 0), &grid);
    assert_eq!(around.len(), 5);
    assert!(around.iter().all(|cell| cell.state == State::Dead));
}
