//! The transition from one generation to the next.

use crate::cell::Cell;
use crate::grid::{rows_of, Coords, GameOfLife};
use crate::model::{
    height, in_bounds, lemma_neighbor_cells_count, neighbor_cells, step, well_formed, width,
    with_cell_at,
};
use vstd::prelude::*;

verus! {

/// The cells around `coords` that lie inside the grid: up to eight, fewer at
/// an edge or a corner.
pub fn get_neighbors(coords: Coords, game: &GameOfLife) -> (cells: Vec<Cell>)
    requires
        in_bounds(game@, coords.x as int, coords.y as int),
    ensures
        cells@ == neighbor_cells(game@, coords.x as int, coords.y as int),
{
    let mut cells: Vec<Cell> = Vec::new();
    let x = coords.x;
    let y = coords.y;
    let x_not_low = coords.x != 0;
    let y_not_low = coords.y != 0;
    let x_not_high = coords.x != game.max_x() - 1;
    let y_not_high = coords.y != game.max_y() - 1;
    let ghost g = game@;
    let ghost (gx, gy) = (x as int, y as int);
    let ghost c0 = cells@;
    let ghost c1 = with_cell_at(c0, g, gx - 1, gy - 1);
    let ghost c2 = with_cell_at(c1, g, gx - 1, gy + 1);
    let ghost c3 = with_cell_at(c2, g, gx - 1, gy);
    let ghost c4 = with_cell_at(c3, g, gx + 1, gy - 1);
    let ghost c5 = with_cell_at(c4, g, gx, gy - 1);
    let ghost c6 = with_cell_at(c5, g, gx + 1, gy + 1);
    let ghost c7 = with_cell_at(c6, g, gx + 1, gy);
    if x_not_low {
        if y_not_low {
            cells.push(game.get_cell_at(Coords { x: x - 1, y: y - 1 }));
        }
        assert(cells@ == c1);
        if y_not_high {
            cells.push(game.get_cell_at(Coords { x: x - 1, y: y + 1 }));
        }
        assert(cells@ == c2);
        cells.push(game.get_cell_at(Coords { x: x - 1, y }));
    }
    assert(cells@ == c3);
    if y_not_low {
        if x_not_high {
            cells.push(game.get_cell_at(Coords { x: x + 1, y: y - 1 }));
        }
        assert(cells@ == c4);
        cells.push(game.get_cell_at(Coords { x, y: y - 1 }));
    }
    assert(cells@ == c5);
    if x_not_high {
        if y_not_high {
            cells.push(game.get_cell_at(Coords { x: x + 1, y: y + 1 }));
        }
        assert(cells@ == c6);
        cells.push(game.get_cell_at(Coords { x: x + 1, y }));
    }
    assert(cells@ == c7);
    if y_not_high {
        cells.push(game.get_cell_at(Coords { x, y: y + 1 }));
    }
    cells
}

impl GameOfLife {
    /// The next generation. Every cell is decided from the cells of `self`
    /// alone; `self` is left as it is.
    pub fn next_frame(&self) -> (next: GameOfLife)
        ensures
            next@ == step(self@),
            width(next@) == width(self@),
            height(next@) == height(self@),
    {
        proof {
            use_type_invariant(self);
        }
        let max_x = self.max_x();
        let max_y = self.max_y();
        let mut new_frame: Vec<Vec<Cell>> = Vec::new();
        let mut y: usize = 0;
        while y < max_y
            invariant
                y <= max_y,
                max_x == width(self@),
                max_y == height(self@),
                well_formed(self@),
                new_frame@.len() == y,
                forall|j: int| 0 <= j < y ==> (#[trigger] new_frame@[j])@ == step(self@)[j],
            decreases max_y - y,
        {
            let mut row: Vec<Cell> = Vec::new();
            let mut x: usize = 0;
            while x < max_x
                invariant
                    x <= max_x,
                    y < max_y,
                    max_x == width(self@),
                    max_y == height(self@),
                    well_formed(self@),
                    row@.len() == x,
                    forall|c: int| 0 <= c < x ==> #[trigger] row@[c] == step(self@)[y as int][c],
                decreases max_x - x,
            {
                let prev_cell = self.get_cell_at(Coords { x, y });
                let neighbors = get_neighbors(Coords { x, y }, self);
                proof {
                    lemma_neighbor_cells_count(self@, x as int, y as int);
                }
                row.push(prev_cell.next_state(neighbors));
                x += 1;
            }
            assert(row@ =~= step(self@)[y as int]);
            new_frame.push(row);
            y += 1;
        }
        assert(rows_of(new_frame) =~= step(self@));
        GameOfLife::from_rows(new_frame)
    }
}

} // verus!
