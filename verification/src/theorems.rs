//! What holds of every grid and every generation.

use crate::cell::{lemma_alive_count_bound, next_state_of, Cell, State};
use crate::model::{
    alive_at, all_inside, height, in_bounds, inside, is_seed, lemma_neighbor_cells_count,
    live_coords, live_in_row, live_in_rows, live_neighbors, neighbor_cells, seeded, step,
    well_formed, width, with_cell_at, Grid, Point,
};
use crate::patterns::{horizontal_blinker, vertical_blinker};
use vstd::prelude::*;

verus! {

/// No cell of the grid is alive.
pub open spec fn all_dead(g: Grid) -> bool {
    forall|x: int, y: int| in_bounds(g, x, y) ==> (#[trigger] g[y][x]).state == State::Dead
}

/// A step keeps the width and the height, and so the grid's shape.
pub proof fn lemma_step_keeps_dimensions(g: Grid)
    requires
        well_formed(g),
    ensures
        width(step(g)) == width(g),
        height(step(g)) == height(g),
        well_formed(step(g)),
{
}

/// A step decides every cell by the rule, from the cell's own state and the
/// number of its live neighbours before the step.
pub proof fn lemma_step_cell(g: Grid, x: int, y: int)
    requires
        well_formed(g),
        in_bounds(g, x, y),
    ensures
        step(g)[y][x].state == next_state_of(g[y][x].state, live_neighbors(g, x, y)),
{
}

/// The positions are the same or next to each other, diagonals included.
pub open spec fn adjacent_or_same(x: int, y: int, a: int, b: int) -> bool {
    x - 1 <= a <= x + 1 && y - 1 <= b <= y + 1
}

/// A step decides a cell from the cell and its neighbours alone: two grids of
/// the same shape that agree on these agree on the cell after the step.
pub proof fn lemma_step_is_local(g1: Grid, g2: Grid, x: int, y: int)
    requires
        well_formed(g1),
        well_formed(g2),
        width(g1) == width(g2),
        height(g1) == height(g2),
        in_bounds(g1, x, y),
        forall|a: int, b: int|
            in_bounds(g1, a, b) && adjacent_or_same(x, y, a, b) ==> #[trigger] g1[b][a]
                == #[trigger] g2[b][a],
    ensures
        step(g1)[y][x] == step(g2)[y][x],
{
    assert(g1[y][x] == g2[y][x]);
    assert(alive_at(g1, x - 1, y - 1) == alive_at(g2, x - 1, y - 1));
    assert(alive_at(g1, x, y - 1) == alive_at(g2, x, y - 1));
    assert(alive_at(g1, x + 1, y - 1) == alive_at(g2, x + 1, y - 1));
    assert(alive_at(g1, x - 1, y) == alive_at(g2, x - 1, y));
    assert(alive_at(g1, x + 1, y) == alive_at(g2, x + 1, y));
    assert(alive_at(g1, x - 1, y + 1) == alive_at(g2, x - 1, y + 1));
    assert(alive_at(g1, x, y + 1) == alive_at(g2, x, y + 1));
    assert(alive_at(g1, x + 1, y + 1) == alive_at(g2, x + 1, y + 1));
}

/// A live cell stays alive exactly if two or three of its neighbours are
/// alive; every other live cell dies.
pub proof fn lemma_live_cell_fate(g: Grid, x: int, y: int)
    requires
        well_formed(g),
        in_bounds(g, x, y),
        g[y][x].state == State::Alive,
    ensures
        live_neighbors(g, x, y) == 2 || live_neighbors(g, x, y) == 3 ==> step(g)[y][x].state
            == State::Alive,
        live_neighbors(g, x, y) != 2 && live_neighbors(g, x, y) != 3 ==> step(g)[y][x].state
            == State::Dead,
{
}

/// A dead cell comes alive exactly if three of its neighbours are alive;
/// every other dead cell stays dead.
pub proof fn lemma_dead_cell_fate(g: Grid, x: int, y: int)
    requires
        well_formed(g),
        in_bounds(g, x, y),
        g[y][x].state == State::Dead,
    ensures
        live_neighbors(g, x, y) == 3 ==> step(g)[y][x].state == State::Alive,
        live_neighbors(g, x, y) != 3 ==> step(g)[y][x].state == State::Dead,
{
}

/// In a grid without a live cell no position has a live neighbour.
pub proof fn lemma_dead_grid_has_no_live_neighbors(g: Grid, x: int, y: int)
    requires
        well_formed(g),
        all_dead(g),
    ensures
        live_neighbors(g, x, y) == 0,
{
}

/// A grid without a live cell is its own next generation.
pub proof fn lemma_dead_grid_is_fixed(g: Grid)
    requires
        well_formed(g),
        all_dead(g),
    ensures
        step(g) == g,
        all_dead(step(g)),
{
    assert forall|y: int| 0 <= y < height(g) implies #[trigger] step(g)[y] =~= g[y] by {
        assert forall|x: int| 0 <= x < width(g) implies #[trigger] step(g)[y][x] == g[y][x] by {
            lemma_dead_grid_has_no_live_neighbors(g, x, y);
            assert(in_bounds(g, x, y));
        }
    }
    assert(step(g) =~= g);
}

/// A live cell without a live neighbour is dead after the step.
pub proof fn lemma_isolated_cell_dies(g: Grid, x: int, y: int)
    requires
        well_formed(g),
        in_bounds(g, x, y),
        g[y][x].state == State::Alive,
        live_neighbors(g, x, y) == 0,
    ensures
        step(g)[y][x].state == State::Dead,
{
}

/// A grid with one live cell has no live cell after the step.
pub proof fn lemma_lone_cell_leaves_dead_grid(g: Grid, x: int, y: int)
    requires
        well_formed(g),
        in_bounds(g, x, y),
        forall|a: int, b: int|
            in_bounds(g, a, b) ==> ((#[trigger] g[b][a]).state == State::Alive <==> a == x && b
                == y),
    ensures
        all_dead(step(g)),
{
    assert forall|a: int, b: int| in_bounds(step(g), a, b) implies (#[trigger] step(
        g,
    )[b][a]).state == State::Dead by {
        assert(in_bounds(g, a, b));
        assert(live_neighbors(g, a, b) <= 1);
        assert(a == x && b == y ==> live_neighbors(g, a, b) == 0);
    }
}

/// The one cell of a grid of one row and one column has no neighbour, and is
/// dead after the step whatever it was before.
pub proof fn lemma_single_cell_grid(g: Grid)
    requires
        well_formed(g),
        width(g) == 1,
        height(g) == 1,
    ensures
        neighbor_cells(g, 0, 0) == Seq::<Cell>::empty(),
        live_neighbors(g, 0, 0) == 0,
        step(g)[0][0].state == State::Dead,
        all_dead(step(g)),
{
}

/// How many of the indices `i - 1`, `i` and `i + 1` lie in `0..n`, for an `i`
/// that does.
pub open spec fn span(i: int, n: nat) -> nat {
    if n == 1 {
        1
    } else if i == 0 || i == n - 1 {
        2
    } else {
        3
    }
}

/// A cell has as many neighbours as the block of up to three columns and
/// three rows around it has cells, less the cell itself: eight inside the
/// grid, five on an edge, three in a corner, and fewer still where the grid
/// is a single row or column. None of them lies outside the grid.
pub proof fn lemma_neighbor_cells_len(g: Grid, x: int, y: int)
    requires
        well_formed(g),
        in_bounds(g, x, y),
    ensures
        neighbor_cells(g, x, y).len() == span(x, width(g)) * span(y, height(g)) - 1,
        neighbor_cells(g, x, y).len() <= 8,
        live_neighbors(g, x, y) <= neighbor_cells(g, x, y).len(),
{
    lemma_neighbor_cells_count(g, x, y);
    lemma_alive_count_bound(neighbor_cells(g, x, y));
    let left: int = if x > 0 { 1 } else { 0 };
    let right: int = if x + 1 < width(g) { 1 } else { 0 };
    let up: int = if y > 0 { 1 } else { 0 };
    let down: int = if y + 1 < height(g) { 1 } else { 0 };
    let c1 = with_cell_at(Seq::empty(), g, x - 1, y - 1);
    let c2 = with_cell_at(c1, g, x - 1, y + 1);
    let c3 = with_cell_at(c2, g, x - 1, y);
    let c4 = with_cell_at(c3, g, x + 1, y - 1);
    let c5 = with_cell_at(c4, g, x, y - 1);
    let c6 = with_cell_at(c5, g, x + 1, y + 1);
    let c7 = with_cell_at(c6, g, x + 1, y);
    let c8 = with_cell_at(c7, g, x, y + 1);
    assert(c3.len() == left * (up + down + 1) && c3.len() <= 3) by {
        assert(c1.len() == if x > 0 && y > 0 { 1int } else { 0 });
        assert(c2.len() == c1.len() + if x > 0 && y + 1 < height(g) { 1int } else { 0 });
        assert(c3.len() == c2.len() + left);
        if x > 0 {
            assert(left * (up + down + 1) == up + down + 1);
        } else {
            assert(left * (up + down + 1) == 0);
        }
    }
    assert(c5.len() == c3.len() + up * (right + 1) && c5.len() <= c3.len() + 2) by {
        assert(c4.len() == c3.len() + if x + 1 < width(g) && y > 0 { 1int } else { 0 });
        assert(c5.len() == c4.len() + up);
        if y > 0 {
            assert(up * (right + 1) == right + 1);
        } else {
            assert(up * (right + 1) == 0);
        }
    }
    assert(c8.len() == c5.len() + right * (down + 1) + down && c8.len() <= c5.len() + 3) by {
        assert(c6.len() == c5.len() + if x + 1 < width(g) && y + 1 < height(g) { 1int } else { 0 });
        assert(c7.len() == c6.len() + right);
        assert(c8.len() == c7.len() + down);
        if x + 1 < width(g) {
            assert(right * (down + 1) == down + 1);
        } else {
            assert(right * (down + 1) == 0);
        }
    }
    assert(span(x, width(g)) == left + 1 + right);
    assert(span(y, height(g)) == up + 1 + down);
    assert(left * (up + down + 1) + up * (right + 1) + right * (down + 1) + down == (left + 1
        + right) * (up + 1 + down) - 1) by (nonlinear_arith);
    assert(c8 == neighbor_cells(g, x, y));
}

/// `p` comes before `q` when the grid is read row by row, each row from the
/// left.
pub open spec fn row_major_before(p: Point, q: Point) -> bool {
    p.1 < q.1 || (p.1 == q.1 && p.0 < q.0)
}

/// The live positions of the first `n` columns of a row: each lies in that
/// row and is alive, they come from left to right, and none is missing.
pub proof fn lemma_live_in_row(g: Grid, y: int, n: nat)
    requires
        well_formed(g),
        0 <= y < height(g),
        n <= width(g),
    ensures
        forall|i: int|
            0 <= i < live_in_row(g, y, n).len() ==> {
                let p = #[trigger] live_in_row(g, y, n)[i];
                p.1 == y && 0 <= p.0 < n && g[y][p.0].state == State::Alive
            },
        forall|i: int, j: int|
            0 <= i < j < live_in_row(g, y, n).len() ==> (#[trigger] live_in_row(g, y, n)[i]).0 < (
            #[trigger] live_in_row(g, y, n)[j]).0,
        forall|x: int|
            0 <= x < n && (#[trigger] g[y][x]).state == State::Alive ==> live_in_row(
                g,
                y,
                n,
            ).contains((x, y)),
    decreases n,
{
    if n > 0 {
        let before = live_in_row(g, y, (n - 1) as nat);
        let row = live_in_row(g, y, n);
        lemma_live_in_row(g, y, (n - 1) as nat);
        assert forall|x: int|
            0 <= x < n && (#[trigger] g[y][x]).state == State::Alive implies row.contains(
            (x, y),
        ) by {
            if x < n - 1 {
                let i = choose|i: int| 0 <= i < before.len() && before[i] == (x, y);
                assert(row[i] == (x, y));
            } else {
                assert(row[before.len() as int] == (x, y));
            }
        }
    }
}

/// The live positions of the first `m` rows: each lies in those rows and is
/// alive, they come in row-major order, and none is missing.
pub proof fn lemma_live_in_rows(g: Grid, m: nat)
    requires
        well_formed(g),
        m <= height(g),
    ensures
        forall|i: int|
            0 <= i < live_in_rows(g, m).len() ==> {
                let p = #[trigger] live_in_rows(g, m)[i];
                0 <= p.1 < m && 0 <= p.0 < width(g) && g[p.1][p.0].state == State::Alive
            },
        forall|i: int, j: int|
            0 <= i < j < live_in_rows(g, m).len() ==> row_major_before(
                #[trigger] live_in_rows(g, m)[i],
                #[trigger] live_in_rows(g, m)[j],
            ),
        forall|x: int, y: int|
            0 <= x < width(g) && 0 <= y < m && (#[trigger] g[y][x]).state == State::Alive
                ==> live_in_rows(g, m).contains((x, y)),
    decreases m,
{
    if m > 0 {
        let above = live_in_rows(g, (m - 1) as nat);
        let row = live_in_row(g, m - 1, width(g));
        let all = live_in_rows(g, m);
        lemma_live_in_rows(g, (m - 1) as nat);
        lemma_live_in_row(g, m - 1, width(g));
        assert forall|i: int| 0 <= i < all.len() implies {
            let p = #[trigger] all[i];
            0 <= p.1 < m && 0 <= p.0 < width(g) && g[p.1][p.0].state == State::Alive
        } by {
            if i < above.len() {
                assert(all[i] == above[i]);
            } else {
                assert(all[i] == row[i - above.len()]);
            }
        }
        assert forall|i: int, j: int| 0 <= i < j < all.len() implies row_major_before(
            #[trigger] all[i],
            #[trigger] all[j],
        ) by {
            if j < above.len() {
                assert(all[i] == above[i] && all[j] == above[j]);
            } else if i < above.len() {
                assert(all[i] == above[i] && all[j] == row[j - above.len()]);
            } else {
                assert(all[i] == row[i - above.len()] && all[j] == row[j - above.len()]);
            }
        }
        assert forall|x: int, y: int|
            0 <= x < width(g) && 0 <= y < m && (#[trigger] g[y][x]).state
                == State::Alive implies all.contains((x, y)) by {
            if y < m - 1 {
                let i = choose|i: int| 0 <= i < above.len() && above[i] == (x, y);
                assert(all[i] == (x, y));
            } else {
                let i = choose|i: int| 0 <= i < row.len() && row[i] == (x, y);
                assert(all[above.len() + i] == (x, y));
            }
        }
    }
}

/// The list of live positions holds exactly the positions inside the grid
/// whose cell is alive.
pub proof fn lemma_live_coords_are_the_live_cells(g: Grid, x: int, y: int)
    requires
        well_formed(g),
    ensures
        live_coords(g).contains((x, y)) <==> in_bounds(g, x, y) && g[y][x].state == State::Alive,
{
    lemma_live_in_rows(g, height(g));
    if live_coords(g).contains((x, y)) {
        let i = choose|i: int| 0 <= i < live_coords(g).len() && live_coords(g)[i] == (x, y);
        assert(live_in_rows(g, height(g))[i] == (x, y));
    }
}

/// The list of live positions is in row-major order, so no position occurs in
/// it twice.
pub proof fn lemma_live_coords_are_ordered(g: Grid, i: int, j: int)
    requires
        well_formed(g),
        0 <= i < j < live_coords(g).len(),
    ensures
        row_major_before(live_coords(g)[i], live_coords(g)[j]),
        live_coords(g)[i] != live_coords(g)[j],
{
    lemma_live_in_rows(g, height(g));
}

/// A grid without a live cell has an empty list of live positions.
pub proof fn lemma_dead_grid_has_no_live_coords(g: Grid)
    requires
        well_formed(g),
        all_dead(g),
    ensures
        live_coords(g) == Seq::<Point>::empty(),
{
    lemma_live_in_rows(g, height(g));
    if live_coords(g).len() > 0 {
        let p = live_in_rows(g, height(g))[0];
        assert(in_bounds(g, p.0, p.1));
        assert(g[p.1][p.0].state == State::Dead);
    }
    assert(live_coords(g) =~= Seq::<Point>::empty());
}

/// A grid with one live cell has that cell's position as its whole list of
/// live positions.
pub proof fn lemma_one_live_cell_is_listed_alone(g: Grid, x: int, y: int)
    requires
        well_formed(g),
        in_bounds(g, x, y),
        forall|a: int, b: int|
            in_bounds(g, a, b) ==> ((#[trigger] g[b][a]).state == State::Alive <==> a == x && b
                == y),
    ensures
        live_coords(g) == seq![(x, y)],
{
    let all = live_coords(g);
    lemma_live_in_rows(g, height(g));
    assert(g[y][x].state == State::Alive);
    assert(all.contains((x, y)));
    assert forall|i: int| 0 <= i < all.len() implies #[trigger] all[i] == (x, y) by {
        let p = live_in_rows(g, height(g))[i];
        assert(in_bounds(g, p.0, p.1));
        assert(g[p.1][p.0].state == State::Alive);
    }
    if all.len() > 1 {
        lemma_live_coords_are_ordered(g, 0, 1);
    }
    assert(all =~= seq![(x, y)]);
}

/// A grid made from seeds lists as alive exactly the seeds.
pub proof fn lemma_seeds_are_the_live_coords(w: nat, h: nat, seeds: Seq<Point>, x: int, y: int)
    requires
        w >= 1,
        h >= 1,
        all_inside(w, h, seeds),
    ensures
        live_coords(seeded(w, h, seeds)).contains((x, y)) <==> seeds.contains((x, y)),
{
    let g = seeded(w, h, seeds);
    lemma_live_coords_are_the_live_cells(g, x, y);
    if seeds.contains((x, y)) {
        let i = choose|i: int| 0 <= i < seeds.len() && seeds[i] == (x, y);
        assert(inside(w, h, seeds[i]));
    }
}

/// The seeds of the horizontal blinker are the first three positions of the
/// second row.
pub proof fn lemma_horizontal_blinker_seeds(x: int, y: int)
    ensures
        is_seed(horizontal_blinker(), x, y) <==> y == 1 && 0 <= x <= 2,
{
    let seeds = horizontal_blinker();
    assert(seeds[0] == (0int, 1int) && seeds[1] == (1int, 1int) && seeds[2] == (2int, 1int));
}

/// The seeds of the vertical blinker are the first three positions of the
/// second column.
pub proof fn lemma_vertical_blinker_seeds(x: int, y: int)
    ensures
        is_seed(vertical_blinker(), x, y) <==> x == 1 && 0 <= y <= 2,
{
    let seeds = vertical_blinker();
    assert(seeds[0] == (1int, 0int) && seeds[1] == (1int, 1int) && seeds[2] == (1int, 2int));
}

/// In a grid of at least three rows and three columns, the horizontal blinker
/// becomes the vertical one in one step.
pub proof fn lemma_blinker_turns_upright(w: nat, h: nat)
    requires
        w >= 3,
        h >= 3,
    ensures
        step(seeded(w, h, horizontal_blinker())) == seeded(w, h, vertical_blinker()),
{
    let g = seeded(w, h, horizontal_blinker());
    let next = seeded(w, h, vertical_blinker());
    assert forall|y: int| 0 <= y < h implies #[trigger] step(g)[y] =~= next[y] by {
        assert forall|x: int| 0 <= x < w implies #[trigger] step(g)[y][x] == next[y][x] by {
            lemma_vertical_blinker_seeds(x, y);
            lemma_horizontal_blinker_seeds(x - 1, y - 1);
            lemma_horizontal_blinker_seeds(x, y - 1);
            lemma_horizontal_blinker_seeds(x + 1, y - 1);
            lemma_horizontal_blinker_seeds(x - 1, y);
            lemma_horizontal_blinker_seeds(x, y);
            lemma_horizontal_blinker_seeds(x + 1, y);
            lemma_horizontal_blinker_seeds(x - 1, y + 1);
            lemma_horizontal_blinker_seeds(x, y + 1);
            lemma_horizontal_blinker_seeds(x + 1, y + 1);
        }
    }
    assert(step(g) =~= next);
}

/// In a grid of at least three rows and three columns, the vertical blinker
/// becomes the horizontal one in one step.
pub proof fn lemma_blinker_lies_down(w: nat, h: nat)
    requires
        w >= 3,
        h >= 3,
    ensures
        step(seeded(w, h, vertical_blinker())) == seeded(w, h, horizontal_blinker()),
{
    let g = seeded(w, h, vertical_blinker());
    let next = seeded(w, h, horizontal_blinker());
    assert forall|y: int| 0 <= y < h implies #[trigger] step(g)[y] =~= next[y] by {
        assert forall|x: int| 0 <= x < w implies #[trigger] step(g)[y][x] == next[y][x] by {
            lemma_horizontal_blinker_seeds(x, y);
            lemma_vertical_blinker_seeds(x - 1, y - 1);
            lemma_vertical_blinker_seeds(x, y - 1);
            lemma_vertical_blinker_seeds(x + 1, y - 1);
            lemma_vertical_blinker_seeds(x - 1, y);
            lemma_vertical_blinker_seeds(x, y);
            lemma_vertical_blinker_seeds(x + 1, y);
            lemma_vertical_blinker_seeds(x - 1, y + 1);
            lemma_vertical_blinker_seeds(x, y + 1);
            lemma_vertical_blinker_seeds(x + 1, y + 1);
        }
    }
    assert(step(g) =~= next);
}

/// The blinker has period two: two steps give the horizontal blinker back.
pub proof fn lemma_blinker_has_period_two(w: nat, h: nat)
    requires
        w >= 3,
        h >= 3,
    ensures
        step(step(seeded(w, h, horizontal_blinker()))) == seeded(w, h, horizontal_blinker()),
{
    lemma_blinker_turns_upright(w, h);
    lemma_blinker_lies_down(w, h);
}

} // verus!
