//! The mathematical grid: rows of cells, and what the operations of the
//! library mean on it.

use crate::cell::{alive_count, lemma_alive_count_push, next_state_of, Cell, State};
use vstd::prelude::*;

verus! {

/// A grid as a sequence of rows, top row first; `g[y][x]` is the cell in
/// column `x` of row `y`.
pub type Grid = Seq<Seq<Cell>>;

/// A position as (column, row).
pub type Point = (int, int);

/// Number of rows.
pub open spec fn height(g: Grid) -> nat {
    g.len()
}

/// Number of columns, read from the first row.
pub open spec fn width(g: Grid) -> nat {
    if g.len() > 0 {
        g[0].len()
    } else {
        0
    }
}

/// A grid is rectangular and has at least one row and one column.
pub open spec fn well_formed(g: Grid) -> bool {
    &&& height(g) >= 1
    &&& width(g) >= 1
    &&& forall|y: int| 0 <= y < g.len() ==> (#[trigger] g[y]).len() == width(g)
}

/// The position lies inside the grid.
pub open spec fn in_bounds(g: Grid, x: int, y: int) -> bool {
    0 <= x < width(g) && 0 <= y < height(g)
}

/// 1 where the position lies inside the grid and holds a live cell, else 0.
pub open spec fn alive_at(g: Grid, x: int, y: int) -> nat {
    if in_bounds(g, x, y) && g[y][x].state == State::Alive {
        1
    } else {
        0
    }
}

/// The number of live cells among the up to eight positions around (x, y).
/// Positions outside the grid count as nothing: the grid does not wrap.
pub open spec fn live_neighbors(g: Grid, x: int, y: int) -> nat {
    alive_at(g, x - 1, y - 1) + alive_at(g, x, y - 1) + alive_at(g, x + 1, y - 1)
        + alive_at(g, x - 1, y) + alive_at(g, x + 1, y)
        + alive_at(g, x - 1, y + 1) + alive_at(g, x, y + 1) + alive_at(g, x + 1, y + 1)
}

/// `cells` followed by the cell at (x, y), or `cells` alone where the position
/// lies outside the grid.
pub open spec fn with_cell_at(cells: Seq<Cell>, g: Grid, x: int, y: int) -> Seq<Cell> {
    if in_bounds(g, x, y) {
        cells.push(g[y][x])
    } else {
        cells
    }
}

/// The cells around (x, y) that lie inside the grid: the left column (above,
/// below, beside), then above right and above, then below right and right,
/// then below.
pub open spec fn neighbor_cells(g: Grid, x: int, y: int) -> Seq<Cell> {
    let cells = Seq::<Cell>::empty();
    let cells = with_cell_at(cells, g, x - 1, y - 1);
    let cells = with_cell_at(cells, g, x - 1, y + 1);
    let cells = with_cell_at(cells, g, x - 1, y);
    let cells = with_cell_at(cells, g, x + 1, y - 1);
    let cells = with_cell_at(cells, g, x, y - 1);
    let cells = with_cell_at(cells, g, x + 1, y + 1);
    let cells = with_cell_at(cells, g, x + 1, y);
    with_cell_at(cells, g, x, y + 1)
}

/// The next generation: every cell decided by the rule from its own state and
/// its live neighbours in `g`.
pub open spec fn step(g: Grid) -> Grid {
    Seq::new(
        height(g),
        |y: int|
            Seq::new(
                width(g),
                |x: int| Cell { state: next_state_of(g[y][x].state, live_neighbors(g, x, y)) },
            ),
    )
}

/// The position lies inside a grid of `w` columns and `h` rows.
pub open spec fn inside(w: nat, h: nat, p: Point) -> bool {
    0 <= p.0 < w && 0 <= p.1 < h
}

/// Every seed lies inside a grid of `w` columns and `h` rows.
pub open spec fn all_inside(w: nat, h: nat, seeds: Seq<Point>) -> bool {
    forall|i: int| 0 <= i < seeds.len() ==> inside(w, h, #[trigger] seeds[i])
}

/// The index of the first seed that lies outside a grid of `w` columns and
/// `h` rows; the number of seeds where none does.
pub open spec fn first_outside(w: nat, h: nat, seeds: Seq<Point>) -> int
    decreases seeds.len(),
{
    if seeds.len() == 0 {
        0
    } else if !inside(w, h, seeds[0]) {
        0
    } else {
        1 + first_outside(w, h, seeds.subrange(1, seeds.len() as int))
    }
}

/// The position occurs among the seeds.
pub open spec fn is_seed(seeds: Seq<Point>, x: int, y: int) -> bool {
    seeds.contains((x, y))
}

/// The grid of the given size in which exactly the seeds are alive.
pub open spec fn seeded(w: nat, h: nat, seeds: Seq<Point>) -> Grid {
    Seq::new(
        h,
        |y: int|
            Seq::new(
                w,
                |x: int|
                    Cell {
                        state: if is_seed(seeds, x, y) {
                            State::Alive
                        } else {
                            State::Dead
                        },
                    },
            ),
    )
}

/// The live positions of row `y` in its first `n` columns, left to right.
pub open spec fn live_in_row(g: Grid, y: int, n: nat) -> Seq<Point>
    decreases n,
{
    if n == 0 {
        Seq::empty()
    } else {
        let before = live_in_row(g, y, (n - 1) as nat);
        if g[y][n - 1].state == State::Alive {
            before.push((n - 1, y))
        } else {
            before
        }
    }
}

/// The live positions of the first `m` rows, row by row.
pub open spec fn live_in_rows(g: Grid, m: nat) -> Seq<Point>
    decreases m,
{
    if m == 0 {
        Seq::empty()
    } else {
        live_in_rows(g, (m - 1) as nat) + live_in_row(g, m - 1, width(g))
    }
}

/// All live positions in row-major order: rows top to bottom, each row left
/// to right.
pub open spec fn live_coords(g: Grid) -> Seq<Point> {
    live_in_rows(g, height(g))
}

/// The character that stands for a cell in the textual dump.
pub open spec fn glyph(state: State) -> char {
    match state {
        State::Alive => 'o',
        State::Dead => '.',
    }
}

/// One row of the dump: one character per cell.
pub open spec fn row_text(row: Seq<Cell>) -> Seq<char> {
    Seq::new(row.len(), |x: int| glyph(row[x].state))
}

/// The dump of the first `m` rows, with a line feed between two rows.
pub open spec fn rows_text(g: Grid, m: nat) -> Seq<char>
    decreases m,
{
    if m == 0 {
        Seq::empty()
    } else if m == 1 {
        row_text(g[0])
    } else {
        rows_text(g, (m - 1) as nat) + seq!['\n'] + row_text(g[m - 1])
    }
}

/// The textual dump of a grid.
pub open spec fn text(g: Grid) -> Seq<char> {
    rows_text(g, height(g))
}

/// Taking the cell at a position along adds to the count what `alive_at`
/// counts there.
pub proof fn lemma_with_cell_at_count(cells: Seq<Cell>, g: Grid, x: int, y: int)
    ensures
        alive_count(with_cell_at(cells, g, x, y)) == alive_count(cells) + alive_at(g, x, y),
{
    if in_bounds(g, x, y) {
        lemma_alive_count_push(cells, g[y][x]);
    }
}

/// Counting the live cells among the neighbouring cells gives the number of
/// live neighbours.
pub proof fn lemma_neighbor_cells_count(g: Grid, x: int, y: int)
    ensures
        alive_count(neighbor_cells(g, x, y)) == live_neighbors(g, x, y),
{
    let c0 = Seq::<Cell>::empty();
    let c1 = with_cell_at(c0, g, x - 1, y - 1);
    let c2 = with_cell_at(c1, g, x - 1, y + 1);
    let c3 = with_cell_at(c2, g, x - 1, y);
    let c4 = with_cell_at(c3, g, x + 1, y - 1);
    let c5 = with_cell_at(c4, g, x, y - 1);
    let c6 = with_cell_at(c5, g, x + 1, y + 1);
    let c7 = with_cell_at(c6, g, x + 1, y);
    lemma_with_cell_at_count(c0, g, x - 1, y - 1);
    lemma_with_cell_at_count(c1, g, x - 1, y + 1);
    lemma_with_cell_at_count(c2, g, x - 1, y);
    lemma_with_cell_at_count(c3, g, x + 1, y - 1);
    lemma_with_cell_at_count(c4, g, x, y - 1);
    lemma_with_cell_at_count(c5, g, x + 1, y + 1);
    lemma_with_cell_at_count(c6, g, x + 1, y);
    lemma_with_cell_at_count(c7, g, x, y + 1);
}

/// Where the seed at `k` lies outside and all before it lie inside, `k` is
/// the index of the first seed outside.
pub proof fn lemma_first_outside(w: nat, h: nat, seeds: Seq<Point>, k: int)
    requires
        0 <= k < seeds.len(),
        !inside(w, h, seeds[k]),
        forall|i: int| 0 <= i < k ==> inside(w, h, #[trigger] seeds[i]),
    ensures
        first_outside(w, h, seeds) == k,
        !all_inside(w, h, seeds),
    decreases k,
{
    if k > 0 {
        let rest = seeds.subrange(1, seeds.len() as int);
        assert(inside(w, h, seeds[0]));
        assert forall|i: int| 0 <= i < k - 1 implies inside(w, h, #[trigger] rest[i]) by {
            assert(rest[i] == seeds[i + 1]);
        }
        lemma_first_outside(w, h, rest, k - 1);
    }
}

/// Where some seed lies outside, the index of the first seed outside names
/// such a seed, and every seed before it lies inside.
pub proof fn lemma_first_outside_is_first(w: nat, h: nat, seeds: Seq<Point>)
    requires
        !all_inside(w, h, seeds),
    ensures
        0 <= first_outside(w, h, seeds) < seeds.len(),
        !inside(w, h, seeds[first_outside(w, h, seeds)]),
        forall|i: int|
            0 <= i < first_outside(w, h, seeds) ==> inside(w, h, #[trigger] seeds[i]),
{
    let k = choose|k: int| 0 <= k < seeds.len() && !inside(w, h, #[trigger] seeds[k]);
    lemma_least_outside(w, h, seeds, k);
    let least = choose|j: int|
        0 <= j <= k && !inside(w, h, seeds[j]) && forall|i: int|
            0 <= i < j ==> inside(w, h, #[trigger] seeds[i]);
    lemma_first_outside(w, h, seeds, least);
}

/// Before a seed that lies outside there is a first one that does.
proof fn lemma_least_outside(w: nat, h: nat, seeds: Seq<Point>, k: int)
    requires
        0 <= k < seeds.len(),
        !inside(w, h, seeds[k]),
    ensures
        exists|j: int|
            0 <= j <= k && !inside(w, h, seeds[j]) && forall|i: int|
                0 <= i < j ==> inside(w, h, #[trigger] seeds[i]),
    decreases k,
{
    if forall|i: int| 0 <= i < k ==> inside(w, h, #[trigger] seeds[i]) {
        assert(0 <= k <= k && !inside(w, h, seeds[k]));
    } else {
        let earlier = choose|i: int| 0 <= i < k && !inside(w, h, #[trigger] seeds[i]);
        lemma_least_outside(w, h, seeds, earlier);
    }
}

} // verus!
