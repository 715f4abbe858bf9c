//! The grid: its cells, its dimensions and its live cells.

use crate::cell::{Cell, State};
use crate::model::{
    all_inside, first_outside, height, in_bounds, inside, is_seed, lemma_first_outside,
    live_coords, live_in_row, live_in_rows, row_text, rows_text, seeded, text, well_formed, width,
    Grid, Point,
};
use vstd::prelude::*;
use vstd::string::*;

verus! {

/// A position in the grid: `x` is the column, `y` the row.
#[derive(Debug, Clone, Copy, PartialEq, Eq, Structural)]
pub struct Coords {
    pub x: usize,
    pub y: usize,
}

impl View for Coords {
    type V = Point;

    open spec fn view(&self) -> Point {
        (self.x as int, self.y as int)
    }
}

/// The positions that a sequence of coordinates names.
pub open spec fn points(coords: Seq<Coords>) -> Seq<Point> {
    coords.map_values(|c: Coords| c@)
}

/// Why a grid could not be made.
#[derive(Debug, Clone, Copy, PartialEq, Eq, Structural)]
pub enum GridError {
    /// The width or the height is zero.
    Empty,
    /// A seed lies outside the grid; this is the first one that does.
    OutOfBounds(Coords),
}

/// A rectangular grid of cells with fixed dimensions.
#[derive(Debug)]
pub struct GameOfLife {
    board: Vec<Vec<Cell>>,
}

/// The grid that a vector of rows holds.
pub open spec fn rows_of(board: Vec<Vec<Cell>>) -> Grid {
    Seq::new(board@.len(), |y: int| board@[y]@)
}

impl View for GameOfLife {
    type V = Grid;

    closed spec fn view(&self) -> Grid {
        rows_of(self.board)
    }
}

/// The result that `GameOfLife::try_new` owes for the given arguments.
pub open spec fn try_new_result(
    x: usize,
    y: usize,
    seeds: Seq<Coords>,
    result: Result<GameOfLife, GridError>,
) -> bool {
    if x == 0 || y == 0 {
        result == Err::<GameOfLife, GridError>(GridError::Empty)
    } else if all_inside(x as nat, y as nat, points(seeds)) {
        result is Ok && result->Ok_0@ == seeded(x as nat, y as nat, points(seeds))
    } else {
        result == Err::<GameOfLife, GridError>(
            GridError::OutOfBounds(seeds[first_outside(x as nat, y as nat, points(seeds))]),
        )
    }
}

/// A position is among the seeds extended by `p` exactly if it was among them
/// before or is `p`.
proof fn lemma_is_seed_push(seeds: Seq<Point>, p: Point, x: int, y: int)
    ensures
        is_seed(seeds.push(p), x, y) <==> is_seed(seeds, x, y) || p == (x, y),
{
    let more = seeds.push(p);
    if is_seed(more, x, y) {
        let i = choose|i: int| 0 <= i < more.len() && more[i] == (x, y);
        if i < seeds.len() {
            assert(seeds[i] == (x, y));
        }
    }
    if is_seed(seeds, x, y) {
        let i = choose|i: int| 0 <= i < seeds.len() && seeds[i] == (x, y);
        assert(more[i] == (x, y));
    }
    if p == (x, y) {
        assert(more[seeds.len() as int] == (x, y));
    }
}

/// A row of `width` dead cells.
fn dead_row(width: usize) -> (row: Vec<Cell>)
    ensures
        row@.len() == width,
        forall|x: int| 0 <= x < width ==> (#[trigger] row@[x]).state == State::Dead,
{
    let mut row: Vec<Cell> = Vec::new();
    let mut x: usize = 0;
    while x < width
        invariant
            x <= width,
            row@.len() == x,
            forall|c: int| 0 <= c < x ==> (#[trigger] row@[c]).state == State::Dead,
        decreases width - x,
    {
        row.push(Cell::new(State::Dead));
        x += 1;
    }
    row
}

impl GameOfLife {
    /// Every grid value is rectangular with at least one row and one column.
    #[verifier::type_invariant]
    pub open spec fn inv(&self) -> bool {
        well_formed(self@)
    }

    /// The grid made of the given rows.
    pub(crate) fn from_rows(board: Vec<Vec<Cell>>) -> (grid: GameOfLife)
        requires
            well_formed(rows_of(board)),
        ensures
            grid@ == rows_of(board),
    {
        GameOfLife { board }
    }

    /// The grid of `x` columns and `y` rows in which exactly the cells at
    /// `live_cells` are alive.
    pub fn new(x: usize, y: usize, live_cells: Vec<Coords>) -> (grid: GameOfLife)
        requires
            x >= 1,
            y >= 1,
            forall|i: int|
                0 <= i < live_cells@.len() ==> (#[trigger] live_cells@[i]).x < x
                    && live_cells@[i].y < y,
        ensures
            grid@ == seeded(x as nat, y as nat, points(live_cells@)),
            width(grid@) == x,
            height(grid@) == y,
    {
        let mut board: Vec<Vec<Cell>> = Vec::new();
        let mut r: usize = 0;
        while r < y
            invariant
                r <= y,
                board@.len() == r,
                forall|j: int| 0 <= j < r ==> (#[trigger] board@[j])@.len() == x,
                forall|j: int, c: int|
                    0 <= j < r && 0 <= c < x ==> (#[trigger] board@[j]@[c]).state == State::Dead,
            decreases y - r,
        {
            board.push(dead_row(x));
            r += 1;
        }
        let mut k: usize = 0;
        while k < live_cells.len()
            invariant
                k <= live_cells@.len(),
                board@.len() == y,
                forall|j: int| 0 <= j < y ==> (#[trigger] board@[j])@.len() == x,
                forall|i: int|
                    0 <= i < live_cells@.len() ==> (#[trigger] live_cells@[i]).x < x
                        && live_cells@[i].y < y,
                forall|j: int, c: int|
                    0 <= j < y && 0 <= c < x ==> ((#[trigger] board@[j]@[c]).state == State::Alive
                        <==> is_seed(points(live_cells@.take(k as int)), c, j)),
            decreases live_cells@.len() - k,
        {
            let seed = live_cells[k];
            let ghost before = board@;
            board[seed.y][seed.x] = Cell { state: State::Alive };
            proof {
                let done = points(live_cells@.take(k as int));
                assert(points(live_cells@.take(k + 1)) =~= done.push(seed@));
                assert forall|j: int, c: int| 0 <= j < y && 0 <= c < x implies ((
                #[trigger] board@[j]@[c]).state == State::Alive <==> is_seed(
                    done.push(seed@),
                    c,
                    j,
                )) by {
                    lemma_is_seed_push(done, seed@, c, j);
                    assert(board@[j]@[c] == if j == seed.y && c == seed.x {
                        Cell { state: State::Alive }
                    } else {
                        before[j]@[c]
                    });
                }
            }
            k += 1;
        }
        proof {
            assert(live_cells@.take(k as int) =~= live_cells@);
        }
        assert(rows_of(board) =~~= seeded(x as nat, y as nat, points(live_cells@)));
        GameOfLife::from_rows(board)
    }

    /// Like `new`, but checks the arguments: a grid needs at least one row
    /// and one column, and every seed must lie inside it.
    pub fn try_new(x: usize, y: usize, live_cells: Vec<Coords>) -> (result: Result<
        GameOfLife,
        GridError,
    >)
        ensures
            try_new_result(x, y, live_cells@, result),
    {
        if x == 0 || y == 0 {
            return Err(GridError::Empty);
        }
        let mut k: usize = 0;
        while k < live_cells.len()
            invariant
                x >= 1,
                y >= 1,
                k <= live_cells@.len(),
                forall|i: int|
                    0 <= i < k ==> (#[trigger] live_cells@[i]).x < x && live_cells@[i].y < y,
            decreases live_cells@.len() - k,
        {
            let seed = live_cells[k];
            if seed.x >= x || seed.y >= y {
                proof {
                    let seeds = points(live_cells@);
                    assert(seeds[k as int] == seed@);
                    assert forall|i: int| 0 <= i < k implies inside(
                        x as nat,
                        y as nat,
                        #[trigger] seeds[i],
                    ) by {
                        assert(seeds[i] == live_cells@[i]@);
                    }
                    lemma_first_outside(x as nat, y as nat, seeds, k as int);
                }
                return Err(GridError::OutOfBounds(seed));
            }
            k += 1;
        }
        proof {
            let seeds = points(live_cells@);
            assert forall|i: int| 0 <= i < seeds.len() implies inside(
                x as nat,
                y as nat,
                #[trigger] seeds[i],
            ) by {
                assert(seeds[i] == live_cells@[i]@);
            }
        }
        Ok(GameOfLife::new(x, y, live_cells))
    }

    /// Number of columns.
    pub fn max_x(&self) -> (w: usize)
        ensures
            w == width(self@),
            w >= 1,
    {
        proof {
            use_type_invariant(self);
        }
        self.board[0].len()
    }

    /// Number of rows.
    pub fn max_y(&self) -> (h: usize)
        ensures
            h == height(self@),
            h >= 1,
    {
        proof {
            use_type_invariant(self);
        }
        self.board.len()
    }

    /// The cell at a position inside the grid.
    pub fn get_cell_at(&self, coords: Coords) -> (cell: Cell)
        requires
            in_bounds(self@, coords.x as int, coords.y as int),
        ensures
            cell == self@[coords.y as int][coords.x as int],
    {
        proof {
            use_type_invariant(self);
        }
        self.board[coords.y][coords.x]
    }

    /// The coordinates of all live cells in row-major order: rows top to
    /// bottom, each row left to right.
    pub fn get_live_cells(&self) -> (live_cells: Vec<Coords>)
        ensures
            points(live_cells@) == live_coords(self@),
    {
        proof {
            use_type_invariant(self);
        }
        let max_x = self.max_x();
        let max_y = self.max_y();
        let mut live_cells: Vec<Coords> = Vec::new();
        let mut y: usize = 0;
        assert(points(live_cells@) =~= live_in_rows(self@, 0));
        while y < max_y
            invariant
                y <= max_y,
                max_x == width(self@),
                max_y == height(self@),
                well_formed(self@),
                points(live_cells@) == live_in_rows(self@, y as nat),
            decreases max_y - y,
        {
            let mut x: usize = 0;
            assert(points(live_cells@) =~= live_in_rows(self@, y as nat) + live_in_row(
                self@,
                y as int,
                0,
            ));
            while x < max_x
                invariant
                    x <= max_x,
                    y < max_y,
                    max_x == width(self@),
                    max_y == height(self@),
                    well_formed(self@),
                    points(live_cells@) == live_in_rows(self@, y as nat) + live_in_row(
                        self@,
                        y as int,
                        x as nat,
                    ),
                decreases max_x - x,
            {
                let ghost before = live_cells@;
                let ghost row_before = live_in_row(self@, y as int, x as nat);
                let cell = self.get_cell_at(Coords { x, y });
                if cell.state == State::Alive {
                    live_cells.push(Coords { x, y });
                    assert(points(live_cells@) =~= points(before).push((x as int, y as int)));
                    assert(live_in_rows(self@, y as nat) + row_before.push((x as int, y as int))
                        =~= (live_in_rows(self@, y as nat) + row_before).push(
                        (x as int, y as int),
                    ));
                }
                x += 1;
            }
            y += 1;
        }
        live_cells
    }

    /// The textual dump: one line per row, top row first, `o` for a live
    /// cell and `.` for a dead one, a line feed between two rows.
    pub fn to_string(&self) -> (dump: String)
        ensures
            dump@ == text(self@),
    {
        proof {
            use_type_invariant(self);
            reveal_strlit("\n");
            reveal_strlit("o");
            reveal_strlit(".");
        }
        let max_x = self.max_x();
        let max_y = self.max_y();
        let mut dump = String::new();
        let mut y: usize = 0;
        while y < max_y
            invariant
                y <= max_y,
                max_x == width(self@),
                max_y == height(self@),
                well_formed(self@),
                "\n"@ == seq!['\n'],
                "o"@ == seq!['o'],
                "."@ == seq!['.'],
                dump@ == rows_text(self@, y as nat),
            decreases max_y - y,
        {
            if y > 0 {
                dump.append("\n");
            }
            let ghost head = dump@;
            let mut x: usize = 0;
            assert(dump@ =~= head + row_text(self@[y as int]).take(0));
            while x < max_x
                invariant
                    x <= max_x,
                    y < max_y,
                    max_x == width(self@),
                    max_y == height(self@),
                    well_formed(self@),
                    "o"@ == seq!['o'],
                    "."@ == seq!['.'],
                    dump@ == head + row_text(self@[y as int]).take(x as int),
                decreases max_x - x,
            {
                let ghost row = row_text(self@[y as int]);
                assert(row.take(x + 1) =~= row.take(x as int).push(row[x as int]));
                match self.get_cell_at(Coords { x, y }).state {
                    State::Alive => {
                        dump.append("o");
                    },
                    State::Dead => {
                        dump.append(".");
                    },
                }
                assert(dump@ =~= head + row.take(x + 1));
                x += 1;
            }
            assert(row_text(self@[y as int]).take(x as int) =~= row_text(self@[y as int]));
            assert(dump@ =~= rows_text(self@, (y + 1) as nat));
            y += 1;
        }
        dump
    }
}

impl Clone for GameOfLife {
    /// An independent grid with the same cells.
    fn clone(&self) -> (copy: GameOfLife)
        ensures
            copy@ == self@,
    {
        proof {
            use_type_invariant(self);
        }
        let max_x = self.max_x();
        let max_y = self.max_y();
        let mut board: Vec<Vec<Cell>> = Vec::new();
        let mut y: usize = 0;
        while y < max_y
            invariant
                y <= max_y,
                max_x == width(self@),
                max_y == height(self@),
                well_formed(self@),
                board@.len() == y,
                forall|j: int| 0 <= j < y ==> (#[trigger] board@[j])@ == self@[j],
            decreases max_y - y,
        {
            let mut row: Vec<Cell> = Vec::new();
            let mut x: usize = 0;
            while x < max_x
                invariant
                    x <= max_x,
                    y < max_y,
                    max_x == width(self@),
                    max_y == height(self@),
                    well_formed(self@),
                    row@.len() == x,
                    forall|c: int| 0 <= c < x ==> #[trigger] row@[c] == self@[y as int][c],
                decreases max_x - x,
            {
                row.push(self.get_cell_at(Coords { x, y }));
                x += 1;
            }
            assert(row@ =~= self@[y as int]);
            board.push(row);
            y += 1;
        }
        assert(rows_of(board) =~= self@);
        GameOfLife::from_rows(board)
    }
}

impl PartialEq for GameOfLife {
    /// Two grids are equal when they have the same shape and the same cells.
    fn eq(&self, other: &GameOfLife) -> (equal: bool) {
        proof {
            use_type_invariant(self);
            use_type_invariant(other);
        }
        let max_x = self.max_x();
        let max_y = self.max_y();
        if max_x != other.max_x() || max_y != other.max_y() {
            return false;
        }
        let mut y: usize = 0;
        while y < max_y
            invariant
                y <= max_y,
                max_x == width(self@),
                max_y == height(self@),
                max_x == width(other@),
                max_y == height(other@),
                well_formed(self@),
                well_formed(other@),
                forall|j: int| 0 <= j < y ==> #[trigger] self@[j] == other@[j],
            decreases max_y - y,
        {
            let mut x: usize = 0;
            while x < max_x
                invariant
                    x <= max_x,
                    y < max_y,
                    max_x == width(self@),
                    max_y == height(self@),
                    max_x == width(other@),
                    max_y == height(other@),
                    well_formed(self@),
                    well_formed(other@),
                    forall|c: int|
                        0 <= c < x ==> #[trigger] self@[y as int][c] == other@[y as int][c],
                decreases max_x - x,
            {
                if self.get_cell_at(Coords { x, y }) != other.get_cell_at(Coords { x, y }) {
                    return false;
                }
                x += 1;
            }
            assert(self@[y as int] =~= other@[y as int]);
            y += 1;
        }
        assert(self@ =~= other@);
        true
    }
}

impl vstd::std_specs::cmp::PartialEqSpecImpl for GameOfLife {
    open spec fn obeys_eq_spec() -> bool {
        true
    }

    open spec fn eq_spec(&self, other: &GameOfLife) -> bool {
        self@ == other@
    }
}

} // verus!
