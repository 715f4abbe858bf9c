//! Seed patterns: the blinker, and the pattern a new board starts from.

use crate::grid::{points, Coords};
use crate::model::{all_inside, inside, Point};
use vstd::prelude::*;

verus! {

/// Three live cells side by side in the second row, starting at the left edge.
pub open spec fn horizontal_blinker() -> Seq<Point> {
    seq![(0, 1), (1, 1), (2, 1)]
}

/// Three live cells one above the other in the second column, starting at the
/// top edge.
pub open spec fn vertical_blinker() -> Seq<Point> {
    seq![(1, 0), (1, 1), (1, 2)]
}

/// A glider next to the blinker, heading down and to the left.
pub open spec fn glider() -> Seq<Point> {
    seq![(6, 0), (6, 1), (6, 2), (5, 2), (4, 1)]
}

/// A pulsar below the two.
pub open spec fn pulsar() -> Seq<Point> {
    seq![
        (5, 13), (5, 14), (5, 15), (5, 19), (5, 20), (5, 21),
        (10, 13), (10, 14), (10, 15), (10, 19), (10, 20), (10, 21),
        (12, 13), (12, 14), (12, 15), (12, 19), (12, 20), (12, 21),
        (17, 13), (17, 14), (17, 15), (17, 19), (17, 20), (17, 21),
        (7, 11), (8, 11), (9, 11), (13, 11), (14, 11), (15, 11),
        (7, 16), (8, 16), (9, 16), (13, 16), (14, 16), (15, 16),
        (7, 18), (8, 18), (9, 18), (13, 18), (14, 18), (15, 18),
        (7, 23), (8, 23), (9, 23), (13, 23), (14, 23), (15, 23),
    ]
}

/// The cells that are alive on a new board: a blinker, a glider and a pulsar.
pub open spec fn starting_pattern() -> Seq<Point> {
    horizontal_blinker() + glider() + pulsar()
}

/// The least width of a board that holds the starting pattern.
pub const MIN_WIDTH: usize = 18;

/// The least height of a board that holds the starting pattern.
pub const MIN_HEIGHT: usize = 24;

/// The starting pattern fits a board exactly if the board has the least
/// width and the least height.
pub proof fn lemma_starting_pattern_fits(w: nat, h: nat)
    ensures
        all_inside(w, h, starting_pattern()) <==> w >= MIN_WIDTH && h >= MIN_HEIGHT,
{
    let seeds = starting_pattern();
    assert(seeds.len() == 56);
    if all_inside(w, h, seeds) {
        assert(inside(w, h, seeds[26]));
        assert(inside(w, h, seeds[50]));
    }
}

/// The coordinates of the starting pattern.
pub fn starting_coords() -> (coords: Vec<Coords>)
    ensures
        points(coords@) == starting_pattern(),
{
    let coords = vec![
        // Blinker
        Coords { x: 0, y: 1 },
        Coords { x: 1, y: 1 },
        Coords { x: 2, y: 1 },
        // Glider
        Coords { x: 6, y: 0 },
        Coords { x: 6, y: 1 },
        Coords { x: 6, y: 2 },
        Coords { x: 5, y: 2 },
        Coords { x: 4, y: 1 },
        // Pulsar
        Coords { x: 5, y: 13 },
        Coords { x: 5, y: 14 },
        Coords { x: 5, y: 15 },
        Coords { x: 5, y: 19 },
        Coords { x: 5, y: 20 },
        Coords { x: 5, y: 21 },
        Coords { x: 10, y: 13 },
        Coords { x: 10, y: 14 },
        Coords { x: 10, y: 15 },
        Coords { x: 10, y: 19 },
        Coords { x: 10, y: 20 },
        Coords { x: 10, y: 21 },
        Coords { x: 12, y: 13 },
        Coords { x: 12, y: 14 },
        Coords { x: 12, y: 15 },
        Coords { x: 12, y: 19 },
        Coords { x: 12, y: 20 },
        Coords { x: 12, y: 21 },
        Coords { x: 17, y: 13 },
        Coords { x: 17, y: 14 },
        Coords { x: 17, y: 15 },
        Coords { x: 17, y: 19 },
        Coords { x: 17, y: 20 },
        Coords { x: 17, y: 21 },
        Coords { x: 7, y: 11 },
        Coords { x: 8, y: 11 },
        Coords { x: 9, y: 11 },
        Coords { x: 13, y: 11 },
        Coords { x: 14, y: 11 },
        Coords { x: 15, y: 11 },
        Coords { x: 7, y: 16 },
        Coords { x: 8, y: 16 },
        Coords { x: 9, y: 16 },
        Coords { x: 13, y: 16 },
        Coords { x: 14, y: 16 },
        Coords { x: 15, y: 16 },
        Coords { x: 7, y: 18 },
        Coords { x: 8, y: 18 },
        Coords { x: 9, y: 18 },
        Coords { x: 13, y: 18 },
        Coords { x: 14, y: 18 },
        Coords { x: 15, y: 18 },
        Coords { x: 7, y: 23 },
        Coords { x: 8, y: 23 },
        Coords { x: 9, y: 23 },
        Coords { x: 13, y: 23 },
        Coords { x: 14, y: 23 },
        Coords { x: 15, y: 23 },
    ];
    assert(points(coords@) =~= starting_pattern());
    coords
}

} // verus!
