//! Cell states and the birth/survival rule.

use vstd::prelude::*;

verus! {

/// The two states a cell can be in.
#[derive(Debug, PartialEq, Eq, Clone, Copy, Structural)]
pub enum State {
    Alive,
    Dead,
}

/// One cell of the grid. A cell has no identity beyond its state.
#[derive(Debug, Clone, Copy, PartialEq, Eq, Structural)]
pub struct Cell {
    pub state: State,
}

/// The rule B3/S23: a live cell survives with exactly two or three live
/// neighbours, a dead cell comes alive with exactly three.
pub open spec fn next_state_of(state: State, alive_neighbors: nat) -> State {
    match state {
        State::Alive => if alive_neighbors == 2 || alive_neighbors == 3 {
            State::Alive
        } else {
            State::Dead
        },
        State::Dead => if alive_neighbors == 3 {
            State::Alive
        } else {
            State::Dead
        },
    }
}

/// 1 for a live cell, 0 for a dead one.
pub open spec fn alive_weight(cell: Cell) -> nat {
    if cell.state == State::Alive {
        1
    } else {
        0
    }
}

/// How many cells of a sequence are alive.
pub open spec fn alive_count(cells: Seq<Cell>) -> nat
    decreases cells.len(),
{
    if cells.len() == 0 {
        0
    } else {
        alive_count(cells.drop_last()) + alive_weight(cells.last())
    }
}

/// The count of a sequence that ends in `cell` is the count of what precedes
/// it plus the weight of `cell`.
pub proof fn lemma_alive_count_push(cells: Seq<Cell>, cell: Cell)
    ensures
        alive_count(cells.push(cell)) == alive_count(cells) + alive_weight(cell),
{
    assert(cells.push(cell).drop_last() =~= cells);
}

/// No more cells are alive than there are cells.
pub proof fn lemma_alive_count_bound(cells: Seq<Cell>)
    ensures
        alive_count(cells) <= cells.len(),
    decreases cells.len(),
{
    if cells.len() > 0 {
        lemma_alive_count_bound(cells.drop_last());
    }
}

impl Cell {
    /// A cell in the given state.
    pub fn new(state: State) -> (cell: Cell)
        ensures
            cell.state == state,
    {
        Cell { state }
    }

    /// The cell's state in the next generation, given the cells around it.
    pub fn next_state(&self, neighbors: Vec<Cell>) -> (next: Cell)
        ensures
            next.state == next_state_of(self.state, alive_count(neighbors@)),
    {
        let mut alive: usize = 0;
        let mut i: usize = 0;
        while i < neighbors.len()
            invariant
                i <= neighbors.len(),
                alive <= i,
                alive == alive_count(neighbors@.take(i as int)),
            decreases neighbors.len() - i,
        {
            proof {
                let counted = neighbors@.take(i as int);
                assert(neighbors@.take(i + 1) =~= counted.push(neighbors@[i as int]));
                lemma_alive_count_push(counted, neighbors@[i as int]);
            }
            match neighbors[i].state {
                State::Alive => {
                    alive += 1;
                },
                State::Dead => {},
            }
            i += 1;
        }
        assert(neighbors@.take(i as int) =~= neighbors@);
        match self.state {
            State::Alive => {
                if alive < 2 || alive > 3 {
                    Cell { state: State::Dead }
                } else {
                    *self
                }
            },
            State::Dead => {
                if alive == 3 {
                    Cell { state: State::Alive }
                } else {
                    *self
                }
            },
        }
    }
}

} // verus!
