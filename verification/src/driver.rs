//! The simulation as its driver sees it: the board it starts from, the tick
//! that advances it, and what a key press or the passing of time calls for.

use crate::grid::{points, GameOfLife};
use crate::model::{inside, seeded, step, Grid};
use crate::patterns::{
    lemma_starting_pattern_fits, starting_coords, starting_pattern, MIN_HEIGHT, MIN_WIDTH,
};
use vstd::prelude::*;

verus! {

/// The running simulation: the current generation.
pub struct App {
    pub board: GameOfLife,
}

impl View for App {
    type V = Grid;

    open spec fn view(&self) -> Grid {
        self.board@
    }
}

/// What the driver learned while it waited.
#[derive(Debug, Clone, Copy, PartialEq, Eq, Structural)]
pub enum Input {
    /// A key with this character was pressed.
    Key(char),
    /// Nothing that matters: the wait ran out, or something else happened.
    Nothing,
}

/// What the driver does after it has handed in what it learned.
#[derive(Debug, Clone, Copy, PartialEq, Eq, Structural)]
pub enum Action {
    /// Stop the simulation.
    Quit,
    /// The board has advanced by one generation: draw it and measure the
    /// time to the next tick from now.
    Ticked,
    /// Nothing has changed: draw and wait again.
    Waiting,
}

/// What `App::handle` owes: `q` quits and leaves the board alone; otherwise
/// the board advances once a whole tick has elapsed, and not before.
pub open spec fn handled(
    before: Grid,
    input: Input,
    elapsed: u64,
    tick_rate: u64,
    after: Grid,
    action: Action,
) -> bool {
    if input == Input::Key('q') {
        action == Action::Quit && after == before
    } else if elapsed >= tick_rate {
        action == Action::Ticked && after == step(before)
    } else {
        action == Action::Waiting && after == before
    }
}

/// How long to wait for input before the next tick is due: what is left of
/// the tick, nothing where it is over. Both times are in the same unit.
pub fn poll_timeout(tick_rate: u64, elapsed: u64) -> (timeout: u64)
    ensures
        timeout == if elapsed >= tick_rate {
            0
        } else {
            tick_rate - elapsed
        },
{
    tick_rate.saturating_sub(elapsed)
}

impl App {
    /// A board of the given size with the starting pattern on it.
    pub fn new(width: usize, height: usize) -> (app: App)
        requires
            width >= MIN_WIDTH,
            height >= MIN_HEIGHT,
        ensures
            app@ == seeded(width as nat, height as nat, starting_pattern()),
    {
        let coords = starting_coords();
        proof {
            let seeds = points(coords@);
            lemma_starting_pattern_fits(width as nat, height as nat);
            assert forall|i: int| 0 <= i < coords@.len() implies (#[trigger] coords@[i]).x < width
                && coords@[i].y < height by {
                assert(inside(width as nat, height as nat, seeds[i]));
                assert(seeds[i] == coords@[i]@);
            }
        }
        App { board: GameOfLife::new(width, height, coords) }
    }

    /// Replaces the board by its next generation.
    pub fn on_tick(&mut self)
        ensures
            final(self)@ == step(old(self)@),
    {
        self.board = self.board.next_frame();
    }

    /// One turn of the driver's loop after the wait: decides from the input
    /// and from the time since the last tick whether to stop, to advance the
    /// board or to leave it. Both times are in the same unit.
    pub fn handle(&mut self, input: Input, elapsed: u64, tick_rate: u64) -> (action: Action)
        ensures
            handled(old(self)@, input, elapsed, tick_rate, final(self)@, action),
    {
        match input {
            Input::Key(key) => {
                if key == 'q' {
                    return Action::Quit;
                }
            },
            Input::Nothing => {},
        }
        if elapsed >= tick_rate {
            self.on_tick();
            Action::Ticked
        } else {
            Action::Waiting
        }
    }
}

} // verus!
