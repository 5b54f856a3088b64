//! A single grid position: its visibility state and whether it hides a hazard.

use vstd::prelude::*;

verus! {

/// Visibility state of one cell. The three states are mutually exclusive;
/// `Open` is terminal (no operation ever closes an open cell again).
#[derive(Clone, Copy, PartialEq, Eq, Structural, Debug)]
pub enum State {
    Open,
    Closed,
    Flagged,
}

/// One grid position. `pipebomb` is fixed by `randomize` and hidden from the
/// player until the cell is revealed or the game ends.
#[derive(Clone, Copy, PartialEq, Eq, Structural, Debug)]
pub struct Cell {
    pub state: State,
    pub pipebomb: bool,
}

impl Cell {
    /// A freshly reset cell: closed, with no hazard.
    pub fn empty() -> (c: Cell)
        ensures
            c == (Cell { state: State::Closed, pipebomb: false }),
    {
        Cell { state: State::Closed, pipebomb: false }
    }
}

} // verus!
