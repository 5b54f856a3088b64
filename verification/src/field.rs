//! The grid engine: hazard layout, cursor, adjacency counting and the
//! state-mutating game operations.

use vstd::prelude::*;
use crate::cell::{Cell, State};

verus! {

/// Axis selector for cursor movement.
#[derive(Clone, Copy, PartialEq, Eq, Structural, Debug)]
pub enum Orientation {
    Vertical,
    Horizontal,
}

/// The game grid: `rows x cols` cells, a hazard density percentage, and the
/// player's cursor. Dimensions are fixed at construction.
pub struct Field {
    pub rows: usize,
    pub cols: usize,
    pub cells: Vec<Vec<Cell>>,
    pub bomb_pcnt: usize,
    pub cursor_row: usize,
    pub cursor_col: usize,
}

impl Field {
    /// Well-formedness: the cell matrix matches the stated dimensions, the
    /// cursor is in bounds, the density is a percentage, and the dimensions
    /// are small enough that the hazard-count formula and the cell count
    /// stay within machine integers.
    pub open spec fn wf(self) -> bool {
        &&& 1 <= self.rows
        &&& 1 <= self.cols
        &&& self.cells@.len() == self.rows
        &&& (forall|i: int| 0 <= i < self.rows ==> (#[trigger] self.cells@[i])@.len() == self.cols)
        &&& self.cursor_row < self.rows
        &&& self.cursor_col < self.cols
        &&& self.bomb_pcnt <= 100
        &&& self.rows * self.rows * 100 + 99 <= usize::MAX
        &&& self.rows * self.cols <= isize::MAX
        &&& self.rows <= isize::MAX
        &&& self.cols <= isize::MAX
    }

    pub open spec fn in_bounds(self, r: int, c: int) -> bool {
        0 <= r < self.rows && 0 <= c < self.cols
    }

    pub open spec fn cell(self, r: int, c: int) -> Cell {
        self.cells@[r]@[c]
    }

    pub open spec fn bomb(self, r: int, c: int) -> bool {
        self.cell(r, c).pipebomb
    }

    pub open spec fn state(self, r: int, c: int) -> State {
        self.cell(r, c).state
    }

    /// 1 when an in-bounds hazard sits at `(r, c)`, else 0.
    pub open spec fn hazard_ind(self, r: int, c: int) -> nat {
        if self.in_bounds(r, c) && self.bomb(r, c) {
            1
        } else {
            0
        }
    }

    /// Number of hazards among the up-to-8 neighbors of `(r, c)`. By
    /// construction it counts no out-of-bounds position and not `(r, c)`
    /// itself.
    pub open spec fn adjacency(self, r: int, c: int) -> nat {
        self.hazard_ind(r - 1, c - 1) + self.hazard_ind(r - 1, c) + self.hazard_ind(r - 1, c + 1)
            + self.hazard_ind(r, c - 1) + self.hazard_ind(r, c + 1) + self.hazard_ind(r + 1, c - 1)
            + self.hazard_ind(r + 1, c) + self.hazard_ind(r + 1, c + 1)
    }

    /// Dimensions, density and cursor agree with `other`.
    pub open spec fn same_config(self, other: Field) -> bool {
        &&& self.rows == other.rows
        &&& self.cols == other.cols
        &&& self.bomb_pcnt == other.bomb_pcnt
        &&& self.cursor_row == other.cursor_row
        &&& self.cursor_col == other.cursor_col
    }

    /// Every non-hazard cell is open: the winning condition. Hazard cells
    /// need not be open.
    pub open spec fn victory_spec(self) -> bool {
        forall|i: int, j: int|
            self.in_bounds(i, j) && !self.bomb(i, j) ==> #[trigger] self.state(i, j)
                == State::Open
    }

    /// A fresh grid of closed, hazard-free cells, density clamped to 100,
    /// cursor at the origin. The dimension bounds are machine limits: the
    /// hazard-count formula `rows*rows*density + 99` and the cell count must
    /// fit in the native integer types.
    pub fn new(rows: usize, cols: usize, bomb_pcnt: usize) -> (f: Field)
        requires
            1 <= rows,
            1 <= cols,
            rows * rows * 100 + 99 <= usize::MAX,
            rows * cols <= isize::MAX,
        ensures
            f.wf(),
            f.rows == rows,
            f.cols == cols,
            f.bomb_pcnt == (if bomb_pcnt > 100 {
                100usize
            } else {
                bomb_pcnt
            }),
            f.cursor_row == 0,
            f.cursor_col == 0,
            forall|i: int, j: int|
                f.in_bounds(i, j) ==> #[trigger] f.cell(i, j) == (Cell {
                    state: State::Closed,
                    pipebomb: false,
                }),
    {
        proof {
            assert(rows <= isize::MAX && cols <= isize::MAX) by (nonlinear_arith)
                requires
                    1 <= rows,
                    1 <= cols,
                    rows * rows * 100 + 99 <= usize::MAX,
                    rows * cols <= isize::MAX,
            ;
        }
        let mut cells: Vec<Vec<Cell>> = Vec::new();
        for i in 0..rows
            invariant
                cells@.len() == i,
                forall|a: int| 0 <= a < i ==> (#[trigger] cells@[a])@.len() == cols,
                forall|a: int, b: int|
                    0 <= a < i && 0 <= b < cols ==> #[trigger] cells@[a]@[b] == (Cell {
                        state: State::Closed,
                        pipebomb: false,
                    }),
        {
            let mut rowv: Vec<Cell> = Vec::new();
            for j in 0..cols
                invariant
                    rowv@.len() == j,
                    forall|b: int|
                        0 <= b < j ==> #[trigger] rowv@[b] == (Cell {
                            state: State::Closed,
                            pipebomb: false,
                        }),
            {
                rowv.push(Cell::empty());
            }
            cells.push(rowv);
        }
        let pcnt = if bomb_pcnt > 100 {
            100
        } else {
            bomb_pcnt
        };
        Field { rows, cols, cells, bomb_pcnt: pcnt, cursor_row: 0, cursor_col: 0 }
    }

    pub fn has_bomb_at(&self, row: usize, col: usize) -> (b: bool)
        requires
            self.wf(),
            row < self.rows,
            col < self.cols,
        ensures
            b == self.bomb(row as int, col as int),
    {
        self.cells[row][col].pipebomb
    }

    pub fn is_cursor_at(&self, row: usize, col: usize) -> (b: bool)
        ensures
            b == (row == self.cursor_row && col == self.cursor_col),
    {
        row == self.cursor_row && col == self.cursor_col
    }

    /// Place a hazard at `(row, col)` unless one is already there or the
    /// cursor sits there; report whether a hazard was placed.
    pub fn set_bomb_at(&mut self, row: usize, col: usize) -> (placed: bool)
        requires
            old(self).wf(),
            row < old(self).rows,
            col < old(self).cols,
        ensures
            final(self).wf(),
            final(self).same_config(*old(self)),
            placed == (!old(self).bomb(row as int, col as int) && !(row == old(self).cursor_row
                && col == old(self).cursor_col)),
            forall|i: int, j: int|
                old(self).in_bounds(i, j) ==> #[trigger] final(self).cell(i, j) == (if placed && i
                    == row && j == col {
                    (Cell { state: old(self).cell(i, j).state, pipebomb: true })
                } else {
                    old(self).cell(i, j)
                }),
    {
        let has_bomb = self.has_bomb_at(row, col);
        if !has_bomb && !self.is_cursor_at(row, col) {
            self.cells[row][col].pipebomb = true;
            return true;
        }
        false
    }

    /// A mutable borrow of one cell; the grid afterwards holds whatever the
    /// caller leaves behind the reference, and nothing else changes.
    pub fn get_cell_mut(&mut self, row: usize, col: usize) -> (cell: &mut Cell)
        requires
            old(self).wf(),
            row < old(self).rows,
            col < old(self).cols,
        ensures
            *cell == old(self).cell(row as int, col as int),
            final(self).wf(),
            final(self).same_config(*old(self)),
            forall|i: int, j: int|
                old(self).in_bounds(i, j) ==> #[trigger] final(self).cell(i, j) == (if i == row && j
                    == col {
                    *final(cell)
                } else {
                    old(self).cell(i, j)
                }),
    {
        &mut self.cells[row][col]
    }

    /// Which of a (row, column) pair of signed indices falls outside the
    /// grid: `.0` for the row, `.1` for the column.
    pub fn out_of_bounds(&self, irow: isize, icol: isize) -> (oob: (bool, bool))
        requires
            self.wf(),
        ensures
            oob.0 == !(0 <= irow && irow < self.rows),
            oob.1 == !(0 <= icol && icol < self.cols),
    {
        let row_oob = if irow < 0 {
            true
        } else {
            irow as usize >= self.rows
        };
        let col_oob = if icol < 0 {
            true
        } else {
            icol as usize >= self.cols
        };
        (row_oob, col_oob)
    }

    /// 1 when an in-bounds hazard sits at `(r, c)`, else 0.
    fn hazard_ind_at(&self, r: isize, c: isize) -> (n: u32)
        requires
            self.wf(),
        ensures
            n == self.hazard_ind(r as int, c as int),
    {
        if r >= 0 && c >= 0 && (r as usize) < self.rows && (c as usize) < self.cols {
            if self.cells[r as usize][c as usize].pipebomb {
                1
            } else {
                0
            }
        } else {
            0
        }
    }

    /// Count the hazards among the up-to-8 neighbors of `(irow, icol)`,
    /// ignoring out-of-bounds neighbors and the cell itself.
    pub fn bombs_around(&self, irow: isize, icol: isize) -> (n: u32)
        requires
            self.wf(),
            irow + 1 <= isize::MAX,
            irow - 1 >= isize::MIN,
            icol + 1 <= isize::MAX,
            icol - 1 >= isize::MIN,
        ensures
            n == self.adjacency(irow as int, icol as int),
    {
        let mut n: u32 = self.hazard_ind_at(irow - 1, icol - 1);
        n = n + self.hazard_ind_at(irow - 1, icol);
        n = n + self.hazard_ind_at(irow - 1, icol + 1);
        n = n + self.hazard_ind_at(irow, icol - 1);
        n = n + self.hazard_ind_at(irow, icol + 1);
        n = n + self.hazard_ind_at(irow + 1, icol - 1);
        n = n + self.hazard_ind_at(irow + 1, icol);
        n = n + self.hazard_ind_at(irow + 1, icol + 1);
        n
    }

    /// Set the cell at `(row, col)` to `Open`, leaving its hazard flag and
    /// every other cell unchanged.
    pub fn open_at(&mut self, row: usize, col: usize)
        requires
            old(self).wf(),
            row < old(self).rows,
            col < old(self).cols,
        ensures
            final(self).wf(),
            final(self).same_config(*old(self)),
            forall|i: int, j: int|
                old(self).in_bounds(i, j) ==> #[trigger] final(self).cell(i, j) == (if i == row && j
                    == col {
                    (Cell { state: State::Open, pipebomb: old(self).cell(i, j).pipebomb })
                } else {
                    old(self).cell(i, j)
                }),
    {
        self.cells[row][col].state = State::Open;
    }

    /// The flag-toggle transition on the cursor cell: `Closed` and `Flagged`
    /// swap, `Open` stays, every other cell is untouched.
    pub open spec fn flag_step(self, post: Field) -> bool {
        &&& post.wf()
        &&& post.same_config(self)
        &&& forall|i: int, j: int|
            self.in_bounds(i, j) ==> #[trigger] post.cell(i, j) == (if i == self.cursor_row && j
                == self.cursor_col {
                (Cell { state: toggle(self.cell(i, j).state), pipebomb: self.cell(i, j).pipebomb })
            } else {
                self.cell(i, j)
            })
    }

    /// Toggle the cursor cell between `Closed` and `Flagged`; an `Open`
    /// cursor cell is unaffected.
    pub fn flag_at_cursor(&mut self)
        requires
            old(self).wf(),
        ensures
            final(self).wf(),
            old(self).flag_step(*final(self)),
    {
        let row = self.cursor_row;
        let col = self.cursor_col;
        let cell = self.get_cell_mut(row, col);
        match cell.state {
            State::Closed => cell.state = State::Flagged,
            State::Flagged => cell.state = State::Closed,
            _ => (),
        }
    }

    /// Move the cursor one step toward index 0 on the given axis, staying
    /// put when already at the edge (clamped, never wrapped).
    pub fn dec_cursor(&mut self, o: Orientation)
        requires
            old(self).wf(),
        ensures
            final(self).wf(),
            final(self).rows == old(self).rows,
            final(self).cols == old(self).cols,
            final(self).bomb_pcnt == old(self).bomb_pcnt,
            final(self).cells == old(self).cells,
            o == Orientation::Vertical ==> final(self).cursor_col == old(self).cursor_col
                && final(self).cursor_row == (if old(self).cursor_row > 0 {
                (old(self).cursor_row - 1) as usize
            } else {
                0usize
            }),
            o == Orientation::Horizontal ==> final(self).cursor_row == old(self).cursor_row
                && final(self).cursor_col == (if old(self).cursor_col > 0 {
                (old(self).cursor_col - 1) as usize
            } else {
                0usize
            }),
    {
        match o {
            Orientation::Vertical => {
                if self.cursor_row > 0 {
                    self.cursor_row = self.cursor_row - 1;
                }
            },
            Orientation::Horizontal => {
                if self.cursor_col > 0 {
                    self.cursor_col = self.cursor_col - 1;
                }
            },
        }
    }

    /// Move the cursor one step away from index 0 on the given axis, staying
    /// put at the far edge (clamped, never wrapped).
    pub fn inc_cursor(&mut self, o: Orientation)
        requires
            old(self).wf(),
        ensures
            final(self).wf(),
            final(self).rows == old(self).rows,
            final(self).cols == old(self).cols,
            final(self).bomb_pcnt == old(self).bomb_pcnt,
            final(self).cells == old(self).cells,
            o == Orientation::Vertical ==> final(self).cursor_col == old(self).cursor_col
                && final(self).cursor_row == (if old(self).cursor_row + 1 < old(self).rows {
                (old(self).cursor_row + 1) as usize
            } else {
                old(self).cursor_row
            }),
            o == Orientation::Horizontal ==> final(self).cursor_row == old(self).cursor_row
                && final(self).cursor_col == (if old(self).cursor_col + 1 < old(self).cols {
                (old(self).cursor_col + 1) as usize
            } else {
                old(self).cursor_col
            }),
    {
        match o {
            Orientation::Vertical => {
                if self.cursor_row < self.rows - 1 {
                    self.cursor_row = self.cursor_row + 1;
                }
            },
            Orientation::Horizontal => {
                if self.cursor_col < self.cols - 1 {
                    self.cursor_col = self.cursor_col + 1;
                }
            },
        }
    }

    /// Open every hazard cell, whatever its current state (the end-of-game
    /// reveal); non-hazard cells are untouched.
    pub fn reveal_mines(&mut self)
        requires
            old(self).wf(),
        ensures
            final(self).wf(),
            final(self).same_config(*old(self)),
            forall|i: int, j: int|
                old(self).in_bounds(i, j) ==> #[trigger] final(self).cell(i, j) == (if old(
                    self,
                ).bomb(i, j) {
                    (Cell { state: State::Open, pipebomb: true })
                } else {
                    old(self).cell(i, j)
                }),
    {
        let rows = self.rows;
        let cols = self.cols;
        let mut i: usize = 0;
        while i < rows
            invariant
                self.wf(),
                self.same_config(*old(self)),
                rows == self.rows,
                cols == self.cols,
                i <= rows,
                forall|a: int, b: int|
                    old(self).in_bounds(a, b) ==> #[trigger] self.cell(a, b) == (if a < i
                        && old(self).bomb(a, b) {
                        (Cell { state: State::Open, pipebomb: true })
                    } else {
                        old(self).cell(a, b)
                    }),
            decreases rows - i,
        {
            let mut j: usize = 0;
            while j < cols
                invariant
                    self.wf(),
                    self.same_config(*old(self)),
                    rows == self.rows,
                    cols == self.cols,
                    i < rows,
                    j <= cols,
                    forall|a: int, b: int|
                        old(self).in_bounds(a, b) ==> #[trigger] self.cell(a, b) == (if (a < i || (a
                            == i && b < j)) && old(self).bomb(a, b) {
                            (Cell { state: State::Open, pipebomb: true })
                        } else {
                            old(self).cell(a, b)
                        }),
                decreases cols - j,
            {
                let cell = self.get_cell_mut(i, j);
                if cell.pipebomb {
                    cell.state = State::Open;
                }
                j = j + 1;
            }
            i = i + 1;
        }
    }

    /// True iff every non-hazard cell is open.
    pub fn victory(&self) -> (v: bool)
        requires
            self.wf(),
        ensures
            v == self.victory_spec(),
    {
        let mut i: usize = 0;
        while i < self.rows
            invariant
                self.wf(),
                i <= self.rows,
                forall|a: int, b: int|
                    0 <= a < i && 0 <= b < self.cols && !self.bomb(a, b) ==> #[trigger] self.state(
                        a,
                        b,
                    ) == State::Open,
            decreases self.rows - i,
        {
            let mut j: usize = 0;
            while j < self.cols
                invariant
                    self.wf(),
                    i < self.rows,
                    j <= self.cols,
                    forall|a: int, b: int|
                        0 <= a < i && 0 <= b < self.cols && !self.bomb(a, b)
                            ==> #[trigger] self.state(a, b) == State::Open,
                    forall|b: int|
                        0 <= b < j && !self.bomb(i as int, b) ==> #[trigger] self.state(i as int, b)
                            == State::Open,
                decreases self.cols - j,
            {
                let cell = self.cells[i][j];
                if !cell.pipebomb && !matches!(cell.state, State::Open) {
                    proof {
                        assert(self.state(i as int, j as int) != State::Open);
                    }
                    return false;
                }
                j = j + 1;
            }
            i = i + 1;
        }
        true
    }
}

/// The digit glyph for an adjacency count between 1 and 8.
pub open spec fn digit_char(n: int) -> char {
    if n == 1 {
        '1'
    } else if n == 2 {
        '2'
    } else if n == 3 {
        '3'
    } else if n == 4 {
        '4'
    } else if n == 5 {
        '5'
    } else if n == 6 {
        '6'
    } else if n == 7 {
        '7'
    } else {
        '8'
    }
}

impl Field {
    /// The glyph shown for a revealed cell: the hazard glyph on a hazard,
    /// else the adjacency count as a digit, or a blank for zero.
    pub open spec fn glyph_at(self, r: int, c: int) -> Seq<char> {
        if self.bomb(r, c) {
            seq!['@']
        } else if self.adjacency(r, c) > 0 {
            seq![digit_char(self.adjacency(r, c) as int)]
        } else {
            seq![' ']
        }
    }

    /// Render the cell at `(row, col)` as if revealed: `"@"` over a hazard,
    /// the adjacency digit next to one, a blank inside a zero region.
    pub fn cell_str_at(&self, row: usize, col: usize) -> (s: String)
        requires
            self.wf(),
            row < self.rows,
            col < self.cols,
        ensures
            s@ == self.glyph_at(row as int, col as int),
    {
        if self.has_bomb_at(row, col) {
            let s = "@";
            proof {
                reveal_strlit("@");
                assert(s@ =~= seq!['@']);
            }
            return s.to_owned();
        }
        let adj = self.bombs_around(row as isize, col as isize);
        proof {
            assert(adj <= 8);
        }
        let s = if adj == 0 {
            let s0 = " ";
            proof {
                reveal_strlit(" ");
                assert(s0@ =~= seq![' ']);
            }
            s0
        } else if adj == 1 {
            let s0 = "1";
            proof {
                reveal_strlit("1");
                assert(s0@ =~= seq!['1']);
            }
            s0
        } else if adj == 2 {
            let s0 = "2";
            proof {
                reveal_strlit("2");
                assert(s0@ =~= seq!['2']);
            }
            s0
        } else if adj == 3 {
            let s0 = "3";
            proof {
                reveal_strlit("3");
                assert(s0@ =~= seq!['3']);
            }
            s0
        } else if adj == 4 {
            let s0 = "4";
            proof {
                reveal_strlit("4");
                assert(s0@ =~= seq!['4']);
            }
            s0
        } else if adj == 5 {
            let s0 = "5";
            proof {
                reveal_strlit("5");
                assert(s0@ =~= seq!['5']);
            }
            s0
        } else if adj == 6 {
            let s0 = "6";
            proof {
                reveal_strlit("6");
                assert(s0@ =~= seq!['6']);
            }
            s0
        } else if adj == 7 {
            let s0 = "7";
            proof {
                reveal_strlit("7");
                assert(s0@ =~= seq!['7']);
            }
            s0
        } else {
            let s0 = "8";
            proof {
                reveal_strlit("8");
                assert(s0@ =~= seq!['8']);
            }
            s0
        };
        s.to_owned()
    }
}

/// The flag toggle on a single state: `Closed` and `Flagged` swap, `Open`
/// stays.
pub open spec fn toggle(s: State) -> State {
    match s {
        State::Closed => State::Flagged,
        State::Flagged => State::Closed,
        State::Open => State::Open,
    }
}

} // verus!
