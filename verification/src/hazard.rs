//! Hazard placement: resetting the grid and scattering the owed number of
//! hazards over randomly chosen distinct non-cursor cells.

use vstd::prelude::*;
use crate::cell::{Cell, State};
use crate::counting::{grid_count, lemma_grid_count_update, lemma_grid_count_zero};
use crate::field::Field;
use crate::rng::random_below;

verus! {

/// The predicate counted by `bomb_total`: the cell carries a hazard.
pub open spec fn hazard_pred() -> spec_fn(Cell) -> bool {
    |c: Cell| c.pipebomb
}

/// When two well-formed fields of the same dimensions differ in at most the
/// one cell `(r, c)`, the second grid is the first with that cell replaced.
proof fn lemma_grid_view_update(pre: Field, post: Field, r: int, c: int)
    requires
        pre.wf(),
        post.wf(),
        post.rows == pre.rows,
        post.cols == pre.cols,
        pre.in_bounds(r, c),
        forall|i: int, j: int|
            pre.in_bounds(i, j) && !(i == r && j == c) ==> #[trigger] post.cell(i, j) == pre.cell(
                i,
                j,
            ),
    ensures
        post.grid_view() =~~= pre.grid_view().update(
            r,
            pre.grid_view()[r].update(c, post.cell(r, c)),
        ),
{
    let gv = pre.grid_view();
    let gv2 = post.grid_view();
    let target = gv.update(r, gv[r].update(c, post.cell(r, c)));
    assert(gv2.len() == target.len());
    assert forall|x: int| 0 <= x < gv2.len() implies gv2[x] =~= target[x] by {
        assert(pre.cells@[x]@.len() == pre.cols);
        assert(post.cells@[x]@.len() == post.cols);
        assert(gv2[x].len() == target[x].len());
        assert forall|y: int| 0 <= y < gv2[x].len() implies gv2[x][y] == target[x][y] by {
            assert(gv2[x][y] == post.cell(x, y));
            assert(gv[x][y] == pre.cell(x, y));
            if !(x == r && y == c) {
                assert(post.cell(x, y) == pre.cell(x, y));
            }
        }
    }
}

/// Placing one new hazard raises the hazard total by exactly one.
proof fn lemma_bomb_total_place(pre: Field, post: Field, r: int, c: int)
    requires
        pre.wf(),
        post.wf(),
        post.rows == pre.rows,
        post.cols == pre.cols,
        pre.in_bounds(r, c),
        !pre.bomb(r, c),
        post.bomb(r, c),
        forall|i: int, j: int|
            pre.in_bounds(i, j) && !(i == r && j == c) ==> #[trigger] post.cell(i, j) == pre.cell(
                i,
                j,
            ),
    ensures
        post.bomb_total() == pre.bomb_total() + 1,
{
    lemma_grid_view_update(pre, post, r, c);
    lemma_grid_count_update(pre.grid_view(), r, c, post.cell(r, c), hazard_pred());
    assert(pre.grid_view()[r][c] == pre.cell(r, c));
    assert(!hazard_pred()(pre.cell(r, c)));
    assert(hazard_pred()(post.cell(r, c)));
}

impl Field {
    /// The grid as a sequence of rows of cells.
    pub open spec fn grid_view(self) -> Seq<Seq<Cell>> {
        self.cells@.map_values(|r: Vec<Cell>| r@)
    }

    /// Total number of hazard cells on the grid.
    pub open spec fn bomb_total(self) -> nat {
        grid_count(self.grid_view(), hazard_pred())
    }

    /// The number of hazards `randomize` owes: the density percentage of
    /// `rows * rows`, rounded up, capped by the number of non-cursor cells.
    pub open spec fn hazard_quota(self) -> int {
        let bc = (self.rows * self.rows * self.bomb_pcnt + 99) / 100;
        let cap = self.rows * self.cols - 1;
        if bc <= cap {
            bc
        } else {
            cap
        }
    }

    /// Reset every cell to closed and hazard-free, then place exactly the
    /// owed number of hazards at distinct randomly chosen cells, never on
    /// the cursor cell. The cursor itself does not move.
    pub fn randomize(&mut self)
        requires
            old(self).wf(),
        ensures
            final(self).wf(),
            final(self).same_config(*old(self)),
            forall|i: int, j: int|
                final(self).in_bounds(i, j) ==> #[trigger] final(self).state(i, j)
                    == State::Closed,
            final(self).bomb_total() == final(self).hazard_quota(),
            !final(self).bomb(final(self).cursor_row as int, final(self).cursor_col as int),
    {
        let rows = self.rows;
        let cols = self.cols;
        // Reset all cells.
        let mut i: usize = 0;
        while i < rows
            invariant
                self.wf(),
                self.same_config(*old(self)),
                rows == self.rows,
                cols == self.cols,
                i <= rows,
                forall|a: int, b: int|
                    self.in_bounds(a, b) && a < i ==> #[trigger] self.cell(a, b) == (Cell {
                        state: State::Closed,
                        pipebomb: false,
                    }),
            decreases rows - i,
        {
            let mut j: usize = 0;
            while j < cols
                invariant
                    self.wf(),
                    self.same_config(*old(self)),
                    rows == self.rows,
                    cols == self.cols,
                    i < rows,
                    j <= cols,
                    forall|a: int, b: int|
                        self.in_bounds(a, b) && (a < i || (a == i && b < j)) ==> #[trigger] self.cell(
                            a,
                            b,
                        ) == (Cell { state: State::Closed, pipebomb: false }),
                decreases cols - j,
            {
                let ghost prev = *self;
                self.cells[i][j] = Cell::empty();
                proof {
                    assert forall|a: int, b: int|
                        self.in_bounds(a, b) && !(a == i && b == j) implies #[trigger] self.cell(
                        a,
                        b,
                    ) == prev.cell(a, b) by {
                        assert(self.cells@[a] == prev.cells@[a] || a == i);
                    }
                    assert(self.cell(i as int, j as int) == (Cell {
                        state: State::Closed,
                        pipebomb: false,
                    }));
                }
                j = j + 1;
            }
            i = i + 1;
        }
        // The owed number of hazards.
        proof {
            assert(rows * rows <= rows * rows * 100) by (nonlinear_arith)
                requires
                    1 <= rows,
            ;
            assert(rows * rows * self.bomb_pcnt <= rows * rows * 100) by (nonlinear_arith)
                requires
                    self.bomb_pcnt <= 100,
            ;
            assert(1 <= rows * cols) by (nonlinear_arith)
                requires
                    1 <= rows && 1 <= cols,
            ;
        }
        let bc = (rows * rows * self.bomb_pcnt + 99) / 100;
        let cap = rows * cols - 1;
        let target = if bc <= cap {
            bc
        } else {
            cap
        };
        // List every non-cursor cell once, in scan order.
        let mut coords: Vec<(usize, usize)> = Vec::new();
        i = 0;
        while i < rows
            invariant
                self.wf(),
                self.same_config(*old(self)),
                rows == self.rows,
                cols == self.cols,
                i <= rows,
                forall|a: int, b: int|
                    self.in_bounds(a, b) ==> #[trigger] self.cell(a, b) == (Cell {
                        state: State::Closed,
                        pipebomb: false,
                    }),
                forall|l: int|
                    0 <= l < coords@.len() ==> ((#[trigger] coords@[l]).0 < rows && coords@[l].1
                        < cols && !(coords@[l].0 == self.cursor_row && coords@[l].1
                        == self.cursor_col) && (coords@[l].0 < i)),
                forall|l1: int, l2: int|
                    0 <= l1 < l2 < coords@.len() ==> #[trigger] coords@[l1] != #[trigger] coords@[l2],
                coords@.len() == i * cols - (if self.cursor_row < i {
                    1int
                } else {
                    0int
                }),
            decreases rows - i,
        {
            let mut j: usize = 0;
            while j < cols
                invariant
                    self.wf(),
                    self.same_config(*old(self)),
                    rows == self.rows,
                    cols == self.cols,
                    i < rows,
                    j <= cols,
                    forall|a: int, b: int|
                        self.in_bounds(a, b) ==> #[trigger] self.cell(a, b) == (Cell {
                            state: State::Closed,
                            pipebomb: false,
                        }),
                    forall|l: int|
                        0 <= l < coords@.len() ==> ((#[trigger] coords@[l]).0 < rows && coords@[l].1
                            < cols && !(coords@[l].0 == self.cursor_row && coords@[l].1
                            == self.cursor_col) && (coords@[l].0 < i || (coords@[l].0 == i
                            && coords@[l].1 < j))),
                    forall|l1: int, l2: int|
                        0 <= l1 < l2 < coords@.len() ==> #[trigger] coords@[l1]
                            != #[trigger] coords@[l2],
                    coords@.len() == i * cols + j - (if self.cursor_row < i || (self.cursor_row == i
                        && self.cursor_col < j) {
                        1int
                    } else {
                        0int
                    }),
                decreases cols - j,
            {
                if !(i == self.cursor_row && j == self.cursor_col) {
                    coords.push((i, j));
                }
                j = j + 1;
            }
            proof {
                assert((i + 1) * cols == i * cols + cols) by (nonlinear_arith);
            }
            i = i + 1;
        }
        proof {
            assert(coords@.len() == rows * cols - 1);
        }
        let n = coords.len();
        // Shuffle the list so that the placed cells are a random choice.
        let mut k: usize = n;
        while k > 1
            invariant
                k <= n,
                coords@.len() == n,
                forall|l: int|
                    0 <= l < coords@.len() ==> ((#[trigger] coords@[l]).0 < rows && coords@[l].1
                        < cols && !(coords@[l].0 == self.cursor_row && coords@[l].1
                        == self.cursor_col)),
                forall|l1: int, l2: int|
                    0 <= l1 < l2 < coords@.len() ==> #[trigger] coords@[l1] != #[trigger] coords@[l2],
                self.wf(),
                self.same_config(*old(self)),
                rows == self.rows,
                cols == self.cols,
                forall|a: int, b: int|
                    self.in_bounds(a, b) ==> #[trigger] self.cell(a, b) == (Cell {
                        state: State::Closed,
                        pipebomb: false,
                    }),
            decreases k,
        {
            let j = random_below(k);
            k = k - 1;
            let ghost s0 = coords@;
            let a = coords[k];
            let b = coords[j];
            coords[k] = b;
            coords[j] = a;
            proof {
                assert(coords@ =~= s0.update(k as int, s0[j as int]).update(j as int, s0[k as int]));
                assert forall|l1: int, l2: int|
                    0 <= l1 < l2 < coords@.len() implies #[trigger] coords@[l1]
                    != #[trigger] coords@[l2] by {
                    let m1: int = if l1 == k {
                        j as int
                    } else if l1 == j {
                        k as int
                    } else {
                        l1
                    };
                    let m2: int = if l2 == k {
                        j as int
                    } else if l2 == j {
                        k as int
                    } else {
                        l2
                    };
                    assert(coords@[l1] == s0[m1]);
                    assert(coords@[l2] == s0[m2]);
                    assert(m1 != m2);
                }
            }
        }
        // Place a hazard on the first `target` listed cells.
        proof {
            assert forall|a: int, b: int|
                self.in_bounds(a, b) implies !hazard_pred()(
                #[trigger] self.grid_view()[a][b],
            ) by {
                assert(self.grid_view()[a][b] == self.cell(a, b));
            }
            lemma_grid_count_zero(self.grid_view(), hazard_pred());
        }
        let mut placed: usize = 0;
        while placed < target
            invariant
                self.wf(),
                self.same_config(*old(self)),
                rows == self.rows,
                cols == self.cols,
                placed <= target,
                target <= n,
                coords@.len() == n,
                forall|l: int|
                    0 <= l < coords@.len() ==> ((#[trigger] coords@[l]).0 < rows && coords@[l].1
                        < cols && !(coords@[l].0 == self.cursor_row && coords@[l].1
                        == self.cursor_col)),
                forall|l1: int, l2: int|
                    0 <= l1 < l2 < coords@.len() ==> #[trigger] coords@[l1] != #[trigger] coords@[l2],
                forall|a: int, b: int|
                    self.in_bounds(a, b) ==> #[trigger] self.state(a, b) == State::Closed,
                forall|l: int|
                    0 <= l < placed ==> #[trigger] self.bomb(coords@[l].0 as int, coords@[l].1 as int),
                forall|a: int, b: int|
                    self.in_bounds(a, b) && #[trigger] self.bomb(a, b) ==> exists|l: int|
                        0 <= l < placed && #[trigger] coords@[l] == ((a as usize, b as usize)),
                self.bomb_total() == placed,
            decreases target - placed,
        {
            let rc = coords[placed];
            let r = rc.0;
            let c = rc.1;
            let ghost pre = *self;
            proof {
                if pre.bomb(r as int, c as int) {
                    let l = choose|l: int|
                        0 <= l < placed && #[trigger] coords@[l] == ((r, c));
                    assert(coords@[l] == coords@[placed as int]);
                }
            }
            let ok = self.set_bomb_at(r, c);
            proof {
                assert(ok);
                lemma_bomb_total_place(pre, *self, r as int, c as int);
                assert(self.bomb_total() == placed + 1);
                assert forall|a: int, b: int| self.in_bounds(a, b) implies #[trigger] self.state(
                    a,
                    b,
                ) == State::Closed by {
                    if !(a == r && b == c) {
                        assert(self.cell(a, b) == pre.cell(a, b));
                        assert(pre.state(a, b) == State::Closed);
                    } else {
                        assert(self.cell(a, b) == (Cell {
                            state: pre.cell(a, b).state,
                            pipebomb: true,
                        }));
                        assert(pre.state(a, b) == State::Closed);
                    }
                }
                assert forall|l: int| 0 <= l < placed + 1 implies #[trigger] self.bomb(
                    coords@[l].0 as int,
                    coords@[l].1 as int,
                ) by {
                    if l < placed {
                        assert(pre.bomb(coords@[l].0 as int, coords@[l].1 as int));
                        assert(coords@[l] != coords@[placed as int]);
                    }
                }
                assert forall|a: int, b: int|
                    self.in_bounds(a, b) && #[trigger] self.bomb(a, b) implies exists|l: int|
                    0 <= l < placed + 1 && #[trigger] coords@[l] == ((a as usize, b as usize)) by {
                    if a == r && b == c {
                        assert(coords@[placed as int] == ((a as usize, b as usize)));
                    } else {
                        assert(pre.bomb(a, b));
                        let l = choose|l: int|
                            0 <= l < placed && #[trigger] coords@[l] == ((a as usize, b as usize));
                        assert(0 <= l < placed + 1 && coords@[l] == ((a as usize, b as usize)));
                    }
                }
            }
            placed = placed + 1;
        }
        proof {
            if self.bomb(self.cursor_row as int, self.cursor_col as int) {
                let l = choose|l: int|
                    0 <= l < placed && #[trigger] coords@[l] == ((self.cursor_row, self.cursor_col));
            }
        }
    }
}

} // verus!
