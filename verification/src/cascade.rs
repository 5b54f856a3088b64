//! The flood reveal: opening a cell and cascading through its zero-adjacency
//! region.
//!
//! The contract of `check_at` pins the whole effect down: a cell ends open
//! exactly when the cascade reaches it (through zero-adjacency, not-yet-open
//! cells) and it opens up (it is hazard-free and either borders a hazard or
//! was still closed). Everything else — hazard flags, flagged zero-adjacency
//! cells, cells out of the region — is untouched.

use vstd::prelude::*;
use crate::cell::{Cell, State};
use crate::counting::{grid_count, lemma_grid_count_le, lemma_grid_count_update,
    lemma_grid_count_zero};
use crate::field::Field;

verus! {

/// `(r2, c2)` is one of the up-to-8 neighbors of `(r1, c1)`.
pub open spec fn is_neighbor(r1: int, c1: int, r2: int, c2: int) -> bool {
    &&& -1 <= r2 - r1 <= 1
    &&& -1 <= c2 - c1 <= 1
    &&& !(r1 == r2 && c1 == c2)
}

impl Field {
    /// The cascade passes through a cell iff it is in bounds, hazard-free,
    /// borders no hazard, and is not already open.
    pub open spec fn conduit(self, r: int, c: int) -> bool {
        &&& self.in_bounds(r, c)
        &&& !self.bomb(r, c)
        &&& self.adjacency(r, c) == 0
        &&& self.state(r, c) != State::Open
    }

    /// `p` is a cascade path from `(sr, sc)` to `(r, c)`: consecutive
    /// positions are neighbors and every position but the last is a conduit.
    pub open spec fn cascade_path(
        self,
        p: Seq<(int, int)>,
        sr: int,
        sc: int,
        r: int,
        c: int,
    ) -> bool {
        &&& p.len() >= 1
        &&& p[0] == (sr, sc)
        &&& p[p.len() - 1] == (r, c)
        &&& self.in_bounds(r, c)
        &&& (forall|k: int| 0 <= k < p.len() - 1 ==> self.conduit((#[trigger] p[k]).0, p[k].1))
        &&& (forall|k: int|
            0 <= k < p.len() - 1 ==> is_neighbor(
                (#[trigger] p[k]).0,
                p[k].1,
                p[k + 1].0,
                p[k + 1].1,
            ))
    }

    /// The reveal started at `(sr, sc)` reaches `(r, c)`.
    pub open spec fn reaches(self, sr: int, sc: int, r: int, c: int) -> bool {
        exists|p: Seq<(int, int)>| self.cascade_path(p, sr, sc, r, c)
    }

    /// A reached cell ends open iff it is hazard-free and either borders a
    /// hazard or is still closed. A flagged zero-adjacency cell does not
    /// open (though the cascade passes through it); an already-open cell
    /// stays as it is.
    pub open spec fn opens_up(self, r: int, c: int) -> bool {
        !self.bomb(r, c) && (self.adjacency(r, c) > 0 || self.state(r, c) == State::Closed)
    }

    /// The full effect of one reveal at `(sr, sc)`: a cell is open afterwards
    /// iff it was open before, or the cascade reaches it and it opens up;
    /// nothing else changes. A hazard at `(sr, sc)` means nothing changes at
    /// all (no path leaves a hazard cell, and the hazard cell itself does not
    /// open up).
    pub open spec fn reveal_step(self, post: Field, sr: int, sc: int) -> bool {
        &&& post.wf()
        &&& post.same_config(self)
        &&& forall|i: int, j: int|
            self.in_bounds(i, j) ==> #[trigger] post.cell(i, j) == (if self.reaches(sr, sc, i, j)
                && self.opens_up(i, j) {
                (Cell { state: State::Open, pipebomb: self.cell(i, j).pipebomb })
            } else {
                self.cell(i, j)
            })
    }
}

impl Field {
    /// Reveal at `(row, col)`: a no-op on a hazard cell; opens a bordering
    /// cell; floods a zero-adjacency region (through closed and flagged
    /// zero-adjacency cells) and opens its closed interior and its whole
    /// border. The `reveal_step` relation states the exact effect.
    pub fn check_at(&mut self, row: usize, col: usize)
        requires
            old(self).wf(),
            row < old(self).rows,
            col < old(self).cols,
        ensures
            old(self).reveal_step(*final(self), row as int, col as int),
    {
        let ghost g0 = *old(self);
        let ghost sr = row as int;
        let ghost sc = col as int;
        if self.has_bomb_at(row, col) {
            proof {
                assert forall|i: int, j: int| g0.in_bounds(i, j) implies #[trigger] self.cell(i, j)
                    == (if g0.reaches(sr, sc, i, j) && g0.opens_up(i, j) {
                    (Cell { state: State::Open, pipebomb: g0.cell(i, j).pipebomb })
                } else {
                    g0.cell(i, j)
                }) by {
                    if g0.reaches(sr, sc, i, j) && g0.opens_up(i, j) {
                        if !(i == sr && j == sc) {
                            lemma_reaches_start_conduit(g0, sr, sc, i, j);
                        }
                        assert(false);
                    }
                }
            }
            return ;
        }
        let rows = self.rows;
        let cols = self.cols;
        // A visited marker per cell: set when the cell enters the worklist,
        // so no cell is enqueued twice.
        let mut visited: Vec<Vec<bool>> = Vec::new();
        let mut bi: usize = 0;
        while bi < rows
            invariant
                bi <= rows,
                visited@.len() == bi,
                forall|a: int| 0 <= a < bi ==> (#[trigger] visited@[a])@.len() == cols,
                forall|a: int, b: int|
                    0 <= a < bi && 0 <= b < cols ==> !(#[trigger] visited@[a]@[b]),
            decreases rows - bi,
        {
            let mut rowv: Vec<bool> = Vec::new();
            let mut bj: usize = 0;
            while bj < cols
                invariant
                    bj <= cols,
                    rowv@.len() == bj,
                    forall|b: int| 0 <= b < bj ==> !(#[trigger] rowv@[b]),
                decreases cols - bj,
            {
                rowv.push(false);
                bj = bj + 1;
            }
            visited.push(rowv);
            bi = bi + 1;
        }
        proof {
            assert(vis_shape(g0, visited@));
            assert forall|a: int, b: int|
                0 <= a < vgrid(visited@).len() && 0 <= b < (#[trigger] vgrid(visited@)[a]).len()
                    implies !tt()(#[trigger] vgrid(visited@)[a][b]) by {
                assert(!visited@[a]@[b]);
            }
            lemma_grid_count_zero(vgrid(visited@), tt());
            lemma_reaches_self(g0, sr, sc);
        }
        let mut stack: Vec<(usize, usize)> = Vec::new();
        push_neighbor(&mut stack, &mut visited, row, col, Ghost(g0), Ghost(sr), Ghost(sc));
        proof {
            assert(explored(visited@) == 1);
            assert forall|i: int, j: int| g0.in_bounds(i, j) implies #[trigger] self.cell(i, j)
                == g0.cell(i, j) by {}
            assert(cells_staged(g0, *self, stack@, visited@));
            assert(frontier_closed(g0, stack@, visited@));
            lemma_grid_count_le(vgrid(visited@), g0.cols as nat, tt());
        }
        while stack.len() > 0
            invariant
                self.wf(),
                self.same_config(g0),
                g0.wf(),
                rows == g0.rows,
                cols == g0.cols,
                g0.in_bounds(sr, sc),
                !g0.bomb(sr, sc),
                vis_shape(g0, visited@),
                vis(visited@, sr, sc),
                stack_ok(g0, sr, sc, stack@, visited@),
                visited_sound(g0, sr, sc, visited@),
                frontier_closed(g0, stack@, visited@),
                cells_staged(g0, *self, stack@, visited@),
                explored(visited@) <= rows * cols,
            decreases rows * cols - explored(visited@), stack@.len(),
        {
            let ghost s0 = stack@;
            let ghost v_top = visited@;
            let ghost f_top = *self;
            let rc = stack.pop().unwrap();
            let r = rc.0;
            let c = rc.1;
            proof {
                assert(s0[s0.len() - 1] == rc);
                assert(stack@ =~= s0.drop_last());
                assert(r < g0.rows && c < g0.cols);
                assert(vis(v_top, r as int, c as int));
                assert(g0.reaches(sr, sc, r as int, c as int));
                assert(!g0.bomb(r as int, c as int));
                assert(on_stack(s0, r as int, c as int)) by {
                    assert(s0[s0.len() - 1] == ((r, c)));
                }
                assert(!on_stack(stack@, r as int, c as int)) by {
                    if on_stack(stack@, r as int, c as int) {
                        let k = choose|k: int|
                            0 <= k < stack@.len() && stack@[k] == ((r, c));
                        assert(s0[k] == s0[s0.len() - 1]);
                        assert(false);
                    }
                }
                assert forall|i: int, j: int|
                    g0.in_bounds(i, j) && !(i == r as int && j == c as int) implies (on_stack(
                    stack@,
                    i,
                    j,
                ) == on_stack(s0, i, j)) by {
                    if on_stack(s0, i, j) {
                        let k = choose|k: int|
                            0 <= k < s0.len() && s0[k] == ((i as usize, j as usize));
                        assert(k < s0.len() - 1);
                        assert(stack@[k] == s0[k]);
                    }
                    if on_stack(stack@, i, j) {
                        let k = choose|k: int|
                            0 <= k < stack@.len() && stack@[k] == ((i as usize, j as usize));
                        assert(s0[k] == stack@[k]);
                    }
                }
                // The popped cell still has its original contents.
                assert(self.cell(r as int, c as int) == g0.cell(r as int, c as int));
                // Hazard flags never change, so adjacency counts agree.
                assert forall|a: int, b: int|
                    self.in_bounds(a, b) && is_neighbor(r as int, c as int, a, b) implies self.bomb(
                    a,
                    b,
                ) == #[trigger] g0.bomb(a, b) by {
                    assert(self.cell(a, b) == (if vis(v_top, a, b) && !on_stack(s0, a, b)
                        && g0.opens_up(a, b) {
                        (Cell { state: State::Open, pipebomb: g0.cell(a, b).pipebomb })
                    } else {
                        g0.cell(a, b)
                    }));
                }
                lemma_adjacency_local(*self, g0, r as int, c as int);
            }
            let adj = self.bombs_around(r as isize, c as isize);
            if adj > 0 {
                let ghost f_pre = *self;
                self.open_at(r, c);
                proof {
                    assert(g0.opens_up(r as int, c as int));
                    assert forall|i: int, j: int| g0.in_bounds(i, j) implies #[trigger] self.cell(
                        i,
                        j,
                    ) == (if vis(visited@, i, j) && !on_stack(stack@, i, j) && g0.opens_up(i, j) {
                        (Cell { state: State::Open, pipebomb: g0.cell(i, j).pipebomb })
                    } else {
                        g0.cell(i, j)
                    }) by {
                        if !(i == r as int && j == c as int) {
                            assert(self.cell(i, j) == f_top.cell(i, j));
                        }
                    }
                    assert(cells_staged(g0, *self, stack@, visited@));
                    assert(!g0.conduit(r as int, c as int));
                    assert(frontier_closed(g0, stack@, visited@));
                }
            } else {
                let st = self.cells[r][c].state;
                proof {
                    assert(st == g0.state(r as int, c as int));
                }
                if matches!(st, State::Open) {
                    proof {
                        assert(!g0.conduit(r as int, c as int));
                        assert(!g0.opens_up(r as int, c as int));
                        assert(cells_staged(g0, *self, stack@, visited@));
                        assert(frontier_closed(g0, stack@, visited@));
                    }
                } else {
                    proof {
                        assert(g0.conduit(r as int, c as int));
                    }
                    if matches!(st, State::Closed) {
                        self.open_at(r, c);
                    }
                    proof {
                        assert forall|i: int, j: int|
                            g0.in_bounds(i, j) && !(i == r as int && j == c as int)
                                implies #[trigger] self.cell(i, j) == f_top.cell(i, j) by {}
                        assert(self.cell(r as int, c as int) == (if g0.opens_up(r as int, c as int) {
                            (Cell {
                                state: State::Open,
                                pipebomb: g0.cell(r as int, c as int).pipebomb,
                            })
                        } else {
                            g0.cell(r as int, c as int)
                        }));
                    }
                    let ghost s1 = stack@;
                    let ghost v1 = visited@;
                    proof {
                        assert(stack_ok(g0, sr, sc, stack@, visited@));
                    }
                    if r > 0 {
                        proof {
                            lemma_zero_adjacency_neighbor(
                                g0,
                                r as int,
                                c as int,
                                r as int - 1,
                                c as int,
                            );
                            lemma_reaches_step(
                                g0,
                                sr,
                                sc,
                                r as int,
                                c as int,
                                r as int - 1,
                                c as int,
                            );
                        }
                        push_neighbor(
                            &mut stack,
                            &mut visited,
                            r - 1,
                            c,
                            Ghost(g0),
                            Ghost(sr),
                            Ghost(sc),
                        );
                    }
                    if c > 0 {
                        proof {
                            lemma_zero_adjacency_neighbor(
                                g0,
                                r as int,
                                c as int,
                                r as int,
                                c as int - 1,
                            );
                            lemma_reaches_step(
                                g0,
                                sr,
                                sc,
                                r as int,
                                c as int,
                                r as int,
                                c as int - 1,
                            );
                        }
                        push_neighbor(
                            &mut stack,
                            &mut visited,
                            r,
                            c - 1,
                            Ghost(g0),
                            Ghost(sr),
                            Ghost(sc),
                        );
                    }
                    if r + 1 < rows {
                        proof {
                            lemma_zero_adjacency_neighbor(
                                g0,
                                r as int,
                                c as int,
                                r as int + 1,
                                c as int,
                            );
                            lemma_reaches_step(
                                g0,
                                sr,
                                sc,
                                r as int,
                                c as int,
                                r as int + 1,
                                c as int,
                            );
                        }
                        push_neighbor(
                            &mut stack,
                            &mut visited,
                            r + 1,
                            c,
                            Ghost(g0),
                            Ghost(sr),
                            Ghost(sc),
                        );
                    }
                    if c + 1 < cols {
                        proof {
                            lemma_zero_adjacency_neighbor(
                                g0,
                                r as int,
                                c as int,
                                r as int,
                                c as int + 1,
                            );
                            lemma_reaches_step(
                                g0,
                                sr,
                                sc,
                                r as int,
                                c as int,
                                r as int,
                                c as int + 1,
                            );
                        }
                        push_neighbor(
                            &mut stack,
                            &mut visited,
                            r,
                            c + 1,
                            Ghost(g0),
                            Ghost(sr),
                            Ghost(sc),
                        );
                    }
                    if r > 0 && c > 0 {
                        proof {
                            lemma_zero_adjacency_neighbor(
                                g0,
                                r as int,
                                c as int,
                                r as int - 1,
                                c as int - 1,
                            );
                            lemma_reaches_step(
                                g0,
                                sr,
                                sc,
                                r as int,
                                c as int,
                                r as int - 1,
                                c as int - 1,
                            );
                        }
                        push_neighbor(
                            &mut stack,
                            &mut visited,
                            r - 1,
                            c - 1,
                            Ghost(g0),
                            Ghost(sr),
                            Ghost(sc),
                        );
                    }
                    if r > 0 && c + 1 < cols {
                        proof {
                            lemma_zero_adjacency_neighbor(
                                g0,
                                r as int,
                                c as int,
                                r as int - 1,
                                c as int + 1,
                            );
                            lemma_reaches_step(
                                g0,
                                sr,
                                sc,
                                r as int,
                                c as int,
                                r as int - 1,
                                c as int + 1,
                            );
                        }
                        push_neighbor(
                            &mut stack,
                            &mut visited,
                            r - 1,
                            c + 1,
                            Ghost(g0),
                            Ghost(sr),
                            Ghost(sc),
                        );
                    }
                    if r + 1 < rows && c > 0 {
                        proof {
                            lemma_zero_adjacency_neighbor(
                                g0,
                                r as int,
                                c as int,
                                r as int + 1,
                                c as int - 1,
                            );
                            lemma_reaches_step(
                                g0,
                                sr,
                                sc,
                                r as int,
                                c as int,
                                r as int + 1,
                                c as int - 1,
                            );
                        }
                        push_neighbor(
                            &mut stack,
                            &mut visited,
                            r + 1,
                            c - 1,
                            Ghost(g0),
                            Ghost(sr),
                            Ghost(sc),
                        );
                    }
                    if r + 1 < rows && c + 1 < cols {
                        proof {
                            lemma_zero_adjacency_neighbor(
                                g0,
                                r as int,
                                c as int,
                                r as int + 1,
                                c as int + 1,
                            );
                            lemma_reaches_step(
                                g0,
                                sr,
                                sc,
                                r as int,
                                c as int,
                                r as int + 1,
                                c as int + 1,
                            );
                        }
                        push_neighbor(
                            &mut stack,
                            &mut visited,
                            r + 1,
                            c + 1,
                            Ghost(g0),
                            Ghost(sr),
                            Ghost(sc),
                        );
                    }
                    proof {
                        // Every in-bounds neighbor of the processed conduit is
                        // now visited.
                        assert forall|a: int, b: int|
                            g0.in_bounds(a, b) && is_neighbor(
                                r as int,
                                c as int,
                                a,
                                b,
                            ) implies vis(visited@, a, b) by {
                            assert(a == r - 1 || a == r as int || a == r + 1);
                            assert(b == c - 1 || b == c as int || b == c + 1);
                        }
                        // Worklist membership is unchanged for cells that were
                        // already visited when the cell was popped.
                        assert forall|i: int, j: int|
                            g0.in_bounds(i, j) && vis(v1, i, j) implies (on_stack(stack@, i, j)
                            == on_stack(s1, i, j)) by {}
                        assert forall|i: int, j: int|
                            g0.in_bounds(i, j) && !vis(v1, i, j) && vis(
                                visited@,
                                i,
                                j,
                            ) implies on_stack(stack@, i, j) by {}
                        assert forall|i: int, j: int| g0.in_bounds(i, j) implies (vis(
                            visited@,
                            i,
                            j,
                        ) == (vis(v1, i, j) || (g0.in_bounds(i, j) && is_neighbor(
                            r as int,
                            c as int,
                            i,
                            j,
                        )))) by {
                            if vis(visited@, i, j) && !vis(v1, i, j) {
                                assert(g0.in_bounds(i, j));
                            }
                        }
                        // The frontier stays closed.
                        assert forall|i: int, j: int, a: int, b: int|
                            g0.in_bounds(i, j) && vis(visited@, i, j) && !on_stack(stack@, i, j)
                                && g0.conduit(i, j) && g0.in_bounds(a, b) && #[trigger] is_neighbor(
                                i,
                                j,
                                a,
                                b,
                            ) && #[trigger] vis(visited@, i, j) implies vis(visited@, a, b) by {
                            if i == r as int && j == c as int {
                                assert(vis(visited@, a, b));
                            } else if vis(v_top, i, j) {
                                assert(on_stack(stack@, i, j) == on_stack(s1, i, j));
                                assert(on_stack(s1, i, j) == on_stack(s0, i, j));
                                assert(vis(v_top, a, b));
                            } else {
                                assert(vis(v1, i, j) == vis(v_top, i, j));
                                assert(on_stack(stack@, i, j));
                            }
                        }
                        assert(frontier_closed(g0, stack@, visited@));
                        // The staged-cells picture still holds.
                        assert forall|i: int, j: int| g0.in_bounds(i, j) implies #[trigger] self.cell(
                            i,
                            j,
                        ) == (if vis(visited@, i, j) && !on_stack(stack@, i, j) && g0.opens_up(i, j) {
                            (Cell { state: State::Open, pipebomb: g0.cell(i, j).pipebomb })
                        } else {
                            g0.cell(i, j)
                        }) by {
                            if i == r as int && j == c as int {
                                assert(vis(visited@, i, j));
                                assert(!on_stack(stack@, i, j) == !on_stack(s1, i, j));
                            } else {
                                assert(self.cell(i, j) == f_top.cell(i, j));
                                if vis(v_top, i, j) {
                                    assert(on_stack(stack@, i, j) == on_stack(s0, i, j));
                                } else if vis(visited@, i, j) {
                                    assert(on_stack(stack@, i, j));
                                }
                            }
                        }
                        assert(cells_staged(g0, *self, stack@, visited@));
                    }
                }
            }
            proof {
                lemma_grid_count_le(vgrid(visited@), g0.cols as nat, tt());
            }
        }
        proof {
            assert forall|i: int, j: int| g0.in_bounds(i, j) implies #[trigger] self.cell(i, j)
                == (if g0.reaches(sr, sc, i, j) && g0.opens_up(i, j) {
                (Cell { state: State::Open, pipebomb: g0.cell(i, j).pipebomb })
            } else {
                g0.cell(i, j)
            }) by {
                if g0.reaches(sr, sc, i, j) {
                    let p = choose|p: Seq<(int, int)>| g0.cascade_path(p, sr, sc, i, j);
                    assert(stack@ =~= Seq::<(usize, usize)>::empty());
                    lemma_path_covered(g0, visited@, p, sr, sc, i, j);
                    assert(vis(visited@, i, j));
                    assert(!on_stack(stack@, i, j));
                } else {
                    if vis(visited@, i, j) {
                        assert(g0.reaches(sr, sc, i, j));
                    }
                }
            }
        }
    }
    /// Open the cursor cell: a closed cell is revealed; a flagged cell is
    /// revealed only when the caller passes explicit confirmation; an open
    /// cell is left alone. Returns whether the cursor cell carries a hazard
    /// (the defeat signal) — reported whatever branch was taken, even when
    /// nothing changed.
    pub fn open_at_cursor(&mut self, confirmed: bool) -> (hazard: bool)
        requires
            old(self).wf(),
        ensures
            final(self).wf(),
            hazard == old(self).bomb(old(self).cursor_row as int, old(self).cursor_col as int),
            old(self).state(old(self).cursor_row as int, old(self).cursor_col as int)
                == State::Closed ==> old(self).reveal_step(
                *final(self),
                old(self).cursor_row as int,
                old(self).cursor_col as int,
            ),
            old(self).state(old(self).cursor_row as int, old(self).cursor_col as int)
                == State::Flagged && confirmed ==> old(self).reveal_step(
                *final(self),
                old(self).cursor_row as int,
                old(self).cursor_col as int,
            ),
            old(self).state(old(self).cursor_row as int, old(self).cursor_col as int)
                == State::Flagged && !confirmed ==> *final(self) == *old(self),
            old(self).state(old(self).cursor_row as int, old(self).cursor_col as int)
                == State::Open ==> *final(self) == *old(self),
    {
        let row = self.cursor_row;
        let col = self.cursor_col;
        let st = self.cells[row][col].state;
        match st {
            State::Closed => self.check_at(row, col),
            State::Flagged => {
                if confirmed {
                    self.check_at(row, col);
                }
            },
            State::Open => (),
        }
        proof {
            if st == State::Closed || (st == State::Flagged && confirmed) {
                assert(self.cell(row as int, col as int).pipebomb == old(self).cell(
                    row as int,
                    col as int,
                ).pipebomb);
            }
        }
        self.cells[row][col].pipebomb
    }
}

/// Adjacency is local: two fields of the same dimensions that agree on the
/// hazard flags of the in-bounds neighbors of `(r, c)` have the same
/// adjacency count there. In particular the count never depends on
/// out-of-bounds positions or on the cell `(r, c)` itself.
pub proof fn lemma_adjacency_local(f1: Field, f2: Field, r: int, c: int)
    requires
        f1.rows == f2.rows,
        f1.cols == f2.cols,
        forall|a: int, b: int|
            f1.in_bounds(a, b) && is_neighbor(r, c, a, b) ==> f1.bomb(a, b) == #[trigger] f2.bomb(
                a,
                b,
            ),
    ensures
        f1.adjacency(r, c) == f2.adjacency(r, c),
{
    assert(f1.hazard_ind(r - 1, c - 1) == f2.hazard_ind(r - 1, c - 1));
    assert(f1.hazard_ind(r - 1, c) == f2.hazard_ind(r - 1, c));
    assert(f1.hazard_ind(r - 1, c + 1) == f2.hazard_ind(r - 1, c + 1));
    assert(f1.hazard_ind(r, c - 1) == f2.hazard_ind(r, c - 1));
    assert(f1.hazard_ind(r, c + 1) == f2.hazard_ind(r, c + 1));
    assert(f1.hazard_ind(r + 1, c - 1) == f2.hazard_ind(r + 1, c - 1));
    assert(f1.hazard_ind(r + 1, c) == f2.hazard_ind(r + 1, c));
    assert(f1.hazard_ind(r + 1, c + 1) == f2.hazard_ind(r + 1, c + 1));
}

/// A cell whose adjacency is zero has no hazard on any in-bounds neighbor.
pub proof fn lemma_zero_adjacency_neighbor(f: Field, r: int, c: int, a: int, b: int)
    requires
        f.adjacency(r, c) == 0,
        is_neighbor(r, c, a, b),
        f.in_bounds(a, b),
    ensures
        !f.bomb(a, b),
{
    assert(f.hazard_ind(a, b) == 0);
}

/// Every in-bounds cell is reached from itself (by the one-position path).
pub proof fn lemma_reaches_self(f: Field, r: int, c: int)
    requires
        f.in_bounds(r, c),
    ensures
        f.reaches(r, c, r, c),
{
    let p: Seq<(int, int)> = seq![(r, c)];
    assert(f.cascade_path(p, r, c, r, c));
}

/// Reaching a conduit reaches each of its in-bounds neighbors.
pub proof fn lemma_reaches_step(f: Field, sr: int, sc: int, r: int, c: int, a: int, b: int)
    requires
        f.reaches(sr, sc, r, c),
        f.conduit(r, c),
        is_neighbor(r, c, a, b),
        f.in_bounds(a, b),
    ensures
        f.reaches(sr, sc, a, b),
{
    let p = choose|p: Seq<(int, int)>| f.cascade_path(p, sr, sc, r, c);
    let q = p.push((a, b));
    assert(q[0] == p[0]);
    assert(q[q.len() - 1] == (a, b));
    assert forall|k: int| 0 <= k < q.len() - 1 implies f.conduit((#[trigger] q[k]).0, q[k].1) by {
        if k < p.len() - 1 {
            assert(q[k] == p[k]);
        } else {
            assert(q[k] == p[p.len() - 1]);
        }
    }
    assert forall|k: int| 0 <= k < q.len() - 1 implies is_neighbor(
        (#[trigger] q[k]).0,
        q[k].1,
        q[k + 1].0,
        q[k + 1].1,
    ) by {
        if k < p.len() - 1 {
            assert(q[k] == p[k] && q[k + 1] == p[k + 1]);
        } else {
            assert(q[k] == p[p.len() - 1] && q[k + 1] == (a, b));
        }
    }
    assert(f.cascade_path(q, sr, sc, a, b));
}

/// A reveal that reaches any other cell starts on a conduit.
pub proof fn lemma_reaches_start_conduit(f: Field, sr: int, sc: int, r: int, c: int)
    requires
        f.reaches(sr, sc, r, c),
        !(r == sr && c == sc),
    ensures
        f.conduit(sr, sc),
{
    let p = choose|p: Seq<(int, int)>| f.cascade_path(p, sr, sc, r, c);
    assert(p.len() >= 2);
    assert(f.conduit((p[0]).0, (p[0]).1));
}

/// One entry of the visited grid.
spec fn vis(v: Seq<Vec<bool>>, i: int, j: int) -> bool {
    v[i]@[j]
}

/// The visited grid has the field's dimensions.
spec fn vis_shape(f: Field, v: Seq<Vec<bool>>) -> bool {
    &&& v.len() == f.rows
    &&& (forall|i: int| 0 <= i < f.rows ==> (#[trigger] v[i])@.len() == f.cols)
}

/// `(i, j)` occurs on the worklist.
spec fn on_stack(s: Seq<(usize, usize)>, i: int, j: int) -> bool {
    exists|k: int| 0 <= k < s.len() && s[k] == ((i as usize, j as usize))
}

spec fn vgrid(v: Seq<Vec<bool>>) -> Seq<Seq<bool>> {
    v.map_values(|r: Vec<bool>| r@)
}

spec fn tt() -> spec_fn(bool) -> bool {
    |b: bool| b
}

/// Number of visited cells, the progress measure of the cascade loop.
spec fn explored(v: Seq<Vec<bool>>) -> nat {
    grid_count(vgrid(v), tt())
}

/// Every worklist entry is an in-bounds, visited, reached, hazard-free cell,
/// and no entry repeats.
spec fn stack_ok(g0: Field, sr: int, sc: int, s: Seq<(usize, usize)>, v: Seq<Vec<bool>>) -> bool {
    &&& (forall|k: int|
        0 <= k < s.len() ==> ((#[trigger] s[k]).0 < g0.rows && s[k].1 < g0.cols && vis(
            v,
            s[k].0 as int,
            s[k].1 as int,
        ) && g0.reaches(sr, sc, s[k].0 as int, s[k].1 as int) && !g0.bomb(
            s[k].0 as int,
            s[k].1 as int,
        )))
    &&& (forall|k1: int, k2: int| 0 <= k1 < k2 < s.len() ==> s[k1] != s[k2])
}

/// Every visited cell is reached and hazard-free.
spec fn visited_sound(g0: Field, sr: int, sc: int, v: Seq<Vec<bool>>) -> bool {
    forall|i: int, j: int|
        g0.in_bounds(i, j) && #[trigger] vis(v, i, j) ==> g0.reaches(sr, sc, i, j) && !g0.bomb(i, j)
}

/// Every visited conduit that has left the worklist has all its in-bounds
/// neighbors visited.
spec fn frontier_closed(g0: Field, s: Seq<(usize, usize)>, v: Seq<Vec<bool>>) -> bool {
    forall|i: int, j: int, a: int, b: int|
        #![trigger vis(v, i, j), is_neighbor(i, j, a, b)]
        g0.in_bounds(i, j) && vis(v, i, j) && !on_stack(s, i, j) && g0.conduit(i, j)
            && g0.in_bounds(a, b) && is_neighbor(i, j, a, b) ==> vis(v, a, b)
}

/// Every cell is as it started, except that visited cells that have left the
/// worklist and open up are open.
spec fn cells_staged(g0: Field, f: Field, s: Seq<(usize, usize)>, v: Seq<Vec<bool>>) -> bool {
    forall|i: int, j: int|
        g0.in_bounds(i, j) ==> #[trigger] f.cell(i, j) == (if vis(v, i, j) && !on_stack(s, i, j)
            && g0.opens_up(i, j) {
            (Cell { state: State::Open, pipebomb: g0.cell(i, j).pipebomb })
        } else {
            g0.cell(i, j)
        })
}

/// Any cell the cascade reaches is visited, once the frontier is closed and
/// the start cell is visited (induction over the path).
proof fn lemma_path_covered(
    g0: Field,
    v: Seq<Vec<bool>>,
    p: Seq<(int, int)>,
    sr: int,
    sc: int,
    r: int,
    c: int,
)
    requires
        g0.wf(),
        vis_shape(g0, v),
        g0.cascade_path(p, sr, sc, r, c),
        g0.in_bounds(sr, sc),
        vis(v, sr, sc),
        frontier_closed(g0, Seq::<(usize, usize)>::empty(), v),
    ensures
        vis(v, r, c),
    decreases p.len(),
{
    if p.len() == 1 {
        assert(p[0] == p[p.len() - 1]);
    } else {
        let q = p.drop_last();
        let prev = p[p.len() - 2];
        assert(g0.conduit(prev.0, prev.1));
        assert(q[0] == p[0]);
        assert(q[q.len() - 1] == prev);
        assert forall|k: int| 0 <= k < q.len() - 1 implies g0.conduit(
            (#[trigger] q[k]).0,
            q[k].1,
        ) by {
            assert(q[k] == p[k]);
        }
        assert forall|k: int| 0 <= k < q.len() - 1 implies is_neighbor(
            (#[trigger] q[k]).0,
            q[k].1,
            q[k + 1].0,
            q[k + 1].1,
        ) by {
            assert(q[k] == p[k] && q[k + 1] == p[k + 1]);
        }
        assert(g0.cascade_path(q, sr, sc, prev.0, prev.1));
        lemma_path_covered(g0, v, q, sr, sc, prev.0, prev.1);
        assert(is_neighbor(prev.0, prev.1, r, c));
        assert(!on_stack(Seq::<(usize, usize)>::empty(), prev.0, prev.1));
    }
}

/// Mark `(nr, nc)` visited and put it on the worklist, unless it has been
/// visited already; keeps every worklist and visited-grid invariant.
fn push_neighbor(
    stack: &mut Vec<(usize, usize)>,
    visited: &mut Vec<Vec<bool>>,
    nr: usize,
    nc: usize,
    Ghost(g0): Ghost<Field>,
    Ghost(sr): Ghost<int>,
    Ghost(sc): Ghost<int>,
)
    requires
        g0.wf(),
        vis_shape(g0, old(visited)@),
        nr < g0.rows,
        nc < g0.cols,
        g0.reaches(sr, sc, nr as int, nc as int),
        !g0.bomb(nr as int, nc as int),
        stack_ok(g0, sr, sc, old(stack)@, old(visited)@),
    ensures
        vis_shape(g0, final(visited)@),
        stack_ok(g0, sr, sc, final(stack)@, final(visited)@),
        vis(final(visited)@, nr as int, nc as int),
        vis(old(visited)@, nr as int, nc as int) ==> final(visited)@ == old(visited)@
            && final(stack)@ == old(stack)@,
        !vis(old(visited)@, nr as int, nc as int) ==> final(stack)@ == old(stack)@.push((nr, nc))
            && explored(final(visited)@) == explored(old(visited)@) + 1,
        forall|i: int, j: int|
            g0.in_bounds(i, j) ==> (vis(final(visited)@, i, j) == (vis(old(visited)@, i, j) || (i
                == nr as int && j == nc as int))),
        forall|i: int, j: int|
            g0.in_bounds(i, j) && vis(old(visited)@, i, j) ==> (on_stack(final(stack)@, i, j)
                == on_stack(old(stack)@, i, j)),
        forall|i: int, j: int|
            g0.in_bounds(i, j) && !vis(old(visited)@, i, j) && vis(final(visited)@, i, j)
                ==> on_stack(final(stack)@, i, j),
{
    if !visited[nr][nc] {
        let ghost v0 = visited@;
        let ghost s0 = stack@;
        visited[nr][nc] = true;
        stack.push((nr, nc));
        proof {
            assert(visited@[nr as int]@ =~= v0[nr as int]@.update(nc as int, true));
            assert forall|i: int, j: int| g0.in_bounds(i, j) implies (vis(visited@, i, j) == (vis(
                v0,
                i,
                j,
            ) || (i == nr as int && j == nc as int))) by {
                if i != nr as int {
                    assert(visited@[i] == v0[i]);
                }
            }
            assert(vgrid(visited@) =~~= vgrid(v0).update(
                nr as int,
                vgrid(v0)[nr as int].update(nc as int, true),
            ));
            lemma_grid_count_update(vgrid(v0), nr as int, nc as int, true, tt());
            assert(!tt()(vgrid(v0)[nr as int][nc as int]));
            assert(explored(visited@) == explored(v0) + 1);
            assert forall|i: int, j: int| g0.in_bounds(i, j) && vis(v0, i, j) implies (on_stack(
                stack@,
                i,
                j,
            ) == on_stack(s0, i, j)) by {
                if on_stack(s0, i, j) {
                    let k = choose|k: int| 0 <= k < s0.len() && s0[k] == ((i as usize, j as usize));
                    assert(stack@[k] == s0[k]);
                    assert(on_stack(stack@, i, j));
                }
                if on_stack(stack@, i, j) {
                    let k = choose|k: int|
                        0 <= k < stack@.len() && stack@[k] == ((i as usize, j as usize));
                    if k == stack@.len() - 1 {
                        assert(stack@[k] == ((nr, nc)));
                        assert(vis(v0, nr as int, nc as int));
                    } else {
                        assert(stack@[k] == s0[k]);
                        assert(on_stack(s0, i, j));
                    }
                }
            }
            assert forall|i: int, j: int|
                g0.in_bounds(i, j) && !vis(v0, i, j) && vis(
                    visited@,
                    i,
                    j,
                ) implies on_stack(stack@, i, j) by {
                assert(i == nr as int && j == nc as int);
                assert(stack@[stack@.len() - 1] == ((nr, nc)));
            }
            assert forall|k1: int, k2: int| 0 <= k1 < k2 < stack@.len() implies stack@[k1]
                != stack@[k2] by {
                if k2 == stack@.len() - 1 {
                    assert(stack@[k1] == s0[k1]);
                    assert(vis(v0, s0[k1].0 as int, s0[k1].1 as int));
                }
            }
        }
    }
}

} // verus!
