//! Counting how many entries of a row, or of a grid of rows, satisfy a
//! predicate. Used for the hazard-count contract of `randomize` and for the
//! termination measure of the reveal cascade.

use vstd::prelude::*;

verus! {

/// How many entries of `s` satisfy `p`.
pub open spec fn row_count<T>(s: Seq<T>, p: spec_fn(T) -> bool) -> nat
    decreases s.len(),
{
    if s.len() == 0 {
        0
    } else {
        row_count(s.drop_last(), p) + (if p(s.last()) {
            1nat
        } else {
            0nat
        })
    }
}

/// How many entries of the grid `g` (a sequence of rows) satisfy `p`.
pub open spec fn grid_count<T>(g: Seq<Seq<T>>, p: spec_fn(T) -> bool) -> nat
    decreases g.len(),
{
    if g.len() == 0 {
        0
    } else {
        grid_count(g.drop_last(), p) + row_count(g.last(), p)
    }
}

pub proof fn lemma_row_count_le<T>(s: Seq<T>, p: spec_fn(T) -> bool)
    ensures
        row_count(s, p) <= s.len(),
    decreases s.len(),
{
    if s.len() > 0 {
        lemma_row_count_le(s.drop_last(), p);
    }
}

/// A row with no satisfying entry counts zero.
pub proof fn lemma_row_count_zero<T>(s: Seq<T>, p: spec_fn(T) -> bool)
    requires
        forall|i: int| 0 <= i < s.len() ==> !p(#[trigger] s[i]),
    ensures
        row_count(s, p) == 0,
    decreases s.len(),
{
    if s.len() > 0 {
        lemma_row_count_zero(s.drop_last(), p);
    }
}

/// Replacing one entry changes the count by the difference of the two
/// entries' contributions.
pub proof fn lemma_row_count_update<T>(s: Seq<T>, i: int, v: T, p: spec_fn(T) -> bool)
    requires
        0 <= i < s.len(),
    ensures
        row_count(s.update(i, v), p) + (if p(s[i]) {
            1nat
        } else {
            0nat
        }) == row_count(s, p) + (if p(v) {
            1nat
        } else {
            0nat
        }),
    decreases s.len(),
{
    let s2 = s.update(i, v);
    if i == s.len() - 1 {
        assert(s2.drop_last() =~= s.drop_last());
    } else {
        assert(s2.drop_last() =~= s.drop_last().update(i, v));
        assert(s2.last() == s.last());
        lemma_row_count_update(s.drop_last(), i, v, p);
    }
}

/// A grid whose rows all have length `cols` holds at most `len * cols`
/// satisfying entries.
pub proof fn lemma_grid_count_le<T>(g: Seq<Seq<T>>, cols: nat, p: spec_fn(T) -> bool)
    requires
        forall|i: int| 0 <= i < g.len() ==> (#[trigger] g[i]).len() == cols,
    ensures
        grid_count(g, p) <= g.len() * cols,
    decreases g.len(),
{
    if g.len() > 0 {
        lemma_grid_count_le(g.drop_last(), cols, p);
        lemma_row_count_le(g.last(), p);
        assert((g.len() - 1) * cols + cols == g.len() * cols) by (nonlinear_arith);
    }
}

/// A grid with no satisfying entry counts zero.
pub proof fn lemma_grid_count_zero<T>(g: Seq<Seq<T>>, p: spec_fn(T) -> bool)
    requires
        forall|i: int, j: int|
            0 <= i < g.len() && 0 <= j < (#[trigger] g[i]).len() ==> !p(#[trigger] g[i][j]),
    ensures
        grid_count(g, p) == 0,
    decreases g.len(),
{
    if g.len() > 0 {
        lemma_grid_count_zero(g.drop_last(), p);
        lemma_row_count_zero(g.last(), p);
    }
}

/// Replacing one row changes the grid count by the difference of the two
/// rows' counts.
pub proof fn lemma_grid_count_update_row<T>(g: Seq<Seq<T>>, i: int, r: Seq<T>, p: spec_fn(T) -> bool)
    requires
        0 <= i < g.len(),
    ensures
        grid_count(g.update(i, r), p) + row_count(g[i], p) == grid_count(g, p) + row_count(r, p),
    decreases g.len(),
{
    let g2 = g.update(i, r);
    if i == g.len() - 1 {
        assert(g2.drop_last() =~= g.drop_last());
    } else {
        assert(g2.drop_last() =~= g.drop_last().update(i, r));
        assert(g2.last() == g.last());
        lemma_grid_count_update_row(g.drop_last(), i, r, p);
    }
}

/// Replacing one entry of one row changes the grid count by the difference
/// of the two entries' contributions.
pub proof fn lemma_grid_count_update<T>(g: Seq<Seq<T>>, i: int, j: int, v: T, p: spec_fn(T) -> bool)
    requires
        0 <= i < g.len(),
        0 <= j < g[i].len(),
    ensures
        grid_count(g.update(i, g[i].update(j, v)), p) + (if p(g[i][j]) {
            1nat
        } else {
            0nat
        }) == grid_count(g, p) + (if p(v) {
            1nat
        } else {
            0nat
        }),
{
    lemma_grid_count_update_row(g, i, g[i].update(j, v), p);
    lemma_row_count_update(g[i], j, v, p);
}

} // verus!
