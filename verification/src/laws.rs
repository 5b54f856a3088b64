//! Laws relating the engine's operations, proved from their contracts.

use vstd::prelude::*;
use crate::cell::{Cell, State};
use crate::cascade::{lemma_adjacency_local, lemma_reaches_start_conduit};
use crate::field::Field;

verus! {

/// The cascade law: after a reveal, every reached cell that opens up (the
/// closed zero-adjacency interior, and the whole bordering ring of
/// nonzero-adjacency cells) is open; its hazard flag, and with it its glyph
/// (the adjacency digit), is exactly what it was before; a flagged
/// zero-adjacency cell the cascade passes through is not altered; and no
/// cell out of the cascade's reach changes.
pub proof fn law_cascade_effect(pre: Field, post: Field, sr: int, sc: int)
    requires
        pre.wf(),
        pre.reveal_step(post, sr, sc),
    ensures
        forall|i: int, j: int|
            pre.in_bounds(i, j) && pre.reaches(sr, sc, i, j) && pre.opens_up(i, j)
                ==> #[trigger] post.state(i, j) == State::Open,
        forall|i: int, j: int|
            pre.in_bounds(i, j) && #[trigger] pre.state(i, j) == State::Flagged && pre.adjacency(
                i,
                j,
            ) == 0 ==> post.cell(i, j) == pre.cell(i, j),
        forall|i: int, j: int|
            pre.in_bounds(i, j) && !pre.reaches(sr, sc, i, j) ==> #[trigger] post.cell(i, j)
                == pre.cell(i, j),
        forall|i: int, j: int|
            pre.in_bounds(i, j) ==> #[trigger] post.bomb(i, j) == pre.bomb(i, j),
        forall|i: int, j: int|
            pre.in_bounds(i, j) ==> #[trigger] post.glyph_at(i, j) == pre.glyph_at(i, j),
{
    assert forall|i: int, j: int| pre.in_bounds(i, j) implies #[trigger] post.bomb(i, j)
        == pre.bomb(i, j) by {
        assert(post.cell(i, j) == (if pre.reaches(sr, sc, i, j) && pre.opens_up(i, j) {
            (Cell { state: State::Open, pipebomb: pre.cell(i, j).pipebomb })
        } else {
            pre.cell(i, j)
        }));
    }
    assert forall|i: int, j: int| pre.in_bounds(i, j) implies #[trigger] post.glyph_at(i, j)
        == pre.glyph_at(i, j) by {
        lemma_adjacency_local(post, pre, i, j);
    }
}

/// Revealing an already-open cell changes nothing: the reveal relation then
/// fixes every cell.
pub proof fn law_reveal_open_noop(pre: Field, post: Field, sr: int, sc: int)
    requires
        pre.wf(),
        pre.in_bounds(sr, sc),
        pre.state(sr, sc) == State::Open,
        pre.reveal_step(post, sr, sc),
    ensures
        forall|i: int, j: int|
            pre.in_bounds(i, j) ==> #[trigger] post.cell(i, j) == pre.cell(i, j),
{
    assert forall|i: int, j: int| pre.in_bounds(i, j) implies #[trigger] post.cell(i, j)
        == pre.cell(i, j) by {
        if pre.reaches(sr, sc, i, j) && pre.opens_up(i, j) {
            if !(i == sr && j == sc) {
                lemma_reaches_start_conduit(pre, sr, sc, i, j);
                assert(false);
            } else {
                assert(pre.adjacency(i, j) > 0);
                assert(pre.cell(i, j) == (Cell {
                    state: State::Open,
                    pipebomb: pre.cell(i, j).pipebomb,
                }));
            }
        }
    }
}

/// Toggling the flag twice restores every cell.
pub proof fn law_flag_toggle_involutive(f0: Field, f1: Field, f2: Field)
    requires
        f0.wf(),
        f0.flag_step(f1),
        f1.flag_step(f2),
    ensures
        forall|i: int, j: int| f0.in_bounds(i, j) ==> #[trigger] f2.cell(i, j) == f0.cell(i, j),
{
}

/// Opening the last closed non-hazard cell turns victory from false to true.
pub proof fn law_last_reveal_wins(pre: Field, post: Field, r: int, c: int)
    requires
        pre.wf(),
        post.wf(),
        pre.rows == post.rows,
        pre.cols == post.cols,
        pre.in_bounds(r, c),
        !pre.bomb(r, c),
        pre.state(r, c) != State::Open,
        forall|i: int, j: int|
            pre.in_bounds(i, j) && !pre.bomb(i, j) && !(i == r && j == c) ==> #[trigger] pre.state(
                i,
                j,
            ) == State::Open,
        post.state(r, c) == State::Open,
        forall|i: int, j: int|
            pre.in_bounds(i, j) && !(i == r && j == c) ==> #[trigger] post.cell(i, j) == pre.cell(
                i,
                j,
            ),
        post.bomb(r, c) == pre.bomb(r, c),
    ensures
        !pre.victory_spec(),
        post.victory_spec(),
{
    assert(pre.state(r, c) != State::Open);
    assert forall|i: int, j: int|
        post.in_bounds(i, j) && !post.bomb(i, j) implies #[trigger] post.state(i, j)
        == State::Open by {
        if !(i == r && j == c) {
            assert(post.cell(i, j) == pre.cell(i, j));
            assert(pre.state(i, j) == State::Open);
        }
    }
}

} // verus!
