//! The library's one source of randomness, behind a trusted wrapper.

use vstd::prelude::*;
use rand::Rng;

verus! {

/// Relies on `rand::Rng::gen_range` over the range `0..n`: the result is
/// drawn from that range, so it is always below `n`. The call panics only on
/// an empty range, which `n > 0` rules out. Nothing more is assumed of the
/// value: every caller must be correct for every outcome below `n`.
#[verifier::external_body]
pub(crate) fn random_below(n: usize) -> (r: usize)
    requires
        n > 0,
    ensures
        r < n,
{
    rand::thread_rng().gen_range(0..n)
}

} // verus!
