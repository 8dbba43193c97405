//! Random draws.
use vstd::prelude::*;
use rand::Rng;

verus! {

/// Draws a number below `n` with `rand::thread_rng()` and `Rng::gen_range(0..n)`,
/// which samples the range uniformly and panics when the range is empty.
/// The contract claims only that the number lies in `0..n`.
#[verifier::external_body]
pub(crate) fn random_below(n: u64) -> (r: u64)
    requires
        n > 0,
    ensures
        r < n,
{
    rand::thread_rng().gen_range(0..n)
}

} // verus!
