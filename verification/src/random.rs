//! The single source of randomness of the engine.

use vstd::prelude::*;

verus! {

/// Draws a number below `bound` from the thread-local generator of the `rand`
/// crate, by `Rng::gen_range` on the range `0..bound`.
///
/// Trusted: `gen_range` samples from the half-open range it is given, so the
/// draw is less than `bound`. Which number comes is left open, and two calls
/// with the same bound may differ. An empty range makes `gen_range` panic,
/// hence the precondition. The generator seeds itself from the operating
/// system when a thread first uses it.
#[verifier::external_body]
pub(crate) fn random_below(bound: u128) -> (draw: u128)
    requires
        bound > 0,
    ensures
        draw < bound,
{
    rand::Rng::gen_range(&mut rand::thread_rng(), 0..bound)
}

} // verus!
