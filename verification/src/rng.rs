//! The library's only sources of randomness: thin trusted wrappers around
//! the process-wide generator of the `rand` crate. Nothing beyond the stated
//! range can be promised of a random draw, so the contracts state only that.

use vstd::prelude::*;

verus! {

/// Relies on `rand::Rng::gen_range` over `0..n`: the draw lies below `n`
/// (rand's `UniformInt::sample_single` returns `low + hi` with
/// `hi < high - low`). The choice is uniform; rand panics only on an empty
/// range, which `n >= 1` excludes.
#[verifier::external_body]
pub(crate) fn random_below(n: usize) -> (r: usize)
    requires
        n >= 1,
    ensures
        r < n,
{
    rand::Rng::gen_range(&mut rand::thread_rng(), 0..n)
}

/// Relies on `rand::Rng::gen::<bool>`: a fair coin flip; nothing is promised
/// of the outcome.
#[verifier::external_body]
pub(crate) fn random_bool() -> bool {
    rand::Rng::gen::<bool>(&mut rand::thread_rng())
}

} // verus!
