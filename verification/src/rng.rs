//! The library's one source of randomness.

use rand::Rng;
use vstd::prelude::*;

verus! {

/// Relies on rand's `Rng::gen_range` over the half-open range `0..n`: it
/// returns a value of that range, and panics only on an empty range, which
/// the precondition rules out. Nothing more is assumed of the distribution.
#[verifier::external_body]
pub(crate) fn rand_below(n: u64) -> (r: u64)
    requires
        n >= 1,
    ensures
        r < n,
{
    rand::thread_rng().gen_range(0..n)
}

} // verus!
