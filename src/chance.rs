//! Random draws, from the thread-local generator of `rand`.

use vstd::prelude::*;
use rand::Rng;

verus! {

/// Relies on `rand::Rng::random_range` over an inclusive integer range: the
/// value drawn lies within the range (it panics only on an empty range,
/// which `requires` rules out).
#[verifier::external_body]
pub(crate) fn random_in(lo: i64, hi: i64) -> (r: i64)
    requires
        lo <= hi,
    ensures
        lo <= r <= hi,
{
    rand::rng().random_range(lo..=hi)
}

/// Relies on `rand::Rng::random::<bool>`: a fair coin; nothing is promised
/// of the outcome.
#[verifier::external_body]
pub(crate) fn random_flag() -> (r: bool) {
    rand::rng().random::<bool>()
}

} // verus!
