//! Draws from the thread-local random generator of the `rand` crate.
use rand::Rng;
use vstd::prelude::*;

verus! {

/// Relies on `rand::Rng::gen_range` over an inclusive range, on `rand::thread_rng()`:
/// the draw lies in `[lo, hi]`. It panics on an empty range, which `requires`
/// rules out.
#[verifier::external_body]
pub(crate) fn random_in(lo: i64, hi: i64) -> (r: i64)
    requires
        lo <= hi,
    ensures
        lo <= r <= hi,
{
    rand::thread_rng().gen_range(lo..=hi)
}

/// Relies on `rand::random::<bool>()`: a fair coin.
#[verifier::external_body]
pub(crate) fn random_flag() -> (r: bool) {
    rand::random::<bool>()
}

} // verus!
