//! The single randomness source of the simulation.
//!
//! Randomness is uncontrolled per run: no contract here says which value
//! comes back, only the range every outcome lies in.  Every verified
//! function that draws a value takes whatever came back and is proved for
//! every value of the stated range.

use vstd::prelude::*;

use rand::Rng;

verus! {

/// Relies on `rand::thread_rng` and `rand::Rng::gen_range` on an inclusive
/// `i64` range: the draw is uniform over `lo..=hi` and panics exactly when
/// the range is empty, which the precondition rules out.
#[verifier::external_body]
pub(crate) fn rand_in_range(lo: i64, hi: i64) -> (r: i64)
    requires
        lo <= hi,
    ensures
        lo <= r <= hi,
{
    rand::thread_rng().gen_range(lo..=hi)
}

} // verus!
