//! The randomness source. Every random draw of the engine — movement
//! jitter, spawn placement, trait mutation — goes through the single
//! wrapper here, and every caller states what holds of each possible
//! outcome.

use vstd::prelude::*;
use rand::Rng;

verus! {

/// Relies on `rand::thread_rng` and `rand::Rng::gen_range` over an
/// inclusive `i64` range: the draw lies in the range, and the call
/// panics only when the range is empty, which the precondition rules
/// out. Nothing else is assumed: two draws on the same range may
/// differ.
#[verifier::external_body]
pub(crate) fn rand_in(lo: i64, hi: i64) -> (r: i64)
    requires
        lo <= hi,
    ensures
        lo <= r <= hi,
{
    rand::thread_rng().gen_range(lo..=hi)
}

} // verus!
