//! The library's single source of randomness.

use vstd::prelude::*;

verus! {

/// Relies on `rand::Rng::gen_range` over `rand::thread_rng()`: the call
/// returns a value of the given half-open range (it panics only when the
/// range is empty, which the precondition rules out).  Nothing more is
/// assumed of the outcome: callers must hold for every value in the range.
#[verifier::external_body]
pub(crate) fn rand_range_i32(lo: i32, hi: i32) -> (r: i32)
    requires
        lo < hi,
    ensures
        lo <= r < hi,
{
    rand::Rng::gen_range(&mut rand::thread_rng(), lo..hi)
}

} // verus!
