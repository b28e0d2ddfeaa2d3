//! Random numbers. What they are is left to chance; what is stated holds of
//! every outcome.

use vstd::prelude::*;

verus! {

/// A whole number from `lo` to `hi`, both included.
///
/// Calls `rand::Rng::random_range` on the thread's generator `rand::rng()`
/// with the range `lo..=hi`, which that function takes unless it is empty and
/// from which its result comes. Nothing is said of how likely each number is.
#[verifier::external_body]
pub(crate) fn between(lo: i64, hi: i64) -> (n: i64)
    requires
        lo <= hi,
    ensures
        lo <= n <= hi,
{
    rand::Rng::random_range(&mut rand::rng(), lo..=hi)
}

/// Any 64-bit number.
///
/// Calls `rand::Rng::random` for `u64` on the thread's generator
/// `rand::rng()`. Every number is possible, so nothing is stated.
#[verifier::external_body]
pub(crate) fn any_number() -> (n: u64)
{
    rand::Rng::random(&mut rand::rng())
}

} // verus!
