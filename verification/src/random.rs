//! Random numbers.

use vstd::prelude::*;

verus! {

/// A random number from `first` to `last`, both included.
///
/// Calls `rand::random_range` on an inclusive range, which panics on an empty one. Trusted: the
/// number lies in the range. Which number comes back is left open.
#[verifier::external_body]
pub(crate) fn random_between(first: u128, last: u128) -> (number: u128)
    requires
        first <= last,
    ensures
        first <= number <= last,
{
    rand::random_range(first..=last)
}

} // verus!
