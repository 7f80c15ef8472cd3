//! Durations are carried through the library as `std::time::Duration` values built from
//! whole seconds.

use std::time::Duration;
use vstd::prelude::*;

verus! {

/// The `Duration` that `Duration::from_secs` returns for `secs` whole seconds.
pub uninterp spec fn duration_of_secs(secs: u64) -> Duration;

/// Calls `std::time::Duration::from_secs`. The contract only names the result: the
/// same number of seconds always yields the same `Duration`.
#[verifier::external_body]
pub(crate) fn duration_from_secs(secs: u64) -> (d: Duration)
    ensures
        d == duration_of_secs(secs),
{
    Duration::from_secs(secs)
}

/// `Duration` is `Copy`; its `clone` returns the same value.
pub assume_specification[ <Duration as Clone>::clone ](d: &Duration) -> (r: Duration)
    ensures
        r == *d,
;

} // verus!
