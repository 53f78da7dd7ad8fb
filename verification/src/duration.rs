//! The few `std::time::Duration` operations that the library relies on.
use vstd::prelude::*;

verus! {

/// The total number of nanoseconds that `d` spans, as `Duration::as_nanos` reports it.
pub uninterp spec fn duration_nanos(d: std::time::Duration) -> u128;

/// Calls `Duration::as_nanos`; the result is named `duration_nanos`.
#[verifier::external_body]
pub(crate) fn as_nanos(d: &std::time::Duration) -> (r: u128)
    ensures
        r == duration_nanos(*d),
{
    d.as_nanos()
}

/// Calls `Duration::as_millis`, which std documents as the total number of whole
/// milliseconds: the nanoseconds divided by one million, rounded down.
#[verifier::external_body]
pub(crate) fn as_millis(d: &std::time::Duration) -> (r: u128)
    ensures
        r == duration_nanos(*d) / 1_000_000,
{
    d.as_millis()
}

/// Calls `Duration::from_millis`, which spans exactly `millis` milliseconds.
#[verifier::external_body]
pub(crate) fn from_millis(millis: u64) -> (d: std::time::Duration)
    ensures
        duration_nanos(d) == millis * 1_000_000,
{
    std::time::Duration::from_millis(millis)
}

} // verus!
