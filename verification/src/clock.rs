//! The wall clock, by which a machine that runs freely measures its ticks.

use std::time::{Duration, Instant};
use vstd::prelude::*;

verus! {

/// A moment of the monotonic clock of `std`. The machine carries moments
/// and never looks inside.
#[verifier::external_type_specification]
#[verifier::external_body]
pub struct ExInstant(Instant);

/// `Instant::now`: the present moment. Nothing is claimed of it.
pub assume_specification[ Instant::now ]() -> (now: Instant)
;

/// `Instant::elapsed`: the time since a moment. Nothing is claimed of it.
pub assume_specification[ Instant::elapsed ](since: &Instant) -> (d: Duration)
;

/// `Duration::as_nanos`: a duration in nanoseconds. Nothing is claimed of it.
pub assume_specification[ Duration::as_nanos ](d: &Duration) -> (n: u128)
;

/// The nanoseconds since a moment, as far as an `i64` holds them.
pub fn nanos_since(since: &Instant) -> (n: i64)
    ensures
        n >= 0,
{
    bounded(since.elapsed().as_nanos())
}

/// A number of nanoseconds as far as an `i64` holds it: the number itself,
/// or `i64::MAX` where it is greater.
pub open spec fn bounded_spec(elapsed: u128) -> i64 {
    if elapsed > i64::MAX {
        i64::MAX
    } else {
        elapsed as i64
    }
}

/// A number of nanoseconds as far as an `i64` holds it.
#[verifier::when_used_as_spec(bounded_spec)]
pub fn bounded(elapsed: u128) -> (n: i64)
    ensures
        n == bounded_spec(elapsed),
        n >= 0,
{
    if elapsed > i64::MAX as u128 {
        i64::MAX
    } else {
        elapsed as i64
    }
}

} // verus!
