//! The monotonic clock (`tokio::time::Instant`) by which items expire.
use vstd::prelude::*;

use tokio::time::Instant;

verus! {

#[verifier::external_type_specification]
#[verifier::external_body]
pub struct ExInstant(Instant);

/// `Instant::now`: the current instant. Nothing is stated of it: it is
/// the time at which the call runs.
#[verifier::external_body]
pub(crate) fn clock_start() -> Instant {
    Instant::now()
}

/// `Instant::elapsed`, in nanoseconds: the time that has passed since
/// `start`. Nothing is stated of it: it depends on when the call runs.
#[verifier::external_body]
pub(crate) fn clock_nanos_since(start: &Instant) -> u128 {
    start.elapsed().as_nanos()
}

} // verus!
