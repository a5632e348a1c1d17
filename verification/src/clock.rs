use vstd::prelude::*;

use std::time::Instant;

verus! {

// Each cache carries the `Instant` at which it was created and stamps its
// entries with nanoseconds elapsed since then.  A clock reading is opaque:
// nothing is promised of it, and every function that depends on time takes
// the reading as an explicit argument and is verified for all its values.

#[verifier::external_type_specification]
#[verifier::external_body]
pub struct ExInstant(Instant);

/// Relies on std::time::Instant::now: an opaque reading of the monotonic
/// clock.
#[verifier::external_body]
pub(crate) fn clock_now() -> (r: Instant) {
    Instant::now()
}

/// Relies on std::time::Instant::elapsed: the nanoseconds since `base`,
/// saturated to `u64::MAX`.  The result depends on the clock, so nothing is
/// promised of it.
#[verifier::external_body]
pub(crate) fn elapsed_nanos(base: &Instant) -> (r: u64) {
    u64::try_from(base.elapsed().as_nanos()).unwrap_or(u64::MAX)
}

} // verus!
