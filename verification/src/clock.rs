//! A monotonic clock read as a plain number.

use vstd::prelude::*;
use std::time::Instant;

verus! {

/// Nanoseconds in one second.
pub const NANOS_PER_SEC: u128 = 1_000_000_000;

/// `std::time::Instant`, a moment on the monotonic clock. Opaque here:
/// an instant is kept and handed back to `std`, never looked into.
#[verifier::external_type_specification]
#[verifier::external_body]
pub struct ExInstant(Instant);

/// A monotonic clock. Its readings count nanoseconds from the moment the
/// clock was made, so they only compare with readings of the same clock.
pub struct Clock {
    origin: Instant,
}

impl Clock {
    /// Starts a clock at the present moment.
    ///
    /// Trusted: calls `std::time::Instant::now`. Nothing is claimed of the
    /// moment it returns.
    #[verifier::external_body]
    pub(crate) fn start() -> Clock {
        Clock { origin: Instant::now() }
    }

    /// Reads the clock.
    ///
    /// Trusted: calls `std::time::Instant::elapsed` on the clock's origin and
    /// hands back the duration as whole nanoseconds. Nothing is claimed of
    /// the reading: callers must be correct for every value of it.
    #[verifier::external_body]
    pub(crate) fn now(&self) -> u128 {
        self.origin.elapsed().as_nanos()
    }
}

/// The time that has passed between two readings of one clock, zero where
/// the later reading is not after the earlier one.
pub open spec fn elapsed_between(earlier: u128, later: u128) -> nat {
    if later >= earlier {
        (later - earlier) as nat
    } else {
        0
    }
}

} // verus!
