//! Time, as nanoseconds on a clock that starts when it is made.

use std::time::Instant;
use vstd::prelude::*;

verus! {

/// Nanoseconds in a second.
pub const NANOS_PER_SEC: i128 = 1_000_000_000;

/// The last nanosecond that a clock can read: one before 2^64 seconds.
pub const LAST_READING: i128 = 18_446_744_073_709_551_615_999_999_999;

/// `std::time::Instant`, opaque.
#[verifier::external_type_specification]
#[verifier::external_body]
pub struct ExInstant(Instant);

/// `Instant::now`: the present instant, of which nothing is known.
pub assume_specification[ Instant::now ]() -> Instant
;

/// `Instant::elapsed`, in nanoseconds: the time since `origin`. It differs from call to call. A
/// duration is a number of seconds that fits in 64 bits and less than a second more.
#[verifier::external_body]
fn nanos_since(origin: &Instant) -> (nanos: u128)
    ensures
        nanos <= LAST_READING,
{
    origin.elapsed().as_nanos()
}

/// A clock that reads the nanoseconds since it was made. Earlier times are negative on it.
pub struct Clock {
    origin: Instant,
}

impl Clock {
    /// The clock starts at an instant that the system gave as the present one.
    pub closed spec fn starts_at_present(&self) -> bool {
        call_ensures(Instant::now, (), self.origin)
    }

    /// `nanos` is a time that the system gave as passed since the clock was started.
    pub closed spec fn may_read(&self, nanos: int) -> bool {
        0 <= nanos <= LAST_READING && call_ensures(nanos_since, (&self.origin,), nanos as u128)
    }

    /// A clock that starts now.
    pub fn start() -> (clock: Clock)
        ensures
            clock.starts_at_present(),
    {
        Clock { origin: Instant::now() }
    }

    /// The present time.
    pub fn now(&self) -> (nanos: i128)
        ensures
            0 <= nanos <= LAST_READING,
            self.may_read(nanos as int),
    {
        nanos_since(&self.origin) as i128
    }
}

/// A clock starts at the instant that the system gave as the present one, and reads, nanosecond for
/// nanosecond, the time that the system gave as passed since that instant.
proof fn clock_reads_what_the_system_gives(started: Clock, clock: &Clock, nanos: i128)
    requires
        call_ensures(Clock::start, (), started),
        call_ensures(Clock::now, (clock,), nanos),
    ensures
        call_ensures(Instant::now, (), started.origin),
        exists|elapsed: u128| #[trigger]
            call_ensures(nanos_since, (&clock.origin,), elapsed) && elapsed as int == nanos as int,
{
    assert(call_ensures(nanos_since, (&clock.origin,), nanos as u128));
}

} // verus!
