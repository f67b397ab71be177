//! Time as nanoseconds since a clock was started.
use std::time::{Duration, Instant, SystemTime};
use vstd::prelude::*;

verus! {

/// The standard library's monotonic clock reading; nothing of it is seen.
#[verifier::external_type_specification]
#[verifier::external_body]
pub struct ExInstant(Instant);

/// `Instant::now` reads the monotonic clock; nothing is claimed of it.
pub assume_specification[ Instant::now ]() -> Instant;

/// `Instant::elapsed` tells how long ago a reading was; nothing is claimed of
/// it.
pub assume_specification[ Instant::elapsed ](start: &Instant) -> Duration;

/// `Duration::as_nanos` gives the nanoseconds of a duration, which is less
/// than 2^64 seconds; nothing else is claimed of their number.
pub assume_specification[ Duration::as_nanos ](d: &Duration) -> (n: u128)
    ensures
        n < 18446744073709551616 * 1000000000,
;

/// The standard library's reading of the time of day; nothing of it is seen.
#[verifier::external_type_specification]
#[verifier::external_body]
pub struct ExSystemTime(SystemTime);

/// `SystemTime::now` reads the time of day; nothing is claimed of it.
pub assume_specification[ SystemTime::now ]() -> SystemTime;

/// `SystemTime::duration_since` the epoch; nothing where the reading is
/// earlier. Nothing is claimed of the time.
#[verifier::external_body]
fn since_epoch(t: &SystemTime) -> Option<Duration> {
    t.duration_since(std::time::UNIX_EPOCH).ok()
}

/// `Duration::as_secs` gives the whole seconds of a duration; nothing is
/// claimed of their number.
pub assume_specification[ Duration::as_secs ](d: &Duration) -> u64;

/// The time of day in seconds since the epoch; zero before it. It is the
/// machine's, so nothing is known of it.
pub(crate) fn unix_secs() -> u64 {
    match since_epoch(&SystemTime::now()) {
        Some(d) => d.as_secs(),
        None => 0,
    }
}

/// Nanoseconds of one second.
pub const SECOND: u128 = 1_000_000_000;

/// A reading of a [`Clock`].
#[derive(Clone, Copy, Debug, PartialEq, Eq)]
pub struct Moment {
    pub nanos: u128,
}

impl Moment {
    /// The moment `secs` seconds after a clock reading.
    pub open spec fn after(self, secs: u64) -> Moment {
        Moment { nanos: (self.nanos + secs * SECOND) as u128 }
    }

    /// The range of clock readings.
    pub open spec fn in_range(self) -> bool {
        self.nanos < 18446744073709551616 * 1000000000
    }

    /// The moment `secs` seconds later.
    pub fn plus_secs(self, secs: u64) -> (m: Moment)
        requires
            self.in_range(),
        ensures
            m == self.after(secs),
            m.nanos == self.nanos + secs * 1000000000,
    {
        assert(secs * 1000000000 <= 18446744073709551615 * 1000000000) by (nonlinear_arith)
            requires
                secs <= 18446744073709551615,
        ;
        let m = Moment { nanos: self.nanos + secs as u128 * SECOND };
        m
    }

    /// The time from `earlier` until now, none if it lies ahead.
    pub open spec fn nanos_since(self, earlier: Moment) -> int {
        if self.nanos >= earlier.nanos {
            self.nanos - earlier.nanos
        } else {
            0
        }
    }
}

/// A clock that starts at zero and never runs backwards.
#[derive(Debug)]
pub struct Clock {
    start: Instant,
}

impl Clock {
    /// Starts a clock.
    pub fn start() -> Clock {
        Clock { start: Instant::now() }
    }

    /// The present moment. Which one depends on the time, so only its range
    /// is known.
    pub fn now(&self) -> (m: Moment)
        ensures
            m.in_range(),
    {
        Moment { nanos: self.start.elapsed().as_nanos() }
    }
}

} // verus!
