//! Wall-clock instants and durations, in whole seconds.

use vstd::prelude::*;

verus! {

/// An instant of the wall clock: whole seconds since the epoch.
#[derive(Clone, Copy, Debug, PartialEq, Eq, Structural)]
pub struct Time {
    pub secs: u64,
}

/// Relies on `std::time::SystemTime::now` and
/// `SystemTime::duration_since` for the seconds since the epoch. The
/// clock decides the value, so nothing is promised of it; a clock before
/// the epoch reads as zero.
#[verifier::external_body]
fn system_now_secs() -> u64 {
    match std::time::SystemTime::now().duration_since(std::time::UNIX_EPOCH) {
        Ok(d) => d.as_secs(),
        Err(_) => 0,
    }
}

impl Time {
    /// The instant the wall clock shows now. The clock decides the value.
    pub fn now() -> Time {
        Time { secs: system_now_secs() }
    }

    /// The instant a number of seconds since the epoch names.
    pub fn from_secs(secs: u64) -> (r: Time)
        ensures
            r.secs == secs,
    {
        Time { secs }
    }
}

/// A span of time, in whole seconds.
#[derive(Clone, Copy, Debug, PartialEq, Eq, Structural)]
pub struct Duration {
    pub secs: u64,
}

impl Duration {
    /// The span between two instants, whichever comes first.
    pub fn between(t1: Time, t2: Time) -> (r: Duration)
        ensures
            t1.secs >= t2.secs ==> r.secs == t1.secs - t2.secs,
            t1.secs < t2.secs ==> r.secs == t2.secs - t1.secs,
    {
        if t1.secs >= t2.secs {
            Duration { secs: t1.secs - t2.secs }
        } else {
            Duration { secs: t2.secs - t1.secs }
        }
    }

    /// The span between an instant and now. The clock decides the second
    /// end of the span, so only what `between` promises holds of it.
    pub fn since(t: Time) -> Duration {
        let now = Time::now();
        Duration::between(t, now)
    }
}

} // verus!
