//! Points in time and spans of time, as plain numbers of nanoseconds.
use vstd::prelude::*;

verus! {

/// A span of time.
#[derive(Debug, Clone, Copy, PartialEq, Eq, PartialOrd, Ord, Structural)]
pub struct Duration {
    pub nanos: u128,
}

/// A point in time, counted from the origin of the clock.
#[derive(Debug, Clone, Copy, PartialEq, Eq, PartialOrd, Ord, Structural)]
pub struct Instant {
    pub nanos: u128,
}

/// How far the clock may run: far enough that any span in whole seconds can be added.
pub const LAST_NANOS: u128 = 0x7fff_ffff_ffff_ffff_ffff_ffff_ffff_ffff;

impl Duration {
    /// A span of whole seconds.
    pub fn from_secs(secs: u64) -> (d: Duration)
        ensures
            d.nanos == secs * 1_000_000_000,
    {
        Duration { nanos: secs as u128 * 1_000_000_000 }
    }

    /// A span of whole milliseconds.
    pub fn from_millis(millis: u64) -> (d: Duration)
        ensures
            d.nanos == millis * 1_000_000,
    {
        Duration { nanos: millis as u128 * 1_000_000 }
    }

    /// The whole seconds of the span.
    pub fn as_secs(&self) -> (secs: u128)
        ensures
            secs == self.nanos / 1_000_000_000,
    {
        self.nanos / 1_000_000_000
    }
}

impl Instant {
    /// The point a span later.
    pub fn plus(&self, d: Duration) -> (t: Instant)
        requires
            self.nanos + d.nanos <= u128::MAX,
        ensures
            t.nanos == self.nanos + d.nanos,
    {
        Instant { nanos: self.nanos + d.nanos }
    }

    /// The span since an earlier point; no time at all since a later one.
    pub fn duration_since(&self, earlier: Instant) -> (d: Duration)
        ensures
            d.nanos == if self.nanos >= earlier.nanos {
                self.nanos - earlier.nanos
            } else {
                0
            },
    {
        if self.nanos >= earlier.nanos {
            Duration { nanos: self.nanos - earlier.nanos }
        } else {
            Duration { nanos: 0 }
        }
    }
}

/// A time of the world's clock: seconds since the beginning of 1970, and nanoseconds more.
#[derive(Debug, Clone, Copy, PartialEq, Eq, Structural)]
pub struct UnixTime {
    pub secs: i64,
    pub nanos: u32,
}

impl UnixTime {
    /// How far a time may be from the beginning of 1970, in seconds: a quarter of a million years.
    pub const LAST_SECS: i64 = 8_000_000_000_000;

    /// The time is within the bounds, and less than a second is counted in nanoseconds.
    pub open spec fn wf(self) -> bool {
        -UnixTime::LAST_SECS <= self.secs <= UnixTime::LAST_SECS && self.nanos < 1_000_000_000
    }

    /// The milliseconds since the beginning of 1970; none before that.
    pub open spec fn spec_millis(self) -> int {
        if self.secs < 0 {
            0
        } else {
            self.secs * 1_000 + self.nanos / 1_000_000
        }
    }

    /// The milliseconds since the beginning of 1970; none before that.
    pub fn millis(&self) -> (ms: u64)
        requires
            self.wf(),
        ensures
            ms == self.spec_millis(),
    {
        if self.secs < 0 {
            0
        } else {
            self.secs as u64 * 1_000 + (self.nanos / 1_000_000) as u64
        }
    }

    /// One where a second has begun.
    pub open spec fn part(self) -> int {
        if self.nanos > 0 {
            1
        } else {
            0
        }
    }
}

/// The present: the time of the program's own clock, and that of the world's.
#[derive(Debug, Clone, Copy, PartialEq, Eq, Structural)]
pub struct Moment {
    pub now: Instant,
    pub unix: UnixTime,
}

impl Moment {
    /// Both clocks are within their bounds.
    pub open spec fn wf(self) -> bool {
        self.now.nanos <= LAST_NANOS && self.unix.wf()
    }
}

} // verus!
