//! Instants and durations, in whole nanoseconds.

use vstd::prelude::*;

verus! {

/// Nanoseconds in a millisecond.
pub const NANOS_PER_MILLI: u64 = 1_000_000;

/// Nanoseconds in a second.
pub const NANOS_PER_SEC: u64 = 1_000_000_000;

/// A span of time.
#[derive(Debug, Clone, Copy, PartialEq, Eq, Structural)]
pub struct Duration {
    pub nanos: u64,
}

/// A point in time, counted from an origin that the application chooses once.
#[derive(Debug, Clone, Copy, PartialEq, Eq, Structural)]
pub struct Instant {
    pub nanos: u64,
}

impl Duration {
    /// No time at all.
    pub fn zero() -> (span: Self)
        ensures
            span.nanos == 0,
    {
        Duration { nanos: 0 }
    }

    /// A span of whole nanoseconds.
    pub fn from_nanos(nanos: u64) -> (span: Self)
        ensures
            span.nanos == nanos,
    {
        Duration { nanos }
    }

    /// A span of whole milliseconds.
    pub fn from_millis(millis: u64) -> (span: Self)
        requires
            millis * NANOS_PER_MILLI <= u64::MAX,
        ensures
            span.nanos == millis * NANOS_PER_MILLI,
    {
        Duration { nanos: millis * NANOS_PER_MILLI }
    }

    /// A span of whole seconds.
    pub fn from_secs(secs: u64) -> (span: Self)
        requires
            secs * NANOS_PER_SEC <= u64::MAX,
        ensures
            span.nanos == secs * NANOS_PER_SEC,
    {
        Duration { nanos: secs * NANOS_PER_SEC }
    }

    /// Whether this is no time at all.
    pub fn is_zero(self) -> (zero: bool)
        ensures
            zero == (self.nanos == 0),
    {
        self.nanos == 0
    }

    /// What is left after taking `other` away, or nothing.
    pub fn saturating_sub(self, other: Duration) -> (left: Duration)
        ensures
            left.nanos == if self.nanos >= other.nanos {
                self.nanos - other.nanos
            } else {
                0
            },
    {
        if self.nanos >= other.nanos {
            Duration { nanos: self.nanos - other.nanos }
        } else {
            Duration { nanos: 0 }
        }
    }

    /// Both spans one after the other, or the longest span there is.
    pub fn saturating_add(self, other: Duration) -> (sum: Duration)
        ensures
            sum.nanos == if self.nanos + other.nanos <= u64::MAX {
                self.nanos + other.nanos
            } else {
                u64::MAX as int
            },
    {
        if self.nanos <= u64::MAX - other.nanos {
            Duration { nanos: self.nanos + other.nanos }
        } else {
            Duration { nanos: u64::MAX }
        }
    }

    /// The shorter of two spans.
    pub fn shorter(self, other: Duration) -> (least: Duration)
        ensures
            least.nanos == if self.nanos <= other.nanos {
                self.nanos
            } else {
                other.nanos
            },
    {
        if self.nanos <= other.nanos {
            self
        } else {
            other
        }
    }

    /// The longer of two spans.
    pub fn longer(self, other: Duration) -> (most: Duration)
        ensures
            most.nanos == if self.nanos >= other.nanos {
                self.nanos
            } else {
                other.nanos
            },
    {
        if self.nanos >= other.nanos {
            self
        } else {
            other
        }
    }
}

impl Instant {
    /// How long ago `earlier` was, or no time at all if it is still to come.
    pub fn saturating_duration_since(self, earlier: Instant) -> (span: Duration)
        ensures
            span.nanos == since(self, earlier),
    {
        if self.nanos >= earlier.nanos {
            Duration { nanos: self.nanos - earlier.nanos }
        } else {
            Duration { nanos: 0 }
        }
    }

    /// The instant `span` later, or the last one there is.
    pub fn after(self, span: Duration) -> (later: Instant)
        ensures
            later.nanos == if self.nanos + span.nanos <= u64::MAX {
                self.nanos + span.nanos
            } else {
                u64::MAX as int
            },
    {
        if self.nanos <= u64::MAX - span.nanos {
            Instant { nanos: self.nanos + span.nanos }
        } else {
            Instant { nanos: u64::MAX }
        }
    }

    /// The instant `span` earlier, or the origin.
    pub fn before(self, span: Duration) -> (earlier: Instant)
        ensures
            earlier.nanos == if self.nanos >= span.nanos {
                self.nanos - span.nanos
            } else {
                0
            },
    {
        if self.nanos >= span.nanos {
            Instant { nanos: self.nanos - span.nanos }
        } else {
            Instant { nanos: 0 }
        }
    }
}

/// Nanoseconds from `earlier` to `now`, and zero where `earlier` is the later.
pub open spec fn since(now: Instant, earlier: Instant) -> int {
    if now.nanos >= earlier.nanos {
        now.nanos - earlier.nanos
    } else {
        0
    }
}

/// The time since an instant is what lies between, and none before it.
pub proof fn time_is_counted_from_the_earlier(now: Instant, earlier: Instant)
    ensures
        now.nanos >= earlier.nanos ==> since(now, earlier) + earlier.nanos == now.nanos,
        now.nanos < earlier.nanos ==> since(now, earlier) == 0,
{
}

/// There are a million nanoseconds in a millisecond, and a thousand milliseconds in a
/// second.
pub proof fn a_second_is_a_thousand_milliseconds()
    ensures
        NANOS_PER_MILLI == 1_000_000,
        NANOS_PER_SEC == 1_000 * NANOS_PER_MILLI,
{
}

} // verus!
