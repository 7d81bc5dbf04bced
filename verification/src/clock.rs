//! Points in time and spans between them, counted in nanoseconds.

use crate::double;
use crate::double::Number;
use vstd::prelude::*;

verus! {

/// Nanoseconds in a second.
pub const NANOS_PER_SEC: u128 = 1_000_000_000;
/// Nanoseconds in a millisecond.
pub const NANOS_PER_MILLI: u128 = 1_000_000;

/// A span of time.
#[derive(Debug, Clone, Copy, PartialEq, Eq, Structural)]
pub struct Duration {
    pub nanos: u128,
}

/// A point on a clock that never runs backwards; its origin is the caller's choice.
#[derive(Debug, Clone, Copy, PartialEq, Eq, Structural)]
pub struct Instant {
    pub nanos: u128,
}

/// The whole seconds in a span.
pub open spec fn whole_secs(d: Duration) -> nat {
    d.nanos as nat / NANOS_PER_SEC as nat
}

/// A span in seconds, as a float: the whole seconds, and the rest of a second.
pub open spec fn seconds(d: Duration) -> Number {
    double::plus(
        double::whole(whole_secs(d)),
        double::over(
            double::whole(d.nanos as nat % NANOS_PER_SEC as nat),
            double::whole(NANOS_PER_SEC as nat),
        ),
    )
}

/// The time from `earlier` to `later`, zero when they are in the other order.
pub open spec fn elapsed(later: Instant, earlier: Instant) -> Duration {
    Duration {
        nanos: if later.nanos >= earlier.nanos {
            (later.nanos - earlier.nanos) as u128
        } else {
            0
        },
    }
}

impl Duration {
    /// A span of whole seconds.
    pub fn from_secs(secs: u64) -> (d: Duration)
        ensures
            d.nanos == secs * NANOS_PER_SEC,
    {
        Duration { nanos: secs as u128 * NANOS_PER_SEC }
    }

    /// A span of whole milliseconds.
    pub fn from_millis(millis: u64) -> (d: Duration)
        ensures
            d.nanos == millis * NANOS_PER_MILLI,
    {
        Duration { nanos: millis as u128 * NANOS_PER_MILLI }
    }

    /// The whole seconds of the span.
    pub fn as_secs(&self) -> (secs: u128)
        ensures
            secs == whole_secs(*self),
    {
        self.nanos / NANOS_PER_SEC
    }

    /// The span in seconds, as a float.
    pub fn seconds(&self) -> (s: Number)
        ensures
            s == seconds(*self),
    {
        let rest = Number::whole(self.nanos % NANOS_PER_SEC);
        Number::whole(self.nanos / NANOS_PER_SEC).plus(rest.over(Number::whole(NANOS_PER_SEC)))
    }

    /// Whether the span is empty.
    pub fn is_zero(&self) -> (r: bool)
        ensures
            r == (self.nanos == 0),
    {
        self.nanos == 0
    }

    /// The shorter of two spans.
    pub fn min(self, other: Duration) -> (d: Duration)
        ensures
            d == (if self.nanos <= other.nanos { self } else { other }),
    {
        if self.nanos <= other.nanos {
            self
        } else {
            other
        }
    }

    /// What is left of this span after `other`, never below zero.
    pub fn saturating_sub(self, other: Duration) -> (d: Duration)
        ensures
            d.nanos == (if self.nanos >= other.nanos { self.nanos - other.nanos } else { 0 }),
    {
        if self.nanos >= other.nanos {
            Duration { nanos: self.nanos - other.nanos }
        } else {
            Duration { nanos: 0 }
        }
    }
}

impl Instant {
    /// The point `d` after the origin of the clock.
    pub fn at(d: Duration) -> (t: Instant)
        ensures
            t.nanos == d.nanos,
    {
        Instant { nanos: d.nanos }
    }

    /// The point `d` later, or the end of the clock when that lies beyond it.
    pub fn after(self, d: Duration) -> (t: Instant)
        ensures
            t.nanos == (if self.nanos + d.nanos <= u128::MAX { self.nanos + d.nanos } else {
                u128::MAX as int
            }),
    {
        Instant { nanos: self.nanos.saturating_add(d.nanos) }
    }

    /// The time since `earlier`, zero when `earlier` is not earlier.
    pub fn duration_since(self, earlier: Instant) -> (d: Duration)
        ensures
            d == elapsed(self, earlier),
    {
        if self.nanos >= earlier.nanos {
            Duration { nanos: self.nanos - earlier.nanos }
        } else {
            Duration { nanos: 0 }
        }
    }
}

} // verus!
