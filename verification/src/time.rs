//! Points in time and spans of time, counted in nanoseconds.

use vstd::prelude::*;

verus! {

/// The longest span, in nanoseconds: one short of 2^64 seconds.
pub const LONGEST: u128 = 18_446_744_073_709_551_615_999_999_999;

/// A span of time.
#[derive(Debug, Clone, Copy, PartialEq, Eq, PartialOrd, Ord, Hash, Structural)]
pub struct Duration {
    /// Length in nanoseconds
    pub nanos: u128,
}

/// A point in time, counted from a start that the caller's clock sets.
#[derive(Debug, Clone, Copy, PartialEq, Eq, PartialOrd, Ord, Hash, Structural)]
pub struct Instant {
    /// Nanoseconds since the start
    pub nanos: u128,
}

/// The smaller of two numbers.
pub open spec fn min_int(a: int, b: int) -> int {
    if a <= b {
        a
    } else {
        b
    }
}

/// The larger of two numbers.
pub open spec fn max_int(a: int, b: int) -> int {
    if a >= b {
        a
    } else {
        b
    }
}

/// A number of nanoseconds, or that of the longest span where it is larger.
pub open spec fn saturated(n: int) -> int {
    min_int(n, LONGEST as int)
}

/// The nanoseconds of a point in time, or those of the last point where they are more.
pub open spec fn countable(n: int) -> int {
    min_int(n, u128::MAX as int)
}

impl Duration {
    /// Whole microseconds in the span, as far as they fit 64 bits
    pub open spec fn micros(self) -> int {
        (self.nanos / 1_000) as int % 0x1_0000_0000_0000_0000
    }

    /// Whole milliseconds in the span, as far as they fit 64 bits
    pub open spec fn millis(self) -> int {
        (self.nanos / 1_000_000) as int % 0x1_0000_0000_0000_0000
    }

    /// Whole seconds in the span, or the largest number of 64 bits where they are more
    pub open spec fn seconds(self) -> int {
        min_int((self.nanos / 1_000_000_000) as int, u64::MAX as int)
    }

    /// The longest span
    pub fn longest() -> (r: Duration)
        ensures
            r.nanos == LONGEST,
    {
        Duration { nanos: LONGEST }
    }

    /// `n` times the span, or the longest span where that is longer
    pub fn saturating_mul(self, n: u32) -> (r: Duration)
        ensures
            r.nanos == saturated(self.nanos * n),
    {
        match self.nanos.checked_mul(n as u128) {
            Some(nanos) => Duration { nanos }.shorter(Self::longest()),
            None => Self::longest(),
        }
    }

    /// Both spans together, or the longest span where that is longer
    pub fn saturating_add(self, other: Duration) -> (r: Duration)
        ensures
            r.nanos == saturated(self.nanos + other.nanos),
    {
        Duration { nanos: self.nanos.saturating_add(other.nanos) }.shorter(Self::longest())
    }

    /// What is left of the span after the other one
    pub fn saturating_sub(self, other: Duration) -> (r: Duration)
        ensures
            r.nanos == max_int(self.nanos - other.nanos, 0),
    {
        Duration { nanos: self.nanos.saturating_sub(other.nanos) }
    }

    /// The shorter of two spans
    pub fn shorter(self, other: Duration) -> (r: Duration)
        ensures
            r.nanos == min_int(self.nanos as int, other.nanos as int),
    {
        if self.nanos <= other.nanos {
            self
        } else {
            other
        }
    }

    /// The longer of two spans
    pub fn longer(self, other: Duration) -> (r: Duration)
        ensures
            r.nanos == max_int(self.nanos as int, other.nanos as int),
    {
        if self.nanos >= other.nanos {
            self
        } else {
            other
        }
    }

    /// A span of `nanos` nanoseconds
    pub fn from_nanos(nanos: u64) -> (r: Duration)
        ensures
            r.nanos == nanos,
    {
        Duration { nanos: nanos as u128 }
    }

    /// A span of `micros` microseconds
    pub fn from_micros(micros: u64) -> (r: Duration)
        ensures
            r.nanos == micros * 1_000,
    {
        Duration { nanos: micros as u128 * 1_000 }
    }

    /// A span of `millis` milliseconds
    pub fn from_millis(millis: u64) -> (r: Duration)
        ensures
            r.nanos == millis * 1_000_000,
    {
        Duration { nanos: millis as u128 * 1_000_000 }
    }

    /// A span of `secs` seconds
    pub fn from_secs(secs: u64) -> (r: Duration)
        ensures
            r.nanos == secs * 1_000_000_000,
    {
        Duration { nanos: secs as u128 * 1_000_000_000 }
    }

    /// Nanoseconds in the span
    pub fn as_nanos(self) -> (r: u128)
        ensures
            r == self.nanos,
    {
        self.nanos
    }

    /// Whole microseconds in the span
    pub fn as_micros(self) -> (r: u128)
        ensures
            r == self.nanos / 1_000,
    {
        self.nanos / 1_000
    }

    /// Whole milliseconds in the span
    pub fn as_millis(self) -> (r: u128)
        ensures
            r == self.nanos / 1_000_000,
    {
        self.nanos / 1_000_000
    }

    /// The low 64 bits of the whole microseconds in the span
    pub fn micros_u64(self) -> (r: u64)
        ensures
            r == self.micros(),
    {
        (self.as_micros() % 0x1_0000_0000_0000_0000) as u64
    }

    /// The low 64 bits of the whole milliseconds in the span
    pub fn millis_u64(self) -> (r: u64)
        ensures
            r == self.millis(),
    {
        (self.as_millis() % 0x1_0000_0000_0000_0000) as u64
    }

    /// Whole seconds in the span, or the largest number of 64 bits where they are more
    pub fn as_secs(self) -> (r: u64)
        ensures
            r == self.seconds(),
    {
        let secs: u128 = self.nanos / 1_000_000_000;
        if secs <= 0xffff_ffff_ffff_ffff {
            secs as u64
        } else {
            u64::MAX
        }
    }
}

impl Instant {
    /// The point `nanos` nanoseconds after the start
    pub fn from_nanos(nanos: u64) -> (r: Instant)
        ensures
            r.nanos == nanos,
    {
        Instant { nanos: nanos as u128 }
    }

    /// The time that passed since `earlier`, or none where `earlier` is later
    pub fn duration_since(self, earlier: Instant) -> (r: Duration)
        ensures
            r.nanos == max_int(self.nanos - earlier.nanos, 0),
    {
        Duration { nanos: self.nanos.saturating_sub(earlier.nanos) }
    }

    /// The point that lies `span` earlier, or the start where that is earlier
    pub fn saturating_sub(self, span: Duration) -> (r: Instant)
        ensures
            r.nanos == max_int(self.nanos - span.nanos, 0),
    {
        Instant { nanos: self.nanos.saturating_sub(span.nanos) }
    }

    /// The point that lies `span` later, or the last one that can be counted
    pub fn saturating_add(self, span: Duration) -> (r: Instant)
        ensures
            r.nanos == countable(self.nanos + span.nanos),
    {
        Instant { nanos: self.nanos.saturating_add(span.nanos) }
    }

    /// The point that lies `span` later
    pub fn after(self, span: Duration) -> (r: Instant)
        requires
            self.nanos + span.nanos <= u128::MAX,
        ensures
            r.nanos == self.nanos + span.nanos,
    {
        Instant { nanos: self.nanos + span.nanos }
    }
}

} // verus!
