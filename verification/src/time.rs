//! Spans of time and readings of a monotonic clock, counted in nanoseconds.
use vstd::prelude::*;

verus! {

/// Nanoseconds in one second.
pub const NANOS_PER_SEC: u128 = 1_000_000_000;

/// Nanoseconds in one millisecond.
pub const NANOS_PER_MILLI: u128 = 1_000_000;

/// The longest span: 2^64 seconds less one nanosecond.
pub const MAX_DURATION_NANOS: u128 = 18_446_744_073_709_551_615_999_999_999;

/// The last reading of the clock: 2^63 seconds less one nanosecond.
pub const MAX_INSTANT_NANOS: u128 = 9_223_372_036_854_775_807_999_999_999;

/// A span of time.
#[derive(Debug, Clone, Copy, PartialEq, Eq, Structural)]
pub struct Duration {
    nanos: u128,
}

impl Duration {
    #[verifier::type_invariant]
    spec fn in_range(self) -> bool {
        self.nanos <= MAX_DURATION_NANOS
    }

    /// The span in nanoseconds.
    pub closed spec fn spec_nanos(self) -> int {
        self.nanos as int
    }

    /// No time at all.
    pub fn zero() -> (r: Self)
        ensures
            r.spec_nanos() == 0,
    {
        Duration { nanos: 0 }
    }

    /// The longest span.
    pub fn max() -> (r: Self)
        ensures
            r.spec_nanos() == MAX_DURATION_NANOS,
    {
        Duration { nanos: MAX_DURATION_NANOS }
    }

    /// `secs` seconds and `nanos` nanoseconds.
    pub fn new(secs: u64, nanos: u32) -> (r: Self)
        requires
            nanos < NANOS_PER_SEC,
        ensures
            r.spec_nanos() == secs * NANOS_PER_SEC + nanos,
    {
        Duration { nanos: secs as u128 * NANOS_PER_SEC + nanos as u128 }
    }

    pub fn from_secs(secs: u64) -> (r: Self)
        ensures
            r.spec_nanos() == secs * NANOS_PER_SEC,
    {
        Duration { nanos: secs as u128 * NANOS_PER_SEC }
    }

    pub fn from_millis(millis: u64) -> (r: Self)
        ensures
            r.spec_nanos() == millis * NANOS_PER_MILLI,
    {
        Duration { nanos: millis as u128 * NANOS_PER_MILLI }
    }

    pub fn as_nanos(&self) -> (r: u128)
        ensures
            r == self.spec_nanos(),
            r <= MAX_DURATION_NANOS,
    {
        proof {
            use_type_invariant(self);
        }
        self.nanos
    }

    pub fn is_zero(&self) -> (r: bool)
        ensures
            r == (self.spec_nanos() == 0),
    {
        self.nanos == 0
    }

    /// The shorter of two spans.
    pub fn min(self, other: Duration) -> (r: Duration)
        ensures
            r == (if other.spec_nanos() < self.spec_nanos() {
                other
            } else {
                self
            }),
    {
        if other.nanos < self.nanos {
            other
        } else {
            self
        }
    }

    /// The longer of two spans.
    pub fn max_of(self, other: Duration) -> (r: Duration)
        ensures
            r == (if other.spec_nanos() > self.spec_nanos() {
                other
            } else {
                self
            }),
    {
        if other.nanos > self.nanos {
            other
        } else {
            self
        }
    }

    /// Whether this span is at least as long as `other`.
    pub fn at_least(&self, other: Duration) -> (r: bool)
        ensures
            r == (self.spec_nanos() >= other.spec_nanos()),
    {
        self.nanos >= other.nanos
    }
}

/// Spans of the same length are the same.
pub proof fn duration_is_its_nanos(a: Duration, b: Duration)
    ensures
        a.spec_nanos() == b.spec_nanos() ==> a == b,
{
}

/// A reading of a monotonic clock.
#[derive(Debug, Clone, Copy, PartialEq, Eq, Structural)]
pub struct Instant {
    nanos: u128,
}

/// How long after `earlier` the reading `later` is; zero where it is not after it.
pub open spec fn elapsed(later: Instant, earlier: Instant) -> int {
    if later.spec_nanos() >= earlier.spec_nanos() {
        later.spec_nanos() - earlier.spec_nanos()
    } else {
        0
    }
}

impl Instant {
    #[verifier::type_invariant]
    spec fn in_range(self) -> bool {
        self.nanos <= MAX_INSTANT_NANOS
    }

    /// Nanoseconds since the clock's origin.
    pub closed spec fn spec_nanos(self) -> int {
        self.nanos as int
    }

    /// The reading `nanos` nanoseconds after the clock's origin.
    pub fn from_nanos(nanos: u64) -> (r: Self)
        ensures
            r.spec_nanos() == nanos,
    {
        Instant { nanos: nanos as u128 }
    }

    pub fn as_nanos(&self) -> (r: u128)
        ensures
            r == self.spec_nanos(),
            r <= MAX_INSTANT_NANOS,
    {
        proof {
            use_type_invariant(self);
        }
        self.nanos
    }

    /// The reading `span` later, if the clock can hold it.
    pub fn checked_add(self, span: Duration) -> (r: Option<Instant>)
        ensures
            match r {
                Some(at) => at.spec_nanos() == self.spec_nanos() + span.spec_nanos(),
                None => self.spec_nanos() + span.spec_nanos() > MAX_INSTANT_NANOS,
            },
            r is Some <==> self.spec_nanos() + span.spec_nanos() <= MAX_INSTANT_NANOS,
    {
        proof {
            use_type_invariant(&self);
            use_type_invariant(&span);
        }
        let at: u128 = self.nanos + span.nanos;
        if at > MAX_INSTANT_NANOS {
            None
        } else {
            Some(Instant { nanos: at })
        }
    }

    /// How long after `earlier` this is; zero where it is not after it.
    pub fn since(self, earlier: Instant) -> (r: Duration)
        ensures
            r.spec_nanos() == elapsed(self, earlier),
    {
        proof {
            use_type_invariant(&self);
        }
        Duration { nanos: self.nanos.saturating_sub(earlier.nanos) }
    }

    /// Whether this reading is at or behind `at`.
    pub fn has_reached(self, at: Instant) -> (r: bool)
        ensures
            r == (self.spec_nanos() >= at.spec_nanos()),
    {
        self.nanos >= at.nanos
    }

    /// How long it is from `now` until `span` after this reading; zero where that is past.
    pub fn left(self, span: Duration, now: Instant) -> (r: Duration)
        ensures
            r.spec_nanos() == (if self.spec_nanos() + span.spec_nanos() >= now.spec_nanos() {
                let left = self.spec_nanos() + span.spec_nanos() - now.spec_nanos();
                if left > MAX_DURATION_NANOS {
                    MAX_DURATION_NANOS as int
                } else {
                    left
                }
            } else {
                0
            }),
    {
        proof {
            use_type_invariant(&self);
            use_type_invariant(&span);
        }
        let left: u128 = (self.nanos + span.nanos).saturating_sub(now.nanos);
        if left > MAX_DURATION_NANOS {
            Duration::max()
        } else {
            Duration { nanos: left }
        }
    }
}

/// Readings at the same distance from the clock's origin are the same.
pub proof fn instant_is_its_nanos(a: Instant, b: Instant)
    ensures
        a.spec_nanos() == b.spec_nanos() ==> a == b,
{
}

} // verus!
