//! Points in time and spans between them, in nanoseconds.

use vstd::prelude::*;

verus! {

/// A span of time.
#[derive(Debug, Clone, Copy, PartialEq, Eq, Structural)]
pub struct Duration {
    pub nanos: u128,
}

/// `n` cut off to its low 64 bits.
pub open spec fn low_u64(n: nat) -> u64 {
    (n % 0x1_0000_0000_0000_0000) as u64
}

impl Duration {
    pub fn from_secs(secs: u64) -> (d: Self)
        ensures
            d.nanos == secs * 1_000_000_000,
    {
        Duration { nanos: secs as u128 * 1_000_000_000 }
    }

    pub fn from_millis(millis: u64) -> (d: Self)
        ensures
            d.nanos == millis * 1_000_000,
    {
        Duration { nanos: millis as u128 * 1_000_000 }
    }

    pub fn from_micros(micros: u64) -> (d: Self)
        ensures
            d.nanos == micros * 1_000,
    {
        Duration { nanos: micros as u128 * 1_000 }
    }

    pub fn from_nanos(nanos: u64) -> (d: Self)
        ensures
            d.nanos == nanos,
    {
        Duration { nanos: nanos as u128 }
    }

    /// The span in whole microseconds, cut off to 64 bits.
    pub open spec fn micros(self) -> u64 {
        low_u64((self.nanos / 1_000) as nat)
    }

    /// `as_micros() as u64`
    pub fn low_micros(self) -> (micros: u64)
        ensures
            micros == self.micros(),
    {
        ((self.nanos / 1_000) % 0x1_0000_0000_0000_0000) as u64
    }

    /// `as_nanos() as u64`
    pub fn low_nanos(self) -> (nanos: u64)
        ensures
            nanos == low_u64(self.nanos as nat),
    {
        (self.nanos % 0x1_0000_0000_0000_0000) as u64
    }
}

impl Default for Duration {
    /// The empty span.
    fn default() -> (d: Self)
        ensures
            d.nanos == 0,
    {
        Duration { nanos: 0 }
    }
}

/// A point in time, counted from an arbitrary origin that all points share.
#[derive(Debug, Clone, Copy, PartialEq, Eq, Structural)]
pub struct Instant {
    pub nanos: u128,
}

impl Instant {
    /// The span from `earlier` to `self`; empty if `earlier` is the later of the two.
    pub open spec fn since(self, earlier: Instant) -> Duration {
        if self.nanos >= earlier.nanos {
            Duration { nanos: (self.nanos - earlier.nanos) as u128 }
        } else {
            Duration { nanos: 0 }
        }
    }

    pub fn saturating_duration_since(self, earlier: Instant) -> (d: Duration)
        ensures
            d == self.since(earlier),
    {
        if self.nanos >= earlier.nanos {
            Duration { nanos: self.nanos - earlier.nanos }
        } else {
            Duration { nanos: 0 }
        }
    }

    /// A span added to an earlier point gives the later one; the span to a later point is empty.
    /// Microseconds are a thousand nanoseconds each, rounded down.
    pub proof fn lemma_span(self, earlier: Instant)
        ensures
            self.nanos >= earlier.nanos ==> earlier.nanos + self.since(earlier).nanos == self.nanos,
            self.nanos <= earlier.nanos ==> self.since(earlier).nanos == 0,
            self.since(earlier).nanos < 18_446_744_073_709_551_616_000 ==> {
                let micros = self.since(earlier).micros();
                1_000 * micros <= self.since(earlier).nanos < 1_000 * (micros + 1)
            },
    {
    }

    /// The point `span` after `self`.
    pub fn plus(self, span: Duration) -> (later: Instant)
        requires
            self.nanos + span.nanos <= u128::MAX,
        ensures
            later.nanos == self.nanos + span.nanos,
    {
        Instant { nanos: self.nanos + span.nanos }
    }
}

} // verus!
