//! Spans of time.

use vstd::prelude::*;
use vstd::std_specs::cmp::PartialEqSpec;

verus! {

/// Nanoseconds in a second.
pub const NANOS_PER_SEC: u32 = 1_000_000_000;

/// A span of time, to the nanosecond.
#[derive(Debug, Clone, Copy, Eq)]
pub struct Duration {
    secs: u64,
    nanos: u32,
}

impl PartialEq for Duration {
    fn eq(&self, other: &Self) -> (same: bool) {
        proof {
            use_type_invariant(self);
            use_type_invariant(other);
        }
        self.secs == other.secs && self.nanos == other.nanos
    }
}

impl vstd::std_specs::cmp::PartialEqSpecImpl for Duration {
    open spec fn obeys_eq_spec() -> bool {
        true
    }

    open spec fn eq_spec(&self, other: &Self) -> bool {
        self.nanoseconds() == other.nanoseconds()
    }
}

impl Duration {
    #[verifier::type_invariant]
    spec fn carried(self) -> bool {
        self.nanos < NANOS_PER_SEC
    }

    /// The length of the span in nanoseconds.
    pub closed spec fn nanoseconds(self) -> nat {
        (self.secs * NANOS_PER_SEC + self.nanos) as nat
    }

    /// The length of the longest span, in nanoseconds.
    pub open spec fn longest() -> nat {
        (u64::MAX * NANOS_PER_SEC + NANOS_PER_SEC - 1) as nat
    }

    /// The span of `secs` seconds and `nanos` nanoseconds.
    pub fn new(secs: u64, nanos: u32) -> (span: Self)
        requires
            nanos < NANOS_PER_SEC,
        ensures
            span.nanoseconds() == secs * NANOS_PER_SEC + nanos,
    {
        Duration { secs, nanos }
    }

    /// The span of `secs` seconds.
    pub fn from_secs(secs: u64) -> (span: Self)
        ensures
            span.nanoseconds() == secs * NANOS_PER_SEC,
    {
        Duration { secs, nanos: 0 }
    }

    /// The span of `millis` milliseconds.
    pub fn from_millis(millis: u64) -> (span: Self)
        ensures
            span.nanoseconds() == millis * 1_000_000,
    {
        let secs: u64 = millis / 1000;
        let nanos: u32 = ((millis % 1000) as u32) * 1_000_000;
        Duration { secs, nanos }
    }

    /// The whole seconds of the span.
    pub fn as_secs(&self) -> (secs: u64)
        ensures
            secs == self.nanoseconds() / NANOS_PER_SEC as nat,
    {
        proof {
            use_type_invariant(self);
        }
        self.secs
    }

    /// The nanoseconds of the span beyond its whole seconds.
    pub fn subsec_nanos(&self) -> (nanos: u32)
        ensures
            nanos == self.nanoseconds() % NANOS_PER_SEC as nat,
    {
        proof {
            use_type_invariant(self);
        }
        self.nanos
    }

    /// Twice the span, or `None` where that is longer than any span can be.
    pub fn checked_double(&self) -> (twice: Option<Self>)
        ensures
            match twice {
                Some(span) => {
                    &&& span.nanoseconds() == 2 * self.nanoseconds()
                    &&& 2 * self.nanoseconds() <= Duration::longest()
                },
                None => 2 * self.nanoseconds() > Duration::longest(),
            },
    {
        proof {
            use_type_invariant(self);
        }
        let nanos: u32 = self.nanos * 2;
        let (carry, rest): (u64, u32) = if nanos >= NANOS_PER_SEC {
            (1, nanos - NANOS_PER_SEC)
        } else {
            (0, nanos)
        };
        match self.secs.checked_mul(2) {
            Some(secs) => match secs.checked_add(carry) {
                Some(secs) => Some(Duration { secs, nanos: rest }),
                None => None,
            },
            None => None,
        }
    }

    /// The shorter of two spans.
    pub fn min(self, other: Self) -> (span: Self)
        ensures
            span == if self.nanoseconds() <= other.nanoseconds() {
                self
            } else {
                other
            },
    {
        proof {
            use_type_invariant(&self);
            use_type_invariant(&other);
        }
        if self.secs < other.secs || (self.secs == other.secs && self.nanos <= other.nanos) {
            self
        } else {
            other
        }
    }
}

/// The longest span is as long as the parts of a span allow.
pub proof fn law_longest_span()
    ensures
        Duration::longest() == 18_446_744_073_709_551_615_999_999_999,
{
}

/// Two spans are equal exactly if they are equally long.
pub proof fn law_equal_spans_are_equally_long(one: Duration, other: Duration)
    ensures
        Duration::obeys_eq_spec(),
        one.eq_spec(&other) <==> one.nanoseconds() == other.nanoseconds(),
{
}

} // verus!
