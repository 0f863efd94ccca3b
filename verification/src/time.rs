//! Spans of time.
//!
//! A [`Duration`] is a whole number of nanoseconds, up to [`MAX_NANOS`]. Clock readings are plain
//! integers: a monotonic reading is a `u64` of nanoseconds, and a deadline computed from one is a
//! `u128`, which no reading plus a few spans can overflow.
use vstd::prelude::*;
use vstd::string::*;

verus! {

/// Nanoseconds in the longest [`Duration`]: `u64::MAX` seconds and 999 999 999 nanoseconds.
pub const MAX_NANOS: u128 = 18_446_744_073_709_551_615_999_999_999;

pub const NANOS_PER_SEC: u128 = 1_000_000_000;

pub const NANOS_PER_MILLI: u128 = 1_000_000;

pub const NANOS_PER_MICRO: u128 = 1_000;

/// A span of time. Its view is its length in nanoseconds.
#[derive(Clone, Copy, PartialEq, Eq, PartialOrd, Ord, Debug, Structural)]
pub struct Duration {
    nanos: u128,
}

impl View for Duration {
    type V = nat;

    closed spec fn view(&self) -> nat {
        self.nanos as nat
    }
}

impl Duration {
    #[verifier::type_invariant]
    spec fn in_range(self) -> bool {
        self.nanos <= MAX_NANOS
    }

    pub fn zero() -> (d: Duration)
        ensures
            d@ == 0,
    {
        Duration { nanos: 0 }
    }

    pub fn from_secs(secs: u64) -> (d: Duration)
        ensures
            d@ == secs * NANOS_PER_SEC,
    {
        Duration { nanos: secs as u128 * NANOS_PER_SEC }
    }

    pub fn from_millis(millis: u64) -> (d: Duration)
        ensures
            d@ == millis * NANOS_PER_MILLI,
    {
        Duration { nanos: millis as u128 * NANOS_PER_MILLI }
    }

    pub fn from_micros(micros: u64) -> (d: Duration)
        ensures
            d@ == micros * NANOS_PER_MICRO,
    {
        Duration { nanos: micros as u128 * NANOS_PER_MICRO }
    }

    pub fn from_nanos(nanos: u64) -> (d: Duration)
        ensures
            d@ == nanos,
    {
        Duration { nanos: nanos as u128 }
    }

    pub fn as_nanos(&self) -> (n: u128)
        ensures
            n == self@,
            n <= MAX_NANOS,
    {
        proof {
            use_type_invariant(self);
        }
        self.nanos
    }

    /// Whole microseconds, rounded down.
    pub fn as_micros(&self) -> (n: u128)
        ensures
            n == self@ / (NANOS_PER_MICRO as nat),
            n <= MAX_NANOS,
    {
        proof {
            use_type_invariant(self);
        }
        self.nanos / NANOS_PER_MICRO
    }

    pub fn is_zero(&self) -> (b: bool)
        ensures
            b == (self@ == 0),
    {
        self.nanos == 0
    }

    /// This span `rhs` times, or the longest span if that is longer.
    pub fn saturating_mul(self, rhs: u32) -> (d: Duration)
        ensures
            d@ == if self@ * rhs <= MAX_NANOS {
                self@ * rhs
            } else {
                MAX_NANOS as int
            },
    {
        proof {
            use_type_invariant(&self);
        }
        assert(self.nanos * rhs <= MAX_NANOS * 0xffff_ffff) by (nonlinear_arith)
            requires
                self.nanos <= MAX_NANOS,
                rhs <= 0xffff_ffff,
        ;
        let product: u128 = self.nanos * rhs as u128;
        if product <= MAX_NANOS {
            Duration { nanos: product }
        } else {
            Duration { nanos: MAX_NANOS }
        }
    }

    /// The shorter of the two. Neither is longer than the longest.
    pub fn min(self, other: Duration) -> (d: Duration)
        ensures
            d@ == if self@ <= other@ {
                self@
            } else {
                other@
            },
            d == self || d == other,
            self@ <= MAX_NANOS,
            other@ <= MAX_NANOS,
    {
        proof {
            use_type_invariant(&self);
            use_type_invariant(&other);
        }
        if self.nanos <= other.nanos {
            self
        } else {
            other
        }
    }

    /// Whether this span is strictly shorter than `other`.
    pub fn shorter_than(&self, other: Duration) -> (b: bool)
        ensures
            b == (self@ < other@),
    {
        self.nanos < other.nanos
    }

    /// The span as a person reads it, such as `1.5s` or `20ms`.
    pub fn text(&self) -> (s: String)
        ensures
            s@ == duration_text(
                (self@ / (NANOS_PER_SEC as nat)) as u64,
                (self@ % (NANOS_PER_SEC as nat)) as u32,
            ),
    {
        proof {
            use_type_invariant(self);
        }
        let secs: u64 = (self.nanos / NANOS_PER_SEC) as u64;
        let subsec: u32 = (self.nanos % NANOS_PER_SEC) as u32;
        debug_text(secs, subsec)
    }
}

/// The text that `std::time::Duration`'s `Debug` gives a span of `secs` seconds and `subsec`
/// nanoseconds.
pub uninterp spec fn duration_text(secs: u64, subsec: u32) -> Seq<char>;

/// Calls the `Debug` formatting of `std::time::Duration` (through `format!`) on the span of
/// `secs` seconds and `subsec` nanoseconds. Claimed of it: the text depends on the span alone.
#[verifier::external_body]
fn debug_text(secs: u64, subsec: u32) -> (s: String)
    requires
        subsec < NANOS_PER_SEC,
    ensures
        s@ == duration_text(secs, subsec),
{
    format!("{:?}", std::time::Duration::new(secs, subsec))
}

/// How long ago `then` was, at the monotonic reading `now`: zero if `then` is not in the past.
pub fn elapsed(then: u64, now: u64) -> (d: Duration)
    ensures
        d@ == elapsed_nanos(then, now),
{
    if then <= now {
        Duration::from_nanos(now - then)
    } else {
        Duration::zero()
    }
}

pub open spec fn elapsed_nanos(then: u64, now: u64) -> nat {
    if then <= now {
        (now - then) as nat
    } else {
        0
    }
}

} // verus!
