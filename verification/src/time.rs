//! Spans of time with nanosecond resolution, saturating at the largest
//! representable span (`u64::MAX` seconds plus 999,999,999 nanoseconds).
use vstd::prelude::*;

verus! {

pub const NANOS_PER_SEC: u128 = 1_000_000_000;

pub const NANOS_PER_MILLI: u128 = 1_000_000;

/// The largest span, in nanoseconds.
pub const MAX_SPAN_NANOS: u128 = 18_446_744_073_709_551_615_999_999_999;

/// A span of time.
#[derive(Clone, Copy, Debug, PartialEq, Eq, PartialOrd, Ord, Hash, Structural)]
pub struct TimeSpan {
    nanos: u128,
}

impl TimeSpan {
    /// The number of nanoseconds in this span.
    pub closed spec fn spec_nanos(self) -> nat {
        self.nanos as nat
    }

    #[verifier::type_invariant]
    spec fn bounded(self) -> bool {
        self.nanos <= MAX_SPAN_NANOS
    }

    /// The empty span.
    pub fn zero() -> (r: Self)
        ensures
            r.spec_nanos() == 0,
    {
        TimeSpan { nanos: 0 }
    }

    pub fn from_secs(secs: u64) -> (r: Self)
        ensures
            r.spec_nanos() == secs * NANOS_PER_SEC,
    {
        assert(secs * NANOS_PER_SEC <= MAX_SPAN_NANOS) by (nonlinear_arith)
            requires
                secs <= u64::MAX,
        ;
        TimeSpan { nanos: (secs as u128) * NANOS_PER_SEC }
    }

    pub fn from_millis(millis: u64) -> (r: Self)
        ensures
            r.spec_nanos() == millis * NANOS_PER_MILLI,
    {
        assert(millis * NANOS_PER_MILLI <= MAX_SPAN_NANOS) by (nonlinear_arith)
            requires
                millis <= u64::MAX,
        ;
        TimeSpan { nanos: (millis as u128) * NANOS_PER_MILLI }
    }

    /// A span of `nanos` nanoseconds, saturating at the largest span.
    pub fn from_nanos_saturating(nanos: u128) -> (r: Self)
        ensures
            r.spec_nanos() == if nanos > MAX_SPAN_NANOS {
                MAX_SPAN_NANOS as nat
            } else {
                nanos as nat
            },
    {
        if nanos > MAX_SPAN_NANOS {
            TimeSpan { nanos: MAX_SPAN_NANOS }
        } else {
            TimeSpan { nanos }
        }
    }

    pub fn as_nanos(&self) -> (r: u128)
        ensures
            r == self.spec_nanos(),
    {
        self.nanos
    }

    /// Whole milliseconds in this span.
    pub fn as_millis(&self) -> (r: u128)
        ensures
            r == self.spec_nanos() / NANOS_PER_MILLI as nat,
    {
        self.nanos / NANOS_PER_MILLI
    }

    /// Whole seconds in this span.
    pub fn as_secs(&self) -> (r: u64)
        ensures
            r == self.spec_nanos() / NANOS_PER_SEC as nat,
    {
        proof {
            use_type_invariant(self);
        }
        (self.nanos / NANOS_PER_SEC) as u64
    }

    /// The nanoseconds beyond the whole seconds of this span.
    pub fn subsec_nanos(&self) -> (r: u32)
        ensures
            r == self.spec_nanos() % NANOS_PER_SEC as nat,
            r < 1_000_000_000,
    {
        (self.nanos % NANOS_PER_SEC) as u32
    }

    pub fn is_zero(&self) -> (r: bool)
        ensures
            r == (self.spec_nanos() == 0),
    {
        self.nanos == 0
    }

    /// The shorter of two spans.
    pub fn min(self, other: Self) -> (r: Self)
        ensures
            r.spec_nanos() == if self.spec_nanos() <= other.spec_nanos() {
                self.spec_nanos()
            } else {
                other.spec_nanos()
            },
    {
        if self.nanos <= other.nanos {
            self
        } else {
            other
        }
    }

    /// The longer of two spans.
    pub fn max(self, other: Self) -> (r: Self)
        ensures
            r.spec_nanos() == if self.spec_nanos() >= other.spec_nanos() {
                self.spec_nanos()
            } else {
                other.spec_nanos()
            },
    {
        if self.nanos >= other.nanos {
            self
        } else {
            other
        }
    }

    /// Whether this span is at most as long as `other`.
    pub fn le(&self, other: &Self) -> (r: bool)
        ensures
            r == (self.spec_nanos() <= other.spec_nanos()),
    {
        self.nanos <= other.nanos
    }

    /// This span repeated `factor` times, saturating at the largest span.
    pub fn saturating_mul(self, factor: u32) -> (r: Self)
        ensures
            r.spec_nanos() == if self.spec_nanos() * factor > MAX_SPAN_NANOS {
                MAX_SPAN_NANOS as int
            } else {
                self.spec_nanos() * factor
            },
    {
        proof {
            use_type_invariant(&self);
        }
        if factor == 0 {
            return TimeSpan { nanos: 0 };
        }
        if self.nanos > MAX_SPAN_NANOS / (factor as u128) {
            assert(self.nanos * factor > MAX_SPAN_NANOS) by (nonlinear_arith)
                requires
                    self.nanos > MAX_SPAN_NANOS / (factor as u128),
                    factor > 0,
            ;
            TimeSpan { nanos: MAX_SPAN_NANOS }
        } else {
            assert(self.nanos * factor <= MAX_SPAN_NANOS) by (nonlinear_arith)
                requires
                    self.nanos <= MAX_SPAN_NANOS / (factor as u128),
                    factor > 0,
            ;
            TimeSpan { nanos: self.nanos * (factor as u128) }
        }
    }

    /// `self - other`, or the empty span when `other` is longer.
    pub fn saturating_sub(self, other: Self) -> (r: Self)
        ensures
            r.spec_nanos() == if self.spec_nanos() >= other.spec_nanos() {
                self.spec_nanos() - other.spec_nanos()
            } else {
                0
            },
    {
        proof {
            use_type_invariant(&self);
        }
        if self.nanos >= other.nanos {
            TimeSpan { nanos: self.nanos - other.nanos }
        } else {
            TimeSpan { nanos: 0 }
        }
    }
}

/// The `Debug` text that `std` writes for a duration of `secs` seconds and
/// `subsec_nanos` nanoseconds (such as `300s` or `1.5ms`).
pub uninterp spec fn duration_debug_text(secs: u64, subsec_nanos: u32) -> Seq<char>;

/// Formats a span as `std::time::Duration`'s `Debug` does.
#[verifier::external_body]
pub fn duration_debug(secs: u64, subsec_nanos: u32) -> (r: String)
    requires
        subsec_nanos < 1_000_000_000,
    ensures
        r@ == duration_debug_text(secs, subsec_nanos),
{
    format!("{:?}", std::time::Duration::new(secs, subsec_nanos))
}

} // verus!
