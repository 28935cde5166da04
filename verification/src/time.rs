//! Instants and spans of time, in seconds and nanoseconds.

use vstd::prelude::*;

verus! {

/// An instant: seconds since the Unix epoch, and nanoseconds within that second.
#[derive(Debug, Clone, Copy, PartialEq, Eq, Hash, Structural)]
pub struct Timestamp {
    pub secs: i64,
    pub nanos: u32,
}

/// Nanoseconds in a second.
pub const NANOS_PER_SEC: u32 = 1_000_000_000;

/// A span of time: whole seconds and the nanoseconds beyond them.
#[derive(Debug, Clone, Copy, PartialEq, Eq, Hash, Structural)]
pub struct Span {
    pub secs: u64,
    pub nanos: u32,
}

/// The span in nanoseconds.
pub open spec fn span_nanos(s: Span) -> int {
    s.secs * 1_000_000_000 + s.nanos
}

/// A span whose nanoseconds are less than a second.
pub open spec fn span_wf(s: Span) -> bool {
    s.nanos < NANOS_PER_SEC
}

/// The longest span.
pub open spec fn span_max() -> Span {
    Span { secs: u64::MAX, nanos: (NANOS_PER_SEC - 1) as u32 }
}

/// The instant in nanoseconds since the epoch.
pub open spec fn timestamp_nanos(t: Timestamp) -> int {
    t.secs * 1_000_000_000 + t.nanos
}

impl Span {
    /// A span of whole seconds.
    pub fn from_secs(secs: u64) -> (s: Span)
        ensures
            s == (Span { secs, nanos: 0 }),
            span_wf(s),
    {
        Span { secs, nanos: 0 }
    }

    /// The empty span.
    pub fn zero() -> (s: Span)
        ensures
            s == (Span { secs: 0, nanos: 0 }),
    {
        Span { secs: 0, nanos: 0 }
    }

    /// Whether the span is empty.
    pub fn is_zero(&self) -> (b: bool)
        ensures
            b == (self.secs == 0 && self.nanos == 0),
    {
        self.secs == 0 && self.nanos == 0
    }

    /// `self - other`, or the empty span when `other` is longer.
    pub fn saturating_sub(self, other: Span) -> (s: Span)
        requires
            span_wf(self),
            span_wf(other),
        ensures
            span_wf(s),
            span_nanos(s) == if span_nanos(self) >= span_nanos(other) {
                span_nanos(self) - span_nanos(other)
            } else {
                0
            },
    {
        if self.secs < other.secs || (self.secs == other.secs && self.nanos < other.nanos) {
            return Span { secs: 0, nanos: 0 };
        }
        if self.nanos >= other.nanos {
            Span { secs: self.secs - other.secs, nanos: self.nanos - other.nanos }
        } else {
            Span { secs: self.secs - other.secs - 1, nanos: self.nanos + NANOS_PER_SEC - other.nanos }
        }
    }

    /// `self + other`, or the longest span when that does not fit.
    pub fn saturating_add(self, other: Span) -> (s: Span)
        requires
            span_wf(self),
            span_wf(other),
        ensures
            span_wf(s),
            span_nanos(s) == if span_nanos(self) + span_nanos(other) <= span_nanos(span_max()) {
                span_nanos(self) + span_nanos(other)
            } else {
                span_nanos(span_max())
            },
    {
        let nanos = self.nanos + other.nanos;
        let (carry, nanos) = if nanos >= NANOS_PER_SEC {
            (1u64, nanos - NANOS_PER_SEC)
        } else {
            (0u64, nanos)
        };
        if self.secs > u64::MAX - other.secs || self.secs + other.secs > u64::MAX - carry {
            return Span { secs: u64::MAX, nanos: NANOS_PER_SEC - 1 };
        }
        Span { secs: self.secs + other.secs + carry, nanos }
    }

    /// `self` taken `k` times, or the longest span when that does not fit.
    pub fn saturating_mul(self, k: u32) -> (s: Span)
        requires
            span_wf(self),
        ensures
            span_wf(s),
            span_nanos(s) == if span_nanos(self) * k <= span_nanos(span_max()) {
                span_nanos(self) * k
            } else {
                span_nanos(span_max())
            },
    {
        let n: u128 = self.secs as u128 * 1_000_000_000 + self.nanos as u128;
        assert(n * k <= 0xffff_ffff_ffff_ffff_ffff_ffff_ffff_ffff) by (nonlinear_arith)
            requires
                n <= 0xffff_ffff_ffff_ffff * 1_000_000_000 + 1_000_000_000,
                k <= 0xffff_ffff,
        ;
        let total: u128 = n * k as u128;
        assert(total == span_nanos(self) * k) by (nonlinear_arith)
            requires
                total == (self.secs * 1_000_000_000 + self.nanos) * k,
        ;
        let limit: u128 = u64::MAX as u128 * 1_000_000_000 + 999_999_999;
        if total > limit {
            return Span { secs: u64::MAX, nanos: NANOS_PER_SEC - 1 };
        }
        let secs: u128 = total / 1_000_000_000;
        let nanos: u128 = total % 1_000_000_000;
        assert(secs * 1_000_000_000 + nanos == total && nanos < 1_000_000_000 && secs <= u64::MAX) by (nonlinear_arith)
            requires
                secs == total / 1_000_000_000,
                nanos == total % 1_000_000_000,
                total <= limit,
                limit == u64::MAX * 1_000_000_000 + 999_999_999,
        ;
        Span { secs: secs as u64, nanos: nanos as u32 }
    }

    /// The shorter of two spans.
    pub fn min(self, other: Span) -> (s: Span)
        requires
            span_wf(self),
            span_wf(other),
        ensures
            s == if span_nanos(self) <= span_nanos(other) {
                self
            } else {
                other
            },
    {
        if self.secs < other.secs || (self.secs == other.secs && self.nanos <= other.nanos) {
            self
        } else {
            other
        }
    }
}

/// How long ago `then` was at `now`: the empty span when `then` is later than `now`, the
/// longest span when the difference is longer still.
pub fn elapsed(now: Timestamp, then: Timestamp) -> (s: Span)
    ensures
        span_wf(s),
        span_nanos(s) == if timestamp_nanos(now) <= timestamp_nanos(then) {
            0
        } else if timestamp_nanos(now) - timestamp_nanos(then) > span_nanos(span_max()) {
            span_nanos(span_max())
        } else {
            timestamp_nanos(now) - timestamp_nanos(then)
        },
{
    let diff: i128 = (now.secs as i128 - then.secs as i128) * 1_000_000_000 + (now.nanos as i128
        - then.nanos as i128);
    assert(diff == timestamp_nanos(now) - timestamp_nanos(then));
    if diff <= 0 {
        return Span { secs: 0, nanos: 0 };
    }
    let secs: i128 = diff / 1_000_000_000;
    let nanos: i128 = diff % 1_000_000_000;
    assert(secs * 1_000_000_000 + nanos == diff && 0 <= nanos < 1_000_000_000 && 0 <= secs) by (nonlinear_arith)
        requires
            secs == diff / 1_000_000_000,
            nanos == diff % 1_000_000_000,
            0 < diff,
    ;
    if secs > u64::MAX as i128 {
        assert(diff > span_nanos(span_max())) by (nonlinear_arith)
            requires
                secs * 1_000_000_000 + nanos == diff,
                secs > u64::MAX,
                nanos >= 0,
        ;
        return Span { secs: u64::MAX, nanos: NANOS_PER_SEC - 1 };
    }
    Span { secs: secs as u64, nanos: nanos as u32 }
}

/// The current time, read from the system clock through `chrono::Utc::now`.
#[verifier::external_body]
pub(crate) fn now() -> Timestamp {
    let t = chrono::Utc::now();
    Timestamp { secs: t.timestamp(), nanos: t.timestamp_subsec_nanos() }
}

} // verus!
