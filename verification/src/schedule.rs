//! When each catalog is refreshed next, and how a refresh changes its status.

use crate::time::{elapsed, span_max, span_nanos, span_wf, timestamp_nanos, Span, Timestamp};
use vstd::prelude::*;

verus! {

/// A catalog's refresh history.
#[derive(Debug, Clone)]
pub struct Status {
    pub last_success: Option<Timestamp>,
    pub last_failure: Option<Timestamp>,
    pub last_error: Option<String>,
    pub consecutive_failures: u32,
    pub next_attempt: Option<Timestamp>,
}

impl Default for Status {
    fn default() -> (s: Self)
        ensures
            s.last_success is None,
            s.last_failure is None,
            s.last_error is None,
            s.consecutive_failures == 0,
            s.next_attempt is None,
    {
        Status {
            last_success: None,
            last_failure: None,
            last_error: None,
            consecutive_failures: 0,
            next_attempt: None,
        }
    }
}

impl Status {
    /// Whether the last refresh failed, so that what is held is older than it should be.
    pub fn is_stale(&self) -> (b: bool)
        ensures
            b == (self.consecutive_failures > 0),
    {
        self.consecutive_failures > 0
    }

    /// Records a failed refresh at `at`, with what went wrong.
    pub fn record_failure(&mut self, at: Timestamp, message: String)
        ensures
            final(self).consecutive_failures == if old(self).consecutive_failures == u32::MAX {
                u32::MAX
            } else {
                (old(self).consecutive_failures + 1) as u32
            },
            final(self).consecutive_failures > 0,
            final(self).last_failure == Some(at),
            final(self).last_error == Some(message),
            final(self).last_success == old(self).last_success,
            final(self).next_attempt == old(self).next_attempt,
    {
        self.consecutive_failures = self.consecutive_failures.saturating_add(1);
        self.last_failure = Some(at);
        self.last_error = Some(message);
    }

    /// Records a successful refresh that built a document at `updated_at`.
    pub fn record_success(&mut self, updated_at: Timestamp)
        ensures
            final(self).consecutive_failures == 0,
            final(self).last_error is None,
            final(self).last_success == Some(updated_at),
            final(self).last_failure == old(self).last_failure,
            final(self).next_attempt == old(self).next_attempt,
    {
        self.consecutive_failures = 0;
        self.last_error = None;
        self.last_success = Some(updated_at);
    }

    /// Records a document built at `updated_at` that was read back from disk.
    pub fn record_restored(&mut self, updated_at: Timestamp)
        ensures
            final(self).last_success == Some(updated_at),
            final(self).consecutive_failures == old(self).consecutive_failures,
            final(self).last_failure == old(self).last_failure,
            final(self).last_error == old(self).last_error,
            final(self).next_attempt == old(self).next_attempt,
    {
        self.last_success = Some(updated_at);
    }

    /// Records when the next refresh is due.
    pub fn schedule(&mut self, next: Timestamp)
        ensures
            final(self).next_attempt == Some(next),
            final(self).consecutive_failures == old(self).consecutive_failures,
            final(self).last_success == old(self).last_success,
            final(self).last_failure == old(self).last_failure,
            final(self).last_error == old(self).last_error,
    {
        self.next_attempt = Some(next);
    }
}

/// The smaller of two numbers of nanoseconds.
pub open spec fn min_nanos(a: int, b: int) -> int {
    if a <= b {
        a
    } else {
        b
    }
}

/// `2` to the power `e`.
pub open spec fn pow2(e: nat) -> nat
    decreases e,
{
    if e == 0 {
        1
    } else {
        2 * pow2((e - 1) as nat)
    }
}

/// How many doublings the retry delay gets after `failures` failures in a row: one fewer
/// than the failures, at most sixteen.
pub open spec fn backoff_exponent(failures: u32) -> nat {
    let e = if failures == 0 {
        0
    } else {
        failures - 1
    };
    if e > 16 {
        16
    } else {
        e as nat
    }
}

/// The retry delay after `failures` failures in a row, in nanoseconds: the base delay
/// doubled per failure after the first, never more than `retry_max`.
pub open spec fn spec_backoff(retry_base: Span, retry_max: Span, failures: u32) -> int {
    let doubled = span_nanos(retry_base) * pow2(backoff_exponent(failures));
    let doubled = if doubled <= span_nanos(span_max()) {
        doubled
    } else {
        span_nanos(span_max())
    };
    min_nanos(doubled, span_nanos(retry_max))
}

proof fn lemma_shift_is_pow2(e: u32)
    requires
        e <= 16,
    ensures
        (1u32 << e) as nat == pow2(e as nat),
    decreases e,
{
    if e == 0 {
        assert((1u32 << 0u32) == 1u32) by (bit_vector);
    } else {
        let p = (e - 1) as u32;
        lemma_shift_is_pow2(p);
        assert((1u32 << e) == 2 * (1u32 << p)) by (bit_vector)
            requires
                1 <= e <= 16,
                p == e - 1,
        ;
    }
}

/// The retry delay after `failures` failures in a row.
pub fn backoff(retry_base: Span, retry_max: Span, failures: u32) -> (d: Span)
    requires
        span_wf(retry_base),
        span_wf(retry_max),
    ensures
        span_wf(d),
        span_nanos(d) == spec_backoff(retry_base, retry_max, failures),
{
    let e = failures.saturating_sub(1);
    let exponent: u32 = if e > 16 {
        16
    } else {
        e
    };
    proof {
        lemma_shift_is_pow2(exponent);
    }
    retry_base.saturating_mul(1u32 << exponent).min(retry_max)
}

/// A random whole number of seconds from zero to `max`, drawn with `rand::random_range`.
#[verifier::external_body]
fn random_up_to(max: u64) -> (r: u64)
    ensures
        r <= max,
{
    rand::random_range(0..=max)
}

/// `base` pushed back by `extra` seconds, unless the spread is empty.
pub fn jitter_by(base: Span, spread: Span, extra: u64) -> (d: Span)
    requires
        span_wf(base),
        extra <= spread.secs,
    ensures
        span_wf(d),
        spread.secs == 0 && spread.nanos == 0 ==> d == base,
        !(spread.secs == 0 && spread.nanos == 0) ==> span_nanos(d) == min_nanos(
            span_nanos(base) + extra * 1_000_000_000,
            span_nanos(span_max()),
        ),
{
    if spread.is_zero() {
        return base;
    }
    base.saturating_add(Span::from_secs(extra))
}

/// `base` pushed back by a random whole number of seconds, at most the spread's.
pub fn jitter(base: Span, spread: Span) -> (d: Span)
    requires
        span_wf(base),
    ensures
        span_wf(d),
        spread.secs == 0 && spread.nanos == 0 ==> d == base,
        span_nanos(base) <= span_nanos(d),
        span_nanos(d) <= min_nanos(span_nanos(base) + spread.secs * 1_000_000_000, span_nanos(span_max())),
        exists|extra: u64|
            extra <= spread.secs && span_nanos(d) == min_nanos(
                span_nanos(base) + #[trigger] (extra * 1_000_000_000),
                span_nanos(span_max()),
            ),
{
    if spread.is_zero() {
        assert(span_nanos(base) <= span_nanos(span_max()));
        assert(0u64 * 1_000_000_000 == 0);
        return base;
    }
    let extra = random_up_to(spread.secs);
    let d = jitter_by(base, spread, extra);
    assert(extra <= spread.secs && span_nanos(d) == min_nanos(
        span_nanos(base) + extra * 1_000_000_000,
        span_nanos(span_max()),
    ));
    d
}

/// How long a catalog waits before its next refresh, before jitter is added: after a
/// failure the retry delay; with a document held, what remains of its maximum age.
pub open spec fn spec_planned_delay(
    failures: u32,
    updated_at: Timestamp,
    now: Timestamp,
    max_age: Span,
    retry_base: Span,
    retry_max: Span,
) -> int {
    if failures > 0 {
        spec_backoff(retry_base, retry_max, failures)
    } else {
        let age = if timestamp_nanos(now) <= timestamp_nanos(updated_at) {
            0
        } else {
            min_nanos(timestamp_nanos(now) - timestamp_nanos(updated_at), span_nanos(span_max()))
        };
        if span_nanos(max_age) >= age {
            span_nanos(max_age) - age
        } else {
            0
        }
    }
}

/// How long a catalog waits before its next refresh. A catalog that has neither failed
/// nor holds a document is refreshed at once; otherwise the planned delay gets a random
/// jitter of up to `jitter_spread`'s whole seconds.
pub fn due_in(
    failures: u32,
    held_updated_at: Option<Timestamp>,
    now: Timestamp,
    max_age: Span,
    jitter_spread: Span,
    retry_base: Span,
    retry_max: Span,
) -> (d: Span)
    requires
        span_wf(max_age),
        span_wf(retry_base),
        span_wf(retry_max),
    ensures
        span_wf(d),
        failures == 0 && held_updated_at is None ==> span_nanos(d) == 0,
        forall|t: Timestamp|
            (failures > 0 || held_updated_at == Some(t)) ==> {
                let planned = spec_planned_delay(failures, t, now, max_age, retry_base, retry_max);
                &&& planned <= span_nanos(d)
                &&& span_nanos(d) <= min_nanos(planned + jitter_spread.secs * 1_000_000_000, span_nanos(span_max()))
                &&& exists|extra: u64|
                    extra <= jitter_spread.secs && span_nanos(d) == min_nanos(
                        planned + #[trigger] (extra * 1_000_000_000),
                        span_nanos(span_max()),
                    )
            },
{
    if failures > 0 {
        return jitter(backoff(retry_base, retry_max, failures), jitter_spread);
    }
    let updated_at = match held_updated_at {
        Some(t) => t,
        None => return Span::zero(),
    };
    let age = elapsed(now, updated_at);
    jitter(max_age.saturating_sub(age), jitter_spread)
}

} // verus!
