use warehouse::schedule::{backoff, due_in, jitter, jitter_by, Status};
use warehouse::time::{elapsed, Span, Timestamp};

fn secs(s: u64) -> Span {
    Span::from_secs(s)
}

fn at(s: i64) -> Timestamp {
    Timestamp { secs: s, nanos: 0 }
}

#[test]
fn fresh_status_is_not_stale() {
    let s = Status::default();
    assert!(!s.is_stale());
    assert_eq!(s.consecutive_failures, 0);
    assert!(s.last_success.is_none() && s.last_failure.is_none());
    assert!(s.last_error.is_none() && s.next_attempt.is_none());
}

#[test]
fn failure_marks_stale_and_success_clears_it() {
    let mut s = Status::default();
    s.record_failure(at(10), "mojang: timed out".to_string());
    assert!(s.is_stale());
    assert_eq!(s.consecutive_failures, 1);
    assert_eq!(s.last_failure, Some(at(10)));
    assert_eq!(s.last_error.as_deref(), Some("mojang: timed out"));
    s.record_failure(at(20), "mojang: 503".to_string());
    assert_eq!(s.consecutive_failures, 2);
    s.record_success(at(30));
    assert!(!s.is_stale());
    assert_eq!(s.consecutive_failures, 0);
    assert!(s.last_error.is_none());
    assert_eq!(s.last_success, Some(at(30)));
    assert_eq!(s.last_failure, Some(at(20)));
}

#[test]
fn failure_count_saturates() {
    let mut s = Status::default();
    s.consecutive_failures = u32::MAX;
    s.record_failure(at(1), "x".to_string());
    assert_eq!(s.consecutive_failures, u32::MAX);
}

#[test]
fn restored_and_scheduled_status() {
    let mut s = Status::default();
    s.record_failure(at(5), "e".to_string());
    s.record_restored(at(3));
    assert_eq!(s.last_success, Some(at(3)));
    assert!(s.is_stale());
    s.schedule(at(100));
    assert_eq!(s.next_attempt, Some(at(100)));
}

#[test]
fn backoff_doubles_up_to_the_ceiling() {
    let base = secs(60);
    let max = secs(3600);
    assert_eq!(backoff(base, max, 0), secs(60));
    assert_eq!(backoff(base, max, 1), secs(60));
    assert_eq!(backoff(base, max, 2), secs(120));
    assert_eq!(backoff(base, max, 3), secs(240));
    assert_eq!(backoff(base, max, 6), secs(1920));
    assert_eq!(backoff(base, max, 7), secs(3600));
    assert_eq!(backoff(base, max, u32::MAX), secs(3600));
}

#[test]
fn backoff_exponent_stops_at_sixteen() {
    let base = secs(1);
    let max = Span { secs: u64::MAX, nanos: 999_999_999 };
    assert_eq!(backoff(base, max, 17), secs(65536));
    assert_eq!(backoff(base, max, 40), secs(65536));
    let huge = Span { secs: u64::MAX / 2, nanos: 0 };
    assert_eq!(backoff(huge, max, 3), max);
}

#[test]
fn jitter_by_adds_whole_seconds() {
    assert_eq!(jitter_by(secs(100), secs(600), 42), secs(142));
    assert_eq!(jitter_by(secs(100), Span::zero(), 0), secs(100));
    let max = Span { secs: u64::MAX, nanos: 999_999_999 };
    assert_eq!(jitter_by(max, secs(10), 10), max);
}

#[test]
fn jitter_stays_within_the_spread() {
    let mut seen = std::collections::BTreeSet::new();
    for _ in 0..200 {
        let d = jitter(secs(100), secs(5));
        assert!(d.nanos == 0);
        assert!(d.secs >= 100 && d.secs <= 105, "{d:?}");
        seen.insert(d.secs);
    }
    assert!(seen.len() > 1, "jitter never varied: {seen:?}");
    assert_eq!(jitter(secs(100), Span::zero()), secs(100));
}

#[test]
fn due_in_refreshes_unresolved_catalogs_at_once() {
    let d = due_in(0, None, at(1000), secs(86400), secs(600), secs(60), secs(3600));
    assert!(d.is_zero());
}

#[test]
fn due_in_waits_out_the_remaining_age() {
    let d = due_in(0, Some(at(1000)), at(1000 + 86000), secs(86400), Span::zero(), secs(60), secs(3600));
    assert_eq!(d, secs(400));
    let overdue = due_in(0, Some(at(0)), at(100_000), secs(86400), Span::zero(), secs(60), secs(3600));
    assert!(overdue.is_zero());
}

#[test]
fn due_in_backs_off_after_failures() {
    let d = due_in(3, Some(at(0)), at(10), secs(86400), Span::zero(), secs(60), secs(3600));
    assert_eq!(d, secs(240));
    let j = due_in(1, None, at(10), secs(86400), secs(30), secs(60), secs(3600));
    assert!(j.secs >= 60 && j.secs <= 90);
}

#[test]
fn span_arithmetic_saturates() {
    let a = Span { secs: 5, nanos: 700_000_000 };
    let b = Span { secs: 2, nanos: 900_000_000 };
    assert_eq!(a.saturating_sub(b), Span { secs: 2, nanos: 800_000_000 });
    assert_eq!(b.saturating_sub(a), Span::zero());
    assert_eq!(a.saturating_add(b), Span { secs: 8, nanos: 600_000_000 });
    assert_eq!(b.saturating_mul(3), Span { secs: 8, nanos: 700_000_000 });
    assert_eq!(a.min(b), b);
    let max = Span { secs: u64::MAX, nanos: 999_999_999 };
    assert_eq!(max.saturating_add(secs(1)), max);
    assert_eq!(max.saturating_mul(2), max);
    assert!(Span::zero().is_zero());
    assert!(!secs(1).is_zero());
}

#[test]
fn elapsed_is_never_negative() {
    let then = Timestamp { secs: 10, nanos: 500_000_000 };
    let now = Timestamp { secs: 12, nanos: 100_000_000 };
    assert_eq!(elapsed(now, then), Span { secs: 1, nanos: 600_000_000 });
    assert_eq!(elapsed(then, now), Span::zero());
    let far = elapsed(Timestamp { secs: i64::MAX, nanos: 0 }, Timestamp { secs: i64::MIN, nanos: 0 });
    assert_eq!(far.secs, u64::MAX);
}
