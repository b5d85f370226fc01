//! Rolling statistics of one region: cache, averaging, history trimming.

use triglyceride::function_profile::DEFAULT_CACHE_CAP;
use triglyceride::FunctionProfile;

#[test]
fn fresh_profile_is_empty() {
    let p = FunctionProfile::new(42);
    assert_eq!(p.st, 42);
    assert_eq!(p.max_stored_cash_amount, DEFAULT_CACHE_CAP);
    assert_eq!(p.average_cash.len(), 0);
    assert_eq!(p.timings.len(), 0);
    assert_eq!(p.pull_latest(), 0);
}

#[test]
fn round_trip_duration_is_exact() {
    // start, wait d, end, resolve with an otherwise empty cache: the new
    // history entry is exactly d.
    let mut p = FunctionProfile::new(0);
    p.start(1000);
    p.end(3500);
    assert_eq!(p.average_cash, vec![2500]);
    p.resolve(10, 5, false, 1);
    assert_eq!(p.timings, vec![(1, 2500)]);
    assert_eq!(p.pull_latest(), 2500);
    assert_eq!(p.average_cash.len(), 0);
}

#[test]
fn mean_of_two_retained_samples() {
    // Cache capacity 2: of three start/end pairs the third is dropped, and
    // the resolve averages whichever two were retained.
    let mut p = FunctionProfile::new(0);
    p.resolve(2, 3, false, 0); // adopt capacity 2; empty cache adds no point
    assert_eq!(p.timings.len(), 0);
    assert_eq!(p.max_stored_cash_amount, 2);

    p.start(1_000);
    p.end(11_000); // 10 ms
    p.start(20_000);
    p.end(40_000); // 20 ms
    p.start(50_000);
    p.end(80_000); // dropped: cache is full
    assert_eq!(p.average_cash, vec![10_000, 20_000]);

    p.resolve(2, 3, false, 1);
    assert_eq!(p.timings, vec![(1, 15_000)]);
}

#[test]
fn mean_rounds_down() {
    let mut p = FunctionProfile::new(0);
    p.start(0);
    p.end(3);
    p.start(10);
    p.end(14);
    p.resolve(10, 5, false, 7);
    // (3 + 4) / 2 rounded down.
    assert_eq!(p.timings, vec![(7, 3)]);
}

#[test]
fn history_trims_from_the_front() {
    let mut p = FunctionProfile::new(0);
    for k in 0..5u32 {
        p.start(u64::from(k) * 100);
        p.end(u64::from(k) * 100 + u64::from(k) + 1);
        p.resolve(10, 3, false, k);
    }
    // Five resolves, capacity 3: the oldest two points were trimmed.
    assert_eq!(p.timings, vec![(2, 3), (3, 4), (4, 5)]);
    assert_eq!(p.pull_latest(), 5);
}

#[test]
fn empty_cache_resolve_adds_no_point() {
    let mut p = FunctionProfile::new(0);
    p.resolve(10, 5, false, 1);
    p.resolve(10, 5, false, 2);
    assert_eq!(p.timings.len(), 0);
    assert_eq!(p.pull_latest(), 0);
}

#[test]
fn cull_with_empty_cache_is_skipped() {
    // Dropping the oldest sample when none is cached is a no-op, not an
    // error: no operation fails.
    let mut p = FunctionProfile::new(0);
    p.resolve(5, 5, true, 1);
    assert_eq!(p.timings.len(), 0);
    assert_eq!(p.average_cash.len(), 0);
    // A lone sample culled away likewise yields no history point.
    p.start(0);
    p.end(30);
    p.resolve(5, 5, true, 2);
    assert_eq!(p.timings.len(), 0);
}

#[test]
fn empty_cache_resolve_still_trims_history() {
    // Lowering the history capacity takes effect at the next resolve even
    // when no new point is appended.
    let mut p = FunctionProfile::new(0);
    for k in 0..4u32 {
        p.start(u64::from(k) * 100);
        p.end(u64::from(k) * 100 + 10);
        p.resolve(10, 5, false, k);
    }
    assert_eq!(p.timings.len(), 4);
    p.resolve(10, 2, false, 9);
    assert_eq!(p.timings, vec![(2, 10), (3, 10)]);
}

#[test]
fn cull_first_drops_oldest_sample() {
    let mut p = FunctionProfile::new(0);
    p.start(0);
    p.end(100);
    p.start(200);
    p.end(240);
    p.start(300);
    p.end(310);
    // Oldest sample (100) dropped; mean of 40 and 10.
    p.resolve(10, 5, true, 1);
    assert_eq!(p.timings, vec![(1, 25)]);
}

#[test]
fn end_before_start_clamps_to_zero() {
    // A timestamp that lies before the armed timer degrades to a zero
    // duration, never an error.
    let mut p = FunctionProfile::new(0);
    p.start(500);
    p.end(400);
    assert_eq!(p.average_cash, vec![0]);
}

#[test]
fn cache_respects_capacity_under_any_sequence() {
    let mut p = FunctionProfile::new(0);
    let mut t = 0u64;
    for round in 0..4u32 {
        for _ in 0..20 {
            p.start(t);
            t += 3;
            p.end(t);
            t += 2;
            assert!(p.average_cash.len() as u32 <= p.max_stored_cash_amount);
        }
        p.resolve(5, 4, false, round);
        assert!(p.average_cash.len() as u32 <= p.max_stored_cash_amount);
        assert!(p.timings.len() <= 4);
    }
}
