//! The orchestrator: loop-boundary inference, the resolve cycle, tree
//! publication, dormancy, and the read accessors. All scenarios drive the
//! explicit-timestamp entry points, so every expected value is exact.

use triglyceride::{PerformanceProfiler, Settings};

#[test]
fn default_settings() {
    let s = Settings::default();
    assert!(s.active);
    assert_eq!(s.stored_data_amount, 50);
    assert_eq!(s.stored_cash_amount, 20);
    assert_eq!(s.update_interval_micros, 500_000);
    assert_eq!(s.smoothing_amount, 5);
}

#[test]
fn fresh_profiler_is_empty() {
    let p = PerformanceProfiler::new(Settings::default());
    assert_eq!(p.all_profiles.len(), 0);
    assert_eq!(p.latest_tree.nodes.len(), 0);
    assert_eq!(p.latest_tree.root, None);
    assert!(p.is_actually_active_or_not);
    assert!(!p.queue_processes_tree);
    assert!(!p.processioning_tree);
}

#[test]
fn resolve_publishes_round_trip_duration() {
    let mut p = PerformanceProfiler::new(Settings::default());
    p.start_time_function_at("WORK", 1_000);
    p.end_time_function_at("WORK", 3_500).unwrap();
    // Three debounce ticks, then the fourth resolve fires.
    for k in 1..=4u64 {
        p.resolve_profiler_at(false, 600_000 + k);
    }
    assert_eq!(p.pull_latest_of("WORK"), 2_500);
    let profile = p.get_profile("WORK").unwrap();
    assert_eq!(profile.timings, vec![(4, 2_500)]);
}

#[test]
fn resolve_respects_interval_and_debounce() {
    let mut p = PerformanceProfiler::new(Settings::default());
    p.start_time_function_at("F", 0);
    p.end_time_function_at("F", 10).unwrap();
    // Enough ticks but not enough wall-clock time: nothing resolves.
    for k in 1..=6u64 {
        p.resolve_profiler_at(false, k);
    }
    assert_eq!(p.get_profile("F").unwrap().timings.len(), 0);
    // Enough time but the debounce was reset by nothing: the next call is
    // the seventh tick and fires.
    p.resolve_profiler_at(false, 700_000);
    assert_eq!(p.get_profile("F").unwrap().timings, vec![(7, 10)]);
}

#[test]
fn boundary_build_roots_marker() {
    let mut s = Settings::default();
    s.update_interval_micros = 0;
    let mut p = PerformanceProfiler::new(s);
    let mut t = 0u64;
    // First tick: the first name seen becomes the outer marker.
    p.time_event_start_at("MAIN", t);
    p.time_event_start_at("STEP", t + 1);
    p.time_event_end_at("STEP", t + 2);
    p.time_event_end_at("MAIN", t + 3);
    // Boundary recurrences; the fourth one's resolve fires, and the build
    // begins at that same boundary.
    for _ in 0..4 {
        t += 1_000;
        assert!(p.event_start_allowed("MAIN"));
        p.time_event_start_at("MAIN", t);
        p.time_event_start_at("STEP", t + 1);
        p.time_event_end_at("STEP", t + 2);
        p.time_event_end_at("MAIN", t + 3);
    }
    assert!(p.processioning_tree);
    assert!(!p.queue_processes_tree);
    assert_eq!(p.active_tree.root, Some("MAIN"));
    // The next boundary publishes the tick built meanwhile.
    t += 1_000;
    p.time_event_start_at("MAIN", t);
    assert_eq!(p.latest_tree.root, Some("MAIN"));
    let main = p.latest_tree.get_node("MAIN").unwrap();
    assert_eq!(main.children, vec!["STEP"]);
    let step = p.latest_tree.get_node("STEP").unwrap();
    assert_eq!(step.parent, Some("MAIN"));
}

#[test]
fn constant_reference_build_roots_reference() {
    let mut s = Settings::default();
    s.update_interval_micros = 0;
    let mut p = PerformanceProfiler::new(s);
    let mut t = 0u64;
    // Two independent top-level callbacks per tick; the reference stands
    // in for the missing enclosing region.
    for _ in 0..7 {
        p.set_constant_reference_at("REF", t);
        assert!(p.event_start_allowed("CB1"));
        p.time_event_start_at("CB1", t + 1);
        p.time_event_end_at("CB1", t + 2);
        p.time_event_start_at("CB2", t + 3);
        p.time_event_end_at("CB2", t + 4);
        t += 1_000;
    }
    // A build has been published: rooted at the reference, with the
    // first-seen outer marker as its immediate child.
    assert_eq!(p.latest_tree.root, Some("REF"));
    let r = p.latest_tree.get_node("REF").unwrap();
    assert_eq!(r.children, vec!["CB1", "CB2"]);
    let cb1 = p.latest_tree.get_node("CB1").unwrap();
    assert_eq!(cb1.parent, Some("REF"));
}

#[test]
fn deactivation_forces_one_final_resolve() {
    let mut p = PerformanceProfiler::new(Settings::default());
    p.start_time_function_at("F", 0);
    p.end_time_function_at("F", 100).unwrap();
    // Deactivate with a non-empty cache, immediately: no interval has
    // elapsed and no debounce ticks have passed, yet exactly one forced
    // resolve runs before dormancy, and its result appears in history.
    p.settings.active = false;
    p.resolve_profiler_at(false, 200);
    assert_eq!(p.get_profile("F").unwrap().timings, vec![(1, 100)]);
    assert!(!p.is_actually_active_or_not);
    // Dormant: events and resolves change nothing.
    p.start_time_function_at("F", 700_000);
    p.resolve_profiler_at(false, 1_200_000);
    let f = p.get_profile("F").unwrap();
    assert_eq!(f.timings, vec![(1, 100)]);
    assert_eq!(f.average_cash.len(), 0);
    assert_eq!(p.ticks_since_start, 1);
}

#[test]
fn deactivation_flush_ignores_interval_and_debounce() {
    // The gated path would not fire here (interval not elapsed, fewer than
    // four ticks); the flush still must not lose the pending samples.
    let mut p = PerformanceProfiler::new(Settings::default());
    p.start_time_function_at("A", 0);
    p.end_time_function_at("A", 40).unwrap();
    p.start_time_function_at("B", 0);
    p.end_time_function_at("B", 70).unwrap();
    p.resolve_profiler_at(false, 10); // one gated tick, does not fire
    assert_eq!(p.get_profile("A").unwrap().timings.len(), 0);
    p.settings.active = false;
    p.resolve_profiler_at(false, 20);
    assert_eq!(p.get_profile("A").unwrap().timings, vec![(2, 40)]);
    assert_eq!(p.get_profile("B").unwrap().timings, vec![(2, 70)]);
    assert_eq!(p.ticks_since_last_dump, 0);
    assert_eq!(p.last_dump, 20);
}

#[test]
fn dormant_profiler_accepts_resolves() {
    let mut p = PerformanceProfiler::new(Settings::default());
    p.set_constant_reference_at("REF", 0);
    p.set_constant_reference_at("REF", 50); // ends the first tick: one sample
    p.settings.active = false;
    p.resolve_profiler_at(false, 60); // flush culls the reference's sample
    assert!(!p.is_actually_active_or_not);
    // Dormant, with an elapsed interval, high tick counts and an empty
    // reference cache: still accepted, and still a no-op.
    p.ticks_since_last_dump = 10;
    p.resolve_profiler_at(false, 5_000_000);
    assert_eq!(p.ticks_since_start, 1);
    assert_eq!(p.ticks_since_last_dump, 10);
}

#[test]
fn reactivation_resumes_resolving() {
    let mut p = PerformanceProfiler::new(Settings::default());
    p.settings.active = false;
    p.resolve_profiler_at(false, 600_000);
    assert!(!p.is_actually_active_or_not);
    p.settings.active = true;
    p.start_time_function_at("F", 600_100);
    assert!(p.get_profile("F").is_none(), "dormant events are dropped");
    p.resolve_profiler_at(false, 600_200);
    assert!(p.is_actually_active_or_not);
    p.start_time_function_at("F", 600_300);
    assert!(p.get_profile("F").is_some());
}

#[test]
fn unrepeated_first_name_never_fails() {
    let mut p = PerformanceProfiler::new(Settings::default());
    p.time_event_start_at("FIRST", 0);
    p.time_event_start_at("SECOND", 1);
    p.time_event_end_at("FIRST", 2); // mismatched nesting
    p.time_event_end_at("SECOND", 3);
    // As long as the first-seen name does not recur, nothing objects.
    assert!(p.event_start_allowed("THIRD"));
    p.time_event_start_at("THIRD", 4);
    p.time_event_end_at("THIRD", 5);
    // The mismatch only becomes detectable when the first-seen name recurs.
    assert!(!p.event_start_allowed("FIRST"));
}

#[test]
fn end_without_start_records_zero_sample() {
    // An end for a name with no prior start is not an error: the name is
    // lazily created and treated as an implicit zero-duration sample.
    let mut p = PerformanceProfiler::new(Settings::default());
    let r = p.end_time_function_at("LATE", 50);
    assert_eq!(r, Ok(()));
    let f = p.get_profile("LATE").unwrap();
    assert_eq!(f.average_cash, vec![0]);
    assert_eq!(f.st, 50);
}

#[test]
fn constant_reference_keeps_first_name() {
    let mut p = PerformanceProfiler::new(Settings::default());
    p.set_constant_reference_at("R1", 0);
    p.set_constant_reference_at("R2", 10);
    assert_eq!(p.inner_constant_reference, Some("R1"));
    assert!(p.get_profile("R1").is_some());
    assert!(p.get_profile("R2").is_some());
}

#[test]
fn one_profile_per_name() {
    let mut p = PerformanceProfiler::new(Settings::default());
    for k in 0..5u64 {
        p.start_time_function_at("ONLY", k * 10);
        p.end_time_function_at("ONLY", k * 10 + 5).unwrap();
    }
    assert_eq!(p.all_profiles.len(), 1);
}

#[test]
fn caches_and_histories_stay_bounded() {
    let mut s = Settings::default();
    s.stored_cash_amount = 2;
    s.stored_data_amount = 3;
    s.update_interval_micros = 0;
    let mut p = PerformanceProfiler::new(s);
    let mut t = 0u64;
    p.time_event_start_at("MAIN", t);
    p.time_event_end_at("MAIN", t + 1);
    for _ in 0..40 {
        t += 1_000;
        p.time_event_start_at("MAIN", t);
        p.time_event_start_at("STEP", t + 1);
        p.time_event_end_at("STEP", t + 2);
        p.time_event_end_at("MAIN", t + 3);
        for entry in p.all_profiles.iter() {
            assert!(entry.profile.average_cash.len() as u32 <= entry.profile.max_stored_cash_amount);
            assert!(entry.profile.timings.len() <= 3);
        }
    }
}

#[test]
fn tick_counters_wrap_at_the_top() {
    let mut p = PerformanceProfiler::new(Settings::default());
    p.ticks_since_start = u32::MAX;
    p.ticks_since_last_dump = u32::MAX;
    p.resolve_profiler_at(false, 1);
    assert_eq!(p.ticks_since_start, 0);
    assert_eq!(p.ticks_since_last_dump, 0);
}

#[test]
fn unknown_name_queries_degrade_to_empty() {
    let p = PerformanceProfiler::new(Settings::default());
    assert!(p.get_profile("MISSING").is_none());
    assert_eq!(p.pull_latest_of("MISSING"), 0);
}

#[test]
fn names_match_by_content_not_identity() {
    let mut p = PerformanceProfiler::new(Settings::default());
    let first: &'static str = Box::leak(String::from("SAME").into_boxed_str());
    let second: &'static str = Box::leak(String::from("SAME").into_boxed_str());
    p.start_time_function_at(first, 0);
    p.start_time_function_at(second, 10);
    assert_eq!(p.all_profiles.len(), 1);
    assert!(p.get_profile("SAME").is_some());
}

#[test]
fn clock_entry_points_run() {
    let mut p = PerformanceProfiler::new(Settings::default());
    p.start_time_function("S");
    p.end_time_function("S").unwrap();
    p.time_event_start("MAIN");
    p.time_event_end("MAIN");
    p.set_constant_reference("REF");
    p.resolve_profiler(false);
    assert!(p.get_profile("S").is_some());
    assert!(p.get_profile("MAIN").is_some());
    assert!(p.get_profile("REF").is_some());
}
