//! The pure layout transform: depth-ordered rows of width-proportional
//! segments, and their normalization.

use triglyceride::{GenericTreeBarThing, LoneBar, PerformanceProfiler, Settings};

fn bar(name: &'static str, time: u64, start: u64, span: u64) -> LoneBar {
    LoneBar { name, time, start, span }
}

#[test]
fn push_creates_missing_rows() {
    let mut g = GenericTreeBarThing::new();
    g.push(2, bar("DEEP", 7, 0, 7));
    assert_eq!(g.layers.len(), 3);
    assert!(g.layers[0].is_empty());
    assert!(g.layers[1].is_empty());
    assert_eq!(g.layers[2].len(), 1);
    assert_eq!(g.layers[2][0].name, "DEEP");
    g.push(0, bar("TOP", 3, 0, 3));
    assert_eq!(g.layers.len(), 3);
    assert_eq!(g.layers[0].len(), 1);
}

fn profiler_with_layout() -> PerformanceProfiler {
    let mut p = PerformanceProfiler::new(Settings::default());
    p.settings.smoothing_amount = 1;
    p.start_time_function_at("MAIN", 0);
    p.end_time_function_at("MAIN", 3_000).unwrap();
    p.start_time_function_at("STEP", 0);
    p.end_time_function_at("STEP", 1_000).unwrap();
    p.start_time_function_at("DRAW", 0);
    p.end_time_function_at("DRAW", 500).unwrap();
    for k in 1..=4u64 {
        p.resolve_profiler_at(false, 600_000 + k);
    }
    p.latest_tree.set_root("MAIN");
    p.latest_tree.add_child("MAIN", "STEP");
    p.latest_tree.add_child("MAIN", "DRAW");
    p
}

#[test]
fn layout_positions_are_width_proportional() {
    let p = profiler_with_layout();
    let bars = p.generate_generic_tree_bars("MAIN");
    assert_eq!(bars.layers.len(), 2);
    assert_eq!(bars.layers[0].len(), 1);
    let root = bars.layers[0][0];
    assert_eq!(root.name, "MAIN");
    assert_eq!((root.start, root.span, root.time), (0, 3_000, 3_000));
    assert_eq!(bars.layers[1].len(), 2);
    let step = bars.layers[1][0];
    assert_eq!(step.name, "STEP");
    assert_eq!((step.start, step.span), (0, 1_000));
    let draw = bars.layers[1][1];
    assert_eq!(draw.name, "DRAW");
    // The second child starts where the first one's duration ended.
    assert_eq!((draw.start, draw.span), (1_000, 500));
}

#[test]
fn normalize_scales_to_the_root_duration() {
    let p = profiler_with_layout();
    let mut bars = p.generate_generic_tree_bars("MAIN");
    assert!(bars.normalize().is_some());
    let root = bars.layers[0][0];
    assert_eq!((root.start, root.span), (0, 1_000_000));
    assert_eq!(root.time, 3_000, "raw durations stay");
    let step = bars.layers[1][0];
    assert_eq!((step.start, step.span), (0, 333_333));
    let draw = bars.layers[1][1];
    assert_eq!((draw.start, draw.span), (333_333, 166_666));
}

#[test]
fn normalize_refuses_without_single_nonzero_reference() {
    let mut empty = GenericTreeBarThing::new();
    assert!(empty.normalize().is_none());

    let mut two_roots = GenericTreeBarThing::new();
    two_roots.push(0, bar("X", 10, 0, 10));
    two_roots.push(0, bar("Y", 10, 10, 10));
    assert!(two_roots.normalize().is_none());
    // Refused normalizations leave the bars untouched.
    assert_eq!(two_roots.layers[0][1].start, 10);

    let mut zero = GenericTreeBarThing::new();
    zero.push(0, bar("X", 0, 0, 0));
    assert!(zero.normalize().is_none());
}

#[test]
fn normalize_saturates_huge_positions() {
    let mut g = GenericTreeBarThing::new();
    g.push(0, bar("R", 1, 0, 1));
    g.push(1, bar("C", 5, u64::MAX, u64::MAX));
    assert!(g.normalize().is_some());
    assert_eq!(g.layers[0][0].span, 1_000_000);
    assert_eq!(g.layers[1][0].start, u64::MAX);
    assert_eq!(g.layers[1][0].span, u64::MAX);
    assert_eq!(g.layers[1][0].time, 5);
}

#[test]
fn layout_ready_guards_the_walk() {
    let p = profiler_with_layout();
    assert!(p.layout_ready("MAIN"));
    assert!(!p.layout_ready("MISSING"));
    let mut q = PerformanceProfiler::new(Settings::default());
    q.latest_tree.set_root("ORPHAN"); // a tree node no profile tracks
    assert!(!q.layout_ready("ORPHAN"));
}

#[test]
fn pull_data_smooths_recent_history() {
    let mut p = PerformanceProfiler::new(Settings::default());
    p.start_time_function_at("F", 0);
    p.all_profiles[0].profile.timings = vec![(1, 10), (2, 20), (3, 30), (4, 40)];
    p.settings.smoothing_amount = 3;
    assert_eq!(p.pull_data("F"), 30, "mean of the last three");
    p.settings.smoothing_amount = 10;
    assert_eq!(p.pull_data("F"), 25, "fewer points than the smoothing window");
    p.settings.smoothing_amount = 1;
    assert_eq!(p.pull_data("F"), 40, "no smoothing: the latest value");
    p.settings.smoothing_amount = 5;
    p.all_profiles[0].profile.timings = vec![];
    assert_eq!(p.pull_data("F"), 0, "no history degrades to zero");
}

#[test]
fn layout_terminates_on_cyclic_namings() {
    // A recursive naming pattern can wire a cycle into the snapshot; the
    // walk still terminates, bounded by one depth unit per node.
    let mut p = PerformanceProfiler::new(Settings::default());
    p.start_time_function_at("A", 0);
    p.start_time_function_at("B", 0);
    p.latest_tree.add_child("A", "B");
    p.latest_tree.add_child("B", "A");
    p.latest_tree.set_root("A");
    let bars = p.generate_generic_tree_bars("A");
    assert!(bars.layers.len() <= 3);
}
