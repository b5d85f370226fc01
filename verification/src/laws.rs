//! Library-wide laws, stated and proved over the ghost transitions that the
//! executable functions are verified against.

use vstd::prelude::*;

use crate::function_profile::{
    new_profile_model, seq_sum, spec_profile_end, spec_profile_resolve, spec_profile_start,
    ProfileModel,
};
use crate::profiler::{
    resolved_profiles, spec_complete_tick, spec_end_time_function, spec_inner_resolve,
    spec_resolve_profiler, spec_set_constant_reference, spec_start_time_function,
    spec_time_event_end, spec_time_event_start, winc, ProfilerModel,
};
use crate::tree::{spec_add_child, spec_set_root, TreeModel};

verus! {

/// The bounds a region's buffers must respect: the cache never outgrows its
/// capacity, the history never outgrows the configured history capacity.
pub open spec fn profile_in_bounds(p: ProfileModel, data_cap: u32) -> bool {
    p.cache.len() <= p.cap && p.timings.len() <= data_cap
}

/// Under any sequence of start, end and resolve calls, a region's cache
/// stays within its capacity and its history within the history capacity
/// the resolves are run with: each single operation preserves the bounds,
/// and a fresh profile satisfies them.
pub proof fn lemma_profile_bounds_preserved(
    p: ProfileModel,
    now: u64,
    cash_cap: u32,
    data_cap: u32,
    cull: bool,
    counter: u32,
)
    requires
        profile_in_bounds(p, data_cap),
    ensures
        profile_in_bounds(spec_profile_start(p, now), data_cap),
        profile_in_bounds(spec_profile_end(p, now), data_cap),
        profile_in_bounds(spec_profile_resolve(p, cash_cap, data_cap, cull, counter), data_cap),
        profile_in_bounds(new_profile_model(now), data_cap),
{
}

/// The same bounds over every region a profiler tracks.
pub open spec fn profiles_in_bounds(m: ProfilerModel, data_cap: u32) -> bool {
    forall|i: int|
        0 <= i < m.profiles.len() ==> profile_in_bounds((#[trigger] m.profiles[i]).1, data_cap)
}

proof fn lemma_timer_fns_keep_bounds(m: ProfilerModel, name: Seq<char>, now: u64)
    requires
        profiles_in_bounds(m, m.settings.stored_data_amount),
    ensures
        profiles_in_bounds(
            spec_start_time_function(m, name, now),
            m.settings.stored_data_amount,
        ),
        profiles_in_bounds(spec_end_time_function(m, name, now), m.settings.stored_data_amount),
        spec_start_time_function(m, name, now).settings == m.settings,
        spec_end_time_function(m, name, now).settings == m.settings,
{
    let data_cap = m.settings.stored_data_amount;
    let ms = spec_start_time_function(m, name, now);
    assert forall|i: int| 0 <= i < ms.profiles.len() implies profile_in_bounds(
        (#[trigger] ms.profiles[i]).1,
        data_cap,
    ) by {
        if i < m.profiles.len() {
            lemma_profile_bounds_preserved(m.profiles[i].1, now, 0u32, data_cap, false, 0u32);
        }
    }
    let me = spec_end_time_function(m, name, now);
    assert forall|i: int| 0 <= i < me.profiles.len() implies profile_in_bounds(
        (#[trigger] me.profiles[i]).1,
        data_cap,
    ) by {
        if i < m.profiles.len() {
            lemma_profile_bounds_preserved(m.profiles[i].1, now, 0u32, data_cap, false, 0u32);
        }
    }
}

proof fn lemma_inner_resolve_keeps_bounds(m: ProfilerModel, queue: bool, now: u64, forced: bool)
    requires
        profiles_in_bounds(m, m.settings.stored_data_amount),
    ensures
        profiles_in_bounds(
            spec_inner_resolve(m, queue, now, forced),
            m.settings.stored_data_amount,
        ),
        spec_inner_resolve(m, queue, now, forced).settings == m.settings,
{
    let data_cap = m.settings.stored_data_amount;
    let mi = spec_inner_resolve(m, queue, now, forced);
    assert forall|i: int| 0 <= i < mi.profiles.len() implies profile_in_bounds(
        (#[trigger] mi.profiles[i]).1,
        data_cap,
    ) by {
        if i < m.profiles.len() {
            lemma_profile_bounds_preserved(
                m.profiles[i].1,
                now,
                m.settings.stored_cash_amount,
                data_cap,
                m.constant_reference == Some(m.profiles[i].0),
                0u32,
            );
        }
    }
}

proof fn lemma_resolve_keeps_bounds(m: ProfilerModel, queue: bool, now: u64)
    requires
        profiles_in_bounds(m, m.settings.stored_data_amount),
    ensures
        profiles_in_bounds(spec_resolve_profiler(m, queue, now), m.settings.stored_data_amount),
        spec_resolve_profiler(m, queue, now).settings == m.settings,
{
    // `spec_resolve_profiler` applies `spec_inner_resolve` at most once,
    // forced on the deactivation flush, with only the engaged flag written
    // besides.
    lemma_inner_resolve_keeps_bounds(m, queue, now, true);
    lemma_inner_resolve_keeps_bounds(m, queue, now, false);
    if m.engaged != m.settings.active && m.settings.active {
        let m2 = ProfilerModel { engaged: m.settings.active, ..m };
        assert(profiles_in_bounds(m2, m2.settings.stored_data_amount));
        lemma_inner_resolve_keeps_bounds(m2, queue, now, false);
    }
}

/// For all regions, under any sequence of event starts, event ends,
/// constant-reference signals and resolves with the history capacity held
/// at `stored_data_amount`: every cache stays within its capacity and every
/// history within that history capacity.
pub proof fn lemma_profiler_bounds_preserved(
    m: ProfilerModel,
    name: Seq<char>,
    queue: bool,
    now: u64,
)
    requires
        profiles_in_bounds(m, m.settings.stored_data_amount),
    ensures
        profiles_in_bounds(
            spec_start_time_function(m, name, now),
            m.settings.stored_data_amount,
        ),
        profiles_in_bounds(spec_end_time_function(m, name, now), m.settings.stored_data_amount),
        profiles_in_bounds(spec_resolve_profiler(m, queue, now), m.settings.stored_data_amount),
        profiles_in_bounds(spec_time_event_start(m, name, now), m.settings.stored_data_amount),
        profiles_in_bounds(spec_time_event_end(m, name, now), m.settings.stored_data_amount),
        profiles_in_bounds(
            spec_set_constant_reference(m, name, now),
            m.settings.stored_data_amount,
        ),
{
    let data_cap = m.settings.stored_data_amount;
    lemma_timer_fns_keep_bounds(m, name, now);
    lemma_resolve_keeps_bounds(m, queue, now);
    // time_event_end: an end, then only tree and marker state changes.
    assert(profiles_in_bounds(spec_time_event_end(m, name, now), data_cap));
    // set_constant_reference: an optional end, then a start.
    if m.constant_reference.is_none() {
        let ma = ProfilerModel { constant_reference: Some(name), ..m };
        lemma_timer_fns_keep_bounds(ma, name, now);
    } else {
        lemma_timer_fns_keep_bounds(spec_end_time_function(m, name, now), name, now);
    }
    // time_event_start: possibly a whole tick completion, then a start.
    match m.outermost_upper {
        None => {
            let ma = ProfilerModel { outermost_upper: Some(name), ..m };
            lemma_timer_fns_keep_bounds(ma, name, now);
        },
        Some(outer) => {
            if outer == name {
                let mc = spec_complete_tick(m, now);
                lemma_resolve_keeps_bounds(m, true, now);
                assert(profiles_in_bounds(mc, data_cap) && mc.settings == m.settings) by {
                    let m1 = spec_resolve_profiler(m, true, now);
                    assert(mc.profiles == m1.profiles);
                }
                lemma_timer_fns_keep_bounds(mc, name, now);
            } else {
                let m1 = if m.building {
                    ProfilerModel {
                        active_tree: spec_add_child(m.active_tree, m.traverser.last(), name),
                        traverser: m.traverser.push(name),
                        ..m
                    }
                } else {
                    m
                };
                lemma_timer_fns_keep_bounds(m1, name, now);
            }
        },
    }
}

/// Deactivation flushes: when the profiler is engaged and the settings
/// have just turned inactive, a resolve call performs one final pass
/// unconditionally — every region's cache is folded into history, tagged
/// with the new tick count, whatever the interval and debounce say — and
/// the profiler then disengages. Pending samples are never lost to a
/// deactivation.
pub proof fn lemma_deactivation_flushes(m: ProfilerModel, queue: bool, now: u64)
    requires
        m.engaged,
        !m.settings.active,
    ensures
        ({
            let m2 = spec_resolve_profiler(m, queue, now);
            &&& !m2.engaged
            &&& m2.profiles == resolved_profiles(
                m.profiles,
                m.settings,
                m.constant_reference,
                winc(m.ticks_since_start),
            )
            &&& m2.last_dump == now
            &&& m2.ticks_since_last_dump == 0
        }),
{
}

/// A dormant profiler — disengaged, with the settings inactive — ignores
/// resolve calls entirely, so the deactivation flush runs exactly once.
pub proof fn lemma_dormant_resolve_is_noop(m: ProfilerModel, queue: bool, now: u64)
    requires
        !m.engaged,
        !m.settings.active,
    ensures
        spec_resolve_profiler(m, queue, now) == m,
{
}

/// A tick whose enclosing region's start name equals its end name, and
/// which triggers a build, always yields an active tree rooted at that
/// name.
pub proof fn lemma_boundary_build_roots_marker(m: ProfilerModel, name: Seq<char>, now: u64)
    requires
        m.outermost_upper == Some(name),
        m.outermost_lower == Some(name),
        m.constant_reference.is_none(),
    ensures
        ({
            let m2 = spec_time_event_start(m, name, now);
            m2.building ==> m2.active_tree.root == Some(name)
        }),
{
    let mc = spec_complete_tick(m, now);
    let m2 = spec_time_event_start(m, name, now);
    assert(m2.building == mc.building && m2.active_tree == mc.active_tree);
}

/// Inner events never change the active tree's root: the root a build
/// begins with is the root the published snapshot carries.
pub proof fn lemma_inner_events_keep_root(m: ProfilerModel, name: Seq<char>, now: u64)
    requires
        m.outermost_upper.is_some(),
        m.outermost_upper != Some(name),
    ensures
        spec_time_event_start(m, name, now).active_tree.root == m.active_tree.root,
        spec_time_event_end(m, name, now).active_tree.root == m.active_tree.root,
{
}

/// With constant reference `r` set: a tick completion that builds yields an
/// active tree rooted at `r`, with the first-seen outer marker as `r`'s
/// immediate child.
pub proof fn lemma_constant_reference_build(m: ProfilerModel, name: Seq<char>, now: u64)
    requires
        m.outermost_upper == Some(name),
        m.constant_reference.is_some(),
    ensures
        ({
            let r = m.constant_reference.unwrap();
            let m2 = spec_time_event_start(m, name, now);
            m2.building ==> {
                &&& m2.active_tree.root == Some(r)
                &&& m2.active_tree.nodes.contains_key(r)
                &&& m2.active_tree.nodes[r].children == seq![name]
                &&& m2.active_tree.nodes.contains_key(name)
                &&& (name != r ==> m2.active_tree.nodes[name].parent == Some(r))
            }
        }),
{
    let r = m.constant_reference.unwrap();
    let mc = spec_complete_tick(m, now);
    let m2 = spec_time_event_start(m, name, now);
    assert(m2.building == mc.building && m2.active_tree == mc.active_tree);
    if mc.building {
        let rooted = spec_set_root(crate::tree::empty_tree_model(), r);
        let built = spec_add_child(rooted, r, name);
        assert(mc.active_tree == built);
        assert(built.nodes[r].children =~= seq![name]);
    }
}

/// Round trip: a region started at `t` and ended at `t + d`, resolved with
/// an otherwise empty cache, yields a new history point holding exactly the
/// averaged duration `d`.
pub proof fn lemma_round_trip(
    p: ProfileModel,
    t: u64,
    d: u64,
    cash_cap: u32,
    data_cap: u32,
    counter: u32,
)
    requires
        p.cache.len() == 0,
        p.cap >= 1,
        t + d <= u64::MAX,
        data_cap >= 1,
    ensures
        ({
            let resolved = spec_profile_resolve(
                spec_profile_end(spec_profile_start(p, t), (t + d) as u64),
                cash_cap,
                data_cap,
                false,
                counter,
            );
            resolved.timings.len() >= 1 && resolved.timings.last() == (counter, d)
        }),
{
    let started = spec_profile_start(p, t);
    let ended = spec_profile_end(started, (t + d) as u64);
    assert(ended.cache =~= seq![d]);
    assert(seq_sum(seq![d]) == d) by {
        assert(seq![d].drop_last() =~= Seq::<u64>::empty());
        assert(seq_sum(Seq::<u64>::empty()) == 0);
        assert(seq![d].last() == d);
    }
    let pushed = ended.timings.push((counter, d));
    assert(pushed.last() == (counter, d));
}

/// Idempotence: marking the same name as root twice is the same as marking
/// it once; the node is never duplicated.
pub proof fn lemma_set_root_idempotent(t: TreeModel, name: Seq<char>)
    ensures
        spec_set_root(spec_set_root(t, name), name) == spec_set_root(t, name),
{
    assert(spec_set_root(spec_set_root(t, name), name) =~~= spec_set_root(t, name));
}

} // verus!
