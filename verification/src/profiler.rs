//! The orchestrator: region bookkeeping, loop-boundary inference, the
//! periodic resolve cycle, and call-tree snapshot publication.
//!
//! Every mutating entry point exists twice: a `*_at` form taking an explicit
//! monotonic timestamp in microseconds, with an exact contract, and a form
//! of the same name without the suffix that reads the profiler's own clock
//! and promises the same transition for some timestamp.

use vstd::prelude::*;

use crate::clock::{instant_now, micros_since};
use crate::function_profile::{
    new_profile_model, spec_profile_end, spec_profile_resolve, spec_profile_start,
    FunctionProfile, ProfileModel,
};
use crate::str_eq;
use crate::tree::{
    empty_tree_model, spec_add_child, spec_set_root, Tree, TreeModel,
};
use crate::StatString;

verus! {

/// Mutable configuration record; changes apply at the next resolve.
#[derive(Clone, Copy, Debug, PartialEq, Eq, Structural)]
pub struct Settings {
    /// Master switch; turning it off forces one final flushing resolve.
    pub active: bool,
    /// History capacity per region (`FunctionProfile::timings`).
    pub stored_data_amount: u32,
    /// Cache capacity per region (`FunctionProfile::average_cash`).
    pub stored_cash_amount: u32,
    /// Minimum wall-clock gap between two resolves, in microseconds.
    pub update_interval_micros: u64,
    /// How many recent history points the tree views average over.
    pub smoothing_amount: u32,
}

impl Default for Settings {
    /// Profiling on; 50 history points; 20 cached samples; a resolve every
    /// half second; smoothing over 5 points.
    fn default() -> (s: Settings)
        ensures
            s == (Settings {
                active: true,
                stored_data_amount: 50u32,
                stored_cash_amount: 20u32,
                update_interval_micros: 500000u64,
                smoothing_amount: 5u32,
            }),
    {
        Settings {
            active: true,
            stored_data_amount: 50,
            stored_cash_amount: 20,
            update_interval_micros: 500000,
            smoothing_amount: 5,
        }
    }
}

/// One tracked region: its name and its rolling statistics.
#[derive(Debug)]
pub struct ProfileEntry {
    pub name: StatString,
    pub profile: FunctionProfile,
}

/// Ghost image of the whole profiler.
#[verifier::ext_equal]
pub struct ProfilerModel {
    /// Tracked regions in creation order: `(name, profile)`.
    pub profiles: Seq<(Seq<char>, ProfileModel)>,
    /// Configuration as last written.
    pub settings: Settings,
    /// Last complete call-tree snapshot, exposed to readers.
    pub latest_tree: TreeModel,
    /// The snapshot being built this cycle.
    pub active_tree: TreeModel,
    /// A build was decided at the last resolve and waits for the next
    /// loop boundary.
    pub queued: bool,
    /// A build is in progress. Once set it stays set: each later boundary
    /// publishes the tick just built and starts the next, so readers
    /// always see the freshest fully-formed snapshot. The queue delays
    /// only the first build past the resolve that decided it — a tick's
    /// structure cannot be captured before the tick starts, and that
    /// delay is what keeps a half-built tree from ever reaching readers.
    pub building: bool,
    /// Whether the profiler is currently applying events; trails
    /// `settings.active` by one resolve.
    pub engaged: bool,
    /// Timestamp of the last resolve, microseconds.
    pub last_dump: u64,
    /// LIFO traversal stack of the in-progress build.
    pub traverser: Seq<Seq<char>>,
    /// Resolve calls since construction; tags history points.
    pub ticks_since_start: u32,
    /// Resolve calls since the last resolve fired (debounce).
    pub ticks_since_last_dump: u32,
    /// User-declared synthetic root, if any.
    pub constant_reference: Option<Seq<char>>,
    /// First name ever observed: the implicit loop-boundary marker.
    pub outermost_upper: Option<Seq<char>>,
    /// Name of the last end event.
    pub outermost_lower: Option<Seq<char>>,
}

/// Whether some tracked region is named `name`.
pub open spec fn has_profile(ps: Seq<(Seq<char>, ProfileModel)>, name: Seq<char>) -> bool {
    exists|i: int| 0 <= i < ps.len() && ps[i].0 == name
}

/// Index of the region named `name`; the index under `unique_profiles`.
pub open spec fn profile_idx(ps: Seq<(Seq<char>, ProfileModel)>, name: Seq<char>) -> int {
    choose|i: int| 0 <= i < ps.len() && ps[i].0 == name
}

/// The profile of the region named `name`.
pub open spec fn profile_of(ps: Seq<(Seq<char>, ProfileModel)>, name: Seq<char>) -> ProfileModel {
    ps[profile_idx(ps, name)].1
}

/// Region names are pairwise distinct: at most one profile per name.
pub open spec fn unique_profiles(ps: Seq<(Seq<char>, ProfileModel)>) -> bool {
    forall|i: int, j: int| 0 <= i < j < ps.len() ==> ps[i].0 != ps[j].0
}

proof fn lemma_profile_idx(ps: Seq<(Seq<char>, ProfileModel)>, name: Seq<char>, i: int)
    requires
        unique_profiles(ps),
        0 <= i < ps.len(),
        ps[i].0 == name,
    ensures
        has_profile(ps, name),
        profile_idx(ps, name) == i,
        profile_of(ps, name) == ps[i].1,
{
    assert(has_profile(ps, name));
    let j = profile_idx(ps, name);
    if j != i {
        assert(ps[i].0 == ps[j].0);
    }
}

/// `u32` increment that wraps at the top, as the tick counters do.
pub open spec fn winc(x: u32) -> u32 {
    if x == u32::MAX {
        0u32
    } else {
        (x + 1) as u32
    }
}

/// Monotonic time elapsed from `last` to `now`, clamped at zero.
pub open spec fn elapsed_since(last: u64, now: u64) -> u64 {
    if now >= last {
        (now - last) as u64
    } else {
        0u64
    }
}

/// Whether a resolve reached at `now` fires: the configured interval has
/// passed and more than 3 ticks have elapsed since the last one (debounce).
pub open spec fn spec_fires(m: ProfilerModel, now: u64) -> bool {
    elapsed_since(m.last_dump, now) > m.settings.update_interval_micros && winc(
        m.ticks_since_last_dump,
    ) > 3
}

/// `start_time_function` on the ghost image: while engaged, arm the named
/// region's timer at `now`, creating the profile on first reference.
pub open spec fn spec_start_time_function(
    m: ProfilerModel,
    name: Seq<char>,
    now: u64,
) -> ProfilerModel {
    if !m.engaged {
        m
    } else if has_profile(m.profiles, name) {
        let i = profile_idx(m.profiles, name);
        ProfilerModel {
            profiles: m.profiles.update(i, (name, spec_profile_start(m.profiles[i].1, now))),
            ..m
        }
    } else {
        ProfilerModel { profiles: m.profiles.push((name, new_profile_model(now))), ..m }
    }
}

/// `end_time_function` on the ghost image: while engaged, cache the named
/// region's elapsed duration. A name never started is not an error: it is
/// lazily created and treated as an implicit zero-duration sample — a
/// fresh profile ended at its own creation instant.
pub open spec fn spec_end_time_function(
    m: ProfilerModel,
    name: Seq<char>,
    now: u64,
) -> ProfilerModel {
    if !m.engaged {
        m
    } else if has_profile(m.profiles, name) {
        let i = profile_idx(m.profiles, name);
        ProfilerModel {
            profiles: m.profiles.update(i, (name, spec_profile_end(m.profiles[i].1, now))),
            ..m
        }
    } else {
        ProfilerModel {
            profiles: m.profiles.push(
                (name, spec_profile_end(new_profile_model(now), now)),
            ),
            ..m
        }
    }
}

/// Every profile resolved with the configured capacities, tagged `counter`;
/// only the constant reference is asked to drop its oldest sample.
pub open spec fn resolved_profiles(
    ps: Seq<(Seq<char>, ProfileModel)>,
    settings: Settings,
    constant_reference: Option<Seq<char>>,
    counter: u32,
) -> Seq<(Seq<char>, ProfileModel)> {
    Seq::new(
        ps.len(),
        |i: int|
            (
                ps[i].0,
                spec_profile_resolve(
                    ps[i].1,
                    settings.stored_cash_amount,
                    settings.stored_data_amount,
                    constant_reference == Some(ps[i].0),
                    counter,
                ),
            ),
    )
}

/// `inner_resolve` on the ghost image: count the tick; when the resolve
/// fires — or unconditionally on the forced deactivation flush (`forced`) —
/// fold every cache into history, remember `queue_tree` as the build
/// decision for the next loop boundary, and restart the debounce window.
pub open spec fn spec_inner_resolve(
    m: ProfilerModel,
    queue_tree: bool,
    now: u64,
    forced: bool,
) -> ProfilerModel {
    let m1 = ProfilerModel {
        ticks_since_start: winc(m.ticks_since_start),
        ticks_since_last_dump: winc(m.ticks_since_last_dump),
        ..m
    };
    if forced || spec_fires(m, now) {
        ProfilerModel {
            ticks_since_last_dump: 0u32,
            last_dump: now,
            profiles: resolved_profiles(
                m1.profiles,
                m1.settings,
                m1.constant_reference,
                m1.ticks_since_start,
            ),
            queued: queue_tree,
            ..m1
        }
    } else {
        m1
    }
}

/// `resolve_profiler` on the ghost image: an active-to-inactive settings
/// transition forces one final flushing pass, unconditionally — pending
/// samples are folded into history, not lost, whatever the interval and
/// debounce say. Otherwise passes run only while engaged and gated by
/// `spec_fires`, and the engaged flag catches up with `settings.active`.
pub open spec fn spec_resolve_profiler(
    m: ProfilerModel,
    queue_tree: bool,
    now: u64,
) -> ProfilerModel {
    if m.engaged != m.settings.active {
        let m1 = if !m.settings.active {
            spec_inner_resolve(m, queue_tree, now, true)
        } else {
            m
        };
        let m2 = ProfilerModel { engaged: m.settings.active, ..m1 };
        if m2.engaged {
            spec_inner_resolve(m2, queue_tree, now, false)
        } else {
            m2
        }
    } else if m.engaged {
        spec_inner_resolve(m, queue_tree, now, false)
    } else {
        m
    }
}

/// A boundary recurrence demands that the previous tick closed cleanly:
/// some end event has been seen, and without a constant reference the last
/// end must match the outer marker (the enclosing region closed). A
/// mismatch is a fatal configuration error in this design — the recorded
/// tree would be meaningless — so those inputs are excluded rather than
/// guessed at.
pub open spec fn boundary_closed(m: ProfilerModel) -> bool {
    &&& m.outermost_lower.is_some()
    &&& (m.constant_reference.is_none() ==> m.outermost_lower == m.outermost_upper)
}

/// Tick completion on the ghost image: run the resolve cycle with a build
/// request; if a build is queued, enter the building state; while building,
/// publish the active tree as the latest snapshot and root a fresh active
/// tree — at the outer marker itself, or at the constant reference with the
/// outer marker as its first child. The building state persists once
/// entered: rebuilding every tick keeps the published snapshot one tick
/// fresh, and the snapshot swap stays atomic — a reader never sees a
/// half-built tree.
pub open spec fn spec_complete_tick(m: ProfilerModel, now: u64) -> ProfilerModel
    recommends
        m.outermost_upper.is_some(),
        boundary_closed(m),
{
    let m1 = spec_resolve_profiler(m, true, now);
    let m2 = if m1.queued {
        ProfilerModel { building: true, queued: false, ..m1 }
    } else {
        m1
    };
    let upper = m.outermost_upper.unwrap();
    match m.constant_reference {
        None => if m2.building {
            ProfilerModel {
                latest_tree: m2.active_tree,
                active_tree: spec_set_root(empty_tree_model(), upper),
                traverser: seq![upper],
                ..m2
            }
        } else {
            m2
        },
        Some(r) => if m2.building {
            ProfilerModel {
                latest_tree: m2.active_tree,
                active_tree: spec_add_child(spec_set_root(empty_tree_model(), r), r, upper),
                traverser: seq![r, upper],
                ..m2
            }
        } else {
            m2
        },
    }
}

/// `time_event_start` on the ghost image: the first name ever seen becomes
/// the loop-boundary marker; its recurrence completes the tick; any other
/// name, while building, is attached under the traversal-stack top and
/// pushed. In every case the region's own timer then starts.
pub open spec fn spec_time_event_start(m: ProfilerModel, name: Seq<char>, now: u64) -> ProfilerModel {
    match m.outermost_upper {
        None => spec_start_time_function(
            ProfilerModel { outermost_upper: Some(name), ..m },
            name,
            now,
        ),
        Some(outer) => {
            if outer == name {
                spec_start_time_function(spec_complete_tick(m, now), name, now)
            } else {
                let m1 = if m.building {
                    ProfilerModel {
                        active_tree: spec_add_child(m.active_tree, m.traverser.last(), name),
                        traverser: m.traverser.push(name),
                        ..m
                    }
                } else {
                    m
                };
                spec_start_time_function(m1, name, now)
            }
        },
    }
}

/// The inputs `time_event_start` accepts: a boundary recurrence needs the
/// previous tick closed cleanly; an inner start while building needs a
/// non-empty traversal stack. The rest are caller errors with no
/// meaningful tree to record, and are excluded.
pub open spec fn start_event_allowed(m: ProfilerModel, name: Seq<char>) -> bool {
    match m.outermost_upper {
        None => true,
        Some(outer) => if outer == name {
            boundary_closed(m)
        } else {
            m.building ==> m.traverser.len() >= 1
        },
    }
}

/// `time_event_end` on the ghost image: end the region's timer, record the
/// name as the last end event, and, while building, pop the traversal stack.
pub open spec fn spec_time_event_end(m: ProfilerModel, name: Seq<char>, now: u64) -> ProfilerModel {
    let m1 = spec_end_time_function(m, name, now);
    let m2 = ProfilerModel { outermost_lower: Some(name), ..m1 };
    if m2.building && m2.traverser.len() > 0 {
        ProfilerModel { traverser: m2.traverser.drop_last(), ..m2 }
    } else {
        m2
    }
}

/// `set_constant_reference` on the ghost image: the first call declares the
/// synthetic root and starts timing it; every later call ends the previous
/// tick's timing of `name` before starting the next.
pub open spec fn spec_set_constant_reference(
    m: ProfilerModel,
    name: Seq<char>,
    now: u64,
) -> ProfilerModel {
    if m.constant_reference.is_none() {
        spec_start_time_function(
            ProfilerModel { constant_reference: Some(name), ..m },
            name,
            now,
        )
    } else {
        spec_start_time_function(spec_end_time_function(m, name, now), name, now)
    }
}

/// The ghost image of a freshly constructed profiler.
pub open spec fn initial_model(settings: Settings) -> ProfilerModel {
    ProfilerModel {
        profiles: Seq::empty(),
        settings,
        latest_tree: empty_tree_model(),
        active_tree: empty_tree_model(),
        queued: false,
        building: false,
        engaged: true,
        last_dump: 0u64,
        traverser: Seq::empty(),
        ticks_since_start: 0u32,
        ticks_since_last_dump: 0u32,
        constant_reference: None,
        outermost_upper: None,
        outermost_lower: None,
    }
}

/// All the collected data: the name-to-profile mapping, a double-buffered
/// call tree, loop-boundary state, and the resolve cycle's counters.
#[derive(Debug)]
pub struct PerformanceProfiler {
    /// All timed regions, one entry per name, in creation order.
    pub all_profiles: Vec<ProfileEntry>,
    /// Profiler settings.
    pub settings: Settings,
    /// Latest complete call-tree snapshot.
    pub latest_tree: Tree,
    /// A tree build was decided and waits for the next loop boundary.
    pub queue_processes_tree: bool,
    /// Whether events are currently applied; trails `settings.active` by
    /// one resolve.
    pub is_actually_active_or_not: bool,
    /// Clock origin every timestamp is measured from.
    pub origin: instant::Instant,
    /// Timestamp of the last resolve, microseconds since `origin`.
    pub last_dump: u64,
    /// A tree build is in progress; once set it stays set, every later
    /// loop boundary publishing the just-built snapshot and starting the
    /// next (see `ProfilerModel::building`).
    pub processioning_tree: bool,
    /// The snapshot being built this cycle.
    pub active_tree: Tree,
    /// LIFO traversal stack of the in-progress build.
    pub traverser: Vec<StatString>,
    /// Resolve calls since construction; tags history points.
    pub ticks_since_start: u32,
    /// Resolve calls since the last resolve fired.
    pub ticks_since_last_dump: u32,
    /// User-declared synthetic root, if any.
    pub inner_constant_reference: Option<StatString>,
    /// First start event ever seen: the loop-boundary marker.
    pub outermost_upper: Option<StatString>,
    /// Last end event.
    pub outermost_lower: Option<StatString>,
}

/// View of an optional name.
pub open spec fn opt_view(o: Option<StatString>) -> Option<Seq<char>> {
    match o {
        Some(n) => Some(n@),
        None => None,
    }
}

impl View for PerformanceProfiler {
    type V = ProfilerModel;

    open spec fn view(&self) -> ProfilerModel {
        ProfilerModel {
            profiles: self.all_profiles@.map_values(|e: ProfileEntry| (e.name@, e.profile@)),
            settings: self.settings,
            latest_tree: self.latest_tree@,
            active_tree: self.active_tree@,
            queued: self.queue_processes_tree,
            building: self.processioning_tree,
            engaged: self.is_actually_active_or_not,
            last_dump: self.last_dump,
            traverser: self.traverser@.map_values(|s: StatString| s@),
            ticks_since_start: self.ticks_since_start,
            ticks_since_last_dump: self.ticks_since_last_dump,
            constant_reference: opt_view(self.inner_constant_reference),
            outermost_upper: opt_view(self.outermost_upper),
            outermost_lower: opt_view(self.outermost_lower),
        }
    }
}

impl PerformanceProfiler {
    /// Well-formed: at most one profile per name, every cache within its
    /// capacity, both trees well-formed.
    pub open spec fn wf(&self) -> bool {
        &&& unique_profiles(self@.profiles)
        &&& forall|i: int|
            0 <= i < self.all_profiles@.len() ==> (#[trigger] self.all_profiles@[i]).profile.inv()
        &&& self.latest_tree.wf()
        &&& self.active_tree.wf()
    }

    /// A fresh profiler: no profiles, empty trees, engaged, counters at
    /// zero, clock origin taken now.
    pub fn new(settings: Settings) -> (p: PerformanceProfiler)
        ensures
            p.wf(),
            p@ == initial_model(settings),
    {
        let p = PerformanceProfiler {
            all_profiles: Vec::new(),
            settings,
            is_actually_active_or_not: true,
            latest_tree: Tree::new(),
            last_dump: 0,
            queue_processes_tree: false,
            processioning_tree: false,
            active_tree: Tree::new(),
            traverser: Vec::new(),
            ticks_since_start: 0,
            ticks_since_last_dump: 0,
            inner_constant_reference: None,
            outermost_upper: None,
            outermost_lower: None,
            origin: instant_now(),
        };
        proof {
            assert(p@ =~~= initial_model(settings));
        }
        p
    }

    /// Index of the profile named `name`, if present.
    fn find_profile(&self, name: StatString) -> (r: Option<usize>)
        ensures
            match r {
                Some(i) => i < self.all_profiles@.len() && self.all_profiles@[
                    i as int
                ].name@ == name@,
                None => !has_profile(self@.profiles, name@),
            },
    {
        let n = self.all_profiles.len();
        for i in 0..n
            invariant
                n == self.all_profiles@.len(),
                forall|j: int| 0 <= j < i ==> self.all_profiles@[j].name@ != name@,
        {
            if str_eq(self.all_profiles[i].name, name) {
                return Some(i);
            }
        }
        proof {
            assert forall|i: int| 0 <= i < self@.profiles.len() implies self@.profiles[i].0
                != name@ by {
                assert(self@.profiles[i].0 == self.all_profiles@[i].name@);
            }
        }
        None
    }

    /// Starts the named region's timer, use the event-loop variant for a
    /// function tree. While disengaged this is a no-op; the profile is
    /// created on first reference.
    pub fn start_time_function_at(&mut self, name: StatString, now_micros: u64)
        requires
            old(self).wf(),
        ensures
            final(self).wf(),
            final(self)@ == spec_start_time_function(old(self)@, name@, now_micros),
    {
        if !self.is_actually_active_or_not {
            return ;
        }
        match self.find_profile(name) {
            Some(i) => {
                let mut entry = ProfileEntry { name, profile: FunctionProfile::new(now_micros) };
                self.all_profiles.set_and_swap(i, &mut entry);
                entry.profile.start(now_micros);
                self.all_profiles.set(i, entry);
                proof {
                    lemma_profile_idx(old(self)@.profiles, name@, i as int);
                    assert(self.all_profiles@ =~= old(self).all_profiles@.update(
                        i as int,
                        entry,
                    ));
                    assert(self@.profiles =~= old(self)@.profiles.update(
                        i as int,
                        (name@, spec_profile_start(old(self)@.profiles[i as int].1, now_micros)),
                    ));
                    assert(self@ =~~= spec_start_time_function(old(self)@, name@, now_micros));
                }
            },
            None => {
                self.all_profiles.push(
                    ProfileEntry { name, profile: FunctionProfile::new(now_micros) },
                );
                proof {
                    assert(self@.profiles =~= old(self)@.profiles.push(
                        (name@, new_profile_model(now_micros)),
                    ));
                    assert(self@ =~~= spec_start_time_function(old(self)@, name@, now_micros));
                    assert(unique_profiles(self@.profiles)) by {
                        assert(forall|j: int|
                            0 <= j < old(self)@.profiles.len() ==> old(self)@.profiles[j].0
                                != name@);
                    }
                }
            },
        }
    }

    /// Ends the named region's timer, use the event-loop variant for a
    /// function tree. A name never started is not an error: it is lazily
    /// created with an implicit zero-duration sample. Always succeeds.
    pub fn end_time_function_at(&mut self, name: StatString, now_micros: u64) -> (r: Result<
        (),
        (),
    >)
        requires
            old(self).wf(),
        ensures
            final(self).wf(),
            final(self)@ == spec_end_time_function(old(self)@, name@, now_micros),
            r.is_ok(),
    {
        if !self.is_actually_active_or_not {
            return Ok(());
        }
        match self.find_profile(name) {
            Some(i) => {
                let mut entry = ProfileEntry { name, profile: FunctionProfile::new(now_micros) };
                self.all_profiles.set_and_swap(i, &mut entry);
                entry.profile.end(now_micros);
                self.all_profiles.set(i, entry);
                proof {
                    lemma_profile_idx(old(self)@.profiles, name@, i as int);
                    assert(self.all_profiles@ =~= old(self).all_profiles@.update(
                        i as int,
                        entry,
                    ));
                    assert(self@.profiles =~= old(self)@.profiles.update(
                        i as int,
                        (name@, spec_profile_end(old(self)@.profiles[i as int].1, now_micros)),
                    ));
                    assert(self@ =~~= spec_end_time_function(old(self)@, name@, now_micros));
                }
            },
            None => {
                let mut profile = FunctionProfile::new(now_micros);
                profile.end(now_micros);
                let ghost pm = profile@;
                self.all_profiles.push(ProfileEntry { name, profile });
                proof {
                    assert(pm == spec_profile_end(new_profile_model(now_micros), now_micros));
                    assert(self@.profiles =~= old(self)@.profiles.push(
                        (name@, spec_profile_end(new_profile_model(now_micros), now_micros)),
                    ));
                    assert(self@ =~~= spec_end_time_function(old(self)@, name@, now_micros));
                    assert(unique_profiles(self@.profiles)) by {
                        assert(forall|j: int|
                            0 <= j < old(self)@.profiles.len() ==> old(self)@.profiles[j].0
                                != name@);
                    }
                }
            },
        }
        Ok(())
    }

    /// Count the tick; when the resolve fires — or unconditionally on the
    /// forced deactivation flush — fold every region's cache into its
    /// history, record `queue_tree` as the build decision for the next loop
    /// boundary, and restart the debounce window (see `spec_inner_resolve`).
    fn inner_resolve(&mut self, queue_tree: bool, now_micros: u64, forced: bool)
        requires
            old(self).wf(),
        ensures
            final(self).wf(),
            final(self)@ == spec_inner_resolve(old(self)@, queue_tree, now_micros, forced),
    {
        self.ticks_since_start = if self.ticks_since_start == u32::MAX {
            0
        } else {
            self.ticks_since_start + 1
        };
        self.ticks_since_last_dump = if self.ticks_since_last_dump == u32::MAX {
            0
        } else {
            self.ticks_since_last_dump + 1
        };
        let elapsed: u64 = if now_micros >= self.last_dump {
            now_micros - self.last_dump
        } else {
            0
        };
        if forced || (elapsed > self.settings.update_interval_micros && self.ticks_since_last_dump
            > 3) {
            proof {
                assert(forced || spec_fires(old(self)@, now_micros));
            }
            self.ticks_since_last_dump = 0;
            self.last_dump = now_micros;
            let counter = self.ticks_since_start;
            let n = self.all_profiles.len();
            for i in 0..n
                invariant
                    old(self).wf(),
                    forced || spec_fires(old(self)@, now_micros),
                    n == self.all_profiles@.len(),
                    n == old(self).all_profiles@.len(),
                    counter == winc(old(self).ticks_since_start),
                    self.settings == old(self).settings,
                    self.latest_tree == old(self).latest_tree,
                    self.active_tree == old(self).active_tree,
                    self.queue_processes_tree == old(self).queue_processes_tree,
                    self.processioning_tree == old(self).processioning_tree,
                    self.is_actually_active_or_not == old(self).is_actually_active_or_not,
                    self.last_dump == now_micros,
                    self.traverser == old(self).traverser,
                    self.ticks_since_start == winc(old(self).ticks_since_start),
                    self.ticks_since_last_dump == 0u32,
                    self.inner_constant_reference == old(self).inner_constant_reference,
                    self.outermost_upper == old(self).outermost_upper,
                    self.outermost_lower == old(self).outermost_lower,
                    forall|j: int|
                        i <= j < n ==> self.all_profiles@[j] == old(self).all_profiles@[j],
                    forall|j: int|
                        0 <= j < i ==> (#[trigger] self.all_profiles@[j]).name == old(
                            self,
                        ).all_profiles@[j].name,
                    forall|j: int|
                        0 <= j < i ==> (#[trigger] self.all_profiles@[j]).profile@
                            == spec_profile_resolve(
                            old(self).all_profiles@[j].profile@,
                            old(self).settings.stored_cash_amount,
                            old(self).settings.stored_data_amount,
                            opt_view(old(self).inner_constant_reference) == Some(
                                old(self).all_profiles@[j].name@,
                            ),
                            winc(old(self).ticks_since_start),
                        ),
                    forall|j: int|
                        0 <= j < i ==> (#[trigger] self.all_profiles@[j]).profile.inv(),
            {
                let cull = match self.inner_constant_reference {
                    None => false,
                    Some(r) => str_eq(self.all_profiles[i].name, r),
                };
                let mut entry = ProfileEntry { name: "", profile: FunctionProfile::new(0) };
                self.all_profiles.set_and_swap(i, &mut entry);
                proof {
                    assert(entry == old(self).all_profiles@[i as int]);
                    assert(entry.profile.inv());
                }
                entry.profile.resolve(
                    self.settings.stored_cash_amount,
                    self.settings.stored_data_amount,
                    cull,
                    counter,
                );
                self.all_profiles.set(i, entry);
            }
            self.queue_processes_tree = queue_tree;
            proof {
                assert(self@.profiles =~= resolved_profiles(
                    old(self)@.profiles,
                    old(self)@.settings,
                    old(self)@.constant_reference,
                    winc(old(self)@.ticks_since_start),
                ));
            }
        }
        proof {
            assert(self@ =~~= spec_inner_resolve(old(self)@, queue_tree, now_micros, forced));
        }
    }

    /// Tick completion: resolve with a build request, then, if a build is
    /// due, publish the active tree and root a fresh one (see
    /// `spec_complete_tick`).
    fn at_outermost_upper(&mut self, now_micros: u64)
        requires
            old(self).wf(),
            old(self)@.outermost_upper.is_some(),
            boundary_closed(old(self)@),
        ensures
            final(self).wf(),
            final(self)@ == spec_complete_tick(old(self)@, now_micros),
    {
        self.resolve_profiler_at(true, now_micros);
        if self.queue_processes_tree {
            self.processioning_tree = true;
            self.queue_processes_tree = false;
        }
        let upper = self.outermost_upper.unwrap();
        match self.inner_constant_reference {
            None => {
                // The previous tick closed cleanly (`boundary_closed`): a
                // mismatch would make the recorded tree meaningless, and
                // this design refuses to guess a correction.
                if self.processioning_tree {
                    core::mem::swap(&mut self.latest_tree, &mut self.active_tree);
                    self.active_tree.clear();
                    self.traverser.clear();
                    self.active_tree.set_root(upper);
                    self.traverser.push(upper);
                    proof {
                        assert(self.traverser@.map_values(|s: StatString| s@) =~= seq![upper@]);
                    }
                }
            },
            Some(reference) => {
                if self.processioning_tree {
                    core::mem::swap(&mut self.latest_tree, &mut self.active_tree);
                    self.active_tree.clear();
                    self.traverser.clear();
                    self.active_tree.set_root(reference);
                    self.traverser.push(reference);
                    // The stack top is the reference just pushed; the outer
                    // marker becomes its first child.
                    self.active_tree.add_child(reference, upper);
                    self.traverser.push(upper);
                    proof {
                        assert(self.traverser@.map_values(|s: StatString| s@) =~= seq![
                            reference@,
                            upper@,
                        ]);
                    }
                }
            },
        }
        proof {
            assert(self@ =~~= spec_complete_tick(old(self)@, now_micros));
        }
    }

    /// Start profiling an inner event region. The first name ever observed
    /// becomes the loop-boundary marker; its every recurrence completes the
    /// tick; other names are attached to the tree while a build is in
    /// progress (see `spec_time_event_start`).
    pub fn time_event_start_at(&mut self, name: StatString, now_micros: u64)
        requires
            old(self).wf(),
            start_event_allowed(old(self)@, name@),
        ensures
            final(self).wf(),
            final(self)@ == spec_time_event_start(old(self)@, name@, now_micros),
    {
        match self.outermost_upper {
            None => {
                self.outermost_upper = Some(name);
            },
            Some(outer) => {
                if str_eq(outer, name) {
                    self.at_outermost_upper(now_micros);
                } else {
                    if self.processioning_tree {
                        let parent = self.traverser[self.traverser.len() - 1];
                        self.active_tree.add_child(parent, name);
                        self.traverser.push(name);
                        proof {
                            assert(self.traverser@.map_values(|s: StatString| s@) =~= old(
                                self,
                            )@.traverser.push(name@));
                            assert(parent@ == old(self)@.traverser.last());
                        }
                    }
                }
            },
        }
        self.start_time_function_at(name, now_micros);
        proof {
            assert(self@ =~~= spec_time_event_start(old(self)@, name@, now_micros));
        }
    }

    /// End profiling an inner event region: cache its duration, remember it
    /// as the last end event, and pop the traversal stack while building
    /// (see `spec_time_event_end`). Correct nesting is the caller's duty.
    pub fn time_event_end_at(&mut self, name: StatString, now_micros: u64)
        requires
            old(self).wf(),
        ensures
            final(self).wf(),
            final(self)@ == spec_time_event_end(old(self)@, name@, now_micros),
    {
        let _ = self.end_time_function_at(name, now_micros);
        self.outermost_lower = Some(name);
        if self.processioning_tree {
            let _ = self.traverser.pop();
            proof {
                let t = old(self)@.traverser;
                if t.len() > 0 {
                    assert(self.traverser@.map_values(|s: StatString| s@) =~= t.drop_last());
                }
            }
        }
        proof {
            assert(self@ =~~= spec_time_event_end(old(self)@, name@, now_micros));
        }
    }

    /// Declare a synthetic root that is signalled once per tick instead of
    /// an overarching region. The first call marks the name and starts
    /// timing it; every later call ends the previous tick's timing before
    /// starting the next (see `spec_set_constant_reference`).
    pub fn set_constant_reference_at(&mut self, name: StatString, now_micros: u64)
        requires
            old(self).wf(),
        ensures
            final(self).wf(),
            final(self)@ == spec_set_constant_reference(old(self)@, name@, now_micros),
    {
        match self.inner_constant_reference {
            None => {
                self.inner_constant_reference = Some(name);
            },
            Some(_) => {
                let _ = self.end_time_function_at(name, now_micros);
            },
        }
        self.start_time_function_at(name, now_micros);
        proof {
            assert(self@ =~~= spec_set_constant_reference(old(self)@, name@, now_micros));
        }
    }

    /// Runs the resolve cycle: an active-to-inactive settings transition
    /// forces one final flushing pass regardless of the interval and
    /// debounce — pending samples reach history, not the void; otherwise
    /// passes run only while engaged (see `spec_resolve_profiler`).
    pub fn resolve_profiler_at(&mut self, queue_tree: bool, now_micros: u64)
        requires
            old(self).wf(),
        ensures
            final(self).wf(),
            final(self)@ == spec_resolve_profiler(old(self)@, queue_tree, now_micros),
    {
        if self.is_actually_active_or_not != self.settings.active {
            if !self.settings.active {
                self.inner_resolve(queue_tree, now_micros, true);
            }
            self.is_actually_active_or_not = self.settings.active;
        }
        if self.is_actually_active_or_not {
            self.inner_resolve(queue_tree, now_micros, false);
        }
        proof {
            assert(self@ =~~= spec_resolve_profiler(old(self)@, queue_tree, now_micros));
        }
    }

    /// `start_time_function_at` at the profiler's own clock.
    pub fn start_time_function(&mut self, name: StatString)
        requires
            old(self).wf(),
        ensures
            final(self).wf(),
            exists|now: u64| final(self)@ == spec_start_time_function(old(self)@, name@, now),
    {
        let now = micros_since(&self.origin);
        self.start_time_function_at(name, now);
    }

    /// `end_time_function_at` at the profiler's own clock. Always succeeds.
    pub fn end_time_function(&mut self, name: StatString) -> (r: Result<(), ()>)
        requires
            old(self).wf(),
        ensures
            final(self).wf(),
            exists|now: u64| final(self)@ == spec_end_time_function(old(self)@, name@, now),
            r.is_ok(),
    {
        let now = micros_since(&self.origin);
        self.end_time_function_at(name, now)
    }

    /// `time_event_start_at` at the profiler's own clock.
    pub fn time_event_start(&mut self, name: StatString)
        requires
            old(self).wf(),
            start_event_allowed(old(self)@, name@),
        ensures
            final(self).wf(),
            exists|now: u64| final(self)@ == spec_time_event_start(old(self)@, name@, now),
    {
        let now = micros_since(&self.origin);
        self.time_event_start_at(name, now);
    }

    /// `time_event_end_at` at the profiler's own clock.
    pub fn time_event_end(&mut self, name: StatString)
        requires
            old(self).wf(),
        ensures
            final(self).wf(),
            exists|now: u64| final(self)@ == spec_time_event_end(old(self)@, name@, now),
    {
        let now = micros_since(&self.origin);
        self.time_event_end_at(name, now);
    }

    /// `set_constant_reference_at` at the profiler's own clock.
    pub fn set_constant_reference(&mut self, name: StatString)
        requires
            old(self).wf(),
        ensures
            final(self).wf(),
            exists|now: u64|
                final(self)@ == spec_set_constant_reference(old(self)@, name@, now),
    {
        let now = micros_since(&self.origin);
        self.set_constant_reference_at(name, now);
    }

    /// `resolve_profiler_at` at the profiler's own clock. Accepted in any
    /// state; no operation of the resolve cycle fails.
    pub fn resolve_profiler(&mut self, queue_tree: bool)
        requires
            old(self).wf(),
        ensures
            final(self).wf(),
            exists|now: u64| final(self)@ == spec_resolve_profiler(old(self)@, queue_tree, now),
    {
        let now = micros_since(&self.origin);
        self.resolve_profiler_at(queue_tree, now);
    }

    /// Whether `time_event_start(name)` is allowed in the current state:
    /// a boundary recurrence needs the previous tick closed cleanly; an
    /// inner start while building needs a non-empty traversal stack.
    /// Callers outside verified code test this first.
    pub fn event_start_allowed(&self, name: StatString) -> (r: bool)
        requires
            self.wf(),
        ensures
            r == start_event_allowed(self@, name@),
    {
        match self.outermost_upper {
            None => true,
            Some(outer) => {
                if str_eq(outer, name) {
                    match (self.inner_constant_reference, self.outermost_lower) {
                        (_, None) => false,
                        (None, Some(lower)) => str_eq(lower, outer),
                        (Some(_), Some(_)) => true,
                    }
                } else {
                    !self.processioning_tree || self.traverser.len() >= 1
                }
            },
        }
    }

    /// The profile tracked under `name`, if any.
    pub fn get_profile(&self, name: StatString) -> (r: Option<&FunctionProfile>)
        requires
            self.wf(),
        ensures
            match r {
                Some(p) => has_profile(self@.profiles, name@) && p@ == profile_of(
                    self@.profiles,
                    name@,
                ),
                None => !has_profile(self@.profiles, name@),
            },
    {
        match self.find_profile(name) {
            Some(i) => {
                proof {
                    lemma_profile_idx(self@.profiles, name@, i as int);
                }
                Some(&self.all_profiles[i].profile)
            },
            None => None,
        }
    }

    /// The latest averaged duration recorded for `name`, in microseconds;
    /// zero for an unknown name — queries never fail.
    pub fn pull_latest_of(&self, name: StatString) -> (r: u64)
        requires
            self.wf(),
        ensures
            r == (if has_profile(self@.profiles, name@) {
                crate::function_profile::spec_pull_latest(profile_of(self@.profiles, name@))
            } else {
                0u64
            }),
    {
        match self.get_profile(name) {
            Some(p) => p.pull_latest(),
            None => 0,
        }
    }
}

} // verus!
