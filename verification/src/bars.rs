//! Depth-ordered, width-proportional layout segments.
//!
//! A pure transform over the data model: a call tree plus current per-node
//! durations becomes rows of bars, one row per depth, each bar's span
//! proportional to its node's duration. Rendering is left to consumers.

use vstd::arithmetic::div_mod::{lemma_div_by_multiple, lemma_div_is_ordered};
use vstd::prelude::*;

use crate::function_profile::{lemma_seq_sum_nonneg, seq_sum, spec_pull_latest};
use crate::profiler::{has_profile, profile_of, PerformanceProfiler, ProfilerModel};
use crate::tree::lemma_wf_model_closed;
use crate::StatString;

verus! {

/// Scale of normalized bar positions: a normalized root spans exactly this
/// many units (parts per million of the reference duration).
pub const NORMALIZE_SCALE: u64 = 1000000;

/// One layout segment: a region's name, its duration, and the bar's
/// horizontal start and span on its row (raw microseconds until
/// `normalize`).
#[derive(Clone, Copy, Debug)]
pub struct LoneBar {
    pub name: StatString,
    pub time: u64,
    pub start: u64,
    pub span: u64,
}

/// Ghost image of a `LoneBar`.
#[verifier::ext_equal]
pub struct BarModel {
    pub name: Seq<char>,
    pub time: u64,
    pub start: u64,
    pub span: u64,
}

impl View for LoneBar {
    type V = BarModel;

    open spec fn view(&self) -> BarModel {
        BarModel { name: self.name@, time: self.time, start: self.start, span: self.span }
    }
}

/// Rows of layout segments, one row per tree depth, root row first.
#[derive(Debug)]
pub struct GenericTreeBarThing {
    pub layers: Vec<Vec<LoneBar>>,
}

impl View for GenericTreeBarThing {
    type V = Seq<Seq<BarModel>>;

    open spec fn view(&self) -> Seq<Seq<BarModel>> {
        self.layers@.map_values(|row: Vec<LoneBar>| row@.map_values(|b: LoneBar| b@))
    }
}

/// `push` on the ghost image: extend with empty rows until row `depth`
/// exists, then append the bar to that row.
pub open spec fn spec_push_bar(layers: Seq<Seq<BarModel>>, depth: int, bar: BarModel) -> Seq<
    Seq<BarModel>,
>
    recommends
        depth >= 0,
{
    let ext = if layers.len() < depth + 1 {
        layers + Seq::new((depth + 1 - layers.len()) as nat, |i: int| Seq::<BarModel>::empty())
    } else {
        layers
    };
    ext.update(depth, ext[depth].push(bar))
}

/// A position scaled so that `reference` becomes `NORMALIZE_SCALE`, rounded
/// down and saturating at `u64::MAX`.
pub open spec fn scaled(v: u64, reference: u64) -> u64
    recommends
        reference >= 1,
{
    let q = v * NORMALIZE_SCALE / (reference as int);
    if q > u64::MAX {
        u64::MAX
    } else {
        q as u64
    }
}

/// `normalize` on the ghost image: every bar's start and span scaled by the
/// reference duration; names and raw times stay.
pub open spec fn spec_normalized_layers(layers: Seq<Seq<BarModel>>, reference: u64) -> Seq<
    Seq<BarModel>,
> {
    layers.map_values(
        |row: Seq<BarModel>|
            row.map_values(
                |b: BarModel|
                    BarModel {
                        start: scaled(b.start, reference),
                        span: scaled(b.span, reference),
                        ..b
                    },
            ),
    )
}

/// Exactly `scaled`, executably.
fn scale_u64(v: u64, reference: u64) -> (r: u64)
    requires
        reference >= 1,
    ensures
        r == scaled(v, reference),
{
    let wide: u128 = (v as u128) * (NORMALIZE_SCALE as u128);
    let q: u128 = wide / (reference as u128);
    if q > u64::MAX as u128 {
        u64::MAX
    } else {
        q as u64
    }
}

impl GenericTreeBarThing {
    /// No rows yet.
    pub fn new() -> (t: GenericTreeBarThing)
        ensures
            t@ == Seq::<Seq<BarModel>>::empty(),
    {
        let t = GenericTreeBarThing { layers: Vec::new() };
        proof {
            assert(t@ =~~= Seq::<Seq<BarModel>>::empty());
        }
        t
    }

    /// Append `data` to row `layer`, creating empty rows up to it first.
    pub fn push(&mut self, layer: usize, data: LoneBar)
        ensures
            final(self)@ == spec_push_bar(old(self)@, layer as int, data@),
    {
        while self.layers.len() <= layer
            invariant
                self.layers@.len() >= old(self).layers@.len(),
                old(self).layers@.len() > layer ==> self.layers@ == old(self).layers@,
                self.layers@.len() <= layer + 1 || self.layers@ == old(self).layers@,
                forall|j: int|
                    0 <= j < old(self).layers@.len() ==> self.layers@[j] == old(
                        self,
                    ).layers@[j],
                forall|j: int|
                    old(self).layers@.len() <= j < self.layers@.len()
                        ==> (#[trigger] self.layers@[j])@.len() == 0,
            decreases layer + 1 - self.layers@.len(),
        {
            self.layers.push(Vec::new());
        }
        let ghost ext_layers = self.layers@;
        let ghost ext_spec = (if old(self)@.len() < layer + 1 {
            old(self)@ + Seq::new(
                (layer + 1 - old(self)@.len()) as nat,
                |i: int| Seq::<BarModel>::empty(),
            )
        } else {
            old(self)@
        });
        proof {
            assert(ext_layers.map_values(|row: Vec<LoneBar>| row@.map_values(|b: LoneBar| b@))
                =~~= ext_spec);
        }
        let mut row: Vec<LoneBar> = Vec::new();
        self.layers.set_and_swap(layer, &mut row);
        row.push(data);
        self.layers.set(layer, row);
        proof {
            assert(self.layers@ =~= ext_layers.update(layer as int, row));
            assert(row@ == ext_layers[layer as int]@.push(data));
            assert(row@.map_values(|b: LoneBar| b@) =~= ext_spec[layer as int].push(data@));
            assert(self@ =~~= ext_spec.update(layer as int, ext_spec[layer as int].push(data@)));
            assert(self@ =~~= spec_push_bar(old(self)@, layer as int, data@));
        }
    }

    /// Scale every bar so the single root bar spans `NORMALIZE_SCALE`.
    /// Yields nothing unless there is exactly one root bar with a non-zero
    /// duration to act as the reference.
    pub fn normalize(&mut self) -> (r: Option<()>)
        ensures
            r.is_some() == (old(self)@.len() > 0 && old(self)@[0].len() == 1 && old(
                self,
            )@[0][0].time > 0),
            r.is_some() ==> final(self)@ == spec_normalized_layers(
                old(self)@,
                old(self)@[0][0].time,
            ),
            r.is_none() ==> final(self)@ == old(self)@,
    {
        if self.layers.len() == 0 {
            return None;
        }
        if self.layers[0].len() != 1 {
            return None;
        }
        let reference = self.layers[0][0].time;
        if reference == 0 {
            return None;
        }
        let n = self.layers.len();
        for i in 0..n
            invariant
                reference >= 1,
                n == self.layers@.len(),
                n == old(self).layers@.len(),
                forall|j: int|
                    i <= j < n ==> self.layers@[j] == old(self).layers@[j],
                forall|j: int|
                    0 <= j < i ==> (#[trigger] self.layers@[j])@.map_values(|b: LoneBar| b@)
                        == old(self)@[j].map_values(
                        |b: BarModel|
                            BarModel {
                                start: scaled(b.start, reference),
                                span: scaled(b.span, reference),
                                ..b
                            },
                    ),
        {
            let mut row: Vec<LoneBar> = Vec::new();
            self.layers.set_and_swap(i, &mut row);
            let ghost row0 = row@;
            let m = row.len();
            for j in 0..m
                invariant
                    reference >= 1,
                    m == row@.len(),
                    m == row0.len(),
                    forall|k: int| j <= k < m ==> row@[k] == row0[k],
                    forall|k: int|
                        0 <= k < j ==> (#[trigger] row@[k])@ == (BarModel {
                            start: scaled(row0[k]@.start, reference),
                            span: scaled(row0[k]@.span, reference),
                            ..row0[k]@
                        }),
            {
                let b = row[j];
                let ns = scale_u64(b.start, reference);
                let np = scale_u64(b.span, reference);
                row.set(j, LoneBar { name: b.name, time: b.time, start: ns, span: np });
            }
            self.layers.set(i, row);
            proof {
                assert(self.layers@[i as int]@.map_values(|b: LoneBar| b@) =~= old(
                    self,
                )@[i as int].map_values(
                    |b: BarModel|
                        BarModel {
                            start: scaled(b.start, reference),
                            span: scaled(b.span, reference),
                            ..b
                        },
                ));
            }
        }
        proof {
            assert(self@ =~~= spec_normalized_layers(old(self)@, old(self)@[0][0].time));
        }
        Some(())
    }
}

/// Saturating addition of two bar positions.
pub open spec fn sat_add(a: u64, b: u64) -> u64 {
    if a + b > u64::MAX {
        u64::MAX
    } else {
        (a + b) as u64
    }
}

/// Mean of the last `k` history points (or of all of them when fewer),
/// rounded down; zero when there are none.
pub open spec fn spec_smoothed(timings: Seq<(u32, u64)>, k: nat) -> u64 {
    let vals = timings.map_values(|p: (u32, u64)| p.1);
    let c = if k <= vals.len() {
        k
    } else {
        vals.len()
    };
    if c == 0 {
        0u64
    } else {
        (seq_sum(vals.subrange(vals.len() - c, vals.len() as int)) / c as int) as u64
    }
}

/// The duration a tree view displays for `name`: the latest history value,
/// or, with smoothing configured above one, the mean of the most recent
/// history points.
pub open spec fn spec_pull_data(m: ProfilerModel, name: Seq<char>) -> u64
    recommends
        has_profile(m.profiles, name),
{
    if m.settings.smoothing_amount <= 1 {
        spec_pull_latest(profile_of(m.profiles, name))
    } else {
        spec_smoothed(profile_of(m.profiles, name).timings, m.settings.smoothing_amount as nat)
    }
}

/// Every region named in the latest tree snapshot is tracked by a profile.
/// The profiler only puts started regions into a tree, so this holds of
/// every snapshot it publishes.
pub open spec fn tree_nodes_profiled(m: ProfilerModel) -> bool {
    forall|n: Seq<char>|
        #[trigger] m.latest_tree.nodes.contains_key(n) ==> has_profile(m.profiles, n)
}

/// The layout of `node`'s subtree in the latest snapshot: the node's own
/// bar at `depth` starting at `start_from`, its children laid left to right
/// on the next row. `fuel` bounds the recursion depth; one unit per tree
/// node never runs out on an acyclic snapshot.
pub open spec fn spec_walk_node(
    m: ProfilerModel,
    node: Seq<char>,
    depth: int,
    start_from: u64,
    fuel: nat,
    acc: Seq<Seq<BarModel>>,
) -> Seq<Seq<BarModel>>
    decreases fuel, 0nat, 0nat,
{
    let data = spec_pull_data(m, node);
    let acc1 = spec_push_bar(
        acc,
        depth,
        BarModel { name: node, time: data, start: start_from, span: data },
    );
    let children = m.latest_tree.nodes[node].children;
    if children.len() > 0 && fuel > 0 {
        spec_walk_children(m, children, depth + 1, start_from, (fuel - 1) as nat, acc1)
    } else {
        acc1
    }
}

/// The children `cs`, laid left to right from `start_from`, each advancing
/// the next child's start by its own displayed duration.
pub open spec fn spec_walk_children(
    m: ProfilerModel,
    cs: Seq<Seq<char>>,
    depth: int,
    start_from: u64,
    fuel: nat,
    acc: Seq<Seq<BarModel>>,
) -> Seq<Seq<BarModel>>
    decreases fuel, 1nat, cs.len(),
{
    if cs.len() == 0 {
        acc
    } else {
        let acc1 = spec_walk_node(m, cs[0], depth, start_from, fuel, acc);
        spec_walk_children(
            m,
            cs.drop_first(),
            depth,
            sat_add(start_from, spec_pull_data(m, cs[0])),
            fuel,
            acc1,
        )
    }
}

impl PerformanceProfiler {
    /// The smoothed duration displayed for `node` (see `spec_pull_data`).
    pub fn pull_data(&self, node: StatString) -> (r: u64)
        requires
            self.wf(),
            has_profile(self@.profiles, node@),
        ensures
            r == spec_pull_data(self@, node@),
    {
        let profile = match self.get_profile(node) {
            Some(p) => p,
            None => unreached(),
        };
        if self.settings.smoothing_amount <= 1 {
            profile.pull_latest()
        } else {
            let len = profile.timings.len();
            let k = self.settings.smoothing_amount as usize;
            let c = if k <= len {
                k
            } else {
                len
            };
            let ghost vals = profile.timings@.map_values(|p: (u32, u64)| p.1);
            if c == 0 {
                return 0;
            }
            let mut tot: u128 = 0;
            for idx in (len - c)..len
                invariant
                    len == profile.timings@.len(),
                    vals == profile.timings@.map_values(|p: (u32, u64)| p.1),
                    1 <= c <= len,
                    len - c <= idx <= len,
                    tot == seq_sum(vals.subrange(len - c, idx as int)),
                    tot <= (idx - (len - c)) * (u64::MAX as int),
            {
                proof {
                    assert(vals.subrange(len - c, idx + 1).drop_last() =~= vals.subrange(
                        len - c,
                        idx as int,
                    ));
                    assert(vals.subrange(len - c, idx + 1).last() == vals[idx as int]);
                }
                tot = tot + profile.timings[idx].1 as u128;
            }
            proof {
                let s = vals.subrange(len - c, len as int);
                lemma_seq_sum_nonneg(s);
                lemma_div_is_ordered(seq_sum(s), c * (u64::MAX as int), c as int);
                lemma_div_by_multiple(u64::MAX as int, c as int);
                assert((c * (u64::MAX as int)) / (c as int) == u64::MAX as int);
                assert(seq_sum(s) / (c as int) <= u64::MAX as int);
            }
            (tot / (c as u128)) as u64
        }
    }

    /// One step of the layout walk (see `spec_walk_node`). `fuel` bounds
    /// the recursion depth.
    fn generic_recursive_tree(
        &self,
        tree_bars: &mut GenericTreeBarThing,
        node: StatString,
        depth: usize,
        start_from: u64,
        fuel: usize,
    )
        requires
            self.wf(),
            tree_nodes_profiled(self@),
            self@.latest_tree.nodes.contains_key(node@),
            depth + fuel <= usize::MAX,
        ensures
            final(tree_bars)@ == spec_walk_node(
                self@,
                node@,
                depth as int,
                start_from,
                fuel as nat,
                old(tree_bars)@,
            ),
        decreases fuel,
    {
        proof {
            lemma_wf_model_closed(&self.latest_tree);
        }
        let data = self.pull_data(node);
        tree_bars.push(depth, LoneBar { name: node, time: data, start: start_from, span: data });
        let node_ref = match self.latest_tree.get_node(node) {
            Some(n) => n,
            None => unreached(),
        };
        let ghost m = self@;
        let ghost cs = m.latest_tree.nodes[node@].children;
        proof {
            assert(cs == node_ref.children@.map_values(|c: StatString| c@));
        }
        let ghost acc1 = tree_bars@;
        if node_ref.children.len() > 0 && fuel > 0 {
            let mut rcs = start_from;
            let nchild = node_ref.children.len();
            proof {
                assert(cs.skip(0) =~= cs);
            }
            for j in 0..nchild
                invariant
                    self.wf(),
                    tree_nodes_profiled(m),
                    m == self@,
                    nchild == cs.len(),
                    cs == node_ref.children@.map_values(|c: StatString| c@),
                    nchild == node_ref.children@.len(),
                    forall|t: int|
                        0 <= t < cs.len() ==> m.latest_tree.nodes.contains_key(#[trigger] cs[t]),
                    depth + fuel <= usize::MAX,
                    1 <= fuel,
                    spec_walk_children(
                        m,
                        cs.skip(j as int),
                        depth + 1,
                        rcs,
                        (fuel - 1) as nat,
                        tree_bars@,
                    ) == spec_walk_children(
                        m,
                        cs,
                        depth + 1,
                        start_from,
                        (fuel - 1) as nat,
                        acc1,
                    ),
            {
                let child = node_ref.children[j];
                proof {
                    assert(child@ == cs[j as int]);
                    assert(m.latest_tree.nodes.contains_key(child@));
                    assert(has_profile(m.profiles, child@));
                }
                let ghost pre_bars = tree_bars@;
                let ghost pre_rcs = rcs;
                self.generic_recursive_tree(tree_bars, child, depth + 1, rcs, fuel - 1);
                let d = self.pull_data(child);
                rcs = if rcs <= u64::MAX - d {
                    rcs + d
                } else {
                    u64::MAX
                };
                proof {
                    assert(cs.skip(j as int).drop_first() =~= cs.skip(j + 1));
                    assert(cs.skip(j as int)[0] == cs[j as int]);
                    assert(tree_bars@ == spec_walk_node(
                        m,
                        cs[j as int],
                        depth + 1,
                        pre_rcs,
                        (fuel - 1) as nat,
                        pre_bars,
                    ));
                    assert(rcs == sat_add(pre_rcs, spec_pull_data(m, cs[j as int])));
                }
            }
            proof {
                assert(cs.skip(cs.len() as int) =~= Seq::<Seq<char>>::empty());
                assert(tree_bars@ == spec_walk_node(
                    m,
                    node@,
                    depth as int,
                    start_from,
                    fuel as nat,
                    old(tree_bars)@,
                ));
            }
        } else {
            proof {
                assert(tree_bars@ == spec_walk_node(
                    m,
                    node@,
                    depth as int,
                    start_from,
                    fuel as nat,
                    old(tree_bars)@,
                ));
            }
        }
    }

    /// Whether `generate_generic_tree_bars(root)` may be called: `root` is
    /// a node of the latest snapshot and every node of it is tracked by a
    /// profile. Callers outside verified code test this first.
    pub fn layout_ready(&self, root: StatString) -> (r: bool)
        requires
            self.wf(),
        ensures
            r == (tree_nodes_profiled(self@) && self@.latest_tree.nodes.contains_key(root@)),
    {
        if self.latest_tree.get_node(root).is_none() {
            return false;
        }
        let n = self.latest_tree.nodes.len();
        for i in 0..n
            invariant
                self.wf(),
                n == self.latest_tree.nodes@.len(),
                forall|j: int|
                    0 <= j < i ==> has_profile(
                        self@.profiles,
                        (#[trigger] self.latest_tree.nodes@[j]).name@,
                    ),
        {
            if self.get_profile(self.latest_tree.nodes[i].name).is_none() {
                proof {
                    crate::tree::lemma_model_domain(&self.latest_tree);
                    let nm = self.latest_tree.nodes@[i as int].name@;
                    assert(crate::tree::has_node(self.latest_tree.nodes@, nm));
                    assert(self@.latest_tree.nodes.contains_key(nm));
                    assert(!has_profile(self@.profiles, nm));
                    assert(!tree_nodes_profiled(self@));
                }
                return false;
            }
        }
        proof {
            crate::tree::lemma_model_domain(&self.latest_tree);
            assert forall|nm: Seq<char>| #[trigger]
                self@.latest_tree.nodes.contains_key(nm) implies has_profile(
                self@.profiles,
                nm,
            ) by {
                let j = choose|j: int|
                    0 <= j < self.latest_tree.nodes@.len() && self.latest_tree.nodes@[j].name@
                        == nm;
                assert(has_profile(self@.profiles, self.latest_tree.nodes@[j].name@));
            }
        }
        true
    }

    /// The depth-ordered, width-proportional layout of the latest snapshot
    /// rooted at `root`: one row per depth, children left to right in call
    /// order, positions in raw microseconds (see `normalize` for scaling).
    pub fn generate_generic_tree_bars(&self, root: StatString) -> (tree: GenericTreeBarThing)
        requires
            self.wf(),
            tree_nodes_profiled(self@),
            self@.latest_tree.nodes.contains_key(root@),
        ensures
            tree@ == spec_walk_node(
                self@,
                root@,
                0,
                0u64,
                self.latest_tree.nodes@.len() as nat,
                Seq::<Seq<BarModel>>::empty(),
            ),
    {
        let mut tree = GenericTreeBarThing::new();
        let fuel = self.latest_tree.nodes.len();
        self.generic_recursive_tree(&mut tree, root, 0, 0, fuel);
        tree
    }
}

} // verus!
