//! One named region's rolling statistics.
//!
//! A `FunctionProfile` holds the region's in-flight start timestamp, a
//! bounded cache of raw per-tick durations awaiting averaging, and a bounded
//! ordered history of `(sequence index, averaged duration)` points for trend
//! display. All timestamps and durations are monotonic-clock microseconds.

use vstd::arithmetic::div_mod::{lemma_div_by_multiple, lemma_div_is_ordered};
use vstd::prelude::*;

verus! {

/// Cache capacity a profile is created with, until the first resolve applies
/// the configured capacity.
pub const DEFAULT_CACHE_CAP: u32 = 10;

/// Ghost image of a `FunctionProfile`.
#[verifier::ext_equal]
pub struct ProfileModel {
    /// Pending start timestamp, microseconds.
    pub st: u64,
    /// Current cache capacity.
    pub cap: u32,
    /// Raw durations cached since the last resolve, oldest first.
    pub cache: Seq<u64>,
    /// History of `(sequence index, averaged duration)`, oldest first.
    pub timings: Seq<(u32, u64)>,
}

/// The elapsed time from `st` to `now`, clamped to zero if `now` lies before
/// `st`.
pub open spec fn duration_between(st: u64, now: u64) -> u64 {
    if now >= st {
        (now - st) as u64
    } else {
        0u64
    }
}

/// Sum of a duration sequence.
pub open spec fn seq_sum(s: Seq<u64>) -> int
    decreases s.len(),
{
    if s.len() == 0 {
        0
    } else {
        seq_sum(s.drop_last()) + s.last()
    }
}

/// Arithmetic mean of a non-empty duration sequence, rounded down.
pub open spec fn seq_mean(s: Seq<u64>) -> u64
    recommends
        s.len() > 0,
{
    (seq_sum(s) / s.len() as int) as u64
}

/// `s` trimmed from the front to at most `cap` entries.
pub open spec fn trim_front<T>(s: Seq<T>, cap: int) -> Seq<T>
    recommends
        cap >= 0,
{
    if s.len() > cap {
        s.subrange(s.len() - cap, s.len() as int)
    } else {
        s
    }
}

/// The model of a profile created at `now`: timer armed at `now`, default
/// cache capacity, everything else empty.
pub open spec fn new_profile_model(now: u64) -> ProfileModel {
    ProfileModel { st: now, cap: DEFAULT_CACHE_CAP, cache: Seq::empty(), timings: Seq::empty() }
}

/// `start` on the ghost image: if the cache has room, arm the timer at `now`;
/// a full cache drops the sample.
pub open spec fn spec_profile_start(p: ProfileModel, now: u64) -> ProfileModel {
    if p.cache.len() < p.cap {
        ProfileModel { st: now, ..p }
    } else {
        p
    }
}

/// `end` on the ghost image: if the cache has room, append the elapsed
/// duration since the armed timer.
pub open spec fn spec_profile_end(p: ProfileModel, now: u64) -> ProfileModel {
    if p.cache.len() < p.cap {
        ProfileModel { cache: p.cache.push(duration_between(p.st, now)), ..p }
    } else {
        p
    }
}

/// `resolve` on the ghost image: adopt the configured cache capacity, drop
/// the oldest cached sample when asked (a no-op when there is none to
/// drop), fold the remaining cache into one averaged history point tagged
/// `counter`, trim the history from the front to `data_cap` whether or not
/// a point was appended, and clear the cache. An empty cache adds no
/// history point; no operation fails.
pub open spec fn spec_profile_resolve(
    p: ProfileModel,
    cash_cap: u32,
    data_cap: u32,
    cull_first: bool,
    counter: u32,
) -> ProfileModel {
    let c = if cull_first && p.cache.len() >= 1 {
        p.cache.drop_first()
    } else {
        p.cache
    };
    let t = if c.len() == 0 {
        trim_front(p.timings, data_cap as int)
    } else {
        trim_front(p.timings.push((counter, seq_mean(c))), data_cap as int)
    };
    ProfileModel { st: p.st, cap: cash_cap, cache: Seq::empty(), timings: t }
}

/// The most recent averaged duration, or zero if none exists.
pub open spec fn spec_pull_latest(p: ProfileModel) -> u64 {
    if p.timings.len() == 0 {
        0u64
    } else {
        p.timings.last().1
    }
}

/// One named region's in-flight timer, bounded raw-sample cache, and bounded
/// averaged-history buffer.
#[derive(Debug)]
pub struct FunctionProfile {
    /// Pending start timestamp, microseconds.
    pub st: u64,
    /// Cache capacity currently in force.
    pub max_stored_cash_amount: u32,
    /// Raw durations cached since the last resolve, oldest first.
    pub average_cash: Vec<u64>,
    /// History of `(sequence index, averaged duration in microseconds)`,
    /// oldest first; the index is for plotting.
    pub timings: Vec<(u32, u64)>,
}

impl View for FunctionProfile {
    type V = ProfileModel;

    open spec fn view(&self) -> ProfileModel {
        ProfileModel {
            st: self.st,
            cap: self.max_stored_cash_amount,
            cache: self.average_cash@,
            timings: self.timings@,
        }
    }
}

/// Mean of a non-empty duration vector, rounded down.
fn mean_of(v: &Vec<u64>) -> (r: u64)
    requires
        v@.len() > 0,
    ensures
        r == seq_mean(v@),
{
    let n = v.len();
    let mut sum: u128 = 0;
    for i in 0..n
        invariant
            n == v@.len(),
            sum == seq_sum(v@.subrange(0, i as int)),
            sum <= i * (u64::MAX as int),
    {
        proof {
            assert(v@.subrange(0, i + 1).drop_last() =~= v@.subrange(0, i as int));
            assert(v@.subrange(0, i + 1).last() == v@[i as int]);
        }
        sum = sum + v[i] as u128;
    }
    proof {
        assert(v@.subrange(0, n as int) =~= v@);
        lemma_div_is_ordered(seq_sum(v@), n * (u64::MAX as int), n as int);
        lemma_div_by_multiple(u64::MAX as int, n as int);
        assert((n * (u64::MAX as int)) / (n as int) == u64::MAX as int);
        assert(seq_sum(v@) / (n as int) <= u64::MAX as int);
        assert(seq_sum(v@) >= 0) by {
            lemma_seq_sum_nonneg(v@);
        }
    }
    (sum / (n as u128)) as u64
}

/// A sum of durations is never negative.
pub proof fn lemma_seq_sum_nonneg(s: Seq<u64>)
    ensures
        seq_sum(s) >= 0,
    decreases s.len(),
{
    if s.len() > 0 {
        lemma_seq_sum_nonneg(s.drop_last());
    }
}

impl FunctionProfile {
    /// The cache never outgrows its capacity.
    pub open spec fn inv(&self) -> bool {
        self.average_cash@.len() <= self.max_stored_cash_amount
    }

    /// A fresh profile whose timer is armed at `now_micros`.
    pub fn new(now_micros: u64) -> (p: FunctionProfile)
        ensures
            p.inv(),
            p@ == new_profile_model(now_micros),
    {
        let p = FunctionProfile {
            st: now_micros,
            max_stored_cash_amount: DEFAULT_CACHE_CAP,
            average_cash: Vec::new(),
            timings: Vec::new(),
        };
        proof {
            assert(p@ =~~= new_profile_model(now_micros));
        }
        p
    }

    /// Arm the in-flight timer at `now_micros`; a full cache means the
    /// sample will be dropped, so the timer is left alone.
    pub fn start(&mut self, now_micros: u64)
        requires
            old(self).inv(),
        ensures
            final(self).inv(),
            final(self)@ == spec_profile_start(old(self)@, now_micros),
    {
        if self.average_cash.len() < self.max_stored_cash_amount as usize {
            self.st = now_micros;
        }
        proof {
            assert(self@ =~~= spec_profile_start(old(self)@, now_micros));
        }
    }

    /// Cache the duration since the armed timer; a full cache drops the
    /// sample.
    pub fn end(&mut self, now_micros: u64)
        requires
            old(self).inv(),
        ensures
            final(self).inv(),
            final(self)@ == spec_profile_end(old(self)@, now_micros),
    {
        if self.average_cash.len() < self.max_stored_cash_amount as usize {
            let d: u64 = if now_micros >= self.st {
                now_micros - self.st
            } else {
                0
            };
            self.average_cash.push(d);
        }
        proof {
            assert(self@ =~~= spec_profile_end(old(self)@, now_micros));
        }
    }

    /// Fold the cache into one averaged history point (see
    /// `spec_profile_resolve`). `cull_first_average` asks for the oldest
    /// cached sample to be discarded first; with nothing cached, nothing is
    /// dropped. The history ends up within `stored_data_amount` either way.
    pub fn resolve(
        &mut self,
        stored_cash_amount: u32,
        stored_data_amount: u32,
        cull_first_average: bool,
        counter: u32,
    )
        requires
            old(self).inv(),
        ensures
            final(self).inv(),
            final(self)@ == spec_profile_resolve(
                old(self)@,
                stored_cash_amount,
                stored_data_amount,
                cull_first_average,
                counter,
            ),
            final(self).timings@.len() <= stored_data_amount,
    {
        self.max_stored_cash_amount = stored_cash_amount;
        if cull_first_average && self.average_cash.len() >= 1 {
            self.average_cash.remove(0);
            proof {
                assert(self.average_cash@ =~= old(self).average_cash@.drop_first());
            }
        }
        let ghost c = self.average_cash@;
        if self.average_cash.len() > 0 {
            let ave = mean_of(&self.average_cash);
            self.timings.push((counter, ave));
        }
        let ghost pushed = self.timings@;
        proof {
            assert(pushed.subrange(0, pushed.len() as int) =~= pushed);
        }
        while self.timings.len() > stored_data_amount as usize
            invariant
                self.st == old(self).st,
                self.max_stored_cash_amount == stored_cash_amount,
                self.average_cash@ == c,
                pushed.len() >= self.timings@.len(),
                self.timings@ == pushed.subrange(
                    pushed.len() - self.timings@.len(),
                    pushed.len() as int,
                ),
                self.timings@.len() >= stored_data_amount || self.timings@ == pushed,
            decreases self.timings@.len(),
        {
            self.timings.remove(0);
            proof {
                let cur = self.timings@;
                assert(cur =~= pushed.subrange(pushed.len() - cur.len(), pushed.len() as int));
            }
        }
        proof {
            assert(self.timings@ == trim_front(pushed, stored_data_amount as int)) by {
                if pushed.len() > stored_data_amount {
                    assert(self.timings@.len() == stored_data_amount);
                } else {
                    assert(self.timings@ =~= pushed);
                }
            }
        }
        self.average_cash.clear();
        proof {
            assert(self@ =~~= spec_profile_resolve(
                old(self)@,
                stored_cash_amount,
                stored_data_amount,
                cull_first_average,
                counter,
            ));
        }
    }

    /// The most recent averaged duration in microseconds, or zero if no
    /// resolve has produced one yet.
    pub fn pull_latest(&self) -> (r: u64)
        ensures
            r == spec_pull_latest(self@),
    {
        if self.timings.len() == 0 {
            0
        } else {
            self.timings[self.timings.len() - 1].1
        }
    }
}

} // verus!
