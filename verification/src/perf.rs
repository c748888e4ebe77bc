use vstd::prelude::*;

use crate::clock;
use crate::errors::BenchmarkError;
use crate::numfmt::grouped_digits;
use crate::numfmt::group_u128;
use crate::numfmt::group_u64;
use crate::stats::max64;
use crate::stats::max_int;
use crate::stats::min64;
use crate::stats::min_int;
use crate::stats::sum64;
use crate::stats::sum_int;
use crate::stats::vec_avg;
use crate::stats::vec_max;
use crate::stats::vec_min;
use crate::strutil::str_eq;
use crate::table::headers_view;
use crate::table::row_view;
use crate::table::Cell;
use crate::table::CellStyle;
use crate::table::Table;

verus! {

/// The abstract state of a profiler: how many measurement rounds began, the
/// checkpoint names in the order the first round met them, and for each name
/// ever used the recorded segment durations in order.
pub ghost struct PerfModel {
    pub iterations: nat,
    pub checkpoints: Seq<Seq<char>>,
    pub measurements: Map<Seq<char>, Seq<u64>>,
}

impl PerfModel {
    /// The state of a fresh profiler.
    pub open spec fn empty() -> PerfModel {
        PerfModel {
            iterations: 0,
            checkpoints: Seq::empty(),
            measurements: Map::empty(),
        }
    }

    /// Every listed checkpoint has a series, and every series holds at
    /// least one duration.
    pub open spec fn wf(self) -> bool {
        &&& forall|i: int|
            0 <= i < self.checkpoints.len() ==> self.measurements.dom().contains(
                #[trigger] self.checkpoints[i],
            )
        &&& forall|nm: Seq<char>|
            self.measurements.dom().contains(nm) ==> (#[trigger] self.measurements[nm]).len() >= 1
    }
}

/// `start` keeps the profiler well-formed.
pub proof fn lemma_started_wf(m: PerfModel)
    requires
        m.wf(),
    ensures
        perf_started(m).wf(),
{
}

/// `checkpoint` keeps the profiler well-formed: a name pushed onto the
/// checkpoint order gains its series in the same step.
pub proof fn lemma_checkpointed_wf(m: PerfModel, nm: Seq<char>, d: u64)
    requires
        m.wf(),
    ensures
        perf_checkpointed(m, nm, d).wf(),
{
    let post = perf_checkpointed(m, nm, d);
    assert forall|i: int| 0 <= i < post.checkpoints.len() implies post.measurements.dom().contains(
        #[trigger] post.checkpoints[i],
    ) by {
        if i < m.checkpoints.len() {
            assert(m.measurements.dom().contains(m.checkpoints[i]));
        }
    }
}

/// The state after `start`: one more round has begun.
pub open spec fn perf_started(m: PerfModel) -> PerfModel {
    PerfModel { iterations: m.iterations + 1, checkpoints: m.checkpoints, measurements: m.measurements }
}

/// The state after `checkpoint(nm)` observed a segment of `d` nanoseconds:
/// `d` is appended to the name's series, and during the first round the name
/// is also appended to the checkpoint order.
pub open spec fn perf_checkpointed(m: PerfModel, nm: Seq<char>, d: u64) -> PerfModel {
    PerfModel {
        iterations: m.iterations,
        checkpoints: if m.iterations == 1 {
            m.checkpoints.push(nm)
        } else {
            m.checkpoints
        },
        measurements: m.measurements.insert(
            nm,
            if m.measurements.dom().contains(nm) {
                m.measurements[nm].push(d)
            } else {
                seq![d]
            },
        ),
    }
}

/// The measurement series as a map from name to durations, built from an
/// association list.
pub open spec fn assoc_to_map(s: Seq<(&'static str, Vec<u64>)>) -> Map<Seq<char>, Seq<u64>>
    decreases s.len(),
{
    if s.len() == 0 {
        Map::empty()
    } else {
        assoc_to_map(s.drop_last()).insert(s.last().0@, s.last().1@)
    }
}

/// A key is in the map exactly when some entry carries it.
proof fn lemma_assoc_dom(s: Seq<(&'static str, Vec<u64>)>, nm: Seq<char>)
    ensures
        assoc_to_map(s).dom().contains(nm) == exists|i: int|
            0 <= i < s.len() && (#[trigger] s[i].0@) == nm,
    decreases s.len(),
{
    if s.len() == 0 {
    } else {
        lemma_assoc_dom(s.drop_last(), nm);
        if assoc_to_map(s).dom().contains(nm) {
            if s.last().0@ == nm {
                assert(s[s.len() - 1].0@ == nm);
            } else {
                let i = choose|i: int|
                    0 <= i < s.drop_last().len() && (#[trigger] s.drop_last()[i].0@) == nm;
                assert(s[i].0@ == nm);
            }
        }
        if exists|i: int| 0 <= i < s.len() && (#[trigger] s[i].0@) == nm {
            let i = choose|i: int| 0 <= i < s.len() && (#[trigger] s[i].0@) == nm;
            if i < s.len() - 1 {
                assert(s.drop_last()[i].0@ == nm);
            }
        }
    }
}

/// With distinct keys, each entry is what the map holds for its key.
proof fn lemma_assoc_lookup(s: Seq<(&'static str, Vec<u64>)>, i: int)
    requires
        0 <= i < s.len(),
        forall|a: int, b: int| 0 <= a < b < s.len() ==> (#[trigger] s[a].0@) != (#[trigger] s[b].0@),
    ensures
        assoc_to_map(s).dom().contains(s[i].0@),
        assoc_to_map(s)[s[i].0@] == s[i].1@,
    decreases s.len(),
{
    if i == s.len() - 1 {
    } else {
        assert(s.drop_last()[i] == s[i]);
        lemma_assoc_lookup(s.drop_last(), i);
        assert(s[s.len() - 1].0@ != s[i].0@);
    }
}

/// Updating the entry at `i` to a pair with the same key updates the map at
/// that key alone.
proof fn lemma_assoc_update(s: Seq<(&'static str, Vec<u64>)>, i: int, p: (&'static str, Vec<u64>))
    requires
        0 <= i < s.len(),
        p.0@ == s[i].0@,
        forall|a: int, b: int| 0 <= a < b < s.len() ==> (#[trigger] s[a].0@) != (#[trigger] s[b].0@),
    ensures
        assoc_to_map(s.update(i, p)) == assoc_to_map(s).insert(p.0@, p.1@),
    decreases s.len(),
{
    let t = s.update(i, p);
    if i == s.len() - 1 {
        assert(t.drop_last() =~= s.drop_last());
        assert(t.last() == p);
        assert(assoc_to_map(t) =~= assoc_to_map(s).insert(p.0@, p.1@));
    } else {
        assert(t.drop_last() =~= s.drop_last().update(i, p));
        assert(s.drop_last()[i] == s[i]);
        lemma_assoc_update(s.drop_last(), i, p);
        assert(t.last() == s.last());
        assert(s[s.len() - 1].0@ != s[i].0@);
        assert(assoc_to_map(t) =~= assoc_to_map(s).insert(p.0@, p.1@));
    }
}

/// The shortest series among the listed checkpoints; meaningful when the
/// list is not empty.
pub open spec fn min_series_len(m: PerfModel, cps: Seq<Seq<char>>) -> nat
    decreases cps.len(),
{
    if cps.len() <= 1 {
        m.measurements[cps[0]].len()
    } else {
        let rest = min_series_len(m, cps.drop_last());
        let l = m.measurements[cps.last()].len();
        if l < rest {
            l
        } else {
            rest
        }
    }
}

/// How many rounds the report covers: every round begun, cut off at the
/// shortest recorded series so that the per-round totals stay aligned; all
/// rounds when no checkpoint was ever recorded.
pub open spec fn aligned_rounds(m: PerfModel) -> nat {
    if m.checkpoints.len() == 0 {
        m.iterations
    } else if m.iterations <= min_series_len(m, m.checkpoints) {
        m.iterations
    } else {
        min_series_len(m, m.checkpoints)
    }
}

/// The total duration of round `i`, summed over the checkpoint order.
pub open spec fn round_total(m: PerfModel, cps: Seq<Seq<char>>, i: int) -> int
    decreases cps.len(),
{
    if cps.len() == 0 {
        0
    } else {
        round_total(m, cps.drop_last(), i) + m.measurements[cps.last()][i]
    }
}

/// The per-round totals over the aligned rounds.
pub open spec fn totals_of(m: PerfModel) -> Seq<int> {
    Seq::new(aligned_rounds(m) as nat, |i: int| round_total(m, m.checkpoints, i))
}

/// The shortest series is no longer than any listed one.
proof fn lemma_min_series_le(m: PerfModel, cps: Seq<Seq<char>>, j: int)
    requires
        0 <= j < cps.len(),
    ensures
        min_series_len(m, cps) <= m.measurements[cps[j]].len(),
    decreases cps.len(),
{
    if cps.len() <= 1 {
    } else {
        if j == cps.len() - 1 {
        } else {
            assert(cps.drop_last()[j] == cps[j]);
            lemma_min_series_le(m, cps.drop_last(), j);
        }
    }
}

/// The shortest series length is some listed series' length.
proof fn lemma_min_series_is_len(m: PerfModel, cps: Seq<Seq<char>>)
    requires
        cps.len() > 0,
    ensures
        exists|j: int|
            0 <= j < cps.len() && min_series_len(m, cps) == m.measurements[#[trigger] cps[j]].len(),
    decreases cps.len(),
{
    if cps.len() <= 1 {
        assert(min_series_len(m, cps) == m.measurements[cps[0]].len());
    } else {
        lemma_min_series_is_len(m, cps.drop_last());
        let l = m.measurements[cps.last()].len();
        if l < min_series_len(m, cps.drop_last()) {
            assert(min_series_len(m, cps) == m.measurements[cps[cps.len() - 1]].len());
        } else {
            let j = choose|j: int|
                0 <= j < cps.drop_last().len() && min_series_len(m, cps.drop_last())
                    == m.measurements[#[trigger] cps.drop_last()[j]].len();
            assert(cps[j] == cps.drop_last()[j]);
            assert(min_series_len(m, cps) == m.measurements[cps[j]].len());
        }
    }
}

/// A round's total is bounded by the number of checkpoints times the
/// largest duration.
proof fn lemma_round_total_bound(m: PerfModel, cps: Seq<Seq<char>>, i: int)
    ensures
        0 <= round_total(m, cps, i) <= cps.len() * (u64::MAX as int),
    decreases cps.len(),
{
    if cps.len() == 0 {
    } else {
        lemma_round_total_bound(m, cps.drop_last(), i);
        assert((cps.len() - 1) * (u64::MAX as int) + u64::MAX as int == cps.len() * (
        u64::MAX as int)) by (nonlinear_arith);
    }
}

/// The per-checkpoint statistics of one profiled run.
#[derive(Clone, Copy, Debug)]
pub struct CheckpointStats {
    /// The checkpoint's name.
    pub name: &'static str,
    /// The shortest recorded segment, in nanoseconds.
    pub min_ns: u64,
    /// The longest recorded segment, in nanoseconds.
    pub max_ns: u64,
    /// The mean recorded segment, in nanoseconds, rounded down.
    pub avg_ns: u64,
}

/// The statistics of one profiled run: one entry per checkpoint in
/// first-seen order, and the per-round totals over the aligned rounds.
#[derive(Clone, Debug)]
pub struct PerfStats {
    /// The number of rounds begun.
    pub iterations: usize,
    /// Per-checkpoint statistics, in checkpoint order.
    pub rows: Vec<CheckpointStats>,
    /// The shortest per-round total, in nanoseconds.
    pub total_min_ns: u128,
    /// The longest per-round total, in nanoseconds.
    pub total_max_ns: u128,
    /// The mean per-round total, in nanoseconds, rounded down.
    pub total_avg_ns: u128,
}

/// A multi-checkpoint profiler: each round, `start` opens the round and each
/// `checkpoint` records the time since the previous mark under its name.
pub struct Perf {
    /// The instant of the previous mark; opaque to reasoning.
    pub start: std::time::Instant,
    /// The number of rounds begun.
    pub iterations: usize,
    /// The checkpoint names in the order the first round met them.
    pub checkpoints: Vec<&'static str>,
    /// For each name ever used, its recorded durations in order; keys are
    /// unique, in order of first use.
    pub measurements: Vec<(&'static str, Vec<u64>)>,
}

impl View for Perf {
    type V = PerfModel;

    open spec fn view(&self) -> PerfModel {
        PerfModel {
            iterations: self.iterations as nat,
            checkpoints: self.checkpoints@.map_values(|s: &'static str| s@),
            measurements: assoc_to_map(self.measurements@),
        }
    }
}

impl Perf {
    /// Well-formed: the series keys are unique, and the abstract state is
    /// well-formed.
    pub open spec fn wf(self) -> bool {
        &&& forall|a: int, b: int|
            0 <= a < b < self.measurements@.len() ==> (#[trigger] self.measurements@[a].0@) != (
            #[trigger] self.measurements@[b].0@)
        &&& self@.wf()
    }

    /// A fresh profiler with no rounds and no checkpoints.
    pub fn new() -> (p: Perf)
        ensures
            p.wf(),
            p@ == PerfModel::empty(),
    {
        let p = Perf {
            start: clock::now(),
            iterations: 0,
            checkpoints: Vec::new(),
            measurements: Vec::new(),
        };
        proof {
            assert(p@.checkpoints =~= Seq::<Seq<char>>::empty());
            assert(p@.measurements =~= Map::<Seq<char>, Seq<u64>>::empty());
        }
        p
    }

    /// Drop all recorded state; the profiler is fresh again.
    pub fn reset(&mut self)
        ensures
            final(self).wf(),
            final(self)@ == PerfModel::empty(),
    {
        self.iterations = 0;
        self.checkpoints.clear();
        self.measurements.clear();
        proof {
            assert(self@.checkpoints =~= Seq::<Seq<char>>::empty());
            assert(self@.measurements =~= Map::<Seq<char>, Seq<u64>>::empty());
        }
    }

    /// Begin a measurement round: the round count grows by one and the mark
    /// resets to now.
    pub fn start(&mut self)
        requires
            old(self).wf(),
            old(self).iterations < usize::MAX,
        ensures
            final(self).wf(),
            final(self)@ == perf_started(old(self)@),
            final(self).checkpoints@ == old(self).checkpoints@,
            final(self).measurements@ == old(self).measurements@,
            final(self).iterations == old(self).iterations + 1,
    {
        self.iterations = self.iterations + 1;
        self.start = clock::now();
        proof {
            assert(self@.checkpoints == old(self)@.checkpoints);
            assert(self@.measurements == old(self)@.measurements);
            assert(self@ == perf_started(old(self)@));
            lemma_started_wf(old(self)@);
            assert(self@.wf());
        }
    }

    /// Record the time since the previous mark under `name` and reset the
    /// mark to now.  During the first round, `name` is also appended to the
    /// checkpoint order.
    pub fn checkpoint(&mut self, name: &'static str)
        requires
            old(self).wf(),
        ensures
            final(self).wf(),
            exists|d: u64| final(self)@ == perf_checkpointed(old(self)@, name@, d),
            final(self).iterations == old(self).iterations,
    {
        let ghost pre = *self;
        if self.iterations == 1 {
            self.checkpoints.push(name);
        }
        let d = clock::elapsed_ns(&self.start);
        let ghost mid = *self;
        match self.find_series(name) {
            Some(j) => {
                // The name already has a series: append to it.
                proof {
                    lemma_assoc_lookup(self.measurements@, j as int);
                    lemma_assoc_dom(mid.measurements@, name@);
                }
                let mut entry = self.measurements.remove(j);
                entry.1.push(d);
                self.measurements.insert(j, entry);
                proof {
                    assert(self.measurements@ =~= mid.measurements@.update(
                        j as int,
                        self.measurements@[j as int],
                    ));
                    lemma_assoc_update(mid.measurements@, j as int, self.measurements@[j as int]);
                    assert forall|a: int, b: int| 0 <= a < b < self.measurements@.len() implies (
                    #[trigger] self.measurements@[a].0@) != (
                    #[trigger] self.measurements@[b].0@) by {
                        assert(self.measurements@[a].0@ == mid.measurements@[a].0@);
                        assert(self.measurements@[b].0@ == mid.measurements@[b].0@);
                    }
                }
            },
            None => {
                // First use of the name: open a new series at the end.
                proof {
                    lemma_assoc_dom(mid.measurements@, name@);
                }
                let mut series: Vec<u64> = Vec::new();
                series.push(d);
                proof {
                    assert(series@ =~= seq![d]);
                }
                self.measurements.push((name, series));
                proof {
                    assert(self.measurements@.drop_last() =~= mid.measurements@);
                }
            },
        }
        self.start = clock::now();
        proof {
            assert(self@ == perf_checkpointed(pre@, name@, d)) by {
                if pre.iterations == 1 {
                    assert(self@.checkpoints =~= pre@.checkpoints.push(name@));
                } else {
                    assert(self@.checkpoints =~= pre@.checkpoints);
                }
                assert(self@.measurements =~= perf_checkpointed(pre@, name@, d).measurements);
            }
            lemma_checkpointed_wf(pre@, name@, d);
        }
    }

    /// The index of the series recorded under this name, if one exists.
    fn find_series(&self, name: &str) -> (r: Option<usize>)
        ensures
            match r {
                Some(j) => j < self.measurements@.len() && self.measurements@[j as int].0@
                    == name@,
                None => forall|k: int|
                    0 <= k < self.measurements@.len() ==> (#[trigger] self.measurements@[k].0@)
                        != name@,
            },
    {
        let n = self.measurements.len();
        let mut j: usize = 0;
        while j < n
            invariant
                j <= n,
                n == self.measurements@.len(),
                forall|k: int| 0 <= k < j ==> (#[trigger] self.measurements@[k].0@) != name@,
            decreases n - j,
        {
            if str_eq(self.measurements[j].0, name) {
                return Some(j);
            }
            j = j + 1;
        }
        None
    }
}

impl Perf {
    /// The statistics of the profiled run: per-checkpoint minimum, maximum
    /// and mean segment durations, and the same three figures for the
    /// per-round totals over the aligned rounds.  Fails with `EmptyProfile`
    /// exactly when no round was begun.
    pub fn stats(&self) -> (r: Result<PerfStats, BenchmarkError>)
        requires
            self.wf(),
            (self.iterations as int) * (self.checkpoints@.len() as int) < u64::MAX as int,
        ensures
            self.iterations == 0 ==> (r matches Err(BenchmarkError::EmptyProfile)),
            self.iterations > 0 ==> (r matches Ok(st) && {
                &&& st.iterations == self.iterations
                &&& st.rows@.len() == self.checkpoints@.len()
                &&& forall|i: int|
                    0 <= i < st.rows@.len() ==> {
                        &&& (#[trigger] st.rows@[i]).name@ == self.checkpoints@[i]@
                        &&& st.rows@[i].min_ns == min64(
                            self@.measurements[self.checkpoints@[i]@],
                        )
                        &&& st.rows@[i].max_ns == max64(
                            self@.measurements[self.checkpoints@[i]@],
                        )
                        &&& st.rows@[i].avg_ns == sum64(self@.measurements[self.checkpoints@[i]@])
                            / (self@.measurements[self.checkpoints@[i]@].len() as int)
                    }
                &&& st.total_min_ns as int == min_int(totals_of(self@))
                &&& st.total_max_ns as int == max_int(totals_of(self@))
                &&& st.total_avg_ns as int == sum_int(totals_of(self@)) / (totals_of(
                    self@,
                ).len() as int)
            }),
    {
        if self.iterations == 0 {
            return Err(BenchmarkError::EmptyProfile);
        }
        let ghost m = self@;
        let cn = self.checkpoints.len();
        let mut rows: Vec<CheckpointStats> = Vec::new();
        let mut indices: Vec<usize> = Vec::new();
        let mut rounds: usize = self.iterations;
        let mut i: usize = 0;
        while i < cn
            invariant
                i <= cn,
                cn == self.checkpoints@.len(),
                self.wf(),
                m == self@,
                rows@.len() == i,
                indices@.len() == i,
                rounds as int == (if i == 0 {
                    m.iterations as int
                } else if m.iterations <= min_series_len(m, m.checkpoints.take(i as int)) {
                    m.iterations as int
                } else {
                    min_series_len(m, m.checkpoints.take(i as int)) as int
                }),
                forall|k: int|
                    #![trigger indices@[k]]
                    #![trigger rows@[k]]
                    0 <= k < i ==> {
                        &&& indices@[k] < self.measurements@.len()
                        &&& self.measurements@[indices@[k] as int].0@ == self.checkpoints@[k]@
                        &&& self.measurements@[indices@[k] as int].1@ == m.measurements[self.checkpoints@[k]@]
                        &&& rows@[k].name@ == self.checkpoints@[k]@
                        &&& rows@[k].min_ns == min64(m.measurements[self.checkpoints@[k]@])
                        &&& rows@[k].max_ns == max64(m.measurements[self.checkpoints@[k]@])
                        &&& rows@[k].avg_ns == sum64(m.measurements[self.checkpoints@[k]@]) / (m.measurements[self.checkpoints@[k]@].len() as int)
                    },
            decreases cn - i,
        {
            let name = self.checkpoints[i];
            proof {
                assert(m.checkpoints[i as int] == name@);
                assert(m.measurements.dom().contains(name@));
                lemma_assoc_dom(self.measurements@, name@);
            }
            let j = match self.find_series(name) {
                Some(j) => j,
                None => {
                    return vstd::pervasive::unreached();
                },
            };
            proof {
                lemma_assoc_lookup(self.measurements@, j as int);
            }
            let series = &self.measurements[j].1;
            rows.push(
                CheckpointStats {
                    name,
                    min_ns: vec_min(series),
                    max_ns: vec_max(series),
                    avg_ns: vec_avg(series),
                },
            );
            indices.push(j);
            proof {
                assert(m.checkpoints.take(i as int + 1).drop_last() =~= m.checkpoints.take(
                    i as int,
                ));
                assert(m.checkpoints.take(i as int + 1).last() == name@);
                assert(indices@[i as int] == j);
                assert(self.measurements@[j as int].0@ == name@);
                assert(self.measurements@[j as int].1@ == m.measurements[name@]);
                assert(rows@[i as int].name@ == self.checkpoints@[i as int]@);
                assert(rows@[i as int].min_ns == min64(m.measurements[name@]));
                assert(rows@[i as int].max_ns == max64(m.measurements[name@]));
                assert(rows@[i as int].avg_ns == sum64(m.measurements[name@]) / (
                m.measurements[name@].len() as int));
            }
            if series.len() < rounds {
                rounds = series.len();
            }
            i = i + 1;
        }
        proof {
            assert(m.checkpoints.take(cn as int) =~= m.checkpoints);
            assert(rounds as int == aligned_rounds(m));
            if cn > 0 {
                lemma_min_series_is_len(m, m.checkpoints);
                let j = choose|j: int|
                    0 <= j < m.checkpoints.len() && min_series_len(m, m.checkpoints)
                        == m.measurements[#[trigger] m.checkpoints[j]].len();
                assert(m.measurements.dom().contains(m.checkpoints[j]));
                assert(min_series_len(m, m.checkpoints) >= 1);
            }
            assert(rounds >= 1);
        }
        let mut totals: Vec<u128> = Vec::new();
        let mut r: usize = 0;
        while r < rounds
            invariant
                r <= rounds,
                cn == self.checkpoints@.len(),
                self.wf(),
                m == self@,
                indices@.len() == cn,
                rounds as int == aligned_rounds(m),
                rounds >= 1,
                totals@.len() == r,
                forall|k: int|
                    0 <= k < cn ==> {
                        &&& (#[trigger] indices@[k]) < self.measurements@.len()
                        &&& self.measurements@[indices@[k] as int].0@ == self.checkpoints@[k]@
                        &&& self.measurements@[indices@[k] as int].1@ == m.measurements[self.checkpoints@[k]@]
                    },
                forall|k: int|
                    0 <= k < r ==> (#[trigger] totals@[k]) as int == round_total(
                        m,
                        m.checkpoints,
                        k,
                    ),
            decreases rounds - r,
        {
            let mut t: u128 = 0;
            let mut j: usize = 0;
            while j < cn
                invariant
                    j <= cn,
                    r < rounds,
                    cn == self.checkpoints@.len(),
                    self.wf(),
                    m == self@,
                    indices@.len() == cn,
                    rounds as int == aligned_rounds(m),
                    forall|k: int|
                        0 <= k < cn ==> {
                            let s = m.measurements[self.checkpoints@[k]@];
                            &&& (#[trigger] indices@[k]) < self.measurements@.len()
                            &&& self.measurements@[indices@[k] as int].0@ == self.checkpoints@[k]@
                            &&& self.measurements@[indices@[k] as int].1@ == s
                        },
                    t as int == round_total(m, m.checkpoints.take(j as int), r as int),
                    t <= (j as int) * (u64::MAX as int),
                decreases cn - j,
            {
                let idx = indices[j];
                let series = &self.measurements[idx].1;
                proof {
                    lemma_min_series_le(m, m.checkpoints, j as int);
                    assert(series@.len() >= min_series_len(m, m.checkpoints));
                    assert(r < series@.len());
                    assert(m.checkpoints.take(j as int + 1).drop_last() =~= m.checkpoints.take(
                        j as int,
                    ));
                    assert(m.checkpoints.take(j as int + 1).last() == m.checkpoints[j as int]);
                    assert((j as int + 1) * (u64::MAX as int) == (j as int) * (u64::MAX as int)
                        + u64::MAX as int) by (nonlinear_arith);
                }
                let seg = series[r];
                t = t + seg as u128;
                j = j + 1;
            }
            proof {
                assert(m.checkpoints.take(cn as int) =~= m.checkpoints);
            }
            totals.push(t);
            r = r + 1;
        }
        let ghost tot = totals_of(m);
        proof {
            assert(tot.len() == rounds);
            assert forall|k: int| 0 <= k < rounds implies (#[trigger] totals@[k]) as int
                == tot[k] by {
                assert(totals@[k] as int == round_total(m, m.checkpoints, k));
            }
        }
        let mut tmin: u128 = totals[0];
        let mut tmax: u128 = totals[0];
        proof {
            assert(tmin as int == min_int(tot.take(1)));
            assert(tmax as int == max_int(tot.take(1)));
        }
        let mut kk: usize = 1;
        while kk < rounds
            invariant
                1 <= kk <= rounds,
                rounds == totals@.len(),
                tot.len() == rounds,
                forall|q: int| 0 <= q < rounds ==> (#[trigger] totals@[q]) as int == tot[q],
                tot == totals_of(m),
                tmin as int == min_int(tot.take(kk as int)),
                tmax as int == max_int(tot.take(kk as int)),
            decreases rounds - kk,
        {
            proof {
                assert(tot.take(kk as int + 1).drop_last() =~= tot.take(kk as int));
                assert(tot.take(kk as int + 1).last() == tot[kk as int]);
            }
            let x = totals[kk];
            if x < tmin {
                tmin = x;
            }
            if x > tmax {
                tmax = x;
            }
            kk = kk + 1;
        }
        let mut tsum: u128 = 0;
        let mut k: usize = 0;
        proof {
            assert(tot.take(rounds as int) =~= tot);
            assert(rounds as int <= self.iterations as int);
            assert((rounds as int) * (cn as int) <= (self.iterations as int) * (cn as int))
                by (nonlinear_arith)
                requires
                    rounds as int <= self.iterations as int,
                    cn as int >= 0,
            ;
            assert((rounds as int) * ((cn as int) * (u64::MAX as int)) == ((rounds as int) * (
            cn as int)) * (u64::MAX as int)) by (nonlinear_arith);
            assert(((rounds as int) * (cn as int)) * (u64::MAX as int) <= (u64::MAX as int - 1) * (
            u64::MAX as int)) by (nonlinear_arith)
                requires
                    (rounds as int) * (cn as int) <= u64::MAX as int - 1,
            ;
            assert((u64::MAX as int - 1) * (u64::MAX as int) < u128::MAX as int);
        }
        while k < rounds
            invariant
                k <= rounds,
                rounds == totals@.len(),
                tot.len() == rounds,
                cn == self.checkpoints@.len(),
                m == self@,
                rounds as int == aligned_rounds(m),
                forall|q: int| 0 <= q < rounds ==> (#[trigger] totals@[q]) as int == tot[q],
                tot == totals_of(m),
                tsum as int == sum_int(tot.take(k as int)),
                tsum as int <= (k as int) * ((cn as int) * (u64::MAX as int)),
                (rounds as int) * ((cn as int) * (u64::MAX as int)) < u128::MAX as int,
            decreases rounds - k,
        {
            proof {
                assert(tot.take(k as int + 1).drop_last() =~= tot.take(k as int));
                assert(tot.take(k as int + 1).last() == tot[k as int]);
                lemma_round_total_bound(m, m.checkpoints, k as int);
                assert((k as int + 1) * ((cn as int) * (u64::MAX as int)) == (k as int) * ((
                cn as int) * (u64::MAX as int)) + (cn as int) * (u64::MAX as int))
                    by (nonlinear_arith);
                assert((k as int) * ((cn as int) * (u64::MAX as int)) <= (rounds as int - 1) * ((
                cn as int) * (u64::MAX as int))) by (nonlinear_arith)
                    requires
                        k as int <= rounds as int - 1,
                        cn >= 0,
                ;
                assert((rounds as int - 1) * ((cn as int) * (u64::MAX as int)) + (cn as int) * (
                u64::MAX as int) == (rounds as int) * ((cn as int) * (u64::MAX as int)))
                    by (nonlinear_arith);
                assert(m.checkpoints.len() == cn as int);
                assert(tot[k as int] <= (cn as int) * (u64::MAX as int));
                assert(tot[k as int] >= 0);
                assert(tsum as int + tot[k as int] <= (k as int + 1) * ((cn as int) * (
                u64::MAX as int)));
                assert((k as int + 1) * ((cn as int) * (u64::MAX as int)) <= (rounds as int) * ((
                cn as int) * (u64::MAX as int))) by (nonlinear_arith)
                    requires
                        k as int + 1 <= rounds as int,
                        cn as int >= 0,
                ;
                assert(tsum as int + tot[k as int] < u128::MAX as int);
            }
            tsum = tsum + totals[k];
            k = k + 1;
        }
        proof {
            assert(tot.take(rounds as int) =~= tot);
            assert(sum_int(tot) >= 0) by {
                lemma_sum_int_nonneg(m, tot);
            }
            lemma_avg_int_fits(sum_int(tot), rounds as int);
        }
        let tavg: u128 = tsum / (rounds as u128);
        Ok(
            PerfStats {
                iterations: self.iterations,
                rows,
                total_min_ns: tmin,
                total_max_ns: tmax,
                total_avg_ns: tavg,
            },
        )
    }
}

/// Every aligned-round total is nonnegative, so their sum is too.
proof fn lemma_sum_int_nonneg(m: PerfModel, tot: Seq<int>)
    requires
        forall|k: int| 0 <= k < tot.len() ==> (#[trigger] tot[k]) == round_total(m, m.checkpoints, k),
    ensures
        sum_int(tot) >= 0,
    decreases tot.len(),
{
    if tot.len() == 0 {
    } else {
        assert forall|k: int| 0 <= k < tot.drop_last().len() implies (#[trigger] tot.drop_last()[k])
            == round_total(m, m.checkpoints, k) by {
            assert(tot.drop_last()[k] == tot[k]);
        }
        lemma_sum_int_nonneg(m, tot.drop_last());
        lemma_round_total_bound(m, m.checkpoints, tot.len() - 1);
    }
}

/// A nonnegative sum divided by a positive count stays below the sum.
proof fn lemma_avg_int_fits(sum: int, n: int)
    requires
        n >= 1,
        sum >= 0,
    ensures
        0 <= sum / n <= sum,
{
    assert(sum / n >= 0) by (nonlinear_arith)
        requires
            n >= 1,
            sum >= 0,
    ;
    assert(sum / n <= sum) by (nonlinear_arith)
        requires
            n >= 1,
            sum >= 0,
    ;
}

impl PerfStats {
    /// These statistics as a display table in microseconds: one row per
    /// checkpoint, a rule, and the per-round totals under `TOTAL`.
    pub fn to_table(&self) -> (t: Table)
        ensures
            headers_view(t.headers) == seq!["checkpoint"@, "min"@, "max"@, "avg"@],
            t.rows@.len() == self.rows@.len() + 2,
            forall|i: int|
                0 <= i < self.rows@.len() ==> row_view(#[trigger] t.rows@[i]) == seq![
                    ((#[trigger] self.rows@[i]).name@, CellStyle::Neutral),
                    (grouped_digits((self.rows@[i].min_ns / 1000) as nat), CellStyle::Highlight),
                    (grouped_digits((self.rows@[i].max_ns / 1000) as nat), CellStyle::Highlight),
                    (grouped_digits((self.rows@[i].avg_ns / 1000) as nat), CellStyle::Success),
                ],
            row_view(t.rows@[self.rows@.len() as int]) == seq![("-----"@, CellStyle::Neutral)],
            row_view(t.rows@[self.rows@.len() as int + 1]) == seq![
                ("TOTAL"@, CellStyle::Highlight),
                (grouped_digits((self.total_min_ns / 1000) as nat), CellStyle::Highlight),
                (grouped_digits((self.total_max_ns / 1000) as nat), CellStyle::Highlight),
                (grouped_digits((self.total_avg_ns / 1000) as nat), CellStyle::Success),
            ],
    {
        let mut headers: Vec<String> = Vec::new();
        headers.push(String::from_str("checkpoint"));
        headers.push(String::from_str("min"));
        headers.push(String::from_str("max"));
        headers.push(String::from_str("avg"));
        proof {
            assert(headers_view(headers) =~= seq!["checkpoint"@, "min"@, "max"@, "avg"@]);
        }
        let mut rows: Vec<Vec<Cell>> = Vec::new();
        let n = self.rows.len();
        let mut i: usize = 0;
        while i < n
            invariant
                i <= n,
                n == self.rows@.len(),
                rows@.len() == i,
                forall|k: int|
                    0 <= k < i ==> row_view(#[trigger] rows@[k]) == seq![
                        ((#[trigger] self.rows@[k]).name@, CellStyle::Neutral),
                        (grouped_digits((self.rows@[k].min_ns / 1000) as nat), CellStyle::Highlight),
                        (grouped_digits((self.rows@[k].max_ns / 1000) as nat), CellStyle::Highlight),
                        (grouped_digits((self.rows@[k].avg_ns / 1000) as nat), CellStyle::Success),
                    ],
            decreases n - i,
        {
            let st = &self.rows[i];
            let mut row: Vec<Cell> = Vec::new();
            row.push(Cell::new(String::from_str(st.name), CellStyle::Neutral));
            row.push(Cell::new(group_u64(st.min_ns / 1000), CellStyle::Highlight));
            row.push(Cell::new(group_u64(st.max_ns / 1000), CellStyle::Highlight));
            row.push(Cell::new(group_u64(st.avg_ns / 1000), CellStyle::Success));
            proof {
                assert(row_view(row) =~= seq![
                    (self.rows@[i as int].name@, CellStyle::Neutral),
                    (
                        grouped_digits((self.rows@[i as int].min_ns / 1000) as nat),
                        CellStyle::Highlight,
                    ),
                    (
                        grouped_digits((self.rows@[i as int].max_ns / 1000) as nat),
                        CellStyle::Highlight,
                    ),
                    (
                        grouped_digits((self.rows@[i as int].avg_ns / 1000) as nat),
                        CellStyle::Success,
                    ),
                ]);
            }
            rows.push(row);
            i = i + 1;
        }
        let mut rule: Vec<Cell> = Vec::new();
        rule.push(Cell::new(String::from_str("-----"), CellStyle::Neutral));
        proof {
            assert(row_view(rule) =~= seq![("-----"@, CellStyle::Neutral)]);
        }
        rows.push(rule);
        let mut total: Vec<Cell> = Vec::new();
        total.push(Cell::new(String::from_str("TOTAL"), CellStyle::Highlight));
        total.push(Cell::new(group_u128(self.total_min_ns / 1000), CellStyle::Highlight));
        total.push(Cell::new(group_u128(self.total_max_ns / 1000), CellStyle::Highlight));
        total.push(Cell::new(group_u128(self.total_avg_ns / 1000), CellStyle::Success));
        proof {
            assert(row_view(total) =~= seq![
                ("TOTAL"@, CellStyle::Highlight),
                (grouped_digits((self.total_min_ns / 1000) as nat), CellStyle::Highlight),
                (grouped_digits((self.total_max_ns / 1000) as nat), CellStyle::Highlight),
                (grouped_digits((self.total_avg_ns / 1000) as nat), CellStyle::Success),
            ]);
        }
        rows.push(total);
        Table { headers, rows }
    }
}

/// The state after `k` rounds of `start(); checkpoint(a); checkpoint(b)` on
/// a fresh profiler, where round `i` observed the segment pair `ds[i]`.
pub open spec fn two_checkpoint_rounds(a: Seq<char>, b: Seq<char>, ds: Seq<(u64, u64)>) -> PerfModel
    decreases ds.len(),
{
    if ds.len() == 0 {
        PerfModel::empty()
    } else {
        let prev = two_checkpoint_rounds(a, b, ds.drop_last());
        perf_checkpointed(perf_checkpointed(perf_started(prev), a, ds.last().0), b, ds.last().1)
    }
}

/// However many rounds are run: after `k >= 1` rounds of
/// `start(); checkpoint(a); checkpoint(b)` with distinct names on a fresh
/// profiler, the round count is `k`, the checkpoint order is exactly
/// `[a, b]`, and each name's series holds exactly its `k` observed
/// segments, in round order.
pub proof fn lemma_two_checkpoint_profile(a: Seq<char>, b: Seq<char>, ds: Seq<(u64, u64)>)
    requires
        a != b,
        ds.len() >= 1,
    ensures
        two_checkpoint_rounds(a, b, ds).iterations == ds.len(),
        two_checkpoint_rounds(a, b, ds).checkpoints == seq![a, b],
        two_checkpoint_rounds(a, b, ds).measurements.dom() == set![a, b],
        two_checkpoint_rounds(a, b, ds).measurements[a] == Seq::new(ds.len(), |i: int| ds[i].0),
        two_checkpoint_rounds(a, b, ds).measurements[b] == Seq::new(ds.len(), |i: int| ds[i].1),
    decreases ds.len(),
{
    let m = two_checkpoint_rounds(a, b, ds);
    if ds.len() == 1 {
        assert(ds.drop_last().len() == 0);
        assert(two_checkpoint_rounds(a, b, ds.drop_last()) == PerfModel::empty());
        assert(m.checkpoints =~= seq![a, b]);
        assert(m.measurements.dom() =~= set![a, b]);
        assert(m.measurements[a] =~= Seq::new(1, |i: int| ds[i].0));
        assert(m.measurements[b] =~= Seq::new(1, |i: int| ds[i].1));
    } else {
        lemma_two_checkpoint_profile(a, b, ds.drop_last());
        let prev = two_checkpoint_rounds(a, b, ds.drop_last());
        assert(m.checkpoints =~= seq![a, b]);
        assert(m.measurements.dom() =~= set![a, b]);
        assert(m.measurements[a] =~= prev.measurements[a].push(ds.last().0));
        assert(m.measurements[a] =~= Seq::new(ds.len(), |i: int| ds[i].0));
        assert(m.measurements[b] =~= Seq::new(ds.len(), |i: int| ds[i].1));
    }
}

impl Default for Perf {
    /// The same fresh profiler as `new`.
    fn default() -> (p: Perf)
        ensures
            p.wf(),
            p@ == PerfModel::empty(),
    {
        Perf::new()
    }
}

} // verus!
