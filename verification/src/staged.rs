use vstd::prelude::*;

use crate::benchmark::speed_of;
use crate::benchmark::successes_of;
use crate::benchmark::Benchmark;
use crate::benchmark::BenchmarkResult;
use crate::errors::BenchmarkError;
use crate::numfmt::fixed3_text;
use crate::numfmt::grouped_digits;
use crate::numfmt::group_u64;
use crate::numfmt::percent2_text;
use crate::numfmt::rounded_div;
use crate::numfmt::rounded_div_u64;
use crate::numfmt::to_fixed3;
use crate::numfmt::to_percent2;
use crate::table::headers_view;
use crate::table::row_view;
use crate::table::Cell;
use crate::table::CellStyle;
use crate::table::Table;
use crate::strutil::lemma_lex_lt_trans;
use crate::strutil::lemma_lex_lt_trichotomy;
use crate::strutil::lex_lt;
use crate::strutil::str_eq;
use crate::strutil::str_lt;

verus! {

/// One stage: a benchmark kept under its stage name.
pub struct StageEntry {
    pub name: String,
    pub bench: Benchmark,
}

/// The position at which `nm` belongs in the ascending list `names`: the
/// number of leading entries that come strictly before it.
pub open spec fn insert_pos(names: Seq<Seq<char>>, nm: Seq<char>) -> int
    decreases names.len(),
{
    if names.len() == 0 {
        0
    } else if lex_lt(names[0], nm) {
        1 + insert_pos(names.drop_first(), nm)
    } else {
        0
    }
}

/// How one stage's benchmark relates to its earlier self after it was
/// finished with the given counts: the elapsed time froze and the counters
/// were overwritten.
pub open spec fn stage_finished(pre: Benchmark, post: Benchmark, iterations: u32, errors: u32) -> bool {
    &&& post.iterations == iterations
    &&& post.errors == errors
    &&& post.set_iterations == pre.set_iterations
    &&& post.elapsed is Some
}

/// How a stage list relates to its earlier self after the stage named `nm`
/// was finished: that one entry froze, every other entry stands.
pub open spec fn stages_finish_effect(
    pre: Seq<StageEntry>,
    post: Seq<StageEntry>,
    nm: Seq<char>,
    iterations: u32,
    errors: u32,
) -> bool {
    &&& post.len() == pre.len()
    &&& exists|i: int|
        {
            &&& 0 <= i < pre.len()
            &&& pre[i].name@ == nm
            &&& post[i].name@ == nm
            &&& #[trigger] stage_finished(pre[i].bench, post[i].bench, iterations, errors)
            &&& forall|j: int| 0 <= j < pre.len() && j != i ==> post[j] == pre[j]
        }
}

/// An ordered collection of named benchmark stages, compared against each
/// other by throughput.  The list is kept strictly sorted by stage name.
pub struct StagedBenchmark {
    /// The stages, in strictly ascending name order.
    pub stages: Vec<StageEntry>,
    /// The most recently started, not yet finished stage.
    pub current_stage: Option<String>,
}

impl StagedBenchmark {
    /// The stage names in order.
    pub open spec fn names(self) -> Seq<Seq<char>> {
        self.stages@.map_values(|e: StageEntry| e.name@)
    }

    /// Whether a stage of this name is present.
    pub open spec fn has_stage(self, nm: Seq<char>) -> bool {
        exists|i: int| 0 <= i < self.stages@.len() && (#[trigger] self.stages@[i].name@) == nm
    }

    /// Well-formed: names strictly ascending (hence unique), and the current
    /// stage, if one is marked, present in the list.
    pub open spec fn wf(self) -> bool {
        &&& forall|i: int, j: int|
            0 <= i < j < self.stages@.len() ==> #[trigger] lex_lt(
                self.stages@[i].name@,
                self.stages@[j].name@,
            )
        &&& match self.current_stage {
            Some(c) => self.has_stage(c@),
            None => true,
        }
    }

    /// An empty collection with no current stage.
    pub fn new() -> (s: StagedBenchmark)
        ensures
            s.wf(),
            s.stages@.len() == 0,
            s.current_stage is None,
    {
        StagedBenchmark { stages: Vec::new(), current_stage: None }
    }

    /// The index of the stage of this name, if present.
    fn find_stage(&self, name: &str) -> (r: Option<usize>)
        ensures
            match r {
                Some(i) => i < self.stages@.len() && self.stages@[i as int].name@ == name@,
                None => !self.has_stage(name@),
            },
    {
        let n = self.stages.len();
        let mut i: usize = 0;
        while i < n
            invariant
                i <= n,
                n == self.stages@.len(),
                forall|j: int| 0 <= j < i ==> (#[trigger] self.stages@[j].name@) != name@,
            decreases n - i,
        {
            if str_eq(self.stages[i].name.as_str(), name) {
                return Some(i);
            }
            i = i + 1;
        }
        None
    }

    /// The position at which a new stage of this name belongs.
    fn insert_position(&self, name: &str) -> (p: usize)
        ensures
            p <= self.stages@.len(),
            p == insert_pos(self.names(), name@),
            forall|j: int| 0 <= j < p ==> lex_lt(#[trigger] self.stages@[j].name@, name@),
            p < self.stages@.len() ==> !lex_lt(self.stages@[p as int].name@, name@),
    {
        let n = self.stages.len();
        let mut i: usize = 0;
        proof {
            assert(self.names().skip(0) =~= self.names());
        }
        loop
            invariant
                i <= n,
                n == self.stages@.len(),
                forall|j: int| 0 <= j < i ==> lex_lt(#[trigger] self.stages@[j].name@, name@),
                insert_pos(self.names(), name@) == i + insert_pos(
                    self.names().skip(i as int),
                    name@,
                ),
            decreases n - i,
        {
            if i >= n {
                assert(self.names().skip(i as int).len() == 0);
                return i;
            }
            assert(self.names().skip(i as int)[0] == self.stages@[i as int].name@);
            if !str_lt(self.stages[i].name.as_str(), name) {
                assert(insert_pos(self.names().skip(i as int), name@) == 0);
                return i;
            }
            proof {
                assert(self.names().skip(i as int).drop_first() =~= self.names().skip(i as int + 1));
            }
            i = i + 1;
        }
    }

    /// Open a new stage under this name and mark it current; its timer
    /// starts immediately.  Fails with `DuplicateStage` if the name is
    /// already present, leaving the collection unchanged.
    pub fn start(&mut self, name: &str) -> (r: Result<(), BenchmarkError>)
        requires
            old(self).wf(),
        ensures
            final(self).wf(),
            old(self).has_stage(name@) ==> {
                &&& *final(self) == *old(self)
                &&& r matches Err(BenchmarkError::DuplicateStage(n)) && n@ == name@
            },
            !old(self).has_stage(name@) ==> {
                &&& r is Ok
                &&& exists|e: StageEntry|
                    {
                        &&& (#[trigger] e.name@) == name@
                        &&& e.bench.iterations == 0
                        &&& e.bench.set_iterations == 0
                        &&& e.bench.errors == 0
                        &&& e.bench.elapsed is None
                        &&& final(self).stages@ == old(self).stages@.insert(
                            insert_pos(old(self).names(), name@),
                            e,
                        )
                    }
                &&& final(self).current_stage matches Some(c) && c@ == name@
            },
    {
        if self.find_stage(name).is_some() {
            return Err(BenchmarkError::DuplicateStage(name.to_owned()));
        }
        let p = self.insert_position(name);
        let entry = StageEntry { name: name.to_owned(), bench: Benchmark::new0() };
        let ghost pre = *self;
        self.stages.insert(p, entry);
        self.current_stage = Some(name.to_owned());
        proof {
            let s = self.stages@;
            // Everything at or after the insertion point comes strictly
            // after the new name.
            assert forall|j: int| p < j < s.len() implies lex_lt(name@, s[j].name@) by {
                assert(s[j] == pre.stages@[j - 1]);
                lemma_lex_lt_trichotomy(pre.stages@[p as int].name@, name@);
                assert(pre.stages@[p as int].name@ != name@);
                if j - 1 > p {
                    lemma_lex_lt_trans(
                        name@,
                        pre.stages@[p as int].name@,
                        pre.stages@[j - 1].name@,
                    );
                }
            }
            assert forall|i: int, j: int| 0 <= i < j < s.len() implies lex_lt(
                s[i].name@,
                s[j].name@,
            ) by {
                if j < p {
                } else if i < p && j == p {
                    assert(s[i] == pre.stages@[i]);
                } else if i == p {
                    assert(lex_lt(name@, s[j].name@));
                } else if i < p {
                    assert(s[i] == pre.stages@[i]);
                    assert(s[j] == pre.stages@[j - 1]);
                } else {
                    assert(s[i] == pre.stages@[i - 1]);
                    assert(s[j] == pre.stages@[j - 1]);
                }
            }
            assert(self.has_stage(name@)) by {
                assert(self.stages@[p as int].name@ == name@);
            }
        }
        Ok(())
    }

    /// Finish the stage of this name with the given counts: its elapsed time
    /// freezes and its counters are overwritten.  If that stage was marked
    /// current, the marker clears.  Fails with `UnknownStage` if the name is
    /// absent, leaving the collection unchanged.
    pub fn finish(&mut self, name: &str, iterations: u32, errors: u32) -> (r: Result<
        (),
        BenchmarkError,
    >)
        requires
            old(self).wf(),
        ensures
            final(self).wf(),
            !old(self).has_stage(name@) ==> {
                &&& *final(self) == *old(self)
                &&& r matches Err(BenchmarkError::UnknownStage(n)) && n@ == name@
            },
            old(self).has_stage(name@) ==> {
                &&& r is Ok
                &&& stages_finish_effect(
                    old(self).stages@,
                    final(self).stages@,
                    name@,
                    iterations,
                    errors,
                )
                &&& final(self).current_stage == (match old(self).current_stage {
                    Some(c) => if c@ == name@ {
                        Option::<String>::None
                    } else {
                        old(self).current_stage
                    },
                    None => Option::<String>::None,
                })
            },
    {
        let i = match self.find_stage(name) {
            Some(i) => i,
            None => {
                return Err(BenchmarkError::UnknownStage(name.to_owned()));
            },
        };
        let ghost pre = *self;
        let mut entry = self.stages.remove(i);
        entry.bench.finish(Some(iterations), Some(errors));
        self.stages.insert(i, entry);
        proof {
            assert(self.stages@ =~= pre.stages@.update(i as int, self.stages@[i as int]));
        }
        let clear = match &self.current_stage {
            Some(c) => str_eq(c.as_str(), name),
            None => false,
        };
        if clear {
            self.current_stage = None;
        }
        proof {
            assert(stage_finished(
                pre.stages@[i as int].bench,
                self.stages@[i as int].bench,
                iterations,
                errors,
            ));
            assert forall|a: int, b: int| 0 <= a < b < self.stages@.len() implies lex_lt(
                self.stages@[a].name@,
                self.stages@[b].name@,
            ) by {
                assert(self.stages@[a].name@ == pre.stages@[a].name@);
                assert(self.stages@[b].name@ == pre.stages@[b].name@);
            }
            if self.current_stage is Some {
                let c = self.current_stage->Some_0;
                assert(self.has_stage(c@)) by {
                    let k = choose|k: int|
                        0 <= k < pre.stages@.len() && (#[trigger] pre.stages@[k].name@) == c@;
                    assert(self.stages@[k].name@ == c@);
                }
            }
        }
        Ok(())
    }

    /// Finish the current (most recently started) stage with the given
    /// counts and clear the marker.  Fails with `NoActiveStage` if no stage
    /// is open, leaving the collection unchanged.
    pub fn finish_current(&mut self, iterations: u32, errors: u32) -> (r: Result<
        (),
        BenchmarkError,
    >)
        requires
            old(self).wf(),
        ensures
            final(self).wf(),
            old(self).current_stage is None ==> {
                &&& *final(self) == *old(self)
                &&& r matches Err(BenchmarkError::NoActiveStage)
            },
            old(self).current_stage matches Some(c) ==> {
                &&& r is Ok
                &&& stages_finish_effect(
                    old(self).stages@,
                    final(self).stages@,
                    c@,
                    iterations,
                    errors,
                )
                &&& final(self).current_stage is None
            },
    {
        let current = match self.current_stage.take() {
            Some(c) => c,
            None => {
                return Err(BenchmarkError::NoActiveStage);
            },
        };
        let r = self.finish(current.as_str(), iterations, errors);
        proof {
            assert(r is Ok);
        }
        match r {
            Ok(()) => Ok(()),
            Err(_) => vstd::pervasive::unreached(),
        }
    }

    /// Drop all stages and the current marker.
    pub fn reset(&mut self)
        ensures
            final(self).wf(),
            final(self).stages@.len() == 0,
            final(self).current_stage is None,
    {
        self.stages.clear();
        self.current_stage = None;
    }
}

/// The result a finished benchmark reports: its frozen elapsed time over its
/// stored counters.  Meaningful when `b.elapsed is Some`.
pub open spec fn frozen_result(b: Benchmark) -> BenchmarkResult {
    BenchmarkResult {
        elapsed_ns: b.elapsed->Some_0,
        iterations: b.iterations,
        errors: b.errors,
        speed: speed_of(b.elapsed->Some_0, b.iterations, b.errors),
    }
}

/// Whether any of the results reports errors.
pub open spec fn any_errors(rs: Seq<(String, BenchmarkResult)>) -> bool {
    exists|i: int| 0 <= i < rs.len() && (#[trigger] rs[i].1.errors) > 0
}

/// Whether a result under this name is present.
pub open spec fn has_result(rs: Seq<(String, BenchmarkResult)>, nm: Seq<char>) -> bool {
    exists|i: int| 0 <= i < rs.len() && (#[trigger] rs[i].0@) == nm
}

/// The index of the first result under this name.
pub open spec fn result_index(rs: Seq<(String, BenchmarkResult)>, nm: Seq<char>) -> int
    decreases rs.len(),
{
    if rs.len() == 0 {
        0
    } else if rs[0].0@ == nm {
        0
    } else {
        1 + result_index(rs.drop_first(), nm)
    }
}

/// When a result of this name exists, `result_index` points at the first
/// occurrence.
pub proof fn lemma_result_index_valid(rs: Seq<(String, BenchmarkResult)>, nm: Seq<char>)
    requires
        has_result(rs, nm),
    ensures
        0 <= result_index(rs, nm) < rs.len(),
        rs[result_index(rs, nm)].0@ == nm,
    decreases rs.len(),
{
    if rs[0].0@ == nm {
    } else {
        assert(has_result(rs.drop_first(), nm)) by {
            let k = choose|k: int| 0 <= k < rs.len() && (#[trigger] rs[k].0@) == nm;
            assert(rs.drop_first()[k - 1].0@ == nm);
        }
        lemma_result_index_valid(rs.drop_first(), nm);
    }
}

/// The first occurrence of a name determines `result_index`.
pub proof fn lemma_result_index_is_first(rs: Seq<(String, BenchmarkResult)>, nm: Seq<char>, i: int)
    requires
        0 <= i < rs.len(),
        rs[i].0@ == nm,
        forall|j: int| 0 <= j < i ==> (#[trigger] rs[j].0@) != nm,
    ensures
        result_index(rs, nm) == i,
    decreases i,
{
    if i == 0 {
    } else {
        assert(rs[0].0@ != nm);
        assert(rs.drop_first()[i - 1].0@ == nm);
        assert forall|j: int| 0 <= j < i - 1 implies (#[trigger] rs.drop_first()[j].0@) != nm by {
            assert(rs.drop_first()[j] == rs[j + 1]);
        }
        lemma_result_index_is_first(rs.drop_first(), nm, i - 1);
    }
}

/// The headers of the comparison table: the error columns appear exactly
/// when some stage has errors, the diff column exactly when a reference
/// stage was named.
pub open spec fn table_headers(have_errs: bool, has_ref: bool) -> Seq<Seq<char>> {
    seq!["stage"@, "iters"@] + (if have_errs {
        seq!["succs"@, "errs"@, "err.rate"@]
    } else {
        Seq::<Seq<char>>::empty()
    }) + seq!["secs"@, "msecs"@, "iters/s"@] + (if has_ref {
        seq!["diff.s"@]
    } else {
        Seq::<Seq<char>>::empty()
    })
}

/// The error columns of one row: the success count (blank when zero), the
/// error count (blank when zero), and the error rate as a percentage with
/// two decimals (blank when no errors).
pub open spec fn err_cells(r: BenchmarkResult) -> Seq<(Seq<char>, CellStyle)> {
    seq![
        if successes_of(r.iterations, r.errors) > 0 {
            (grouped_digits(successes_of(r.iterations, r.errors) as nat), CellStyle::Success)
        } else {
            (Seq::<char>::empty(), CellStyle::Neutral)
        },
        if r.errors > 0 {
            (grouped_digits(r.errors as nat), CellStyle::Failure)
        } else {
            (Seq::<char>::empty(), CellStyle::Neutral)
        },
        if r.errors > 0 {
            (
                percent2_text(rounded_div((r.errors as nat) * 10000, r.iterations as nat)),
                CellStyle::Failure,
            )
        } else {
            (Seq::<char>::empty(), CellStyle::Neutral)
        },
    ]
}

/// The timing columns of one row: elapsed seconds and milliseconds with
/// three decimals, and the throughput in iterations per second.
pub open spec fn time_cells(r: BenchmarkResult) -> Seq<(Seq<char>, CellStyle)> {
    seq![
        (fixed3_text(rounded_div(r.elapsed_ns as nat, 1_000_000)), CellStyle::Highlight),
        (fixed3_text(rounded_div(r.elapsed_ns as nat, 1000)), CellStyle::Highlight),
        (grouped_digits(r.speed as nat), CellStyle::Highlight),
    ]
}

/// The reference-diff column of one row.  The cell is absent when the two
/// speeds are equal, when the reference speed is zero (no meaningful ratio),
/// or when the relative difference stays within one hundredth of a percent
/// (the tie band `0.9999 <= speed/reference <= 1.0001`); otherwise it reads
/// `+P%` or `-P%` with `P = |speed/reference - 1| * 100` to two decimals.
pub open spec fn diff_cells(speed: u32, reference: u32) -> Seq<(Seq<char>, CellStyle)> {
    let delta: nat = if speed >= reference {
        (speed - reference) as nat
    } else {
        (reference - speed) as nat
    };
    if speed == reference || reference == 0 || delta * 10000 <= reference {
        Seq::<(Seq<char>, CellStyle)>::empty()
    } else if speed > reference {
        seq![
            (seq!['+'] + percent2_text(rounded_div(delta * 10000, reference as nat)), CellStyle::Success),
        ]
    } else {
        seq![
            (seq!['-'] + percent2_text(rounded_div(delta * 10000, reference as nat)), CellStyle::Failure),
        ]
    }
}

/// One row of the comparison table for the stage named `nm` with result `r`.
pub open spec fn table_row(
    nm: Seq<char>,
    r: BenchmarkResult,
    have_errs: bool,
    reference: Option<u32>,
) -> Seq<(Seq<char>, CellStyle)> {
    seq![(nm, CellStyle::Neutral), (grouped_digits(r.iterations as nat), CellStyle::Highlight)]
        + (if have_errs {
        err_cells(r)
    } else {
        Seq::<(Seq<char>, CellStyle)>::empty()
    }) + time_cells(r) + (match reference {
        Some(rs) => diff_cells(r.speed, rs),
        None => Seq::<(Seq<char>, CellStyle)>::empty(),
    })
}

/// One row of the comparison table, as display cells.
fn build_row(name: &String, r: &BenchmarkResult, have_errs: bool, refspeed: Option<u32>) -> (row:
    Vec<Cell>)
    ensures
        row_view(row) == table_row(name@, *r, have_errs, refspeed),
{
    let mut row: Vec<Cell> = Vec::new();
    row.push(Cell::new(name.clone(), CellStyle::Neutral));
    row.push(Cell::new(group_u64(r.iterations as u64), CellStyle::Highlight));
    if have_errs {
        let succ: u32 = if r.errors <= r.iterations {
            r.iterations - r.errors
        } else {
            0
        };
        if succ > 0 {
            row.push(Cell::new(group_u64(succ as u64), CellStyle::Success));
        } else {
            row.push(Cell::new(String::new(), CellStyle::Neutral));
        }
        if r.errors > 0 {
            row.push(Cell::new(group_u64(r.errors as u64), CellStyle::Failure));
            let h = rounded_div_u64((r.errors as u64) * 10000, r.iterations as u64);
            row.push(Cell::new(to_percent2(h), CellStyle::Failure));
        } else {
            row.push(Cell::new(String::new(), CellStyle::Neutral));
            row.push(Cell::new(String::new(), CellStyle::Neutral));
        }
    }
    row.push(Cell::new(to_fixed3(rounded_div_u64(r.elapsed_ns, 1_000_000)), CellStyle::Highlight));
    row.push(Cell::new(to_fixed3(rounded_div_u64(r.elapsed_ns, 1000)), CellStyle::Highlight));
    row.push(Cell::new(group_u64(r.speed as u64), CellStyle::Highlight));
    if let Some(rs) = refspeed {
        let delta: u32 = if r.speed >= rs {
            r.speed - rs
        } else {
            rs - r.speed
        };
        if r.speed != rs && rs != 0 && (delta as u64) * 10000 > rs as u64 {
            proof {
                reveal_strlit("+");
                reveal_strlit("-");
            }
            let h = rounded_div_u64((delta as u64) * 10000, rs as u64);
            let sign = if r.speed > rs {
                "+"
            } else {
                "-"
            };
            let text = String::from_str(sign).concat(to_percent2(h).as_str());
            proof {
                assert("+"@ =~= seq!['+']);
                assert("-"@ =~= seq!['-']);
            }
            let style = if r.speed > rs {
                CellStyle::Success
            } else {
                CellStyle::Failure
            };
            row.push(Cell::new(text, style));
        }
    }
    proof {
        assert(row_view(row) =~= table_row(name@, *r, have_errs, refspeed));
    }
    row
}

/// The index of the first result under this name, if one is present.
fn find_result(results: &Vec<(String, BenchmarkResult)>, name: &str) -> (r: Option<usize>)
    ensures
        match r {
            Some(i) => {
                &&& i < results@.len()
                &&& results@[i as int].0@ == name@
                &&& forall|j: int| 0 <= j < i ==> (#[trigger] results@[j].0@) != name@
            },
            None => !has_result(results@, name@),
        },
{
    let n = results.len();
    let mut i: usize = 0;
    while i < n
        invariant
            i <= n,
            n == results@.len(),
            forall|j: int| 0 <= j < i ==> (#[trigger] results@[j].0@) != name@,
        decreases n - i,
    {
        if str_eq(results[i].0.as_str(), name) {
            return Some(i);
        }
        i = i + 1;
    }
    None
}

/// The comparison table over the given per-stage results, one row per result
/// in the given order, optionally with a diff column against the result
/// named `reference`.  Fails with `UnknownStage` exactly when a reference is
/// named and no result carries that name.
pub fn build_table(results: &Vec<(String, BenchmarkResult)>, reference: Option<&str>) -> (t: Result<
    Table,
    BenchmarkError,
>)
    ensures
        match t {
            Ok(tab) => {
                &&& (match reference {
                    Some(nm) => has_result(results@, nm@),
                    None => true,
                })
                &&& headers_view(tab.headers) == table_headers(
                    any_errors(results@),
                    reference is Some,
                )
                &&& tab.rows@.len() == results@.len()
                &&& forall|i: int|
                    0 <= i < results@.len() ==> row_view(#[trigger] tab.rows@[i]) == table_row(
                        results@[i].0@,
                        results@[i].1,
                        any_errors(results@),
                        match reference {
                            Some(nm) => Some(results@[result_index(results@, nm@)].1.speed),
                            None => None,
                        },
                    )
            },
            Err(e) => {
                &&& e matches BenchmarkError::UnknownStage(n)
                &&& reference matches Some(nm) && n@ == nm@ && !has_result(results@, nm@)
            },
        },
{
    let n = results.len();
    let mut have_errs = false;
    let mut i: usize = 0;
    while i < n
        invariant
            i <= n,
            n == results@.len(),
            have_errs == exists|k: int| 0 <= k < i && (#[trigger] results@[k].1.errors) > 0,
        decreases n - i,
    {
        if results[i].1.errors > 0 {
            have_errs = true;
        }
        i = i + 1;
    }
    proof {
        assert(have_errs == any_errors(results@));
    }
    let refspeed: Option<u32> = match reference {
        Some(nm) => {
            match find_result(results, nm) {
                Some(j) => {
                    proof {
                        lemma_result_index_is_first(results@, nm@, j as int);
                    }
                    Some(results[j].1.speed)
                },
                None => {
                    return Err(BenchmarkError::UnknownStage(nm.to_owned()));
                },
            }
        },
        None => None,
    };
    let mut headers: Vec<String> = Vec::new();
    headers.push(String::from_str("stage"));
    headers.push(String::from_str("iters"));
    if have_errs {
        headers.push(String::from_str("succs"));
        headers.push(String::from_str("errs"));
        headers.push(String::from_str("err.rate"));
    }
    headers.push(String::from_str("secs"));
    headers.push(String::from_str("msecs"));
    headers.push(String::from_str("iters/s"));
    if reference.is_some() {
        headers.push(String::from_str("diff.s"));
    }
    proof {
        assert(headers_view(headers) =~= table_headers(any_errors(results@), reference is Some));
    }
    let mut rows: Vec<Vec<Cell>> = Vec::new();
    let mut i: usize = 0;
    while i < n
        invariant
            i <= n,
            n == results@.len(),
            rows@.len() == i,
            forall|k: int|
                0 <= k < i ==> row_view(#[trigger] rows@[k]) == table_row(
                    results@[k].0@,
                    results@[k].1,
                    any_errors(results@),
                    refspeed,
                ),
            have_errs == any_errors(results@),
        decreases n - i,
    {
        let entry = &results[i];
        rows.push(build_row(&entry.0, &entry.1, have_errs, refspeed));
        i = i + 1;
    }
    Ok(Table { headers, rows })
}

impl StagedBenchmark {
    /// Whether every stage has been finished (its elapsed time frozen).
    pub open spec fn all_frozen(self) -> bool {
        forall|i: int|
            0 <= i < self.stages@.len() ==> (#[trigger] self.stages@[i].bench.elapsed) is Some
    }

    /// Whether any stage recorded errors.
    pub open spec fn any_stage_errors(self) -> bool {
        exists|i: int| 0 <= i < self.stages@.len() && (#[trigger] self.stages@[i].bench.errors) > 0
    }

    /// The per-stage results in stage order: each stage's name beside its
    /// `result0` snapshot (frozen if finished, live otherwise).
    pub fn results(&self) -> (r: Vec<(String, BenchmarkResult)>)
        ensures
            r@.len() == self.stages@.len(),
            forall|i: int|
                0 <= i < r@.len() ==> {
                    &&& (#[trigger] r@[i]).0@ == self.stages@[i].name@
                    &&& r@[i].1.iterations == self.stages@[i].bench.iterations
                    &&& r@[i].1.errors == self.stages@[i].bench.errors
                    &&& (self.stages@[i].bench.elapsed matches Some(e) ==> r@[i].1.elapsed_ns == e)
                    &&& r@[i].1.speed == speed_of(
                        r@[i].1.elapsed_ns,
                        r@[i].1.iterations,
                        r@[i].1.errors,
                    )
                },
    {
        let n = self.stages.len();
        let mut out: Vec<(String, BenchmarkResult)> = Vec::new();
        let mut i: usize = 0;
        while i < n
            invariant
                i <= n,
                n == self.stages@.len(),
                out@.len() == i,
                forall|k: int|
                    0 <= k < i ==> {
                        &&& (#[trigger] out@[k]).0@ == self.stages@[k].name@
                        &&& out@[k].1.iterations == self.stages@[k].bench.iterations
                        &&& out@[k].1.errors == self.stages@[k].bench.errors
                        &&& (self.stages@[k].bench.elapsed matches Some(e) ==> out@[k].1.elapsed_ns
                            == e)
                        &&& out@[k].1.speed == speed_of(
                            out@[k].1.elapsed_ns,
                            out@[k].1.iterations,
                            out@[k].1.errors,
                        )
                    },
            decreases n - i,
        {
            let entry = &self.stages[i];
            let res = entry.bench.result0();
            out.push((entry.name.clone(), res));
            i = i + 1;
        }
        out
    }

    /// The comparison table over all stages, in name order, without a
    /// reference column: one row per stage, whose first cell names the
    /// stage.  Once every stage is finished the whole table is a function
    /// of the stages' frozen state.
    pub fn result_table(&self) -> (t: Table)
        ensures
            t.rows@.len() == self.stages@.len(),
            headers_view(t.headers) == table_headers(self.any_stage_errors(), false),
            forall|i: int|
                0 <= i < t.rows@.len() ==> row_view(#[trigger] t.rows@[i]).len() >= 5 && row_view(
                    t.rows@[i],
                )[0] == (self.stages@[i].name@, CellStyle::Neutral) && row_view(t.rows@[i])[1] == (
                    grouped_digits(self.stages@[i].bench.iterations as nat),
                    CellStyle::Highlight,
                ),
            self.all_frozen() ==> forall|i: int|
                0 <= i < t.rows@.len() ==> row_view(#[trigger] t.rows@[i]) == table_row(
                    self.stages@[i].name@,
                    frozen_result(self.stages@[i].bench),
                    self.any_stage_errors(),
                    None,
                ),
    {
        let rs = self.results();
        proof {
            lemma_errors_agree(*self, rs@);
        }
        match build_table(&rs, None) {
            Ok(t) => {
                proof {
                    assert forall|i: int| 0 <= i < t.rows@.len() implies row_view(
                        #[trigger] t.rows@[i],
                    ).len() >= 5 && row_view(t.rows@[i])[0] == (
                        self.stages@[i].name@,
                        CellStyle::Neutral,
                    ) && row_view(t.rows@[i])[1] == (
                        grouped_digits(self.stages@[i].bench.iterations as nat),
                        CellStyle::Highlight,
                    ) by {
                        assert(row_view(t.rows@[i]) == table_row(
                            rs@[i].0@,
                            rs@[i].1,
                            any_errors(rs@),
                            None,
                        ));
                        assert(rs@[i].1.iterations == self.stages@[i].bench.iterations);
                    }
                    if self.all_frozen() {
                        assert forall|i: int| 0 <= i < t.rows@.len() implies row_view(
                            #[trigger] t.rows@[i],
                        ) == table_row(
                            self.stages@[i].name@,
                            frozen_result(self.stages@[i].bench),
                            self.any_stage_errors(),
                            None,
                        ) by {
                            assert(rs@[i].1 == frozen_result(self.stages@[i].bench));
                        }
                    }
                }
                t
            },
            Err(_) => vstd::pervasive::unreached(),
        }
    }

    /// The comparison table with a diff column against the stage named
    /// `eta`.  Fails with `UnknownStage` exactly when no stage carries that
    /// name.
    pub fn result_table_for(&self, eta: &str) -> (t: Result<Table, BenchmarkError>)
        ensures
            !self.has_stage(eta@) ==> (t matches Err(BenchmarkError::UnknownStage(n)) && n@ == eta@),
            self.has_stage(eta@) ==> (t matches Ok(tab) && {
                &&& tab.rows@.len() == self.stages@.len()
                &&& headers_view(tab.headers) == table_headers(self.any_stage_errors(), true)
                &&& forall|i: int|
                    0 <= i < tab.rows@.len() ==> row_view(#[trigger] tab.rows@[i]).len() >= 5
                        && row_view(tab.rows@[i])[0] == (
                        self.stages@[i].name@,
                        CellStyle::Neutral,
                    ) && row_view(tab.rows@[i])[1] == (
                        grouped_digits(self.stages@[i].bench.iterations as nat),
                        CellStyle::Highlight,
                    )
                &&& self.all_frozen() ==> exists|k: int|
                    {
                        &&& 0 <= k < self.stages@.len()
                        &&& (#[trigger] self.stages@[k].name@) == eta@
                        &&& forall|i: int|
                            0 <= i < tab.rows@.len() ==> row_view(#[trigger] tab.rows@[i])
                                == table_row(
                                self.stages@[i].name@,
                                frozen_result(self.stages@[i].bench),
                                self.any_stage_errors(),
                                Some(frozen_result(self.stages@[k].bench).speed),
                            )
                    }
            }),
    {
        let rs = self.results();
        proof {
            lemma_errors_agree(*self, rs@);
            if self.has_stage(eta@) {
                let k = choose|k: int|
                    0 <= k < self.stages@.len() && (#[trigger] self.stages@[k].name@) == eta@;
                assert(rs@[k].0@ == eta@);
                assert(has_result(rs@, eta@));
            }
            if has_result(rs@, eta@) {
                let k = choose|k: int| 0 <= k < rs@.len() && (#[trigger] rs@[k].0@) == eta@;
                assert(self.stages@[k].name@ == eta@);
                assert(self.has_stage(eta@));
            }
        }
        match build_table(&rs, Some(eta)) {
            Ok(tab) => {
                proof {
                    lemma_result_index_valid(rs@, eta@);
                    let k = result_index(rs@, eta@);
                    assert forall|i: int| 0 <= i < tab.rows@.len() implies row_view(
                        #[trigger] tab.rows@[i],
                    ).len() >= 5 && row_view(tab.rows@[i])[0] == (
                        self.stages@[i].name@,
                        CellStyle::Neutral,
                    ) && row_view(tab.rows@[i])[1] == (
                        grouped_digits(self.stages@[i].bench.iterations as nat),
                        CellStyle::Highlight,
                    ) by {
                        assert(row_view(tab.rows@[i]) == table_row(
                            rs@[i].0@,
                            rs@[i].1,
                            any_errors(rs@),
                            Some(rs@[k].1.speed),
                        ));
                        assert(rs@[i].1.iterations == self.stages@[i].bench.iterations);
                    }
                    if self.all_frozen() {
                        assert(self.stages@[k].name@ == eta@);
                        assert(rs@[k].1 == frozen_result(self.stages@[k].bench));
                        assert forall|i: int| 0 <= i < tab.rows@.len() implies row_view(
                            #[trigger] tab.rows@[i],
                        ) == table_row(
                            self.stages@[i].name@,
                            frozen_result(self.stages@[i].bench),
                            self.any_stage_errors(),
                            Some(frozen_result(self.stages@[k].bench).speed),
                        ) by {
                            assert(rs@[i].1 == frozen_result(self.stages@[i].bench));
                        }
                    }
                }
                Ok(tab)
            },
            Err(e) => Err(e),
        }
    }
}

/// The stage list and its result snapshot agree on whether errors occurred.
proof fn lemma_errors_agree(s: StagedBenchmark, rs: Seq<(String, BenchmarkResult)>)
    requires
        rs.len() == s.stages@.len(),
        forall|i: int| 0 <= i < rs.len() ==> (#[trigger] rs[i]).1.errors == s.stages@[i].bench.errors,
    ensures
        any_errors(rs) == s.any_stage_errors(),
{
    if s.any_stage_errors() {
        let k = choose|k: int|
            0 <= k < s.stages@.len() && (#[trigger] s.stages@[k].bench.errors) > 0;
        assert(rs[k].1.errors > 0);
        assert(any_errors(rs));
    }
    if any_errors(rs) {
        let k = choose|k: int| 0 <= k < rs.len() && (#[trigger] rs[k].1.errors) > 0;
        assert(s.stages@[k].bench.errors > 0);
        assert(s.any_stage_errors());
    }
}

/// Rows of a stage table appear in strictly ascending stage-name order:
/// whatever order the stages were started in, the row at a smaller index
/// names a lexicographically smaller stage.
pub proof fn lemma_table_rows_sorted(s: StagedBenchmark, t: Table)
    requires
        s.wf(),
        t.rows@.len() == s.stages@.len(),
        forall|i: int|
            0 <= i < t.rows@.len() ==> row_view(#[trigger] t.rows@[i]).len() >= 1 && row_view(
                t.rows@[i],
            )[0] == (s.stages@[i].name@, CellStyle::Neutral),
    ensures
        forall|i: int, j: int|
            0 <= i < j < t.rows@.len() ==> lex_lt(
                row_view(#[trigger] t.rows@[i])[0].0,
                row_view(#[trigger] t.rows@[j])[0].0,
            ),
{
}

impl Default for StagedBenchmark {
    /// The same empty collection as `new`.
    fn default() -> (s: StagedBenchmark)
        ensures
            s.wf(),
            s.stages@.len() == 0,
            s.current_stage is None,
    {
        StagedBenchmark::new()
    }
}

} // verus!
