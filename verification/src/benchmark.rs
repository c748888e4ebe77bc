use vstd::prelude::*;

use crate::clock;
use crate::numfmt::fixed3_text;
use crate::numfmt::grouped_digits;
use crate::numfmt::group_u64;
use crate::numfmt::percent2_text;
use crate::numfmt::rounded_div;
use crate::numfmt::rounded_div_u64;
use crate::numfmt::to_fixed3;
use crate::numfmt::to_percent2;

verus! {

/// Throughput in successful iterations per second of elapsed wall-clock time:
/// `floor((iterations - errors) * 10^9 / elapsed_ns)`, clamped to `u32`.
/// When `elapsed_ns == 0` the speed is defined as `0` rather than an
/// infinity; when `errors > iterations` the numerator is taken as `0`.
pub open spec fn speed_of(elapsed_ns: u64, iterations: u32, errors: u32) -> u32 {
    if elapsed_ns == 0 {
        0
    } else {
        let succ: int = if errors <= iterations {
            iterations - errors
        } else {
            0
        };
        let s = succ * 1_000_000_000 / (elapsed_ns as int);
        if s > u32::MAX {
            u32::MAX as u32
        } else {
            s as u32
        }
    }
}

/// The successful iterations of a run: `iterations - errors`, or `0` when
/// the error count exceeds the iteration count.
pub open spec fn successes_of(iterations: u32, errors: u32) -> u32 {
    if errors <= iterations {
        (iterations - errors) as u32
    } else {
        0
    }
}

/// Benchmark results for a simple benchmark or a stage.  Derived and
/// immutable: recomputed on each query from the live or frozen state.
#[derive(Clone, Copy, Debug, PartialEq, Eq, Structural)]
pub struct BenchmarkResult {
    /// Elapsed wall-clock time in nanoseconds.
    pub elapsed_ns: u64,
    /// Iterations performed.
    pub iterations: u32,
    /// Iterations whose caller-supplied check failed.
    pub errors: u32,
    /// Successful iterations per second; see `speed_of`.
    pub speed: u32,
}

impl BenchmarkResult {
    /// The result of a run that took `elapsed_ns` nanoseconds over
    /// `iterations` iterations of which `errors` failed.
    pub fn of(elapsed_ns: u64, iterations: u32, errors: u32) -> (r: BenchmarkResult)
        ensures
            r.elapsed_ns == elapsed_ns,
            r.iterations == iterations,
            r.errors == errors,
            r.speed == speed_of(elapsed_ns, iterations, errors),
    {
        let speed: u32 = if elapsed_ns == 0 {
            0
        } else {
            let succ: u64 = if errors <= iterations {
                (iterations - errors) as u64
            } else {
                0
            };
            assert(succ * 1_000_000_000 <= u64::MAX) by (nonlinear_arith)
                requires
                    succ <= u32::MAX,
            ;
            let num: u64 = succ * 1_000_000_000;
            let s: u64 = num / elapsed_ns;
            if s > u32::MAX as u64 {
                u32::MAX
            } else {
                s as u32
            }
        };
        BenchmarkResult { elapsed_ns, iterations, errors, speed }
    }
}


/// Nanoseconds spent per successful iteration: the reciprocal of the speed,
/// `0` when the speed is zero.
pub open spec fn nanos_per_iter(speed: u32) -> nat {
    if speed == 0 {
        0
    } else {
        1_000_000_000 as nat / speed as nat
    }
}

/// The display text of a result: the grouped iteration, success and error
/// counts (with the error rate when errors occurred), then the elapsed time
/// in seconds and milliseconds, the throughput, and the time per iteration.
pub open spec fn result_text(r: BenchmarkResult) -> Seq<char> {
    "Iterations: "@ + grouped_digits(r.iterations as nat) + ", success: "@ + grouped_digits(
        successes_of(r.iterations, r.errors) as nat,
    ) + ", errors: "@ + (if r.errors > 0 {
        grouped_digits(r.errors as nat) + ", error rate: "@ + percent2_text(
            rounded_div((r.errors as nat) * 10000, r.iterations as nat),
        )
    } else {
        "None"@
    }) + "\nElapsed:\n "@ + fixed3_text(rounded_div(r.elapsed_ns as nat, 1_000_000)) + " secs ("@
        + fixed3_text(rounded_div(r.elapsed_ns as nat, 1000)) + " msecs)\n "@ + grouped_digits(
        r.speed as nat,
    ) + " iters/s\n "@ + grouped_digits(nanos_per_iter(r.speed)) + " ns per iter"@
}

impl BenchmarkResult {
    /// This result, written out for display.
    pub fn to_text(&self) -> (s: String)
        ensures
            s@ == result_text(*self),
    {
        let succ: u32 = if self.errors <= self.iterations {
            self.iterations - self.errors
        } else {
            0
        };
        let nspi: u64 = if self.speed == 0 {
            0
        } else {
            1_000_000_000 / (self.speed as u64)
        };
        let mut s = String::from_str("Iterations: ");
        s.append(group_u64(self.iterations as u64).as_str());
        s.append(", success: ");
        s.append(group_u64(succ as u64).as_str());
        s.append(", errors: ");
        if self.errors > 0 {
            s.append(group_u64(self.errors as u64).as_str());
            s.append(", error rate: ");
            s.append(
                to_percent2(
                    rounded_div_u64((self.errors as u64) * 10000, self.iterations as u64),
                ).as_str(),
            );
        } else {
            s.append("None");
        }
        s.append("\nElapsed:\n ");
        s.append(to_fixed3(rounded_div_u64(self.elapsed_ns, 1_000_000)).as_str());
        s.append(" secs (");
        s.append(to_fixed3(rounded_div_u64(self.elapsed_ns, 1000)).as_str());
        s.append(" msecs)\n ");
        s.append(group_u64(self.speed as u64).as_str());
        s.append(" iters/s\n ");
        s.append(group_u64(nspi).as_str());
        s.append(" ns per iter");
        proof {
            assert(s@ =~= result_text(*self));
        }
        s
    }
}

/// A simple benchmark, or one stage of a staged benchmark.  It is created
/// running: the timer starts at creation and `finish` freezes the elapsed
/// time.
pub struct Benchmark {
    /// The instant the timer was last started; opaque to reasoning.
    pub started: std::time::Instant,
    /// The live iteration counter.
    pub iterations: u32,
    /// The iteration count configured at creation, restored by `reset`.
    pub set_iterations: u32,
    /// The live error counter.
    pub errors: u32,
    /// The frozen elapsed time in nanoseconds: `None` while running, `Some`
    /// once finished.
    pub elapsed: Option<u64>,
}

impl Benchmark {
    /// Create a benchmark with an unknown number of iterations; the timer
    /// starts immediately.
    pub fn new0() -> (b: Benchmark)
        ensures
            b.iterations == 0,
            b.set_iterations == 0,
            b.errors == 0,
            b.elapsed is None,
    {
        Benchmark {
            started: clock::now(),
            iterations: 0,
            set_iterations: 0,
            errors: 0,
            elapsed: None,
        }
    }

    /// Create a benchmark with a pre-defined number of iterations; the timer
    /// starts immediately.
    pub fn new(iterations: u32) -> (b: Benchmark)
        ensures
            b.iterations == iterations,
            b.set_iterations == iterations,
            b.errors == 0,
            b.elapsed is None,
    {
        Benchmark {
            started: clock::now(),
            iterations,
            set_iterations: iterations,
            errors: 0,
            elapsed: None,
        }
    }

    /// Restart the timer at now, restore the configured iteration count and
    /// zero the error counter.  The benchmark is running again afterwards.
    pub fn reset(&mut self)
        ensures
            final(self).iterations == old(self).set_iterations,
            final(self).set_iterations == old(self).set_iterations,
            final(self).errors == 0,
            final(self).elapsed is None,
    {
        self.started = clock::now();
        self.iterations = self.set_iterations;
        self.errors = 0;
        self.elapsed = None;
    }

    /// Freeze the elapsed time at now; the counters stand.
    pub fn finish0(&mut self)
        ensures
            final(self).elapsed is Some,
            final(self).iterations == old(self).iterations,
            final(self).set_iterations == old(self).set_iterations,
            final(self).errors == old(self).errors,
    {
        let e = clock::elapsed_ns(&self.started);
        self.elapsed = Some(e);
    }

    /// Freeze the elapsed time at now; a given count replaces the respective
    /// live counter, a `None` leaves it standing.
    pub fn finish(&mut self, iterations: Option<u32>, errors: Option<u32>)
        ensures
            final(self).elapsed is Some,
            final(self).iterations == iterations.unwrap_or(old(self).iterations),
            final(self).errors == errors.unwrap_or(old(self).errors),
            final(self).set_iterations == old(self).set_iterations,
    {
        let e = clock::elapsed_ns(&self.started);
        self.elapsed = Some(e);
        if let Some(i) = iterations {
            self.iterations = i;
        }
        if let Some(e) = errors {
            self.errors = e;
        }
    }

    /// The result over the stored counters: frozen elapsed time if finished,
    /// elapsed-to-now otherwise (a live snapshot).
    pub fn result0(&self) -> (r: BenchmarkResult)
        ensures
            r.iterations == self.iterations,
            r.errors == self.errors,
            self.elapsed matches Some(e) ==> r.elapsed_ns == e,
            r.speed == speed_of(r.elapsed_ns, r.iterations, r.errors),
    {
        self.result(Some(self.iterations), Some(self.errors))
    }

    /// The result; a given count replaces the respective stored counter.
    /// The elapsed time is the frozen one if finished, elapsed-to-now
    /// otherwise.
    pub fn result(&self, iterations: Option<u32>, errors: Option<u32>) -> (r: BenchmarkResult)
        ensures
            r.iterations == iterations.unwrap_or(self.iterations),
            r.errors == errors.unwrap_or(self.errors),
            self.elapsed matches Some(e) ==> r.elapsed_ns == e,
            r.speed == speed_of(r.elapsed_ns, r.iterations, r.errors),
    {
        let elapsed_ns: u64 = match self.elapsed {
            Some(e) => e,
            None => clock::elapsed_ns(&self.started),
        };
        let it = match iterations {
            Some(i) => i,
            None => self.iterations,
        };
        let errs = match errors {
            Some(e) => e,
            None => self.errors,
        };
        BenchmarkResult::of(elapsed_ns, it, errs)
    }

    /// Add one to the iteration counter.
    pub fn increment(&mut self)
        requires
            old(self).iterations < u32::MAX,
        ensures
            final(self).iterations == old(self).iterations + 1,
            final(self).set_iterations == old(self).set_iterations,
            final(self).errors == old(self).errors,
            final(self).elapsed == old(self).elapsed,
    {
        self.iterations = self.iterations + 1;
    }

    /// Add one to the error counter.
    pub fn increment_errors(&mut self)
        requires
            old(self).errors < u32::MAX,
        ensures
            final(self).errors == old(self).errors + 1,
            final(self).set_iterations == old(self).set_iterations,
            final(self).iterations == old(self).iterations,
            final(self).elapsed == old(self).elapsed,
    {
        self.errors = self.errors + 1;
    }
}


impl Benchmark {
    /// The displayed form of the result; a given count replaces the
    /// respective stored counter, as in `result`.
    pub fn to_string_for(&self, iterations: Option<u32>, errors: Option<u32>) -> (s: String)
        ensures
            exists|r: BenchmarkResult|
                {
                    &&& r.iterations == iterations.unwrap_or(self.iterations)
                    &&& r.errors == errors.unwrap_or(self.errors)
                    &&& (self.elapsed matches Some(e) ==> r.elapsed_ns == e)
                    &&& r.speed == speed_of(r.elapsed_ns, r.iterations, r.errors)
                    &&& s@ == result_text(r)
                },
    {
        let r = self.result(iterations, errors);
        r.to_text()
    }
}


impl Default for Benchmark {
    /// The same running benchmark as `new0`.
    fn default() -> (b: Benchmark)
        ensures
            b.iterations == 0,
            b.set_iterations == 0,
            b.errors == 0,
            b.elapsed is None,
    {
        Benchmark::new0()
    }
}

} // verus!
