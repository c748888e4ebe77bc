use vstd::prelude::*;

use crate::clock;
use crate::stats::max64;
use crate::stats::min64;
use crate::stats::sum64;
use crate::stats::vec_avg;
use crate::stats::vec_max;
use crate::stats::vec_min;

verus! {

/// Collects the latencies of single operations, in nanoseconds, and reports
/// their average, minimum and maximum.
pub struct LatencyBenchmark {
    /// The recorded latencies, in nanoseconds, in order of recording.
    pub latencies: Vec<u64>,
    /// The start instant of the open operation, if one is open.
    pub op: Option<std::time::Instant>,
}

impl LatencyBenchmark {
    /// Whether an operation is currently open (started and not finished).
    pub open spec fn op_open(&self) -> bool {
        self.op is Some
    }

    /// An empty collector with no open operation.
    pub fn new() -> (l: LatencyBenchmark)
        ensures
            l.latencies@ == Seq::<u64>::empty(),
            !l.op_open(),
    {
        LatencyBenchmark { latencies: Vec::new(), op: None }
    }

    /// Drop all recorded latencies and any open operation.
    pub fn clear(&mut self)
        ensures
            final(self).latencies@ == Seq::<u64>::empty(),
            !final(self).op_open(),
    {
        self.latencies.clear();
        self.op = None;
    }

    /// Mark the start of an operation; a previously open one is discarded.
    pub fn op_start(&mut self)
        ensures
            final(self).latencies@ == old(self).latencies@,
            final(self).op_open(),
    {
        self.op = Some(clock::now());
    }

    /// Record the open operation's elapsed time and close it.
    pub fn op_finish(&mut self)
        requires
            old(self).op_open(),
        ensures
            exists|d: u64| final(self).latencies@ == old(self).latencies@.push(d),
            !final(self).op_open(),
    {
        let inst = self.op.take().unwrap();
        let d = clock::elapsed_ns(&inst);
        self.latencies.push(d);
    }

    /// Record a latency measured elsewhere, in nanoseconds.
    pub fn push(&mut self, latency_ns: u64)
        ensures
            final(self).latencies@ == old(self).latencies@.push(latency_ns),
            final(self).op_open() == old(self).op_open(),
    {
        self.latencies.push(latency_ns);
    }

    /// The mean latency in nanoseconds, rounded down.
    pub fn avg(&self) -> (r: u64)
        requires
            self.latencies@.len() > 0,
        ensures
            r == sum64(self.latencies@) / (self.latencies@.len() as int),
    {
        vec_avg(&self.latencies)
    }

    /// The smallest recorded latency in nanoseconds, `0` if none.
    pub fn min(&self) -> (r: u64)
        ensures
            self.latencies@.len() == 0 ==> r == 0,
            self.latencies@.len() > 0 ==> r == min64(self.latencies@),
    {
        if self.latencies.len() == 0 {
            0
        } else {
            vec_min(&self.latencies)
        }
    }

    /// The largest recorded latency in nanoseconds, `0` if none.
    pub fn max(&self) -> (r: u64)
        ensures
            self.latencies@.len() == 0 ==> r == 0,
            self.latencies@.len() > 0 ==> r == max64(self.latencies@),
    {
        if self.latencies.len() == 0 {
            0
        } else {
            vec_max(&self.latencies)
        }
    }
}

impl Default for LatencyBenchmark {
    /// The same empty collector as `new`.
    fn default() -> (l: LatencyBenchmark)
        ensures
            l.latencies@ == Seq::<u64>::empty(),
            !l.op_open(),
    {
        LatencyBenchmark::new()
    }
}

} // verus!
