//! OS resource counters of the runs of a benchmark.
use vstd::prelude::*;

verus! {

/// OS resource counters of a single run (from `rusage`, Unix only).
#[derive(Debug, Default, Copy, Clone, PartialEq, Eq)]
pub struct ResourceCounters {
    /// Voluntary context switches: the process blocked (I/O, locks, sleep)
    pub voluntary_ctx_switches: u64,
    /// Involuntary context switches: the process was preempted
    pub involuntary_ctx_switches: u64,
    /// Page faults served without I/O
    pub minor_faults: u64,
    /// Page faults that required I/O
    pub major_faults: u64,
    /// Block input operations (real disk reads)
    pub block_input_ops: u64,
    /// Block output operations (real disk writes)
    pub block_output_ops: u64,
}

/// Per-run resource counters of a benchmark, exported with `--resource-usage`.
#[derive(Debug, Default, Clone, PartialEq, Eq)]
pub struct ResourceSeries {
    pub voluntary_ctx_switches: Vec<u64>,
    pub involuntary_ctx_switches: Vec<u64>,
    pub minor_faults: Vec<u64>,
    pub major_faults: Vec<u64>,
    pub block_input_ops: Vec<u64>,
    pub block_output_ops: Vec<u64>,
}

impl ResourceSeries {
    /// One column per counter, with the counters of each run in order.
    pub fn from_counters(counters: &[ResourceCounters]) -> (r: Self)
        ensures
            r.voluntary_ctx_switches@.len() == counters@.len(),
            r.involuntary_ctx_switches@.len() == counters@.len(),
            r.minor_faults@.len() == counters@.len(),
            r.major_faults@.len() == counters@.len(),
            r.block_input_ops@.len() == counters@.len(),
            r.block_output_ops@.len() == counters@.len(),
            forall|i: int| 0 <= i < counters@.len() ==> #[trigger] r.voluntary_ctx_switches@[i] == counters@[i].voluntary_ctx_switches,
            forall|i: int| 0 <= i < counters@.len() ==> #[trigger] r.involuntary_ctx_switches@[i] == counters@[i].involuntary_ctx_switches,
            forall|i: int| 0 <= i < counters@.len() ==> #[trigger] r.minor_faults@[i] == counters@[i].minor_faults,
            forall|i: int| 0 <= i < counters@.len() ==> #[trigger] r.major_faults@[i] == counters@[i].major_faults,
            forall|i: int| 0 <= i < counters@.len() ==> #[trigger] r.block_input_ops@[i] == counters@[i].block_input_ops,
            forall|i: int| 0 <= i < counters@.len() ==> #[trigger] r.block_output_ops@[i] == counters@[i].block_output_ops,
    {
        let mut r = ResourceSeries {
            voluntary_ctx_switches: Vec::new(),
            involuntary_ctx_switches: Vec::new(),
            minor_faults: Vec::new(),
            major_faults: Vec::new(),
            block_input_ops: Vec::new(),
            block_output_ops: Vec::new(),
        };
        for i in 0..counters.len()
            invariant
                r.voluntary_ctx_switches@.len() == i,
                r.involuntary_ctx_switches@.len() == i,
                r.minor_faults@.len() == i,
                r.major_faults@.len() == i,
                r.block_input_ops@.len() == i,
                r.block_output_ops@.len() == i,
                forall|k: int| 0 <= k < i ==> #[trigger] r.voluntary_ctx_switches@[k] == counters@[k].voluntary_ctx_switches,
                forall|k: int| 0 <= k < i ==> #[trigger] r.involuntary_ctx_switches@[k] == counters@[k].involuntary_ctx_switches,
                forall|k: int| 0 <= k < i ==> #[trigger] r.minor_faults@[k] == counters@[k].minor_faults,
                forall|k: int| 0 <= k < i ==> #[trigger] r.major_faults@[k] == counters@[k].major_faults,
                forall|k: int| 0 <= k < i ==> #[trigger] r.block_input_ops@[k] == counters@[k].block_input_ops,
                forall|k: int| 0 <= k < i ==> #[trigger] r.block_output_ops@[k] == counters@[k].block_output_ops,
        {
            let c = counters[i];
            r.voluntary_ctx_switches.push(c.voluntary_ctx_switches);
            r.involuntary_ctx_switches.push(c.involuntary_ctx_switches);
            r.minor_faults.push(c.minor_faults);
            r.major_faults.push(c.major_faults);
            r.block_input_ops.push(c.block_input_ops);
            r.block_output_ops.push(c.block_output_ops);
        }
        r
    }
}

} // verus!
