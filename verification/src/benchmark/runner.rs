//! The decisions of a benchmark's runner: how many runs, which runs count,
//! and how the summary names them.
use vstd::prelude::*;
use vstd::string::*;
use crate::benchmark::benchmark_result::{is_failure, is_failure_exec, OmittedRun};
use crate::options::RunBounds;
use crate::text::{decimal, push_decimal, push_str};

verus! {

/// Errors of the runner's decisions.
#[derive(Debug, Clone, Copy, PartialEq, Eq, Structural)]
pub enum RunnerError {
    /// Every run failed, so no statistics can be computed
    AllRunsFailed,
}

impl RunnerError {
    /// The message shown for the error.
    pub fn message(&self) -> (s: String)
        ensures
            s@ == "All benchmark runs failed. No successful runs to compute statistics from."@,
    {
        let mut s = String::new();
        push_str(&mut s, "All benchmark runs failed. No successful runs to compute statistics from.");
        s
    }
}

/// The number of runs: as many as fit into the minimum benchmarking time,
/// within the bounds, and at least one.
pub open spec fn run_count_spec(runs_in_min_time: u64, bounds: RunBounds) -> u64 {
    let lo: u64 = if runs_in_min_time > bounds.min { runs_in_min_time } else { bounds.min };
    let c: u64 = match bounds.max {
        Some(m) => if lo < m { lo } else { m },
        None => lo,
    };
    if c > 1 { c } else { 1 }
}

/// The number of runs of a benchmark, from the number of runs that fit into
/// the minimum benchmarking time (after the first run was measured).
pub fn run_count(runs_in_min_time: u64, bounds: &RunBounds) -> (c: u64)
    ensures
        c == run_count_spec(runs_in_min_time, *bounds),
{
    let lo: u64 = if runs_in_min_time > bounds.min { runs_in_min_time } else { bounds.min };
    let c: u64 = match bounds.max {
        Some(m) => if lo < m { lo } else { m },
        None => lo,
    };
    if c > 1 { c } else { 1 }
}

/// The number of runs that every command gets when the commands take turns:
/// the fixed number where the bounds fix one, else as many as fit into the
/// minimum benchmarking time (`runs_per_round`), within the bounds.
pub open spec fn common_run_count_spec(runs_per_round: u64, bounds: RunBounds) -> u64 {
    if bounds.max == Some(bounds.min) {
        bounds.min
    } else {
        run_count_spec(runs_per_round, bounds)
    }
}

/// The number of runs that every command gets when the commands take turns.
pub fn common_run_count(runs_per_round: u64, bounds: &RunBounds) -> (c: u64)
    ensures
        c == common_run_count_spec(runs_per_round, *bounds),
{
    match bounds.max {
        Some(m) => if m == bounds.min {
            return bounds.min;
        },
        None => {},
    }
    run_count(runs_per_round, bounds)
}

/// The `--prepare` (or `--conclude`) command template of benchmark
/// `number`: the only one given, or the benchmark's own.
pub fn intermediate_template(values: &Vec<String>, number: usize) -> (t: &String)
    requires
        values@.len() == 1 || number < values@.len(),
    ensures
        *t == (if values@.len() == 1 { values@[0] } else { values@[number as int] }),
{
    if values.len() == 1 {
        &values[0]
    } else {
        &values[number]
    }
}

/// The indices of the runs that succeeded, in order.
pub open spec fn kept_runs(codes: Seq<Option<i32>>) -> Seq<usize>
    decreases codes.len(),
{
    if codes.len() == 0 {
        Seq::empty()
    } else {
        let prev = kept_runs(codes.drop_last());
        if is_failure(codes.last()) { prev } else { prev.push((codes.len() - 1) as usize) }
    }
}

/// The runs that failed, in order.
pub open spec fn omitted_runs(codes: Seq<Option<i32>>) -> Seq<OmittedRun>
    decreases codes.len(),
{
    if codes.len() == 0 {
        Seq::empty()
    } else {
        let prev = omitted_runs(codes.drop_last());
        if is_failure(codes.last()) {
            prev.push(OmittedRun { index: (codes.len() - 1) as usize, exit_code: codes.last() })
        } else {
            prev
        }
    }
}

/// Split the runs into those that count (the indices of the successful
/// ones) and those left out (the failed ones, with their exit codes); an
/// error where no run succeeded.
pub fn split_failed_runs(exit_codes: &[Option<i32>]) -> (r: Result<(Vec<usize>, Vec<OmittedRun>), RunnerError>)
    ensures
        kept_runs(exit_codes@).len() == 0 ==> r == Err::<(Vec<usize>, Vec<OmittedRun>), RunnerError>(
            RunnerError::AllRunsFailed),
        kept_runs(exit_codes@).len() > 0 ==> (r matches Ok((keep, omitted)) && keep@ == kept_runs(exit_codes@)
            && omitted@ == omitted_runs(exit_codes@)),
{
    let mut keep: Vec<usize> = Vec::new();
    let mut omitted: Vec<OmittedRun> = Vec::new();
    let mut i: usize = 0;
    while i < exit_codes.len()
        invariant
            i <= exit_codes@.len(),
            keep@ == kept_runs(exit_codes@.take(i as int)),
            omitted@ == omitted_runs(exit_codes@.take(i as int)),
        decreases exit_codes.len() - i,
    {
        assert(exit_codes@.take(i + 1).drop_last() =~= exit_codes@.take(i as int));
        let code = exit_codes[i];
        if is_failure_exec(code) {
            omitted.push(OmittedRun { index: i, exit_code: code });
        } else {
            keep.push(i);
        }
        i += 1;
    }
    assert(exit_codes@.take(exit_codes@.len() as int) =~= exit_codes@);
    if keep.len() == 0 {
        Err(RunnerError::AllRunsFailed)
    } else {
        Ok((keep, omitted))
    }
}

/// The values of the runs at the given indices, in the order of the indices.
pub fn keep_runs<T: Copy>(values: &[T], keep: &[usize]) -> (r: Vec<T>)
    requires
        forall|k: int| 0 <= k < keep@.len() ==> (#[trigger] keep@[k]) < values@.len(),
    ensures
        r@.len() == keep@.len(),
        forall|k: int| 0 <= k < keep@.len() ==> r@[k] == values@[#[trigger] keep@[k] as int],
{
    let mut r: Vec<T> = Vec::new();
    let mut k: usize = 0;
    while k < keep.len()
        invariant
            k <= keep@.len(),
            forall|j: int| 0 <= j < keep@.len() ==> (#[trigger] keep@[j]) < values@.len(),
            r@.len() == k,
            forall|j: int| 0 <= j < k ==> r@[j] == values@[#[trigger] keep@[j] as int],
        decreases keep.len() - k,
    {
        let idx = keep[k];
        r.push(values[idx]);
        k += 1;
    }
    r
}

/// The largest value, or 0 where there is none.
pub open spec fn peak(values: Seq<u64>) -> u64
    decreases values.len(),
{
    if values.len() == 0 {
        0
    } else {
        let p = peak(values.drop_last());
        if values.last() > p { values.last() } else { p }
    }
}

/// The peak memory of the runs, or 0 where none was measured.
pub fn peak_memory(memory_usage_byte: &[u64]) -> (m: u64)
    ensures
        m == peak(memory_usage_byte@),
{
    let mut m: u64 = 0;
    let mut i: usize = 0;
    while i < memory_usage_byte.len()
        invariant
            i <= memory_usage_byte@.len(),
            m == peak(memory_usage_byte@.take(i as int)),
        decreases memory_usage_byte.len() - i,
    {
        assert(memory_usage_byte@.take(i + 1).drop_last() =~= memory_usage_byte@.take(i as int));
        if memory_usage_byte[i] > m {
            m = memory_usage_byte[i];
        }
        i += 1;
    }
    assert(memory_usage_byte@.take(memory_usage_byte@.len() as int) =~= memory_usage_byte@);
    m
}

/// The number of runs in the summary, with the failed runs left out.
pub open spec fn runs_text(runs: nat, omitted: nat) -> Seq<char> {
    if omitted > 0 {
        decimal(runs) + " runs ("@ + decimal(omitted) + " failed runs omitted)"@
    } else {
        decimal(runs) + " runs"@
    }
}

/// The number of runs in the summary, with the failed runs left out.
pub fn runs_summary(runs: u64, omitted: u64) -> (s: String)
    ensures
        s@ == runs_text(runs as nat, omitted as nat),
{
    let mut s = String::new();
    push_decimal(&mut s, runs);
    if omitted > 0 {
        push_str(&mut s, " runs (");
        push_decimal(&mut s, omitted);
        push_str(&mut s, " failed runs omitted)");
    } else {
        push_str(&mut s, " runs");
    }
    s
}

// ------------------------------------------------------------------------
// Laws

/// Every run either counts or is reported as omitted, never both: the two
/// lists together have one entry per run.
pub proof fn lemma_runs_are_kept_or_omitted(codes: Seq<Option<i32>>)
    requires
        codes.len() <= usize::MAX,
    ensures
        kept_runs(codes).len() + omitted_runs(codes).len() == codes.len(),
        forall|k: int| 0 <= k < kept_runs(codes).len() ==> !is_failure(codes[#[trigger] kept_runs(codes)[k] as int])
            && kept_runs(codes)[k] < codes.len(),
        forall|k: int| 0 <= k < omitted_runs(codes).len() ==> (#[trigger] omitted_runs(codes)[k]).index < codes.len()
            && omitted_runs(codes)[k].exit_code == codes[omitted_runs(codes)[k].index as int]
            && is_failure(omitted_runs(codes)[k].exit_code),
    decreases codes.len(),
{
    if codes.len() > 0 {
        let prev = codes.drop_last();
        lemma_runs_are_kept_or_omitted(prev);
        assert forall|k: int| 0 <= k < kept_runs(codes).len() implies !is_failure(codes[#[trigger] kept_runs(codes)[k] as int])
            && kept_runs(codes)[k] < codes.len() by {
            if k < kept_runs(prev).len() {
                assert(kept_runs(codes)[k] == kept_runs(prev)[k]);
                assert(codes[kept_runs(prev)[k] as int] == prev[kept_runs(prev)[k] as int]);
            }
        }
        assert forall|k: int| 0 <= k < omitted_runs(codes).len() implies (#[trigger] omitted_runs(codes)[k]).index < codes.len()
            && omitted_runs(codes)[k].exit_code == codes[omitted_runs(codes)[k].index as int]
            && is_failure(omitted_runs(codes)[k].exit_code) by {
            if k < omitted_runs(prev).len() {
                assert(omitted_runs(codes)[k] == omitted_runs(prev)[k]);
                assert(codes[omitted_runs(prev)[k].index as int] == prev[omitted_runs(prev)[k].index as int]);
            }
        }
    }
}

/// A benchmark has a failure exactly when some run is left out as failed.
pub proof fn lemma_failure_iff_omitted(codes: Seq<Option<i32>>)
    ensures
        (exists|i: int| 0 <= i < codes.len() && is_failure(#[trigger] codes[i])) <==> omitted_runs(codes).len() > 0,
    decreases codes.len(),
{
    if codes.len() > 0 {
        let prev = codes.drop_last();
        lemma_failure_iff_omitted(prev);
        if exists|i: int| 0 <= i < prev.len() && is_failure(#[trigger] prev[i]) {
            let i = choose|i: int| 0 <= i < prev.len() && is_failure(#[trigger] prev[i]);
            assert(is_failure(codes[i]));
        }
        if exists|i: int| 0 <= i < codes.len() && is_failure(#[trigger] codes[i]) {
            let i = choose|i: int| 0 <= i < codes.len() && is_failure(#[trigger] codes[i]);
            if i < prev.len() {
                assert(is_failure(prev[i]));
            }
        }
        if is_failure(codes.last()) {
            assert(is_failure(codes[codes.len() - 1]));
        }
    }
}

/// The number of runs is the number that fits into the minimum benchmarking
/// time, clamped into the bounds: that number itself where it lies within
/// them, the minimum where fewer fit, the maximum where more fit, and never
/// zero. In general it is `max(1, min(max(fit, min), max))`.
pub proof fn lemma_run_count_clamps(runs_in_min_time: u64, bounds: RunBounds)
    ensures
        runs_in_min_time >= 1 && bounds.min <= runs_in_min_time
            && (bounds.max matches Some(m) ==> runs_in_min_time <= m)
            ==> run_count_spec(runs_in_min_time, bounds) == runs_in_min_time,
        bounds.min >= 1 && runs_in_min_time < bounds.min && (bounds.max matches Some(m) ==> bounds.min <= m)
            ==> run_count_spec(runs_in_min_time, bounds) == bounds.min,
        (bounds.max matches Some(m) && m >= 1 && bounds.min <= m && m < runs_in_min_time)
            ==> run_count_spec(runs_in_min_time, bounds) == bounds.max->0,
        ({
            let fit: int = runs_in_min_time as int;
            let lo: int = if fit >= bounds.min as int { fit } else { bounds.min as int };
            let hi: int = match bounds.max {
                Some(m) => if (m as int) <= lo { m as int } else { lo },
                None => lo,
            };
            run_count_spec(runs_in_min_time, bounds) as int == (if hi >= 1 { hi } else { 1 })
        }),
{
}

/// The number of runs never exceeds a maximum and is never zero.
pub proof fn lemma_run_count_within_bounds(runs_in_min_time: u64, bounds: RunBounds)
    ensures
        run_count_spec(runs_in_min_time, bounds) >= 1,
        bounds.max is Some && bounds.max->0 >= 1 ==> run_count_spec(runs_in_min_time, bounds) <= bounds.max->0,
        (bounds.max is Some ==> bounds.min <= bounds.max->0) ==> run_count_spec(runs_in_min_time, bounds) >= bounds.min,
{
}

} // verus!
