//! The texts of the warnings that follow a benchmark's summary.
use vstd::prelude::*;
use vstd::string::*;
use crate::text::{decimal, push_decimal, push_str};

verus! {

/// Which of the options that counter cold caches are in use.
#[derive(Clone, Copy, Debug, PartialEq, Eq, Structural)]
pub struct OutlierWarningOptions {
    pub warmup_in_use: bool,
    pub prepare_in_use: bool,
}

/// The advice after a slow first run, by the options already in use.
pub open spec fn slow_first_run_hint(o: OutlierWarningOptions) -> Seq<char> {
    if o.warmup_in_use && o.prepare_in_use {
        "You are already using both the '--warmup' option as well as the '--prepare' option. Consider re-running the benchmark on a quiet system. Maybe it was a random outlier. Alternatively, consider increasing the warmup count."@
    } else if o.warmup_in_use {
        "You are already using the '--warmup' option which helps to fill these caches before the actual benchmark. You can either try to increase the warmup count further or re-run this benchmark on a quiet system in case it was a random outlier. Alternatively, consider using the '--prepare' option to clear the caches before each timing run."@
    } else if o.prepare_in_use {
        "You are already using the '--prepare' option which can be used to clear caches. If you did not use a cache-clearing command with '--prepare', you can either try that or consider using the '--warmup' option to fill those caches before the actual benchmark."@
    } else {
        "You should consider using the '--warmup' option to fill those caches before the actual benchmark. Alternatively, use the '--prepare' option to clear the caches before each timing run."@
    }
}

/// The advice after outliers: none when both options are in use.
pub open spec fn outliers_hint(o: OutlierWarningOptions) -> Seq<char> {
    if o.warmup_in_use && o.prepare_in_use {
        ""@
    } else {
        " It might help to use the '--warmup' or '--prepare' options."@
    }
}

impl OutlierWarningOptions {
    /// The advice that follows the warning about a slow first run.
    pub fn slow_first_run_hint(&self) -> (s: String)
        ensures
            s@ == slow_first_run_hint(*self),
    {
        let mut s = String::new();
        if self.warmup_in_use && self.prepare_in_use {
            push_str(&mut s, "You are already using both the '--warmup' option as well as the '--prepare' option. Consider re-running the benchmark on a quiet system. Maybe it was a random outlier. Alternatively, consider increasing the warmup count.");
        } else if self.warmup_in_use {
            push_str(&mut s, "You are already using the '--warmup' option which helps to fill these caches before the actual benchmark. You can either try to increase the warmup count further or re-run this benchmark on a quiet system in case it was a random outlier. Alternatively, consider using the '--prepare' option to clear the caches before each timing run.");
        } else if self.prepare_in_use {
            push_str(&mut s, "You are already using the '--prepare' option which can be used to clear caches. If you did not use a cache-clearing command with '--prepare', you can either try that or consider using the '--warmup' option to fill those caches before the actual benchmark.");
        } else {
            push_str(&mut s, "You should consider using the '--warmup' option to fill those caches before the actual benchmark. Alternatively, use the '--prepare' option to clear the caches before each timing run.");
        }
        s
    }

    /// The advice that ends the warning about outliers.
    pub fn outliers_hint(&self) -> (s: String)
        ensures
            s@ == outliers_hint(*self),
    {
        let mut s = String::new();
        if !(self.warmup_in_use && self.prepare_in_use) {
            push_str(&mut s, " It might help to use the '--warmup' or '--prepare' options.");
        } else {
            proof { reveal_strlit(""); }
            assert(s@ =~= ""@);
        }
        s
    }
}

/// The warning about runs left out of the statistics for their exit codes.
pub open spec fn failed_runs_omitted_text(omitted: nat, total: nat) -> Seq<char> {
    "Omitted "@ + decimal(omitted) + " of "@ + decimal(total)
        + " benchmark runs with non-zero exit codes from the summary statistics."@
}

/// The warning about runs left out of the statistics for their exit codes.
pub fn failed_runs_omitted_message(omitted: u64, total: u64) -> (s: String)
    ensures
        s@ == failed_runs_omitted_text(omitted as nat, total as nat),
{
    let mut s = String::new();
    push_str(&mut s, "Omitted ");
    push_decimal(&mut s, omitted);
    push_str(&mut s, " of ");
    push_decimal(&mut s, total);
    push_str(&mut s, " benchmark runs with non-zero exit codes from the summary statistics.");
    s
}

/// The warning about runs whose baseline was slower than the command.
pub open spec fn baseline_larger_text(runs: nat, total: nat) -> Seq<char> {
    "The '--subtract' baseline was slower than the benchmarked command in "@ + decimal(runs) + " of "@
        + decimal(total) + " runs; those were counted as 0. The net time is too small to be measured this way."@
}

/// The warning about runs whose baseline was slower than the command.
pub fn baseline_larger_message(runs: u64, total: u64) -> (s: String)
    ensures
        s@ == baseline_larger_text(runs as nat, total as nat),
{
    let mut s = String::new();
    push_str(&mut s, "The '--subtract' baseline was slower than the benchmarked command in ");
    push_decimal(&mut s, runs);
    push_str(&mut s, " of ");
    push_decimal(&mut s, total);
    push_str(&mut s, " runs; those were counted as 0. The net time is too small to be measured this way.");
    s
}

/// The shortest run time, in milliseconds, for which the startup time of
/// the shell can be subtracted with any precision.
pub const MIN_EXECUTION_MILLIS: u64 = 5;

/// The warning about runs shorter than `MIN_EXECUTION_MILLIS`.
pub open spec fn fast_execution_time_text() -> Seq<char> {
    "Command took less than "@ + decimal(MIN_EXECUTION_MILLIS as nat)
        + " ms to complete. Note that the results might be inaccurate because joulex can not calibrate the shell startup time much more precise than this limit. You can try to use the `-N`/`--shell=none` option to disable the shell completely."@
}

/// The warning about runs shorter than `MIN_EXECUTION_MILLIS`.
pub fn fast_execution_time_message() -> (s: String)
    ensures
        s@ == fast_execution_time_text(),
{
    let mut s = String::new();
    push_str(&mut s, "Command took less than ");
    push_decimal(&mut s, MIN_EXECUTION_MILLIS);
    push_str(&mut s, " ms to complete. Note that the results might be inaccurate because joulex can not calibrate the shell startup time much more precise than this limit. You can try to use the `-N`/`--shell=none` option to disable the shell completely.");
    s
}

/// The warning about runs whose failure was ignored.
pub fn non_zero_exit_code_message() -> (s: String)
    ensures
        s@ == "Ignoring non-zero exit code."@,
{
    let mut s = String::new();
    push_str(&mut s, "Ignoring non-zero exit code.");
    s
}

/// The warning about a `--subtract` baseline whose noise is large compared
/// with the net time.
pub fn noisy_baseline_message() -> (s: String)
    ensures
        s@ == "The noise (σ) of the '--subtract' baseline is more than 10% of the net time, so the net result is imprecise. Consider more runs or a quieter baseline."@,
{
    let mut s = String::new();
    push_str(&mut s, "The noise (σ) of the '--subtract' baseline is more than 10% of the net time, so the net result is imprecise. Consider more runs or a quieter baseline.");
    s
}

} // verus!
