//! How a session of benchmarks starts and ends: whether there is anything
//! to benchmark, what the system check prints and whether it stops the
//! session, and the exit code of each way the session can fail.
use vstd::prelude::*;
use crate::text::{push_decimal, push_str};

verus! {

/// The exit code of a session whose benchmarks got slower than the
/// baseline (`--fail-if-regressed`).
pub const REGRESSION_EXIT_CODE: i32 = 3;

/// The exit code of a session stopped by `--check-system strict`.
pub const SYSTEM_CHECK_EXIT_CODE: i32 = 4;

/// The exit code of any other error.
pub const ERROR_EXIT_CODE: i32 = 1;

/// Why a session did not succeed.
#[derive(Debug, Clone, Copy, PartialEq, Eq, Structural)]
pub enum Failure {
    /// Ctrl-C was pressed
    Interrupted,
    /// This many benchmarks got significantly slower than the baseline
    RegressionDetected(usize),
    /// The system check failed with `--check-system strict`
    SystemCheckFailed,
    /// Any other error
    Other,
}

/// The exit code of each failure.
pub open spec fn failure_exit_code(f: Failure) -> i32 {
    match f {
        Failure::Interrupted => crate::util::interrupt::INTERRUPT_EXIT_CODE,
        Failure::RegressionDetected(_) => REGRESSION_EXIT_CODE,
        Failure::SystemCheckFailed => SYSTEM_CHECK_EXIT_CODE,
        Failure::Other => ERROR_EXIT_CODE,
    }
}

impl Failure {
    /// The exit code of the program after this failure.
    pub fn exit_code(&self) -> (c: i32)
        ensures
            c == failure_exit_code(*self),
    {
        match self {
            Failure::Interrupted => crate::util::interrupt::INTERRUPT_EXIT_CODE,
            Failure::RegressionDetected(_) => REGRESSION_EXIT_CODE,
            Failure::SystemCheckFailed => SYSTEM_CHECK_EXIT_CODE,
            Failure::Other => ERROR_EXIT_CODE,
        }
    }
}

/// Distinct failures end the program with distinct codes, and none with 0.
pub proof fn lemma_failures_have_distinct_exit_codes(a: Failure, b: Failure)
    ensures
        failure_exit_code(a) != 0,
        (failure_exit_code(a) == failure_exit_code(b)) <==> (a is Interrupted && b is Interrupted)
            || (a is RegressionDetected && b is RegressionDetected) || (a is SystemCheckFailed
            && b is SystemCheckFailed) || (a is Other && b is Other),
{
}

/// Whether the session has nothing to do: no command, no reference command
/// and no imported result.
pub fn nothing_to_benchmark(commands: usize, has_reference: bool, imported: usize) -> (b: bool)
    ensures
        b == (commands == 0 && !has_reference && imported == 0),
{
    commands == 0 && !has_reference && imported == 0
}

/// The error of a session that has nothing to do.
pub fn nothing_to_benchmark_message() -> (s: String)
    ensures
        s@ == "No commands to benchmark and no JSON files imported."@,
{
    let mut s = String::new();
    push_str(&mut s, "No commands to benchmark and no JSON files imported.");
    s
}

/// Where the report of `--check-system` goes, and whether the session
/// stops after it.
#[derive(Debug, Clone, Copy, PartialEq, Eq, Structural)]
pub struct SystemCheckOutput {
    /// The report is printed on standard output
    pub to_stdout: bool,
    /// The report is printed on standard error (where `--style none` hides
    /// it and a failure must still be explained)
    pub to_stderr: bool,
    /// The session stops with `SystemCheckFailed`
    pub fails: bool,
}

/// What the system check does: with `--check-system strict`, a failed
/// check stops the session; the report is shown unless the output style is
/// `none`, and then still on standard error where it explains a failure.
pub fn system_check_output(strict: bool, passed: bool, style_disabled: bool) -> (o: SystemCheckOutput)
    ensures
        o.to_stdout == !style_disabled,
        o.to_stderr == (style_disabled && strict && !passed),
        o.fails == (strict && !passed),
{
    let fails = strict && !passed;
    SystemCheckOutput { to_stdout: !style_disabled, to_stderr: style_disabled && fails, fails }
}

/// The failure after a comparison with a baseline: regressions fail the
/// session, unless it was interrupted.
pub fn regression_failure(regressions: usize, interrupted: bool) -> (f: Option<Failure>)
    ensures
        f == (if regressions > 0 && !interrupted { Some(Failure::RegressionDetected(regressions)) } else { None }),
{
    if regressions > 0 && !interrupted {
        Some(Failure::RegressionDetected(regressions))
    } else {
        None
    }
}

/// The error of a session with regressions.
pub open spec fn regression_text(regressions: nat) -> Seq<char> {
    crate::text::decimal(regressions) + (if regressions == 1 {
        " benchmark got significantly slower than the baseline"@
    } else {
        " benchmarks got significantly slower than the baseline"@
    })
}

/// The error of a session with regressions.
pub fn regression_message(regressions: usize) -> (s: String)
    ensures
        s@ == regression_text(regressions as nat),
{
    let mut s = String::new();
    push_decimal(&mut s, regressions as u64);
    if regressions == 1 {
        push_str(&mut s, " benchmark got significantly slower than the baseline");
    } else {
        push_str(&mut s, " benchmarks got significantly slower than the baseline");
    }
    s
}

/// The warning before benchmarks run with `--priority realtime`.
pub fn realtime_priority_warning() -> (s: String)
    ensures
        s@ == "'--priority realtime': a benchmarked command that never blocks can starve the rest of the system, including joulex itself."@,
{
    let mut s = String::new();
    push_str(
        &mut s,
        "'--priority realtime': a benchmarked command that never blocks can starve the rest of the system, including joulex itself.",
    );
    s
}

} // verus!
