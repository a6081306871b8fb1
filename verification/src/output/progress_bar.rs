//! Templates and the time estimate of the progress bar.
use vstd::prelude::*;
use vstd::string::*;
use crate::text::{push_str, push_char, push_two_digits_wide, zero_padded};

verus! {

/// The message part of the progress bar template, by default.
pub const DEFAULT_MESSAGE_TEMPLATE: &'static str = "{msg:<32}";

/// The template shown while the first run is measured.
pub const INITIAL_MEASUREMENT_TEMPLATE: &'static str = " {spinner} {msg} {elapsed_precise}";

/// Nanoseconds in one second.
pub const NANOS_PER_SEC: u128 = 1_000_000_000;

/// The progress bar template around the message template `msg`.
pub open spec fn progress_template(msg: Seq<char>) -> Seq<char> {
    " {spinner} "@ + msg + " {wide_bar} {pos}/{len} ETA {joulex_eta} "@
}

/// Format a progress bar template containing the given message template.
pub fn create_progress_template(msg_template: &str) -> (t: String)
    ensures
        t@ == progress_template(msg_template@),
{
    let mut t = String::new();
    push_str(&mut t, " {spinner} ");
    push_str(&mut t, msg_template);
    push_str(&mut t, " {wide_bar} {pos}/{len} ETA {joulex_eta} ");
    t
}

/// The estimated time (in nanoseconds) until all `total` steps are done,
/// when `done` steps were done after `done_at` and `elapsed` has passed:
/// the average step time (rounded down to the nanosecond after multiplying
/// by the number of remaining steps), less the time already spent on the
/// current step, and never below zero. `None` while no step is done.
pub open spec fn eta_spec(elapsed: nat, done: nat, done_at: nat, total: nat) -> Option<nat> {
    if done == 0 {
        None
    } else {
        let remaining: nat = if total > done { (total - done) as nat } else { 0 };
        let in_current_step: int = if elapsed > done_at { elapsed - done_at } else { 0 };
        let estimate: int = (done_at * remaining / done) as int - in_current_step;
        Some(if estimate > 0 { estimate as nat } else { 0 })
    }
}

/// Estimated time until all `total` steps are done, in nanoseconds.
///
/// `done_at_ns` is the elapsed time when the `done`-th step finished. The
/// average step duration up to then, times the remaining steps, minus the
/// time already spent on the current step, gives an estimate that decreases
/// steadily while a step is running instead of growing. None while no step
/// has finished yet.
pub fn eta(elapsed_ns: u64, done: u64, done_at_ns: u64, total: u64) -> (r: Option<u128>)
    ensures
        match eta_spec(elapsed_ns as nat, done as nat, done_at_ns as nat, total as nat) {
            None => r is None,
            Some(v) => r == Some(v as u128),
        },
{
    if done == 0 {
        return None;
    }
    let remaining: u64 = if total > done { total - done } else { 0 };
    let a: u128 = done_at_ns as u128;
    let b: u128 = remaining as u128;
    assert(a * b <= 0xffff_ffff_ffff_ffffu128 * 0xffff_ffff_ffff_ffffu128) by (nonlinear_arith)
        requires
            a <= 0xffff_ffff_ffff_ffffu128,
            b <= 0xffff_ffff_ffff_ffffu128,
    ;
    let product: u128 = a * b;
    let per_steps: u128 = product / (done as u128);
    let in_current_step: u128 = if elapsed_ns > done_at_ns { (elapsed_ns - done_at_ns) as u128 } else { 0 };
    if per_steps > in_current_step {
        Some(per_steps - in_current_step)
    } else {
        Some(0)
    }
}

/// The text of an estimate: `HH:MM:SS` (hours with at least two digits),
/// or `--:--:--` where there is none.
pub open spec fn eta_text(eta: Option<u128>) -> Seq<char> {
    match eta {
        None => "--:--:--"@,
        Some(ns) => {
            let secs: nat = (ns / NANOS_PER_SEC) as nat;
            zero_padded(secs / 3600, 2) + ":"@ + zero_padded((secs / 60) % 60, 2) + ":"@
                + zero_padded(secs % 60, 2)
        },
    }
}

/// Format an estimate as `HH:MM:SS`.
pub fn format_eta(eta: Option<u128>) -> (s: String)
    ensures
        s@ == eta_text(eta),
{
    proof {
        reveal_strlit("--:--:--");
        reveal_strlit(":");
    }
    match eta {
        None => {
            let mut s = String::new();
            push_str(&mut s, "--:--:--");
            s
        },
        Some(ns) => {
            let secs: u128 = ns / NANOS_PER_SEC;
            let mut s = String::new();
            push_two_digits_wide(&mut s, secs / 3600);
            push_char(&mut s, ':');
            push_two_digits_wide(&mut s, (secs / 60) % 60);
            push_char(&mut s, ':');
            push_two_digits_wide(&mut s, secs % 60);
            assert(s@ =~= eta_text(eta));
            s
        },
    }
}

/// While no step completes, the estimate never grows as time passes.
pub proof fn lemma_eta_decreases_while_waiting(t1: nat, t2: nat, done: nat, done_at: nat, total: nat)
    requires
        done > 0,
        done_at <= t1 <= t2,
    ensures
        eta_spec(t2, done, done_at, total)->0 <= eta_spec(t1, done, done_at, total)->0,
{
}

/// The estimate is zero once every step is done.
pub proof fn lemma_eta_zero_when_finished(elapsed: nat, done: nat, done_at: nat, total: nat)
    requires
        done > 0,
        done >= total,
    ensures
        eta_spec(elapsed, done, done_at, total) == Some(0nat),
{
    assert(done_at * 0 / done == 0) by (nonlinear_arith)
        requires done > 0;
}

} // verus!
