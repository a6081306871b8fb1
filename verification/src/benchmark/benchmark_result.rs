//! What a benchmark reports about the runs that failed.
use vstd::prelude::*;

verus! {

/// A run left out of the statistics because its command failed.
#[derive(Debug, Clone, Copy, PartialEq, Eq, Structural)]
pub struct OmittedRun {
    /// Zero-based index of the benchmark run
    pub index: usize,
    /// The exit code of the failed command, or None if terminated by signal
    pub exit_code: Option<i32>,
}

/// A run failed: it exited with a code other than 0, or was killed.
pub open spec fn is_failure(code: Option<i32>) -> bool {
    code != Some(0i32)
}

/// A run failed, by its exit code.
pub fn is_failure_exec(code: Option<i32>) -> (b: bool)
    ensures
        b == is_failure(code),
{
    match code {
        Some(c) => c != 0,
        None => true,
    }
}

/// Returns true if any run had a non-zero or missing exit code.
pub fn has_failure(exit_codes: &[Option<i32>]) -> (b: bool)
    ensures
        b == exists|i: int| 0 <= i < exit_codes@.len() && is_failure(#[trigger] exit_codes@[i]),
{
    let mut i: usize = 0;
    while i < exit_codes.len()
        invariant
            i <= exit_codes@.len(),
            forall|j: int| 0 <= j < i ==> !is_failure(#[trigger] exit_codes@[j]),
        decreases exit_codes.len() - i,
    {
        if is_failure_exec(exit_codes[i]) {
            assert(is_failure(exit_codes@[i as int]));
            return true;
        }
        i += 1;
    }
    false
}

} // verus!
