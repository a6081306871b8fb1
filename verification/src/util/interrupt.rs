//! What a Ctrl-C means: the first one stops the benchmarks after the
//! current run, the second one ends the program at once.
use vstd::prelude::*;

verus! {

/// The exit code after a second Ctrl-C.
pub const INTERRUPT_EXIT_CODE: i32 = 130;

/// Returns true if a Ctrl-C signal has been received, given how many were.
pub fn interrupted(presses: u8) -> (b: bool)
    ensures
        b == (presses > 0),
{
    presses > 0
}

/// The counter after one more Ctrl-C: it wraps around as an atomic `u8`
/// does.
pub open spec fn triggered(presses: u8) -> u8 {
    if presses == u8::MAX { 0 } else { (presses + 1) as u8 }
}

/// The counter after a reset and `k` Ctrl-Cs.
pub open spec fn presses_after(k: nat) -> u8
    decreases k,
{
    if k == 0 { 0 } else { triggered(presses_after((k - 1) as nat)) }
}

/// After a reset and `k` Ctrl-Cs, an interrupt is pending exactly when `k`
/// is not a multiple of 256 (the counter wraps around).
pub proof fn lemma_interrupted_after_triggers(k: nat)
    ensures
        presses_after(k) == k % 256,
        (presses_after(k) > 0) == (k % 256 > 0),
    decreases k,
{
    if k > 0 {
        lemma_interrupted_after_triggers((k - 1) as nat);
    }
}

/// Count one more Ctrl-C (the counter wraps around as an atomic `u8` does).
pub fn trigger(presses: &mut u8)
    ensures
        *final(presses) == triggered(*old(presses)),
{
    *presses = presses.wrapping_add(1);
}

/// Forget every Ctrl-C counted so far.
pub fn reset(presses: &mut u8)
    ensures
        *final(presses) == 0,
{
    *presses = 0;
}

/// What a Ctrl-C does, given how many came before it: `Some` with the exit
/// code where the program ends at once (from the second one on), `None`
/// where the benchmarks are only asked to stop.
pub fn on_interrupt(presses_before: u8) -> (r: Option<i32>)
    ensures
        r == (if presses_before >= 1 { Some(INTERRUPT_EXIT_CODE) } else { None::<i32> }),
{
    if presses_before >= 1 {
        Some(INTERRUPT_EXIT_CODE)
    } else {
        None
    }
}

} // verus!
