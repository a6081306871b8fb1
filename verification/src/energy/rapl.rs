//! The RAPL energy counters of Linux (the powercap interface), as counter
//! values that the caller reads from the counter files.
use vstd::prelude::*;

verus! {

/// The largest value of a counter whose range is not known.
pub const UNKNOWN_RANGE: u64 = 0xffff_ffff_ffff_ffff;

/// `s[i]`, or `d` where `s` has no such element.
pub open spec fn at_or(s: Seq<u64>, i: int, d: u64) -> u64 {
    if 0 <= i < s.len() { s[i] } else { d }
}

/// The energy a counter measured between two readings: the difference, or,
/// where the counter wrapped around, what was left to its maximum plus the
/// new reading (saturating at the largest `u64`).
pub open spec fn counter_delta(start: u64, stop: u64, max_range: u64) -> nat {
    if stop >= start {
        (stop - start) as nat
    } else {
        let left: nat = if max_range >= start { (max_range - start) as nat } else { 0 };
        if left + stop > UNKNOWN_RANGE { UNKNOWN_RANGE as nat } else { (left + stop) as nat }
    }
}

/// The energy measured by the first `n` counters.
pub open spec fn energy_sum(start: Seq<u64>, stop: Seq<u64>, ranges: Seq<u64>, n: nat) -> nat
    decreases n,
{
    if n == 0 {
        0
    } else {
        energy_sum(start, stop, ranges, (n - 1) as nat) + counter_delta(
            at_or(start, n - 1, 0),
            at_or(stop, n - 1, 0),
            at_or(ranges, n - 1, UNKNOWN_RANGE),
        )
    }
}

/// The energy a counter measured between two readings.
pub fn counter_delta_exec(start: u64, stop: u64, max_range: u64) -> (d: u64)
    ensures
        d == counter_delta(start, stop, max_range),
{
    if stop >= start {
        stop - start
    } else {
        max_range.saturating_sub(start).saturating_add(stop)
    }
}

/// A sampler over the RAPL package counters: the paths of their counter
/// files, the range of each counter, and the readings at the start of the
/// current window.
pub struct LinuxRaplSampler {
    energy_files: Vec<String>,
    max_energy_ranges: Vec<u64>,
    start_readings: Vec<u64>,
}

impl LinuxRaplSampler {
    /// The paths of the counter files.
    pub closed spec fn files(&self) -> Seq<String> {
        self.energy_files@
    }

    /// The range of each counter.
    pub closed spec fn ranges(&self) -> Seq<u64> {
        self.max_energy_ranges@
    }

    /// The readings at the start of the current window.
    pub closed spec fn start_values(&self) -> Seq<u64> {
        self.start_readings@
    }

    /// A sampler over the given counters, with no window started; `None`
    /// where there is no counter.
    pub fn from_counters(energy_files: Vec<String>, max_energy_ranges: Vec<u64>) -> (r: Option<Self>)
        ensures
            energy_files@.len() == 0 ==> r is None,
            energy_files@.len() > 0 ==> (r matches Some(s) && s.files() == energy_files@
                && s.ranges() == max_energy_ranges@ && s.start_values().len() == 0),
    {
        if energy_files.len() == 0 {
            None
        } else {
            Some(LinuxRaplSampler { energy_files, max_energy_ranges, start_readings: Vec::new() })
        }
    }

    /// The paths of the counter files, to be read at the start and the end
    /// of a window.
    pub fn energy_files(&self) -> (f: &Vec<String>)
        ensures
            f@ == self.files(),
    {
        &self.energy_files
    }

    /// Start a window with the counters' current readings.
    pub fn start(&mut self, readings: Vec<u64>)
        ensures
            final(self).start_values() == readings@,
            final(self).files() == old(self).files(),
            final(self).ranges() == old(self).ranges(),
    {
        self.start_readings = readings;
    }

    /// End the window with the counters' current readings: the energy
    /// measured by all counters (a missing reading counts as 0, a missing
    /// range as the largest `u64`); `None` where no window was started.
    pub fn stop(&self, stop_readings: &[u64]) -> (r: Option<u128>)
        ensures
            self.start_values().len() == 0 ==> r is None,
            self.start_values().len() > 0 ==> r == Some(
                energy_sum(self.start_values(), stop_readings@, self.ranges(), self.files().len()) as u128,
            ),
    {
        if self.start_readings.len() == 0 {
            return None;
        }
        let n = self.energy_files.len();
        let mut total: u128 = 0;
        let mut i: usize = 0;
        while i < n
            invariant
                n == self.files().len(),
                i <= n,
                total == energy_sum(self.start_values(), stop_readings@, self.ranges(), i as nat),
                total <= (i as int) * (UNKNOWN_RANGE as int),
            decreases n - i,
        {
            let start: u64 = if i < self.start_readings.len() { self.start_readings[i] } else { 0 };
            let stop: u64 = if i < stop_readings.len() { stop_readings[i] } else { 0 };
            let range: u64 = if i < self.max_energy_ranges.len() { self.max_energy_ranges[i] } else { UNKNOWN_RANGE };
            let d = counter_delta_exec(start, stop, range);
            assert((i as int) * (UNKNOWN_RANGE as int) + (UNKNOWN_RANGE as int) == ((i + 1) as int) * (UNKNOWN_RANGE as int)
                && ((i + 1) as int) * (UNKNOWN_RANGE as int) <= 0xffff_ffff_ffff_ffff_ffff_ffff_ffff_ffff) by (nonlinear_arith)
                requires i < 0x1_0000_0000_0000_0000int;
            total = total + d as u128;
            i = i + 1;
        }
        Some(total)
    }

    /// Energy measurement is available where there is a counter.
    pub fn is_available(&self) -> (b: bool)
        ensures
            b == (self.files().len() > 0),
    {
        self.energy_files.len() > 0
    }
}

} // verus!
