//! Energy measurement around benchmark runs. Quantities of energy are in
//! microjoules.
pub mod rapl;

use vstd::prelude::*;

verus! {

/// `std::time::Instant`, a point in time of the monotonic clock.
#[verifier::external_type_specification]
#[verifier::external_body]
pub struct ExInstant(std::time::Instant);

/// `std::time::Instant::now`: the current time. It depends on the clock, so
/// nothing is stated of it.
#[verifier::external_body]
fn instant_now() -> std::time::Instant {
    std::time::Instant::now()
}

/// The energy that the mock sampler reports for each window: 1.25 J.
pub const MOCK_WINDOW_MICROJOULES: u128 = 1_250_000;

/// The sampler used where no energy counter is available: it notes when a
/// window starts and never reports a measurement.
pub struct DummySampler {
    start_time: Option<std::time::Instant>,
}

impl DummySampler {
    /// A window has been started.
    pub closed spec fn started(&self) -> bool {
        self.start_time is Some
    }

    /// A sampler with no window started.
    pub fn new() -> (s: Self)
        ensures
            !s.started(),
    {
        DummySampler { start_time: None }
    }

    /// Start a measurement window.
    pub fn start(&mut self)
        ensures
            final(self).started(),
    {
        self.start_time = Some(instant_now());
    }

    /// End a window: there is no measurement.
    pub fn stop(&mut self) -> (r: Option<u128>)
        ensures
            r is None,
    {
        None
    }

    /// Energy measurement is not available.
    pub fn is_available(&self) -> (b: bool)
        ensures
            !b,
    {
        false
    }
}

/// A sampler for tests: each started window measures 1.25 J.
pub struct MockEnergySampler {
    active: bool,
}

impl MockEnergySampler {
    /// A window is open.
    pub closed spec fn is_active(&self) -> bool {
        self.active
    }

    /// A sampler with no open window.
    pub fn new() -> (s: Self)
        ensures
            !s.is_active(),
    {
        MockEnergySampler { active: false }
    }

    /// Open a window.
    pub fn start(&mut self)
        ensures
            final(self).is_active(),
    {
        self.active = true;
    }

    /// Close the open window and report its energy; `None` where no window
    /// was open.
    pub fn stop(&mut self) -> (r: Option<u128>)
        ensures
            !final(self).is_active(),
            r == (if old(self).is_active() { Some(MOCK_WINDOW_MICROJOULES) } else { None::<u128> }),
    {
        if self.active {
            self.active = false;
            Some(MOCK_WINDOW_MICROJOULES)
        } else {
            None
        }
    }

    /// The mock is always available.
    pub fn is_available(&self) -> (b: bool)
        ensures
            b,
    {
        true
    }
}

} // verus!
