//! Lengths of time, and a stopwatch that measures them.

use vstd::prelude::*;

verus! {

/// Nanoseconds in a second.
pub const NANOS_PER_SEC: u32 = 1_000_000_000;

/// A length of time: whole seconds and the nanoseconds beyond them. Its view
/// is the whole length in nanoseconds.
#[derive(Debug, Clone, Copy, PartialEq, Eq, Structural)]
pub struct Duration {
    secs: u64,
    nanos: u32,
}

impl View for Duration {
    type V = nat;

    closed spec fn view(&self) -> nat {
        (self.secs * NANOS_PER_SEC + self.nanos) as nat
    }
}

impl Duration {
    #[verifier::type_invariant]
    closed spec fn normal(&self) -> bool {
        self.nanos < NANOS_PER_SEC
    }

    /// `secs` seconds and `nanos` nanoseconds.
    pub fn new(secs: u64, nanos: u32) -> (d: Duration)
        requires
            nanos < NANOS_PER_SEC,
        ensures
            d@ == secs * NANOS_PER_SEC + nanos,
    {
        Duration { secs, nanos }
    }

    /// `secs` seconds.
    pub fn from_secs(secs: u64) -> (d: Duration)
        ensures
            d@ == secs * NANOS_PER_SEC,
    {
        Duration { secs, nanos: 0 }
    }

    /// `millis` milliseconds.
    pub fn from_millis(millis: u64) -> (d: Duration)
        ensures
            d@ == millis * 1_000_000,
    {
        Duration { secs: millis / 1000, nanos: (millis % 1000) as u32 * 1_000_000 }
    }

    /// The whole seconds in this length of time.
    pub fn as_secs(&self) -> (secs: u64)
        ensures
            secs == self@ / NANOS_PER_SEC as nat,
    {
        proof {
            use_type_invariant(self);
            assert(self@ / NANOS_PER_SEC as nat == self.secs) by (nonlinear_arith)
                requires
                    self@ == self.secs * 1_000_000_000 + self.nanos,
                    self.nanos < 1_000_000_000,
            ;
        }
        self.secs
    }

    /// The whole length in nanoseconds.
    pub fn as_nanos(&self) -> (nanos: u128)
        ensures
            nanos == self@,
    {
        assert(self.secs * NANOS_PER_SEC <= 0xffff_ffff_ffff_ffff * 1_000_000_000);
        self.secs as u128 * NANOS_PER_SEC as u128 + self.nanos as u128
    }
}

/// A reading of the system's monotonic clock.
#[verifier::external_type_specification]
#[verifier::external_body]
pub struct ExInstant(std::time::Instant);

/// `std::time::Instant::now` reads the system's monotonic clock. What the
/// reading holds depends on the moment, so nothing is claimed of it.
#[verifier::external_body]
fn instant_now() -> (now: std::time::Instant) {
    std::time::Instant::now()
}

/// `std::time::Instant::elapsed` measures the time since `start`, here as
/// whole seconds and the nanoseconds beyond them. The length depends on the
/// moment of the call; that the nanoseconds stay below one second is what
/// `Duration::subsec_nanos` documents.
#[verifier::external_body]
fn instant_elapsed(start: &std::time::Instant) -> (passed: (u64, u32))
    ensures
        passed.1 < NANOS_PER_SEC,
{
    let passed = start.elapsed();
    (passed.as_secs(), passed.subsec_nanos())
}

/// Measures the time since it was started.
#[derive(Debug, Clone, Copy)]
pub struct Stopwatch {
    started: std::time::Instant,
}

impl Stopwatch {
    /// The stopwatch was started by a reading of the system's monotonic clock.
    pub closed spec fn is_started_now(self) -> bool {
        call_ensures(instant_now, (), self.started)
    }

    /// Reading the stopwatch, against the system's monotonic clock, can give `nanos`
    /// nanoseconds.
    pub closed spec fn shows(self, nanos: nat) -> bool {
        exists|passed: (u64, u32)| #[trigger]
            call_ensures(instant_elapsed, (&self.started,), passed) && nanos == passed.0
                * NANOS_PER_SEC + passed.1
    }

    /// A stopwatch that starts now.
    pub fn start() -> (stopwatch: Stopwatch)
        ensures
            stopwatch.is_started_now(),
    {
        Stopwatch { started: instant_now() }
    }

    /// The time since the stopwatch was started.
    pub fn elapsed(&self) -> (passed: Duration)
        ensures
            self.shows(passed@),
    {
        let (secs, nanos) = instant_elapsed(&self.started);
        Duration::new(secs, nanos)
    }
}

/// A stopwatch shows what the system's clock says has passed, to the nanosecond, and
/// nothing else.
proof fn law_stopwatches_show_what_has_passed(stopwatch: Stopwatch, secs: u64, nanos: u32)
    ensures
        call_ensures(instant_elapsed, (&stopwatch.started,), (secs, nanos)) ==> stopwatch.shows(
            (secs * 1_000_000_000 + nanos) as nat,
        ),
        forall|shown: nat| #[trigger]
            stopwatch.shows(shown) ==> exists|reading: (u64, u32)| #[trigger]
                call_ensures(instant_elapsed, (&stopwatch.started,), reading) && shown
                    == reading.0 * 1_000_000_000 + reading.1,
        stopwatch.is_started_now() <==> call_ensures(instant_now, (), stopwatch.started),
{
}

} // verus!
