//! Points in time and lengths of time, counted in nanoseconds.

use vstd::prelude::*;

verus! {

/// Nanoseconds in one second.
pub const NANOS_PER_SEC: u128 = 1_000_000_000;

/// A length of time in whole nanoseconds. A point in time is the span that
/// has passed since the Unix epoch.
#[derive(Clone, Copy, Debug, PartialEq, Eq, Structural)]
pub struct TimeSpan {
    nanos: u128,
}

impl View for TimeSpan {
    type V = nat;

    closed spec fn view(&self) -> nat {
        self.nanos as nat
    }
}

impl TimeSpan {
    /// Every span fits in 128 bits.
    pub proof fn lemma_view_bound(a: TimeSpan)
        ensures
            a@ <= u128::MAX,
    {
    }

    /// The empty span, which is also the epoch itself.
    pub fn zero() -> (r: TimeSpan)
        ensures
            r@ == 0,
    {
        TimeSpan { nanos: 0 }
    }

    /// The span of the given number of nanoseconds.
    pub fn from_nanos(nanos: u128) -> (r: TimeSpan)
        ensures
            r@ == nanos,
    {
        TimeSpan { nanos }
    }

    /// The span of the given number of seconds.
    pub fn from_secs(secs: u64) -> (r: TimeSpan)
        ensures
            r@ == secs * NANOS_PER_SEC,
    {
        TimeSpan::new(secs, 0)
    }

    /// `secs` seconds and `nanos` nanoseconds. `nanos` may exceed one second.
    pub fn new(secs: u64, nanos: u32) -> (r: TimeSpan)
        ensures
            r@ == secs * NANOS_PER_SEC + nanos,
    {
        assert(secs * NANOS_PER_SEC + nanos <= u128::MAX) by (nonlinear_arith)
            requires
                secs <= u64::MAX,
                nanos <= u32::MAX,
                NANOS_PER_SEC == 1_000_000_000,
        ;
        assert(secs * NANOS_PER_SEC <= u128::MAX) by (nonlinear_arith)
            requires
                secs <= u64::MAX,
                NANOS_PER_SEC == 1_000_000_000,
        ;
        let whole: u128 = (secs as u128) * NANOS_PER_SEC;
        TimeSpan { nanos: whole + nanos as u128 }
    }

    /// The length of the span in nanoseconds.
    pub fn as_nanos(&self) -> (r: u128)
        ensures
            r == self@,
    {
        self.nanos
    }

    /// The whole seconds in this span.
    pub fn whole_secs(&self) -> (r: u128)
        ensures
            r == self@ / (NANOS_PER_SEC as nat),
    {
        self.nanos / NANOS_PER_SEC
    }

    /// What is left of this span after its whole seconds.
    pub fn subsec_nanos(&self) -> (r: u32)
        ensures
            r == self@ % (NANOS_PER_SEC as nat),
    {
        (self.nanos % NANOS_PER_SEC) as u32
    }

    /// The sum of two spans, or the longest span there is where the sum does
    /// not fit.
    pub fn saturating_add(&self, other: TimeSpan) -> (r: TimeSpan)
        ensures
            r@ == if self@ + other@ <= u128::MAX {
                self@ + other@
            } else {
                u128::MAX as nat
            },
    {
        if self.nanos > u128::MAX - other.nanos {
            TimeSpan { nanos: u128::MAX }
        } else {
            TimeSpan { nanos: self.nanos + other.nanos }
        }
    }

    /// Whether this span is strictly longer than `other`; of two points in
    /// time, whether this one is the later.
    pub fn is_after(&self, other: TimeSpan) -> (r: bool)
        ensures
            r == (self@ > other@),
    {
        self.nanos > other.nanos
    }
}

/// What the system clock reports as the time since the Unix epoch: whole
/// seconds and the nanoseconds beyond them, or `None` where the clock stands
/// before the epoch.
///
/// Calls `std::time::SystemTime::elapsed` on `UNIX_EPOCH` and splits the span
/// with `Duration::as_secs` and `Duration::subsec_nanos`. Trusted: the second
/// number is below one second, as `subsec_nanos` documents.
#[verifier::external_body]
fn epoch_elapsed() -> (r: Option<(u64, u32)>)
    ensures
        r matches Some((_, nanos)) ==> nanos < NANOS_PER_SEC,
{
    match std::time::UNIX_EPOCH.elapsed() {
        Ok(d) => Some((d.as_secs(), d.subsec_nanos())),
        Err(_) => None,
    }
}

/// The point in time that a clock reading stands for. A clock that could not
/// say how far it is past the epoch counts as standing at the epoch.
pub open spec fn reading_to_time(reading: Option<(u64, u32)>) -> nat {
    match reading {
        Some((secs, nanos)) => (secs * NANOS_PER_SEC + nanos) as nat,
        None => 0,
    }
}

/// Turns a clock reading into a point in time.
pub fn time_of_reading(reading: Option<(u64, u32)>) -> (r: TimeSpan)
    ensures
        r@ == reading_to_time(reading),
{
    match reading {
        Some((secs, nanos)) => TimeSpan::new(secs, nanos),
        None => TimeSpan::zero(),
    }
}

/// The largest point in time that the system clock can report.
pub open spec fn clock_limit() -> nat {
    (u64::MAX * NANOS_PER_SEC + NANOS_PER_SEC - 1) as nat
}

/// The current time as the span since the Unix epoch. Never fails: a clock
/// set before the epoch reads as the epoch.
pub fn now() -> (r: TimeSpan)
    ensures
        r@ <= clock_limit(),
{
    let reading = epoch_elapsed();
    assert(reading_to_time(reading) <= clock_limit()) by (nonlinear_arith)
        requires
            reading matches Some((_, nanos)) ==> nanos < NANOS_PER_SEC,
            NANOS_PER_SEC == 1_000_000_000,
    ;
    time_of_reading(reading)
}

} // verus!
