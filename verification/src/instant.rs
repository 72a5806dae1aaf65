use vstd::prelude::*;
use crate::fixed::trunc_div;

verus! {

/// Nanoseconds in one second.
pub const NANOS_PER_SECOND: i64 = 1_000_000_000;

/// A point on the UTC time line: whole seconds since the Unix epoch and the
/// nanoseconds that follow them. Leap seconds are not told apart.
#[derive(Clone, Copy, Debug, PartialEq, Eq, Structural)]
pub struct Instant {
    pub secs: i64,
    pub nanos: u32,
}

impl Instant {
    /// Nanoseconds between the epoch and this instant.
    pub open spec fn total_nanos(self) -> int {
        self.secs * NANOS_PER_SECOND + self.nanos
    }

    /// Whole seconds from `earlier` to this instant, rounded toward zero;
    /// negative where this instant comes first.
    pub open spec fn spec_seconds_since(self, earlier: Instant) -> int {
        trunc_div(self.total_nanos() - earlier.total_nanos(), NANOS_PER_SECOND as int)
    }

    /// The instant `nanos` nanoseconds after `secs` seconds since the epoch.
    pub fn from_timestamp(secs: i64, nanos: u32) -> (r: Instant)
        ensures
            r.secs == secs,
            r.nanos == nanos,
    {
        Instant { secs, nanos }
    }

    /// Whole seconds from `earlier` to this instant, rounded toward zero;
    /// negative where this instant comes first.
    pub fn seconds_since(&self, earlier: &Instant) -> (r: i128)
        ensures
            r == self.spec_seconds_since(*earlier),
    {
        let unit: i128 = NANOS_PER_SECOND as i128;
        let a: i128 = self.secs as i128;
        let b: i128 = earlier.secs as i128;
        assert(-0x4000_0000_0000_0000_0000_0000 <= a * unit <= 0x4000_0000_0000_0000_0000_0000
            && -0x4000_0000_0000_0000_0000_0000 <= b * unit <= 0x4000_0000_0000_0000_0000_0000)
            by (nonlinear_arith)
            requires
                -0x8000_0000_0000_0000 <= a <= 0x8000_0000_0000_0000,
                -0x8000_0000_0000_0000 <= b <= 0x8000_0000_0000_0000,
                unit == 1_000_000_000,
        ;
        let span: i128 = (a * unit + self.nanos as i128) - (b * unit + earlier.nanos as i128);
        crate::fixed::quotient_toward_zero(span, unit)
    }
}

} // verus!
