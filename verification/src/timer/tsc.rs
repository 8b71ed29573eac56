//! Converting time-stamp counter readings to microseconds once the counter rate is known.
use vstd::prelude::*;

verus! {

/// The counter rate (cycles per microsecond; 0 until calibrated) and the reading taken at
/// calibration.
pub struct TscCalibration {
    pub per_us: u64,
    pub base: u64,
}

impl TscCalibration {
    /// Not calibrated.
    pub fn new() -> (r: Self)
        ensures
            r.per_us == 0 && r.base == 0,
    {
        TscCalibration { per_us: 0, base: 0 }
    }
}

/// Records the counter rate (at least 1) and the current reading `tsc_now` as time zero.
pub fn set_calibration(cal: &mut TscCalibration, cycles_per_us: u64, tsc_now: u64)
    ensures
        final(cal).per_us == if cycles_per_us > 1 { cycles_per_us } else { 1 },
        final(cal).base == tsc_now,
{
    cal.per_us = if cycles_per_us > 1 { cycles_per_us } else { 1 };
    cal.base = tsc_now;
}

/// Whether a rate has been recorded.
pub fn is_calibrated(cal: &TscCalibration) -> (r: bool)
    ensures
        r == (cal.per_us > 0),
{
    cal.per_us > 0
}

/// Microseconds since calibration at reading `tsc_now` (0 before calibration).
pub fn now_us(cal: &TscCalibration, tsc_now: u64) -> (r: u64)
    ensures
        cal.per_us == 0 ==> r == 0,
        cal.per_us > 0 ==> r == tsc_now.wrapping_sub(cal.base) / cal.per_us,
{
    let per_us = cal.per_us;
    if per_us == 0 {
        return 0;
    }
    tsc_now.wrapping_sub(cal.base) / per_us
}

} // verus!
