//! Time-stamp counter, measured against the event timer.

use vstd::prelude::*;

verus! {

/// Femtoseconds in the ten milliseconds of a measurement.
pub const WINDOW_FS: u64 = 10_000_000_000_000;

/// Reads of the event timer before the kernel gives up, at least.
pub const MIN_READS: u64 = 1_000_000;

/// Frequency of the time-stamp counter in kHz, 0 until it is known.
#[derive(Copy, Clone, Debug, PartialEq, Eq, Structural)]
pub struct Tsc {
    pub khz: u64,
}

/// A measurement that is under way.
#[derive(Copy, Clone, Debug, PartialEq, Eq, Structural)]
pub struct Calibration {
    /// Event timer at the start.
    pub start_hpet: u64,
    /// Time-stamp counter at the start.
    pub start_tsc: u64,
    /// Event timer ticks in the measurement.
    pub target: u64,
    /// Reads that are left.
    pub left: u64,
}

/// What to do after a read of the event timer.
#[derive(Copy, Clone, Debug, PartialEq, Eq, Structural)]
pub enum CalibrationStep {
    /// The time is over: read the time-stamp counter and finish.
    Over,
    /// Read the event timer again.
    Again,
    /// The event timer is stuck: give up.
    Stuck,
}

/// `a - b` on a counter that wraps around.
pub open spec fn elapsed(a: u64, b: u64) -> u64 {
    if a >= b {
        (a - b) as u64
    } else {
        (a - b + 0x1_0000_0000_0000_0000) as u64
    }
}

/// The number of reads a measurement of `target` ticks may take.
pub open spec fn read_limit(target: u64) -> u64 {
    if target * 2 > u64::MAX {
        u64::MAX
    } else if target * 2 < MIN_READS {
        MIN_READS
    } else {
        (target * 2) as u64
    }
}

impl Tsc {
    pub fn new() -> (r: Self)
        ensures
            r.khz == 0,
    {
        Tsc { khz: 0 }
    }
}

/// Number of event timer ticks in ten milliseconds, if the timer is there and
/// its period is plausible.
pub fn calibrate(hpet_base: u64, period_fs: u64) -> (r: Option<u64>)
    ensures
        r == if hpet_base == 0 || period_fs == 0 || WINDOW_FS / period_fs == 0 {
            None
        } else {
            Some(WINDOW_FS / period_fs)
        },
{
    if hpet_base == 0 || period_fs == 0 {
        return None;
    }
    let target: u64 = WINDOW_FS / period_fs;
    if target == 0 {
        None
    } else {
        Some(target)
    }
}

impl Calibration {
    /// Starts a measurement of `target` event timer ticks.
    pub fn start(target: u64, start_hpet: u64, start_tsc: u64) -> (r: Self)
        ensures
            r == (Calibration { start_hpet, start_tsc, target, left: read_limit(target) }),
    {
        let double: u64 = match target.checked_mul(2) {
            Some(d) => d,
            None => u64::MAX,
        };
        let left: u64 = if double < MIN_READS {
            MIN_READS
        } else {
            double
        };
        Calibration { start_hpet, start_tsc, target, left }
    }

    /// Takes note of a read of the event timer.
    pub fn step(&mut self, current: u64) -> (r: CalibrationStep)
        ensures
            if elapsed(current, old(self).start_hpet) >= old(self).target {
                r is Over && *final(self) == *old(self)
            } else if old(self).left <= 1 {
                r is Stuck && *final(self) == (Calibration { left: 0, ..*old(self) })
            } else {
                r is Again && *final(self) == (Calibration {
                    left: (old(self).left - 1) as u64,
                    ..*old(self)
                })
            },
    {
        if current.wrapping_sub(self.start_hpet) >= self.target {
            return CalibrationStep::Over;
        }
        if self.left <= 1 {
            self.left = 0;
            return CalibrationStep::Stuck;
        }
        self.left = self.left - 1;
        CalibrationStep::Again
    }

    /// Ends the measurement and stores the frequency.
    pub fn finish(&self, tsc: &mut Tsc, end_tsc: u64)
        ensures
            final(tsc).khz == elapsed(end_tsc, self.start_tsc) / 10,
    {
        tsc.khz = compute_khz(end_tsc.wrapping_sub(self.start_tsc), 10);
    }
}

/// The frequency in kHz, 0 if it is not known.
pub fn khz(tsc: &Tsc) -> (r: u64)
    ensures
        r == tsc.khz,
{
    tsc.khz
}

/// Nanoseconds in `tsc_delta` counts; 0 if the frequency is not known.
pub fn tsc_to_ns(tsc: &Tsc, tsc_delta: u64) -> (r: u64)
    ensures
        tsc.khz == 0 ==> r == 0,
        tsc.khz != 0 ==> r == (tsc_delta as nat * 1_000_000 / tsc.khz as nat) as u64,
{
    if tsc.khz == 0 {
        return 0;
    }
    let ns: u128 = tsc_delta as u128 * 1_000_000 / tsc.khz as u128;
    ns as u64
}

/// Frequency in kHz of a counter that advances by `tsc_delta` in `duration_ms`
/// milliseconds; 0 if the duration is 0.
pub fn compute_khz(tsc_delta: u64, duration_ms: u64) -> (r: u64)
    ensures
        r == if duration_ms == 0 {
            0
        } else {
            tsc_delta / duration_ms
        },
{
    if duration_ms == 0 {
        return 0;
    }
    tsc_delta / duration_ms
}

/// Event timer ticks in `duration_ms` milliseconds, for a period in
/// picoseconds; 0 if the period is 0.
pub fn hpet_ticks_per_ms(duration_ms: u64, period_ps: u64) -> (r: u64)
    requires
        period_ps != 0 ==> duration_ms * 1_000_000_000 <= u64::MAX,
    ensures
        r == if period_ps == 0 {
            0
        } else {
            duration_ms as nat * 1_000_000_000 / period_ps as nat
        },
{
    if period_ps == 0 {
        return 0;
    }
    duration_ms * 1_000_000_000 / period_ps
}

/// What has elapsed since `b` leads from `b` to `a`, also over the end of the
/// counter.
pub proof fn law_elapsed_leads_to_the_present(a: u64, b: u64)
    ensures
        (b + elapsed(a, b)) % 0x1_0000_0000_0000_0000 == a,
        elapsed(a, a) == 0,
{
}

/// A measurement may take two reads for each tick it waits for, and never fewer
/// than a million, so that a slow timer is not taken for a stuck one.
pub proof fn law_measurement_has_enough_reads(target: u64)
    ensures
        read_limit(target) >= 1_000_000,
        target <= 0x7FFF_FFFF_FFFF_FFFF ==> read_limit(target) >= 2 * target,
        500_000 <= target <= 0x7FFF_FFFF_FFFF_FFFF ==> read_limit(target) == 2 * target,
        target < 500_000 ==> read_limit(target) == 1_000_000,
        read_limit(target) >= target,
{
}

} // verus!
