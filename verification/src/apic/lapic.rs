//! Local APIC and its timer.

use vstd::prelude::*;

verus! {

pub const REG_TPR: u64 = 0x080;

pub const REG_EOI: u64 = 0x0B0;

pub const REG_SVR: u64 = 0x0F0;

pub const REG_LVT_TIMER: u64 = 0x320;

pub const REG_LVT_LINT0: u64 = 0x350;

pub const REG_LVT_LINT1: u64 = 0x360;

pub const REG_LVT_ERROR: u64 = 0x370;

pub const REG_TIMER_ICR: u64 = 0x380;

pub const REG_TIMER_CCR: u64 = 0x390;

pub const REG_TIMER_DCR: u64 = 0x3E0;

/// Suppresses an interrupt of the local vector table.
pub const LVT_MASK: u32 = 0x1_0000;

/// Timer divides the bus clock by 16.
pub const DIVIDE_BY_16: u32 = 0x3;

/// Vector of the timer interrupt.
pub const TIMER_VECTOR: u8 = 32;

/// Timer counts per tick if they could not be measured.
pub const FALLBACK_ICR: u32 = 0x0010_0000;

/// Counts of the reference timer in ten milliseconds.
pub const CALIBRATION_TICKS: u16 = 11931;

/// Local APIC; all fields are 0 until it is set up.
#[derive(Copy, Clone, Debug, PartialEq, Eq, Structural)]
pub struct Lapic {
    /// Address of the registers.
    pub base: u64,
    /// Timer counts per tick.
    pub icr_per_tick: u32,
    /// Address of the end-of-interrupt register.
    pub eoi_addr: u64,
}

/// A value to write to the register at an address.
#[derive(Copy, Clone, Debug, PartialEq, Eq, Structural)]
pub struct RegisterWrite {
    pub addr: u64,
    pub value: u32,
}

impl Lapic {
    pub fn new() -> (r: Self)
        ensures
            r == (Lapic { base: 0, icr_per_tick: 0, eoi_addr: 0 }),
    {
        Lapic { base: 0, icr_per_tick: 0, eoi_addr: 0 }
    }
}

/// Spurious interrupt register: enabled, with the given vector.
pub fn svr_value(spurious_vec: u8) -> (r: u32)
    ensures
        r == 0x100 + spurious_vec,
{
    0x100 + spurious_vec as u32
}

/// Timer register: the given vector, periodic or one-shot.
pub fn lvt_timer_value(vector: u8, periodic: bool) -> (r: u32)
    ensures
        r == vector + if periodic {
            0x2_0000int
        } else {
            0
        },
{
    let mode: u32 = if periodic {
        0x2_0000
    } else {
        0
    };
    vector as u32 + mode
}

/// The writes that enable the local APIC at `base`: every priority is accepted,
/// and the external lines and errors are masked. `None` if there is no APIC.
pub fn enable_writes(base: u64) -> (r: Option<[RegisterWrite; 5]>)
    requires
        base + REG_TIMER_DCR <= u64::MAX,
    ensures
        base == 0 <==> r is None,
        r matches Some(w) ==> w@ == seq![
            RegisterWrite { addr: (base + REG_SVR) as u64, value: 0x1FF },
            RegisterWrite { addr: (base + REG_TPR) as u64, value: 0 },
            RegisterWrite { addr: (base + REG_LVT_LINT0) as u64, value: LVT_MASK },
            RegisterWrite { addr: (base + REG_LVT_LINT1) as u64, value: LVT_MASK },
            RegisterWrite { addr: (base + REG_LVT_ERROR) as u64, value: LVT_MASK },
        ],
{
    if base == 0 {
        return None;
    }
    let w = [
        RegisterWrite { addr: base + REG_SVR, value: svr_value(0xFF) },
        RegisterWrite { addr: base + REG_TPR, value: 0 },
        RegisterWrite { addr: base + REG_LVT_LINT0, value: LVT_MASK },
        RegisterWrite { addr: base + REG_LVT_LINT1, value: LVT_MASK },
        RegisterWrite { addr: base + REG_LVT_ERROR, value: LVT_MASK },
    ];
    assert(w@ =~= seq![
        RegisterWrite { addr: (base + REG_SVR) as u64, value: 0x1FF },
        RegisterWrite { addr: (base + REG_TPR) as u64, value: 0 },
        RegisterWrite { addr: (base + REG_LVT_LINT0) as u64, value: LVT_MASK },
        RegisterWrite { addr: (base + REG_LVT_LINT1) as u64, value: LVT_MASK },
        RegisterWrite { addr: (base + REG_LVT_ERROR) as u64, value: LVT_MASK },
    ]);
    Some(w)
}

/// The port writes that make the reference timer run for ten milliseconds;
/// `control` is the current value of its control port. The speaker is off.
pub fn reference_ports(control: u8) -> (r: [(u16, u8); 4])
    ensures
        r@ == seq![
            (0x61u16, control & 0xFD | 1),
            (0x43u16, 0xB0u8),
            (0x42u16, (CALIBRATION_TICKS % 0x100) as u8),
            (0x42u16, (CALIBRATION_TICKS / 0x100) as u8),
        ],
{
    let r: [(u16, u8); 4] = [
        (0x61, control & 0xFD | 1),
        (0x43, 0xB0),
        (0x42, (CALIBRATION_TICKS % 0x100) as u8),
        (0x42, (CALIBRATION_TICKS / 0x100) as u8),
    ];
    assert(r@ =~= seq![
        (0x61u16, control & 0xFD | 1),
        (0x43u16, 0xB0u8),
        (0x42u16, (CALIBRATION_TICKS % 0x100) as u8),
        (0x42u16, (CALIBRATION_TICKS / 0x100) as u8),
    ]);
    r
}

/// The writes that make the APIC timer count down from its maximum.
pub fn countdown_writes(base: u64) -> (r: [RegisterWrite; 2])
    requires
        base + REG_TIMER_DCR <= u64::MAX,
    ensures
        r@ == seq![
            RegisterWrite { addr: (base + REG_TIMER_DCR) as u64, value: DIVIDE_BY_16 },
            RegisterWrite { addr: (base + REG_TIMER_ICR) as u64, value: u32::MAX },
        ],
{
    let r = [
        RegisterWrite { addr: base + REG_TIMER_DCR, value: DIVIDE_BY_16 },
        RegisterWrite { addr: base + REG_TIMER_ICR, value: u32::MAX },
    ];
    assert(r@ =~= seq![
        RegisterWrite { addr: (base + REG_TIMER_DCR) as u64, value: DIVIDE_BY_16 },
        RegisterWrite { addr: (base + REG_TIMER_ICR) as u64, value: u32::MAX },
    ]);
    r
}

/// The control port says that the reference timer has run down.
pub fn reference_expired(control: u8) -> (r: bool)
    ensures
        r == (control & 0x20 != 0),
{
    control & 0x20 != 0
}

/// Timer counts in ten milliseconds. `current` is the counter, which started at
/// its maximum, when the reference timer had run down; `None` if that took too
/// long, which gives 0.
pub fn calibrate_lapic_timer_10ms(current: Option<u32>) -> (r: u32)
    ensures
        r == match current {
            Some(c) => (u32::MAX - c) as u32,
            None => 0,
        },
{
    match current {
        Some(c) => u32::MAX - c,
        None => 0,
    }
}

/// Sets up the local APIC at `base` with the measured timer counts per tick, 0
/// if they could not be measured. Gives the writes that start the timer for one
/// tick. Without an APIC nothing happens.
pub fn init(lapic: &mut Lapic, base: u64, measured: u32) -> (r: Option<[RegisterWrite; 3]>)
    requires
        base + REG_TIMER_DCR <= u64::MAX,
    ensures
        base == 0 ==> r is None && *final(lapic) == *old(lapic),
        base != 0 ==> {
            let icr = if measured != 0 {
                measured
            } else {
                FALLBACK_ICR
            };
            &&& *final(lapic) == Lapic {
                base,
                icr_per_tick: icr,
                eoi_addr: (base + REG_EOI) as u64,
            }
            &&& r is Some
            &&& r->0@ == seq![
                RegisterWrite { addr: (base + REG_TIMER_DCR) as u64, value: DIVIDE_BY_16 },
                RegisterWrite { addr: (base + REG_LVT_TIMER) as u64, value: 32 },
                RegisterWrite { addr: (base + REG_TIMER_ICR) as u64, value: icr },
            ]
        },
{
    if base == 0 {
        return None;
    }
    let icr: u32 = if measured != 0 {
        measured
    } else {
        FALLBACK_ICR
    };
    *lapic = Lapic { base, icr_per_tick: icr, eoi_addr: base + REG_EOI };
    let w = [
        RegisterWrite { addr: base + REG_TIMER_DCR, value: DIVIDE_BY_16 },
        RegisterWrite { addr: base + REG_LVT_TIMER, value: lvt_timer_value(TIMER_VECTOR, false) },
        RegisterWrite { addr: base + REG_TIMER_ICR, value: icr },
    ];
    assert(w@ =~= seq![
        RegisterWrite { addr: (base + REG_TIMER_DCR) as u64, value: DIVIDE_BY_16 },
        RegisterWrite { addr: (base + REG_LVT_TIMER) as u64, value: 32 },
        RegisterWrite { addr: (base + REG_TIMER_ICR) as u64, value: icr },
    ]);
    Some(w)
}

/// Timer counts for `ticks` ticks: at least 1, because 0 would never expire,
/// and cut off at the width of the counter.
pub open spec fn counts_for(icr: u32, ticks: u32) -> u32 {
    if icr * ticks > u32::MAX {
        u32::MAX
    } else if icr * ticks < 1 {
        1
    } else {
        (icr * ticks) as u32
    }
}

/// The write that makes the timer expire after `ticks` ticks. `None` if the
/// APIC is not set up.
pub fn arm_oneshot(lapic: &Lapic, ticks: u32) -> (r: Option<RegisterWrite>)
    requires
        lapic.base + REG_TIMER_ICR <= u64::MAX,
    ensures
        r == if lapic.base == 0 || lapic.icr_per_tick == 0 {
            None
        } else {
            Some(
                RegisterWrite {
                    addr: (lapic.base + REG_TIMER_ICR) as u64,
                    value: counts_for(lapic.icr_per_tick, ticks),
                },
            )
        },
{
    if lapic.base == 0 || lapic.icr_per_tick == 0 {
        return None;
    }
    proof {
        let (a, b) = (lapic.icr_per_tick as int, ticks as int);
        assert(0 <= a * b <= 0xFFFF_FFFF * 0xFFFF_FFFF) by (nonlinear_arith)
            requires
                0 <= a <= 0xFFFF_FFFF,
                0 <= b <= 0xFFFF_FFFF,
        ;
    }
    let product: u64 = lapic.icr_per_tick as u64 * ticks as u64;
    let count: u32 = if product > u32::MAX as u64 {
        u32::MAX
    } else if product < 1 {
        1
    } else {
        product as u32
    };
    Some(RegisterWrite { addr: lapic.base + REG_TIMER_ICR, value: count })
}

/// The timer is never armed with a count that does not expire.
pub proof fn law_timer_always_expires(icr: u32, ticks: u32)
    ensures
        counts_for(icr, ticks) >= 1,
{
}

/// The timer is armed with the counts of that many ticks as long as the counter
/// is wide enough: twice the ticks take twice the counts, and one tick takes the
/// counts of a tick. More ticks never expire earlier.
pub proof fn law_timer_counts_ticks(icr: u32, ticks: u32, more: u32)
    requires
        icr > 0,
        ticks <= more,
    ensures
        counts_for(icr, 1) == icr,
        ticks > 0 && icr * ticks <= u32::MAX ==> counts_for(icr, ticks) == icr * ticks,
        ticks > 0 && icr * (2 * ticks) <= u32::MAX ==> counts_for(icr, (2 * ticks) as u32) == 2
            * counts_for(icr, ticks),
        icr * ticks > u32::MAX ==> counts_for(icr, ticks) == u32::MAX,
        counts_for(icr, ticks) <= counts_for(icr, more),
{
    let (a, b, c) = (icr as int, ticks as int, more as int);
    assert(a * 1 == a && a * (2 * b) == 2 * (a * b) && a * b <= a * c && (b > 0 ==> a * b >= 1))
        by (nonlinear_arith)
        requires
            0 < a,
            0 <= b <= c,
    ;
    if ticks > 0 && icr * (2 * ticks) <= u32::MAX {
        assert(2 * b <= a * (2 * b)) by (nonlinear_arith)
            requires
                0 < a,
                0 <= b,
        ;
    }
}

} // verus!
