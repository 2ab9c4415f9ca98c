//! Event timer registers.

use vstd::prelude::*;

use crate::acpi::hpet::HpetInfo;
use crate::memory::ram::Ram;
use crate::memory::PhysMemory;

verus! {

/// Offset of the configuration register.
pub const REG_GCR: u64 = 0x010;

/// Offset of the main counter.
pub const REG_MCR: u64 = 0x0F0;

/// Makes the main counter run.
pub const GCR_ENABLE_CNF: u64 = 1;

/// Event timer; all fields are 0 until it is set up.
#[derive(Copy, Clone, Debug, PartialEq, Eq, Structural)]
pub struct Hpet {
    /// Address of the registers.
    pub base: u64,
    /// Femtoseconds per tick.
    pub period_fs: u64,
}

impl Hpet {
    pub fn new() -> (r: Self)
        ensures
            r == (Hpet { base: 0, period_fs: 0 }),
    {
        Hpet { base: 0, period_fs: 0 }
    }
}

/// Takes note of the timer and makes its counter run; the other bits of the
/// configuration are kept. `mmio` holds the timer's registers. Without a timer
/// nothing happens.
pub fn init(hpet: &mut Hpet, mmio: &mut PhysMemory, info: &HpetInfo)
    requires
        old(mmio).wf(),
        info.base_address + REG_GCR <= u64::MAX,
    ensures
        final(mmio).wf(),
        info.base_address == 0 ==> *final(hpet) == *old(hpet) && *final(mmio) == *old(mmio),
        info.base_address != 0 ==> {
            let gcr = info.base_address + REG_GCR;
            &&& *final(hpet) == Hpet { base: info.base_address, period_fs: info.period_fs }
            &&& final(mmio)@ == old(mmio)@.with_word(gcr, old(mmio)@.word(gcr) | GCR_ENABLE_CNF)
        },
{
    if info.base_address == 0 {
        return;
    }
    *hpet = Hpet { base: info.base_address, period_fs: info.period_fs };
    let gcr: u64 = mmio.read_u64(info.base_address + REG_GCR);
    mmio.write_u64(info.base_address + REG_GCR, gcr | GCR_ENABLE_CNF);
}

/// The main counter; 0 if the timer is not set up. `mmio` holds the timer's
/// registers.
pub fn read_counter(hpet: &Hpet, mmio: &PhysMemory) -> (r: u64)
    requires
        mmio.wf(),
        hpet.base + REG_MCR <= u64::MAX,
    ensures
        r == if hpet.base == 0 {
            0
        } else {
            mmio@.word(hpet.base + REG_MCR)
        },
{
    if hpet.base == 0 {
        return 0;
    }
    mmio.read_u64(hpet.base + REG_MCR)
}

/// Femtoseconds per tick; 0 if the timer is not set up.
pub fn period_fs(hpet: &Hpet) -> (r: u64)
    ensures
        r == hpet.period_fs,
{
    hpet.period_fs
}

/// Address of the registers; 0 if the timer is not set up.
pub fn base_address(hpet: &Hpet) -> (r: u64)
    ensures
        r == hpet.base,
{
    hpet.base
}

/// A timer that is set up runs, and only its run bit is touched.
pub proof fn law_init_starts_the_counter(m: Ram, gcr: int)
    requires
        m.covers(gcr, 8),
    ensures
        ({
            let after = m.with_word(gcr, m.word(gcr) | GCR_ENABLE_CNF).word(gcr);
            &&& after & GCR_ENABLE_CNF == GCR_ENABLE_CNF
            &&& after & !GCR_ENABLE_CNF == m.word(gcr) & !GCR_ENABLE_CNF
        }),
{
    let w = m.word(gcr);
    crate::memory::ram::lemma_word_same(m, gcr, w | GCR_ENABLE_CNF);
    assert((w | 1) & 1 == 1 && (w | 1) & !1 == w & !1) by (bit_vector);
}

} // verus!
