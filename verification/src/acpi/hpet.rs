//! The table of the high-precision event timer.

use vstd::prelude::*;

use crate::acpi::tables::{byte_at, find_table, has_signature, table_len, u32_at, u64_at};
use crate::memory::ram::{PhysMemory, Ram};

verus! {

/// Least length of the table.
pub const HPET_MIN_LEN: u32 = 56;

/// Longest period of the counter in femtoseconds: 10 MHz.
pub const MAX_PERIOD_FS: u64 = 0x05F5_E100;

/// What the kernel needs to know of the timer.
#[derive(Copy, Clone, Debug, PartialEq, Eq, Structural)]
pub struct HpetInfo {
    /// Address of the timer's registers.
    pub base_address: u64,
    /// Femtoseconds per tick of the counter.
    pub period_fs: u64,
    /// Number of comparators.
    pub timer_count: u8,
    /// The counter has 64 bits.
    pub counter_64bit: bool,
    pub hardware_rev: u8,
}

/// Address of the timer table.
pub fn find_hpet(mem: &PhysMemory, rsdp_phys: u64) -> (r: Option<u64>)
    requires
        mem.wf(),
    ensures
        r == crate::acpi::tables::located(
            mem@,
            rsdp_phys,
            crate::acpi::tables::sig_hpet(),
        ),
{
    let sig: [u8; 4] = [0x48, 0x50, 0x45, 0x54];
    assert(sig@ =~= crate::acpi::tables::sig_hpet());
    find_table(mem, rsdp_phys, &sig)
}

/// Address of the timer's registers as the table at `phys` gives it.
pub open spec fn registers(m: Ram, phys: u64) -> Option<u64> {
    if phys != 0 && crate::acpi::tables::signature(m, phys as int)
        == crate::acpi::tables::sig_hpet() && m.word(phys + 44) != 0 {
        Some(m.word(phys + 44))
    } else {
        None
    }
}

/// Address of the timer's registers as the table at `hpet_phys` gives it,
/// without a look at the registers.
pub fn hpet_mmio_base(mem: &PhysMemory, hpet_phys: u64) -> (r: Option<u64>)
    requires
        mem.wf(),
    ensures
        r == registers(mem@, hpet_phys),
{
    let sig: [u8; 4] = [0x48, 0x50, 0x45, 0x54];
    assert(sig@ =~= crate::acpi::tables::sig_hpet());
    if hpet_phys == 0 || !has_signature(mem, hpet_phys, &sig) {
        return None;
    }
    let addr: u64 = u64_at(mem, hpet_phys, 44);
    if addr == 0 {
        None
    } else {
        Some(addr)
    }
}

/// What the table at `phys` and the capability register it points to say;
/// `None` if the table is not valid, the registers are not memory mapped or the
/// period is not plausible.
pub open spec fn decoded(m: Ram, phys: u64) -> Option<HpetInfo> {
    let id = m.word32(phys + 36);
    let base = m.word(phys + 44);
    let period = m.word(base as int) / 0x1_0000_0000;
    if crate::acpi::tables::valid_table(
        m,
        phys,
        crate::acpi::tables::sig_hpet(),
        HPET_MIN_LEN as int,
    ) && m.byte(phys + 40) == 0 && base != 0 && 0 < period <= MAX_PERIOD_FS {
        Some(
            HpetInfo {
                base_address: base,
                period_fs: period,
                timer_count: (id / 0x100 % 0x20 + 1) as u8,
                counter_64bit: id / 0x2000 % 2 == 1,
                hardware_rev: (id % 0x100) as u8,
            },
        )
    } else {
        None
    }
}

/// Decodes the timer table at `hpet_phys` and reads the counter's period from
/// the upper half of the capability register.
pub fn parse_hpet(mem: &PhysMemory, hpet_phys: u64) -> (r: Option<HpetInfo>)
    requires
        mem.wf(),
    ensures
        r == decoded(mem@, hpet_phys),
{
    let sig: [u8; 4] = [0x48, 0x50, 0x45, 0x54];
    assert(sig@ =~= crate::acpi::tables::sig_hpet());
    if table_len(mem, hpet_phys, &sig, HPET_MIN_LEN).is_none() {
        return None;
    }
    let id: u32 = u32_at(mem, hpet_phys, 36);
    if byte_at(mem, hpet_phys, 40) != 0 {
        return None;
    }
    let base: u64 = u64_at(mem, hpet_phys, 44);
    if base == 0 {
        return None;
    }
    let period: u64 = mem.read_u64(base) / 0x1_0000_0000;
    if period == 0 || period > MAX_PERIOD_FS {
        return None;
    }
    Some(
        HpetInfo {
            base_address: base,
            period_fs: period,
            timer_count: (id / 0x100 % 0x20 + 1) as u8,
            counter_64bit: id / 0x2000 % 2 == 1,
            hardware_rev: (id % 0x100) as u8,
        },
    )
}

/// A timer that is used has registers in memory, at least one and at most 32
/// comparators, and a counter that runs at 10 MHz or faster. Its period is what
/// the upper half of its first register says.
pub proof fn law_timer_is_plausible(m: Ram, phys: u64)
    requires
        decoded(m, phys) is Some,
    ensures
        ({
            let t = decoded(m, phys)->0;
            &&& t.base_address != 0
            &&& t.base_address == m.word(phys + 44)
            &&& m.byte(phys + 40) == 0
            &&& 0 < t.period_fs <= 100_000_000
            &&& t.period_fs * 0x1_0000_0000 <= m.word(t.base_address as int)
            &&& m.word(t.base_address as int) < (t.period_fs + 1) * 0x1_0000_0000
            &&& 1 <= t.timer_count <= 32
            &&& t.counter_64bit <==> m.word32(phys + 36) / 8192 % 2 == 1
            &&& t.hardware_rev == m.word32(phys + 36) % 256
            &&& t.timer_count - 1 == m.word32(phys + 36) / 256 % 32
            &&& registers(m, phys) == Some(t.base_address)
        }),
{
}

} // verus!
