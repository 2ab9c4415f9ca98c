//! The fixed description table: power-management timer and reset register.

use vstd::prelude::*;

use crate::acpi::tables::{byte_at, table_len, u32_at, u64_at};
use crate::memory::ram::{PhysMemory, Ram};

verus! {

/// The reset register is present.
pub const FLAG_RESET_REG_SUP: u32 = 0x400;

/// Least length of the table.
pub const FADT_MIN_LEN_V1: u32 = 116;

/// Length from which on the reset register is part of the table.
pub const FADT_MIN_LEN_RESET: u32 = 129;

/// Address space of memory-mapped registers.
pub const GAS_SPACE_MEMORY: u8 = 0;

/// Address space of I/O ports.
pub const GAS_SPACE_IO: u8 = 1;

/// Fields of the fixed description table.
#[derive(Copy, Clone, Debug, PartialEq, Eq, Structural)]
pub struct FadtInfo {
    /// I/O port of the power-management timer, 0 if there is none.
    pub pm_timer_port: u32,
    /// Bytes of the timer register.
    pub pm_timer_len: u8,
    pub flags: u32,
    /// Address space of the reset register.
    pub reset_reg_space: u8,
    /// Address of the reset register, 0 if there is none.
    pub reset_reg_addr: u64,
    /// Value that resets the machine when written to the reset register.
    pub reset_value: u8,
}

impl FadtInfo {
    /// Whether there is a four-byte power-management timer.
    pub fn pm_timer_valid(&self) -> (r: bool)
        ensures
            r == (self.pm_timer_port != 0 && self.pm_timer_len == 4),
    {
        self.pm_timer_port != 0 && self.pm_timer_len == 4
    }

    /// Whether there is a usable reset register.
    pub fn reset_supported(&self) -> (r: bool)
        ensures
            r == (self.flags & FLAG_RESET_REG_SUP != 0 && self.reset_reg_addr != 0),
    {
        self.flags & FLAG_RESET_REG_SUP != 0 && self.reset_reg_addr != 0
    }
}

/// What the table at `phys` says, `None` if it is not a valid table.
///
/// The reset register counts only in a table of revision 2 or later that is
/// long enough and says that the register is supported.
pub open spec fn decoded(m: Ram, phys: u64) -> Option<FadtInfo> {
    if crate::acpi::tables::valid_table(
        m,
        phys,
        crate::acpi::tables::sig_facp(),
        FADT_MIN_LEN_V1 as int,
    ) {
        let flags = m.word32(phys + 112);
        let reset = m.byte(phys + 8) >= 2 && m.word32(phys + 4) >= FADT_MIN_LEN_RESET && flags
            & FLAG_RESET_REG_SUP != 0;
        Some(
            FadtInfo {
                pm_timer_port: m.word32(phys + 76),
                pm_timer_len: m.byte(phys + 91),
                flags,
                reset_reg_space: if reset {
                    m.byte(phys + 116)
                } else {
                    GAS_SPACE_IO
                },
                reset_reg_addr: if reset {
                    m.word(phys + 120)
                } else {
                    0
                },
                reset_value: if reset {
                    m.byte(phys + 128)
                } else {
                    0
                },
            },
        )
    } else {
        None
    }
}

/// Decodes the fixed description table at `fadt_phys`.
pub fn parse_fadt(mem: &PhysMemory, fadt_phys: u64) -> (r: Option<FadtInfo>)
    requires
        mem.wf(),
    ensures
        r == decoded(mem@, fadt_phys),
{
    let sig: [u8; 4] = [0x46, 0x41, 0x43, 0x50];
    assert(sig@ =~= crate::acpi::tables::sig_facp());
    let len: u32 = match table_len(mem, fadt_phys, &sig, FADT_MIN_LEN_V1) {
        Some(len) => len,
        None => return None,
    };
    let flags: u32 = u32_at(mem, fadt_phys, 112);
    let (space, addr, value) = if byte_at(mem, fadt_phys, 8) >= 2 && len >= FADT_MIN_LEN_RESET
        && flags & FLAG_RESET_REG_SUP != 0 {
        (
            byte_at(mem, fadt_phys, 116),
            u64_at(mem, fadt_phys, 120),
            byte_at(mem, fadt_phys, 128),
        )
    } else {
        (GAS_SPACE_IO, 0, 0)
    };
    Some(
        FadtInfo {
            pm_timer_port: u32_at(mem, fadt_phys, 76),
            pm_timer_len: byte_at(mem, fadt_phys, 91),
            flags,
            reset_reg_space: space,
            reset_reg_addr: addr,
            reset_value: value,
        },
    )
}

/// The machine can be reset through the register of the table only if the table is
/// of revision 2 or later, reaches up to the reset value, and says so. Only tables
/// that are valid and name a timer's port tell one.
pub proof fn law_reset_register_has_to_be_supported(m: Ram, phys: u64)
    requires
        decoded(m, phys) is Some,
    ensures
        decoded(m, phys)->0.reset_reg_addr != 0 ==> {
            &&& m.byte(phys + 8) >= 2
            &&& m.word32(phys + 4) >= 129
            &&& decoded(m, phys)->0.flags & 0x400 != 0
            &&& decoded(m, phys)->0.reset_reg_addr == m.word(phys + 120)
            &&& decoded(m, phys)->0.reset_value == m.byte(phys + 128)
            &&& decoded(m, phys)->0.reset_reg_space == m.byte(phys + 116)
        },
        m.byte(phys + 8) < 2 || m.word32(phys + 4) < 129 || m.word32(phys + 112) & 0x400 == 0 ==> {
            &&& decoded(m, phys)->0.reset_reg_space == 1
            &&& decoded(m, phys)->0.reset_reg_addr == 0
            &&& decoded(m, phys)->0.reset_value == 0
        },
        decoded(m, phys)->0.flags == m.word32(phys + 112),
        phys != 0,
        m.byte(phys as int) == 70 && m.byte(phys + 1) == 65 && m.byte(phys + 2) == 67 && m.byte(
            phys + 3,
        ) == 80,
        m.word32(phys + 4) >= 116,
        decoded(m, phys)->0.pm_timer_port == m.word32(phys + 76),
        decoded(m, phys)->0.pm_timer_len == m.byte(phys + 91),
{
    let sig = crate::acpi::tables::signature(m, phys as int);
    assert(sig[0] == 70 && sig[1] == 65 && sig[2] == 67 && sig[3] == 80);
}

} // verus!
