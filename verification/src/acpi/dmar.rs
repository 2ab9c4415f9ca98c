//! The table of IOMMUs.

use vstd::prelude::*;

use crate::acpi::tables::{byte_at, table_len, u16_at, u64_at};
use crate::memory::ram::{PhysMemory, Ram};

verus! {

/// Units that are recorded; further ones are ignored.
pub const MAX_DRH_UNITS: usize = 8;

/// Bytes of the table's header.
pub const DMAR_HEADER_LEN: u32 = 48;

/// Least length of a unit's entry.
pub const DRHD_MIN_LEN: u16 = 16;

/// The platform supports interrupt remapping.
pub const DMAR_FLAG_INTR_REMAP: u8 = 0x1;

/// The platform asks not to use x2APIC mode.
pub const DMAR_FLAG_X2APIC_OPT_OUT: u8 = 0x2;

/// The unit covers all devices of its segment that no other unit covers.
pub const DRHD_FLAG_INCLUDE_PCI_ALL: u8 = 0x1;

/// One IOMMU.
#[derive(Copy, Clone, Debug, PartialEq, Eq, Structural)]
pub struct DrhUnit {
    pub flags: u8,
    /// PCI segment the unit governs.
    pub segment: u16,
    /// Address of the unit's registers.
    pub register_base: u64,
}

impl DrhUnit {
    /// Whether the unit covers all devices of its segment.
    pub fn covers_all_pci(&self) -> (r: bool)
        ensures
            r == (self.flags & DRHD_FLAG_INCLUDE_PCI_ALL != 0),
    {
        self.flags & DRHD_FLAG_INCLUDE_PCI_ALL != 0
    }
}

/// Fields of the table.
#[derive(Copy, Clone, Debug)]
pub struct DmarInfo {
    /// Address width of the host minus one.
    pub host_address_width: u8,
    pub flags: u8,
    pub units: [Option<DrhUnit>; MAX_DRH_UNITS],
    pub unit_count: usize,
}

/// The first entries of `list`, as many as fit, stored at the start of `slots`.
pub open spec fn stores_first<T>(slots: Seq<Option<T>>, count: usize, list: Seq<T>) -> bool {
    &&& count == if list.len() < slots.len() {
        list.len()
    } else {
        slots.len()
    }
    &&& forall|i: int| 0 <= i < count ==> #[trigger] slots[i] == Some(list[i])
    &&& forall|i: int| count <= i < slots.len() ==> (#[trigger] slots[i]) is None
}

impl DmarInfo {
    /// The recorded units fill the start of the list.
    pub open spec fn wf(&self) -> bool {
        &&& self.unit_count <= MAX_DRH_UNITS
        &&& forall|i: int| 0 <= i < self.unit_count ==> (#[trigger] self.units@[i]) is Some
    }

    /// The recorded units.
    pub open spec fn unit_list(&self) -> Seq<DrhUnit> {
        Seq::new(self.unit_count as nat, |i: int| self.units@[i]->0)
    }

    /// Address width of the host.
    pub fn haw(&self) -> (r: u8)
        ensures
            r == (if self.host_address_width < 255 {
                self.host_address_width + 1
            } else {
                255
            }),
    {
        self.host_address_width.saturating_add(1)
    }

    pub fn intr_remap_supported(&self) -> (r: bool)
        ensures
            r == (self.flags & DMAR_FLAG_INTR_REMAP != 0),
    {
        self.flags & DMAR_FLAG_INTR_REMAP != 0
    }

    /// The recorded units, in table order.
    pub fn iter_units(&self) -> (r: Vec<DrhUnit>)
        requires
            self.wf(),
        ensures
            r@ == self.unit_list(),
    {
        let mut out: Vec<DrhUnit> = Vec::new();
        let mut i: usize = 0;
        while i < self.unit_count
            invariant
                self.wf(),
                i <= self.unit_count,
                out@ =~= self.unit_list().take(i as int),
            decreases self.unit_count - i,
        {
            if let Some(u) = self.units[i] {
                out.push(u);
            }
            i = i + 1;
        }
        assert(self.unit_list().take(self.unit_count as int) =~= self.unit_list());
        out
    }
}

/// The unit that the entry at `entry` describes.
pub open spec fn unit_at(m: Ram, entry: int) -> DrhUnit {
    DrhUnit {
        flags: m.byte(entry + 4),
        segment: m.word16(entry + 6),
        register_base: m.word(entry + 8),
    }
}

/// The units of the entries from offset `off` on of the table at `base` of
/// length `len`. Entries of other types and truncated unit entries are
/// skipped; an entry shorter than its own header, or one that reaches past the
/// end of the table, ends the list.
pub open spec fn units_from(m: Ram, base: u64, len: int, off: int) -> Seq<DrhUnit>
    decreases len - off,
{
    let kind = m.word16(base + off);
    let size = m.word16(base + off + 2);
    if off + 4 > len || size < 4 || off + size > len {
        Seq::empty()
    } else if kind == 0 && size >= DRHD_MIN_LEN {
        seq![unit_at(m, base + off)] + units_from(m, base, len, off + size)
    } else {
        units_from(m, base, len, off + size)
    }
}

/// `info` is what the table at `phys` says.
pub open spec fn decodes(m: Ram, phys: u64, info: DmarInfo) -> bool {
    &&& info.host_address_width == m.byte(phys + 36)
    &&& info.flags == m.byte(phys + 37)
    &&& stores_first(
        info.units@,
        info.unit_count,
        units_from(m, phys, m.word32(phys + 4) as int, DMAR_HEADER_LEN as int),
    )
}

/// Decodes the table at `dmar_phys`; `None` if it is not a valid table.
pub fn parse_dmar(mem: &PhysMemory, dmar_phys: u64) -> (r: Option<DmarInfo>)
    requires
        mem.wf(),
    ensures
        r is Some == crate::acpi::tables::valid_table(
            mem@,
            dmar_phys,
            crate::acpi::tables::sig_dmar(),
            DMAR_HEADER_LEN as int,
        ),
        r matches Some(info) ==> decodes(mem@, dmar_phys, info) && info.wf(),
{
    let sig: [u8; 4] = [0x44, 0x4D, 0x41, 0x52];
    assert(sig@ =~= crate::acpi::tables::sig_dmar());
    let len: u64 = match table_len(mem, dmar_phys, &sig, DMAR_HEADER_LEN) {
        Some(len) => len as u64,
        None => return None,
    };
    let mut info = DmarInfo {
        host_address_width: byte_at(mem, dmar_phys, 36),
        flags: byte_at(mem, dmar_phys, 37),
        units: [None;MAX_DRH_UNITS],
        unit_count: 0,
    };
    let ghost all = units_from(mem@, dmar_phys, len as int, DMAR_HEADER_LEN as int);
    let ghost mut done: Seq<DrhUnit> = Seq::empty();
    let mut off: u64 = DMAR_HEADER_LEN as u64;
    while off + 4 <= len
        invariant
            mem.wf(),
            off <= len <= u32::MAX,
            info.host_address_width == mem@.byte(dmar_phys + 36),
            info.flags == mem@.byte(dmar_phys + 37),
            done + units_from(mem@, dmar_phys, len as int, off as int) =~= all,
            stores_first(info.units@, info.unit_count, done),
        ensures
            info.host_address_width == mem@.byte(dmar_phys + 36),
            info.flags == mem@.byte(dmar_phys + 37),
            stores_first(info.units@, info.unit_count, all),
        decreases len - off,
    {
        let kind: u16 = u16_at(mem, dmar_phys, off);
        let size: u16 = u16_at(mem, dmar_phys, off + 2);
        if size < 4 || off + size as u64 > len {
            assert(done =~= all);
            break ;
        }
        if kind == 0 && size >= DRHD_MIN_LEN {
            let unit = DrhUnit {
                flags: byte_at(mem, dmar_phys, off + 4),
                segment: u16_at(mem, dmar_phys, off + 6),
                register_base: u64_at(mem, dmar_phys, off + 8),
            };
            if info.unit_count < MAX_DRH_UNITS {
                let n: usize = info.unit_count;
                info.units[n] = Some(unit);
                info.unit_count = n + 1;
            }
            proof {
                done = done.push(unit);
            }
        }
        off = off + size as u64;
    }
    Some(info)
}

/// Every listed unit has an entry of type 0 inside the table, which gives its flags,
/// its segment and the address of its registers.
pub proof fn law_listed_units_have_entries(m: Ram, base: u64, len: int, off: int, i: int)
    requires
        0 <= i < units_from(m, base, len, off).len(),
    ensures
        exists|at: int|
            {
                &&& off <= at
                &&& at + 16 <= len
                &&& #[trigger] m.word16(base + at) == 0
                &&& units_from(m, base, len, off)[i].flags == m.byte(base + at + 4)
                &&& units_from(m, base, len, off)[i].segment == m.word16(base + at + 6)
                &&& units_from(m, base, len, off)[i].register_base == m.word(base + at + 8)
            },
    decreases len - off,
{
    let size = m.word16(base + off + 2);
    let rest = units_from(m, base, len, off + size);
    if m.word16(base + off) == 0 && size >= DRHD_MIN_LEN {
        if i > 0 {
            law_listed_units_have_entries(m, base, len, off + size, i - 1);
            assert(units_from(m, base, len, off)[i] == rest[i - 1]);
        } else {
            assert(units_from(m, base, len, off)[0] == unit_at(m, base + off));
            assert(m.word16(base + off) == 0);
        }
    } else {
        law_listed_units_have_entries(m, base, len, off + size, i);
    }
}

/// A unit whose entry ends exactly where the table does is listed, and ends the
/// list. Entries of other types are passed over.
pub proof fn law_last_unit_is_listed(m: Ram, base: u64, len: int, off: int)
    requires
        m.word16(base + off + 2) >= 16,
        off + m.word16(base + off + 2) == len,
    ensures
        m.word16(base + off) == 0 ==> units_from(m, base, len, off).len() == 1,
        m.word16(base + off) != 0 ==> units_from(m, base, len, off).len() == 0,
{
    reveal_with_fuel(units_from, 2);
}

} // verus!
