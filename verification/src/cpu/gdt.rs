//! Global descriptor table.

use vstd::prelude::*;

verus! {

/// Selector of the kernel's code segment.
pub const KERNEL_CODE: u16 = 0x08;

/// Selector of the kernel's data segment.
pub const KERNEL_DATA: u16 = 0x10;

/// Selector of the task state segment.
pub const TSS_SELECTOR: u16 = 0x28;

/// Size of a table in bytes.
pub const GDT_SIZE: u16 = 56;

/// A segment descriptor of 8 bytes.
#[derive(Copy, Clone, Debug, PartialEq, Eq, Structural)]
pub struct GdtEntry {
    pub limit_low: u16,
    pub base_low: u16,
    pub base_mid: u8,
    pub access: u8,
    pub limit_high_and_flags: u8,
    pub base_high: u8,
}

/// The descriptor that describes nothing.
pub open spec fn no_segment() -> GdtEntry {
    GdtEntry {
        limit_low: 0,
        base_low: 0,
        base_mid: 0,
        access: 0,
        limit_high_and_flags: 0,
        base_high: 0,
    }
}

/// A segment that starts at 0 and has the largest limit.
pub open spec fn flat(access: u8, limit_high_and_flags: u8) -> GdtEntry {
    GdtEntry {
        limit_low: 0xFFFF,
        base_low: 0,
        base_mid: 0,
        access,
        limit_high_and_flags,
        base_high: 0,
    }
}

impl GdtEntry {
    pub fn null() -> (r: Self)
        ensures
            r == no_segment(),
    {
        GdtEntry {
            limit_low: 0,
            base_low: 0,
            base_mid: 0,
            access: 0,
            limit_high_and_flags: 0,
            base_high: 0,
        }
    }

    /// Code of the kernel: present, ring 0, executable, 64 bits.
    pub fn code_ring0() -> (r: Self)
        ensures
            r == flat(0x9A, 0xAF),
    {
        GdtEntry {
            limit_low: 0xFFFF,
            base_low: 0,
            base_mid: 0,
            access: 0x9A,
            limit_high_and_flags: 0xAF,
            base_high: 0,
        }
    }

    /// Data of the kernel: present, ring 0, writable.
    pub fn data_ring0() -> (r: Self)
        ensures
            r == flat(0x92, 0xCF),
    {
        GdtEntry {
            limit_low: 0xFFFF,
            base_low: 0,
            base_mid: 0,
            access: 0x92,
            limit_high_and_flags: 0xCF,
            base_high: 0,
        }
    }

    /// Data of users: present, ring 3, writable.
    pub fn data_ring3() -> (r: Self)
        ensures
            r == flat(0xF2, 0xCF),
    {
        GdtEntry {
            limit_low: 0xFFFF,
            base_low: 0,
            base_mid: 0,
            access: 0xF2,
            limit_high_and_flags: 0xCF,
            base_high: 0,
        }
    }

    /// Code of users: present, ring 3, executable, 64 bits.
    pub fn code_ring3() -> (r: Self)
        ensures
            r == flat(0xFA, 0xAF),
    {
        GdtEntry {
            limit_low: 0xFFFF,
            base_low: 0,
            base_mid: 0,
            access: 0xFA,
            limit_high_and_flags: 0xAF,
            base_high: 0,
        }
    }

    pub fn code() -> (r: Self)
        ensures
            r == flat(0x9A, 0xAF),
    {
        Self::code_ring0()
    }

    pub fn data() -> (r: Self)
        ensures
            r == flat(0x92, 0xCF),
    {
        Self::data_ring0()
    }
}

/// Size, less 1, and address of a table, as the processor loads them.
#[derive(Copy, Clone, Debug, PartialEq, Eq, Structural)]
pub struct GdtDescriptor {
    pub size: u16,
    pub offset: u64,
}

/// Descriptor table: null, kernel code and data, user data and code, and a task
/// state segment whose descriptor takes two slots.
#[derive(Debug)]
pub struct GlobalDescriptorTable {
    pub entries: [GdtEntry; 5],
    pub tss_low: u64,
    pub tss_high: u64,
}

/// Lower half of the descriptor of an available task state segment at `base`.
pub open spec fn tss_low(base: u64) -> int {
    103 + base % 0x100_0000 * 0x1_0000 + 0x89 * 0x100_0000_0000 + base / 0x100_0000 % 0x100
        * 0x100_0000_0000_0000
}

impl GlobalDescriptorTable {
    pub fn new() -> (r: Self)
        ensures
            r.entries@ == seq![
                no_segment(),
                flat(0x9A, 0xAF),
                flat(0x92, 0xCF),
                flat(0xF2, 0xCF),
                flat(0xFA, 0xAF),
            ],
            r.tss_low == 0,
            r.tss_high == 0,
    {
        let r = GlobalDescriptorTable {
            entries: [
                GdtEntry::null(),
                GdtEntry::code_ring0(),
                GdtEntry::data_ring0(),
                GdtEntry::data_ring3(),
                GdtEntry::code_ring3(),
            ],
            tss_low: 0,
            tss_high: 0,
        };
        assert(r.entries@ =~= seq![
            no_segment(),
            flat(0x9A, 0xAF),
            flat(0x92, 0xCF),
            flat(0xF2, 0xCF),
            flat(0xFA, 0xAF),
        ]);
        r
    }

    /// Describes the task state segment at `base`.
    pub fn install_tss(&mut self, base: u64)
        ensures
            final(self).entries == old(self).entries,
            final(self).tss_low == tss_low(base),
            final(self).tss_high == base / 0x1_0000_0000,
    {
        self.tss_low = 103 + base % 0x100_0000 * 0x1_0000 + 0x89 * 0x100_0000_0000 + base
            / 0x100_0000 % 0x100 * 0x100_0000_0000_0000;
        self.tss_high = base / 0x1_0000_0000;
    }

    /// What the processor loads for this table at `offset`.
    pub fn descriptor(&self, offset: u64) -> (r: GdtDescriptor)
        ensures
            r == (GdtDescriptor { size: 55, offset }),
    {
        GdtDescriptor { size: GDT_SIZE - 1, offset }
    }
}

/// The address of the task state segment can be read off its descriptor, which
/// says that it is present and available.
pub proof fn law_tss_descriptor_holds_its_address(base: u64)
    ensures
        0 <= tss_low(base) <= u64::MAX,
        base == tss_low(base) / 0x1_0000 % 0x100_0000 + tss_low(base) / 0x100_0000_0000_0000
            * 0x100_0000 + base / 0x1_0000_0000 * 0x1_0000_0000,
        tss_low(base) / 0x100_0000_0000 % 0x100 == 0x89,
        tss_low(base) % 0x1_0000 == 103,
{
}

/// The address at which a segment starts.
pub open spec fn segment_base(e: GdtEntry) -> int {
    e.base_low + e.base_mid * 0x1_0000 + e.base_high * 0x100_0000
}

/// The last unit of a segment.
pub open spec fn segment_limit(e: GdtEntry) -> int {
    e.limit_low + e.limit_high_and_flags % 16 * 0x1_0000
}

/// Every segment of the table but the first starts at 0 and extends over all
/// memory, in units of 4 KB. All are present. Those of the kernel are for ring 0,
/// those of users for ring 3. Code is executable and of 64 bits, data is writable.
pub proof fn law_segments_cover_all_memory(table: GlobalDescriptorTable, i: int)
    requires
        table.entries@ == seq![
            no_segment(),
            flat(0x9A, 0xAF),
            flat(0x92, 0xCF),
            flat(0xF2, 0xCF),
            flat(0xFA, 0xAF),
        ],
        1 <= i < 5,
    ensures
        ({
            let e = table.entries@[i];
            &&& segment_base(e) == 0
            &&& segment_limit(e) == 0xF_FFFF
            &&& e.limit_high_and_flags / 0x80 == 1
            &&& e.access / 0x80 == 1
            &&& e.access / 0x20 % 4 == if i <= 2 {
                0int
            } else {
                3
            }
            &&& e.access / 0x08 % 2 == if i == 1 || i == 4 {
                1int
            } else {
                0
            }
            &&& e.access / 0x02 % 2 == 1
            &&& i == 1 || i == 4 ==> e.limit_high_and_flags / 0x20 % 2 == 1
        }),
        ({
            let none = table.entries@[0];
            &&& segment_base(none) == 0
            &&& segment_limit(none) == 0
            &&& none.access == 0
        }),
{
}

} // verus!
