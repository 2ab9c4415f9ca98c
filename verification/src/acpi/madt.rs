//! The table of interrupt controllers.

use vstd::prelude::*;

use crate::acpi::tables::{byte_at, table_len, u16_at, u32_at};
use crate::memory::ram::{PhysMemory, Ram};

verus! {

/// Local APICs that are recorded; further ones are ignored.
pub const MAX_LOCAL_APICS: usize = 32;

/// I/O APICs that are recorded; further ones are ignored.
pub const MAX_IO_APICS: usize = 8;

/// Interrupt overrides that are recorded; further ones are ignored.
pub const MAX_IRQ_OVERRIDES: usize = 16;

/// Bytes of the table's header.
pub const MADT_HEADER_LEN: u32 = 44;

/// Interrupt controller of one processor.
#[derive(Copy, Clone, Debug, PartialEq, Eq, Structural)]
pub struct LocalApic {
    pub acpi_id: u8,
    pub apic_id: u8,
    pub enabled: bool,
}

/// Interrupt controller that devices are connected to.
#[derive(Copy, Clone, Debug, PartialEq, Eq, Structural)]
pub struct IoApic {
    pub id: u8,
    /// Address of the controller's registers.
    pub address: u32,
    /// First global interrupt the controller handles.
    pub gsi_base: u32,
}

/// Legacy interrupt that arrives as a different global interrupt.
#[derive(Copy, Clone, Debug, PartialEq, Eq, Structural)]
pub struct IrqOverride {
    pub irq: u8,
    pub gsi: u32,
    /// Polarity and trigger mode.
    pub flags: u16,
}

/// Fields of the table.
#[derive(Debug)]
pub struct MadtInfo {
    /// Address of the local APIC's registers.
    pub local_apic_addr: u32,
    pub flags: u32,
    pub local_apics: [Option<LocalApic>; MAX_LOCAL_APICS],
    pub local_apic_count: usize,
    pub io_apics: [Option<IoApic>; MAX_IO_APICS],
    pub io_apic_count: usize,
    pub irq_overrides: [Option<IrqOverride>; MAX_IRQ_OVERRIDES],
    pub irq_override_count: usize,
}

/// `c` is what the first `n` slots hold as first value that satisfies `f`.
pub open spec fn first_slot<T>(
    slots: Seq<Option<T>>,
    n: int,
    f: spec_fn(T) -> bool,
    c: Option<T>,
) -> bool {
    match c {
        Some(v) => exists|i: int|
            0 <= i < n && #[trigger] slots[i] == Some(v) && f(v) && forall|j: int|
                0 <= j < i ==> !(#[trigger] slots[j] is Some && f(slots[j]->0)),
        None => forall|j: int| 0 <= j < n ==> !(#[trigger] slots[j] is Some && f(slots[j]->0)),
    }
}

/// Every I/O APIC will do.
pub open spec fn any_io_apic() -> spec_fn(IoApic) -> bool {
    |_a: IoApic| true
}

/// An override applies to legacy interrupt `irq`.
pub open spec fn overrides(irq: u8) -> spec_fn(IrqOverride) -> bool {
    |o: IrqOverride| o.irq == irq
}

impl MadtInfo {
    /// The counts stay within the lists.
    pub open spec fn wf(&self) -> bool {
        &&& self.local_apic_count <= MAX_LOCAL_APICS
        &&& self.io_apic_count <= MAX_IO_APICS
        &&& self.irq_override_count <= MAX_IRQ_OVERRIDES
    }

    /// Nothing recorded.
    pub fn empty() -> (r: Self)
        ensures
            r.wf(),
            r.local_apic_addr == 0,
            r.flags == 0,
            r.local_apic_count == 0,
            r.io_apic_count == 0,
            r.irq_override_count == 0,
            forall|i: int| 0 <= i < MAX_LOCAL_APICS ==> r.local_apics@[i] is None,
            forall|i: int| 0 <= i < MAX_IO_APICS ==> r.io_apics@[i] is None,
            forall|i: int| 0 <= i < MAX_IRQ_OVERRIDES ==> r.irq_overrides@[i] is None,
    {
        MadtInfo {
            local_apic_addr: 0,
            flags: 0,
            local_apics: [None;MAX_LOCAL_APICS],
            local_apic_count: 0,
            io_apics: [None;MAX_IO_APICS],
            io_apic_count: 0,
            irq_overrides: [None;MAX_IRQ_OVERRIDES],
            irq_override_count: 0,
        }
    }

    /// The first enabled local APIC.
    pub fn bsp_local_apic(&self) -> (r: Option<LocalApic>)
        requires
            self.wf(),
        ensures
            first_slot(
                self.local_apics@,
                self.local_apic_count as int,
                |a: LocalApic| a.enabled,
                r,
            ),
    {
        let mut i: usize = 0;
        while i < self.local_apic_count
            invariant
                self.wf(),
                i <= self.local_apic_count,
                forall|j: int|
                    0 <= j < i ==> !(#[trigger] self.local_apics@[j] is Some
                        && self.local_apics@[j]->0.enabled),
            decreases self.local_apic_count - i,
        {
            if let Some(a) = self.local_apics[i] {
                if a.enabled {
                    assert(self.local_apics@[i as int] == Some(a));
                    return Some(a);
                }
            }
            i = i + 1;
        }
        None
    }

    /// The first I/O APIC.
    pub fn primary_io_apic(&self) -> (r: Option<IoApic>)
        requires
            self.wf(),
        ensures
            first_slot(self.io_apics@, self.io_apic_count as int, any_io_apic(), r),
    {
        let mut i: usize = 0;
        while i < self.io_apic_count
            invariant
                self.wf(),
                i <= self.io_apic_count,
                forall|j: int| 0 <= j < i ==> !(#[trigger] self.io_apics@[j] is Some),
            decreases self.io_apic_count - i,
        {
            if let Some(a) = self.io_apics[i] {
                assert(self.io_apics@[i as int] == Some(a));
                return Some(a);
            }
            i = i + 1;
        }
        None
    }

    /// The global interrupt that legacy interrupt `irq` arrives as: that of the
    /// first override for it, or else the interrupt itself.
    pub fn irq_to_gsi(&self, irq: u8) -> (r: u32)
        requires
            self.wf(),
        ensures
            exists|c: Option<IrqOverride>|
                #[trigger] first_slot(
                    self.irq_overrides@,
                    self.irq_override_count as int,
                    overrides(irq),
                    c,
                ) && r == match c {
                    Some(o) => o.gsi,
                    None => irq as u32,
                },
    {
        let ghost f = overrides(irq);
        let mut i: usize = 0;
        while i < self.irq_override_count
            invariant
                self.wf(),
                i <= self.irq_override_count,
                forall|j: int|
                    0 <= j < i ==> !(#[trigger] self.irq_overrides@[j] is Some
                        && self.irq_overrides@[j]->0.irq == irq),
                f == overrides(irq),
            decreases self.irq_override_count - i,
        {
            if let Some(o) = self.irq_overrides[i] {
                if o.irq == irq {
                    assert(self.irq_overrides@[i as int] == Some(o));
                    assert(first_slot(
                        self.irq_overrides@,
                        self.irq_override_count as int,
                        f,
                        Some(o),
                    ));
                    return o.gsi;
                }
            }
            i = i + 1;
        }
        assert(first_slot(
            self.irq_overrides@,
            self.irq_override_count as int,
            f,
            None::<IrqOverride>,
        ));
        irq as u32
    }
}

/// The local APIC that the entry at `e` with type `kind` and length `size` describes.
pub open spec fn local_apic_at(m: Ram, e: int, kind: u8, size: u8) -> Option<LocalApic> {
    if kind == 0 && size >= 8 {
        Some(
            LocalApic {
                acpi_id: m.byte(e + 2),
                apic_id: m.byte(e + 3),
                enabled: m.word32(e + 4) % 2 == 1,
            },
        )
    } else {
        None
    }
}

/// The I/O APIC that the entry at `e` with type `kind` and length `size` describes.
pub open spec fn io_apic_at(m: Ram, e: int, kind: u8, size: u8) -> Option<IoApic> {
    if kind == 1 && size >= 12 {
        Some(
            IoApic {
                id: m.byte(e + 2),
                address: m.word32(e + 4),
                gsi_base: m.word32(e + 8),
            },
        )
    } else {
        None
    }
}

/// The override that the entry at `e` with type `kind` and length `size` describes.
pub open spec fn override_at(m: Ram, e: int, kind: u8, size: u8) -> Option<IrqOverride> {
    if kind == 2 && size >= 10 {
        Some(
            IrqOverride {
                irq: m.byte(e + 3),
                gsi: m.word32(e + 4),
                flags: m.word16(e + 8),
            },
        )
    } else {
        None
    }
}

/// What `f` gives for the entries from offset `off` on of the table at `base`
/// of length `len`. An entry shorter than its own header, or one that reaches
/// past the end of the table, ends the list.
pub open spec fn entries_from<T>(
    m: Ram,
    base: u64,
    len: int,
    off: int,
    f: spec_fn(Ram, int, u8, u8) -> Option<T>,
) -> Seq<T>
    decreases len - off,
{
    let kind = m.byte(base + off);
    let size = m.byte(base + off + 1);
    if off + 2 > len || size < 2 || off + size > len {
        Seq::empty()
    } else {
        let rest = entries_from(m, base, len, off + size, f);
        match f(m, base + off, kind, size) {
            Some(t) => seq![t] + rest,
            None => rest,
        }
    }
}

/// `info` is what the table at `phys` says.
pub open spec fn decodes(m: Ram, phys: u64, info: MadtInfo) -> bool {
    let len = m.word32(phys + 4) as int;
    let start = MADT_HEADER_LEN as int;
    &&& info.local_apic_addr == m.word32(phys + 36)
    &&& info.flags == m.word32(phys + 40)
    &&& crate::acpi::dmar::stores_first(
        info.local_apics@,
        info.local_apic_count,
        entries_from(
            m,
            phys,
            len,
            start,
            |r: Ram, e: int, k: u8, s: u8| local_apic_at(r, e, k, s),
        ),
    )
    &&& crate::acpi::dmar::stores_first(
        info.io_apics@,
        info.io_apic_count,
        entries_from(m, phys, len, start, |r: Ram, e: int, k: u8, s: u8| io_apic_at(r, e, k, s)),
    )
    &&& crate::acpi::dmar::stores_first(
        info.irq_overrides@,
        info.irq_override_count,
        entries_from(m, phys, len, start, |r: Ram, e: int, k: u8, s: u8| override_at(r, e, k, s)),
    )
}

/// Decodes the table at `madt_phys`; `None` if it is not a valid table.
pub fn parse_madt(mem: &PhysMemory, madt_phys: u64) -> (r: Option<MadtInfo>)
    requires
        mem.wf(),
    ensures
        r is Some == crate::acpi::tables::valid_table(
            mem@,
            madt_phys,
            crate::acpi::tables::sig_apic(),
            MADT_HEADER_LEN as int,
        ),
        r matches Some(info) ==> decodes(mem@, madt_phys, info) && info.wf(),
{
    let sig: [u8; 4] = [0x41, 0x50, 0x49, 0x43];
    assert(sig@ =~= crate::acpi::tables::sig_apic());
    let len: u64 = match table_len(mem, madt_phys, &sig, MADT_HEADER_LEN) {
        Some(len) => len as u64,
        None => return None,
    };
    let mut info = MadtInfo::empty();
    info.local_apic_addr = u32_at(mem, madt_phys, 36);
    info.flags = u32_at(mem, madt_phys, 40);
    let ghost fl = |r: Ram, e: int, k: u8, s: u8| local_apic_at(r, e, k, s);
    let ghost fi = |r: Ram, e: int, k: u8, s: u8| io_apic_at(r, e, k, s);
    let ghost fo = |r: Ram, e: int, k: u8, s: u8| override_at(r, e, k, s);
    let ghost start = MADT_HEADER_LEN as int;
    let ghost all_l = entries_from(mem@, madt_phys, len as int, start, fl);
    let ghost all_i = entries_from(mem@, madt_phys, len as int, start, fi);
    let ghost all_o = entries_from(mem@, madt_phys, len as int, start, fo);
    let ghost mut done_l: Seq<LocalApic> = Seq::empty();
    let ghost mut done_i: Seq<IoApic> = Seq::empty();
    let ghost mut done_o: Seq<IrqOverride> = Seq::empty();
    let mut off: u64 = MADT_HEADER_LEN as u64;
    while off + 2 <= len
        invariant
            mem.wf(),
            off <= len <= u32::MAX,
            fl == (|r: Ram, e: int, k: u8, s: u8| local_apic_at(r, e, k, s)),
            fi == (|r: Ram, e: int, k: u8, s: u8| io_apic_at(r, e, k, s)),
            fo == (|r: Ram, e: int, k: u8, s: u8| override_at(r, e, k, s)),
            info.local_apic_addr == mem@.word32(madt_phys + 36),
            info.flags == mem@.word32(madt_phys + 40),
            done_l + entries_from(mem@, madt_phys, len as int, off as int, fl) =~= all_l,
            done_i + entries_from(mem@, madt_phys, len as int, off as int, fi) =~= all_i,
            done_o + entries_from(mem@, madt_phys, len as int, off as int, fo) =~= all_o,
            crate::acpi::dmar::stores_first(info.local_apics@, info.local_apic_count, done_l),
            crate::acpi::dmar::stores_first(info.io_apics@, info.io_apic_count, done_i),
            crate::acpi::dmar::stores_first(info.irq_overrides@, info.irq_override_count, done_o),
        ensures
            info.local_apic_addr == mem@.word32(madt_phys + 36),
            info.flags == mem@.word32(madt_phys + 40),
            crate::acpi::dmar::stores_first(info.local_apics@, info.local_apic_count, all_l),
            crate::acpi::dmar::stores_first(info.io_apics@, info.io_apic_count, all_i),
            crate::acpi::dmar::stores_first(info.irq_overrides@, info.irq_override_count, all_o),
        decreases len - off,
    {
        let kind: u8 = byte_at(mem, madt_phys, off);
        let size: u8 = byte_at(mem, madt_phys, off + 1);
        if size < 2 || off + size as u64 > len {
            assert(done_l =~= all_l);
            assert(done_i =~= all_i);
            assert(done_o =~= all_o);
            break ;
        }
        if kind == 0 && size >= 8 {
            let apic = LocalApic {
                acpi_id: byte_at(mem, madt_phys, off + 2),
                apic_id: byte_at(mem, madt_phys, off + 3),
                enabled: u32_at(mem, madt_phys, off + 4) % 2 == 1,
            };
            if info.local_apic_count < MAX_LOCAL_APICS {
                let n: usize = info.local_apic_count;
                info.local_apics[n] = Some(apic);
                info.local_apic_count = n + 1;
            }
            proof {
                done_l = done_l.push(apic);
            }
        } else if kind == 1 && size >= 12 {
            let apic = IoApic {
                id: byte_at(mem, madt_phys, off + 2),
                address: u32_at(mem, madt_phys, off + 4),
                gsi_base: u32_at(mem, madt_phys, off + 8),
            };
            if info.io_apic_count < MAX_IO_APICS {
                let n: usize = info.io_apic_count;
                info.io_apics[n] = Some(apic);
                info.io_apic_count = n + 1;
            }
            proof {
                done_i = done_i.push(apic);
            }
        } else if kind == 2 && size >= 10 {
            let o = IrqOverride {
                irq: byte_at(mem, madt_phys, off + 3),
                gsi: u32_at(mem, madt_phys, off + 4),
                flags: u16_at(mem, madt_phys, off + 8),
            };
            if info.irq_override_count < MAX_IRQ_OVERRIDES {
                let n: usize = info.irq_override_count;
                info.irq_overrides[n] = Some(o);
                info.irq_override_count = n + 1;
            }
            proof {
                done_o = done_o.push(o);
            }
        }
        off = off + size as u64;
    }
    Some(info)
}

/// What is listed of a table comes from an entry that lies whole inside it.
pub proof fn law_listed_entries_lie_in_the_table<T>(
    m: Ram,
    base: u64,
    len: int,
    off: int,
    f: spec_fn(Ram, int, u8, u8) -> Option<T>,
    i: int,
)
    requires
        0 <= i < entries_from(m, base, len, off, f).len(),
    ensures
        exists|at: int|
            {
                &&& off <= at
                &&& at + m.byte(base + at + 1) <= len
                &&& m.byte(base + at + 1) >= 2
                &&& #[trigger] f(m, base + at, m.byte(base + at), m.byte(base + at + 1)) == Some(
                    entries_from(m, base, len, off, f)[i],
                )
            },
    decreases len - off,
{
    let kind = m.byte(base + off);
    let size = m.byte(base + off + 1);
    let rest = entries_from(m, base, len, off + size, f);
    match f(m, base + off, kind, size) {
        Some(t) => {
            if i > 0 {
                law_listed_entries_lie_in_the_table(m, base, len, off + size, f, i - 1);
                assert(entries_from(m, base, len, off, f)[i] == rest[i - 1]);
            } else {
                assert(entries_from(m, base, len, off, f)[0] == t);
            }
        },
        None => {
            law_listed_entries_lie_in_the_table(m, base, len, off + size, f, i);
        },
    }
}

/// An entry describes at most one thing, by its type: 0 a processor's controller,
/// 1 a controller of devices, 2 an interrupt that arrives as another. A
/// processor's controller counts as enabled by the lowest bit of its flags.
pub proof fn law_entries_are_told_apart_by_type(m: Ram, e: int, kind: u8, size: u8)
    ensures
        local_apic_at(m, e, kind, size) matches Some(a) ==> {
            &&& kind == 0
            &&& size >= 8
            &&& a.acpi_id == m.byte(e + 2)
            &&& a.apic_id == m.byte(e + 3)
            &&& a.enabled <==> m.word32(e + 4) % 2 == 1
        },
        io_apic_at(m, e, kind, size) matches Some(a) ==> {
            &&& kind == 1
            &&& size >= 12
            &&& a.id == m.byte(e + 2)
            &&& a.address == m.word32(e + 4)
            &&& a.gsi_base == m.word32(e + 8)
        },
        override_at(m, e, kind, size) matches Some(o) ==> {
            &&& kind == 2
            &&& size >= 10
            &&& o.irq == m.byte(e + 3)
            &&& o.gsi == m.word32(e + 4)
            &&& o.flags == m.word16(e + 8)
        },
        kind == 0 && size == 8 ==> local_apic_at(m, e, kind, size) is Some,
        kind == 1 && size == 12 ==> io_apic_at(m, e, kind, size) is Some,
        kind == 2 && size == 10 ==> override_at(m, e, kind, size) is Some,
{
}

/// An entry that ends exactly where the table does is listed, and ends the list.
pub proof fn law_last_entry_is_listed<T>(
    m: Ram,
    base: u64,
    len: int,
    off: int,
    f: spec_fn(Ram, int, u8, u8) -> Option<T>,
)
    requires
        m.byte(base + off + 1) >= 2,
        off + m.byte(base + off + 1) == len,
    ensures
        match f(m, base + off, m.byte(base + off), m.byte(base + off + 1)) {
            Some(t) => entries_from(m, base, len, off, f) == seq![t],
            None => entries_from(m, base, len, off, f) == Seq::<T>::empty(),
        },
        entries_from(m, base, len, len, f) == Seq::<T>::empty(),
{
    reveal_with_fuel(entries_from, 2);
    match f(m, base + off, m.byte(base + off), m.byte(base + off + 1)) {
        Some(t) => {
            assert(entries_from(m, base, len, off, f) =~= seq![t]);
        },
        None => {},
    }
}

/// Entries that precede a place in the table do not change what is listed from there
/// on: a list is what its first entry gives, followed by the rest.
pub proof fn law_lists_go_on_after_an_entry<T>(
    m: Ram,
    base: u64,
    len: int,
    off: int,
    f: spec_fn(Ram, int, u8, u8) -> Option<T>,
)
    requires
        m.byte(base + off + 1) >= 2,
        off + m.byte(base + off + 1) <= len,
    ensures
        ({
            let all = entries_from(m, base, len, off, f);
            let rest = entries_from(m, base, len, off + m.byte(base + off + 1), f);
            &&& rest.len() <= all.len() <= rest.len() + 1
            &&& forall|i: int|
                0 <= i < rest.len() ==> rest[i] == #[trigger] all[i + all.len() - rest.len()]
        }),
{
}

} // verus!
