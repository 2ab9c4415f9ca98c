//! What holds of the memory that the kernel starts with.

use vstd::prelude::*;

use crate::boot::setup::{self, KERNEL_HEAP_SIZE};
use crate::boot_info::MemoryRegion;
use crate::kernel::Kernel;
use crate::memory::laws::{self, Node};
use crate::memory::paging::{
    self, BumpSpace, KernelSpace, PTE_ADDR_MASK, PTE_PRESENT, PTE_WRITABLE,
};
use crate::memory::physical::{self, Frames};
use crate::memory::pool;
use crate::memory::ram::Ram;
use crate::memory::PT_POOL_CAP;
use crate::process::ProcessId;
use crate::scheduler::round_robin::Scheduler;

verus! {

/// Memory before the kernel sets it up: the boot region lies in memory, and the
/// top-level table is an empty frame outside of it.
pub open spec fn bootable(ram: Ram, pml4: u64, base: u64, size: u64) -> bool {
    &&& base % 4096 == 0
    &&& KERNEL_HEAP_SIZE <= size
    &&& base + size <= PTE_ADDR_MASK
    &&& ram.covers(base as int, size as int)
    &&& laws::sound_frame(ram, pml4)
    &&& pml4 + 4096 <= base || base + size <= pml4
    &&& forall|i: int| 0 <= i < 512 ==> #[trigger] paging::entry(ram, pml4, i) == 0
}

/// The space in which memory is mapped to itself.
pub open spec fn boot_space(ram: Ram, base: u64, size: u64) -> BumpSpace {
    BumpSpace { ram, start: base + KERNEL_HEAP_SIZE, left: size - KERNEL_HEAP_SIZE }
}

/// Every region lies in the 48-bit address space.
pub open spec fn regions_addressable(regions: Seq<MemoryRegion>) -> bool {
    forall|i: int|
        0 <= i < regions.len() ==> (#[trigger] regions[i]).base + regions[i].size
            <= 0x1_0000_0000_0000
}

/// The flags of the kernel's memory say present and hold no address bits.
proof fn lemma_memory_flags()
    ensures
        (PTE_PRESENT | PTE_WRITABLE) & PTE_PRESENT != 0,
        (PTE_PRESENT | PTE_WRITABLE) & PTE_ADDR_MASK == 0,
{
    assert((0x1u64 | 0x2) & 0x1 != 0 && (0x1u64 | 0x2) & 0x000F_FFFF_FFFF_F000 == 0)
        by (bit_vector);
}

/// `virt` lies in the region.
pub open spec fn in_region(region: MemoryRegion, virt: u64) -> bool {
    region.base <= virt < region.base + region.size
}

/// `virt` lies in one of the first `n` regions.
pub open spec fn in_some_region(regions: Seq<MemoryRegion>, n: nat, virt: u64) -> bool {
    exists|i: int| 0 <= i < n && #[trigger] in_region(regions[i], virt)
}

/// As long as a frame is left, every huge page could be mapped.
proof fn lemma_region_completed(s: BumpSpace, pml4: u64, addr: u64, n: nat, flags: u64)
    requires
        s.region_mapped(pml4, addr, n, flags).0.left >= 4096,
    ensures
        s.region_mapped(pml4, addr, n, flags).1,
    decreases n,
{
    if n > 0 && !s.region_mapped(pml4, addr, (n - 1) as nat, flags).1 {
        lemma_region_completed(s, pml4, addr, (n - 1) as nat, flags);
    }
}

/// While regions are mapped to themselves, an address is mapped to itself or
/// not at all, and one in a region that was mapped is, as long as a frame is
/// left.
proof fn lemma_regions_mapped(
    s: BumpSpace,
    pml4: u64,
    regions: Seq<MemoryRegion>,
    n: nat,
    virt: u64,
)
    requires
        laws::bump_ok(s, pml4),
        regions_addressable(regions),
        n <= regions.len(),
        virt < 0x1_0000_0000_0000,
        laws::huge_page_free(s.ram, pml4, virt),
    ensures
        ({
            let t = setup::regions_mapped(s, pml4, regions, n);
            &&& laws::bump_ok(t, pml4)
            &&& !laws::huge_page_free(t.ram, pml4, virt) ==> paging::translated(t.ram, pml4, virt)
                == Some(virt)
            &&& t.left >= 4096 && in_some_region(regions, n, virt) ==> !laws::huge_page_free(
                t.ram,
                pml4,
                virt,
            )
        }),
    decreases n,
{
    if n > 0 {
        let t = setup::regions_mapped(s, pml4, regions, (n - 1) as nat);
        let region = regions[n - 1];
        let flags = PTE_PRESENT | PTE_WRITABLE;
        let start = (region.base - region.base % paging::HUGE_PAGE_SIZE) as u64;
        let pages = paging::region_pages(region.base, region.size);
        lemma_memory_flags();
        lemma_regions_mapped(s, pml4, regions, (n - 1) as nat, virt);
        laws::lemma_region_bounds(region.base, region.size);
        laws::lemma_region_mapped(t, pml4, start, pages as nat, flags, virt);
        if t.region_mapped(pml4, start, pages as nat, flags).0.left >= 4096 {
            lemma_region_completed(t, pml4, start, pages as nat, flags);
        }
        setup::lemma_region_mapped_advances(t, pml4, start, pages as nat, flags);
        reveal(laws::region_done);
        if in_some_region(regions, n, virt) && !in_some_region(regions, (n - 1) as nat, virt) {
            let i = choose|i: int| 0 <= i < n && #[trigger] in_region(regions[i], virt);
            if i < n - 1 {
                assert(in_region(regions[i], virt));
            }
        }
    }
}

/// Frames drawn from an allocator are distinct, were free, and are not any more.
proof fn lemma_drawn(ram: Ram, f: Frames, n: nat)
    requires
        laws::spares_distinct((KernelSpace { ram, frames: f, pool: Seq::empty() })),
    ensures
        ({
            let (got, rest) = pool::drawn(f, n);
            let k = KernelSpace { ram, frames: rest, pool: got };
            &&& laws::spares_distinct(k)
            &&& forall|a: u64| #[trigger] laws::spare(k, a) ==> laws::in_free(f, a)
        }),
    decreases n,
{
    let k = KernelSpace { ram, frames: pool::drawn(f, n).1, pool: pool::drawn(f, n).0 };
    if n > 0 {
        let (got, rest) = pool::drawn(f, (n - 1) as nat);
        let before = KernelSpace { ram, frames: rest, pool: got };
        lemma_drawn(ram, f, (n - 1) as nat);
        if rest.take() is Some && got.len() == n - 1 {
            let (p, after) = rest.take()->0;
            let s = KernelSpace { frames: after, ..before };
            assert(before.take_frame() == Some((p, s)));
            laws::lemma_take_frame(before);
            assert(!got.contains(p));
            assert(k.pool == got.push(p));
            assert forall|i: int| 0 <= i < k.pool.len() implies !laws::in_free(
                k.frames,
                #[trigger] k.pool[i],
            ) by {
                if i < got.len() {
                    assert(k.pool[i] == s.pool[i]);
                }
            }
            assert forall|a: u64| #[trigger] laws::spare(k, a) implies laws::in_free(f, a) by {
                if a != p {
                    if k.pool.contains(a) {
                        let i = k.pool.index_of(a);
                        assert(got[i] == a);
                    }
                    assert(laws::spare(s, a));
                }
                assert(laws::spare(before, a));
            }
            assert(k.pool.no_duplicates()) by {
                assert forall|i: int, j: int|
                    0 <= i < k.pool.len() && 0 <= j < k.pool.len() && i != j implies k.pool[i]
                    != k.pool[j] by {
                    if i < got.len() && j < got.len() {
                        assert(got[i] != got[j]);
                    } else if i < got.len() {
                        assert(got.contains(got[i]));
                    } else {
                        assert(got.contains(got[j]));
                    }
                }
            }
        }
    } else {
        assert forall|a: u64| #[trigger] laws::spare(k, a) implies laws::in_free(f, a) by {
            assert(!k.pool.contains(a));
        }
    }
}

/// The memory the kernel starts with is sound: its tables form a tree, and the
/// frames set aside for more tables lie in memory, are distinct and are none of
/// them. Every address is mapped to itself or not at all, and those of memory
/// are, as long as a frame was left over from making the tables.
pub proof fn law_boot_memory_is_sound(
    ram: Ram,
    pml4: u64,
    regions: Seq<MemoryRegion>,
    base: u64,
    size: u64,
    k: KernelSpace,
    virt: u64,
)
    requires
        bootable(ram, pml4, base, size),
        regions_addressable(regions),
        setup::memory_set_up(ram, pml4, regions, base, size, k),
        virt < 0x1_0000_0000_0000,
    ensures
        laws::kernel_ok(k, pml4),
        paging::translated(k.ram, pml4, virt) is None || paging::translated(k.ram, pml4, virt)
            == Some(virt),
        setup::regions_mapped(boot_space(ram, base, size), pml4, regions, regions.len()).left
            >= 4096 && in_some_region(regions, regions.len(), virt) ==> paging::translated(
            k.ram,
            pml4,
            virt,
        ) == Some(virt),
{
    let s = boot_space(ram, base, size);
    let b = setup::regions_mapped(s, pml4, regions, regions.len());
    let f = physical::fresh_frames(b.start as u64, setup::frames_size(base + size, b.start));
    laws::lemma_empty_tree(ram, pml4);
    assert(laws::bump_ok(s, pml4)) by {
        assert forall|n: Node| n.valid() && #[trigger] laws::table(ram, pml4, n) is Some implies
            laws::table(ram, pml4, n)->0 + 4096 <= s.start || s.start + s.left <= laws::table(
            ram,
            pml4,
            n,
        )->0 by {
            assert(n == Node::Pml4);
        }
    }
    lemma_regions_mapped(s, pml4, regions, regions.len(), virt);
    lemma_regions_advance(s, pml4, regions, regions.len());
    let all = KernelSpace { ram: b.ram, frames: f, pool: Seq::empty() };
    assert(laws::spares_distinct(all));
    lemma_drawn(b.ram, f, PT_POOL_CAP as nat);
    assert forall|a: u64| #[trigger] laws::spare(k, a) implies laws::fresh(k.ram, pml4, a) by {
        assert(laws::in_free(f, a));
        let i = choose|i: int|
            0 <= i < f.free.len() && #[trigger] f.free[i] && f.addr(i) == a && a < f.end;
        assert(b.start <= a && a + 4096 <= b.start + b.left);
        assert forall|n: Node| n.valid() implies #[trigger] laws::table(k.ram, pml4, n) != Some(a) by {
            if laws::table(k.ram, pml4, n) is Some {
                assert(laws::table(b.ram, pml4, n)->0 + 4096 <= b.start || b.start + b.left
                    <= laws::table(b.ram, pml4, n)->0);
            }
        }
    }
}

/// Mapping regions uses up the allocator's region from its start on.
proof fn lemma_regions_advance(s: BumpSpace, pml4: u64, regions: Seq<MemoryRegion>, n: nat)
    requires
        s.left >= 0,
        s.start % 4096 == 0,
    ensures
        ({
            let t = setup::regions_mapped(s, pml4, regions, n);
            &&& t.start + t.left == s.start + s.left
            &&& t.left >= 0
            &&& s.start <= t.start
            &&& t.start % 4096 == 0
        }),
    decreases n,
{
    if n > 0 {
        let region = regions[n - 1];
        lemma_regions_advance(s, pml4, regions, (n - 1) as nat);
        setup::lemma_region_mapped_advances(
            setup::regions_mapped(s, pml4, regions, (n - 1) as nat),
            pml4,
            (region.base - region.base % paging::HUGE_PAGE_SIZE) as u64,
            paging::region_pages(region.base, region.size) as nat,
            PTE_PRESENT | PTE_WRITABLE,
        );
    }
}

// ── What the kernel starts with ──────────────────────────────────────────────
/// The kernel allocates from a usable region that no other exceeds in size. Only
/// if the firmware reports none does it take the 256 MB from 1 MB on.
pub proof fn law_boot_region_is_the_largest(
    regions: Seq<MemoryRegion>,
    base: u64,
    size: u64,
    j: int,
)
    requires
        setup::is_boot_region(regions, base, size),
        0 <= j < regions.len(),
        regions[j].kind is Usable,
    ensures
        size >= regions[j].size,
        exists|i: int|
            0 <= i < regions.len() && (#[trigger] regions[i]).kind is Usable && regions[i].base
                == base && regions[i].size == size,
{
    let i = choose|i: int|
        #[trigger] crate::boot_info::largest_usable(regions, i) && base == regions[i].base && size
            == regions[i].size;
    assert(regions[i].kind is Usable);
}

/// The frames that are handed out start after the megabyte of the kernel's heap and
/// what was used before, and end with the region.
pub proof fn law_frames_end_with_the_region(end: u64, used: u64)
    ensures
        setup::frames_size(end as int, used as int) > 0 ==> used + 0x10_0000 + setup::frames_size(
            end as int,
            used as int,
        ) == end,
        used + 0x10_0000 < end ==> setup::frames_size(end as int, used as int) > 0,
{
}

/// An object of the kernel's heap starts at the first place from the fill level on
/// that is aligned.
pub proof fn law_objects_are_aligned(offset: int, align: int, other: int)
    requires
        0 <= offset,
        align > 0,
    ensures
        offset <= setup::aligned(offset, align) < offset + align,
        setup::aligned(offset, align) % align == 0,
        offset <= other && other % align == 0 ==> setup::aligned(offset, align) <= other,
{
    let n = offset + align - 1;
    vstd::arithmetic::div_mod::lemma_fundamental_div_mod(n, align);
    vstd::arithmetic::mul::lemma_mul_is_commutative(align, n / align);
    vstd::arithmetic::div_mod::lemma_mod_bound(n, align);
    vstd::arithmetic::div_mod::lemma_mod_multiples_basic(n / align, align);
    if offset <= other && other % align == 0 && setup::aligned(offset, align) > other {
        vstd::arithmetic::div_mod::lemma_fundamental_div_mod(other, align);
        let a = n / align;
        let b = other / align;
        assert(a * align > b * align) by {
            vstd::arithmetic::mul::lemma_mul_is_commutative(align, b);
        }
        assert(a >= b + 1) by (nonlinear_arith)
            requires
                a * align > b * align,
                align > 0,
        ;
        assert(a * align >= b * align + align) by (nonlinear_arith)
            requires
                a >= b + 1,
                align > 0,
        ;
        vstd::arithmetic::mul::lemma_mul_is_commutative(align, b);
    }
}

/// The page of a device register block is mapped to itself, for the kernel alone:
/// present and writable, but not for users. Other pages keep their entries, and
/// without a device nothing changes.
pub proof fn law_device_page_is_the_kernels(k: KernelSpace, pml4: u64, base: u64, other: u64)
    requires
        crate::memory::laws::kernel_ok(k, pml4),
    ensures
        base == 0 ==> setup::device_mapped(k, pml4, base) == k,
        ({
            let k2 = setup::device_mapped(k, pml4, base);
            let e = crate::memory::entries::leaf(k2.ram, pml4, other);
            let there = base != 0 && k.mapped(pml4, base, base, 0x3).1
                && crate::memory::laws::same_page(other, base);
            &&& there ==> {
                &&& e is Some
                &&& e->0 & 0x000F_FFFF_FFFF_F000 == base & 0x000F_FFFF_FFFF_F000
                &&& e->0 & 0x1 != 0
                &&& e->0 & 0x2 != 0
                &&& e->0 & 0x4 == 0
            }
            &&& !there && crate::memory::entries::leaf(k.ram, pml4, other) is Some ==> e
                == crate::memory::entries::leaf(k.ram, pml4, other)
        }),
{
    let flags = crate::memory::paging::PTE_PRESENT | crate::memory::paging::PTE_WRITABLE;
    assert(flags == 3 && flags & 1 != 0 && flags & 0x000F_FFFF_FFFF_F000 == 0 && flags & 2 != 0
        && flags & 4 == 0) by (bit_vector)
        requires
            flags == 1u64 | 2,
    ;
    if base != 0 {
        crate::memory::entries::law_mapped_page_has_its_flags(k, pml4, base, base, flags, other);
    }
}

/// The idle process runs only when nobody else can: it has the worst priority there
/// is. It starts at its entry in the kernel's own address space, ready to run.
pub proof fn law_idle_process_comes_last(
    before: Kernel,
    after: Kernel,
    entry: u64,
    pid: ProcessId,
)
    requires
        before.wf(),
        after.wf(),
        before.scheduling(),
        setup::idle_added(before, after, entry, Some(pid)),
    ensures
        !before.sched().has(pid),
        after.sched().has(pid),
        after.sched().pcb(pid).priority == 255,
        after.sched().pcb(pid).state is Ready,
        after.sched().pcb(pid).context.rip == entry,
        after.sched().pcb(pid).page_table_base == before.global.kernel_pml4,
        after.sched().pcb(pid).rt_period == 0,
{
    let middle = choose|middle: Scheduler|
        {
            &&& #[trigger] crate::scheduler::round_robin::process_added(
                before.sched(),
                middle,
                entry,
                before.global.kernel_pml4,
                Some(pid),
            )
            &&& crate::scheduler::round_robin::process_updated(
                middle,
                after.sched(),
                pid,
                crate::process::pcb::ProcessControlBlock {
                    priority: setup::PRIORITY_IDLE,
                    ..middle.pcb(pid)
                },
            )
        };
    let slots = middle.slots();
    let q = crate::process::pcb::ProcessControlBlock {
        priority: setup::PRIORITY_IDLE,
        ..middle.pcb(pid)
    };
    crate::scheduler::effects::lemma_own_pid(slots, pid);
    assert(after.sched().slots() == crate::process::table::with_process(slots, pid, q));
    let i = crate::process::table::slot_of(slots, pid);
    assert(crate::process::table::holds(after.sched().slots(), i, pid));
    crate::process::table::lemma_slot_unique(
        after.sched().slots(),
        after.sched().process_table.next_pid,
        i,
        pid,
    );
    if before.sched().has(pid) {
        crate::scheduler::effects::lemma_own_pid(before.sched().slots(), pid);
    }
}

// ── Hardware ─────────────────────────────────────────────────────────────────
/// The timer's port is the word at offset 76 of a valid `FACP` table, and 0 if there
/// is none.
pub proof fn law_timer_port_is_the_tables(m: Ram, rsdp: u64)
    ensures
        match crate::acpi::tables::located(m, rsdp, seq![70u8, 65u8, 67u8, 80u8]) {
            Some(phys) => {
                &&& setup::pm_timer(m, rsdp) == m.word32(phys + 76) || setup::pm_timer(m, rsdp) == 0
                &&& crate::acpi::fadt::decoded(m, phys) is Some ==> setup::pm_timer(m, rsdp)
                    == m.word32(phys + 76)
                &&& crate::acpi::fadt::decoded(m, phys) is None ==> setup::pm_timer(m, rsdp) == 0
            },
            None => setup::pm_timer(m, rsdp) == 0,
        },
{
    assert(crate::acpi::tables::sig_facp() =~= seq![70u8, 65u8, 67u8, 80u8]);
}

/// The controllers that are used are the local one the table names and the first of
/// the device controllers it lists; without any of these, that address is 0.
pub proof fn law_first_device_controller_is_used(
    info: crate::acpi::madt::MadtInfo,
    c: setup::Controllers,
)
    requires
        info.wf(),
        forall|i: int|
            0 <= i < info.io_apic_count ==> (#[trigger] info.io_apics@[i]) is Some,
        setup::lists_controllers(info, c),
    ensures
        c.lapic == info.local_apic_addr,
        info.io_apic_count == 0 ==> c.ioapic == 0 && c.gsi_base == 0,
        info.io_apic_count > 0 ==> c.ioapic == (info.io_apics@[0]->0).address && c.gsi_base == (
        info.io_apics@[0]->0).gsi_base,
{
    let io = choose|io: Option<crate::acpi::madt::IoApic>|
        {
            &&& #[trigger] crate::acpi::madt::first_slot(
                info.io_apics@,
                info.io_apic_count as int,
                crate::acpi::madt::any_io_apic(),
                io,
            )
            &&& c == setup::Controllers {
                lapic: info.local_apic_addr as u64,
                ioapic: match io {
                    Some(a) => a.address as u64,
                    None => 0,
                },
                gsi_base: match io {
                    Some(a) => a.gsi_base,
                    None => 0,
                },
            }
        };
    let f = crate::acpi::madt::any_io_apic();
    if info.io_apic_count > 0 {
        assert(info.io_apics@[0] is Some);
        assert(f(info.io_apics@[0]->0));
        if io is Some {
            let i = choose|i: int|
                0 <= i < info.io_apic_count && #[trigger] info.io_apics@[i] == Some(io->0) && f(io->0)
                    && forall|j: int|
                    0 <= j < i ==> !(#[trigger] info.io_apics@[j] is Some && f(
                        info.io_apics@[j]->0,
                    ));
            assert(i == 0);
        }
    }
}

/// The registers of every listed unit are given, in the order of the list.
pub proof fn law_every_unit_is_given(info: crate::acpi::dmar::DmarInfo, i: int)
    requires
        info.wf(),
        0 <= i < info.unit_count,
    ensures
        setup::unit_bases(info).len() == info.unit_count,
        setup::unit_bases(info)[i] == (info.units@[i]->0).register_base,
{
}

/// The event timer is read only after its registers are mapped, and it is the one
/// that the `HPET` table describes. Without such a table nothing changes.
pub proof fn law_event_timer_is_mapped_first(k: KernelSpace, pml4: u64, rsdp: u64)
    ensures
        ({
            let (after, timer) = setup::event_timer(k, pml4, rsdp);
            match crate::acpi::tables::located(k.ram, rsdp, seq![72u8, 80u8, 69u8, 84u8]) {
                Some(phys) => {
                    &&& timer == crate::acpi::hpet::decoded(after.ram, phys)
                    &&& crate::acpi::hpet::registers(k.ram, phys) matches Some(base) ==> after
                        == setup::device_mapped(k, pml4, base)
                    &&& crate::acpi::hpet::registers(k.ram, phys) is None ==> after == k
                },
                None => after == k && timer is None,
            }
        }),
{
    assert(crate::acpi::tables::sig_hpet() =~= seq![72u8, 80u8, 69u8, 84u8]);
}

/// When all processes are started, the idle process has the processor, for the
/// scheduler as for the kernel.
pub proof fn law_idle_process_runs_first(
    before: Kernel,
    after: Kernel,
    idle: ProcessId,
)
    requires
        before.scheduling(),
        setup::idle_running(before, after, Some(idle)),
    ensures
        after.scheduling(),
        after.sched().current_process == Some(idle),
        after.global.current_pid == idle.0,
        after.sched().slots() == before.sched().slots(),
        after.mem == before.mem,
{
    assert(after.sched().state().current == after.sched().current_process);
    assert(after.sched().state().slots == after.sched().slots());
    assert(before.sched().state().slots == before.sched().slots());
}

} // verus!
