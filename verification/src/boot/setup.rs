//! Setting up memory, finding the hardware and starting the servers.

use vstd::prelude::*;

use crate::acpi::dmar::{parse_dmar, DmarInfo};
use crate::acpi::fadt::parse_fadt;
use crate::acpi::hpet::{find_hpet, hpet_mmio_base, parse_hpet, HpetInfo};
use crate::acpi::madt::{parse_madt, IoApic, MadtInfo};
use crate::acpi::tables::{find_dmar, find_fadt, find_madt};
use crate::boot_info::{BootInfo, MemoryMap, MemoryRegion, SecureBootState};
use crate::elf::spawn_elf;
use crate::kernel::Kernel;
use crate::memory::paging::{BumpSpace, KernelSpace};
use crate::memory::physical::{Frames, MAX_TRACKED_FRAMES};
use crate::memory::{
    identity_map_region, init_global_allocator, map_page_global, pool_init, FrameAllocator,
    KernelMemory, PhysMemory, PhysicalAllocator, PtPool, PTE_PRESENT, PTE_WRITABLE,
    PT_POOL_CAP,
};
use crate::process::pcb::ProcessControlBlock;
use crate::process::ProcessId;
use crate::scheduler::global::get_global;
use crate::scheduler::round_robin::Scheduler;

verus! {

// ── Memory ───────────────────────────────────────────────────────────────────
/// Bytes of the kernel heap, and bytes left unused at the end of memory.
pub const KERNEL_HEAP_SIZE: u64 = 0x10_0000;

/// Start of physical memory if the firmware reports no usable region.
pub const FALLBACK_BASE: u64 = 0x10_0000;

/// Size of physical memory if the firmware reports no usable region.
pub const FALLBACK_SIZE: u64 = 0x1000_0000;

/// `(base, size)` is the region the kernel allocates from: the largest usable
/// one, or the fallback if there is none.
pub open spec fn is_boot_region(regions: Seq<MemoryRegion>, base: u64, size: u64) -> bool {
    if crate::boot_info::none_usable(regions) {
        base == FALLBACK_BASE && size == FALLBACK_SIZE
    } else {
        exists|i: int|
            #[trigger] crate::boot_info::largest_usable(regions, i) && base == regions[i].base
                && size == regions[i].size
    }
}

/// The region the kernel allocates from.
pub fn boot_region(map: &MemoryMap) -> (r: (u64, u64))
    requires
        map.wf(),
    ensures
        is_boot_region(map@, r.0, r.1),
{
    match map.largest_usable_region() {
        Some(region) => (region.base, region.size),
        None => (FALLBACK_BASE, FALLBACK_SIZE),
    }
}

/// The space after the first `n` regions are mapped to themselves.
pub open spec fn regions_mapped(
    s: BumpSpace,
    pml4: u64,
    regions: Seq<MemoryRegion>,
    n: nat,
) -> BumpSpace
    decreases n,
{
    if n == 0 {
        s
    } else {
        let region = regions[n - 1];
        regions_mapped(s, pml4, regions, (n - 1) as nat).region_mapped(
            pml4,
            (region.base - region.base % crate::memory::paging::HUGE_PAGE_SIZE) as u64,
            crate::memory::paging::region_pages(region.base, region.size) as nat,
            PTE_PRESENT | PTE_WRITABLE,
        ).0
    }
}

/// Every region ends far enough below the end of the address space.
pub open spec fn regions_mappable(regions: Seq<MemoryRegion>) -> bool {
    forall|i: int|
        0 <= i < regions.len() ==> (#[trigger] regions[i]).base + regions[i].size
            + crate::memory::paging::HUGE_PAGE_SIZE - 1 <= u64::MAX
}

/// What is left for frames when allocation so far has reached `used` in a
/// region that ends at `end`.
pub open spec fn frames_size(end: int, used: int) -> u64 {
    if end > used + KERNEL_HEAP_SIZE {
        (end - used - KERNEL_HEAP_SIZE) as u64
    } else {
        0
    }
}

/// The memory the kernel starts with: the kernel heap is set aside, all of
/// memory is mapped to itself, and what is left of the boot region is divided
/// into frames, some of them in the pool for page tables.
pub open spec fn memory_set_up(
    ram: crate::memory::ram::Ram,
    pml4: u64,
    regions: Seq<MemoryRegion>,
    base: u64,
    size: u64,
    k: KernelSpace,
) -> bool {
    let b = regions_mapped(
        BumpSpace {
            ram,
            start: base + KERNEL_HEAP_SIZE,
            left: size - KERNEL_HEAP_SIZE,
        },
        pml4,
        regions,
        regions.len(),
    );
    let (pool, frames) = crate::memory::pool::drawn(
        crate::memory::physical::fresh_frames(
            b.start as u64,
            frames_size(base + size, b.start),
        ),
        PT_POOL_CAP as nat,
    );
    k == KernelSpace { ram: b.ram, frames, pool }
}

proof fn lemma_ensure_advances(s: BumpSpace, t: u64, i: int)
    requires
        s.left >= 0,
    ensures
        s.ensure(t, i).0.start + s.ensure(t, i).0.left == s.start + s.left,
        s.ensure(t, i).0.left >= 0,
        s.start <= s.ensure(t, i).0.start,
        s.start % 4096 == 0 ==> s.ensure(t, i).0.start % 4096 == 0,
{
}

proof fn lemma_huge_mapped_advances(s: BumpSpace, pml4: u64, addr: u64, flags: u64)
    requires
        s.left >= 0,
    ensures
        ({
            let t = s.huge_mapped(pml4, addr, flags).0;
            &&& t.start + t.left == s.start + s.left
            &&& t.left >= 0
            &&& s.start <= t.start
            &&& s.start % 4096 == 0 ==> t.start % 4096 == 0
        }),
{
    let (s3, t3) = s.ensure(pml4, crate::memory::paging::pml4_index(addr));
    lemma_ensure_advances(s, pml4, crate::memory::paging::pml4_index(addr));
    if t3 is Some {
        lemma_ensure_advances(s3, t3->0, crate::memory::paging::pdpt_index(addr));
    }
}

pub proof fn lemma_region_mapped_advances(s: BumpSpace, pml4: u64, addr: u64, n: nat, flags: u64)
    requires
        s.left >= 0,
    ensures
        ({
            let t = s.region_mapped(pml4, addr, n, flags).0;
            &&& t.start + t.left == s.start + s.left
            &&& t.left >= 0
            &&& s.start <= t.start
            &&& s.start % 4096 == 0 ==> t.start % 4096 == 0
        }),
    decreases n,
{
    if n > 0 {
        lemma_region_mapped_advances(s, pml4, addr, (n - 1) as nat, flags);
        let before = s.region_mapped(pml4, addr, (n - 1) as nat, flags).0;
        lemma_huge_mapped_advances(
            before,
            pml4,
            (addr + (n - 1) * crate::memory::paging::HUGE_PAGE_SIZE) as u64,
            flags,
        );
    }
}

proof fn lemma_fresh_frames_drawn(f: Frames, n: nat)
    requires
        f.base % 4096 == 0,
        f.base + MAX_TRACKED_FRAMES * 4096 <= u64::MAX,
        f.end <= crate::memory::physical::PHYS_ADDR_END,
        f.free.len() == MAX_TRACKED_FRAMES,
    ensures
        crate::memory::pool::drawn(f, n).1.base == f.base,
        crate::memory::pool::drawn(f, n).1.end == f.end,
        crate::memory::pool::drawn(f, n).1.free.len() == MAX_TRACKED_FRAMES,
        forall|i: int|
            0 <= i < crate::memory::pool::drawn(f, n).0.len() ==> crate::memory::physical::is_frame(
                #[trigger] crate::memory::pool::drawn(f, n).0[i],
            ),
    decreases n,
{
    if n > 0 {
        lemma_fresh_frames_drawn(f, (n - 1) as nat);
        let rest = crate::memory::pool::drawn(f, (n - 1) as nat).1;
        crate::memory::physical::lemma_lowest_free(rest.free, 0);
    }
}

/// Sets up the kernel's memory from the map of the firmware. `None` if the
/// region to allocate from is too small for the kernel heap.
pub fn init_memory(mut ram: PhysMemory, pml4: u64, map: &MemoryMap) -> (r: Option<KernelMemory>)
    requires
        ram.wf(),
        map.wf(),
        crate::memory::paging::table_addr(pml4),
        regions_mappable(map@),
        forall|base: u64, size: u64|
            #[trigger] is_boot_region(map@, base, size) ==> base % 4096 == 0 && base + size
                <= crate::memory::physical::PHYS_ADDR_END && base + size <= usize::MAX,
    ensures
        match r {
            Some(k) => {
                &&& k.wf()
                &&& exists|base: u64, size: u64|
                    #[trigger] is_boot_region(map@, base, size) && size >= KERNEL_HEAP_SIZE
                        && memory_set_up(ram@, pml4, map@, base, size, k@)
            },
            None => exists|base: u64, size: u64|
                #[trigger] is_boot_region(map@, base, size) && size < KERNEL_HEAP_SIZE,
        },
{
    let (base, size) = boot_region(map);
    assert(is_boot_region(map@, base, size));
    if size < KERNEL_HEAP_SIZE {
        return None;
    }
    let ghost before = ram@;
    let mut alloc = PhysicalAllocator::new(base as usize, size as usize);
    assert(crate::memory::physical::page_rounded(KERNEL_HEAP_SIZE as int) == KERNEL_HEAP_SIZE);
    let heap = alloc.allocate(KERNEL_HEAP_SIZE as usize);
    let regions = map.regions();
    let ghost start = BumpSpace {
        ram: before,
        start: base + KERNEL_HEAP_SIZE,
        left: size - KERNEL_HEAP_SIZE,
    };
    let mut i: usize = 0;
    while i < regions.len()
        invariant
            ram.wf(),
            alloc.wf(),
            crate::memory::paging::table_addr(pml4),
            regions@ == map@,
            regions_mappable(map@),
            i <= regions@.len(),
            start.start % 4096 == 0,
            start.left >= 0,
            start.start + start.left == base + size,
            crate::memory::paging::bump_space(ram, alloc) == regions_mapped(
                start,
                pml4,
                map@,
                i as nat,
            ),
            alloc.heap_start % 4096 == 0,
            start.start <= alloc.heap_start,
            alloc.heap_start + alloc.heap_remaining == base + size,
        decreases regions@.len() - i,
    {
        let region = regions[i];
        proof {
            lemma_region_mapped_advances(
                crate::memory::paging::bump_space(ram, alloc),
                pml4,
                (region.base - region.base % crate::memory::paging::HUGE_PAGE_SIZE) as u64,
                crate::memory::paging::region_pages(region.base, region.size) as nat,
                PTE_PRESENT | PTE_WRITABLE,
            );
        }
        identity_map_region(
            &mut ram,
            pml4,
            region.base,
            region.size,
            PTE_PRESENT | PTE_WRITABLE,
            &mut alloc,
        );
        i = i + 1;
    }
    let used: u64 = alloc.current_base() as u64;
    let end: u64 = base + size;
    let left: u64 = if end > used + KERNEL_HEAP_SIZE {
        end - used - KERNEL_HEAP_SIZE
    } else {
        0
    };
    let mut frames = FrameAllocator::empty();
    init_global_allocator(&mut frames, used, left);
    proof {
        lemma_fresh_frames_drawn(frames@, PT_POOL_CAP as nat);
    }
    let mut pool = PtPool::new();
    pool_init(&mut pool, &mut frames, PT_POOL_CAP);
    let k = KernelMemory { ram, frames, pool };
    assert(memory_set_up(before, pml4, map@, base, size, k@));
    Some(k)
}

/// Memory after the page of a device register block at `base` is mapped to
/// itself; nothing changes if there is no device (0).
pub open spec fn device_mapped(s: KernelSpace, pml4: u64, base: u64) -> KernelSpace {
    if base == 0 {
        s
    } else {
        s.mapped(pml4, base, base, PTE_PRESENT | PTE_WRITABLE).0
    }
}

/// Maps the page of a device register block at `base` to itself, for the kernel
/// alone.
pub fn map_device(mem: &mut KernelMemory, pml4: u64, base: u64)
    requires
        old(mem).wf(),
        crate::memory::paging::table_addr(pml4),
    ensures
        final(mem).wf(),
        final(mem)@ == device_mapped(old(mem)@, pml4, base),
{
    if base != 0 {
        map_page_global(mem, pml4, base, base, PTE_PRESENT | PTE_WRITABLE);
    }
}

// ── Hardware ─────────────────────────────────────────────────────────────────
/// Interrupt controllers; addresses are 0 if there are none.
#[derive(Copy, Clone, Debug, PartialEq, Eq, Structural)]
pub struct Controllers {
    pub lapic: u64,
    pub ioapic: u64,
    /// First global interrupt of the I/O APIC.
    pub gsi_base: u32,
}

/// The controllers that an interrupt controller table lists.
pub open spec fn lists_controllers(info: MadtInfo, c: Controllers) -> bool {
    exists|io: Option<IoApic>|
        {
            &&& #[trigger] crate::acpi::madt::first_slot(
                info.io_apics@,
                info.io_apic_count as int,
                crate::acpi::madt::any_io_apic(),
                io,
            )
            &&& c == Controllers {
                lapic: info.local_apic_addr as u64,
                ioapic: match io {
                    Some(a) => a.address as u64,
                    None => 0,
                },
                gsi_base: match io {
                    Some(a) => a.gsi_base,
                    None => 0,
                },
            }
        }
}

/// The tables under `rsdp` hold a valid interrupt controller table at `phys`.
pub open spec fn madt_at(m: crate::memory::ram::Ram, rsdp: u64, phys: u64) -> bool {
    &&& crate::acpi::tables::located(m, rsdp, crate::acpi::tables::sig_apic()) == Some(phys)
    &&& crate::acpi::tables::valid_table(
        m,
        phys,
        crate::acpi::tables::sig_apic(),
        crate::acpi::madt::MADT_HEADER_LEN as int,
    )
}

/// Finds the interrupt controllers.
pub fn find_controllers(mem: &PhysMemory, rsdp: u64) -> (r: Controllers)
    requires
        mem.wf(),
    ensures
        match crate::acpi::tables::located(mem@, rsdp, crate::acpi::tables::sig_apic()) {
            Some(phys) if madt_at(mem@, rsdp, phys) => exists|info: MadtInfo|
                #[trigger] crate::acpi::madt::decodes(mem@, phys, info) && lists_controllers(
                    info,
                    r,
                ),
            _ => r == (Controllers { lapic: 0, ioapic: 0, gsi_base: 0 }),
        },
{
    let absent = Controllers { lapic: 0, ioapic: 0, gsi_base: 0 };
    let phys: u64 = match find_madt(mem, rsdp) {
        Some(p) => p,
        None => return absent,
    };
    let info = match parse_madt(mem, phys) {
        Some(info) => info,
        None => return absent,
    };
    let io = info.primary_io_apic();
    let (ioapic, gsi_base) = match io {
        Some(a) => (a.address as u64, a.gsi_base),
        None => (0, 0),
    };
    let r = Controllers { lapic: info.local_apic_addr as u64, ioapic, gsi_base };
    proof {
        assert(crate::acpi::madt::first_slot(
            info.io_apics@,
            info.io_apic_count as int,
            crate::acpi::madt::any_io_apic(),
            io,
        ));
        assert(lists_controllers(info, r));
    }
    r
}

/// The port of the power-management timer; 0 if there is none.
pub open spec fn pm_timer(m: crate::memory::ram::Ram, rsdp: u64) -> u32 {
    match crate::acpi::tables::located(m, rsdp, crate::acpi::tables::sig_facp()) {
        Some(phys) => match crate::acpi::fadt::decoded(m, phys) {
            Some(info) => info.pm_timer_port,
            None => 0,
        },
        None => 0,
    }
}

/// Finds the port of the power-management timer.
pub fn find_pm_timer(mem: &PhysMemory, rsdp: u64) -> (r: u32)
    requires
        mem.wf(),
    ensures
        r == pm_timer(mem@, rsdp),
{
    match find_fadt(mem, rsdp) {
        Some(phys) => match parse_fadt(mem, phys) {
            Some(info) => info.pm_timer_port,
            None => 0,
        },
        None => 0,
    }
}

/// The tables under `rsdp` hold a valid DMA remapping table at `phys`.
pub open spec fn dmar_at(m: crate::memory::ram::Ram, rsdp: u64, phys: u64) -> bool {
    &&& crate::acpi::tables::located(m, rsdp, crate::acpi::tables::sig_dmar()) == Some(phys)
    &&& crate::acpi::tables::valid_table(
        m,
        phys,
        crate::acpi::tables::sig_dmar(),
        crate::acpi::dmar::DMAR_HEADER_LEN as int,
    )
}

/// The register addresses of the units that a DMA remapping table lists.
pub open spec fn unit_bases(info: DmarInfo) -> Seq<u64> {
    Seq::new(info.unit_list().len(), |i: int| info.unit_list()[i].register_base)
}

/// Finds the register addresses of the DMA remapping units.
pub fn find_iommus(mem: &PhysMemory, rsdp: u64) -> (r: Vec<u64>)
    requires
        mem.wf(),
    ensures
        match crate::acpi::tables::located(mem@, rsdp, crate::acpi::tables::sig_dmar()) {
            Some(phys) if dmar_at(mem@, rsdp, phys) => exists|info: DmarInfo|
                #[trigger] crate::acpi::dmar::decodes(mem@, phys, info) && r@ == unit_bases(info),
            _ => r@ == Seq::<u64>::empty(),
        },
{
    let mut bases: Vec<u64> = Vec::new();
    let phys: u64 = match find_dmar(mem, rsdp) {
        Some(p) => p,
        None => return bases,
    };
    let info = match parse_dmar(mem, phys) {
        Some(info) => info,
        None => return bases,
    };
    let units = info.iter_units();
    let mut i: usize = 0;
    while i < units.len()
        invariant
            units@ == info.unit_list(),
            i <= units@.len(),
            bases@ =~= unit_bases(info).take(i as int),
        decreases units@.len() - i,
    {
        bases.push(units[i].register_base);
        i = i + 1;
    }
    assert(unit_bases(info).take(units@.len() as int) =~= unit_bases(info));
    bases
}

/// Memory after the registers of the event timer are mapped, and the timer.
pub open spec fn event_timer(s: KernelSpace, pml4: u64, rsdp: u64) -> (
    KernelSpace,
    Option<HpetInfo>,
) {
    match crate::acpi::tables::located(s.ram, rsdp, crate::acpi::tables::sig_hpet()) {
        Some(phys) => {
            let mapped = match crate::acpi::hpet::registers(s.ram, phys) {
                Some(base) => device_mapped(s, pml4, base),
                None => s,
            };
            (mapped, crate::acpi::hpet::decoded(mapped.ram, phys))
        },
        None => (s, None),
    }
}

/// Finds the event timer and maps its registers, which have to be read to
/// know it.
pub fn find_event_timer(mem: &mut KernelMemory, pml4: u64, rsdp: u64) -> (r: Option<HpetInfo>)
    requires
        old(mem).wf(),
        crate::memory::paging::table_addr(pml4),
    ensures
        final(mem).wf(),
        (final(mem)@, r) == event_timer(old(mem)@, pml4, rsdp),
{
    let phys: u64 = match find_hpet(&mem.ram, rsdp) {
        Some(p) => p,
        None => return None,
    };
    if let Some(base) = hpet_mmio_base(&mem.ram, phys) {
        map_device(mem, pml4, base);
    }
    parse_hpet(&mem.ram, phys)
}

/// The pin of the I/O APIC that the first serial port is wired to.
pub fn uart_pin(gsi_base: u32) -> (r: u8)
    ensures
        r == if gsi_base < 4 {
            4 - gsi_base
        } else {
            0
        },
{
    if gsi_base < 4 {
        (4 - gsi_base) as u8
    } else {
        0
    }
}

// ── Boot requirements ────────────────────────────────────────────────────────
/// Which boot requirements are not met.
#[derive(Copy, Clone, Debug, PartialEq, Eq, Structural)]
pub struct BootChecks {
    pub missing_smep: bool,
    pub missing_msr: bool,
    /// There is more than one logical processor.
    pub multi_core: bool,
    /// Secure Boot is not enabled.
    pub insecure: bool,
    /// The kernel may go on.
    pub ok: bool,
}

/// Checks what the kernel needs: execution prevention, model-specific registers
/// and a single logical processor. In safety mode Secure Boot is needed too;
/// otherwise its absence is only reported.
pub fn check_cpu_features(info: &BootInfo, safety_mode: bool) -> (r: BootChecks)
    ensures
        r.missing_smep == (info.cpu.features.leaf7_ebx & 0x80 == 0),
        r.missing_msr == (info.cpu.features.leaf1_edx & 0x20 == 0),
        r.multi_core == (info.cpu.features.leaf1_edx & 0x1000_0000 != 0
            && info.cpu.max_logical_cpus > 1),
        r.insecure == !(info.secure_boot is Enabled),
        r.ok == (!r.missing_smep && !r.missing_msr && !r.multi_core && (safety_mode
            ==> !r.insecure)),
{
    let missing_smep: bool = !info.cpu.features.has_smep();
    let missing_msr: bool = !info.cpu.features.has_msr();
    let multi_core: bool = info.cpu.features.has_htt() && info.cpu.max_logical_cpus > 1;
    let insecure: bool = !matches!(info.secure_boot, SecureBootState::Enabled);
    let ok: bool = !missing_smep && !missing_msr && !multi_core && !(safety_mode && insecure);
    BootChecks { missing_smep, missing_msr, multi_core, insecure, ok }
}

// ── Servers ──────────────────────────────────────────────────────────────────
/// Images of the servers that are started at boot.
#[derive(Debug)]
pub struct BootImages {
    pub init: Vec<u8>,
    pub uart_drv: Vec<u8>,
    pub vfs: Vec<u8>,
    pub shell: Vec<u8>,
    pub net: Vec<u8>,
}

/// The processes that were started at boot.
#[derive(Copy, Clone, Debug, PartialEq, Eq, Structural)]
pub struct BootProcesses {
    pub init: Option<ProcessId>,
    pub idle: Option<ProcessId>,
    pub uart_drv: Option<ProcessId>,
    pub vfs: Option<ProcessId>,
    pub shell: Option<ProcessId>,
    pub net: Option<ProcessId>,
}

pub const PRIORITY_INIT: u8 = 32;

pub const PRIORITY_NET: u8 = 48;

pub const PRIORITY_SERVER: u8 = 64;

pub const PRIORITY_IDLE: u8 = 255;

/// Outcome of adding the idle process.
pub open spec fn idle_added(
    before: Kernel,
    after: Kernel,
    entry: u64,
    idle: Option<ProcessId>,
) -> bool {
    &&& after.differs_in_sched(&before)
    &&& exists|middle: Scheduler|
        {
            &&& #[trigger] crate::scheduler::round_robin::process_added(
                before.sched(),
                middle,
                entry,
                before.global.kernel_pml4,
                idle,
            )
            &&& match idle {
                Some(pid) => crate::scheduler::round_robin::process_updated(
                    middle,
                    after.sched(),
                    pid,
                    ProcessControlBlock { priority: PRIORITY_IDLE, ..middle.pcb(pid) },
                ),
                None => after.sched() == middle,
            }
        }
}

/// Outcome of making the idle process the running one.
pub open spec fn idle_running(before: Kernel, after: Kernel, idle: Option<ProcessId>) -> bool {
    match idle {
        Some(pid) => {
            &&& after.scheduling()
            &&& after.sched().same_resources(&before.sched())
            &&& after.sched().state() == crate::scheduler::round_robin::SchedState {
                current: Some(pid),
                ..before.sched().state()
            }
            &&& after == Kernel {
                global: crate::scheduler::global::GlobalScheduler {
                    scheduler: after.global.scheduler,
                    current_pid: pid.0,
                    ..before.global
                },
                ..before
            }
        },
        None => after == before,
    }
}

/// The kernel after the processes of the system are started, in this order:
/// health monitor, idle process, serial driver, file system, shell, network.
pub open spec fn servers_launched(
    before: Kernel,
    after: Kernel,
    images: BootImages,
    idle_entry: u64,
    trampoline: u64,
    p: BootProcesses,
) -> bool {
    exists|k1: Kernel, k2: Kernel, k3: Kernel, k4: Kernel, k5: Kernel, k6: Kernel|
        {
            &&& #[trigger] crate::elf::elf_spawned(
                before,
                k1,
                images.init@,
                PRIORITY_INIT,
                trampoline,
                p.init,
            )
            &&& #[trigger] idle_added(k1, k2, idle_entry, p.idle)
            &&& #[trigger] crate::elf::elf_spawned(
                k2,
                k3,
                images.uart_drv@,
                PRIORITY_SERVER,
                trampoline,
                p.uart_drv,
            )
            &&& #[trigger] crate::elf::elf_spawned(
                k3,
                k4,
                images.vfs@,
                PRIORITY_SERVER,
                trampoline,
                p.vfs,
            )
            &&& #[trigger] crate::elf::elf_spawned(
                k4,
                k5,
                images.shell@,
                PRIORITY_SERVER,
                trampoline,
                p.shell,
            )
            &&& #[trigger] crate::elf::elf_spawned(
                k5,
                k6,
                images.net@,
                PRIORITY_NET,
                trampoline,
                p.net,
            )
            &&& idle_running(k6, after, p.idle)
        }
}

proof fn lemma_spawn_uses_one_pid(
    before: Kernel,
    after: Kernel,
    data: Seq<u8>,
    priority: u8,
    trampoline: u64,
    r: Option<ProcessId>,
)
    requires
        before.scheduling(),
        crate::elf::elf_spawned(before, after, data, priority, trampoline, r),
    ensures
        after.scheduling(),
        after.global.kernel_pml4 == before.global.kernel_pml4,
        after.sched().process_table.next_pid <= before.sched().process_table.next_pid + 1,
        r matches Some(pid) ==> pid.0 == before.sched().process_table.next_pid,
{
}

/// The health monitor, the first process of a fresh system, has PID 1, which is
/// the process that faults are reported to.
pub proof fn law_first_process_is_the_monitor(
    before: Kernel,
    after: Kernel,
    images: BootImages,
    idle_entry: u64,
    trampoline: u64,
    p: BootProcesses,
)
    requires
        before.scheduling(),
        before.sched().process_table.next_pid == 1,
        servers_launched(before, after, images, idle_entry, trampoline, p),
    ensures
        p.init matches Some(pid) ==> pid == ProcessId(crate::interrupts::handlers::INIT_PID),
{
    let (k1, k2, k3, k4, k5, k6) = choose|
        k1: Kernel,
        k2: Kernel,
        k3: Kernel,
        k4: Kernel,
        k5: Kernel,
        k6: Kernel,
    |
        {
            &&& #[trigger] crate::elf::elf_spawned(
                before,
                k1,
                images.init@,
                PRIORITY_INIT,
                trampoline,
                p.init,
            )
            &&& #[trigger] idle_added(k1, k2, idle_entry, p.idle)
            &&& #[trigger] crate::elf::elf_spawned(
                k2,
                k3,
                images.uart_drv@,
                PRIORITY_SERVER,
                trampoline,
                p.uart_drv,
            )
            &&& #[trigger] crate::elf::elf_spawned(
                k3,
                k4,
                images.vfs@,
                PRIORITY_SERVER,
                trampoline,
                p.vfs,
            )
            &&& #[trigger] crate::elf::elf_spawned(
                k4,
                k5,
                images.shell@,
                PRIORITY_SERVER,
                trampoline,
                p.shell,
            )
            &&& #[trigger] crate::elf::elf_spawned(
                k5,
                k6,
                images.net@,
                PRIORITY_NET,
                trampoline,
                p.net,
            )
            &&& idle_running(k6, after, p.idle)
        };
    lemma_spawn_uses_one_pid(before, k1, images.init@, PRIORITY_INIT, trampoline, p.init);
}

/// Adds the idle process, which starts at `entry`.
fn add_idle(k: &mut Kernel, entry: u64) -> (r: Option<ProcessId>)
    requires
        old(k).wf(),
        old(k).scheduling(),
        old(k).sched().process_table.next_pid < u32::MAX,
    ensures
        final(k).wf(),
        idle_added(*old(k), *final(k), entry, r),
        final(k).sched().process_table.next_pid <= old(k).sched().process_table.next_pid + 1,
{
    let space: u64 = k.global.kernel_pml4;
    let mut idle: Option<ProcessId> = None;
    let ghost mut middle = arbitrary();
    if let Some(sched) = get_global(&mut k.global) {
        idle = sched.add_process(entry, 0, space);
        proof {
            middle = *sched;
        }
        if let Some(pid) = idle {
            sched.set_priority(pid, PRIORITY_IDLE);
        }
    }
    assert(crate::scheduler::round_robin::process_added(
        old(k).sched(),
        middle,
        entry,
        old(k).global.kernel_pml4,
        idle,
    ));
    idle
}

/// Starts the processes of the system and makes the idle process the running
/// one, so that the first timer tick gives way to the servers.
pub fn launch_servers(k: &mut Kernel, images: &BootImages, idle_entry: u64, trampoline: u64) -> (r:
    BootProcesses)
    requires
        old(k).wf(),
        old(k).scheduling(),
        crate::memory::paging::table_addr(old(k).global.kernel_pml4),
        old(k).sched().process_table.next_pid + 6 <= u32::MAX,
    ensures
        final(k).wf(),
        servers_launched(*old(k), *final(k), *images, idle_entry, trampoline, r),
{
    let init = spawn_elf(k, images.init.as_slice(), PRIORITY_INIT, trampoline);
    let ghost k1 = *k;
    proof {
        lemma_spawn_uses_one_pid(*old(k), k1, images.init@, PRIORITY_INIT, trampoline, init);
    }
    let idle = add_idle(k, idle_entry);
    let ghost k2 = *k;
    let uart_drv = spawn_elf(k, images.uart_drv.as_slice(), PRIORITY_SERVER, trampoline);
    let ghost k3 = *k;
    proof {
        lemma_spawn_uses_one_pid(k2, k3, images.uart_drv@, PRIORITY_SERVER, trampoline, uart_drv);
    }
    let vfs = spawn_elf(k, images.vfs.as_slice(), PRIORITY_SERVER, trampoline);
    let ghost k4 = *k;
    proof {
        lemma_spawn_uses_one_pid(k3, k4, images.vfs@, PRIORITY_SERVER, trampoline, vfs);
    }
    let shell = spawn_elf(k, images.shell.as_slice(), PRIORITY_SERVER, trampoline);
    let ghost k5 = *k;
    proof {
        lemma_spawn_uses_one_pid(k4, k5, images.shell@, PRIORITY_SERVER, trampoline, shell);
    }
    let net = spawn_elf(k, images.net.as_slice(), PRIORITY_NET, trampoline);
    let ghost k6 = *k;
    proof {
        lemma_spawn_uses_one_pid(k5, k6, images.net@, PRIORITY_NET, trampoline, net);
    }
    if let Some(pid) = idle {
        k.global.current_pid = pid.as_u32();
        if let Some(sched) = get_global(&mut k.global) {
            sched.set_current(pid);
        }
    }
    let r = BootProcesses { init, idle, uart_drv, vfs, shell, net };
    proof {
        assert(crate::elf::elf_spawned(
            *old(k),
            k1,
            images.init@,
            PRIORITY_INIT,
            trampoline,
            r.init,
        ));
        assert(idle_added(k1, k2, idle_entry, r.idle));
        assert(crate::elf::elf_spawned(
            k2,
            k3,
            images.uart_drv@,
            PRIORITY_SERVER,
            trampoline,
            r.uart_drv,
        ));
        assert(crate::elf::elf_spawned(
            k3,
            k4,
            images.vfs@,
            PRIORITY_SERVER,
            trampoline,
            r.vfs,
        ));
        assert(crate::elf::elf_spawned(
            k4,
            k5,
            images.shell@,
            PRIORITY_SERVER,
            trampoline,
            r.shell,
        ));
        assert(crate::elf::elf_spawned(k5, k6, images.net@, PRIORITY_NET, trampoline, r.net));
        assert(idle_running(k6, *k, r.idle));
    }
    r
}

// ── Idle process and kernel heap ─────────────────────────────────────────────
/// Ticks between two resets of the watchdog.
pub const WATCHDOG_TICKS: u64 = 50;

/// Counts a wake-up of the idle process, and whether the watchdog is due.
pub fn idle_tick(count: &mut u64) -> (r: bool)
    requires
        *old(count) < u64::MAX,
    ensures
        *final(count) == *old(count) + 1,
        r == (*final(count) % 50 == 0),
{
    *count = *count + 1;
    *count % WATCHDOG_TICKS == 0
}

/// Bytes of the kernel's heap.
pub const HEAP_BYTES: usize = 0x10_0000;

/// The next multiple of `align` from `offset` on.
pub open spec fn aligned(offset: int, align: int) -> int {
    (offset + align - 1) / align * align
}

/// Offset of a new object of `size` bytes in a heap that is filled up to
/// `offset`, and the fill level afterwards; `None` if the heap is exhausted.
pub fn bump(offset: usize, size: usize, align: usize) -> (r: Option<(usize, usize)>)
    requires
        align > 0,
        offset + align + size <= usize::MAX,
    ensures
        ({
            let start = aligned(offset as int, align as int);
            r == if start + size >= HEAP_BYTES {
                None
            } else {
                Some((start as usize, (start + size) as usize))
            }
        }),
        r matches Some((start, end)) ==> offset <= start && start % align == 0 && end == start
            + size,
{
    let units: usize = (offset + align - 1) / align;
    proof {
        let n = offset + align - 1;
        vstd::arithmetic::div_mod::lemma_fundamental_div_mod(n, align as int);
        vstd::arithmetic::mul::lemma_mul_is_commutative(align as int, n / (align as int));
        vstd::arithmetic::div_mod::lemma_mod_bound(n, align as int);
        vstd::arithmetic::div_mod::lemma_mod_multiples_basic(units as int, align as int);
    }
    let start: usize = units * align;
    let end: usize = start + size;
    if end >= HEAP_BYTES {
        return None;
    }
    Some((start, end))
}

} // verus!
