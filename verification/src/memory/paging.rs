//! Four-level page tables.
//!
//! A table is a frame of 512 eight-byte entries. Bits 47 to 39 of a virtual
//! address select the entry of the top-level table (PML4), bits 38 to 30 that of
//! the second (PDPT), bits 29 to 21 that of the third (PD) and bits 20 to 12 that
//! of the last (PT). An entry of a PD can also map a huge page of 2 MB directly.

use vstd::prelude::*;

use crate::memory::physical::{global_alloc_4k, FrameAllocator, PhysicalAllocator};
use crate::memory::pool::{pool_alloc_pt, PtPool};
use crate::memory::ram::{PhysMemory, Ram};

verus! {

// ── Entries ──────────────────────────────────────────────────────────────────
pub const PTE_PRESENT: u64 = 0x1;

pub const PTE_WRITABLE: u64 = 0x2;

pub const PTE_USER: u64 = 0x4;

/// In a PD entry: the entry maps a huge page.
pub const PTE_HUGE_PAGE: u64 = 0x80;

pub const PTE_NO_EXECUTE: u64 = 0x8000_0000_0000_0000;

/// Address bits of an entry.
pub const PTE_ADDR_MASK: u64 = 0x000F_FFFF_FFFF_F000;

/// Address bits of an entry that maps a huge page.
pub const PTE_HUGE_ADDR_MASK: u64 = 0x000F_FFFF_FFE0_0000;

/// Entries of a table.
pub const TABLE_ENTRIES: usize = 512;

/// Bytes of a huge page.
pub const HUGE_PAGE_SIZE: u64 = 0x20_0000;

/// One page table.
#[derive(Debug)]
pub struct PageTable {
    pub entries: [u64; TABLE_ENTRIES],
}

impl PageTable {
    /// A table without mappings.
    pub fn new() -> (r: Self)
        ensures
            forall|i: int| 0 <= i < TABLE_ENTRIES ==> r.entries@[i] == 0,
    {
        PageTable { entries: [0;TABLE_ENTRIES] }
    }
}

pub open spec fn present(e: u64) -> bool {
    e & PTE_PRESENT != 0
}

pub open spec fn huge(e: u64) -> bool {
    e & PTE_HUGE_PAGE != 0
}

/// Address of the table or page an entry points to.
pub open spec fn target(e: u64) -> u64 {
    e & PTE_ADDR_MASK
}

/// Entry that points to the table at `p`.
pub open spec fn table_entry(p: u64, user: u64) -> u64 {
    (p & PTE_ADDR_MASK) | PTE_PRESENT | PTE_WRITABLE | user
}

/// Entry that maps the page at `phys` with the given flags.
pub open spec fn page_entry(phys: u64, flags: u64) -> u64 {
    (phys & PTE_ADDR_MASK) | (flags & !PTE_HUGE_PAGE)
}

/// Entry `i` of the table that replaces the huge page mapped by `e`.
pub open spec fn split_entry(e: u64, i: int) -> u64 {
    ((e & PTE_HUGE_ADDR_MASK) + i * 4096) as u64 | (e & !PTE_HUGE_ADDR_MASK & !PTE_HUGE_PAGE)
}

pub proof fn lemma_target_bound(e: u64)
    by (bit_vector)
    ensures
        e & 0x000F_FFFF_FFFF_F000 <= 0x000F_FFFF_FFFF_F000,
        (e & 0x000F_FFFF_FFFF_F000) % 4096 == 0,
        e & 0x000F_FFFF_FFE0_0000 <= 0x000F_FFFF_FFE0_0000,
{
}

// ── Virtual addresses ────────────────────────────────────────────────────────
pub open spec fn pml4_index(virt: u64) -> int {
    (virt / 0x80_0000_0000 % 512) as int
}

pub open spec fn pdpt_index(virt: u64) -> int {
    (virt / 0x4000_0000 % 512) as int
}

pub open spec fn pd_index(virt: u64) -> int {
    (virt / 0x20_0000 % 512) as int
}

pub open spec fn pt_index(virt: u64) -> int {
    (virt / 0x1000 % 512) as int
}

/// The four table indices of a virtual address, top level first.
fn indices(virt: u64) -> (r: (u64, u64, u64, u64))
    ensures
        r.0 == pml4_index(virt) && r.0 < 512,
        r.1 == pdpt_index(virt) && r.1 < 512,
        r.2 == pd_index(virt) && r.2 < 512,
        r.3 == pt_index(virt) && r.3 < 512,
{
    (
        virt / 0x80_0000_0000 % 512,
        virt / 0x4000_0000 % 512,
        virt / 0x20_0000 % 512,
        virt / 0x1000 % 512,
    )
}

// ── Tables in memory ─────────────────────────────────────────────────────────
/// Entry `i` of the table at `table`.
pub open spec fn entry(m: Ram, table: u64, i: int) -> u64 {
    m.word(table + 8 * i)
}

/// Memory after entry `i` of the table at `table` is set to `v`.
pub open spec fn set_entry(m: Ram, table: u64, i: int, v: u64) -> Ram {
    m.with_word(table + 8 * i, v)
}

/// Memory after the first `n` entries of the table at `table` are set to `f`.
pub open spec fn set_entries(m: Ram, table: u64, f: spec_fn(int) -> u64, n: nat) -> Ram
    decreases n,
{
    if n == 0 {
        m
    } else {
        set_entry(set_entries(m, table, f, (n - 1) as nat), table, n - 1, f(n - 1))
    }
}

/// A table can be at this address.
pub open spec fn table_addr(table: u64) -> bool {
    table <= PTE_ADDR_MASK
}

/// The physical address that `virt` is mapped to.
pub open spec fn translated(m: Ram, pml4: u64, virt: u64) -> Option<u64> {
    let e4 = entry(m, pml4, pml4_index(virt));
    let e3 = entry(m, target(e4), pdpt_index(virt));
    let e2 = entry(m, target(e3), pd_index(virt));
    let e1 = entry(m, target(e2), pt_index(virt));
    if !present(e4) || !present(e3) || !present(e2) {
        None
    } else if huge(e2) {
        Some(e2 & PTE_HUGE_ADDR_MASK | virt & 0x1F_FFFF)
    } else if !present(e1) {
        None
    } else {
        Some(target(e1) | virt & 0xFFF)
    }
}

pub(crate) fn read_entry(mem: &PhysMemory, table: u64, i: u64) -> (r: u64)
    requires
        mem.wf(),
        table_addr(table),
        i < 512,
    ensures
        r == entry(mem@, table, i as int),
{
    mem.read_u64(table + 8 * i)
}

pub(crate) fn write_entry(mem: &mut PhysMemory, table: u64, i: u64, v: u64)
    requires
        old(mem).wf(),
        table_addr(table),
        i < 512,
    ensures
        final(mem).wf(),
        final(mem)@ == set_entry(old(mem)@, table, i as int, v),
{
    mem.write_u64(table + 8 * i, v);
}

/// Writes all entries of `t` to the table at `table`.
fn write_table(mem: &mut PhysMemory, table: u64, t: &PageTable)
    requires
        old(mem).wf(),
        table_addr(table),
    ensures
        final(mem).wf(),
        final(mem)@ == set_entries(old(mem)@, table, |i: int| t.entries@[i], 512),
{
    let ghost f = |i: int| t.entries@[i];
    let mut i: usize = 0;
    while i < TABLE_ENTRIES
        invariant
            i <= TABLE_ENTRIES,
            mem.wf(),
            table_addr(table),
            f == (|k: int| t.entries@[k]),
            mem@ == set_entries(old(mem)@, table, f, i as nat),
        decreases TABLE_ENTRIES - i,
    {
        write_entry(mem, table, i as u64, t.entries[i]);
        i = i + 1;
    }
}

// ── Mapping with a bump allocator ────────────────────────────────────────────
/// Memory and the part of a bump allocator's region that is left.
#[verifier::ext_equal]
pub struct BumpSpace {
    pub ram: Ram,
    pub start: int,
    pub left: int,
}

/// Memory `mem` and allocator `alloc` together.
pub open spec fn bump_space(mem: PhysMemory, alloc: PhysicalAllocator) -> BumpSpace {
    BumpSpace { ram: mem@, start: alloc.heap_start as int, left: alloc.heap_remaining as int }
}

impl BumpSpace {
    /// The table that entry `i` of the table at `table` points to, which is
    /// created if the entry is absent, and the space afterwards.
    pub open spec fn ensure(self, table: u64, i: int) -> (BumpSpace, Option<u64>) {
        let e = entry(self.ram, table, i);
        if present(e) {
            (self, Some(target(e)))
        } else if self.left >= 4096 {
            let p = self.start as u64;
            (
                BumpSpace {
                    ram: set_entry(
                        self.ram.zeroed(self.start, 4096),
                        table,
                        i,
                        table_entry(p, 0),
                    ),
                    start: self.start + 4096,
                    left: self.left - 4096,
                },
                Some(target(table_entry(p, 0))),
            )
        } else {
            (self, None)
        }
    }

    /// The space after `virt` is mapped to `phys`, and whether it was.
    pub open spec fn mapped(self, pml4: u64, virt: u64, phys: u64, flags: u64) -> (BumpSpace, bool) {
        let (s3, t3) = self.ensure(pml4, pml4_index(virt));
        if t3 is None {
            (s3, false)
        } else {
            let (s2, t2) = s3.ensure(t3->0, pdpt_index(virt));
            if t2 is None {
                (s2, false)
            } else {
                let (s1, t1) = s2.ensure(t2->0, pd_index(virt));
                if t1 is None {
                    (s1, false)
                } else {
                    (
                        BumpSpace {
                            ram: set_entry(
                                s1.ram,
                                t1->0,
                                pt_index(virt),
                                page_entry(phys, flags),
                            ),
                            ..s1
                        },
                        true,
                    )
                }
            }
        }
    }

    /// The space after the huge page of `addr` is mapped to itself unless it
    /// is already mapped, and whether the tables for it could be made.
    pub open spec fn huge_mapped(self, pml4: u64, addr: u64, flags: u64) -> (BumpSpace, bool) {
        let (s3, t3) = self.ensure(pml4, pml4_index(addr));
        if t3 is None {
            (s3, false)
        } else {
            let (s2, t2) = s3.ensure(t3->0, pdpt_index(addr));
            if t2 is None {
                (s2, false)
            } else if present(entry(s2.ram, t2->0, pd_index(addr))) {
                (s2, true)
            } else {
                (
                    BumpSpace {
                        ram: set_entry(
                            s2.ram,
                            t2->0,
                            pd_index(addr),
                            addr & PTE_HUGE_ADDR_MASK | flags | PTE_HUGE_PAGE,
                        ),
                        ..s2
                    },
                    true,
                )
            }
        }
    }

    /// The space after the `n` huge pages from `addr` on are mapped to
    /// themselves, up to the first one whose tables cannot be made.
    pub open spec fn region_mapped(self, pml4: u64, addr: u64, n: nat, flags: u64) -> (
        BumpSpace,
        bool,
    )
        decreases n,
    {
        if n == 0 {
            (self, true)
        } else {
            let (s, ok) = self.region_mapped(pml4, addr, (n - 1) as nat, flags);
            if ok {
                s.huge_mapped(pml4, (addr + (n - 1) * HUGE_PAGE_SIZE) as u64, flags)
            } else {
                (s, false)
            }
        }
    }
}

/// Once the tables cannot be made, no further huge page is mapped.
proof fn lemma_region_stops(s: BumpSpace, pml4: u64, addr: u64, n: nat, m: nat, flags: u64)
    requires
        n <= m,
        !s.region_mapped(pml4, addr, n, flags).1,
    ensures
        s.region_mapped(pml4, addr, m, flags) == s.region_mapped(pml4, addr, n, flags),
    decreases m,
{
    if m > n {
        lemma_region_stops(s, pml4, addr, n, (m - 1) as nat, flags);
    }
}

/// The table that entry `i` of the table at `table` points to, created if absent.
fn ensure_table(
    mem: &mut PhysMemory,
    table: u64,
    i: u64,
    alloc: &mut PhysicalAllocator,
) -> (r: Option<u64>)
    requires
        old(mem).wf(),
        old(alloc).wf(),
        table_addr(table),
        i < 512,
    ensures
        final(mem).wf(),
        final(alloc).wf(),
        (bump_space(*final(mem), *final(alloc)), r) == bump_space(*old(mem), *old(alloc)).ensure(
            table,
            i as int,
        ),
        r matches Some(t) ==> table_addr(t),
{
    let e: u64 = read_entry(mem, table, i);
    if e & PTE_PRESENT == 0 {
        let p: u64 = match alloc.allocate(4096) {
            Some(p) => p as u64,
            None => return None,
        };
        mem.zero(p, 4096);
        let e1: u64 = (p & PTE_ADDR_MASK) | PTE_PRESENT | PTE_WRITABLE;
        proof {
            assert((p & PTE_ADDR_MASK) | PTE_PRESENT | PTE_WRITABLE | 0u64 == (p & PTE_ADDR_MASK)
                | PTE_PRESENT | PTE_WRITABLE) by (bit_vector);
            lemma_target_bound(e1);
        }
        write_entry(mem, table, i, e1);
        return Some(e1 & PTE_ADDR_MASK);
    }
    proof {
        lemma_target_bound(e);
    }
    Some(e & PTE_ADDR_MASK)
}

/// Maps `virt` to `phys`, taking frames for missing tables from `alloc`.
///
/// `false` if a table was missing and no frame was left for it.
pub fn map_page(
    mem: &mut PhysMemory,
    pml4: u64,
    virt: u64,
    phys: u64,
    flags: u64,
    alloc: &mut PhysicalAllocator,
) -> (r: bool)
    requires
        old(mem).wf(),
        old(alloc).wf(),
        table_addr(pml4),
    ensures
        final(mem).wf(),
        final(alloc).wf(),
        (bump_space(*final(mem), *final(alloc)), r) == bump_space(*old(mem), *old(alloc)).mapped(
            pml4,
            virt,
            phys,
            flags,
        ),
{
    let (i4, i3, i2, i1) = indices(virt);
    let pdpt: u64 = match ensure_table(mem, pml4, i4, alloc) {
        Some(t) => t,
        None => return false,
    };
    let pd: u64 = match ensure_table(mem, pdpt, i3, alloc) {
        Some(t) => t,
        None => return false,
    };
    let pt: u64 = match ensure_table(mem, pd, i2, alloc) {
        Some(t) => t,
        None => return false,
    };
    write_entry(mem, pt, i1, (phys & PTE_ADDR_MASK) | (flags & !PTE_HUGE_PAGE));
    true
}

/// Huge pages that cover `size` bytes from `phys_base` on.
pub open spec fn region_pages(phys_base: u64, size: u64) -> int {
    (phys_base + size + HUGE_PAGE_SIZE - 1) / HUGE_PAGE_SIZE as int - phys_base / HUGE_PAGE_SIZE
}

/// Maps every huge page of the region to itself, except those already mapped.
/// Stops at the first huge page whose tables cannot be made.
pub fn identity_map_region(
    mem: &mut PhysMemory,
    pml4: u64,
    phys_base: u64,
    size: u64,
    flags: u64,
    alloc: &mut PhysicalAllocator,
)
    requires
        old(mem).wf(),
        old(alloc).wf(),
        table_addr(pml4),
        phys_base + size + HUGE_PAGE_SIZE - 1 <= u64::MAX,
    ensures
        final(mem).wf(),
        final(alloc).wf(),
        bump_space(*final(mem), *final(alloc)) == bump_space(
            *old(mem),
            *old(alloc),
        ).region_mapped(
            pml4,
            (phys_base - phys_base % HUGE_PAGE_SIZE) as u64,
            region_pages(phys_base, size) as nat,
            flags,
        ).0,
{
    let start: u64 = phys_base - phys_base % HUGE_PAGE_SIZE;
    let past: u64 = phys_base + size + (HUGE_PAGE_SIZE - 1);
    let end: u64 = past - past % HUGE_PAGE_SIZE;
    let pages: u64 = (end - start) / HUGE_PAGE_SIZE;
    let ghost before = bump_space(*mem, *alloc);
    assert(pages == region_pages(phys_base, size));
    assert(start + pages * HUGE_PAGE_SIZE == end);
    let mut n: u64 = 0;
    while n < pages
        invariant
            n <= pages,
            mem.wf(),
            alloc.wf(),
            table_addr(pml4),
            start + pages * HUGE_PAGE_SIZE == end,
            pages == region_pages(phys_base, size),
            start == phys_base - phys_base % HUGE_PAGE_SIZE,
            before == bump_space(*old(mem), *old(alloc)),
            (bump_space(*mem, *alloc), true) == before.region_mapped(pml4, start, n as nat, flags),
        decreases pages - n,
    {
        let addr: u64 = start + n * HUGE_PAGE_SIZE;
        let ghost here = bump_space(*mem, *alloc);
        let (i4, i3, i2, _i1) = indices(addr);
        assert(before.region_mapped(pml4, start, (n + 1) as nat, flags) == here.huge_mapped(
            pml4,
            addr,
            flags,
        ));
        let pdpt: u64 = match ensure_table(mem, pml4, i4, alloc) {
            Some(t) => t,
            None => {
                proof {
                    lemma_region_stops(
                        before,
                        pml4,
                        start,
                        (n + 1) as nat,
                        pages as nat,
                        flags,
                    );
                }
                return ;
            },
        };
        let pd: u64 = match ensure_table(mem, pdpt, i3, alloc) {
            Some(t) => t,
            None => {
                proof {
                    lemma_region_stops(
                        before,
                        pml4,
                        start,
                        (n + 1) as nat,
                        pages as nat,
                        flags,
                    );
                }
                return ;
            },
        };
        let e: u64 = read_entry(mem, pd, i2);
        if e & PTE_PRESENT == 0 {
            write_entry(mem, pd, i2, (addr & PTE_HUGE_ADDR_MASK) | flags | PTE_HUGE_PAGE);
        }
        n = n + 1;
    }
}

// ── Mapping with the kernel's frames ─────────────────────────────────────────
/// Physical memory and the frames the kernel makes page tables from.
#[derive(Debug)]
pub struct KernelMemory {
    pub ram: PhysMemory,
    pub frames: FrameAllocator,
    pub pool: PtPool,
}

/// State of the kernel's memory.
#[verifier::ext_equal]
pub struct KernelSpace {
    pub ram: Ram,
    pub frames: crate::memory::physical::Frames,
    pub pool: Seq<u64>,
}

/// `after` is `before` with the frames of all of `addrs` given back.
pub open spec fn gave_back(before: KernelMemory, after: KernelMemory, addrs: Seq<u64>) -> bool {
    &&& after.ram == before.ram
    &&& after.pool == before.pool
    &&& after.frames@ == before.frames@.all_returned(addrs)
}

/// Every tracked frame of `addrs` is free in `after`, every other frame is as it
/// was in `before`, and so is the memory itself.
pub open spec fn freed_exactly(before: KernelSpace, after: KernelSpace, addrs: Seq<u64>) -> bool {
    &&& after.ram == before.ram
    &&& after.pool == before.pool
    &&& forall|i: int|
        0 <= i < crate::memory::physical::MAX_TRACKED_FRAMES ==> #[trigger] after.frames.free[i]
            == (before.frames.in_frame(addrs, i) || before.frames.free[i])
    &&& forall|i: int|
        0 <= i < crate::memory::physical::MAX_TRACKED_FRAMES ==> #[trigger] after.frames.tags[i]
            == if before.frames.in_frame(addrs, i) {
            crate::memory::physical::FrameKind::Free
        } else {
            before.frames.tags[i]
        }
}

/// Giving frames back frees them and nothing else.
pub proof fn lemma_gave_back(before: KernelMemory, after: KernelMemory, addrs: Seq<u64>)
    requires
        before.wf(),
        gave_back(before, after, addrs),
    ensures
        freed_exactly(before@, after@, addrs),
{
    assert forall|i: int| 0 <= i < crate::memory::physical::MAX_TRACKED_FRAMES implies (
    #[trigger] after@.frames.free[i]) == (before@.frames.in_frame(addrs, i)
        || before@.frames.free[i]) by {
        crate::memory::physical::law_returned_frames_are_free(before@.frames, addrs, i);
    }
    assert forall|i: int| 0 <= i < crate::memory::physical::MAX_TRACKED_FRAMES implies (
    #[trigger] after@.frames.tags[i]) == if before@.frames.in_frame(addrs, i) {
        crate::memory::physical::FrameKind::Free
    } else {
        before@.frames.tags[i]
    } by {
        crate::memory::physical::law_returned_frames_are_free(before@.frames, addrs, i);
    }
}

impl View for KernelMemory {
    type V = KernelSpace;

    open spec fn view(&self) -> KernelSpace {
        KernelSpace { ram: self.ram@, frames: self.frames@, pool: self.pool.frames@ }
    }
}

impl KernelSpace {
    /// A frame for a page table, from the pool or else from the allocator, and
    /// the space afterwards.
    pub open spec fn take_pt(self) -> Option<(u64, KernelSpace)> {
        if self.pool.len() > 0 {
            Some((self.pool.last(), KernelSpace { pool: self.pool.drop_last(), ..self }))
        } else {
            self.take_frame()
        }
    }

    /// A frame from the allocator, and the space afterwards.
    pub open spec fn take_frame(self) -> Option<(u64, KernelSpace)> {
        match self.frames.take() {
            Some((p, frames)) => Some((p, KernelSpace { frames, ..self })),
            None => None,
        }
    }

    /// The space with the entry `i` of the table at `table` set to `v`.
    pub open spec fn set_entry(self, table: u64, i: int, v: u64) -> KernelSpace {
        KernelSpace { ram: set_entry(self.ram, table, i, v), ..self }
    }

    /// The space with the frame at `p` cleared.
    pub open spec fn cleared(self, p: u64) -> KernelSpace {
        KernelSpace { ram: self.ram.zeroed(p as int, 4096), ..self }
    }

    /// The table that entry `i` of the table at `table` points to, and the
    /// space afterwards. An absent table is created, a huge page is split, and
    /// a table that the kernel alone may use is opened to users if `user` is set.
    pub open spec fn ensure(self, table: u64, i: int, user: u64) -> (KernelSpace, Option<u64>) {
        let e = entry(self.ram, table, i);
        if !present(e) {
            match self.take_pt() {
                Some((p, s)) => (
                    s.cleared(p).set_entry(table, i, table_entry(p, user)),
                    Some(target(table_entry(p, user))),
                ),
                None => (self, None),
            }
        } else if huge(e) {
            match self.take_pt() {
                Some((p, s)) => (
                    s.split_huge(p, e).set_entry(table, i, table_entry(p, user)),
                    Some(target(table_entry(p, user))),
                ),
                None => (self, None),
            }
        } else if user != 0 && e & PTE_USER == 0 {
            (self.set_entry(table, i, e | PTE_USER), Some(target(e | PTE_USER)))
        } else {
            (self, Some(target(e)))
        }
    }

    /// The space with the frame at `p` cleared and then filled with the 4 KB
    /// entries of the huge page `e`.
    pub open spec fn split_huge(self, p: u64, e: u64) -> KernelSpace {
        let s = self.cleared(p);
        KernelSpace { ram: set_entries(s.ram, p, |i: int| split_entry(e, i), 512), ..s }
    }

    /// The space after `virt` is mapped to `phys`, and whether it was.
    pub open spec fn mapped(self, pml4: u64, virt: u64, phys: u64, flags: u64) -> (
        KernelSpace,
        bool,
    ) {
        let user = flags & PTE_USER;
        let (s3, t3) = self.ensure(pml4, pml4_index(virt), user);
        if t3 is None {
            (s3, false)
        } else {
            let (s2, t2) = s3.ensure(t3->0, pdpt_index(virt), user);
            if t2 is None {
                (s2, false)
            } else {
                let (s1, t1) = s2.ensure(t2->0, pd_index(virt), user);
                if t1 is None {
                    (s1, false)
                } else {
                    (s1.set_entry(t1->0, pt_index(virt), page_entry(phys, flags)), true)
                }
            }
        }
    }

    /// The space after the huge page that covers `virt` is split, and whether
    /// `virt` is now covered by a last-level table.
    pub open spec fn split(self, pml4: u64, virt: u64) -> (KernelSpace, bool) {
        let e4 = entry(self.ram, pml4, pml4_index(virt));
        let e3 = entry(self.ram, target(e4), pdpt_index(virt));
        let e2 = entry(self.ram, target(e3), pd_index(virt));
        if !present(e4) || !present(e3) || !present(e2) {
            (self, false)
        } else if !huge(e2) {
            (self, true)
        } else {
            match self.take_pt() {
                Some((p, s)) => (
                    s.split_huge(p, e2).set_entry(target(e3), pd_index(virt), table_entry(p, 0)),
                    true,
                ),
                None => (self, false),
            }
        }
    }
}

impl KernelMemory {
    pub open spec fn wf(&self) -> bool {
        &&& self.ram.wf()
        &&& self.frames.wf()
        &&& self.frames.paged()
        &&& self.pool.wf()
        &&& forall|i: int|
            0 <= i < self.pool.frames@.len() ==> crate::memory::physical::is_frame(
                #[trigger] self.pool.frames@[i],
            )
    }

    /// Takes a frame for a page table, from the pool or else from the allocator.
    fn take_pt(&mut self) -> (r: Option<u64>)
        requires
            old(self).wf(),
        ensures
            final(self).wf(),
            match old(self)@.take_pt() {
                Some((p, after)) => r == Some(p) && final(self)@ == after
                    && crate::memory::physical::is_frame(p),
                None => r is None && final(self)@ == old(self)@,
            },
    {
        match pool_alloc_pt(&mut self.pool) {
            Some(p) => Some(p),
            None => global_alloc_4k(&mut self.frames),
        }
    }

    /// Writes the 4 KB entries of the huge page `e` to the frame at `p`.
    fn split_huge(&mut self, p: u64, e: u64)
        requires
            old(self).wf(),
            crate::memory::physical::is_frame(p),
        ensures
            final(self).wf(),
            final(self)@ == old(self)@.split_huge(p, e),
    {
        self.ram.zero(p, 4096);
        let huge_base: u64 = e & PTE_HUGE_ADDR_MASK;
        let flags: u64 = e & !PTE_HUGE_ADDR_MASK & !PTE_HUGE_PAGE;
        proof {
            lemma_target_bound(e);
        }
        let mut t = PageTable::new();
        let mut i: usize = 0;
        while i < TABLE_ENTRIES
            invariant
                i <= TABLE_ENTRIES,
                huge_base == e & PTE_HUGE_ADDR_MASK,
                huge_base <= PTE_HUGE_ADDR_MASK,
                flags == e & !PTE_HUGE_ADDR_MASK & !PTE_HUGE_PAGE,
                forall|k: int| 0 <= k < i ==> t.entries@[k] == split_entry(e, k),
            decreases TABLE_ENTRIES - i,
        {
            t.entries[i] = (huge_base + i as u64 * 4096) | flags;
            i = i + 1;
        }
        let ghost cleared = self.ram@;
        write_table(&mut self.ram, p, &t);
        proof {
            lemma_set_entries_same(
                cleared,
                p,
                |k: int| t.entries@[k],
                |k: int| split_entry(e, k),
                512,
            );
        }
    }

    /// The table that entry `i` of the table at `table` points to, made usable
    /// for a mapping with the user flag `user`.
    fn ensure_table(&mut self, table: u64, i: u64, user: u64) -> (r: Option<u64>)
        requires
            old(self).wf(),
            table_addr(table),
            i < 512,
        ensures
            final(self).wf(),
            (final(self)@, r) == old(self)@.ensure(table, i as int, user),
            r matches Some(t) ==> table_addr(t),
    {
        let e: u64 = read_entry(&self.ram, table, i);
        let linked: u64 = if e & PTE_PRESENT == 0 {
            let p: u64 = match self.take_pt() {
                Some(p) => p,
                None => return None,
            };
            self.ram.zero(p, 4096);
            (p & PTE_ADDR_MASK) | PTE_PRESENT | PTE_WRITABLE | user
        } else if e & PTE_HUGE_PAGE != 0 {
            let p: u64 = match self.take_pt() {
                Some(p) => p,
                None => return None,
            };
            self.split_huge(p, e);
            (p & PTE_ADDR_MASK) | PTE_PRESENT | PTE_WRITABLE | user
        } else if user != 0 && e & PTE_USER == 0 {
            e | PTE_USER
        } else {
            proof {
                lemma_target_bound(e);
            }
            return Some(e & PTE_ADDR_MASK);
        };
        proof {
            lemma_target_bound(linked);
        }
        write_entry(&mut self.ram, table, i, linked);
        Some(linked & PTE_ADDR_MASK)
    }
}

/// Writing the same entries gives the same memory.
proof fn lemma_set_entries_same(
    m: Ram,
    table: u64,
    f: spec_fn(int) -> u64,
    g: spec_fn(int) -> u64,
    n: nat,
)
    requires
        forall|k: int| 0 <= k < n ==> #[trigger] f(k) == g(k),
    ensures
        set_entries(m, table, f, n) == set_entries(m, table, g, n),
    decreases n,
{
    if n > 0 {
        lemma_set_entries_same(m, table, f, g, (n - 1) as nat);
        assert(f(n - 1) == g(n - 1));
    }
}

/// Maps `virt` to `phys` with frames of the kernel for missing tables, and
/// opens the tables on the way to users if the mapping is for users. A huge
/// page that covers `virt` is split.
///
/// `false` if a table was missing and no frame was left for it.
pub fn map_page_global(mem: &mut KernelMemory, pml4: u64, virt: u64, phys: u64, flags: u64) -> (r:
    bool)
    requires
        old(mem).wf(),
        table_addr(pml4),
    ensures
        final(mem).wf(),
        (final(mem)@, r) == old(mem)@.mapped(pml4, virt, phys, flags),
{
    let user: u64 = flags & PTE_USER;
    let (i4, i3, i2, i1) = indices(virt);
    let pdpt: u64 = match mem.ensure_table(pml4, i4, user) {
        Some(t) => t,
        None => return false,
    };
    let pd: u64 = match mem.ensure_table(pdpt, i3, user) {
        Some(t) => t,
        None => return false,
    };
    let pt: u64 = match mem.ensure_table(pd, i2, user) {
        Some(t) => t,
        None => return false,
    };
    write_entry(&mut mem.ram, pt, i1, (phys & PTE_ADDR_MASK) | (flags & !PTE_HUGE_PAGE));
    true
}

/// Splits the huge page that covers `virt` into 4 KB pages with the same flags.
///
/// `true` if `virt` is covered by a last-level table afterwards; `false` if it
/// is not mapped or no frame was left.
pub fn split_huge_page_global(mem: &mut KernelMemory, pml4: u64, virt: u64) -> (r: bool)
    requires
        old(mem).wf(),
        table_addr(pml4),
    ensures
        final(mem).wf(),
        (final(mem)@, r) == old(mem)@.split(pml4, virt),
{
    let (i4, i3, i2, _i1) = indices(virt);
    let e4: u64 = read_entry(&mem.ram, pml4, i4);
    if e4 & PTE_PRESENT == 0 {
        return false;
    }
    proof {
        lemma_target_bound(e4);
    }
    let e3: u64 = read_entry(&mem.ram, e4 & PTE_ADDR_MASK, i3);
    if e3 & PTE_PRESENT == 0 {
        return false;
    }
    proof {
        lemma_target_bound(e3);
    }
    let e2: u64 = read_entry(&mem.ram, e3 & PTE_ADDR_MASK, i2);
    if e2 & PTE_PRESENT == 0 {
        return false;
    }
    if e2 & PTE_HUGE_PAGE == 0 {
        return true;
    }
    let p: u64 = match mem.take_pt() {
        Some(p) => p,
        None => return false,
    };
    mem.split_huge(p, e2);
    assert((p & PTE_ADDR_MASK) | PTE_PRESENT | PTE_WRITABLE | 0u64 == (p & PTE_ADDR_MASK)
        | PTE_PRESENT | PTE_WRITABLE) by (bit_vector);
    write_entry(
        &mut mem.ram,
        e3 & PTE_ADDR_MASK,
        i2,
        (p & PTE_ADDR_MASK) | PTE_PRESENT | PTE_WRITABLE,
    );
    true
}

/// The last-level table that covers `virt`.
pub open spec fn last_table(m: Ram, pml4: u64, virt: u64) -> Option<u64> {
    let e4 = entry(m, pml4, pml4_index(virt));
    let e3 = entry(m, target(e4), pdpt_index(virt));
    let e2 = entry(m, target(e3), pd_index(virt));
    if present(e4) && present(e3) && present(e2) && !huge(e2) {
        Some(target(e2))
    } else {
        None
    }
}

/// Memory after the page of `virt` is unmapped, and whether it was mapped.
pub open spec fn page_unmapped(m: Ram, pml4: u64, virt: u64) -> (Ram, bool) {
    match last_table(m, pml4, virt) {
        Some(t) => (
            set_entry(m, t, pt_index(virt), 0),
            present(entry(m, t, pt_index(virt))),
        ),
        None => (m, false),
    }
}

/// Memory after the page of `virt` gets new flags, and whether it was mapped.
pub open spec fn page_remapped(m: Ram, pml4: u64, virt: u64, flags: u64) -> (Ram, bool) {
    match last_table(m, pml4, virt) {
        Some(t) => {
            let e = entry(m, t, pt_index(virt));
            if present(e) {
                (set_entry(m, t, pt_index(virt), page_entry(e, flags)), true)
            } else {
                (m, false)
            }
        },
        None => (m, false),
    }
}

/// The last-level table that covers `virt`.
fn find_last_table(mem: &PhysMemory, pml4: u64, virt: u64) -> (r: Option<u64>)
    requires
        mem.wf(),
        table_addr(pml4),
    ensures
        r == last_table(mem@, pml4, virt),
        r matches Some(t) ==> table_addr(t),
{
    let (i4, i3, i2, _i1) = indices(virt);
    let e4: u64 = read_entry(mem, pml4, i4);
    if e4 & PTE_PRESENT == 0 {
        return None;
    }
    proof {
        lemma_target_bound(e4);
    }
    let e3: u64 = read_entry(mem, e4 & PTE_ADDR_MASK, i3);
    if e3 & PTE_PRESENT == 0 {
        return None;
    }
    proof {
        lemma_target_bound(e3);
    }
    let e2: u64 = read_entry(mem, e3 & PTE_ADDR_MASK, i2);
    if e2 & PTE_PRESENT == 0 || e2 & PTE_HUGE_PAGE != 0 {
        return None;
    }
    proof {
        lemma_target_bound(e2);
    }
    Some(e2 & PTE_ADDR_MASK)
}

/// Removes the mapping of the 4 KB page of `virt`.
///
/// `false` if the page is not mapped at 4 KB granularity; a huge page has to be
/// split first.
pub fn unmap_page(mem: &mut PhysMemory, pml4: u64, virt: u64) -> (r: bool)
    requires
        old(mem).wf(),
        table_addr(pml4),
    ensures
        final(mem).wf(),
        (final(mem)@, r) == page_unmapped(old(mem)@, pml4, virt),
{
    let pt: u64 = match find_last_table(mem, pml4, virt) {
        Some(t) => t,
        None => return false,
    };
    let (_i4, _i3, _i2, i1) = indices(virt);
    let mapped: bool = read_entry(mem, pt, i1) & PTE_PRESENT != 0;
    write_entry(mem, pt, i1, 0);
    mapped
}

/// Replaces the flags of the 4 KB page of `virt` and keeps its address.
///
/// `false`, and no change, if the page is not mapped at 4 KB granularity.
pub fn remap_page_flags(mem: &mut PhysMemory, pml4: u64, virt: u64, new_flags: u64) -> (r: bool)
    requires
        old(mem).wf(),
        table_addr(pml4),
    ensures
        final(mem).wf(),
        (final(mem)@, r) == page_remapped(old(mem)@, pml4, virt, new_flags),
{
    let pt: u64 = match find_last_table(mem, pml4, virt) {
        Some(t) => t,
        None => return false,
    };
    let (_i4, _i3, _i2, i1) = indices(virt);
    let e: u64 = read_entry(mem, pt, i1);
    if e & PTE_PRESENT == 0 {
        return false;
    }
    write_entry(mem, pt, i1, (e & PTE_ADDR_MASK) | (new_flags & !PTE_HUGE_PAGE));
    true
}

/// The physical address that `virt` is mapped to; `None` if it is not mapped.
pub fn translate_address(mem: &PhysMemory, pml4: u64, virt: u64) -> (r: Option<u64>)
    requires
        mem.wf(),
        table_addr(pml4),
    ensures
        r == translated(mem@, pml4, virt),
{
    let (i4, i3, i2, i1) = indices(virt);
    let e4: u64 = read_entry(mem, pml4, i4);
    if e4 & PTE_PRESENT == 0 {
        return None;
    }
    proof {
        lemma_target_bound(e4);
    }
    let e3: u64 = read_entry(mem, e4 & PTE_ADDR_MASK, i3);
    if e3 & PTE_PRESENT == 0 {
        return None;
    }
    proof {
        lemma_target_bound(e3);
    }
    let e2: u64 = read_entry(mem, e3 & PTE_ADDR_MASK, i2);
    if e2 & PTE_PRESENT == 0 {
        return None;
    }
    if e2 & PTE_HUGE_PAGE != 0 {
        return Some((e2 & PTE_HUGE_ADDR_MASK) | (virt & 0x1F_FFFF));
    }
    proof {
        lemma_target_bound(e2);
    }
    let e1: u64 = read_entry(mem, e2 & PTE_ADDR_MASK, i1);
    if e1 & PTE_PRESENT == 0 {
        return None;
    }
    Some((e1 & PTE_ADDR_MASK) | (virt & 0xFFF))
}

// ── The crash log ────────────────────────────────────────────────────────────
/// Maps the crash-log page into a user's tables, for the kernel alone.
pub fn map_crash_log_page(mem: &mut KernelMemory, user_pml4: u64)
    requires
        old(mem).wf(),
        table_addr(user_pml4),
    ensures
        final(mem).wf(),
        final(mem)@ == old(mem)@.mapped(
            user_pml4,
            crate::crash_log::CRASH_LOG_PHYS,
            crate::crash_log::CRASH_LOG_PHYS,
            PTE_PRESENT | PTE_WRITABLE,
        ).0,
{
    let addr: u64 = crate::crash_log::CRASH_LOG_PHYS;
    map_page_global(mem, user_pml4, addr, addr, PTE_PRESENT | PTE_WRITABLE);
}

} // verus!
