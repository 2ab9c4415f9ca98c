//! Page protection of the kernel: guard pages below its stacks and flags for
//! the sections of its image.

use vstd::prelude::*;

use crate::memory::laws::{self, Node};
use crate::memory::paging::{self, KernelSpace, PTE_HUGE_PAGE};
use crate::memory::ram::Ram;
use crate::memory::{
    frame_tag, remap_page_flags, split_huge_page_global, unmap_page, FrameKind, KernelMemory,
    PTE_ADDR_MASK, PTE_NO_EXECUTE, PTE_PRESENT, PTE_WRITABLE,
};
use crate::pecoff::{parse_kernel_sections, KernelSections, SectionInfo};
use crate::process::pcb::{kernel_stack_guard_addr, KernelStackPool, MAX_KERNEL_STACKS};

verus! {

/// No byte of a section lies further from the image base.
pub const SECTION_SPAN: u64 = 0x2_0000_0000;

// ── Guard pages ──────────────────────────────────────────────────────────────
/// Memory after the guard page at `addr` is unmapped, and whether it is now.
pub open spec fn guard_installed(s: KernelSpace, pml4: u64, addr: u64) -> (KernelSpace, bool) {
    let (t, ok) = s.split(pml4, addr);
    if !ok {
        (t, false)
    } else {
        let (ram, was_mapped) = paging::page_unmapped(t.ram, pml4, addr);
        if was_mapped {
            (
                KernelSpace { ram, frames: t.frames.tagged(addr, FrameKind::Guard), ..t },
                true,
            )
        } else {
            (KernelSpace { ram, ..t }, false)
        }
    }
}

/// The guard page of stack `i` of the stacks from `base` on.
pub open spec fn guard_page(base: u64, i: int) -> u64 {
    (base + i * 12288) as u64
}

/// Memory after the guard pages of the first `n` stacks from `base` on are
/// unmapped, and how many were.
pub open spec fn guards_installed(s: KernelSpace, pml4: u64, base: u64, n: nat) -> (
    KernelSpace,
    nat,
)
    decreases n,
{
    if n == 0 {
        (s, 0)
    } else {
        let (t, count) = guards_installed(s, pml4, base, (n - 1) as nat);
        let (u, ok) = guard_installed(t, pml4, guard_page(base, n - 1));
        (
            u,
            if ok {
                count + 1
            } else {
                count
            },
        )
    }
}

/// Unmaps the guard page below every kernel stack and gives how many were
/// unmapped. A page that cannot be split off is left as it is.
pub fn install_kernel_stack_guard_pages(
    mem: &mut KernelMemory,
    pml4: u64,
    stacks: &KernelStackPool,
) -> (r: u32)
    requires
        old(mem).wf(),
        stacks.wf(),
        paging::table_addr(pml4),
    ensures
        final(mem).wf(),
        (final(mem)@, r as nat) == guards_installed(
            old(mem)@,
            pml4,
            stacks.base,
            MAX_KERNEL_STACKS as nat,
        ),
{
    let mut installed: u32 = 0;
    let mut id: usize = 0;
    while id < MAX_KERNEL_STACKS
        invariant
            mem.wf(),
            stacks.wf(),
            paging::table_addr(pml4),
            id <= MAX_KERNEL_STACKS,
            installed <= id,
            (mem@, installed as nat) == guards_installed(
                old(mem)@,
                pml4,
                stacks.base,
                id as nat,
            ),
        decreases MAX_KERNEL_STACKS - id,
    {
        if let Some(guard) = kernel_stack_guard_addr(stacks, id) {
            assert(guard == stacks.base + id * 12288);
            if split_huge_page_global(mem, pml4, guard) {
                if unmap_page(&mut mem.ram, pml4, guard) {
                    frame_tag(&mut mem.frames, guard, FrameKind::Guard);
                    installed = installed + 1;
                }
            }
        }
        id = id + 1;
    }
    installed
}

/// Installing one guard page: the page is gone if it could be split off, and
/// every other page is as it was.
proof fn lemma_guard_installed(s: KernelSpace, pml4: u64, addr: u64, other: u64)
    requires
        laws::kernel_ok(s, pml4),
    ensures
        ({
            let (t, ok) = guard_installed(s, pml4, addr);
            &&& laws::kernel_ok(t, pml4)
            &&& !laws::same_page(other, addr) ==> paging::translated(t.ram, pml4, other)
                == paging::translated(s.ram, pml4, other)
            &&& laws::same_page(other, addr) && (ok || paging::translated(s.ram, pml4, other)
                is None) ==> paging::translated(t.ram, pml4, other) is None
        }),
{
    let (split, ok) = s.split(pml4, addr);
    laws::law_split_keeps_translations(s, pml4, addr, other);
    if ok {
        let i = paging::pt_index(addr);
        let path = laws::path(addr);
        let t = guard_installed(s, pml4, addr).0;
        laws::lemma_zero_entry();
        assert(laws::table(split.ram, pml4, path) == paging::last_table(split.ram, pml4, addr));
        laws::lemma_leaf_write_translation(split.ram, pml4, addr, 0, other);
        laws::lemma_leaf_write_tree(split.ram, pml4, path, i, 0);
        assert forall|n: Node| n.valid() implies #[trigger] laws::table(t.ram, pml4, n)
            == laws::table(split.ram, pml4, n) by {
            laws::lemma_leaf_write_tables(split.ram, pml4, path, i, 0, n);
        }
        assert(t.frames.free == split.frames.free);
        assert forall|f: u64| #[trigger] laws::in_free(t.frames, f) implies laws::in_free(
            split.frames,
            f,
        ) by {
            let j = choose|j: int|
                0 <= j < t.frames.free.len() && #[trigger] t.frames.free[j] && t.frames.addr(j) == f
                    && f < t.frames.end;
            assert(split.frames.free[j]);
        }
        assert forall|f: u64| #[trigger] laws::spare(t, f) implies laws::fresh(t.ram, pml4, f) by {
            assert(laws::spare(split, f));
        }
    }
}

/// After the guard pages of the first `n` stacks are installed, an access to a
/// guard page finds no memory, provided that all of them could be installed.
/// Pages that are no guard pages are mapped as before.
pub proof fn law_guard_pages_are_gone(s: KernelSpace, pml4: u64, base: u64, n: nat, other: u64)
    requires
        laws::kernel_ok(s, pml4),
    ensures
        ({
            let (t, count) = guards_installed(s, pml4, base, n);
            &&& laws::kernel_ok(t, pml4)
            &&& count <= n
            &&& (forall|i: int|
                0 <= i < n ==> !laws::same_page(other, #[trigger] guard_page(base, i)))
                ==> paging::translated(t.ram, pml4, other) == paging::translated(
                s.ram,
                pml4,
                other,
            )
            &&& count == n && (exists|i: int|
                0 <= i < n && laws::same_page(other, #[trigger] guard_page(base, i)))
                ==> paging::translated(t.ram, pml4, other) is None
            &&& paging::translated(s.ram, pml4, other) is None ==> paging::translated(
                t.ram,
                pml4,
                other,
            ) is None
        }),
    decreases n,
{
    if n > 0 {
        let (t, count) = guards_installed(s, pml4, base, (n - 1) as nat);
        law_guard_pages_are_gone(s, pml4, base, (n - 1) as nat, other);
        lemma_guard_installed(t, pml4, guard_page(base, n - 1), other);
        if !laws::same_page(other, guard_page(base, n - 1)) && (exists|i: int|
            0 <= i < n && laws::same_page(other, #[trigger] guard_page(base, i))) {
            let i = choose|i: int|
                0 <= i < n && laws::same_page(other, #[trigger] guard_page(base, i));
            assert(0 <= i < n - 1);
        }
    }
}

// ── Sections ─────────────────────────────────────────────────────────────────
/// Memory after the `n` huge pages from `addr` on are split.
pub open spec fn huge_pages_split(s: KernelSpace, pml4: u64, addr: u64, n: nat) -> KernelSpace
    decreases n,
{
    if n == 0 {
        s
    } else {
        huge_pages_split(s, pml4, addr, (n - 1) as nat).split(
            pml4,
            (addr + (n - 1) * 0x20_0000) as u64,
        ).0
    }
}

/// Memory after the `n` pages from `addr` on get the given flags.
pub open spec fn pages_remapped(
    s: KernelSpace,
    pml4: u64,
    addr: u64,
    n: nat,
    flags: u64,
) -> KernelSpace
    decreases n,
{
    if n == 0 {
        s
    } else {
        let t = pages_remapped(s, pml4, addr, (n - 1) as nat, flags);
        KernelSpace {
            ram: paging::page_remapped(
                t.ram,
                pml4,
                (addr + (n - 1) * 4096) as u64,
                flags,
            ).0,
            ..t
        }
    }
}

/// The start of the page of `addr`.
pub open spec fn page_floor(addr: int) -> int {
    addr / 4096 * 4096
}

/// The end of the page before `addr`, or `addr` if a page starts there.
pub open spec fn page_ceil(addr: int) -> int {
    (addr + 4095) / 4096 * 4096
}

/// Memory after every page of the section gets the given flags.
pub open spec fn flags_applied(
    s: KernelSpace,
    pml4: u64,
    base: u64,
    size: u64,
    flags: u64,
) -> KernelSpace {
    let start = page_floor(base as int);
    let end = page_ceil(base + size);
    if end <= start {
        s
    } else {
        let first = start / 0x20_0000;
        let past = (end + 0x1F_FFFF) / 0x20_0000;
        let t = huge_pages_split(s, pml4, (first * 0x20_0000) as u64, (past - first) as nat);
        pages_remapped(t, pml4, start as u64, ((end - start) / 4096) as nat, flags)
    }
}

/// Gives every page that the section `base .. base + size` touches the given
/// flags, after splitting the huge pages it lies in. Unmapped pages are skipped.
pub fn apply_section_flags(mem: &mut KernelMemory, pml4: u64, base: u64, size: u64, flags: u64)
    requires
        old(mem).wf(),
        paging::table_addr(pml4),
        base + size + 0x20_1000 <= u64::MAX,
    ensures
        final(mem).wf(),
        final(mem)@ == flags_applied(old(mem)@, pml4, base, size, flags),
{
    let start: u64 = base / 4096 * 4096;
    let end: u64 = (base + size + 4095) / 4096 * 4096;
    if end <= start {
        return ;
    }
    let first: u64 = start / 0x20_0000;
    let past: u64 = (end + 0x1F_FFFF) / 0x20_0000;
    let ghost before = mem@;
    let mut i: u64 = 0;
    while i < past - first
        invariant
            mem.wf(),
            paging::table_addr(pml4),
            first <= past,
            past * 0x20_0000 <= u64::MAX,
            i <= past - first,
            mem@ == huge_pages_split(before, pml4, (first * 0x20_0000) as u64, i as nat),
        decreases past - first - i,
    {
        split_huge_page_global(mem, pml4, first * 0x20_0000 + i * 0x20_0000);
        i = i + 1;
    }
    let ghost split = mem@;
    let pages: u64 = (end - start) / 4096;
    let mut j: u64 = 0;
    while j < pages
        invariant
            mem.wf(),
            paging::table_addr(pml4),
            j <= pages,
            start + pages * 4096 <= u64::MAX,
            mem@ == pages_remapped(split, pml4, start, j as nat, flags),
        decreases pages - j,
    {
        remap_page_flags(&mut mem.ram, pml4, start + j * 4096, flags);
        j = j + 1;
    }
}

/// Memory after a section that may be missing gets the given flags.
pub open spec fn section_protected(
    s: KernelSpace,
    pml4: u64,
    section: Option<SectionInfo>,
    flags: u64,
) -> KernelSpace {
    match section {
        Some(i) => flags_applied(s, pml4, i.virt_addr, i.size, flags),
        None => s,
    }
}

/// Memory after the sections of the kernel are protected: code is read-only,
/// constants are read-only and not executable, data is not executable.
pub open spec fn sections_protected(
    s: KernelSpace,
    pml4: u64,
    sections: KernelSections,
) -> KernelSpace {
    let data_flags = PTE_PRESENT | PTE_WRITABLE | PTE_NO_EXECUTE;
    let s1 = section_protected(s, pml4, sections.text, PTE_PRESENT);
    let s2 = section_protected(s1, pml4, sections.rodata, PTE_PRESENT | PTE_NO_EXECUTE);
    let s3 = section_protected(s2, pml4, sections.data, data_flags);
    section_protected(s3, pml4, sections.bss, data_flags)
}

proof fn lemma_section_in_span(
    m: Ram,
    base: int,
    table: int,
    n: int,
    name: Seq<u8>,
)
    requires
        0 <= base,
        base + SECTION_SPAN + 0x20_1000 <= u64::MAX,
    ensures
        crate::pecoff::found(m, base, table, n, name) matches Some(i) ==> i.virt_addr + i.size
            <= base + SECTION_SPAN,
    decreases n,
{
    if n > 0 {
        lemma_section_in_span(m, base, table, n - 1, name);
    }
}

fn protect_section(mem: &mut KernelMemory, pml4: u64, section: Option<SectionInfo>, flags: u64)
    requires
        old(mem).wf(),
        paging::table_addr(pml4),
        section matches Some(i) ==> i.virt_addr + i.size + 0x20_1000 <= u64::MAX,
    ensures
        final(mem).wf(),
        final(mem)@ == section_protected(old(mem)@, pml4, section, flags),
{
    if let Some(i) = section {
        apply_section_flags(mem, pml4, i.virt_addr, i.size, flags);
    }
}

/// Protects the sections of the kernel image at `image_base`. Nothing happens
/// if the address is unknown (0) or there is no valid image.
pub fn remap_kernel_sections(mem: &mut KernelMemory, pml4: u64, image_base: u64)
    requires
        old(mem).wf(),
        paging::table_addr(pml4),
        image_base + SECTION_SPAN + 0x20_1000 <= u64::MAX,
    ensures
        final(mem).wf(),
        final(mem)@ == sections_protected(
            old(mem)@,
            pml4,
            crate::pecoff::sections(old(mem)@.ram, image_base as int),
        ),
{
    if image_base == 0 {
        return ;
    }
    let sections = parse_kernel_sections(&mem.ram, image_base);
    proof {
        let m = mem@.ram;
        if let Some((table, n)) = crate::pecoff::section_table(m, image_base as int) {
            let b = image_base as int;
            lemma_section_in_span(m, b, table, n, crate::pecoff::NAME_TEXT@);
            lemma_section_in_span(m, b, table, n, crate::pecoff::NAME_RDATA@);
            lemma_section_in_span(m, b, table, n, crate::pecoff::NAME_DATA@);
            lemma_section_in_span(m, b, table, n, crate::pecoff::NAME_BSS@);
        }
    }
    let data_flags: u64 = PTE_PRESENT | PTE_WRITABLE | PTE_NO_EXECUTE;
    protect_section(mem, pml4, sections.text, PTE_PRESENT);
    protect_section(mem, pml4, sections.rodata, PTE_PRESENT | PTE_NO_EXECUTE);
    protect_section(mem, pml4, sections.data, data_flags);
    protect_section(mem, pml4, sections.bss, data_flags);
}

// ── What holds of protected sections ─────────────────────────────────────────
/// Flags of the 4 KB page of `virt`, if it is mapped as such.
#[verifier::opaque]
pub open spec fn page_flags(m: Ram, pml4: u64, virt: u64) -> Option<u64> {
    match paging::last_table(m, pml4, virt) {
        Some(t) => {
            let e = paging::entry(m, t, paging::pt_index(virt));
            if paging::present(e) {
                Some(e & !PTE_ADDR_MASK)
            } else {
                None
            }
        },
        None => None,
    }
}

/// Changing the flags of one page gives that page the flags, keeps those of all
/// others, and moves no page.
proof fn lemma_page_remapped(s: KernelSpace, pml4: u64, addr: u64, flags: u64, virt: u64)
    requires
        laws::kernel_ok(s, pml4),
        flags & PTE_PRESENT != 0,
        flags & PTE_ADDR_MASK == 0,
    ensures
        ({
            let t = KernelSpace {
                ram: paging::page_remapped(s.ram, pml4, addr, flags).0,
                ..s
            };
            &&& laws::kernel_ok(t, pml4)
            &&& paging::translated(t.ram, pml4, virt) == paging::translated(s.ram, pml4, virt)
            &&& page_flags(t.ram, pml4, virt) == if laws::same_page(virt, addr) && page_flags(
                s.ram,
                pml4,
                virt,
            ) is Some {
                Some(flags & !PTE_HUGE_PAGE)
            } else {
                page_flags(s.ram, pml4, virt)
            }
        }),
{
    reveal(page_flags);
    let (ram, ok) = paging::page_remapped(s.ram, pml4, addr, flags);
    let t = KernelSpace { ram, ..s };
    laws::law_remapped_page_keeps_its_address(s.ram, pml4, addr, flags, virt);
    if ok {
        let path = laws::path(addr);
        let i = paging::pt_index(addr);
        let pt = paging::last_table(s.ram, pml4, addr)->0;
        let e = paging::entry(s.ram, pt, i);
        let v = paging::page_entry(e, flags);
        assert(((e & 0x000F_FFFF_FFFF_F000) | (flags & !0x80u64)) & !0x000F_FFFF_FFFF_F000 == flags
            & !0x80u64 && ((e & 0x000F_FFFF_FFFF_F000) | (flags & !0x80u64)) & 0x1 != 0)
            by (bit_vector)
            requires
                flags & 0x000F_FFFF_FFFF_F000 == 0,
                flags & 0x1 != 0,
        ;
        assert(laws::table(s.ram, pml4, path) == Some(pt));
        assert forall|n: Node| n.valid() implies #[trigger] laws::table(ram, pml4, n)
            == laws::table(s.ram, pml4, n) by {
            laws::lemma_leaf_write_tables(s.ram, pml4, path, i, v, n);
        }
        assert forall|f: u64| #[trigger] laws::spare(t, f) implies laws::fresh(ram, pml4, f) by {
            assert(laws::spare(s, f));
        }
        assert(laws::table(ram, pml4, laws::path(virt)) == paging::last_table(ram, pml4, virt));
        assert(laws::table(s.ram, pml4, laws::path(virt)) == paging::last_table(
            s.ram,
            pml4,
            virt,
        ));
        if laws::table(s.ram, pml4, laws::path(virt)) is Some {
            let u = laws::table(s.ram, pml4, laws::path(virt))->0;
            reveal(laws::tree);
            if laws::same_page(virt, addr) {
                laws::lemma_entry_same(s.ram, pt, i, v);
            } else {
                if laws::path(virt) != path {
                    assert(laws::table(s.ram, pml4, laws::path(virt)) != laws::table(
                        s.ram,
                        pml4,
                        path,
                    ));
                }
                laws::lemma_entry_frame(s.ram, pt, i, v, u, paging::pt_index(virt));
            }
        }
    }
}

/// The addresses of a page lie on it.
proof fn lemma_on_page(page: u64, virt: u64)
    requires
        page % 4096 == 0,
        page <= virt < page + 4096,
    ensures
        laws::same_page(virt, page),
{
    let (v, p) = (virt as int, page as int);
    assert(v / 0x1000 == p / 0x1000);
    vstd::arithmetic::div_mod::lemma_div_denominator(v, 0x1000, 0x200);
    vstd::arithmetic::div_mod::lemma_div_denominator(p, 0x1000, 0x200);
    vstd::arithmetic::div_mod::lemma_div_denominator(v, 0x1000, 0x4_0000);
    vstd::arithmetic::div_mod::lemma_div_denominator(p, 0x1000, 0x4_0000);
    vstd::arithmetic::div_mod::lemma_div_denominator(v, 0x1000, 0x800_0000);
    vstd::arithmetic::div_mod::lemma_div_denominator(p, 0x1000, 0x800_0000);
}

/// The pages of a section cover it.
proof fn lemma_section_pages(base: u64, size: u64)
    requires
        base + size + 0x20_1000 <= u64::MAX,
    ensures
        ({
            let start = page_floor(base as int);
            let end = page_ceil(base + size);
            &&& 0 <= start <= base
            &&& base + size <= end <= u64::MAX
            &&& start % 4096 == 0
            &&& start + (end - start) / 4096 * 4096 == end
        }),
{
}

/// Going from `s` to `t`, the page of `virt` has not moved, and its size is the
/// same.
#[verifier::opaque]
spec fn unmoved(s: KernelSpace, t: KernelSpace, pml4: u64, virt: u64) -> bool {
    &&& laws::kernel_ok(t, pml4)
    &&& paging::translated(t.ram, pml4, virt) == paging::translated(s.ram, pml4, virt)
    &&& page_flags(t.ram, pml4, virt) is Some == page_flags(s.ram, pml4, virt) is Some
}

/// Changing the flags of one more page.
proof fn lemma_next_remapped(
    s: KernelSpace,
    t: KernelSpace,
    pml4: u64,
    addr: u64,
    flags: u64,
    virt: u64,
)
    requires
        unmoved(s, t, pml4, virt),
        flags & PTE_PRESENT != 0,
        flags & PTE_ADDR_MASK == 0,
        addr % 4096 == 0,
    ensures
        ({
            let u = KernelSpace {
                ram: paging::page_remapped(t.ram, pml4, addr, flags).0,
                ..t
            };
            let f = page_flags(t.ram, pml4, virt);
            &&& unmoved(s, u, pml4, virt)
            &&& page_flags(u.ram, pml4, virt) == f || page_flags(u.ram, pml4, virt) == Some(
                flags & !PTE_HUGE_PAGE,
            )
            &&& addr <= virt < addr + 4096 && f is Some ==> page_flags(u.ram, pml4, virt) == Some(
                flags & !PTE_HUGE_PAGE,
            )
        }),
{
    reveal(unmoved);
    lemma_page_remapped(t, pml4, addr, flags, virt);
    if addr <= virt < addr + 4096 {
        lemma_on_page(addr, virt);
    }
}

/// Changing the flags of `n` pages in a row.
proof fn lemma_pages_remapped(
    s: KernelSpace,
    pml4: u64,
    addr: u64,
    n: nat,
    flags: u64,
    virt: u64,
)
    requires
        laws::kernel_ok(s, pml4),
        flags & PTE_PRESENT != 0,
        flags & PTE_ADDR_MASK == 0,
        addr % 4096 == 0,
        addr + n * 4096 <= u64::MAX,
    ensures
        ({
            let t = pages_remapped(s, pml4, addr, n, flags);
            &&& unmoved(s, t, pml4, virt)
            &&& addr <= virt < addr + n * 4096 && page_flags(t.ram, pml4, virt) is Some
                ==> page_flags(t.ram, pml4, virt) == Some(flags & !PTE_HUGE_PAGE)
        }),
    decreases n,
{
    if n == 0 {
        reveal(unmoved);
    } else {
        let t = pages_remapped(s, pml4, addr, (n - 1) as nat, flags);
        let page = (addr + (n - 1) * 4096) as u64;
        lemma_pages_remapped(s, pml4, addr, (n - 1) as nat, flags, virt);
        lemma_next_remapped(s, t, pml4, page, flags, virt);
        lemma_same_size(s, t, pages_remapped(s, pml4, addr, n, flags), pml4, virt);
    }
}

/// Pages that did not move have kept their size.
proof fn lemma_same_size(s: KernelSpace, t: KernelSpace, u: KernelSpace, pml4: u64, virt: u64)
    requires
        unmoved(s, t, pml4, virt),
        unmoved(s, u, pml4, virt),
    ensures
        page_flags(t.ram, pml4, virt) is Some == page_flags(u.ram, pml4, virt) is Some,
{
    reveal(unmoved);
}

/// Splitting huge pages moves no page.
proof fn lemma_huge_pages_split(s: KernelSpace, pml4: u64, addr: u64, n: nat, virt: u64)
    requires
        laws::kernel_ok(s, pml4),
    ensures
        ({
            let t = huge_pages_split(s, pml4, addr, n);
            &&& laws::kernel_ok(t, pml4)
            &&& paging::translated(t.ram, pml4, virt) == paging::translated(s.ram, pml4, virt)
        }),
    decreases n,
{
    if n > 0 {
        lemma_huge_pages_split(s, pml4, addr, (n - 1) as nat, virt);
        laws::law_split_keeps_translations(
            huge_pages_split(s, pml4, addr, (n - 1) as nat),
            pml4,
            (addr + (n - 1) * 0x20_0000) as u64,
            virt,
        );
    }
}

/// Every page of a protected section that is mapped as a 4 KB page has the
/// flags of the section, and no page has moved.
pub proof fn law_section_has_its_flags(
    s: KernelSpace,
    pml4: u64,
    base: u64,
    size: u64,
    flags: u64,
    virt: u64,
)
    requires
        laws::kernel_ok(s, pml4),
        flags & PTE_PRESENT != 0,
        flags & PTE_ADDR_MASK == 0,
        base + size + 0x20_1000 <= u64::MAX,
    ensures
        ({
            let t = flags_applied(s, pml4, base, size, flags);
            &&& laws::kernel_ok(t, pml4)
            &&& paging::translated(t.ram, pml4, virt) == paging::translated(s.ram, pml4, virt)
            &&& base <= virt < base + size && page_flags(t.ram, pml4, virt) is Some
                ==> page_flags(t.ram, pml4, virt) == Some(flags & !PTE_HUGE_PAGE)
        }),
{
    let start = page_floor(base as int);
    let end = page_ceil(base + size);
    lemma_section_pages(base, size);
    if end > start {
        let first = start / 0x20_0000;
        let past = (end + 0x1F_FFFF) / 0x20_0000;
        let t = huge_pages_split(s, pml4, (first * 0x20_0000) as u64, (past - first) as nat);
        lemma_huge_pages_split(
            s,
            pml4,
            (first * 0x20_0000) as u64,
            (past - first) as nat,
            virt,
        );
        lemma_pages_remapped(t, pml4, start as u64, ((end - start) / 4096) as nat, flags, virt);
        reveal(unmoved);
    }
}

/// Splitting huge pages keeps the flags of pages that are 4 KB pages already.
proof fn lemma_split_keeps_flags(s: KernelSpace, pml4: u64, addr: u64, n: nat, virt: u64)
    requires
        laws::kernel_ok(s, pml4),
        page_flags(s.ram, pml4, virt) is Some,
    ensures
        laws::kernel_ok(huge_pages_split(s, pml4, addr, n), pml4),
        page_flags(huge_pages_split(s, pml4, addr, n).ram, pml4, virt) == page_flags(
            s.ram,
            pml4,
            virt,
        ),
    decreases n,
{
    lemma_huge_pages_split(s, pml4, addr, n, virt);
    if n > 0 {
        let t = huge_pages_split(s, pml4, addr, (n - 1) as nat);
        lemma_split_keeps_flags(s, pml4, addr, (n - 1) as nat, virt);
        reveal(page_flags);
        laws::lemma_split_keeps_pages(t, pml4, (addr + (n - 1) * 0x20_0000) as u64, virt);
    }
}

/// A 4 KB page keeps its flags, or gets those of the section.
proof fn lemma_remapping_keeps_flags(
    s: KernelSpace,
    pml4: u64,
    addr: u64,
    n: nat,
    flags: u64,
    virt: u64,
)
    requires
        laws::kernel_ok(s, pml4),
        flags & PTE_PRESENT != 0,
        flags & PTE_ADDR_MASK == 0,
    ensures
        laws::kernel_ok(pages_remapped(s, pml4, addr, n, flags), pml4),
        ({
            let f = page_flags(pages_remapped(s, pml4, addr, n, flags).ram, pml4, virt);
            f == page_flags(s.ram, pml4, virt) || f == Some(flags & !PTE_HUGE_PAGE)
        }),
    decreases n,
{
    if n > 0 {
        let t = pages_remapped(s, pml4, addr, (n - 1) as nat, flags);
        lemma_remapping_keeps_flags(s, pml4, addr, (n - 1) as nat, flags, virt);
        lemma_page_remapped(t, pml4, (addr + (n - 1) * 4096) as u64, flags, virt);
    }
}

/// The flags of a 4 KB page can be told from the sections: protecting a section
/// gives the page the section's flags or leaves it as it was.
pub proof fn law_protection_lasts(
    s: KernelSpace,
    pml4: u64,
    base: u64,
    size: u64,
    flags: u64,
    virt: u64,
)
    requires
        laws::kernel_ok(s, pml4),
        flags & PTE_PRESENT != 0,
        flags & PTE_ADDR_MASK == 0,
        page_flags(s.ram, pml4, virt) is Some,
    ensures
        ({
            let f = page_flags(flags_applied(s, pml4, base, size, flags).ram, pml4, virt);
            f == page_flags(s.ram, pml4, virt) || f == Some(flags & !PTE_HUGE_PAGE)
        }),
{
    let start = page_floor(base as int);
    let end = page_ceil(base + size);
    if end > start {
        let first = start / 0x20_0000;
        let past = (end + 0x1F_FFFF) / 0x20_0000;
        let at = (first * 0x20_0000) as u64;
        let t = huge_pages_split(s, pml4, at, (past - first) as nat);
        lemma_split_keeps_flags(s, pml4, at, (past - first) as nat, virt);
        lemma_remapping_keeps_flags(
            t,
            pml4,
            start as u64,
            ((end - start) / 4096) as nat,
            flags,
            virt,
        );
    }
}

/// A page with these flags does not allow both writing and executing.
pub open spec fn not_writable_code(flags: Option<u64>) -> bool {
    flags matches Some(f) && (f & PTE_WRITABLE == 0 || f & PTE_NO_EXECUTE != 0)
}

/// `virt` lies in the section.
pub open spec fn in_section(section: Option<SectionInfo>, virt: u64) -> bool {
    section matches Some(i) && i.virt_addr <= virt < i.virt_addr + i.size
}

/// The section ends far enough below the end of the address space.
pub open spec fn section_in_range(section: Option<SectionInfo>) -> bool {
    section matches Some(i) ==> i.virt_addr + i.size + 0x20_1000 <= u64::MAX
}

/// Protecting one section: its 4 KB pages allow no more than its flags, and
/// pages that allowed not both writing and executing still do not.
proof fn lemma_section_protected(
    s: KernelSpace,
    pml4: u64,
    section: Option<SectionInfo>,
    flags: u64,
    virt: u64,
)
    requires
        laws::kernel_ok(s, pml4),
        section_in_range(section),
        flags & PTE_PRESENT != 0,
        flags & PTE_ADDR_MASK == 0,
        not_writable_code(Some(flags & !PTE_HUGE_PAGE)),
    ensures
        ({
            let t = section_protected(s, pml4, section, flags);
            let f = page_flags(t.ram, pml4, virt);
            &&& laws::kernel_ok(t, pml4)
            &&& paging::translated(t.ram, pml4, virt) == paging::translated(s.ram, pml4, virt)
            &&& in_section(section, virt) && f is Some ==> not_writable_code(f)
            &&& not_writable_code(page_flags(s.ram, pml4, virt)) ==> not_writable_code(f)
        }),
{
    if let Some(i) = section {
        law_section_has_its_flags(s, pml4, i.virt_addr, i.size, flags, virt);
        if page_flags(s.ram, pml4, virt) is Some {
            law_protection_lasts(s, pml4, i.virt_addr, i.size, flags, virt);
        }
    }
}

/// No page of the kernel's sections is both writable and executable, as long as
/// there were frames to split its huge page. Protecting the sections moves no
/// page.
pub proof fn law_no_section_is_writable_code(
    s: KernelSpace,
    pml4: u64,
    sections: KernelSections,
    virt: u64,
)
    requires
        laws::kernel_ok(s, pml4),
        section_in_range(sections.text),
        section_in_range(sections.rodata),
        section_in_range(sections.data),
        section_in_range(sections.bss),
    ensures
        ({
            let data_flags = PTE_PRESENT | PTE_WRITABLE | PTE_NO_EXECUTE;
            let s1 = section_protected(s, pml4, sections.text, PTE_PRESENT);
            let s2 = section_protected(s1, pml4, sections.rodata, PTE_PRESENT | PTE_NO_EXECUTE);
            let s3 = section_protected(s2, pml4, sections.data, data_flags);
            let t = sections_protected(s, pml4, sections);
            let f = page_flags(t.ram, pml4, virt);
            &&& laws::kernel_ok(t, pml4)
            &&& paging::translated(t.ram, pml4, virt) == paging::translated(s.ram, pml4, virt)
            &&& in_section(sections.text, virt) && page_flags(s1.ram, pml4, virt) is Some
                ==> not_writable_code(f)
            &&& in_section(sections.rodata, virt) && page_flags(s2.ram, pml4, virt) is Some
                ==> not_writable_code(f)
            &&& in_section(sections.data, virt) && page_flags(s3.ram, pml4, virt) is Some
                ==> not_writable_code(f)
            &&& in_section(sections.bss, virt) && f is Some ==> not_writable_code(f)
        }),
{
    let data_flags = PTE_PRESENT | PTE_WRITABLE | PTE_NO_EXECUTE;
    let rodata_flags = PTE_PRESENT | PTE_NO_EXECUTE;
    let s1 = section_protected(s, pml4, sections.text, PTE_PRESENT);
    let s2 = section_protected(s1, pml4, sections.rodata, rodata_flags);
    let s3 = section_protected(s2, pml4, sections.data, data_flags);
    lemma_section_flags();
    lemma_section_protected(s, pml4, sections.text, PTE_PRESENT, virt);
    lemma_section_protected(s1, pml4, sections.rodata, rodata_flags, virt);
    lemma_section_protected(s2, pml4, sections.data, data_flags, virt);
    lemma_section_protected(s3, pml4, sections.bss, data_flags, virt);
}

/// The flags of sections say present, hold no address bits and do not allow
/// both writing and executing.
proof fn lemma_section_flags()
    ensures
        PTE_PRESENT & PTE_PRESENT != 0,
        PTE_PRESENT & PTE_ADDR_MASK == 0,
        not_writable_code(Some(PTE_PRESENT & !PTE_HUGE_PAGE)),
        (PTE_PRESENT | PTE_NO_EXECUTE) & PTE_PRESENT != 0,
        (PTE_PRESENT | PTE_NO_EXECUTE) & PTE_ADDR_MASK == 0,
        not_writable_code(Some((PTE_PRESENT | PTE_NO_EXECUTE) & !PTE_HUGE_PAGE)),
        (PTE_PRESENT | PTE_WRITABLE | PTE_NO_EXECUTE) & PTE_PRESENT != 0,
        (PTE_PRESENT | PTE_WRITABLE | PTE_NO_EXECUTE) & PTE_ADDR_MASK == 0,
        not_writable_code(Some((PTE_PRESENT | PTE_WRITABLE | PTE_NO_EXECUTE) & !PTE_HUGE_PAGE)),
        allows(PTE_PRESENT & !PTE_HUGE_PAGE, false, true),
        allows((PTE_PRESENT | PTE_NO_EXECUTE) & !PTE_HUGE_PAGE, false, false),
        allows((PTE_PRESENT | PTE_WRITABLE | PTE_NO_EXECUTE) & !PTE_HUGE_PAGE, true, false),
{
    assert({
        &&& 0x1u64 & 0x1 != 0
        &&& 0x1u64 & 0x000F_FFFF_FFFF_F000 == 0
        &&& 0x1u64 & !0x80u64 & 0x2 == 0
        &&& 0x1u64 & !0x80u64 & 0x4 == 0
        &&& 0x1u64 & !0x80u64 & 0x8000_0000_0000_0000 == 0
    }) by (bit_vector);
    assert({
        &&& (0x1u64 | 0x8000_0000_0000_0000) & 0x1 != 0
        &&& (0x1u64 | 0x8000_0000_0000_0000) & 0x000F_FFFF_FFFF_F000 == 0
        &&& (0x1u64 | 0x8000_0000_0000_0000) & !0x80u64 & 0x2 == 0
        &&& (0x1u64 | 0x8000_0000_0000_0000) & !0x80u64 & 0x4 == 0
        &&& (0x1u64 | 0x8000_0000_0000_0000) & !0x80u64 & 0x8000_0000_0000_0000 != 0
    }) by (bit_vector);
    assert({
        &&& (0x1u64 | 0x2 | 0x8000_0000_0000_0000) & 0x1 != 0
        &&& (0x1u64 | 0x2 | 0x8000_0000_0000_0000) & 0x000F_FFFF_FFFF_F000 == 0
        &&& (0x1u64 | 0x2 | 0x8000_0000_0000_0000) & !0x80u64 & 0x2 != 0
        &&& (0x1u64 | 0x2 | 0x8000_0000_0000_0000) & !0x80u64 & 0x4 == 0
        &&& (0x1u64 | 0x2 | 0x8000_0000_0000_0000) & !0x80u64 & 0x8000_0000_0000_0000 != 0
    }) by (bit_vector);
}

/// A page with these flags may be written to and executed as given, and is for the
/// kernel alone.
pub open spec fn allows(flags: u64, writing: bool, executing: bool) -> bool {
    &&& flags & 0x2 != 0 <==> writing
    &&& flags & 0x8000_0000_0000_0000 == 0 <==> executing
    &&& flags & 0x4 == 0
}

/// No page of the section holds `virt`, and the section lies in the 48-bit address
/// space.
pub open spec fn misses(section: Option<SectionInfo>, virt: u64) -> bool {
    section matches Some(i) ==> {
        &&& virt < i.virt_addr / 4096 * 4096 || (i.virt_addr + i.size + 4095) / 4096 * 4096 <= virt
        &&& i.virt_addr + i.size + 4095 <= 0x1_0000_0000_0000
    }
}

/// Giving pages flags leaves all other pages alone.
#[verifier::spinoff_prover]
#[verifier::rlimit(60)]
proof fn lemma_remapping_misses(
    s: KernelSpace,
    pml4: u64,
    addr: u64,
    n: nat,
    flags: u64,
    virt: u64,
)
    requires
        laws::kernel_ok(s, pml4),
        flags & PTE_PRESENT != 0,
        flags & PTE_ADDR_MASK == 0,
        addr % 4096 == 0,
        addr + n * 4096 <= 0x1_0000_0000_0000,
        virt < 0x1_0000_0000_0000,
        virt < addr || addr + n * 4096 <= virt,
    ensures
        laws::kernel_ok(pages_remapped(s, pml4, addr, n, flags), pml4),
        page_flags(pages_remapped(s, pml4, addr, n, flags).ram, pml4, virt) == page_flags(
            s.ram,
            pml4,
            virt,
        ),
    decreases n,
{
    if n > 0 {
        let t = pages_remapped(s, pml4, addr, (n - 1) as nat, flags);
        let at = (addr + (n - 1) * 4096) as u64;
        lemma_remapping_misses(s, pml4, addr, (n - 1) as nat, flags, virt);
        lemma_page_remapped(t, pml4, at, flags, virt);
        lemma_other_page(virt, at);
    }
}

/// An address that lies before a page or behind it is on another page.
proof fn lemma_other_page(virt: u64, at: u64)
    requires
        at % 4096 == 0,
        at < 0x1_0000_0000_0000,
        virt < 0x1_0000_0000_0000,
        virt < at || at + 4096 <= virt,
    ensures
        !laws::same_page(virt, at),
{
    if laws::same_page(virt, at) {
        crate::elf_laws::lemma_page_number(virt);
        crate::elf_laws::lemma_page_number(at);
        assert(virt / 4096 == at / 4096);
    }
}

/// The pages of a section that does not hold `virt`.
proof fn lemma_missed_pages(base: int, size: int, virt: int)
    requires
        0 <= base,
        0 <= size,
        base + size + 4095 <= 0x1_0000_0000_0000,
        virt < base / 4096 * 4096 || (base + size + 4095) / 4096 * 4096 <= virt,
    ensures
        0 <= page_floor(base),
        page_floor(base) % 4096 == 0,
        page_ceil(base + size) <= 0x1_0000_0000_0000,
        page_ceil(base + size) > page_floor(base) ==> page_floor(base) + (page_ceil(base + size)
            - page_floor(base)) / 4096 * 4096 == page_ceil(base + size),
        virt < page_floor(base) || page_ceil(base + size) <= virt,
{
}

/// Protecting a section leaves the pages outside of it alone.
#[verifier::spinoff_prover]
#[verifier::rlimit(60)]
proof fn lemma_section_misses(
    s: KernelSpace,
    pml4: u64,
    section: Option<SectionInfo>,
    flags: u64,
    virt: u64,
)
    requires
        laws::kernel_ok(s, pml4),
        flags & PTE_PRESENT != 0,
        flags & PTE_ADDR_MASK == 0,
        page_flags(s.ram, pml4, virt) is Some,
        virt < 0x1_0000_0000_0000,
        misses(section, virt),
    ensures
        page_flags(section_protected(s, pml4, section, flags).ram, pml4, virt) == page_flags(
            s.ram,
            pml4,
            virt,
        ),
{
    if let Some(i) = section {
        let start = page_floor(i.virt_addr as int);
        let end = page_ceil(i.virt_addr + i.size);
        if end > start {
            let first = start / 0x20_0000;
            let past = (end + 0x1F_FFFF) / 0x20_0000;
            let at = (first * 0x20_0000) as u64;
            let t = huge_pages_split(s, pml4, at, (past - first) as nat);
            lemma_split_keeps_flags(s, pml4, at, (past - first) as nat, virt);
            let n = ((end - start) / 4096) as nat;
            lemma_missed_pages(i.virt_addr as int, i.size as int, virt as int);
            lemma_remapping_misses(t, pml4, start as u64, n, flags, virt);
        }
    }
}

/// Each section can be used as it has to be, and in no other way: code may be
/// executed but not written to, constants may neither be executed nor written to,
/// and data may be written to but not executed. All of them are for the kernel
/// alone. This holds of the 4 KB pages of a section that no other section shares.
pub proof fn law_sections_can_be_used(
    s: KernelSpace,
    pml4: u64,
    sections: KernelSections,
    virt: u64,
)
    requires
        laws::kernel_ok(s, pml4),
        section_in_range(sections.text),
        section_in_range(sections.rodata),
        section_in_range(sections.data),
        section_in_range(sections.bss),
        virt < 0x1_0000_0000_0000,
        page_flags(s.ram, pml4, virt) is Some,
    ensures
        ({
            let f = page_flags(sections_protected(s, pml4, sections).ram, pml4, virt);
            &&& f is Some
            &&& in_section(sections.text, virt) && misses(sections.rodata, virt) && misses(
                sections.data,
                virt,
            ) && misses(sections.bss, virt) ==> allows(f->0, false, true)
            &&& in_section(sections.rodata, virt) && misses(sections.data, virt) && misses(
                sections.bss,
                virt,
            ) ==> allows(f->0, false, false)
            &&& in_section(sections.data, virt) || in_section(sections.bss, virt) ==> allows(
                f->0,
                true,
                false,
            )
            &&& misses(sections.text, virt) && misses(sections.rodata, virt) && misses(
                sections.data,
                virt,
            ) && misses(sections.bss, virt) ==> f == page_flags(s.ram, pml4, virt)
        }),
{
    let data_flags = PTE_PRESENT | PTE_WRITABLE | PTE_NO_EXECUTE;
    let rodata_flags = PTE_PRESENT | PTE_NO_EXECUTE;
    let s1 = section_protected(s, pml4, sections.text, PTE_PRESENT);
    let s2 = section_protected(s1, pml4, sections.rodata, rodata_flags);
    let s3 = section_protected(s2, pml4, sections.data, data_flags);
    lemma_section_flags();
    lemma_section_gives(s, pml4, sections.text, PTE_PRESENT, virt);
    lemma_section_gives(s1, pml4, sections.rodata, rodata_flags, virt);
    lemma_section_gives(s2, pml4, sections.data, data_flags, virt);
    lemma_section_gives(s3, pml4, sections.bss, data_flags, virt);
}

/// Protecting one section gives its pages the flags, and changes no page outside of
/// it.
proof fn lemma_section_gives(
    s: KernelSpace,
    pml4: u64,
    section: Option<SectionInfo>,
    flags: u64,
    virt: u64,
)
    requires
        laws::kernel_ok(s, pml4),
        section_in_range(section),
        flags & PTE_PRESENT != 0,
        flags & PTE_ADDR_MASK == 0,
        page_flags(s.ram, pml4, virt) is Some,
        virt < 0x1_0000_0000_0000,
    ensures
        ({
            let t = section_protected(s, pml4, section, flags);
            let f = page_flags(t.ram, pml4, virt);
            &&& laws::kernel_ok(t, pml4)
            &&& f is Some
            &&& in_section(section, virt) ==> f == Some(flags & !PTE_HUGE_PAGE)
            &&& misses(section, virt) ==> f == page_flags(s.ram, pml4, virt)
            &&& f == page_flags(s.ram, pml4, virt) || f == Some(flags & !PTE_HUGE_PAGE)
        }),
{
    if let Some(i) = section {
        law_section_has_its_flags(s, pml4, i.virt_addr, i.size, flags, virt);
        law_protection_lasts(s, pml4, i.virt_addr, i.size, flags, virt);
    }
    if misses(section, virt) {
        lemma_section_misses(s, pml4, section, flags, virt);
    }
}

/// A guard page that was installed counts as one: its frame is tagged so, and no
/// frame becomes free. No more guard pages are counted than there are stacks.
pub proof fn law_guard_frames_are_tagged(s: KernelSpace, pml4: u64, base: u64, addr: u64, n: nat)
    requires
        s.frames.wf(),
        s.frames.base <= addr,
        addr < s.frames.base + crate::memory::physical::MAX_TRACKED_FRAMES * 4096,
    ensures
        ({
            let (t, ok) = guard_installed(s, pml4, addr);
            &&& ok ==> t.frames.tags[(addr - t.frames.base) / 4096] == FrameKind::Guard
            &&& t.frames.base == s.frames.base
        }),
        guards_installed(s, pml4, base, n).1 <= n,
        guard_page(base, 0) == base,
    decreases n,
{
    let t = s.split(pml4, addr).0;
    crate::memory::physical::lemma_lowest_free(s.frames.free, 0);
    assert(t.frames.base == s.frames.base && t.frames.tags.len() == s.frames.tags.len());
    crate::memory::physical::law_tag_is_read_back(t.frames, addr, FrameKind::Guard, addr);
    if n > 0 {
        law_guard_frames_are_tagged(s, pml4, base, addr, (n - 1) as nat);
    }
}

} // verus!
