use rost::memory::paging::PTE_HUGE_PAGE;
use rost::memory::{
    global_alloc_4k, identity_map_region, init_global_allocator, map_page, map_page_global,
    merge_hidden_kernel, merge_kernel_into_user_pml4, remap_page_flags, split_huge_page_global,
    translate_address, unmap_page, FrameAllocator, KernelMemory, PhysMemory, PhysicalAllocator,
    PtPool, PTE_ADDR_MASK, PTE_NO_EXECUTE, PTE_PRESENT, PTE_USER, PTE_WRITABLE,
};

/// Address of the top-level table; the frames behind it are free.
const PML4: u64 = 0x10_0000;

/// Memory with an empty top-level table and `pages` frames, and an allocator
/// for those.
fn slab(pages: usize) -> (PhysMemory, PhysicalAllocator) {
    let mem = PhysMemory::new(PML4, (pages + 1) * 4096);
    let alloc = PhysicalAllocator::new(PML4 as usize + 4096, pages * 4096);
    (mem, alloc)
}

fn entry(mem: &PhysMemory, table: u64, i: u64) -> u64 {
    mem.read_u64((table & PTE_ADDR_MASK) + 8 * i)
}

/// The last-level entry of `virt`.
fn pt_entry(mem: &PhysMemory, virt: u64) -> u64 {
    let pdpt = entry(mem, PML4, (virt >> 39) & 0x1FF);
    let pd = entry(mem, pdpt, (virt >> 30) & 0x1FF);
    let pt = entry(mem, pd, (virt >> 21) & 0x1FF);
    entry(mem, pt, (virt >> 12) & 0x1FF)
}

/// Memory in which address 0 lies in a huge page.
fn with_huge_page() -> PhysMemory {
    let (mut mem, mut alloc) = slab(4);
    let pdpt = alloc.allocate(4096).unwrap() as u64;
    let pd = alloc.allocate(4096).unwrap() as u64;
    mem.write_u64(PML4, (pdpt & PTE_ADDR_MASK) | PTE_PRESENT | PTE_WRITABLE);
    mem.write_u64(pdpt, (pd & PTE_ADDR_MASK) | PTE_PRESENT | PTE_WRITABLE);
    mem.write_u64(pd, PTE_PRESENT | PTE_WRITABLE | PTE_HUGE_PAGE);
    mem
}

#[test]
fn test_map_and_translate_basic() {
    let (mut mem, mut alloc) = slab(16);

    let virt: u64 = 0x0000_1000_0000_0000;
    let phys: u64 = 0x0000_0000_0020_0000;

    let mapped = map_page(&mut mem, PML4, virt, phys, PTE_PRESENT | PTE_WRITABLE, &mut alloc);
    assert!(mapped, "map_page should succeed");

    let result = translate_address(&mem, PML4, virt);
    assert_eq!(result, Some(phys), "translate_address should return exact phys");
}

#[test]
fn test_map_and_translate_with_offset() {
    let (mut mem, mut alloc) = slab(16);

    let virt: u64 = 0x0000_1234_5678_0ABC;
    let page_base = virt & !0xFFF;
    let offset = virt & 0xFFF;
    let phys: u64 = 0x0000_0000_0030_0000;

    assert!(map_page(&mut mem, PML4, page_base, phys, PTE_PRESENT, &mut alloc));
    let result = translate_address(&mem, PML4, page_base | offset);
    assert_eq!(
        result,
        Some(phys | offset),
        "page offset must be OR-ed into the physical address"
    );
}

#[test]
fn test_translate_absent_pml4() {
    let (mem, _) = slab(0);
    assert_eq!(translate_address(&mem, PML4, 0x0000_1000_0000_0000), None);
}

#[test]
fn test_translate_absent_pdpt() {
    let (mut mem, mut alloc) = slab(8);

    let va_a: u64 = 0x0000_0000_0010_0000;
    assert!(map_page(&mut mem, PML4, va_a, 0x1000, PTE_PRESENT, &mut alloc));

    let va_b: u64 = va_a + (1u64 << 30);
    assert_eq!(
        translate_address(&mem, PML4, va_b),
        None,
        "PDPT entry for va_b should be absent"
    );
}

#[test]
fn test_translate_absent_pd() {
    let (mut mem, mut alloc) = slab(8);

    let va_a: u64 = 0x0000_0000_0010_0000;
    assert!(map_page(&mut mem, PML4, va_a, 0x1000, PTE_PRESENT, &mut alloc));

    let va_b: u64 = va_a + (1u64 << 21);
    assert_eq!(translate_address(&mem, PML4, va_b), None, "PD entry for va_b should be absent");
}

#[test]
fn test_translate_absent_pt_entry() {
    let (mut mem, mut alloc) = slab(8);

    let va_a: u64 = 0x0000_0000_0010_0000;
    assert!(map_page(&mut mem, PML4, va_a, 0x1000, PTE_PRESENT, &mut alloc));

    let va_b: u64 = va_a + 0x1000;
    assert_eq!(translate_address(&mem, PML4, va_b), None, "adjacent PT entry was never mapped");
}

#[test]
fn test_pte_flags_preserved() {
    let (mut mem, mut alloc) = slab(16);

    let virt: u64 = 0x0000_0000_0040_0000;
    let phys: u64 = 0x0000_0000_0050_0000;
    let flags = PTE_PRESENT | PTE_WRITABLE | PTE_USER;

    assert!(map_page(&mut mem, PML4, virt, phys, flags, &mut alloc));

    let result = translate_address(&mem, PML4, virt);
    assert_eq!(result, Some(phys));

    let pt_entry = pt_entry(&mem, virt);
    assert!(pt_entry & PTE_PRESENT != 0, "PRESENT must be set");
    assert!(pt_entry & PTE_WRITABLE != 0, "WRITABLE must be set");
    assert!(pt_entry & PTE_USER != 0, "USER must be set");
}

#[test]
fn test_map_page_alloc_failure() {
    let (mut mem, mut alloc) = slab(1);

    let result = map_page(&mut mem, PML4, 0x1000, 0x2000, PTE_PRESENT, &mut alloc);
    assert!(!result, "map_page must return false when allocator is exhausted");
}

#[test]
fn test_shared_intermediate_tables() {
    let (mut mem, mut alloc) = slab(16);

    let va0: u64 = 0x0000_0000_0010_0000;
    let va1: u64 = 0x0000_0000_0011_0000;
    let phys0: u64 = 0xAAAA_0000;
    let phys1: u64 = 0xBBBB_0000;

    assert!(map_page(&mut mem, PML4, va0, phys0, PTE_PRESENT, &mut alloc));
    let pages_used_first = 3;
    let base_after_first = alloc.current_base();

    assert!(map_page(&mut mem, PML4, va1, phys1, PTE_PRESENT, &mut alloc));
    assert_eq!(
        alloc.current_base(),
        base_after_first,
        "second map_page must reuse all {} intermediate tables",
        pages_used_first
    );

    assert_eq!(translate_address(&mem, PML4, va0), Some(phys0));
    assert_eq!(translate_address(&mem, PML4, va1), Some(phys1));
}

#[test]
fn test_unmap_clears_entry() {
    let (mut mem, mut alloc) = slab(16);

    let virt: u64 = 0x0000_0000_0010_0000;
    let phys: u64 = 0x0000_0000_0020_0000;

    assert!(map_page(&mut mem, PML4, virt, phys, PTE_PRESENT | PTE_WRITABLE, &mut alloc));
    assert_eq!(translate_address(&mem, PML4, virt), Some(phys));

    let unmapped = unmap_page(&mut mem, PML4, virt);
    assert!(unmapped, "unmap_page must return true for a mapped 4 KB page");
    assert_eq!(
        translate_address(&mem, PML4, virt),
        None,
        "translate_address must return None after unmap"
    );
}

#[test]
fn test_unmap_absent_returns_false() {
    let (mut mem, _) = slab(0);
    let result = unmap_page(&mut mem, PML4, 0x0000_0000_0010_0000);
    assert!(!result, "unmap_page must return false for unmapped address");
}

#[test]
fn test_unmap_rejects_huge_page() {
    let mut mem = with_huge_page();
    let result = unmap_page(&mut mem, PML4, 0x0);
    assert!(!result, "unmap_page must return false for a huge-page PD entry");
}

#[test]
fn test_remap_flags_preserves_phys() {
    let (mut mem, mut alloc) = slab(16);

    let virt: u64 = 0x0000_0000_0010_0000;
    let phys: u64 = 0x0000_0000_0020_0000;

    assert!(map_page(&mut mem, PML4, virt, phys, PTE_PRESENT | PTE_WRITABLE, &mut alloc));

    let ok = remap_page_flags(&mut mem, PML4, virt, PTE_PRESENT | PTE_NO_EXECUTE);
    assert!(ok, "remap_page_flags must return true for a mapped 4 KB page");

    assert_eq!(
        translate_address(&mem, PML4, virt),
        Some(phys),
        "physical address must be preserved after flag change"
    );

    let entry = pt_entry(&mem, virt);
    assert!(entry & PTE_PRESENT != 0, "PRESENT must remain set");
    assert!(entry & PTE_WRITABLE == 0, "WRITABLE must be cleared");
    assert!(entry & PTE_NO_EXECUTE != 0, "NO_EXECUTE must be set");
    assert_eq!(
        entry & PTE_ADDR_MASK,
        phys & PTE_ADDR_MASK,
        "physical frame address must be unchanged"
    );
}

#[test]
fn test_remap_flags_absent_pml4() {
    let (mut mem, _) = slab(0);
    let ok = remap_page_flags(&mut mem, PML4, 0x0000_1000_0000_0000, PTE_PRESENT);
    assert!(!ok, "must return false when PML4 entry is absent");
}

#[test]
fn test_remap_flags_absent_pt_entry() {
    let (mut mem, mut alloc) = slab(8);

    let va_a: u64 = 0x0000_0000_0010_0000;
    assert!(map_page(&mut mem, PML4, va_a, 0x1000, PTE_PRESENT, &mut alloc));

    let va_b: u64 = va_a + 0x1000;
    let ok = remap_page_flags(&mut mem, PML4, va_b, PTE_PRESENT);
    assert!(!ok, "must return false for an unmapped PT slot");
}

#[test]
fn test_remap_flags_rejects_huge_page() {
    let mut mem = with_huge_page();
    let ok = remap_page_flags(&mut mem, PML4, 0x0, PTE_PRESENT);
    assert!(!ok, "must return false when PD entry is still a huge page");
}

/// Kernel memory that begins with an empty top-level table and has `frames`
/// frames.
fn kernel(frames: u64) -> KernelMemory {
    let mut alloc = FrameAllocator::empty();
    init_global_allocator(&mut alloc, PML4 + 4096, frames * 4096);
    KernelMemory {
        ram: PhysMemory::new(PML4, (frames as usize + 1) * 4096),
        frames: alloc,
        pool: PtPool::new(),
    }
}

#[test]
fn regions_are_mapped_to_themselves() {
    let (mut mem, mut alloc) = slab(8);
    identity_map_region(
        &mut mem,
        PML4,
        0x0030_0000,
        0x0020_0000,
        PTE_PRESENT | PTE_WRITABLE,
        &mut alloc,
    );
    // Both huge pages that the region touches are mapped, and no other.
    assert_eq!(translate_address(&mem, PML4, 0x0020_0000), Some(0x0020_0000));
    assert_eq!(translate_address(&mem, PML4, 0x0041_2345), Some(0x0041_2345));
    assert_eq!(translate_address(&mem, PML4, 0x0060_0000), None);
    assert_eq!(translate_address(&mem, PML4, 0), None);
}

#[test]
fn split_keeps_every_address() {
    let mut k = kernel(8);
    let (mut mem, mut alloc) = slab(8);
    identity_map_region(&mut mem, PML4, 0, 0x20_0000, PTE_PRESENT | PTE_WRITABLE, &mut alloc);
    k.ram = mem;
    // The first frames hold the tables.
    init_global_allocator(&mut k.frames, PML4 + 4 * 4096, 4 * 4096);
    assert!(split_huge_page_global(&mut k, PML4, 0x12_3000));
    for addr in [0u64, 0x1234, 0x12_3456, 0x1F_FFFF] {
        assert_eq!(translate_address(&k.ram, PML4, addr), Some(addr));
    }
    assert!(unmap_page(&mut k.ram, PML4, 0x12_3000));
    assert_eq!(translate_address(&k.ram, PML4, 0x12_3456), None);
    assert_eq!(translate_address(&k.ram, PML4, 0x12_4456), Some(0x12_4456));
    assert!(split_huge_page_global(&mut k, PML4, 0x12_3000), "already split");
    assert!(!split_huge_page_global(&mut k, PML4, 0x4000_0000), "not mapped");
}

#[test]
fn user_mapping_opens_the_tables_above_it() {
    let mut k = kernel(8);
    assert!(map_page_global(&mut k, PML4, 0x40_0000, 0x20_0000, PTE_PRESENT));
    assert_eq!(entry(&k.ram, PML4, 0) & PTE_USER, 0);
    assert!(map_page_global(&mut k, PML4, 0x40_1000, 0x20_1000, PTE_PRESENT | PTE_USER));
    assert_ne!(entry(&k.ram, PML4, 0) & PTE_USER, 0);
    assert_eq!(translate_address(&k.ram, PML4, 0x40_0008), Some(0x20_0008));
    assert_eq!(translate_address(&k.ram, PML4, 0x40_1008), Some(0x20_1008));
    assert_eq!(pt_entry(&k.ram, 0x40_0000) & PTE_USER, 0);
    assert!(!map_page_global(&mut kernel(2), PML4, 0, 0, PTE_PRESENT));
}

/// A kernel with three pages mapped, open to users on the way, and an empty
/// top-level table for a user.
fn two_spaces() -> (KernelMemory, u64) {
    let mut k = kernel(24);
    let user = global_alloc_4k(&mut k.frames).unwrap();
    for virt in [0x8000_0000_0000u64, 0x4000_0000, 0x20_0000, 0x1000] {
        assert!(map_page_global(&mut k, PML4, virt, 0x77_0000, PTE_PRESENT | PTE_USER));
    }
    (k, user)
}

#[test]
fn merged_kernel_is_reachable() {
    let (mut k, user) = two_spaces();
    merge_kernel_into_user_pml4(&mut k, PML4, user);
    for virt in [0x8000_0000_0000u64, 0x4000_0000, 0x20_0000] {
        assert_eq!(translate_address(&k.ram, user, virt), Some(0x77_0000));
        assert_eq!(translate_address(&k.ram, PML4, virt), Some(0x77_0000));
    }
    assert_eq!(translate_address(&k.ram, user, 0x1000), None);
    assert_eq!(entry(&k.ram, user, 256), entry(&k.ram, PML4, 256));
    assert_ne!(entry(&k.ram, user, 256) & PTE_USER, 0);
}

#[test]
fn hidden_kernel_is_closed_to_users() {
    let (mut k, user) = two_spaces();
    merge_hidden_kernel(&mut k, PML4, user);
    for virt in [0x8000_0000_0000u64, 0x4000_0000, 0x20_0000] {
        assert_eq!(translate_address(&k.ram, user, virt), Some(0x77_0000));
    }
    assert_eq!(entry(&k.ram, user, 256), entry(&k.ram, PML4, 256) & !PTE_USER);
    let pdpt = entry(&k.ram, user, 0);
    assert_eq!(entry(&k.ram, pdpt, 1) & PTE_USER, 0);
    let pd = entry(&k.ram, pdpt, 0);
    assert_eq!(entry(&k.ram, pd, 1) & PTE_USER, 0);
}

#[test]
fn merge_keeps_what_the_user_has() {
    let (mut k, user) = two_spaces();
    assert!(map_page_global(&mut k, user, 0x20_0000, 0x99_0000, PTE_PRESENT | PTE_USER));
    merge_kernel_into_user_pml4(&mut k, PML4, user);
    assert_eq!(translate_address(&k.ram, user, 0x20_0000), Some(0x99_0000));
    assert_eq!(translate_address(&k.ram, user, 0x4000_0000), Some(0x77_0000));
    let before = entry(&k.ram, user, 256);
    merge_kernel_into_user_pml4(&mut k, 0, user);
    assert_eq!(entry(&k.ram, user, 256), before);
}

#[test]
fn mapping_keeps_contents() {
    let mut k = kernel(16);
    let page = global_alloc_4k(&mut k.frames).unwrap();
    k.ram.write_u64(page, 0x1234);
    k.ram.write_u64(page + 4088, 0x5678);
    for i in 0..4u64 {
        assert!(map_page_global(&mut k, PML4, i << 30, page, PTE_PRESENT));
    }
    assert_eq!(k.ram.read_u64(page), 0x1234);
    assert_eq!(k.ram.read_u64(page + 4088), 0x5678);
}

#[test]
fn mapping_leaves_other_spaces_alone() {
    let mut k = kernel(24);
    let other = global_alloc_4k(&mut k.frames).unwrap();
    assert!(map_page_global(&mut k, other, 0x40_0000, 0x11_0000, PTE_PRESENT | PTE_USER));
    for i in 0..3u64 {
        let virt = 0x40_0000 + (i << 21);
        assert!(map_page_global(&mut k, PML4, virt, 0x22_0000, PTE_PRESENT | PTE_USER));
    }
    assert_eq!(translate_address(&k.ram, other, 0x40_0000), Some(0x11_0000));
    assert_eq!(translate_address(&k.ram, other, 0x60_0000), None);
    assert_eq!(translate_address(&k.ram, PML4, 0x40_0000), Some(0x22_0000));
}
