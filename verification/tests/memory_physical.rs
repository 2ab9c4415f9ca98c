use rost::memory::{
    frame_kind, frame_stats, frame_tag, global_alloc_4k, global_free_4k, init_global_allocator,
    pool_alloc_pt, pool_available, pool_capacity, pool_free_pt, pool_init, FrameAllocator,
    FrameKind, PhysMemory, PhysicalAllocator, PtPool, PT_POOL_CAP,
};

#[test]
fn test_allocate_sequential() {
    let base = 0x1000_0000usize;
    let mut alloc = PhysicalAllocator::new(base, 3 * 4096);

    let a = alloc.allocate(4096).expect("first allocation");
    let b = alloc.allocate(4096).expect("second allocation");
    let c = alloc.allocate(4096).expect("third allocation");

    assert_eq!(a, base);
    assert_eq!(b, base + 4096);
    assert_eq!(c, base + 2 * 4096);
}

#[test]
fn test_allocate_rounds_up_to_page() {
    let base = 0x2000_0000usize;
    let mut alloc = PhysicalAllocator::new(base, 2 * 4096);

    let a = alloc.allocate(1).expect("1-byte request");
    let b = alloc.allocate(1).expect("second 1-byte request");
    assert_eq!(b, a + 4096);
}

#[test]
fn test_allocate_oom() {
    let mut alloc = PhysicalAllocator::new(0xDEAD_0000, 4096);

    let a = alloc.allocate(4096);
    assert!(a.is_some(), "first page must succeed");

    let b = alloc.allocate(4096);
    assert!(b.is_none(), "second page must fail (OOM)");
}

#[test]
fn test_allocate_zero_capacity() {
    let mut alloc = PhysicalAllocator::new(0x1000, 0);
    assert!(alloc.allocate(4096).is_none(), "zero-capacity allocator must be OOM");
}

#[test]
fn test_current_base_tracks_allocations() {
    let base = 0x3000_0000usize;
    let mut alloc = PhysicalAllocator::new(base, 8 * 4096);

    assert_eq!(alloc.current_base(), base);
    alloc.allocate(4096);
    assert_eq!(alloc.current_base(), base + 4096);
    alloc.allocate(4096);
    assert_eq!(alloc.current_base(), base + 2 * 4096);
}

#[test]
fn bump_allocator_never_takes_back() {
    let mut alloc = PhysicalAllocator::new(0x1000, 2 * 4096);
    let a = alloc.allocate(4096).unwrap();
    alloc.deallocate(a, 4096);
    assert_eq!(alloc.allocate(4096), Some(0x2000));
    assert_eq!(alloc.allocate(4096), None);
}

#[test]
fn test_frame_tracker() {
    const BASE: u64 = 0x4000_0000;
    const PAGES: u64 = 8;
    let mut alloc = FrameAllocator::empty();
    alloc.base = BASE;
    alloc.end = BASE + PAGES * 4096;

    // All frames start as free.
    for i in 0..PAGES {
        let addr = BASE + i * 4096;
        assert_eq!(frame_kind(&alloc, addr), FrameKind::Free, "frame {i} should start as Free");
    }

    let addr0 = BASE;
    let addr1 = BASE + 4096;
    let addr2 = BASE + 2 * 4096;
    let addr3 = BASE + 3 * 4096;

    frame_tag(&mut alloc, addr0, FrameKind::KernelData);
    frame_tag(&mut alloc, addr1, FrameKind::UserOwned);
    frame_tag(&mut alloc, addr2, FrameKind::Guard);
    frame_tag(&mut alloc, addr3, FrameKind::Mmio);

    assert_eq!(frame_kind(&alloc, addr0), FrameKind::KernelData);
    assert_eq!(frame_kind(&alloc, addr1), FrameKind::UserOwned);
    assert_eq!(frame_kind(&alloc, addr2), FrameKind::Guard);
    assert_eq!(frame_kind(&alloc, addr3), FrameKind::Mmio);

    for i in 4..PAGES {
        let addr = BASE + i * 4096;
        assert_eq!(frame_kind(&alloc, addr), FrameKind::Free);
    }

    let stats = frame_stats(&alloc);
    assert_eq!(stats[0], 4, "free frames");
    assert_eq!(stats[1], 1, "kernel-data frames");
    assert_eq!(stats[2], 1, "user-owned frames");
    assert_eq!(stats[3], 1, "guard frames");
    assert_eq!(stats[4], 1, "mmio frames");

    let out_of_range = BASE.wrapping_sub(4096);
    assert_eq!(
        frame_kind(&alloc, out_of_range),
        FrameKind::Free,
        "address below base must be reported as Free"
    );

    // Allocate all, run out, free and allocate again.
    {
        const BBASE: u64 = 0x5000_0000;
        const BPAGES: u64 = 4;

        init_global_allocator(&mut alloc, BBASE, BPAGES * 4096);

        let a0 = global_alloc_4k(&mut alloc).expect("page 0");
        let a1 = global_alloc_4k(&mut alloc).expect("page 1");
        let a2 = global_alloc_4k(&mut alloc).expect("page 2");
        let a3 = global_alloc_4k(&mut alloc).expect("page 3");

        for &addr in &[a0, a1, a2, a3] {
            assert!(
                addr >= BBASE && addr < BBASE + BPAGES * 4096,
                "allocation {addr:#x} outside expected range"
            );
            assert_eq!(addr % 4096, 0, "allocation must be 4 KB-aligned");
            assert_eq!(frame_kind(&alloc, addr), FrameKind::KernelData);
        }
        assert_ne!(a0, a1);
        assert_ne!(a0, a2);
        assert_ne!(a0, a3);
        assert_ne!(a1, a2);
        assert_ne!(a1, a3);
        assert_ne!(a2, a3);

        assert!(global_alloc_4k(&mut alloc).is_none(), "must be OOM after all pages allocated");

        global_free_4k(&mut alloc, a1);
        assert_eq!(frame_kind(&alloc, a1), FrameKind::Free, "freed frame must be tagged Free");
        let a1b = global_alloc_4k(&mut alloc).expect("reallocate freed frame");
        assert_eq!(a1b, a1, "reallocated address must equal the freed address");
        assert_eq!(frame_kind(&alloc, a1b), FrameKind::KernelData);
        assert!(global_alloc_4k(&mut alloc).is_none());

        global_free_4k(&mut alloc, a0);
        global_free_4k(&mut alloc, a1b);
        global_free_4k(&mut alloc, a2);
        global_free_4k(&mut alloc, a3);
        let stats = frame_stats(&alloc);
        assert_eq!(stats[0], BPAGES as u32, "all frames free");
        assert_eq!(stats[1], 0);
        for _ in 0..BPAGES {
            assert!(global_alloc_4k(&mut alloc).is_some(), "must reallocate all pages");
        }
        assert!(global_alloc_4k(&mut alloc).is_none(), "OOM again after reallocating all");

        let below = BBASE.wrapping_sub(4096);
        global_free_4k(&mut alloc, below);
        assert!(global_alloc_4k(&mut alloc).is_none(), "OOM persists after bogus free");
    }

    // Free, tag again and count.
    {
        const CBASE: u64 = 0x6000_0000;
        const CPAGES: u64 = 2;

        init_global_allocator(&mut alloc, CBASE, CPAGES * 4096);
        let p0 = global_alloc_4k(&mut alloc).expect("p0");
        let p1 = global_alloc_4k(&mut alloc).expect("p1");

        frame_tag(&mut alloc, p0, FrameKind::UserOwned);
        assert_eq!(frame_kind(&alloc, p0), FrameKind::UserOwned);
        global_free_4k(&mut alloc, p0);
        assert_eq!(frame_kind(&alloc, p0), FrameKind::Free);

        let stats = frame_stats(&alloc);
        assert_eq!(stats[0], 1, "one free frame (p0 reclaimed)");
        assert_eq!(stats[1], 1, "one KernelData frame (p1)");
        assert_eq!(stats[2], 0, "no UserOwned after free");
        let _ = p1;
    }
}

#[test]
fn test_pt_pool() {
    const FRAMES: [u64; 4] = [0x1000, 0x2000, 0x3000, 0x4000];
    let mut alloc = FrameAllocator::empty();
    let mut pool = PtPool::new();
    for &f in FRAMES.iter() {
        pool.frames.push(f);
    }

    assert_eq!(pool_available(&pool), 4);
    assert_eq!(pool_capacity(), PT_POOL_CAP);

    let a = pool_alloc_pt(&mut pool).expect("frame 0");
    let b = pool_alloc_pt(&mut pool).expect("frame 1");
    let c = pool_alloc_pt(&mut pool).expect("frame 2");
    let d = pool_alloc_pt(&mut pool).expect("frame 3");

    assert_eq!(a, 0x4000, "LIFO: top of stack first");
    assert_eq!(b, 0x3000);
    assert_eq!(c, 0x2000);
    assert_eq!(d, 0x1000);
    assert_eq!(pool_available(&pool), 0);

    assert!(pool_alloc_pt(&mut pool).is_none(), "pool must be exhausted");

    pool_free_pt(&mut pool, &mut alloc, a);
    assert_eq!(pool_available(&pool), 1);
    let a2 = pool_alloc_pt(&mut pool).expect("reallocate");
    assert_eq!(a2, a, "reallocated address must equal the freed one");
    assert_eq!(pool_available(&pool), 0);

    pool_free_pt(&mut pool, &mut alloc, a2);
    pool_free_pt(&mut pool, &mut alloc, b);
    pool_free_pt(&mut pool, &mut alloc, c);
    pool_free_pt(&mut pool, &mut alloc, d);
    assert_eq!(pool_available(&pool), 4);
    for _ in 0..4 {
        assert!(pool_alloc_pt(&mut pool).is_some());
    }
    assert!(pool_alloc_pt(&mut pool).is_none(), "exhausted again");

    // A frame that does not fit goes to the allocator, which does not know it.
    pool.frames = vec![0; PT_POOL_CAP];
    pool_free_pt(&mut pool, &mut alloc, 0xFFFF_FFFF_F000);
    assert_eq!(pool_available(&pool), PT_POOL_CAP);
}

#[test]
fn pool_is_filled_from_the_allocator() {
    let mut alloc = FrameAllocator::empty();
    init_global_allocator(&mut alloc, 0x10_0000, 3 * 4096);
    let mut pool = PtPool::new();
    assert_eq!(pool_init(&mut pool, &mut alloc, 2), 2);
    assert_eq!(pool.frames, vec![0x10_0000, 0x10_1000]);
    assert_eq!(pool_init(&mut pool, &mut alloc, 2), 1);
    assert_eq!(pool.frames, vec![0x10_2000]);
    assert_eq!(global_alloc_4k(&mut alloc), None);
}

#[test]
fn overflowing_pool_returns_frames_to_the_allocator() {
    let mut alloc = FrameAllocator::empty();
    init_global_allocator(&mut alloc, 0x10_0000, 4096);
    let p = global_alloc_4k(&mut alloc).unwrap();
    let mut pool = PtPool::new();
    pool.frames = vec![0; PT_POOL_CAP];
    pool_free_pt(&mut pool, &mut alloc, p);
    assert_eq!(pool_available(&pool), PT_POOL_CAP);
    assert_eq!(global_alloc_4k(&mut alloc), Some(p));
}

#[test]
fn memory_window_reads_what_was_written() {
    let mut mem = PhysMemory::new(0x1000, 32);
    mem.write_u64(0x1008, 0x1122_3344_5566_7788);
    assert_eq!(mem.read_u64(0x1008), 0x1122_3344_5566_7788);
    assert_eq!(mem.read_u8(0x1008), 0x88);
    assert_eq!(mem.read_u16(0x100A), 0x5566);
    assert_eq!(mem.read_u32(0x100C), 0x1122_3344);
    // Outside the window there is nothing.
    mem.write_u64(0x101C, u64::MAX);
    assert_eq!(mem.read_u64(0x101C), 0);
    assert_eq!(mem.read_u32(0x101C), 0);
    assert_eq!(mem.read_u64(0xFF8), 0);
    mem.copy_in(0x1000, &[9, 8, 7, 6], 1, 2);
    assert_eq!(mem.read_u16(0x1000), 0x0708);
    mem.zero(0x1001, 8);
    assert_eq!(mem.read_u8(0x1000), 8);
    assert_eq!(mem.read_u64(0x1008), 0x1122_3344_5566_7700);
}

#[test]
fn frames_are_taken_lowest_first_across_words() {
    let mut alloc = FrameAllocator::empty();
    init_global_allocator(&mut alloc, 0x10_0000, 130 * 4096);
    for i in 0..130 {
        assert_eq!(global_alloc_4k(&mut alloc), Some(0x10_0000 + i * 4096));
    }
    assert_eq!(global_alloc_4k(&mut alloc), None);
    for i in [129, 64, 63] {
        global_free_4k(&mut alloc, 0x10_0000 + i * 4096);
    }
    for i in [63, 64, 129] {
        let p = 0x10_0000 + i * 4096;
        assert_eq!(global_alloc_4k(&mut alloc), Some(p));
        assert_eq!(frame_kind(&alloc, p), FrameKind::KernelData);
    }
    assert_eq!(global_alloc_4k(&mut alloc), None);
}

#[test]
fn range_of_frames_may_start_and_end_anywhere() {
    let mut alloc = FrameAllocator::empty();
    let base = u64::MAX - 0x2800;
    init_global_allocator(&mut alloc, base, 0x2000);
    assert_eq!(global_alloc_4k(&mut alloc), Some(base));
    assert_eq!(global_alloc_4k(&mut alloc), Some(base + 0x1000));
    assert_eq!(global_alloc_4k(&mut alloc), None);
    global_free_4k(&mut alloc, base + 0x1000);
    global_free_4k(&mut alloc, base - 1);
    assert_eq!(global_alloc_4k(&mut alloc), Some(base + 0x1000));
    assert_eq!(global_alloc_4k(&mut alloc), None);
}
