use rost::acpi::hpet::HpetInfo;
use rost::hpet::{base_address, init, period_fs, read_counter, Hpet};
use rost::iommu::{
    self, init_unit, passthrough_context_entry, root_entry, version, UnitStep,
};
use rost::memory::{
    frame_stats, init_global_allocator, FrameAllocator, KernelMemory, PhysMemory, PtPool,
};

fn make_info(base: u64, period: u64) -> HpetInfo {
    HpetInfo {
        base_address: base,
        period_fs: period,
        timer_count: 3,
        counter_64bit: true,
        hardware_rev: 1,
    }
}

#[test]
fn test_init_zero_base_is_noop() {
    let mut hpet = Hpet::new();
    let mut mmio = PhysMemory::new(0, 256);
    let info = make_info(0, 100_000);
    init(&mut hpet, &mut mmio, &info);
    assert_eq!(hpet, Hpet::new());
    assert_eq!(mmio.bytes, vec![0; 256]);
}

#[test]
fn test_read_counter_before_init_returns_zero() {
    let hpet = Hpet::new();
    let mmio = PhysMemory::from_bytes(0, vec![1; 256]);
    assert_eq!(read_counter(&hpet, &mmio), 0);
}

#[test]
fn test_period_fs_stored_by_init() {
    let base: u64 = 0xFED0_0000;
    let mut mmio = PhysMemory::new(base, 256);
    mmio.write_u64(base + 0xF0, 0xDEAD_BEEF_CAFE_0001);
    let mut hpet = Hpet::new();

    let info = make_info(base, 69_841);
    init(&mut hpet, &mut mmio, &info);

    assert_eq!(period_fs(&hpet), 69_841);
    assert_eq!(base_address(&hpet), base);
}

#[test]
fn timer_runs_after_init() {
    let base: u64 = 0xFED0_0000;
    let mut mmio = PhysMemory::new(base, 256);
    mmio.write_u64(base + 0x10, 0x2);
    mmio.write_u64(base + 0xF0, 0xDEAD_BEEF_CAFE_0001);
    let mut hpet = Hpet::new();
    init(&mut hpet, &mut mmio, &make_info(base, 69_841));
    assert_eq!(mmio.read_u64(base + 0x10), 0x3);
    assert_eq!(read_counter(&hpet, &mmio), 0xDEAD_BEEF_CAFE_0001);
}

#[test]
fn test_root_entry_present() {
    let ctx_phys: u64 = 0x0000_1234_5678_0000;
    let (lo, hi) = root_entry(ctx_phys);
    assert_eq!(lo & 1, 1, "present bit must be set");
    assert_eq!(lo & !0xFFF, ctx_phys, "context table ptr must be preserved");
    assert_eq!(hi, 0, "high 64 bits are reserved/zero");
}

#[test]
fn test_root_entry_alignment() {
    let (lo, _) = root_entry(0x1234_5000 + 0xABC);
    assert_eq!(lo & 0xFFF, 1, "only present bit in low 12 bits");
}

#[test]
fn test_passthrough_ctx_entry() {
    let (lo, hi) = passthrough_context_entry(1);
    assert_eq!(lo & 1, 1, "present bit must be set");
    assert_eq!((lo >> 2) & 0x3, 0b10, "TT must be 0b10 (passthrough)");
    assert_eq!(hi, 1, "domain_id must appear in upper 64 bits");
}

#[test]
fn test_passthrough_ctx_domain_id() {
    let (_, hi) = passthrough_context_entry(42);
    assert_eq!(hi, 42, "domain_id must be in high 64-bit word");
}

fn memory(frames: u64) -> KernelMemory {
    let base: u64 = 0x10_0000;
    let mut alloc = FrameAllocator::empty();
    init_global_allocator(&mut alloc, base, frames * 4096);
    KernelMemory {
        ram: PhysMemory::from_bytes(base, vec![0xAA; 4 * 4096]),
        frames: alloc,
        pool: PtPool::new(),
    }
}

#[test]
fn unit_tables_let_every_device_pass() {
    let mut mem = memory(4);
    let unit = init_unit(&mut mem, 0xFED9_0000, 0x40).unwrap();
    assert_eq!(unit.root, 0x10_0000);
    for i in 0..256 {
        assert_eq!(mem.ram.read_u64(0x10_0000 + 16 * i), 0x10_1001);
        assert_eq!(mem.ram.read_u64(0x10_0008 + 16 * i), 0);
        assert_eq!(mem.ram.read_u64(0x10_1000 + 16 * i), 9);
        assert_eq!(mem.ram.read_u64(0x10_1008 + 16 * i), 1);
    }
    assert_eq!(mem.ram.read_u8(0x10_2000), 0xAA);
    assert_eq!(frame_stats(&mem.frames)[1], 2);
}

#[test]
fn unit_is_refused() {
    let mut mem = memory(4);
    assert!(init_unit(&mut mem, 0, 0x40).is_none());
    assert!(init_unit(&mut mem, 0xFED9_0000, !0x40).is_none());
    assert_eq!(frame_stats(&mem.frames)[0], 4);
    // The first table is made although there is no frame for the second.
    let mut mem = memory(1);
    assert!(init_unit(&mut mem, 0xFED9_0000, 0x40).is_none());
    assert_eq!(frame_stats(&mem.frames)[0], 0);
    assert_eq!(mem.ram.read_u64(0x10_0000), 0);
    assert!(init_unit(&mut memory(0), 0xFED9_0000, 0x40).is_none());
}

#[test]
fn unit_is_enabled_in_order() {
    let mut mem = memory(4);
    let mut unit = init_unit(&mut mem, 0xFED9_0000, 0x40).unwrap();
    assert_eq!(unit.command(), 1 << 30);
    assert_eq!(unit.step(0x8000_0000), UnitStep::Again);
    assert_eq!(unit.step(0x4000_0000), UnitStep::Command(1 << 27));
    assert_eq!(unit.command(), 1 << 27);
    assert_eq!(unit.step(0x4800_0000), UnitStep::Again);
    assert_eq!(unit.step(0x4000_0000), UnitStep::Command(1 << 31));
    assert_eq!(unit.step(0x4000_0000), UnitStep::Again);
    assert_eq!(unit.step(0xC000_0000), UnitStep::Enabled);
}

#[test]
fn unit_that_does_not_answer_is_given_up() {
    let mut mem = memory(4);
    let mut unit = init_unit(&mut mem, 0xFED9_0000, 0x40).unwrap();
    for _ in 0..99_999 {
        assert_eq!(unit.step(0), UnitStep::Again);
    }
    assert_eq!(unit.step(0), UnitStep::TimedOut);
}

#[test]
fn enabled_units_are_counted() {
    assert_eq!(iommu::init(&[], &[]), 0);
    assert_eq!(iommu::init(&[0, 0], &[true, true]), 0);
    assert_eq!(iommu::init(&[1, 0, 2, 3], &[true, true, false, true]), 2);
    assert_eq!(version(0x10), (1, 0));
    assert_eq!(version(0x4F), (4, 15));
}
