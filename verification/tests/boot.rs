use rost::boot::protection::{
    apply_section_flags, install_kernel_stack_guard_pages, remap_kernel_sections,
};
use rost::boot::setup::{
    boot_region, bump, check_cpu_features, find_controllers, find_event_timer, find_iommus,
    find_pm_timer, idle_tick, init_memory, launch_servers, map_device, uart_pin, BootImages,
    Controllers,
};
use rost::boot_collector::{
    collect_acpi_and_smbios, collect_boot_time, collect_cpu, collect_firmware,
    collect_load_options, collect_region, collect_secure_boot, finish, framebuffer_format,
    uefi_memory_type_to_kind, ClockTime, ConfigTable, CpuidLeaves, CpuidRegs, PixelFormat,
};
use rost::boot_info::{
    BootInfo, CpuFeatures, DisplayList, FrameBufferFormat, FrameBufferInfo, LoadOptions,
    MemoryKind, MemoryMap,
    MemoryRegion, SecureBootState, MAX_DISPLAYS, MAX_LOAD_OPTIONS, MAX_MEMORY_REGIONS,
};
use rost::kernel::Kernel;
use rost::memory::{
    frame_kind, frame_stats, identity_map_region, init_global_allocator, translate_address,
    FrameAllocator, FrameKind, KernelMemory, PhysMemory, PhysicalAllocator, PtPool,
    PTE_NO_EXECUTE, PTE_PRESENT, PTE_WRITABLE,
};
use rost::pecoff::parse_kernel_sections;
use rost::process::pcb::{KernelStackPool, MAX_KERNEL_STACKS};
use rost::process::ProcessId;
use rost::scheduler::{init_global, set_kernel_pml4, Scheduler};

fn region(base: u64, size: u64, kind: MemoryKind) -> MemoryRegion {
    MemoryRegion { base, size, kind }
}

#[test]
fn memory_map_is_summed_up() {
    let mut map = MemoryMap::new();
    assert!(map.is_empty());
    assert!(map.largest_usable_region().is_none());
    map.push(region(0, 0x1000, MemoryKind::Reserved));
    map.push(region(0x10_0000, 0x5000, MemoryKind::Usable));
    map.push(region(0x20_0000, 0x9000, MemoryKind::Usable));
    map.push(region(0x30_0000, 0x9000, MemoryKind::BootServices));
    assert_eq!(map.len(), 4);
    assert_eq!(map.usable_count(), 2);
    assert_eq!(map.total_usable_bytes(), 0xE000);
    assert_eq!(map.largest_usable_region().unwrap().base, 0x20_0000);
    assert_eq!(map.regions()[3].kind, MemoryKind::BootServices);
    map.push(region(0, u64::MAX, MemoryKind::Usable));
    assert_eq!(map.total_usable_bytes(), u64::MAX);
}

#[test]
fn memory_map_drops_what_does_not_fit() {
    let mut map = MemoryMap::new();
    for i in 0..MAX_MEMORY_REGIONS as u64 + 2 {
        map.push(region(i, 1, MemoryKind::Usable));
    }
    assert_eq!(map.len(), MAX_MEMORY_REGIONS);
    assert_eq!(map.regions()[MAX_MEMORY_REGIONS - 1].base, 127);
}

#[test]
fn displays_are_listed() {
    let fb = FrameBufferInfo {
        base: 0x8000_0000,
        size: 4096,
        width: 640,
        height: 480,
        stride: 640,
        format: FrameBufferFormat::Rgb32,
    };
    let mut list = DisplayList::new();
    assert!(list.is_empty());
    assert!(list.primary().is_none());
    for i in 0..MAX_DISPLAYS as u32 + 1 {
        list.push(FrameBufferInfo { width: i, ..fb });
    }
    assert_eq!(list.len(), MAX_DISPLAYS);
    assert_eq!(list.primary().unwrap().width, 0);
    assert_eq!(list.get(3).unwrap().width, 3);
    assert!(list.get(MAX_DISPLAYS).is_none());
}

#[test]
fn load_options_are_text_if_they_are_valid() {
    let mut options = LoadOptions::new();
    assert!(options.is_empty());
    assert_eq!(options.as_str(), Some(""));
    options.set("gr\u{fc}n".as_bytes());
    assert_eq!(options.as_str(), Some("gr\u{fc}n"));
    options.set(&[0x66, 0xFF]);
    assert_eq!(options.as_str(), None);
    assert_eq!(options.as_bytes(), &[0x66, 0xFF]);
    options.set(&[b'x'; 300]);
    assert_eq!(options.as_bytes().len(), MAX_LOAD_OPTIONS);
}

#[test]
fn load_options_are_collected() {
    let mut options = LoadOptions::new();
    collect_load_options(&mut options, b"a\0b\0\0\0c\0");
    assert_eq!(options.as_bytes(), b"ab");
    collect_load_options(&mut options, b"odd");
    assert_eq!(options.as_bytes(), b"odd");
    collect_load_options(&mut options, b"a\0\x20\x20b\0");
    assert_eq!(options.as_bytes(), b"ab");
}

#[test]
fn firmware_is_collected() {
    let mut info = BootInfo::new();
    let vendor: Vec<u16> = "EDK II".encode_utf16().collect();
    collect_firmware(&mut info.firmware, &vendor, 0x0002_0046, 7);
    assert_eq!(info.firmware.vendor_str(), b"EDK II");
    assert_eq!(info.firmware.uefi_major(), 2);
    assert_eq!(info.firmware.uefi_minor(), 70);
    assert_eq!(info.firmware.firmware_revision, 7);
}

fn regs(eax: u32, ebx: u32, ecx: u32, edx: u32) -> CpuidRegs {
    CpuidRegs { eax, ebx, ecx, edx }
}

fn word(s: &[u8]) -> u32 {
    u32::from_le_bytes([s[0], s[1], s[2], s[3]])
}

fn leaves(brand: &[u8; 48]) -> CpuidLeaves {
    let b = |i: usize| {
        let at = |j: usize| word(&brand[16 * i + 4 * j..]);
        regs(at(0), at(1), at(2), at(3))
    };
    CpuidLeaves {
        basic: regs(7, word(b"Genu"), word(b"ntel"), word(b"ineI")),
        version: regs(0x0009_06EA, 0x0004_0800, 0x7FFA_FBFF, 0x0FAB_FBFF),
        extended: regs(0, 0x0080, 0, 0),
        ext_basic: regs(0x8000_0008, 0, 0, 0),
        brand: [b(0), b(1), b(2)],
        addresses: regs(0x3027, 0, 0, 0),
    }
}

#[test]
fn processor_is_collected() {
    let mut brand = [0u8; 48];
    brand[..15].copy_from_slice(b"   Fast CPU 3.0");
    let cpu = collect_cpu(&leaves(&brand));
    assert_eq!(cpu.vendor_str(), b"GenuineIntel");
    assert_eq!(cpu.brand_str(), b"   Fast CPU 3.0");
    assert_eq!(cpu.brand_text(), b"Fast CPU 3.0");
    assert_eq!(cpu.stepping, 10);
    assert_eq!(cpu.model, 0x9E);
    assert_eq!(cpu.family, 6);
    assert_eq!(cpu.max_logical_cpus, 4);
    assert_eq!(cpu.physical_address_bits, 0x27);
    assert_eq!(cpu.virtual_address_bits, 0x30);
    assert!(cpu.features.has_smep());
    assert!(!cpu.features.has_smap());
    assert!(cpu.features.has_msr());
    assert!(cpu.features.has_sse2());
    assert!(!cpu.features.has_htt());
}

#[test]
fn old_processor_has_little_to_tell() {
    let mut l = leaves(&[b'x'; 48]);
    l.basic.eax = 0;
    l.ext_basic.eax = 0x8000_0000;
    let cpu = collect_cpu(&l);
    assert_eq!(cpu.brand_str(), b"");
    assert_eq!(cpu.brand_text(), b"");
    assert_eq!(cpu.family, 0);
    assert!(!cpu.features.has_smep());
    assert!(!cpu.features.has_fpu());
    assert_eq!(cpu.physical_address_bits, 0);
}

#[test]
fn firmware_tables_are_collected() {
    let (acpi, smbios) = collect_acpi_and_smbios(&[
        (ConfigTable::Other, 1),
        (ConfigTable::Acpi1, 2),
        (ConfigTable::Acpi2, 3),
        (ConfigTable::Smbios3, 4),
        (ConfigTable::Smbios2, 5),
    ]);
    assert_eq!(acpi.unwrap().rsdp_address, 3);
    assert_eq!(acpi.unwrap().version, 2);
    assert_eq!(smbios.unwrap().address, 4);
    assert_eq!(smbios.unwrap().version, 3);
    let (acpi, smbios) = collect_acpi_and_smbios(&[(ConfigTable::Acpi1, 2)]);
    assert_eq!(acpi.unwrap().version, 1);
    assert!(smbios.is_none());
}

#[test]
fn firmware_memory_types_and_regions() {
    assert_eq!(uefi_memory_type_to_kind(7), MemoryKind::Usable);
    assert_eq!(uefi_memory_type_to_kind(9), MemoryKind::AcpiReclaimable);
    assert_eq!(uefi_memory_type_to_kind(11), MemoryKind::Mmio);
    assert_eq!(uefi_memory_type_to_kind(0x8000_0000), MemoryKind::Unknown);
    let mut info = BootInfo::new();
    collect_region(&mut info.memory_map, 0x1000, 3, 7);
    finish(&mut info);
    assert_eq!(info.memory_map.regions()[0].size, 3 * 4096);
    assert_eq!(info.total_memory_bytes, 3 * 4096);
}

#[test]
fn pixel_formats() {
    assert_eq!(framebuffer_format(PixelFormat::Rgb), FrameBufferFormat::Rgb32);
    assert_eq!(framebuffer_format(PixelFormat::Bitmask(None)), FrameBufferFormat::Bgr32);
    assert_eq!(
        framebuffer_format(PixelFormat::Bitmask(Some((1, 2, 3, 4)))),
        FrameBufferFormat::Bitmask { red: 1, green: 2, blue: 3, reserved: 4 }
    );
}

#[test]
fn secure_boot_states() {
    assert_eq!(collect_secure_boot(Some(1), Some(0)), SecureBootState::Enabled);
    assert_eq!(collect_secure_boot(Some(0), None), SecureBootState::Disabled);
    assert_eq!(collect_secure_boot(Some(1), Some(1)), SecureBootState::SetupMode);
    assert_eq!(collect_secure_boot(None, Some(0)), SecureBootState::Unknown);
}

#[test]
fn boot_time_has_to_be_valid() {
    let t = ClockTime {
        year: 2024,
        month: 12,
        day: 31,
        hour: 23,
        minute: 59,
        second: 59,
        nanosecond: 999_999_999,
        time_zone: None,
    };
    let b = collect_boot_time(Some(t)).unwrap();
    assert_eq!((b.year, b.month, b.day), (2024, 12, 31));
    assert_eq!((b.hour, b.minute, b.second), (23, 59, 59));
    assert!(collect_boot_time(None).is_none());
    for zone in [-1440, 0, 1440, 2047] {
        assert!(collect_boot_time(Some(ClockTime { time_zone: Some(zone), ..t })).is_some());
    }
    for bad in [
        ClockTime { year: 1899, ..t },
        ClockTime { year: 10_000, ..t },
        ClockTime { month: 0, ..t },
        ClockTime { month: 13, ..t },
        ClockTime { day: 0, ..t },
        ClockTime { day: 32, ..t },
        ClockTime { hour: 24, ..t },
        ClockTime { minute: 60, ..t },
        ClockTime { second: 60, ..t },
        ClockTime { nanosecond: 1_000_000_000, ..t },
        ClockTime { time_zone: Some(1441), ..t },
        ClockTime { time_zone: Some(-1441), ..t },
    ] {
        assert!(collect_boot_time(Some(bad)).is_none(), "{bad:?}");
    }
}

#[test]
fn boot_requirements() {
    let mut info = BootInfo::new();
    let r = check_cpu_features(&info, false);
    assert!(r.missing_smep && r.missing_msr && r.insecure && !r.multi_core && !r.ok);
    info.cpu.features.leaf7_ebx = 0x80;
    info.cpu.features.leaf1_edx = 0x20;
    assert!(check_cpu_features(&info, false).ok);
    assert!(!check_cpu_features(&info, true).ok);
    info.secure_boot = SecureBootState::Enabled;
    assert!(check_cpu_features(&info, true).ok);
    info.cpu.features.leaf1_edx |= 0x1000_0000;
    assert!(check_cpu_features(&info, true).ok);
    info.cpu.max_logical_cpus = 2;
    let r = check_cpu_features(&info, true);
    assert!(r.multi_core && !r.ok);
}

/// The kernel's top-level table.
const PML4: u64 = 0x8000;

/// Memory of 6 MB, of which the last 4 MB are usable.
fn booted() -> KernelMemory {
    let mut map = MemoryMap::new();
    map.push(region(0, 0x20_0000, MemoryKind::Reserved));
    map.push(region(0x20_0000, 0x40_0000, MemoryKind::Usable));
    init_memory(PhysMemory::new(0, 0x60_0000), PML4, &map).unwrap()
}

#[test]
fn boot_region_is_the_largest_usable_one() {
    let mut map = MemoryMap::new();
    assert_eq!(boot_region(&map), (0x10_0000, 0x1000_0000));
    map.push(region(0x20_0000, 0x1000, MemoryKind::Usable));
    map.push(region(0x30_0000, 0x9000, MemoryKind::Usable));
    assert_eq!(boot_region(&map), (0x30_0000, 0x9000));
}

#[test]
fn memory_is_mapped_to_itself() {
    let mem = booted();
    for addr in [0u64, 0x1234, 0x20_0000, 0x5F_FFFF] {
        assert_eq!(translate_address(&mem.ram, PML4, addr), Some(addr));
    }
    assert_eq!(translate_address(&mem.ram, PML4, 0x60_0000), None);
    // The heap and the tables are taken before the frames begin.
    assert!(mem.frames.base >= 0x30_0000);
    assert_eq!(mem.frames.end, 0x60_0000 - 0x10_0000);
    assert_eq!(mem.pool.frames.len(), frame_stats(&mem.frames)[1] as usize);
}

#[test]
fn too_little_memory_for_the_heap() {
    let mut map = MemoryMap::new();
    map.push(region(0x20_0000, 0x8_0000, MemoryKind::Usable));
    assert!(init_memory(PhysMemory::new(0, 0x28_0000), PML4, &map).is_none());
}

#[test]
fn guard_pages_are_unmapped() {
    let mut mem = booted();
    let stacks = KernelStackPool::new(0x4_0000);
    assert_eq!(
        install_kernel_stack_guard_pages(&mut mem, PML4, &stacks),
        MAX_KERNEL_STACKS as u32
    );
    for id in 0..MAX_KERNEL_STACKS as u64 {
        let guard = 0x4_0000 + id * 0x3000;
        assert_eq!(translate_address(&mem.ram, PML4, guard + 0xFFF), None);
        assert_eq!(translate_address(&mem.ram, PML4, guard + 0x1000), Some(guard + 0x1000));
        assert_eq!(translate_address(&mem.ram, PML4, guard + 0x2FFF), Some(guard + 0x2FFF));
    }
}

#[test]
fn unmapped_stacks_get_no_guards() {
    let mut mem = booted();
    let stacks = KernelStackPool::new(0x4000_0000);
    assert_eq!(install_kernel_stack_guard_pages(&mut mem, PML4, &stacks), 0);
    assert_eq!(frame_kind(&mem.frames, 0x4000_0000), FrameKind::Free);
}

fn leaf(mem: &PhysMemory, virt: u64) -> u64 {
    let mut table = PML4;
    for shift in [39, 30, 21] {
        table = mem.read_u64(table + 8 * ((virt >> shift) & 0x1FF)) & 0x000F_FFFF_FFFF_F000;
    }
    mem.read_u64(table + 8 * ((virt >> 12) & 0x1FF))
}

#[test]
fn section_flags_cover_whole_pages() {
    let mut mem = booted();
    apply_section_flags(&mut mem, PML4, 0x1_0800, 0x1000, PTE_PRESENT | PTE_NO_EXECUTE);
    for (page, changed) in [(0xF000, false), (0x1_0000, true), (0x1_1000, true), (0x1_2000, false)] {
        let e = leaf(&mem.ram, page);
        assert_eq!(e & PTE_NO_EXECUTE != 0, changed, "page {page:#x}");
        assert_eq!(e & PTE_WRITABLE == 0, changed, "page {page:#x}");
        assert_eq!(translate_address(&mem.ram, PML4, page), Some(page));
    }
}

/// Puts an image with the given sections at `base`.
fn put_image(mem: &mut PhysMemory, base: u64, sections: &[(&[u8], u32, u32)]) {
    let mut e = vec![0u8; 0x400];
    e[..2].copy_from_slice(b"MZ");
    e[0x3C] = 0x80;
    e[0x80..0x84].copy_from_slice(b"PE\0\0");
    e[0x84..0x86].copy_from_slice(&0x8664u16.to_le_bytes());
    e[0x86..0x88].copy_from_slice(&(sections.len() as u16).to_le_bytes());
    e[0x94..0x96].copy_from_slice(&0x70u16.to_le_bytes());
    e[0x98..0x9A].copy_from_slice(&0x020Bu16.to_le_bytes());
    for (i, (name, size, rva)) in sections.iter().enumerate() {
        let s = 0x98 + 0x70 + 40 * i;
        e[s..s + name.len()].copy_from_slice(name);
        e[s + 8..s + 12].copy_from_slice(&size.to_le_bytes());
        e[s + 12..s + 16].copy_from_slice(&rva.to_le_bytes());
    }
    mem.copy_in(base, &e, 0, e.len());
}

#[test]
fn image_sections_are_found() {
    let mut mem = PhysMemory::new(0x10_0000, 0x1000);
    put_image(
        &mut mem,
        0x10_0000,
        &[
            (b".text", 0x1800, 0x1000),
            (b".rdata", 0x10, 0x3000),
            (b".data$x", 0x20, 0x4000),
            (b".bss", 0, 0x5000),
            (b".reloc", 0x30, 0x6000),
        ],
    );
    let s = parse_kernel_sections(&mem, 0x10_0000);
    assert_eq!((s.text.unwrap().virt_addr, s.text.unwrap().size), (0x10_1000, 0x1800));
    assert_eq!(s.rodata.unwrap().virt_addr, 0x10_3000);
    assert_eq!(s.data.unwrap().virt_addr, 0x10_4000);
    assert!(s.bss.is_none());
    assert!(parse_kernel_sections(&mem, 0).text.is_none());
    mem.bytes[0] = b'X';
    assert!(parse_kernel_sections(&mem, 0x10_0000).text.is_none());
}

#[test]
fn kernel_sections_are_protected() {
    let mut mem = booted();
    put_image(
        &mut mem.ram,
        0x1_0000,
        &[
            (b".text", 0x1000, 0x1000),
            (b".rdata", 0x1000, 0x2000),
            (b".data", 0x1000, 0x3000),
            (b".bss", 0x1000, 0x4000),
        ],
    );
    remap_kernel_sections(&mut mem, PML4, 0x1_0000);
    let flags = |page: u64| {
        let e = leaf(&mem.ram, page);
        (e & PTE_WRITABLE != 0, e & PTE_NO_EXECUTE != 0)
    };
    assert_eq!(flags(0x1_1000), (false, false));
    assert_eq!(flags(0x1_2000), (false, true));
    assert_eq!(flags(0x1_3000), (true, true));
    assert_eq!(flags(0x1_4000), (true, true));
    assert_eq!(flags(0x1_5000), (true, false));
}

#[test]
fn devices_are_mapped_on_demand() {
    let mut mem = booted();
    map_device(&mut mem, PML4, 0xFEE0_0000);
    assert_eq!(translate_address(&mem.ram, PML4, 0xFEE0_00B0), Some(0xFEE0_00B0));
    let before = mem.pool.frames.len();
    map_device(&mut mem, PML4, 0);
    assert_eq!(mem.pool.frames.len(), before);
}

#[test]
fn machine_without_tables() {
    let mut mem = booted();
    assert_eq!(
        find_controllers(&mem.ram, 0),
        Controllers { lapic: 0, ioapic: 0, gsi_base: 0 }
    );
    assert_eq!(find_pm_timer(&mem.ram, 0), 0);
    assert!(find_iommus(&mem.ram, 0).is_empty());
    assert!(find_event_timer(&mut mem, PML4, 0).is_none());
}

fn sealed(mut t: Vec<u8>) -> Vec<u8> {
    let len = t.len() as u32;
    t[4..8].copy_from_slice(&len.to_le_bytes());
    t[9] = 0;
    let sum = t.iter().fold(0u8, |a, &b| a.wrapping_add(b));
    t[9] = 0u8.wrapping_sub(sum);
    t
}

fn table(sig: &[u8; 4], len: usize) -> Vec<u8> {
    let mut t = vec![0u8; len];
    t[..4].copy_from_slice(sig);
    t
}

#[test]
fn hardware_is_found_through_the_tables() {
    let mut mem = booted();
    let rsdp = 0x7000u64;
    let (root, madt, fadt, dmar, hpet) = (0x7100u64, 0x7200u64, 0x7300u64, 0x7400u64, 0x7500u64);
    let timer = 0x50_0000u64;

    let mut t = table(b"APIC", 44);
    t[36..40].copy_from_slice(&0xFEE0_0000u32.to_le_bytes());
    t.extend_from_slice(&[1, 12, 0, 0, 0, 0, 0xC0, 0xFE, 3, 0, 0, 0]);
    mem.ram.copy_in(madt, &sealed(t.clone()), 0, t.len());
    let mut t = table(b"FACP", 129);
    t[76..80].copy_from_slice(&0x408u32.to_le_bytes());
    mem.ram.copy_in(fadt, &sealed(t.clone()), 0, t.len());
    let mut t = table(b"DMAR", 48);
    t.extend_from_slice(&[0, 0, 16, 0, 0, 0, 0, 0, 0, 0, 0xD9, 0xFE, 0, 0, 0, 0]);
    mem.ram.copy_in(dmar, &sealed(t.clone()), 0, t.len());
    let mut t = table(b"HPET", 56);
    t[44..52].copy_from_slice(&timer.to_le_bytes());
    mem.ram.copy_in(hpet, &sealed(t.clone()), 0, t.len());
    mem.ram.write_u64(timer, 69_841 << 32);
    let mut t = table(b"RSDT", 36);
    for child in [madt, fadt, dmar, hpet] {
        t.extend_from_slice(&(child as u32).to_le_bytes());
    }
    mem.ram.copy_in(root, &sealed(t.clone()), 0, t.len());
    let mut r = vec![0u8; 20];
    r[..8].copy_from_slice(b"RSD PTR ");
    r[16..20].copy_from_slice(&(root as u32).to_le_bytes());
    let sum = r.iter().fold(0u8, |a, &b| a.wrapping_add(b));
    r[8] = 0u8.wrapping_sub(sum);
    mem.ram.copy_in(rsdp, &r, 0, r.len());

    assert_eq!(
        find_controllers(&mem.ram, rsdp),
        Controllers { lapic: 0xFEE0_0000, ioapic: 0xFEC0_0000, gsi_base: 3 }
    );
    assert_eq!(find_pm_timer(&mem.ram, rsdp), 0x408);
    assert_eq!(find_iommus(&mem.ram, rsdp), vec![0xFED9_0000]);
    let found = find_event_timer(&mut mem, PML4, rsdp).unwrap();
    assert_eq!((found.base_address, found.period_fs), (timer, 69_841));
    assert_eq!(translate_address(&mem.ram, PML4, timer), Some(timer));
}

#[test]
fn serial_pin() {
    assert_eq!(uart_pin(0), 4);
    assert_eq!(uart_pin(3), 1);
    assert_eq!(uart_pin(4), 0);
    assert_eq!(uart_pin(24), 0);
}

#[test]
fn watchdog_is_kicked_every_fifty_ticks() {
    let mut count = 0u64;
    let kicks: Vec<u64> = (1..=150).filter(|_| idle_tick(&mut count)).collect();
    assert_eq!(kicks, [50, 100, 150]);
    assert_eq!(count, 150);
}

#[test]
fn kernel_heap_grows_upward() {
    assert_eq!(bump(0, 10, 8), Some((0, 10)));
    assert_eq!(bump(10, 10, 8), Some((16, 26)));
    assert_eq!(bump(0, 0x10_0000, 1), None);
    assert_eq!(bump(0, 0xF_FFFF, 1), Some((0, 0xF_FFFF)));
}

fn server() -> Vec<u8> {
    let mut e = vec![0u8; 64 + 56];
    e[..4].copy_from_slice(b"\x7FELF");
    e[4] = 2;
    e[5] = 1;
    e[18] = 0x3E;
    e[32] = 64;
    e[54] = 56;
    e[56] = 1;
    e
}

#[test]
fn servers_are_launched_in_order() {
    let mut frames = FrameAllocator::empty();
    init_global_allocator(&mut frames, 0x10_1000, 400 * 4096);
    let mut ram = PhysMemory::new(0x10_0000, 401 * 4096);
    let mut alloc = PhysicalAllocator::new(0, 0);
    identity_map_region(&mut ram, 0x10_0000, 0, 0, PTE_PRESENT, &mut alloc);
    let mut k = Kernel::new(KernelMemory { ram, frames, pool: PtPool::new() });
    init_global(&mut k.global, Scheduler::new());
    set_kernel_pml4(&mut k.global, 0x10_0000);
    let images = BootImages {
        init: server(),
        uart_drv: server(),
        vfs: vec![],
        shell: server(),
        net: server(),
    };
    let p = launch_servers(&mut k, &images, 0x1234, 0x5678);
    assert_eq!(p.init, Some(ProcessId::new(1)));
    assert_eq!(p.idle, Some(ProcessId::new(2)));
    assert_eq!(p.uart_drv, Some(ProcessId::new(3)));
    assert_eq!(p.vfs, None);
    assert_eq!(p.shell, Some(ProcessId::new(4)));
    assert_eq!(p.net, Some(ProcessId::new(5)));
    assert_eq!(k.global.current_pid, 2);
    let sched = k.global.scheduler.as_ref().unwrap();
    assert_eq!(sched.current_process(), Some(ProcessId::new(2)));
    let priorities: Vec<u8> = sched.process_table.list_all().iter().map(|p| p.2).collect();
    assert_eq!(priorities, [32, 255, 64, 64, 48]);
}

fn features(edx: u32, ecx: u32, ebx7: u32) -> CpuFeatures {
    CpuFeatures { leaf1_ecx: ecx, leaf1_edx: edx, leaf7_ebx: ebx7, leaf7_ecx: 0 }
}

#[test]
fn each_feature_has_its_bit() {
    let none = features(0, 0, 0);
    let edx: [(u32, fn(&CpuFeatures) -> bool); 7] = [
        (0, CpuFeatures::has_fpu),
        (5, CpuFeatures::has_msr),
        (6, CpuFeatures::has_pae),
        (9, CpuFeatures::has_apic),
        (25, CpuFeatures::has_sse),
        (26, CpuFeatures::has_sse2),
        (28, CpuFeatures::has_htt),
    ];
    for (bit, has) in edx {
        assert!(has(&features(1 << bit, 0, 0)) && !has(&features(!(1 << bit), !0, !0)));
        assert!(!has(&none));
    }
    let ecx: [(u32, fn(&CpuFeatures) -> bool); 9] = [
        (0, CpuFeatures::has_sse3),
        (1, CpuFeatures::has_pclmul),
        (9, CpuFeatures::has_ssse3),
        (19, CpuFeatures::has_sse4_1),
        (20, CpuFeatures::has_sse4_2),
        (23, CpuFeatures::has_popcnt),
        (25, CpuFeatures::has_aes),
        (28, CpuFeatures::has_avx),
        (30, CpuFeatures::has_rdrand),
    ];
    for (bit, has) in ecx {
        assert!(has(&features(0, 1 << bit, 0)) && !has(&features(!0, !(1 << bit), !0)));
    }
    let ebx: [(u32, fn(&CpuFeatures) -> bool); 7] = [
        (3, CpuFeatures::has_bmi1),
        (5, CpuFeatures::has_avx2),
        (7, CpuFeatures::has_smep),
        (8, CpuFeatures::has_bmi2),
        (18, CpuFeatures::has_rdseed),
        (19, CpuFeatures::has_adx),
        (29, CpuFeatures::has_sha),
    ];
    for (bit, has) in ebx {
        assert!(has(&features(0, 0, 1 << bit)) && !has(&features(!0, !0, !(1 << bit))));
    }
}
