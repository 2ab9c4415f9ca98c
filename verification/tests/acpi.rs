use rost::acpi::dmar::{DMAR_FLAG_INTR_REMAP, DRHD_FLAG_INCLUDE_PCI_ALL, MAX_DRH_UNITS};
use rost::acpi::fadt::{FLAG_RESET_REG_SUP, GAS_SPACE_IO};
use rost::acpi::{
    find_dmar, find_fadt, find_hpet, find_madt, find_madt_via_rsdt, find_madt_via_xsdt,
    hpet_mmio_base, parse_dmar, parse_fadt, parse_hpet, parse_madt, MadtInfo,
};
use rost::memory::PhysMemory;

/// Where the tables of these tests lie.
const BASE: u64 = 0x1000;

const MADT_HEADER_LEN: usize = 44;
const DMAR_HEADER_LEN: usize = 48;
const DRHD_MIN_LEN: usize = 16;
const FADT_MIN_LEN_V1: usize = 116;
const FADT_MIN_LEN_RESET: usize = 129;
const HPET_MIN_LEN: usize = 56;

/// A table under construction.
struct Table {
    data: Vec<u8>,
}

impl Table {
    fn new(signature: &[u8; 4], size: usize) -> Self {
        let mut t = Table { data: vec![0u8; size] };
        t.data[..4].copy_from_slice(signature);
        t.set_u32(4, size as u32);
        t
    }

    fn set_u8(&mut self, offset: usize, val: u8) {
        self.data[offset] = val;
    }

    fn set_u16(&mut self, offset: usize, val: u16) {
        self.data[offset..offset + 2].copy_from_slice(&val.to_le_bytes());
    }

    fn set_u32(&mut self, offset: usize, val: u32) {
        self.data[offset..offset + 4].copy_from_slice(&val.to_le_bytes());
    }

    fn set_u64(&mut self, offset: usize, val: u64) {
        self.data[offset..offset + 8].copy_from_slice(&val.to_le_bytes());
    }

    fn append(&mut self, bytes: &[u8]) {
        self.data.extend_from_slice(bytes);
        let len = self.data.len() as u32;
        self.set_u32(4, len);
    }

    fn append_drhd(&mut self, flags: u8, segment: u16, register_base: u64) {
        let start = self.data.len();
        self.append(&[0u8; DRHD_MIN_LEN]);
        self.set_u16(start, 0);
        self.set_u16(start + 2, DRHD_MIN_LEN as u16);
        self.set_u8(start + 4, flags);
        self.set_u16(start + 6, segment);
        self.set_u64(start + 8, register_base);
    }

    fn append_other(&mut self, entry_type: u16) {
        let start = self.data.len();
        self.append(&[0u8; 24]);
        self.set_u16(start, entry_type);
        self.set_u16(start + 2, 24);
    }

    fn fix_checksum(&mut self) {
        self.data[9] = 0;
        let sum: u8 = self.data.iter().fold(0u8, |a, &b| a.wrapping_add(b));
        self.data[9] = 0u8.wrapping_sub(sum);
    }

    fn memory(&self) -> PhysMemory {
        PhysMemory::from_bytes(BASE, self.data.clone())
    }
}

// ── Interrupt controllers ────────────────────────────────────────────────────

fn build_test_madt() -> Table {
    let mut t = Table::new(b"APIC", MADT_HEADER_LEN);
    t.set_u8(8, 3);
    t.data[10..16].copy_from_slice(b"ROST  ");
    t.data[16..24].copy_from_slice(b"TESTMADT");
    t.set_u32(36, 0xFEE0_0000);
    t.set_u32(40, 1);
    // An enabled local APIC, an I/O APIC, and an override of IRQ 0 to GSI 2.
    t.append(&[0, 8, 1, 0, 1, 0, 0, 0]);
    t.append(&[1, 12, 0, 0, 0x00, 0x00, 0xC0, 0xFE, 0, 0, 0, 0]);
    t.append(&[2, 10, 0, 0, 2, 0, 0, 0, 0, 0]);
    t.fix_checksum();
    t
}

#[test]
fn test_parse_madt_all_entry_types() {
    let buf = build_test_madt();
    let info = parse_madt(&buf.memory(), BASE).expect("valid MADT must parse");

    assert_eq!(info.local_apic_addr, 0xFEE0_0000);
    assert_eq!(info.flags, 1, "dual-8259 flag must be set");

    assert_eq!(info.local_apic_count, 1);
    let la = info.local_apics[0].unwrap();
    assert_eq!(la.acpi_id, 1);
    assert_eq!(la.apic_id, 0);
    assert!(la.enabled);

    assert_eq!(info.io_apic_count, 1);
    let ioa = info.io_apics[0].unwrap();
    assert_eq!(ioa.id, 0);
    assert_eq!(ioa.address, 0xFEC0_0000);
    assert_eq!(ioa.gsi_base, 0);

    assert_eq!(info.irq_override_count, 1);
    let ov = info.irq_overrides[0].unwrap();
    assert_eq!(ov.irq, 0);
    assert_eq!(ov.gsi, 2);
    assert_eq!(ov.flags, 0);

    assert!(info.bsp_local_apic().is_some());
    assert!(info.primary_io_apic().is_some());
    assert_eq!(info.irq_to_gsi(0), 2, "IRQ 0 must map to GSI 2");
    assert_eq!(info.irq_to_gsi(1), 1, "IRQ 1 must be identity (no override)");
}

#[test]
fn test_parse_madt_null() {
    assert!(parse_madt(&build_test_madt().memory(), 0).is_none());
}

#[test]
fn test_parse_madt_bad_checksum() {
    let mut buf = build_test_madt();
    buf.data[9] = buf.data[9].wrapping_add(1);
    assert!(parse_madt(&buf.memory(), BASE).is_none());
}

#[test]
fn test_parse_madt_bad_signature() {
    let mut buf = build_test_madt();
    buf.data[0] = b'X';
    buf.fix_checksum();
    assert!(parse_madt(&buf.memory(), BASE).is_none());
}

#[test]
fn test_irq_to_gsi_identity() {
    let info = MadtInfo::empty();
    for irq in 0..16u8 {
        assert_eq!(info.irq_to_gsi(irq), irq as u32);
    }
}

#[test]
fn test_truncated_entry_skipped() {
    let mut buf = build_test_madt();
    buf.data[MADT_HEADER_LEN + 1] = 3;
    buf.fix_checksum();

    let info = parse_madt(&buf.memory(), BASE).expect("should parse despite truncated entry");
    assert_eq!(info.local_apic_count, 0, "truncated Local APIC entry must be skipped");
}

#[test]
fn madt_without_apics() {
    let info = MadtInfo::empty();
    assert!(info.bsp_local_apic().is_none());
    assert!(info.primary_io_apic().is_none());
}

#[test]
fn bsp_is_the_first_enabled_local_apic() {
    let mut t = Table::new(b"APIC", MADT_HEADER_LEN);
    t.append(&[0, 8, 1, 7, 0, 0, 0, 0]);
    t.append(&[0, 8, 2, 9, 1, 0, 0, 0]);
    t.fix_checksum();
    let info = parse_madt(&t.memory(), BASE).unwrap();
    assert_eq!(info.local_apic_count, 2);
    assert_eq!(info.bsp_local_apic().unwrap().apic_id, 9);
}

// ── DMA remapping ────────────────────────────────────────────────────────────

#[test]
fn test_parse_dmar_null_returns_none() {
    assert!(parse_dmar(&PhysMemory::new(BASE, 64), 0).is_none());
}

#[test]
fn test_parse_dmar_bad_signature() {
    let mut buf = Table::new(b"DMAR", DMAR_HEADER_LEN);
    buf.data[0] = b'X';
    buf.fix_checksum();
    assert!(parse_dmar(&buf.memory(), BASE).is_none());
}

#[test]
fn test_parse_dmar_bad_checksum() {
    let mut buf = Table::new(b"DMAR", DMAR_HEADER_LEN);
    buf.fix_checksum();
    buf.data[10] ^= 0xFF;
    assert!(parse_dmar(&buf.memory(), BASE).is_none());
}

#[test]
fn test_parse_dmar_too_short() {
    let buf = Table::new(b"DMAR", DMAR_HEADER_LEN - 1);
    assert!(parse_dmar(&buf.memory(), BASE).is_none());
}

#[test]
fn test_parse_dmar_no_units() {
    let mut buf = Table::new(b"DMAR", DMAR_HEADER_LEN);
    buf.set_u8(36, 38);
    buf.set_u8(37, DMAR_FLAG_INTR_REMAP);
    buf.fix_checksum();

    let info = parse_dmar(&buf.memory(), BASE).expect("should parse empty DMAR");
    assert_eq!(info.unit_count, 0);
    assert_eq!(info.host_address_width, 38);
    assert_eq!(info.haw(), 39);
    assert!(info.intr_remap_supported());
}

#[test]
fn test_parse_dmar_single_drhd() {
    let mut buf = Table::new(b"DMAR", DMAR_HEADER_LEN);
    buf.set_u8(36, 38);
    buf.set_u8(37, DMAR_FLAG_INTR_REMAP);
    buf.append_drhd(DRHD_FLAG_INCLUDE_PCI_ALL, 0, 0xFED9_0000);
    buf.fix_checksum();

    let info = parse_dmar(&buf.memory(), BASE).expect("should parse single-DRHD DMAR");
    assert_eq!(info.unit_count, 1);
    let unit = info.units[0].unwrap();
    assert_eq!(unit.flags, DRHD_FLAG_INCLUDE_PCI_ALL);
    assert_eq!(unit.segment, 0);
    assert_eq!(unit.register_base, 0xFED9_0000);
    assert!(unit.covers_all_pci());
}

#[test]
fn test_parse_dmar_multi_drhd() {
    let mut buf = Table::new(b"DMAR", DMAR_HEADER_LEN);
    buf.set_u8(36, 38);
    buf.append_drhd(0, 0, 0xFED9_0000);
    buf.append_drhd(DRHD_FLAG_INCLUDE_PCI_ALL, 1, 0xFED9_1000);
    buf.fix_checksum();

    let info = parse_dmar(&buf.memory(), BASE).expect("two-DRHD");
    assert_eq!(info.unit_count, 2);
    assert_eq!(info.units[0].unwrap().register_base, 0xFED9_0000);
    assert_eq!(info.units[0].unwrap().segment, 0);
    assert!(!info.units[0].unwrap().covers_all_pci());
    assert_eq!(info.units[1].unwrap().register_base, 0xFED9_1000);
    assert_eq!(info.units[1].unwrap().segment, 1);
    assert!(info.units[1].unwrap().covers_all_pci());
}

#[test]
fn test_parse_dmar_skip_non_drhd() {
    let mut buf = Table::new(b"DMAR", DMAR_HEADER_LEN);
    buf.set_u8(36, 38);
    buf.append_other(1);
    buf.append_drhd(DRHD_FLAG_INCLUDE_PCI_ALL, 0, 0xFED9_0000);
    buf.append_other(2);
    buf.fix_checksum();

    let info = parse_dmar(&buf.memory(), BASE).expect("skip non-DRHD");
    assert_eq!(info.unit_count, 1, "only the DRHD must be counted");
    assert_eq!(info.units[0].unwrap().register_base, 0xFED9_0000);
}

#[test]
fn test_parse_dmar_truncated_drhd_skipped() {
    let mut buf = Table::new(b"DMAR", DMAR_HEADER_LEN);
    buf.set_u8(36, 38);

    let start = buf.data.len();
    buf.append(&[0u8; 12]);
    buf.set_u16(start, 0);
    buf.set_u16(start + 2, 12);
    buf.fix_checksum();

    let info = parse_dmar(&buf.memory(), BASE).expect("should parse despite short DRHD");
    assert_eq!(info.unit_count, 0, "truncated DRHD must be skipped");
}

#[test]
fn test_iter_units() {
    let mut buf = Table::new(b"DMAR", DMAR_HEADER_LEN);
    buf.set_u8(36, 38);
    buf.append_drhd(0, 0, 0xFED9_0000);
    buf.append_drhd(DRHD_FLAG_INCLUDE_PCI_ALL, 0, 0xFED9_1000);
    buf.fix_checksum();

    let info = parse_dmar(&buf.memory(), BASE).unwrap();
    let bases: Vec<u64> = info.iter_units().iter().map(|u| u.register_base).collect();
    assert_eq!(bases, [0xFED9_0000, 0xFED9_1000]);
}

#[test]
fn test_intr_remap_flag_absent() {
    let mut buf = Table::new(b"DMAR", DMAR_HEADER_LEN);
    buf.set_u8(37, 0);
    buf.fix_checksum();

    let info = parse_dmar(&buf.memory(), BASE).unwrap();
    assert!(!info.intr_remap_supported());
}

#[test]
fn surplus_units_are_dropped() {
    let mut buf = Table::new(b"DMAR", DMAR_HEADER_LEN);
    for i in 0..MAX_DRH_UNITS as u64 + 2 {
        buf.append_drhd(0, 0, 0x1000 * (i + 1));
    }
    buf.fix_checksum();
    let info = parse_dmar(&buf.memory(), BASE).unwrap();
    assert_eq!(info.unit_count, MAX_DRH_UNITS);
    assert_eq!(info.units[MAX_DRH_UNITS - 1].unwrap().register_base, 0x8000);
}

// ── Fixed description ────────────────────────────────────────────────────────

fn fadt() -> Table {
    let mut t = Table::new(b"FACP", FADT_MIN_LEN_RESET);
    t.set_u8(8, 2);
    t
}

#[test]
fn test_parse_fadt_null_returns_none() {
    assert!(parse_fadt(&PhysMemory::new(BASE, 256), 0).is_none());
}

#[test]
fn test_parse_fadt_bad_signature() {
    let mut buf = fadt();
    buf.data[0] = b'X';
    buf.fix_checksum();
    assert!(parse_fadt(&buf.memory(), BASE).is_none());
}

#[test]
fn test_parse_fadt_bad_checksum() {
    let mut buf = fadt();
    buf.fix_checksum();
    buf.data[10] ^= 0xFF;
    assert!(parse_fadt(&buf.memory(), BASE).is_none());
}

#[test]
fn test_parse_fadt_too_short() {
    let buf = Table::new(b"FACP", FADT_MIN_LEN_V1 - 1);
    assert!(parse_fadt(&buf.memory(), BASE).is_none());
}

#[test]
fn test_parse_fadt_pm_timer() {
    let mut buf = fadt();
    buf.set_u32(76, 0x0408);
    buf.data[91] = 4;
    buf.fix_checksum();

    let info = parse_fadt(&buf.memory(), BASE).expect("should parse");
    assert_eq!(info.pm_timer_port, 0x0408);
    assert_eq!(info.pm_timer_len, 4);
    assert!(info.pm_timer_valid());
}

#[test]
fn test_pm_timer_invalid_when_len_not_4() {
    let mut buf = fadt();
    buf.set_u32(76, 0x0408);
    buf.data[91] = 2;
    buf.fix_checksum();

    let info = parse_fadt(&buf.memory(), BASE).expect("should parse");
    assert!(!info.pm_timer_valid(), "pm_timer_valid must be false when len != 4");
}

#[test]
fn test_parse_fadt_reset_register() {
    let mut buf = fadt();
    buf.set_u32(112, FLAG_RESET_REG_SUP);
    buf.data[116] = GAS_SPACE_IO;
    buf.set_u64(120, 0x0CF9);
    buf.data[128] = 0x06;
    buf.fix_checksum();

    let info = parse_fadt(&buf.memory(), BASE).expect("should parse");
    assert!(info.reset_supported());
    assert_eq!(info.reset_reg_space, GAS_SPACE_IO);
    assert_eq!(info.reset_reg_addr, 0x0CF9);
    assert_eq!(info.reset_value, 0x06);
}

#[test]
fn test_reset_not_supported_when_flag_absent() {
    let mut buf = fadt();
    buf.set_u32(112, 0);
    buf.set_u64(120, 0x0CF9);
    buf.data[128] = 0x06;
    buf.fix_checksum();

    let info = parse_fadt(&buf.memory(), BASE).expect("should parse");
    assert!(!info.reset_supported());
}

#[test]
fn test_reset_absent_for_v1_table() {
    let mut buf = fadt();
    buf.data[8] = 1;
    buf.set_u32(112, FLAG_RESET_REG_SUP);
    buf.set_u64(120, 0x0CF9);
    buf.data[128] = 0x06;
    buf.fix_checksum();

    let info = parse_fadt(&buf.memory(), BASE).expect("should parse");
    assert_eq!(info.reset_reg_addr, 0, "v1 FADT must not expose reset addr");
    assert!(!info.reset_supported());
}

#[test]
fn test_parse_fadt_zero_pm_port_invalid() {
    let mut buf = fadt();
    buf.data[91] = 4;
    buf.fix_checksum();

    let info = parse_fadt(&buf.memory(), BASE).expect("should parse");
    assert!(!info.pm_timer_valid(), "zero port must be invalid");
}

// ── Event timer ──────────────────────────────────────────────────────────────

/// Where the capability register lies.
const GCI: u64 = BASE + 0x100;

fn hpet(block_id: u32) -> Table {
    let mut t = Table::new(b"HPET", HPET_MIN_LEN);
    t.set_u32(36, block_id);
    t.set_u8(40, 0);
    t.set_u64(44, GCI);
    t
}

/// Memory with a timer table and a capability register with this period.
fn hpet_memory(t: &Table, period_fs: u64) -> PhysMemory {
    let mut bytes = t.data.clone();
    bytes.resize(0x108, 0);
    bytes[0x100..0x108].copy_from_slice(&(period_fs << 32).to_le_bytes());
    PhysMemory::from_bytes(BASE, bytes)
}

#[test]
fn test_parse_hpet_null_returns_none() {
    assert!(parse_hpet(&PhysMemory::new(BASE, 256), 0).is_none());
}

#[test]
fn test_parse_hpet_bad_signature() {
    let mut buf = hpet(0x0000_8102);
    buf.data[0] = b'X';
    buf.fix_checksum();
    assert!(parse_hpet(&hpet_memory(&buf, 100_000), BASE).is_none());
}

#[test]
fn test_parse_hpet_bad_checksum() {
    let mut buf = hpet(0x0000_8102);
    buf.fix_checksum();
    buf.data[10] ^= 0xFF;
    assert!(parse_hpet(&hpet_memory(&buf, 100_000), BASE).is_none());
}

#[test]
fn test_parse_hpet_too_short() {
    let buf = Table::new(b"HPET", HPET_MIN_LEN - 1);
    assert!(parse_hpet(&buf.memory(), BASE).is_none());
}

#[test]
fn test_parse_hpet_non_memory_gas_rejected() {
    let mut buf = hpet(0x0000_8102);
    buf.data[40] = 1;
    buf.fix_checksum();
    assert!(parse_hpet(&hpet_memory(&buf, 100_000), BASE).is_none());
}

#[test]
fn test_parse_hpet_zero_period_rejected() {
    let mut buf = hpet(0x0000_8102);
    buf.fix_checksum();
    assert!(parse_hpet(&hpet_memory(&buf, 0), BASE).is_none());
}

#[test]
fn test_parse_hpet_period_too_large_rejected() {
    let mut buf = hpet(0x0000_8102);
    buf.fix_checksum();
    assert!(parse_hpet(&hpet_memory(&buf, 0x05F5_E101), BASE).is_none());
}

#[test]
fn test_parse_hpet_valid_10mhz() {
    let block_id: u32 = 0x01 | (2 << 8) | (1 << 13);
    let mut buf = hpet(block_id);
    buf.fix_checksum();

    let info = parse_hpet(&hpet_memory(&buf, 100_000), BASE).expect("valid 10 MHz HPET");
    assert_eq!(info.period_fs, 100_000);
    assert_eq!(info.timer_count, 3);
    assert!(info.counter_64bit);
    assert_eq!(info.hardware_rev, 1);
}

#[test]
fn test_parse_hpet_valid_14mhz() {
    let block_id: u32 = 0x01 | (4 << 8);
    let mut buf = hpet(block_id);
    buf.fix_checksum();

    let info = parse_hpet(&hpet_memory(&buf, 69_841), BASE).expect("valid 14.318 MHz HPET");
    assert_eq!(info.period_fs, 69_841);
    assert_eq!(info.timer_count, 5);
    assert!(!info.counter_64bit);
}

#[test]
fn test_parse_hpet_period_at_boundary_accepted() {
    let block_id: u32 = 0x02 | (2 << 8) | (1 << 13);
    let mut buf = hpet(block_id);
    buf.fix_checksum();
    assert!(parse_hpet(&hpet_memory(&buf, 0x05F5_E100), BASE).is_some());
}

#[test]
fn timer_registers_are_found_without_reading_them() {
    let mut buf = hpet(0);
    buf.fix_checksum();
    let mem = hpet_memory(&buf, 0);
    assert_eq!(hpet_mmio_base(&mem, BASE), Some(GCI));
    assert_eq!(hpet_mmio_base(&mem, 0), None);
    assert_eq!(hpet_mmio_base(&mem, BASE + 4), None);
    buf.set_u64(44, 0);
    assert_eq!(hpet_mmio_base(&buf.memory(), BASE), None);
}

// ── Finding tables ───────────────────────────────────────────────────────────

const ROOT: usize = 0x100;
const MADT: usize = 0x200;
const FADT: usize = 0x300;

/// Memory with a root pointer at `BASE` and a root table that lists an
/// interrupt controller table and a fixed description table.
fn rooted(revision: u8) -> PhysMemory {
    let wide = revision >= 2;
    let mut root = Table::new(if wide { b"XSDT" } else { b"RSDT" }, 36);
    for off in [MADT, FADT] {
        let addr = BASE + off as u64;
        if wide {
            root.append(&addr.to_le_bytes());
        } else {
            root.append(&(addr as u32).to_le_bytes());
        }
    }
    root.fix_checksum();
    let mut fadt = fadt();
    fadt.fix_checksum();

    let mut bytes = vec![0u8; 0x400];
    bytes[..8].copy_from_slice(b"RSD PTR ");
    bytes[15] = revision;
    if wide {
        bytes[24..32].copy_from_slice(&(BASE + ROOT as u64).to_le_bytes());
    } else {
        bytes[16..20].copy_from_slice(&((BASE + ROOT as u64) as u32).to_le_bytes());
    }
    let sum = bytes[..20].iter().fold(0u8, |a, &b| a.wrapping_add(b));
    bytes[8] = 0u8.wrapping_sub(sum);
    let sum = bytes[..36].iter().fold(0u8, |a, &b| a.wrapping_add(b));
    bytes[32] = 0u8.wrapping_sub(sum);
    bytes[ROOT..ROOT + root.data.len()].copy_from_slice(&root.data);
    let madt = build_test_madt();
    bytes[MADT..MADT + madt.data.len()].copy_from_slice(&madt.data);
    bytes[FADT..FADT + fadt.data.len()].copy_from_slice(&fadt.data);
    PhysMemory::from_bytes(BASE, bytes)
}

#[test]
fn tables_are_found_through_either_root() {
    for revision in [0, 2] {
        let mem = rooted(revision);
        assert_eq!(find_madt(&mem, BASE), Some(BASE + MADT as u64));
        assert_eq!(find_fadt(&mem, BASE), Some(BASE + FADT as u64));
        assert_eq!(find_dmar(&mem, BASE), None);
        assert_eq!(find_hpet(&mem, BASE), None);
        assert_eq!(find_madt(&mem, 0), None);
    }
    assert_eq!(find_madt_via_xsdt(&rooted(2), BASE + ROOT as u64), Some(BASE + MADT as u64));
    assert_eq!(find_madt_via_rsdt(&rooted(0), BASE + ROOT as u64), Some(BASE + MADT as u64));
}

#[test]
fn damaged_root_pointer_is_refused() {
    let mut mem = rooted(2);
    mem.bytes[0] = b'X';
    assert_eq!(find_madt(&mem, BASE), None);
}
