use rost::apic::ioapic::{self, masked_entry, redirect_entry, route_irq, IndirectWrite};
use rost::apic::lapic::{
    arm_oneshot, calibrate_lapic_timer_10ms, countdown_writes, enable_writes, init,
    lvt_timer_value, reference_expired, reference_ports, svr_value, Lapic, RegisterWrite,
};

#[test]
fn test_redirect_entry_vector() {
    let e = redirect_entry(32, 0);
    assert_eq!(e & 0xFF, 32, "vector in bits[7:0]");
}

#[test]
fn test_redirect_entry_apic_id() {
    let e = redirect_entry(32, 5);
    assert_eq!((e >> 56) & 0xFF, 5, "dest apic_id in bits[63:56]");
}

#[test]
fn test_redirect_entry_unmasked() {
    let e = redirect_entry(32, 0);
    assert_eq!(e & (1 << 16), 0, "new entry must be unmasked");
}

#[test]
fn test_masked_entry() {
    let e = masked_entry();
    assert_ne!(e & (1 << 16), 0, "masked entry must have mask bit set");
    assert_eq!(e & 0xFF, 0, "vector field must be zero");
}

#[test]
fn test_svr_value() {
    let v = svr_value(0xFF);
    assert_eq!(v & (1 << 8), 1 << 8, "SW-enable bit must be set");
    assert_eq!(v & 0xFF, 0xFF, "spurious vector must be in bits[7:0]");
    assert_eq!(v, 0x1FF);
}

#[test]
fn test_lvt_timer_periodic() {
    let p = lvt_timer_value(32, true);
    assert_eq!(p & 0xFF, 32, "vector must be 32");
    assert!(p & (1 << 17) != 0, "periodic bit must be set");

    let o = lvt_timer_value(32, false);
    assert_eq!(o & 0xFF, 32, "vector must be 32");
    assert!(o & (1 << 17) == 0, "periodic bit must be clear for one-shot");
}

#[test]
fn test_svr_enable_bit_independent_of_vector() {
    for v in [0x00u8, 0x20, 0xFF] {
        let svr = svr_value(v);
        assert!(svr & (1 << 8) != 0, "SW-enable must be set for any vector");
    }
}

#[test]
fn io_apic_masks_every_entry() {
    // Entry 23 is the last one.
    let writes = ioapic::init(0xFEC0_0000, 0x0017_0011);
    assert_eq!(writes.len(), 48);
    assert_eq!(writes[0], IndirectWrite { reg: 0x10, value: 0x1_0000 });
    assert_eq!(writes[1], IndirectWrite { reg: 0x11, value: 0 });
    assert_eq!(writes[46], IndirectWrite { reg: 0x3E, value: 0x1_0000 });
    assert_eq!(writes[47], IndirectWrite { reg: 0x3F, value: 0 });
    assert!(ioapic::init(0, 0x0017_0011).is_empty());
}

#[test]
fn io_apic_routes_upper_half_first() {
    let writes = route_irq(0xFEC0_0000, 4, 36, 2).unwrap();
    assert_eq!(writes[0], IndirectWrite { reg: 0x19, value: 0x0200_0000 });
    assert_eq!(writes[1], IndirectWrite { reg: 0x18, value: 36 });
    assert!(route_irq(0, 4, 36, 2).is_none());
}

#[test]
fn lapic_is_enabled_with_masked_lines() {
    let writes = enable_writes(0xFEE0_0000).unwrap();
    assert_eq!(writes[0], RegisterWrite { addr: 0xFEE0_00F0, value: 0x1FF });
    assert_eq!(writes[1], RegisterWrite { addr: 0xFEE0_0080, value: 0 });
    assert_eq!(writes[2], RegisterWrite { addr: 0xFEE0_0350, value: 0x1_0000 });
    assert_eq!(writes[3], RegisterWrite { addr: 0xFEE0_0360, value: 0x1_0000 });
    assert_eq!(writes[4], RegisterWrite { addr: 0xFEE0_0370, value: 0x1_0000 });
    assert!(enable_writes(0).is_none());
}

#[test]
fn lapic_init_starts_one_tick() {
    let mut lapic = Lapic::new();
    assert!(init(&mut lapic, 0, 500).is_none());
    assert_eq!(lapic, Lapic::new());

    let writes = init(&mut lapic, 0xFEE0_0000, 500).unwrap();
    assert_eq!(
        lapic,
        Lapic { base: 0xFEE0_0000, icr_per_tick: 500, eoi_addr: 0xFEE0_00B0 }
    );
    assert_eq!(writes[0], RegisterWrite { addr: 0xFEE0_03E0, value: 3 });
    assert_eq!(writes[1], RegisterWrite { addr: 0xFEE0_0320, value: 32 });
    assert_eq!(writes[2], RegisterWrite { addr: 0xFEE0_0380, value: 500 });
}

#[test]
fn lapic_init_falls_back_without_measurement() {
    let mut lapic = Lapic::new();
    let writes = init(&mut lapic, 0xFEE0_0000, 0).unwrap();
    assert_eq!(lapic.icr_per_tick, 0x0010_0000);
    assert_eq!(writes[2].value, 0x0010_0000);
}

#[test]
fn lapic_oneshot_is_clamped() {
    let lapic = Lapic { base: 0x1000, icr_per_tick: 500, eoi_addr: 0x10B0 };
    assert_eq!(arm_oneshot(&lapic, 3), Some(RegisterWrite { addr: 0x1380, value: 1500 }));
    assert_eq!(arm_oneshot(&lapic, 0), Some(RegisterWrite { addr: 0x1380, value: 1 }));
    assert_eq!(
        arm_oneshot(&lapic, u32::MAX),
        Some(RegisterWrite { addr: 0x1380, value: u32::MAX })
    );
    assert_eq!(arm_oneshot(&Lapic::new(), 3), None);
    assert_eq!(arm_oneshot(&Lapic { icr_per_tick: 0, ..lapic }, 3), None);
}

#[test]
fn lapic_calibration() {
    assert_eq!(
        reference_ports(0xFE),
        [(0x61, 0xFD), (0x43, 0xB0), (0x42, 0x9B), (0x42, 0x2E)]
    );
    let writes = countdown_writes(0x1000);
    assert_eq!(writes[0], RegisterWrite { addr: 0x13E0, value: 3 });
    assert_eq!(writes[1], RegisterWrite { addr: 0x1380, value: 0xFFFF_FFFF });
    assert!(reference_expired(0x20));
    assert!(!reference_expired(0xDF));
    assert_eq!(calibrate_lapic_timer_10ms(Some(0xFFFF_0000)), 0xFFFF);
    assert_eq!(calibrate_lapic_timer_10ms(None), 0);
}
