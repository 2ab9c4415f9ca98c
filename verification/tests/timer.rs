use rost::timer::pit;
use rost::timer::tsc::{
    calibrate, compute_khz, hpet_ticks_per_ms, khz, tsc_to_ns, Calibration, CalibrationStep, Tsc,
};

#[test]
fn test_compute_khz_basic() {
    let tsc_delta = 30_000_000u64;
    assert_eq!(compute_khz(tsc_delta, 10), 3_000_000);
}

#[test]
fn test_compute_khz_zero_duration() {
    assert_eq!(compute_khz(1_000_000, 0), 0);
}

#[test]
fn test_compute_khz_1ghz() {
    let tsc_delta = 10_000_000u64;
    assert_eq!(compute_khz(tsc_delta, 10), 1_000_000);
}

#[test]
fn test_hpet_ticks_per_ms_10mhz() {
    assert_eq!(hpet_ticks_per_ms(1, 100_000), 10_000);
}

#[test]
fn test_hpet_ticks_per_ms_10ms_window() {
    assert_eq!(hpet_ticks_per_ms(10, 100_000), 100_000);
}

#[test]
fn test_hpet_ticks_per_ms_14mhz() {
    let ticks = hpet_ticks_per_ms(10, 69_841);
    // Integer division may be off by a little.
    assert!((143_180..=143_184).contains(&ticks), "expected ~143182, got {ticks}");
}

#[test]
fn test_hpet_ticks_per_ms_zero_period() {
    assert_eq!(hpet_ticks_per_ms(10, 0), 0);
}

#[test]
fn test_tsc_to_ns_zero_before_calibration() {
    let tsc = Tsc::new();
    assert_eq!(tsc_to_ns(&tsc, 1_000_000), 0);
}

#[test]
fn test_tsc_to_ns_3ghz() {
    let tsc = Tsc { khz: 3_000_000 };
    let ns = tsc_to_ns(&tsc, 3_000_000);
    assert_eq!(ns, 1_000_000, "3M ticks at 3GHz must be 1ms");
}

#[test]
fn calibration_needs_a_plausible_timer() {
    assert_eq!(calibrate(0xFED0_0000, 100_000_000), Some(100_000));
    assert_eq!(calibrate(0, 100_000_000), None);
    assert_eq!(calibrate(0xFED0_0000, 0), None);
    assert_eq!(calibrate(0xFED0_0000, 10_000_000_000_001), None);
}

#[test]
fn calibration_measures_over_a_wrap() {
    let mut tsc = Tsc::new();
    assert_eq!(khz(&tsc), 0);
    let mut c = Calibration::start(100_000, u64::MAX - 9, u64::MAX - 99);
    assert_eq!(c.step(u64::MAX), CalibrationStep::Again);
    assert_eq!(c.step(99_989), CalibrationStep::Again);
    assert_eq!(c.step(99_990), CalibrationStep::Over);
    c.finish(&mut tsc, 29_999_900);
    assert_eq!(khz(&tsc), 3_000_000);
    assert_eq!(tsc_to_ns(&tsc, u64::MAX), (u64::MAX as u128 * 1_000_000 / 3_000_000) as u64);
}

#[test]
fn calibration_gives_up_on_a_stuck_timer() {
    let mut c = Calibration::start(3, 7, 0);
    assert_eq!(c.left, 1_000_000);
    let mut reads = 1;
    while c.step(7) == CalibrationStep::Again {
        reads += 1;
    }
    assert_eq!(reads, 1_000_000);
    assert_eq!(c.step(7), CalibrationStep::Stuck);
    assert_eq!(Calibration::start(1_000_000, 0, 0).left, 2_000_000);
    assert_eq!(Calibration::start(u64::MAX, 0, 0).left, u64::MAX);
}

#[test]
fn interval_timer_ticks_a_hundred_times_a_second() {
    assert_eq!(pit::init(), [(0x43, 0x34), (0x40, 0x9B), (0x40, 0x2E)]);
}

#[test]
fn legacy_controllers_are_remapped_and_masked() {
    let writes = pit::configure_pic();
    assert_eq!(writes[0], (0x20, 0x11));
    assert_eq!(writes[2], (0x21, 0x20));
    assert_eq!(writes[3], (0xA1, 0x28));
    assert_eq!(writes[9], (0xA1, 0x00));
    assert_eq!(pit::pic_mask_all(), [(0x21, 0xFF), (0xA1, 0xFF)]);
}
