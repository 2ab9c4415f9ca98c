use rost::bytes::{get_u16, get_u32, get_u64, put_u64, zero_range};
use rost::polling::{Poll, PollStep};
use rost::uart::{
    armed, disarmed, init, interrupt_cause, print_dec, print_hex, print_mib, print_padded_u8,
    print_str, put_byte, put_char, tx_isr, Cause, TxAction, TxRing,
};
use rost::watchdog;

#[test]
fn idle_port_takes_bytes_at_once() {
    let mut ring = TxRing::new();
    assert_eq!(put_byte(&mut ring, 1, true), TxAction::SendAndArm(1));
    assert_eq!(put_byte(&mut ring, 2, false), TxAction::Arm);
    assert_eq!(put_byte(&mut ring, 3, true), TxAction::SendAndArm(2));
    assert_eq!(put_char(&mut ring, 'A', false), TxAction::Arm);
    assert_eq!(tx_isr(&mut ring), Some(3));
    assert_eq!(tx_isr(&mut ring), Some(b'A'));
    assert_eq!(tx_isr(&mut ring), None);
}

#[test]
fn full_queue_drops_bytes() {
    let mut ring = TxRing::new();
    for i in 0..255u32 {
        assert_eq!(put_byte(&mut ring, i as u8, false), TxAction::Arm);
    }
    assert_eq!(put_byte(&mut ring, 99, true), TxAction::Drop);
    for i in 0..255u32 {
        assert_eq!(tx_isr(&mut ring), Some(i as u8));
    }
    assert_eq!(tx_isr(&mut ring), None);
    // The indices have wrapped around.
    assert_eq!(put_byte(&mut ring, 7, false), TxAction::Arm);
    assert_eq!(put_byte(&mut ring, 8, false), TxAction::Arm);
    assert_eq!(tx_isr(&mut ring), Some(7));
    assert_eq!(tx_isr(&mut ring), Some(8));
}

#[test]
fn interrupt_enable_register() {
    assert_eq!(armed(0x01), 0x03);
    assert_eq!(disarmed(0x03), 0x01);
    assert_eq!(disarmed(0x01), 0x01);
}

#[test]
fn port_is_set_up() {
    let writes = init();
    assert_eq!(writes[0], (0x3F9, 0x01));
    assert_eq!(writes[5], (0x3FA, 0xC7));
    assert_eq!(writes[6], (0x3FC, 0x0B));
}

#[test]
fn numbers_are_printed() {
    assert_eq!(print_dec(0), b"0");
    assert_eq!(print_dec(1234567890), b"1234567890");
    assert_eq!(print_dec(u64::MAX), b"18446744073709551615");
    assert_eq!(print_hex(0xDEAD_BEEF), b"0x00000000DEADBEEF");
    assert_eq!(print_padded_u8(7), b"07");
    assert_eq!(print_padded_u8(42), b"42");
    assert_eq!(print_padded_u8(123), b"123");
    assert_eq!(print_mib(3 * 1024 * 1024 + 5), b"3");
    assert_eq!(print_str("h\u{e9}"), "h\u{e9}".as_bytes());
}

#[test]
fn watchdog_timeouts() {
    assert_eq!(watchdog::timeout_index(30), 0);
    assert_eq!(watchdog::timeout_index(10), 10);
    assert_eq!(watchdog::timeout_index(9), 10);
    assert_eq!(watchdog::timeout_index(0), 15);
    assert_eq!(watchdog::timeout_index(200), 0);
    assert_eq!(watchdog::init(10), (0x441, 10));
    assert_eq!(watchdog::kick(), (0x441, 0));
    assert_eq!(watchdog::disable(), (0x443, 0));
}

#[test]
fn waiting_ends() {
    let mut poll = Poll::new();
    assert_eq!(poll.step(true), PollStep::Ready);
    for _ in 0..99_999 {
        assert_eq!(poll.step(false), PollStep::Again);
    }
    assert_eq!(poll.step(false), PollStep::TimedOut);
}

#[test]
fn little_endian_words() {
    let mut bytes = vec![0u8; 12];
    put_u64(&mut bytes, 2, 0x0102_0304_0506_0708);
    assert_eq!(bytes, [0, 0, 8, 7, 6, 5, 4, 3, 2, 1, 0, 0]);
    assert_eq!(get_u64(&bytes, 2), 0x0102_0304_0506_0708);
    assert_eq!(get_u32(&bytes, 4), 0x0304_0506);
    assert_eq!(get_u16(&bytes, 9), 1);
    zero_range(&mut bytes, 3, 5);
    assert_eq!(bytes, [0, 0, 8, 0, 0, 0, 0, 0, 2, 1, 0, 0]);
}

#[test]
fn interrupts_have_a_cause() {
    assert_eq!(interrupt_cause(0xC1), Cause::Nothing);
    assert_eq!(interrupt_cause(0xC2), Cause::Transmit);
    assert_eq!(interrupt_cause(0x04), Cause::Receive);
    assert_eq!(interrupt_cause(0xCC), Cause::Receive);
    assert_eq!(interrupt_cause(0x06), Cause::Other);
}
