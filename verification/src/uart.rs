//! Serial port: transmit queue and number formatting.

use vstd::prelude::*;

verus! {

/// Bytes of the transmit buffer; one of them is never used.
pub const TX_BUF_SIZE: usize = 256;

/// Bytes the receive queue of the hardware holds.
pub const RX_FIFO_DEPTH: usize = 16;

/// The transmit register is empty.
pub const IIR_THRE: u8 = 0x02;

/// A byte was received.
pub const IIR_RDA: u8 = 0x04;

/// Received bytes have been waiting.
pub const IIR_CTI: u8 = 0x0C;

/// No interrupt is pending.
pub const IIR_NONE: u8 = 0x01;

/// Line status: a byte can be read.
pub const LSR_DR: u8 = 0x01;

/// Line status: a byte can be written.
pub const LSR_THRE: u8 = 0x20;

/// Interrupt enable: received bytes.
pub const IER_ERBFI: u8 = 0x01;

/// Interrupt enable: empty transmit register.
pub const IER_ETBEI: u8 = 0x02;

/// First port of the serial interface.
pub const COM1: u16 = 0x3F8;

/// Ring of bytes waiting to be transmitted. The indices wrap around at the
/// size of the buffer.
#[derive(Debug)]
pub struct TxRing {
    pub buf: [u8; TX_BUF_SIZE],
    /// Where the next byte goes.
    pub head: u8,
    /// Where the next byte comes from.
    pub tail: u8,
}

/// Number of bytes between `tail` and `head`.
pub open spec fn ring_len(head: u8, tail: u8) -> int {
    if head >= tail {
        head - tail
    } else {
        head - tail + 256
    }
}

/// Position `i` places after `tail`.
pub open spec fn ring_at(tail: u8, i: int) -> int {
    if tail + i < 256 {
        tail + i
    } else {
        tail + i - 256
    }
}

impl View for TxRing {
    type V = Seq<u8>;

    /// The waiting bytes, oldest first.
    open spec fn view(&self) -> Seq<u8> {
        Seq::new(ring_len(self.head, self.tail) as nat, |i: int| self.buf@[ring_at(self.tail, i)])
    }
}

/// What to do about the hardware after a byte was queued.
#[derive(Copy, Clone, Debug, PartialEq, Eq, Structural)]
pub enum TxAction {
    /// The queue was full: nothing.
    Drop,
    /// Enable the transmit interrupt.
    Arm,
    /// Write this byte and enable the transmit interrupt.
    SendAndArm(u8),
}

/// The queue, and what to do, after `byte` is put. `idle` tells whether the
/// hardware can take a byte at once.
pub open spec fn put(queue: Seq<u8>, byte: u8, idle: bool) -> (Seq<u8>, TxAction) {
    if queue.len() >= TX_BUF_SIZE - 1 {
        (queue, TxAction::Drop)
    } else if idle {
        (queue.push(byte).drop_first(), TxAction::SendAndArm(queue.push(byte)[0]))
    } else {
        (queue.push(byte), TxAction::Arm)
    }
}

/// The queue after `bytes` are put one after the other while the hardware is
/// busy.
pub open spec fn queued(queue: Seq<u8>, bytes: Seq<u8>) -> Seq<u8>
    decreases bytes.len(),
{
    if bytes.len() == 0 {
        queue
    } else {
        put(queued(queue, bytes.drop_last()), bytes.last(), false).0
    }
}

/// As long as there is room, bytes wait in the order in which they were put.
pub proof fn law_bytes_keep_their_order(queue: Seq<u8>, bytes: Seq<u8>)
    requires
        queue.len() + bytes.len() < TX_BUF_SIZE,
    ensures
        queued(queue, bytes) == queue + bytes,
    decreases bytes.len(),
{
    if bytes.len() == 0 {
        assert(queue + bytes =~= queue);
    } else {
        law_bytes_keep_their_order(queue, bytes.drop_last());
        assert(queue + bytes =~= (queue + bytes.drop_last()).push(bytes.last()));
    }
}

/// A byte that is put is either dropped because the queue is full, or the bytes
/// that go out and the bytes that wait are those that waited before and the
/// new one, in this order.
pub proof fn law_no_byte_is_lost(queue: Seq<u8>, byte: u8, idle: bool)
    ensures
        match put(queue, byte, idle) {
            (after, TxAction::Drop) => queue.len() >= TX_BUF_SIZE - 1 && after == queue,
            (after, TxAction::Arm) => after == queue.push(byte),
            (after, TxAction::SendAndArm(sent)) => seq![sent] + after == queue.push(byte),
        },
{
    if let TxAction::SendAndArm(sent) = put(queue, byte, idle).1 {
        assert(seq![sent] + put(queue, byte, idle).0 =~= queue.push(byte));
    }
}

impl TxRing {
    pub fn new() -> (r: Self)
        ensures
            r@ == Seq::<u8>::empty(),
            r.head == 0,
            r.tail == 0,
            forall|i: int| 0 <= i < TX_BUF_SIZE ==> #[trigger] r.buf@[i] == 0,
    {
        let r = TxRing { buf: [0;TX_BUF_SIZE], head: 0, tail: 0 };
        assert(r@ =~= Seq::<u8>::empty());
        r
    }
}

/// Takes the oldest waiting byte.
fn pop(ring: &mut TxRing) -> (r: u8)
    requires
        old(ring)@.len() > 0,
    ensures
        r == old(ring)@[0],
        final(ring)@ == old(ring)@.drop_first(),
{
    let b: u8 = ring.buf[ring.tail as usize];
    ring.tail = ring.tail.wrapping_add(1);
    assert(ring@ =~= old(ring)@.drop_first());
    b
}

/// Queues `byte` for transmission. It is dropped if the queue is full. If the
/// hardware is idle, the oldest byte has to be written at once.
pub fn put_byte(ring: &mut TxRing, byte: u8, idle: bool) -> (r: TxAction)
    ensures
        (final(ring)@, r) == put(old(ring)@, byte, idle),
{
    let head: u8 = ring.head;
    let next: u8 = head.wrapping_add(1);
    if next == ring.tail {
        return TxAction::Drop;
    }
    ring.buf[head as usize] = byte;
    ring.head = next;
    assert(ring@ =~= old(ring)@.push(byte));
    if idle {
        let b: u8 = pop(ring);
        return TxAction::SendAndArm(b);
    }
    TxAction::Arm
}

/// Queues the low byte of a character.
pub fn put_char(ring: &mut TxRing, c: char, idle: bool) -> (r: TxAction)
    ensures
        (final(ring)@, r) == put(old(ring)@, c as u8, idle),
{
    put_byte(ring, c as u8, idle)
}

/// The byte to write when the transmit register is empty. `None` if there is
/// none: the transmit interrupt is to be disabled.
pub fn tx_isr(ring: &mut TxRing) -> (r: Option<u8>)
    ensures
        old(ring)@.len() == 0 ==> r is None && final(ring)@ == old(ring)@,
        old(ring)@.len() > 0 ==> r == Some(old(ring)@[0]) && final(ring)@
            == old(ring)@.drop_first(),
{
    if ring.tail == ring.head {
        return None;
    }
    Some(pop(ring))
}

/// The interrupt enable register with the transmit interrupt enabled.
pub fn armed(ier: u8) -> (r: u8)
    ensures
        r == ier | IER_ETBEI,
{
    ier | IER_ETBEI
}

/// The interrupt enable register with the transmit interrupt disabled.
pub fn disarmed(ier: u8) -> (r: u8)
    ensures
        r == ier & !IER_ETBEI,
{
    ier & !IER_ETBEI
}

/// The register writes that set the port up: 115200 baud, eight bits, no
/// parity, one stop bit, receive interrupt enabled.
pub fn init() -> (r: [(u16, u8); 7])
    ensures
        r@ == seq![
            (0x3F9u16, IER_ERBFI),
            (0x3FBu16, 0x80u8),
            (0x3F8u16, 0x01u8),
            (0x3F9u16, 0x00u8),
            (0x3FBu16, 0x03u8),
            (0x3FAu16, 0xC7u8),
            (0x3FCu16, 0x0Bu8),
        ],
{
    let r: [(u16, u8); 7] = [
        (COM1 + 1, IER_ERBFI),
        (COM1 + 3, 0x80),
        (COM1, 0x01),
        (COM1 + 1, 0x00),
        (COM1 + 3, 0x03),
        (COM1 + 2, 0xC7),
        (COM1 + 4, 0x0B),
    ];
    assert(r@ =~= seq![
        (0x3F9u16, IER_ERBFI),
        (0x3FBu16, 0x80u8),
        (0x3F8u16, 0x01u8),
        (0x3F9u16, 0x00u8),
        (0x3FBu16, 0x03u8),
        (0x3FAu16, 0xC7u8),
        (0x3FCu16, 0x0Bu8),
    ]);
    r
}

// ── Formatting ───────────────────────────────────────────────────────────────
/// The decimal digits of `n`, as ASCII, without leading zeros.
pub open spec fn dec_digits(n: nat) -> Seq<u8>
    decreases n,
{
    if n < 10 {
        seq![(0x30 + n) as u8]
    } else {
        dec_digits(n / 10).push((0x30 + n % 10) as u8)
    }
}

/// `dec_digits` of 0 as the empty sequence.
spec fn dec_tail(n: nat) -> Seq<u8> {
    if n == 0 {
        Seq::empty()
    } else {
        dec_digits(n)
    }
}

/// The number that a sequence of decimal digits stands for.
pub open spec fn dec_value(digits: Seq<u8>) -> nat
    decreases digits.len(),
{
    if digits.len() == 0 {
        0
    } else {
        dec_value(digits.drop_last()) * 10 + (digits.last() - 0x30) as nat
    }
}

/// Reading a printed number gives the number.
pub proof fn law_printed_number_reads_back(n: nat)
    ensures
        dec_value(dec_digits(n)) == n,
        dec_digits(n).len() > 0,
    decreases n,
{
    reveal_with_fuel(dec_value, 2);
    if n < 10 {
        assert(dec_digits(n).drop_last() =~= Seq::<u8>::empty());
    } else {
        law_printed_number_reads_back(n / 10);
        assert(dec_digits(n).drop_last() =~= dec_digits(n / 10));
    }
}

/// The ASCII character of a hexadecimal digit.
pub open spec fn hex_digit(d: int) -> u8 {
    if d < 10 {
        (0x30 + d) as u8
    } else {
        (0x41 + d - 10) as u8
    }
}

/// The `n` low hexadecimal digits of `v`, most significant first.
pub open spec fn hex_digits(v: nat, n: nat) -> Seq<u8>
    decreases n,
{
    if n == 0 {
        Seq::empty()
    } else {
        hex_digits(v / 16, (n - 1) as nat).push(hex_digit(v as int % 16))
    }
}

/// The bytes of `s`.
pub fn print_str(s: &str) -> (r: Vec<u8>)
    ensures
        r@ == vstd::utf8::encode_utf8(s@),
{
    let mut out: Vec<u8> = Vec::new();
    out.extend_from_slice(s.as_bytes());
    assert(out@ =~= vstd::utf8::encode_utf8(s@));
    out
}

/// The decimal digits of `val`.
pub fn print_dec(val: u64) -> (r: Vec<u8>)
    ensures
        r@ == dec_digits(val as nat),
{
    let mut out: Vec<u8> = Vec::new();
    if val == 0 {
        out.push(0x30);
        assert(out@ =~= dec_digits(0));
        return out;
    }
    let mut reversed: Vec<u8> = Vec::new();
    let mut n: u64 = val;
    assert(dec_tail(val as nat) + reversed@.reverse() =~= dec_digits(val as nat));
    while n > 0
        invariant
            dec_tail(n as nat) + reversed@.reverse() == dec_digits(val as nat),
        decreases n,
    {
        let digit: u8 = 0x30 + (n % 10) as u8;
        proof {
            let before = reversed@;
            let m = n as nat;
            assert(before.push(digit).reverse() =~= seq![digit] + before.reverse());
            assert(dec_tail(m) =~= dec_tail(m / 10).push(digit));
            assert(dec_tail(m) + before.reverse() =~= dec_tail(m / 10) + (seq![digit]
                + before.reverse()));
        }
        reversed.push(digit);
        n = n / 10;
    }
    assert(dec_tail(0) + reversed@.reverse() =~= reversed@.reverse());
    let mut i: usize = reversed.len();
    while i > 0
        invariant
            i <= reversed@.len(),
            out@ =~= reversed@.reverse().take(reversed@.len() - i),
        decreases i,
    {
        i = i - 1;
        out.push(reversed[i]);
    }
    assert(reversed@.reverse().take(reversed@.len() as int) =~= reversed@.reverse());
    out
}

/// A byte as two decimal digits, or more if it needs them.
pub fn print_padded_u8(n: u8) -> (r: Vec<u8>)
    ensures
        r@ == if n < 10 {
            seq![0x30u8] + dec_digits(n as nat)
        } else {
            dec_digits(n as nat)
        },
{
    let mut digits = print_dec(n as u64);
    if n < 10 {
        let mut out: Vec<u8> = Vec::new();
        out.push(0x30);
        out.append(&mut digits);
        assert(out@ =~= seq![0x30u8] + dec_digits(n as nat));
        return out;
    }
    digits
}

/// The number of whole mebibytes in `bytes`, in decimal digits.
pub fn print_mib(bytes: u64) -> (r: Vec<u8>)
    ensures
        r@ == dec_digits(bytes as nat / 0x10_0000),
{
    print_dec(bytes / 0x10_0000)
}

/// `val` as `0x` and sixteen hexadecimal digits.
pub open spec fn hex_text(val: u64) -> Seq<u8> {
    seq![0x30u8, 0x78u8] + hex_digits(val as nat, 16)
}

/// `val` as `0x` and sixteen hexadecimal digits.
pub fn print_hex(val: u64) -> (r: Vec<u8>)
    ensures
        r@ == hex_text(val),
{
    let mut reversed: Vec<u8> = Vec::new();
    let mut n: u64 = val;
    let mut left: usize = 16;
    assert(hex_digits(val as nat, 16) + reversed@.reverse() =~= hex_digits(val as nat, 16));
    while left > 0
        invariant
            left <= 16,
            reversed@.len() == 16 - left,
            hex_digits(n as nat, left as nat) + reversed@.reverse() == hex_digits(val as nat, 16),
        decreases left,
    {
        let d: u8 = (n % 16) as u8;
        let c: u8 = if d < 10 {
            0x30 + d
        } else {
            0x41 + (d - 10)
        };
        proof {
            let before = reversed@;
            let m = n as nat;
            let rest = hex_digits(m / 16, (left - 1) as nat);
            assert(before.push(c).reverse() =~= seq![c] + before.reverse());
            assert(hex_digits(m, left as nat) == rest.push(c));
            assert(rest.push(c) + before.reverse() =~= rest + (seq![c] + before.reverse()));
        }
        reversed.push(c);
        n = n / 16;
        left = left - 1;
    }
    assert(hex_digits(n as nat, 0) + reversed@.reverse() =~= reversed@.reverse());
    let mut out: Vec<u8> = Vec::new();
    out.push(0x30);
    out.push(0x78);
    let mut i: usize = reversed.len();
    while i > 0
        invariant
            i <= reversed@.len(),
            out@ =~= seq![0x30u8, 0x78u8] + reversed@.reverse().take(reversed@.len() - i),
        decreases i,
    {
        i = i - 1;
        out.push(reversed[i]);
    }
    assert(reversed@.reverse().take(reversed@.len() as int) =~= reversed@.reverse());
    out
}

// ── Interrupts ───────────────────────────────────────────────────────────────
/// Why the serial port interrupts.
#[derive(Copy, Clone, Debug, PartialEq, Eq, Structural)]
pub enum Cause {
    /// No interrupt is pending.
    Nothing,
    /// The port can take a byte.
    Transmit,
    /// Bytes were received.
    Receive,
    Other,
}

/// What the low four bits of the interrupt identification register tell.
pub open spec fn cause(iir: u8) -> Cause {
    if iir % 2 == IIR_NONE {
        Cause::Nothing
    } else if iir % 16 == IIR_THRE {
        Cause::Transmit
    } else if iir % 16 == IIR_RDA || iir % 16 == IIR_CTI {
        Cause::Receive
    } else {
        Cause::Other
    }
}

/// Why the serial port interrupts, given its interrupt identification register.
pub fn interrupt_cause(iir: u8) -> (r: Cause)
    ensures
        r == cause(iir),
{
    let kind: u8 = iir % 16;
    if iir % 2 == IIR_NONE {
        Cause::Nothing
    } else if kind == IIR_THRE {
        Cause::Transmit
    } else if kind == IIR_RDA || kind == IIR_CTI {
        Cause::Receive
    } else {
        Cause::Other
    }
}

/// A byte that finds room goes out at once if the hardware is idle, and waits
/// for the transmit interrupt otherwise. A byte is dropped only when 255 bytes
/// wait already.
pub proof fn law_idle_hardware_sends_at_once(queue: Seq<u8>, byte: u8, idle: bool)
    ensures
        put(queue, byte, idle).1 is SendAndArm <==> idle && queue.len() < 255,
        put(queue, byte, idle).1 is Arm <==> !idle && queue.len() < 255,
        queue.len() == 0 && idle ==> put(queue, byte, idle) == (
            Seq::<u8>::empty(),
            TxAction::SendAndArm(byte),
        ),
{
    if queue.len() == 0 && idle {
        assert(put(queue, byte, idle).0 =~= Seq::<u8>::empty());
    }
}

/// A printed number consists of decimal digits, and starts with a zero only if
/// it is zero.
pub proof fn law_numbers_have_no_leading_zeros(n: nat)
    ensures
        forall|i: int| 0 <= i < dec_digits(n).len() ==> 0x30 <= #[trigger] dec_digits(n)[i] <= 0x39,
        dec_digits(n)[0] == 0x30 <==> n == 0,
        n < 10 ==> dec_digits(n).len() == 1,
    decreases n,
{
    law_printed_number_reads_back(n);
    if n >= 10 {
        law_numbers_have_no_leading_zeros(n / 10);
        law_printed_number_reads_back(n / 10);
        assert(dec_digits(n)[0] == dec_digits(n / 10)[0]);
        assert forall|i: int| 0 <= i < dec_digits(n).len() implies 0x30 <= #[trigger] dec_digits(
            n,
        )[i] <= 0x39 by {
            if i < dec_digits(n / 10).len() {
                assert(dec_digits(n)[i] == dec_digits(n / 10)[i]);
            }
        }
    }
}

/// The number that a sequence of hexadecimal digits stands for.
pub open spec fn hex_value(digits: Seq<u8>) -> nat
    decreases digits.len(),
{
    if digits.len() == 0 {
        0
    } else {
        let d = digits.last();
        hex_value(digits.drop_last()) * 16 + if 0x30 <= d <= 0x39 {
            (d - 0x30) as nat
        } else if 0x41 <= d <= 0x46 {
            (d - 0x41 + 10) as nat
        } else {
            0
        }
    }
}

proof fn lemma_hex_reads_back(v: nat, n: nat)
    ensures
        hex_digits(v, n).len() == n,
        hex_value(hex_digits(v, n)) == v as int % vstd::arithmetic::power::pow(16, n),
    decreases n,
{
    vstd::arithmetic::power::lemma_pow0(16);
    if n > 0 {
        let m = (n - 1) as nat;
        lemma_hex_reads_back(v / 16, m);
        assert(hex_digits(v, n).drop_last() =~= hex_digits(v / 16, m));
        vstd::arithmetic::power::lemma_pow_adds(16, 1, m);
        vstd::arithmetic::power::lemma_pow1(16);
        vstd::arithmetic::power::lemma_pow_positive(16, m);
        let p = vstd::arithmetic::power::pow(16, m);
        vstd::arithmetic::div_mod::lemma_breakdown(v as int, 16, p);
    }
}

/// Reading a number printed in hexadecimal gives the number, and all are printed
/// with `0x` and sixteen digits.
pub proof fn law_printed_hex_reads_back(v: u64)
    ensures
        hex_text(v).len() == 18,
        hex_text(v)[0] == 0x30,
        hex_text(v)[1] == 0x78,
        hex_value(hex_text(v).skip(2)) == v,
{
    lemma_hex_reads_back(v as nat, 16);
    assert(hex_text(v).skip(2) =~= hex_digits(v as nat, 16));
    assert(vstd::arithmetic::power::pow(16, 16) == 0x1_0000_0000_0000_0000) by {
        reveal_with_fuel(vstd::arithmetic::power::pow, 17);
    }
    assert(v as int % 0x1_0000_0000_0000_0000 == v);
}

/// Only the low four bits of the identification register tell why the port
/// interrupts: not at all if the lowest bit is set; an empty transmit register is
/// 2, received bytes are 4 and, after a pause, 12.
pub proof fn law_interrupts_are_told_apart(iir: u8)
    ensures
        cause(iir) is Nothing <==> iir % 2 == 1,
        cause(iir) is Transmit <==> iir % 16 == 2,
        cause(iir) is Receive <==> iir % 16 == 4 || iir % 16 == 12,
{
}

} // verus!
