//! Interval timer and legacy interrupt controllers.

use vstd::prelude::*;

verus! {

/// Frequency of the interval timer.
pub const PIT_HZ: u32 = 1_193_180;

/// Timer interrupts per second.
pub const TICK_HZ: u32 = 100;

/// Vector of the first interrupt of the master controller.
pub const PIC_MASTER_VECTOR: u8 = 0x20;

/// Vector of the first interrupt of the slave controller.
pub const PIC_SLAVE_VECTOR: u8 = 0x28;

/// The port writes that start the interval timer at one hundred ticks a second.
pub fn init() -> (r: [(u16, u8); 3])
    ensures
        r@[0] == (0x43u16, 0x34u8),
        r@[1].0 == 0x40,
        r@[2].0 == 0x40,
        r@[1].1 + r@[2].1 * 0x100 == PIT_HZ / TICK_HZ,
{
    let divisor: u32 = PIT_HZ / TICK_HZ;
    assert(divisor == 11931);
    [
        (0x43, 0x34),
        (0x40, (divisor % 0x100) as u8),
        (0x40, (divisor / 0x100 % 0x100) as u8),
    ]
}

/// The port writes that set up both legacy interrupt controllers: interrupts
/// arrive from vector 32 and 40 on, the slave hangs on line 2 of the master,
/// and no line is masked.
pub fn configure_pic() -> (r: [(u16, u8); 10])
    ensures
        r@ == seq![
            (0x20u16, 0x11u8),
            (0xA0u16, 0x11u8),
            (0x21u16, PIC_MASTER_VECTOR),
            (0xA1u16, PIC_SLAVE_VECTOR),
            (0x21u16, 0x04u8),
            (0xA1u16, 0x02u8),
            (0x21u16, 0x01u8),
            (0xA1u16, 0x01u8),
            (0x21u16, 0x00u8),
            (0xA1u16, 0x00u8),
        ],
{
    let r: [(u16, u8); 10] = [
        (0x20, 0x11),
        (0xA0, 0x11),
        (0x21, PIC_MASTER_VECTOR),
        (0xA1, PIC_SLAVE_VECTOR),
        (0x21, 0x04),
        (0xA1, 0x02),
        (0x21, 0x01),
        (0xA1, 0x01),
        (0x21, 0x00),
        (0xA1, 0x00),
    ];
    assert(r@ =~= seq![
        (0x20u16, 0x11u8),
        (0xA0u16, 0x11u8),
        (0x21u16, PIC_MASTER_VECTOR),
        (0xA1u16, PIC_SLAVE_VECTOR),
        (0x21u16, 0x04u8),
        (0xA1u16, 0x02u8),
        (0x21u16, 0x01u8),
        (0xA1u16, 0x01u8),
        (0x21u16, 0x00u8),
        (0xA1u16, 0x00u8),
    ]);
    r
}

/// The port writes that mask every line of both legacy controllers.
pub fn pic_mask_all() -> (r: [(u16, u8); 2])
    ensures
        r@ == seq![(0x21u16, 0xFFu8), (0xA1u16, 0xFFu8)],
{
    let r: [(u16, u8); 2] = [(0x21, 0xFF), (0xA1, 0xFF)];
    assert(r@ =~= seq![(0x21u16, 0xFFu8), (0xA1u16, 0xFFu8)]);
    r
}

} // verus!
