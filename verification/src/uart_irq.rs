//! Which process receives the bytes of the serial port.

use vstd::prelude::*;

verus! {

/// Service name under which the serial driver registers.
pub const UART_DRV_NAME: [u8; 8] = [117, 97, 114, 116, 45, 100, 114, 118];

/// The serial driver process, `u32::MAX` until one is registered.
#[derive(Copy, Clone, Debug, PartialEq, Eq, Structural)]
pub struct UartIrq {
    pub pid: u32,
}

impl UartIrq {
    pub fn new() -> (r: Self)
        ensures
            r.pid == u32::MAX,
    {
        UartIrq { pid: u32::MAX }
    }
}

/// Records the PID of the serial driver.
pub fn set_uart_drv_pid(u: &mut UartIrq, pid: u32)
    ensures
        final(u).pid == pid,
{
    u.pid = pid;
}

/// PID of the serial driver; `u32::MAX` if none is registered.
pub fn get_uart_drv_pid(u: &UartIrq) -> (r: u32)
    ensures
        r == u.pid,
{
    u.pid
}

} // verus!
