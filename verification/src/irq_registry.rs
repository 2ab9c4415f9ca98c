//! Which process is told about which hardware interrupt.

use vstd::prelude::*;

verus! {

/// Interrupt numbers that can be registered.
pub const MAX_GSI: usize = 16;

/// For each global system interrupt the PID to notify, `u32::MAX` if none, and
/// the port to read before notifying, 0 if none.
#[derive(Debug)]
pub struct IrqRegistry {
    pub pids: [u32; MAX_GSI],
    pub ports: [u16; MAX_GSI],
}

/// The registered receiver of each interrupt.
pub open spec fn receiver(reg: IrqRegistry, gsi: u8) -> Option<(u32, u16)> {
    if gsi < MAX_GSI && reg.pids@[gsi as int] != u32::MAX {
        Some((reg.pids@[gsi as int], reg.ports@[gsi as int]))
    } else {
        None
    }
}

/// The registry after `pid` is registered for `gsi`.
pub open spec fn registered(before: IrqRegistry, after: IrqRegistry, gsi: u8, pid: u32, port: u16) -> bool {
    &&& after.pids@ == before.pids@.update(gsi as int, pid)
    &&& after.ports@ == before.ports@.update(gsi as int, port)
}

/// An interrupt in range goes to the process that was last registered for it.
pub proof fn law_registered_receives(
    before: IrqRegistry,
    after: IrqRegistry,
    gsi: u8,
    pid: u32,
    port: u16,
)
    requires
        gsi < MAX_GSI,
        pid != u32::MAX,
        registered(before, after, gsi, pid, port),
    ensures
        receiver(after, gsi) == Some((pid, port)),
{
}

/// Registering one interrupt leaves the receivers of all others alone.
pub proof fn law_other_interrupts_unaffected(
    before: IrqRegistry,
    after: IrqRegistry,
    gsi: u8,
    pid: u32,
    port: u16,
    other: u8,
)
    requires
        gsi < MAX_GSI,
        other != gsi,
        registered(before, after, gsi, pid, port),
    ensures
        receiver(after, other) == receiver(before, other),
{
}

impl IrqRegistry {
    pub fn new() -> (r: Self)
        ensures
            forall|gsi: u8| receiver(r, gsi) is None,
    {
        IrqRegistry { pids: [u32::MAX;MAX_GSI], ports: [0;MAX_GSI] }
    }
}

/// Registers `pid` for interrupt `gsi`, with the port `isr_port` to read before
/// notifying it; `false` if `gsi` is out of range.
pub fn register(reg: &mut IrqRegistry, gsi: u8, pid: u32, isr_port: u16) -> (r: bool)
    ensures
        r == (gsi < MAX_GSI),
        r ==> registered(*old(reg), *final(reg), gsi, pid, isr_port),
        !r ==> *final(reg) == *old(reg),
{
    let idx: usize = gsi as usize;
    if idx >= MAX_GSI {
        return false;
    }
    reg.ports[idx] = isr_port;
    reg.pids[idx] = pid;
    true
}

/// PID and port registered for `gsi`; `None` if there is none.
pub fn lookup(reg: &IrqRegistry, gsi: u8) -> (r: Option<(u32, u16)>)
    ensures
        r == receiver(*reg, gsi),
{
    let idx: usize = gsi as usize;
    if idx >= MAX_GSI {
        return None;
    }
    let pid: u32 = reg.pids[idx];
    if pid == u32::MAX {
        return None;
    }
    Some((pid, reg.ports[idx]))
}

} // verus!
