//! Scheduler ticks and control registers.

use vstd::prelude::*;

use crate::kernel::Kernel;
use crate::process::ProcessId;
use crate::scheduler::global::GlobalScheduler;
use crate::scheduler::round_robin::ContextSwitch;

verus! {

/// Effect of one scheduler tick, and the switch it asks for.
pub open spec fn schedule_ticked(
    before: Kernel,
    after: Kernel,
    switch: Option<ContextSwitch>,
) -> bool {
    if before.scheduling() {
        &&& after.scheduling()
        &&& after == Kernel {
            global: GlobalScheduler {
                scheduler: after.global.scheduler,
                current_pid: match switch {
                    Some(s) => s.to.0,
                    None => before.global.current_pid,
                },
                ..before.global
            },
            ..before
        }
        &&& after.sched().same_resources(&before.sched())
        &&& (after.sched().state(), switch)
            == crate::scheduler::round_robin::after_timer_tick(before.sched().state())
    } else {
        after == before && switch is None
    }
}

/// Advances the scheduler by one tick. If the running process has to give way,
/// the next one becomes the current process, and the caller has to load its
/// kernel stack pointer and address space and to switch contexts.
pub fn tick_scheduler(k: &mut Kernel) -> (r: Option<ContextSwitch>)
    requires
        old(k).wf(),
        old(k).scheduling() ==> old(k).sched().tickable(),
    ensures
        final(k).wf(),
        schedule_ticked(*old(k), *final(k), r),
{
    let mut switch: Option<ContextSwitch> = None;
    if let Some(sched) = &mut k.global.scheduler {
        switch = sched.timer_tick();
        if switch.is_some() {
            if let Some(pid) = sched.current_process() {
                k.global.current_pid = pid.as_u32();
            }
        }
    }
    switch
}

/// The current process has given way because it is blocked.
pub open spec fn gave_way(before: Kernel, after: Kernel, switch: Option<ContextSwitch>) -> bool {
    if before.scheduling() {
        &&& after.scheduling()
        &&& after == Kernel {
            global: GlobalScheduler {
                scheduler: after.global.scheduler,
                current_pid: match switch {
                    Some(s) => s.to.0,
                    None => before.global.current_pid,
                },
                ..before.global
            },
            ..before
        }
        &&& after.sched().same_resources(&before.sched())
        &&& (after.sched().state(), switch) == crate::scheduler::round_robin::after_block(
            before.sched().state(),
            before.current(),
        )
    } else {
        after == before && switch is None
    }
}

/// Lets the current process, which is blocked, give way to the next one. The
/// caller has to perform the switch; `None` if there is nothing to switch to.
pub fn block_current(k: &mut Kernel) -> (r: Option<ContextSwitch>)
    requires
        old(k).wf(),
    ensures
        final(k).wf(),
        gave_way(*old(k), *final(k), r),
{
    let pid = ProcessId::new(k.global.current_pid);
    let mut switch: Option<ContextSwitch> = None;
    if let Some(sched) = &mut k.global.scheduler {
        switch = sched.prepare_block_switch(pid);
        if let Some(s) = switch {
            k.global.current_pid = s.to.as_u32();
        }
    }
    switch
}

/// Control registers that carry the protection bits.
#[derive(Copy, Clone, Debug, PartialEq, Eq, Structural)]
pub struct ProtectionRegisters {
    pub efer: u64,
    pub cr0: u64,
    pub cr4: u64,
}

/// No-execute pages are honoured.
pub const EFER_NXE: u64 = 0x800;

/// The kernel cannot write to read-only pages.
pub const CR0_WP: u64 = 0x1_0000;

/// The kernel cannot execute user pages.
pub const CR4_SMEP: u64 = 0x10_0000;

/// The kernel cannot access user pages unless it says so.
pub const CR4_SMAP: u64 = 0x20_0000;

/// The registers with all protection features switched on.
pub fn init_protection(regs: ProtectionRegisters) -> (r: ProtectionRegisters)
    ensures
        r.efer == regs.efer | EFER_NXE,
        r.cr0 == regs.cr0 | CR0_WP,
        r.cr4 == regs.cr4 | CR4_SMEP | CR4_SMAP,
{
    ProtectionRegisters {
        efer: regs.efer | EFER_NXE,
        cr0: regs.cr0 | CR0_WP,
        cr4: regs.cr4 | CR4_SMEP | CR4_SMAP,
    }
}

/// The kernel's note of the current process stays right: after a tick, and after
/// the current process has given way, it names the process that the scheduler
/// runs.
pub proof fn law_current_process_is_noted(
    before: Kernel,
    after: Kernel,
    switch: Option<ContextSwitch>,
)
    requires
        before.wf(),
        before.scheduling(),
        before.sched().current_process == Some(before.current()),
        before.sched().tick < u64::MAX,
        schedule_ticked(before, after, switch) || gave_way(before, after, switch),
    ensures
        after.scheduling(),
        after.sched().current_process == Some(after.current()),
        switch matches Some(s) ==> after.current() == s.to && s.from == before.current(),
        switch is None ==> after.current() == before.current(),
{
    let s = before.sched().state();
    let t = crate::scheduler::round_robin::ticked(s);
    assert(after.sched().state().current == after.sched().current_process);
    assert(s.current == before.sched().current_process);
}

} // verus!
