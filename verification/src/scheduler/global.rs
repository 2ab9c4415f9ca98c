//! The scheduler of the machine and what the kernel keeps beside it.

use vstd::prelude::*;

use crate::scheduler::round_robin::Scheduler;

verus! {

/// The scheduler, the process that occupies the processor, and the kernel's
/// own address space.
#[derive(Debug)]
pub struct GlobalScheduler {
    /// Absent until `init_global` is called.
    pub scheduler: Option<Scheduler>,
    /// PID of the process that occupies the processor.
    pub current_pid: u32,
    /// Physical address of the kernel's top-level page table.
    pub kernel_pml4: u64,
}

impl GlobalScheduler {
    pub open spec fn wf(&self) -> bool {
        self.scheduler is Some ==> self.scheduler->0.wf()
    }

    pub fn new() -> (r: Self)
        ensures
            r.wf(),
            r.scheduler is None,
            r.current_pid == 0,
            r.kernel_pml4 == 0,
    {
        GlobalScheduler { scheduler: None, current_pid: 0, kernel_pml4: 0 }
    }
}

/// Records the physical address of the kernel's top-level page table.
pub fn set_kernel_pml4(g: &mut GlobalScheduler, addr: u64)
    ensures
        *final(g) == (GlobalScheduler { kernel_pml4: addr, ..*old(g) }),
{
    g.kernel_pml4 = addr;
}

/// Installs the scheduler.
pub fn init_global(g: &mut GlobalScheduler, s: Scheduler)
    ensures
        *final(g) == (GlobalScheduler { scheduler: Some(s), ..*old(g) }),
{
    g.scheduler = Some(s);
}

/// The installed scheduler.
pub fn get_global(g: &mut GlobalScheduler) -> (r: Option<&mut Scheduler>)
    ensures
        match r {
            Some(s) => {
                &&& old(g).scheduler == Some(*s)
                &&& *final(g) == GlobalScheduler { scheduler: Some(*final(s)), ..*old(g) }
            },
            None => old(g).scheduler is None && *final(g) == *old(g),
        },
{
    match &mut g.scheduler {
        Some(s) => Some(s),
        None => None,
    }
}

} // verus!
