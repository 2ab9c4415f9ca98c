//! The state of the running kernel.

use vstd::prelude::*;

use crate::memory::KernelMemory;
use crate::scheduler::global::GlobalScheduler;
use crate::service_registry::ServiceRegistry;
use crate::uart_irq::UartIrq;

verus! {

/// Everything system calls and interrupt handlers work on.
#[derive(Debug)]
pub struct Kernel {
    pub global: GlobalScheduler,
    pub mem: KernelMemory,
    pub services: ServiceRegistry,
    pub uart_irq: UartIrq,
    /// Timer interrupts since boot, one every ten milliseconds.
    pub ticks: u64,
}

impl Kernel {
    pub open spec fn wf(&self) -> bool {
        &&& self.global.wf()
        &&& self.mem.wf()
    }

    /// A kernel with the given memory, before the scheduler is installed.
    pub fn new(mem: KernelMemory) -> (r: Self)
        requires
            mem.wf(),
        ensures
            r.wf(),
            r.mem == mem,
            r.global.scheduler is None,
            r.global.current_pid == 0,
            r.global.kernel_pml4 == 0,
            r.uart_irq.pid == u32::MAX,
            r.ticks == 0,
            forall|i: int|
                0 <= i < crate::service_registry::MAX_SERVICES
                    ==> !(#[trigger] r.services.entries@[i]).used,
    {
        Kernel {
            global: GlobalScheduler::new(),
            mem,
            services: ServiceRegistry::new(),
            uart_irq: UartIrq::new(),
            ticks: 0,
        }
    }

    /// The scheduler is installed.
    pub open spec fn scheduling(&self) -> bool {
        self.global.scheduler is Some
    }

    /// The scheduler.
    pub open spec fn sched(&self) -> crate::scheduler::round_robin::Scheduler {
        self.global.scheduler->0
    }

    /// The process that occupies the processor.
    pub open spec fn current(&self) -> crate::process::ProcessId {
        crate::process::ProcessId(self.global.current_pid)
    }

    /// The address space of the process that occupies the processor, the
    /// kernel's if there is no such process.
    pub open spec fn current_pml4(&self) -> u64 {
        if self.scheduling() && self.sched().has(self.current()) {
            self.sched().pcb(self.current()).page_table_base
        } else {
            self.global.kernel_pml4
        }
    }

    /// `self` differs from `other` at most in the scheduler.
    pub open spec fn differs_in_sched(&self, other: &Self) -> bool {
        &&& self.scheduling()
        &&& *self == Kernel {
            global: GlobalScheduler { scheduler: self.global.scheduler, ..other.global },
            ..*other
        }
    }

    /// `self` differs from `other` at most in memory.
    pub open spec fn differs_in_mem(&self, other: &Self) -> bool {
        *self == Kernel { mem: self.mem, ..*other }
    }

    /// `self` differs from `other` at most in the scheduler and in memory.
    pub open spec fn differs_in_sched_and_mem(&self, other: &Self) -> bool {
        &&& self.scheduling()
        &&& *self == Kernel {
            global: GlobalScheduler { scheduler: self.global.scheduler, ..other.global },
            mem: self.mem,
            ..*other
        }
    }
}

/// A process works in its own address space: what it maps, it maps where it runs.
pub proof fn law_process_works_in_its_own_space(k: Kernel)
    ensures
        k.scheduling() && k.sched().has(k.current()) ==> k.current_pml4() == k.sched().pcb(
            crate::process::ProcessId(k.global.current_pid),
        ).page_table_base,
        !k.scheduling() ==> k.current_pml4() == k.global.kernel_pml4,
{
}

} // verus!
