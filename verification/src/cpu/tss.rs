//! Task state segment.

use vstd::prelude::*;

verus! {

/// Size of an interrupt stack in bytes.
pub const IST_STACK_SIZE: usize = 8192;

/// Size of the segment in bytes.
pub const TSS_SIZE: u16 = 104;

/// Stacks that the processor switches to on its own.
#[derive(Copy, Clone, Debug, PartialEq, Eq, Structural)]
pub struct TaskStateSegment {
    pub reserved0: u32,
    /// Kernel stack for entries from user mode.
    pub rsp0: u64,
    pub rsp1: u64,
    pub rsp2: u64,
    pub reserved1: u64,
    /// Stack for double faults.
    pub ist1: u64,
    /// Stack for non-maskable interrupts.
    pub ist2: u64,
    /// Stack for machine checks.
    pub ist3: u64,
    pub ist4: u64,
    pub ist5: u64,
    pub ist6: u64,
    pub ist7: u64,
    pub reserved2: u64,
    pub reserved3: u16,
    /// Offset of the port permissions; the size of the segment if there are none.
    pub iopb: u16,
}

impl TaskStateSegment {
    /// A segment without stacks and port permissions.
    pub fn new() -> (r: Self)
        ensures
            r == empty_tss(),
    {
        TaskStateSegment {
            reserved0: 0,
            rsp0: 0,
            rsp1: 0,
            rsp2: 0,
            reserved1: 0,
            ist1: 0,
            ist2: 0,
            ist3: 0,
            ist4: 0,
            ist5: 0,
            ist6: 0,
            ist7: 0,
            reserved2: 0,
            reserved3: 0,
            iopb: TSS_SIZE,
        }
    }
}

/// A segment without stacks and port permissions.
pub open spec fn empty_tss() -> TaskStateSegment {
    TaskStateSegment {
        reserved0: 0,
        rsp0: 0,
        rsp1: 0,
        rsp2: 0,
        reserved1: 0,
        ist1: 0,
        ist2: 0,
        ist3: 0,
        ist4: 0,
        ist5: 0,
        ist6: 0,
        ist7: 0,
        reserved2: 0,
        reserved3: 0,
        iopb: TSS_SIZE,
    }
}

/// Interrupt stack number `i`; `None` for 0.
pub open spec fn interrupt_stack(tss: TaskStateSegment, i: u8) -> Option<u64> {
    if i == 1 {
        Some(tss.ist1)
    } else if i == 2 {
        Some(tss.ist2)
    } else if i == 3 {
        Some(tss.ist3)
    } else if i == 4 {
        Some(tss.ist4)
    } else if i == 5 {
        Some(tss.ist5)
    } else if i == 6 {
        Some(tss.ist6)
    } else if i == 7 {
        Some(tss.ist7)
    } else {
        None
    }
}

/// Enters the stacks for double faults, non-maskable interrupts and machine
/// checks, given the address of each stack's lowest byte. Stacks grow down.
pub fn init_tss(tss: &mut TaskStateSegment, stack1: u64, stack2: u64, stack3: u64)
    requires
        stack1 + IST_STACK_SIZE <= u64::MAX,
        stack2 + IST_STACK_SIZE <= u64::MAX,
        stack3 + IST_STACK_SIZE <= u64::MAX,
    ensures
        *final(tss) == (TaskStateSegment {
            ist1: (stack1 + IST_STACK_SIZE) as u64,
            ist2: (stack2 + IST_STACK_SIZE) as u64,
            ist3: (stack3 + IST_STACK_SIZE) as u64,
            ..*old(tss)
        }),
{
    tss.ist1 = stack1 + IST_STACK_SIZE as u64;
    tss.ist2 = stack2 + IST_STACK_SIZE as u64;
    tss.ist3 = stack3 + IST_STACK_SIZE as u64;
}

/// Enters the kernel stack of the process that is about to run.
pub fn set_rsp0(tss: &mut TaskStateSegment, rsp0: u64)
    ensures
        *final(tss) == (TaskStateSegment { rsp0, ..*old(tss) }),
{
    tss.rsp0 = rsp0;
}

/// An empty segment has no stack for any interrupt or privilege level, and gives
/// no access to ports: its permissions would begin where it ends.
pub proof fn law_empty_segment_gives_no_ports()
    ensures
        forall|i: u8| 1 <= i <= 7 ==> #[trigger] interrupt_stack(empty_tss(), i) == Some(0u64),
        empty_tss().rsp0 == 0 && empty_tss().rsp1 == 0 && empty_tss().rsp2 == 0,
        empty_tss().iopb == 104,
{
}

/// Entering a stack under one number changes no other.
pub proof fn law_interrupt_stacks_are_apart(tss: TaskStateSegment, i: u8, stack: u64)
    ensures
        i != 1 ==> interrupt_stack(TaskStateSegment { ist1: stack, ..tss }, i) == interrupt_stack(tss, i),
        i != 2 ==> interrupt_stack(TaskStateSegment { ist2: stack, ..tss }, i) == interrupt_stack(tss, i),
        i != 3 ==> interrupt_stack(TaskStateSegment { ist3: stack, ..tss }, i) == interrupt_stack(tss, i),
        i == 1 ==> interrupt_stack(TaskStateSegment { ist1: stack, ..tss }, i) == Some(stack),
        i == 2 ==> interrupt_stack(TaskStateSegment { ist2: stack, ..tss }, i) == Some(stack),
        i == 3 ==> interrupt_stack(TaskStateSegment { ist3: stack, ..tss }, i) == Some(stack),
        interrupt_stack(tss, i) is Some <==> 1 <= i <= 7,
{
}

} // verus!
