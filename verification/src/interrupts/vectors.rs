//! Gates of the interrupt vectors.

use vstd::prelude::*;

use crate::cpu::gdt::KERNEL_CODE;
use crate::cpu::idt::{IdtEntry, InterruptDescriptorTable};
use crate::cpu::tss::{TaskStateSegment, IST_STACK_SIZE};

verus! {

/// Vector of non-maskable interrupts.
pub const VECTOR_NMI: usize = 2;

/// Vector of double faults.
pub const VECTOR_DOUBLE_FAULT: usize = 8;

/// Vector of machine checks.
pub const VECTOR_MACHINE_CHECK: usize = 18;

/// Interrupt stack of a vector: double faults, non-maskable interrupts and
/// machine checks have one of their own, all others have none.
pub open spec fn stack_of(vector: int) -> u8 {
    if vector == VECTOR_NMI {
        2
    } else if vector == VECTOR_DOUBLE_FAULT {
        1
    } else if vector == VECTOR_MACHINE_CHECK {
        3
    } else {
        0
    }
}

/// Fills the table with one gate for each vector. `handlers` holds the entry
/// points.
pub fn init(idt: &mut InterruptDescriptorTable, handlers: &[u64; 256])
    ensures
        forall|v: int|
            0 <= v < 256 ==> #[trigger] final(idt).entries@[v] == crate::cpu::idt::gate(
                handlers@[v],
                KERNEL_CODE,
                stack_of(v),
            ),
{
    let mut v: usize = 0;
    while v < 256
        invariant
            v <= 256,
            forall|k: int|
                0 <= k < v ==> #[trigger] idt.entries@[k] == crate::cpu::idt::gate(
                    handlers@[k],
                    KERNEL_CODE,
                    stack_of(k),
                ),
        decreases 256 - v,
    {
        let handler: u64 = handlers[v];
        let entry = if v == VECTOR_NMI {
            IdtEntry::interrupt_gate_ist(handler, KERNEL_CODE, 2)
        } else if v == VECTOR_DOUBLE_FAULT {
            IdtEntry::interrupt_gate_ist(handler, KERNEL_CODE, 1)
        } else if v == VECTOR_MACHINE_CHECK {
            IdtEntry::interrupt_gate_ist(handler, KERNEL_CODE, 3)
        } else {
            IdtEntry::interrupt_gate(handler, KERNEL_CODE)
        };
        idt.set_entry_usize(v, entry);
        v = v + 1;
    }
}

/// Double faults, non-maskable interrupts and machine checks each run on the
/// stack that the task state segment was given for them, and no two vectors
/// share such a stack.
pub proof fn law_critical_vectors_have_own_stacks(
    tss: TaskStateSegment,
    stack1: u64,
    stack2: u64,
    stack3: u64,
    v: int,
    w: int,
)
    requires
        stack1 + IST_STACK_SIZE <= u64::MAX,
        stack2 + IST_STACK_SIZE <= u64::MAX,
        stack3 + IST_STACK_SIZE <= u64::MAX,
        stack1 != stack2 && stack2 != stack3 && stack1 != stack3,
    ensures
        ({
            let tss = TaskStateSegment {
                ist1: (stack1 + IST_STACK_SIZE) as u64,
                ist2: (stack2 + IST_STACK_SIZE) as u64,
                ist3: (stack3 + IST_STACK_SIZE) as u64,
                ..tss
            };
            let stack = |v: int| crate::cpu::tss::interrupt_stack(tss, stack_of(v));
            &&& stack(VECTOR_DOUBLE_FAULT as int) == Some((stack1 + IST_STACK_SIZE) as u64)
            &&& stack(VECTOR_NMI as int) == Some((stack2 + IST_STACK_SIZE) as u64)
            &&& stack(VECTOR_MACHINE_CHECK as int) == Some((stack3 + IST_STACK_SIZE) as u64)
            &&& v != w && stack(v) is Some ==> stack(v) != stack(w)
        }),
{
}

} // verus!
