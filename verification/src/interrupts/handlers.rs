//! What the kernel does on exceptions and interrupts.
//!
//! A fault of a user process ends the process and tells the health monitor. A
//! fault of the kernel is recorded in the crash log, and the system halts.

use vstd::prelude::*;

use crate::cpu::control::tick_scheduler;
use crate::crash_log::{CrashLog, ErrorRecord};
use crate::ipc::Message;
use crate::kernel::Kernel;
use crate::memory::free_all;
use crate::process::ProcessId;
use crate::scheduler::global::{get_global, GlobalScheduler};
use crate::scheduler::round_robin::{ContextSwitch, Scheduler, SwitchTarget};
use crate::uart_irq::get_uart_drv_pid;

verus! {

/// The health monitor, which is told about every faulting process.
pub const INIT_PID: u32 = 1;

/// The kernel as the sender of a message.
pub const KERNEL_PID: u32 = 0;

/// First payload word of a message that carries a byte of the serial port.
pub const OP_UART_RX: u64 = 2;

pub const VECTOR_DIVIDE_ERROR: u64 = 0x00;

pub const VECTOR_DOUBLE_FAULT: u64 = 0x08;

pub const VECTOR_GENERAL_PROTECTION: u64 = 0x0D;

pub const VECTOR_PAGE_FAULT: u64 = 0x0E;

pub const VECTOR_MACHINE_CHECK: u64 = 0x12;

/// What the health monitor is told about a division by zero.
pub const FAULT_DIVIDE_ERROR: u64 = 0xDE;

/// Registers saved on entry to an exception handler.
#[derive(Copy, Clone, Debug, PartialEq, Eq, Structural)]
pub struct ExceptionFrame {
    pub r15: u64,
    pub r14: u64,
    pub r13: u64,
    pub r12: u64,
    pub r11: u64,
    pub r10: u64,
    pub r9: u64,
    pub r8: u64,
    pub rdi: u64,
    pub rsi: u64,
    pub rdx: u64,
    pub rcx: u64,
    pub rbx: u64,
    pub rbp: u64,
    pub rax: u64,
    pub error_code: u64,
    pub rip: u64,
    pub cs: u64,
    pub rflags: u64,
}

/// How an exception handler ends.
#[derive(Copy, Clone, Debug, PartialEq, Eq, Structural)]
pub enum FaultOutcome {
    /// The faulting process is gone; continue with this one.
    Switch(SwitchTarget),
    /// The faulting process is gone and none is runnable; wait for interrupts.
    Wait,
    /// The kernel itself is at fault; halt.
    Halt,
}

/// The fault happened in ring 3.
pub open spec fn is_user(f: ExceptionFrame) -> bool {
    f.cs & 3 == 3
}

/// Whether the fault happened in ring 3.
pub fn from_user(f: &ExceptionFrame) -> (r: bool)
    ensures
        r == is_user(*f),
{
    f.cs & 3 == 3
}

/// The record of a kernel fault.
pub open spec fn fault_record(
    f: ExceptionFrame,
    vector: u64,
    cr2: u64,
    tick: u64,
    pid: u32,
) -> ErrorRecord {
    ErrorRecord {
        magic: 0,
        vector,
        tick,
        pid: pid as u64,
        rip: f.rip,
        rsp: 0,
        rflags: f.rflags,
        cr2,
    }
}

/// Records a kernel fault with the current tick and process.
pub fn record_crash(log: &mut CrashLog, k: &Kernel, frame: &ExceptionFrame, vector: u64, cr2: u64)
    ensures
        crate::crash_log::written(
            *old(log),
            *final(log),
            fault_record(*frame, vector, cr2, k.ticks, k.global.current_pid),
        ),
{
    crate::crash_log::write(
        log,
        ErrorRecord {
            magic: 0,
            vector,
            tick: k.ticks,
            pid: k.global.current_pid as u64,
            rip: frame.rip,
            rsp: 0,
            rflags: frame.rflags,
            cr2,
        },
    );
}

/// `msg` tells that process `pid` faulted.
pub open spec fn fault_notice(msg: Message, pid: ProcessId, fault_code: u64) -> bool {
    &&& msg.sender == pid
    &&& msg.data@ == seq![fault_code, pid.0 as u64, 0, 0, 0, 0, 0, 0]
}

/// The scheduler after the faulting process `pid` is reported and ended, and
/// the next process is chosen.
pub open spec fn fault_handled(
    before: Scheduler,
    after: Scheduler,
    services_before: Seq<crate::service_registry::ServiceEntry>,
    services_after: Seq<crate::service_registry::ServiceEntry>,
    pid: ProcessId,
    fault_code: u64,
    target: Option<SwitchTarget>,
) -> bool {
    exists|told: Scheduler, ended: Scheduler, msg: Message, delivered: bool|
        {
            &&& fault_notice(msg, pid, fault_code)
            &&& #[trigger] crate::scheduler::round_robin::message_sent(
                before,
                told,
                pid,
                ProcessId(INIT_PID),
                msg,
                delivered,
            )
            &&& #[trigger] crate::scheduler::round_robin::process_ended(
                told,
                ended,
                services_before,
                services_after,
                pid,
            )
            &&& after.same_resources(&ended)
            &&& (after.state(), target) == crate::scheduler::round_robin::after_force(
                ended.state(),
            )
        }
}

/// Effect of ending the faulting process, whose frames are given back.
pub open spec fn process_faulted(
    before: Kernel,
    after: Kernel,
    fault_code: u64,
    target: Option<SwitchTarget>,
) -> bool {
    if before.scheduling() {
        &&& after.scheduling()
        &&& after.global == GlobalScheduler {
            scheduler: after.global.scheduler,
            current_pid: match target {
                Some(t) => t.to.0,
                None => before.global.current_pid,
            },
            ..before.global
        }
        &&& crate::memory::paging::gave_back(
            before.mem,
            after.mem,
            crate::scheduler::round_robin::frames_of(before.sched(), before.current()),
        )
        &&& after.uart_irq == before.uart_irq
        &&& after.ticks == before.ticks
        &&& fault_handled(
            before.sched(),
            after.sched(),
            before.services.entries@,
            after.services.entries@,
            before.current(),
            fault_code,
            target,
        )
    } else {
        after == before && target is None
    }
}

/// Tells the health monitor about the fault of the current process, ends that
/// process, gives its frames back and chooses the next one. `None` if no process
/// is runnable.
pub fn terminate_faulting_process(k: &mut Kernel, fault_code: u64) -> (r: Option<SwitchTarget>)
    requires
        old(k).wf(),
        old(k).scheduling() ==> old(k).sched().countable(old(k).current(), ProcessId(INIT_PID)),
    ensures
        final(k).wf(),
        process_faulted(*old(k), *final(k), fault_code, r),
{
    let pid_raw: u32 = k.global.current_pid;
    let pid = ProcessId::new(pid_raw);
    let mut msg = Message::new(pid);
    msg.set_data(0, fault_code);
    msg.set_data(1, pid_raw as u64);
    assert(msg.data@ =~= seq![fault_code, pid.0 as u64, 0, 0, 0, 0, 0, 0]);
    let target: Option<SwitchTarget>;
    let frames: Vec<u64>;
    let ghost mut told = arbitrary();
    let ghost mut ended = arbitrary();
    let delivered: bool;
    match get_global(&mut k.global) {
        Some(sched) => {
            delivered = sched.send_message(pid, ProcessId::new(INIT_PID), msg);
            proof {
                told = *sched;
            }
            frames = sched.terminate_process(&mut k.services, pid);
            proof {
                ended = *sched;
            }
            target = sched.force_schedule_next();
        },
        None => {
            return None;
        },
    }
    free_all(&mut k.mem.frames, frames.as_slice());
    proof {
        crate::scheduler::round_robin::lemma_sending_keeps_frames(
            old(k).sched(),
            told,
            old(k).current(),
            ProcessId(INIT_PID),
            msg,
            delivered,
        );
        assert(crate::scheduler::round_robin::message_sent(
            old(k).sched(),
            told,
            old(k).current(),
            ProcessId(INIT_PID),
            msg,
            delivered,
        ));
        assert(crate::scheduler::round_robin::process_ended(
            told,
            ended,
            old(k).services.entries@,
            k.services.entries@,
            old(k).current(),
        ));
    }
    if let Some(t) = target {
        k.global.current_pid = t.to.as_u32();
    }
    target
}

/// Effect of a fault at `vector`, about which the health monitor is told `code`.
pub open spec fn fault_taken(
    before: Kernel,
    after: Kernel,
    log_before: CrashLog,
    log_after: CrashLog,
    f: ExceptionFrame,
    vector: u64,
    code: u64,
    cr2: u64,
    r: FaultOutcome,
) -> bool {
    if is_user(f) {
        &&& log_after == log_before
        &&& match r {
            FaultOutcome::Switch(t) => process_faulted(before, after, code, Some(t)),
            FaultOutcome::Wait => process_faulted(before, after, code, None),
            FaultOutcome::Halt => false,
        }
    } else {
        kernel_fault(before, after, log_before, log_after, f, vector, cr2, r)
    }
}

/// Effect of a fault that the kernel cannot survive.
pub open spec fn kernel_fault(
    before: Kernel,
    after: Kernel,
    log_before: CrashLog,
    log_after: CrashLog,
    f: ExceptionFrame,
    vector: u64,
    cr2: u64,
    r: FaultOutcome,
) -> bool {
    &&& r is Halt
    &&& after == before
    &&& crate::crash_log::written(
        log_before,
        log_after,
        fault_record(f, vector, cr2, before.ticks, before.global.current_pid),
    )
}

/// A fault of a user process ends that process, one of the kernel halts.
fn handle_fault(
    k: &mut Kernel,
    log: &mut CrashLog,
    frame: &ExceptionFrame,
    vector: u64,
    code: u64,
    cr2: u64,
) -> (r: FaultOutcome)
    requires
        old(k).wf(),
        is_user(*frame) && old(k).scheduling() ==> old(k).sched().countable(
            old(k).current(),
            ProcessId(INIT_PID),
        ),
    ensures
        final(k).wf(),
        fault_taken(*old(k), *final(k), *old(log), *final(log), *frame, vector, code, cr2, r),
{
    if from_user(frame) {
        match terminate_faulting_process(k, code) {
            Some(t) => FaultOutcome::Switch(t),
            None => FaultOutcome::Wait,
        }
    } else {
        record_crash(log, k, frame, vector, cr2);
        FaultOutcome::Halt
    }
}

/// Division by zero.
pub fn handle_divide_by_zero(k: &mut Kernel, log: &mut CrashLog, frame: &ExceptionFrame) -> (r:
    FaultOutcome)
    requires
        old(k).wf(),
        is_user(*frame) && old(k).scheduling() ==> old(k).sched().countable(
            old(k).current(),
            ProcessId(INIT_PID),
        ),
    ensures
        final(k).wf(),
        fault_taken(
            *old(k),
            *final(k),
            *old(log),
            *final(log),
            *frame,
            VECTOR_DIVIDE_ERROR,
            FAULT_DIVIDE_ERROR,
            0,
            r,
        ),
{
    handle_fault(k, log, frame, VECTOR_DIVIDE_ERROR, FAULT_DIVIDE_ERROR, 0)
}

/// General protection fault.
pub fn handle_general_protection(k: &mut Kernel, log: &mut CrashLog, frame: &ExceptionFrame) -> (r:
    FaultOutcome)
    requires
        old(k).wf(),
        is_user(*frame) && old(k).scheduling() ==> old(k).sched().countable(
            old(k).current(),
            ProcessId(INIT_PID),
        ),
    ensures
        final(k).wf(),
        fault_taken(
            *old(k),
            *final(k),
            *old(log),
            *final(log),
            *frame,
            VECTOR_GENERAL_PROTECTION,
            VECTOR_GENERAL_PROTECTION,
            0,
            r,
        ),
{
    handle_fault(k, log, frame, VECTOR_GENERAL_PROTECTION, VECTOR_GENERAL_PROTECTION, 0)
}

/// Page fault at address `cr2`.
pub fn handle_page_fault(
    k: &mut Kernel,
    log: &mut CrashLog,
    frame: &ExceptionFrame,
    cr2: u64,
) -> (r: FaultOutcome)
    requires
        old(k).wf(),
        is_user(*frame) && old(k).scheduling() ==> old(k).sched().countable(
            old(k).current(),
            ProcessId(INIT_PID),
        ),
    ensures
        final(k).wf(),
        fault_taken(
            *old(k),
            *final(k),
            *old(log),
            *final(log),
            *frame,
            VECTOR_PAGE_FAULT,
            VECTOR_PAGE_FAULT,
            cr2,
            r,
        ),
{
    handle_fault(k, log, frame, VECTOR_PAGE_FAULT, VECTOR_PAGE_FAULT, cr2)
}

/// Double fault: always the kernel's.
pub fn handle_double_fault(k: &Kernel, log: &mut CrashLog, frame: &ExceptionFrame) -> (r:
    FaultOutcome)
    ensures
        kernel_fault(*k, *k, *old(log), *final(log), *frame, VECTOR_DOUBLE_FAULT, 0, r),
{
    record_crash(log, k, frame, VECTOR_DOUBLE_FAULT, 0);
    FaultOutcome::Halt
}

/// Machine check: an uncorrectable hardware error.
pub fn handle_machine_check(k: &Kernel, log: &mut CrashLog, frame: &ExceptionFrame) -> (r:
    FaultOutcome)
    ensures
        kernel_fault(*k, *k, *old(log), *final(log), *frame, VECTOR_MACHINE_CHECK, 0, r),
{
    record_crash(log, k, frame, VECTOR_MACHINE_CHECK, 0);
    FaultOutcome::Halt
}

// ── Serial port ──────────────────────────────────────────────────────────────
/// `msg` carries the byte `byte` of the serial port.
pub open spec fn uart_message(msg: Message, byte: u8) -> bool {
    &&& msg.sender == ProcessId(KERNEL_PID)
    &&& msg.data@ == seq![OP_UART_RX, byte as u64, 0, 0, 0, 0, 0, 0]
}

/// The kernel has sent `byte` to process `to`.
pub open spec fn byte_sent(before: Scheduler, after: Scheduler, to: ProcessId, byte: u8) -> bool {
    exists|msg: Message, delivered: bool|
        uart_message(msg, byte) && #[trigger] crate::scheduler::round_robin::message_sent(
            before,
            after,
            ProcessId(KERNEL_PID),
            to,
            msg,
            delivered,
        )
}

/// The kernel has sent the bytes `bytes`, one after the other, to process `to`.
pub open spec fn bytes_sent(
    before: Scheduler,
    after: Scheduler,
    to: ProcessId,
    bytes: Seq<u8>,
) -> bool
    decreases bytes.len(),
{
    if bytes.len() == 0 {
        after == before
    } else {
        exists|middle: Scheduler|
            bytes_sent(before, middle, to, bytes.drop_last()) && #[trigger] byte_sent(
                middle,
                after,
                to,
                bytes.last(),
            )
    }
}

/// Effect of receiving `bytes` on the serial port.
pub open spec fn bytes_received(before: Kernel, after: Kernel, bytes: Seq<u8>) -> bool {
    if before.uart_irq.pid == u32::MAX || !before.scheduling() {
        after == before
    } else {
        &&& after.differs_in_sched(&before)
        &&& bytes_sent(before.sched(), after.sched(), ProcessId(before.uart_irq.pid), bytes)
    }
}

/// Sends every byte that came in on the serial port to the serial driver. The
/// bytes are dropped if no driver is registered.
pub fn handle_uart_rx(k: &mut Kernel, bytes: &[u8])
    requires
        old(k).wf(),
    ensures
        final(k).wf(),
        bytes_received(*old(k), *final(k), bytes@),
{
    let drv: u32 = get_uart_drv_pid(&k.uart_irq);
    if drv == u32::MAX {
        return ;
    }
    let to = ProcessId::new(drv);
    let from = ProcessId::new(KERNEL_PID);
    if k.global.scheduler.is_none() {
        return ;
    }
    let mut i: usize = 0;
    assert(bytes@.take(0) =~= Seq::<u8>::empty());
    while i < bytes.len()
        invariant
            old(k).wf(),
            k.wf(),
            old(k).scheduling(),
            k.differs_in_sched(old(k)),
            i <= bytes@.len(),
            to == ProcessId(old(k).uart_irq.pid),
            from == ProcessId(KERNEL_PID),
            bytes_sent(old(k).sched(), k.sched(), to, bytes@.take(i as int)),
        decreases bytes@.len() - i,
    {
        let byte: u8 = bytes[i];
        let mut msg = Message::new(from);
        msg.set_data(0, OP_UART_RX);
        msg.set_data(1, byte as u64);
        assert(msg.data@ =~= seq![OP_UART_RX, byte as u64, 0, 0, 0, 0, 0, 0]);
        let ghost before = k.sched();
        let mut delivered: bool = false;
        if let Some(sched) = get_global(&mut k.global) {
            delivered = sched.send_message(from, to, msg);
        }
        proof {
            assert(crate::scheduler::round_robin::message_sent(
                before,
                k.sched(),
                ProcessId(KERNEL_PID),
                to,
                msg,
                delivered,
            ));
            assert(bytes@.take(i + 1).drop_last() =~= bytes@.take(i as int));
            assert(byte_sent(before, k.sched(), to, bytes@.take(i + 1).last()));
        }
        i = i + 1;
    }
    assert(bytes@.take(bytes@.len() as int) =~= bytes@);
}

// ── Timer ────────────────────────────────────────────────────────────────────
/// Effect of a timer interrupt.
pub open spec fn timer_fired(
    before: Kernel,
    after: Kernel,
    switch: Option<ContextSwitch>,
) -> bool {
    let counted = Kernel {
        ticks: if before.ticks < u64::MAX {
            (before.ticks + 1) as u64
        } else {
            0
        },
        ..before
    };
    crate::cpu::control::schedule_ticked(counted, after, switch)
}

/// Counts the tick and runs the scheduler.
pub fn timer_interrupt(k: &mut Kernel) -> (r: Option<ContextSwitch>)
    requires
        old(k).wf(),
        old(k).scheduling() ==> old(k).sched().tickable(),
    ensures
        final(k).wf(),
        timer_fired(*old(k), *final(k), r),
{
    k.ticks = k.ticks.wrapping_add(1);
    tick_scheduler(k)
}

} // verus!
