//! What holds of faults and interrupts as a whole.

use vstd::prelude::*;

use crate::crash_log::{self, CrashLog};
use crate::interrupts::handlers::{self, ExceptionFrame, FaultOutcome};
use crate::ipc::Message;
use crate::kernel::Kernel;
use crate::process::pcb::ProcessControlBlock;
use crate::process::table;
use crate::process::ProcessId;
use crate::scheduler::effects::{self, awake};
use crate::scheduler::policy;
use crate::scheduler::round_robin::{self, ContextSwitch, SchedState, Scheduler, SwitchTarget};

verus! {

/// A fault of the kernel halts the system and changes nothing but the log, whose
/// newest record tells of it: vector, instruction, flags, faulting address, tick
/// and process.
pub proof fn law_kernel_fault_is_recorded(
    before: Kernel,
    after: Kernel,
    log_before: CrashLog,
    log_after: CrashLog,
    f: ExceptionFrame,
    vector: u64,
    code: u64,
    cr2: u64,
    r: FaultOutcome,
)
    requires
        f.cs & 3 != 3,
        handlers::fault_taken(before, after, log_before, log_after, f, vector, code, cr2, r),
    ensures
        r is Halt,
        after == before,
        log_after.readable().len() > 0,
        ({
            let newest = log_after.readable().last();
            &&& newest.vector == vector
            &&& newest.rip == f.rip
            &&& newest.rflags == f.rflags
            &&& newest.cr2 == cr2
            &&& newest.tick == before.ticks
            &&& newest.pid == before.global.current_pid
        }),
{
    crash_log::law_written_record_is_read(
        log_before,
        log_after,
        handlers::fault_record(f, vector, cr2, before.ticks, before.global.current_pid),
    );
}

/// Choosing the next process after one has ended changes no mail.
proof fn lemma_forced(s: SchedState, next_pid: u32, pid: ProcessId)
    requires
        table::pids_distinct(s.slots, next_pid),
        table::has_process(s.slots, pid),
    ensures
        ({
            let t = round_robin::after_force(s).0;
            let p = table::lookup(s.slots, pid);
            let q = table::lookup(t.slots, pid);
            &&& table::has_process(t.slots, pid)
            &&& q == ProcessControlBlock { state: q.state, ..p }
            &&& q.state is Blocked ==> p.state is Blocked
        }),
{
    let picked = policy::pick(s.slots, s.queue_index);
    if picked is Some {
        let next = (picked->0).0;
        policy::lemma_pick_runnable(s.slots, next_pid, s.queue_index);
        effects::lemma_own_pid(s.slots, next);
        let q = ProcessControlBlock {
            state: crate::process::pcb::ProcessState::Running,
            ..table::lookup(s.slots, next)
        };
        effects::lemma_block_replaced(s.slots, next_pid, next, q, pid);
    }
}

/// A fault of a user process ends that process and leaves the crash log alone. The
/// monitor, process 1, is told the code of the fault and the PID, if it has room
/// for a message and the process may still send one; it is awake then. The
/// processor goes on with the process that is chosen next, in its address space
/// and on its kernel stack.
#[verifier::spinoff_prover]
#[verifier::rlimit(60)]
pub proof fn law_user_fault_ends_the_process(
    before: Kernel,
    after: Kernel,
    log_before: CrashLog,
    log_after: CrashLog,
    f: ExceptionFrame,
    vector: u64,
    code: u64,
    cr2: u64,
    r: FaultOutcome,
)
    requires
        before.wf(),
        after.wf(),
        before.scheduling(),
        f.cs & 3 == 3,
        before.global.current_pid != 1,
        before.sched().countable(before.current(), ProcessId(1)),
        handlers::fault_taken(before, after, log_before, log_after, f, vector, code, cr2, r),
    ensures
        log_after == log_before,
        !(r is Halt),
        !after.sched().has(before.current()),
        r matches FaultOutcome::Switch(t) ==> {
            &&& after.global.current_pid == t.to.0
            &&& effects::leads_to_current(after.sched().state(), t.to, t.pml4, t.kernel_rsp)
        },
        ({
            let monitor = ProcessId(1);
            let p = before.sched().pcb(before.current());
            let q = before.sched().pcb(monitor);
            let mail = after.sched().pcb(monitor).mailbox@;
            before.sched().has(monitor) && q.mailbox@.len() < 16 && !(before.sched().has(
                before.current(),
            ) && p.ipc_rate_limit > 0 && p.ipc_rate_used >= p.ipc_rate_limit) ==> {
                &&& after.sched().has(monitor)
                &&& mail.len() == q.mailbox@.len() + 1
                &&& mail.last().sender == before.current()
                &&& mail.last().data@[0] == code
                &&& mail.last().data@[1] == before.global.current_pid
                &&& !(after.sched().pcb(monitor).state is Blocked)
            }
        }),
{
    let s = before.sched();
    let me = before.current();
    let monitor = ProcessId(1);
    let target: Option<SwitchTarget> = match r {
        FaultOutcome::Switch(t) => Some(t),
        _ => None,
    };
    let (told, ended, msg, delivered) = choose|
        told: Scheduler,
        ended: Scheduler,
        msg: Message,
        delivered: bool,
    |
        {
            &&& handlers::fault_notice(msg, me, code)
            &&& #[trigger] round_robin::message_sent(s, told, me, monitor, msg, delivered)
            &&& #[trigger] round_robin::process_ended(
                told,
                ended,
                before.services.entries@,
                after.services.entries@,
                me,
            )
            &&& after.sched().same_resources(&ended)
            &&& (after.sched().state(), target) == round_robin::after_force(ended.state())
        };
    lemma_told(s, told, me, monitor, msg, delivered);
    assert(table::pids_distinct(ended.slots(), ended.process_table.next_pid)) by {
        if told.has(me) {
            assert(table::holds(told.slots(), table::slot_of(told.slots(), me), me));
        }
    }
    if after.sched().has(me) {
        let k = table::slot_of(after.sched().slots(), me);
        assert(table::holds(after.sched().slots(), k, me));
        if policy::pick(ended.slots(), ended.queue_index) is Some {
            let next = (policy::pick(ended.slots(), ended.queue_index)->0).0;
            policy::lemma_pick_runnable(
                ended.slots(),
                ended.process_table.next_pid,
                ended.queue_index,
            );
            effects::lemma_own_pid(ended.slots(), next);
            let q = ProcessControlBlock {
                state: crate::process::pcb::ProcessState::Running,
                ..ended.pcb(next)
            };
            if next != me {
                effects::lemma_block_replaced(
                    ended.slots(),
                    ended.process_table.next_pid,
                    next,
                    q,
                    me,
                );
            }
        }
    }
    if policy::pick(ended.slots(), ended.queue_index) is Some {
        effects::lemma_running(ended.state(), ended.process_table.next_pid);
    }
    if s.has(monitor) {
        let k = table::slot_of(told.slots(), monitor);
        assert(table::holds(told.slots(), k, monitor));
        assert(table::holds(ended.slots(), k, monitor));
        table::lemma_slot_unique(ended.slots(), ended.process_table.next_pid, k, monitor);
        lemma_forced(ended.state(), ended.process_table.next_pid, monitor);
    }
}

/// The scheduler after the monitor was told, whether or not the message was
/// accepted.
proof fn lemma_told(
    before: Scheduler,
    told: Scheduler,
    from: ProcessId,
    to: ProcessId,
    msg: Message,
    delivered: bool,
)
    requires
        before.wf(),
        before.countable(from, to),
        from != to,
        round_robin::message_sent(before, told, from, to, msg, delivered),
    ensures
        table::pids_distinct(told.slots(), told.process_table.next_pid),
        told.has(from) == before.has(from),
        before.has(to) ==> told.has(to),
        delivered <==> (before.has(to) && before.pcb(to).mailbox@.len() < 16 && !(before.has(from)
            && before.pcb(from).ipc_rate_limit > 0 && before.pcb(from).ipc_rate_used
            >= before.pcb(from).ipc_rate_limit)),
        delivered ==> {
            let q = told.pcb(to);
            &&& awake(before.pcb(to), q)
            &&& q.mailbox@ == before.pcb(to).mailbox@.push((Message { sender: from, ..msg }))
        },
{
    let slots = before.slots();
    let next_pid = before.process_table.next_pid;
    let charged = round_robin::slots_charged(slots, from, to);
    if before.has(from) {
        effects::lemma_own_pid(slots, from);
        effects::lemma_block_replaced(
            slots,
            next_pid,
            from,
            round_robin::sender_charged(before.pcb(from), to),
            to,
        );
    }
    if delivered {
        effects::lemma_own_pid(charged, to);
        effects::lemma_block_replaced(charged, next_pid, to, told.pcb(to), from);
    }
}

// ── The serial port ──────────────────────────────────────────────────────────
/// The kernel is no process: it has PID 0, and processes count from 1.
proof fn lemma_kernel_is_no_process(s: Scheduler)
    requires
        table::pids_distinct(s.slots(), s.process_table.next_pid),
    ensures
        !s.has(ProcessId(0)),
{
    if s.has(ProcessId(0)) {
        effects::lemma_own_pid(s.slots(), ProcessId(0));
    }
}

/// Bytes that came in on the serial port are the last of the driver's mail, in
/// the order in which they came: each is a message of the kernel, 0, that starts
/// with 2 and the byte. This holds as long as the driver has room for all of them.
pub proof fn law_serial_bytes_reach_the_driver(
    before: Scheduler,
    after: Scheduler,
    to: ProcessId,
    bytes: Seq<u8>,
    i: int,
)
    requires
        before.wf(),
        before.has(to),
        before.pcb(to).mailbox@.len() + bytes.len() <= 16,
        handlers::bytes_sent(before, after, to, bytes),
    ensures
        table::pids_distinct(after.slots(), after.process_table.next_pid),
        after.has(to),
        after.pcb(to).mailbox@.len() == before.pcb(to).mailbox@.len() + bytes.len(),
        0 <= i < before.pcb(to).mailbox@.len() ==> after.pcb(to).mailbox@[i] == before.pcb(
            to,
        ).mailbox@[i],
        before.pcb(to).mailbox@.len() <= i < after.pcb(to).mailbox@.len() ==> {
            let m = after.pcb(to).mailbox@[i];
            &&& m.sender == ProcessId(0)
            &&& m.data@[0] == 2
            &&& m.data@[1] == bytes[i - before.pcb(to).mailbox@.len()]
        },
        bytes.len() > 0 ==> !(after.pcb(to).state is Blocked),
    decreases bytes.len(),
{
    if bytes.len() > 0 {
        let middle = choose|middle: Scheduler|
            handlers::bytes_sent(before, middle, to, bytes.drop_last())
                && #[trigger] handlers::byte_sent(middle, after, to, bytes.last());
        law_serial_bytes_reach_the_driver(before, middle, to, bytes.drop_last(), i);
        let from = ProcessId(0);
        let (msg, delivered) = choose|msg: Message, delivered: bool|
            handlers::uart_message(msg, bytes.last()) && #[trigger] round_robin::message_sent(
                middle,
                after,
                from,
                to,
                msg,
                delivered,
            );
        lemma_kernel_is_no_process(middle);
        effects::lemma_own_pid(middle.slots(), to);
        effects::lemma_block_replaced(
            middle.slots(),
            middle.process_table.next_pid,
            to,
            after.pcb(to),
            from,
        );
    }
}

/// Without a registered driver, bytes of the serial port change nothing.
pub proof fn law_serial_bytes_need_a_driver(before: Kernel, after: Kernel, bytes: Seq<u8>)
    requires
        before.uart_irq.pid == 0xFFFF_FFFF,
        handlers::bytes_received(before, after, bytes),
    ensures
        after == before,
{
}

// ── The timer ────────────────────────────────────────────────────────────────
/// A timer interrupt counts one tick, also for the scheduler. If it asks for a
/// switch, the current process is the one that is switched to; if not, it is the
/// one that was current.
pub proof fn law_timer_interrupt_counts(
    before: Kernel,
    after: Kernel,
    switch: Option<ContextSwitch>,
)
    requires
        before.wf(),
        before.ticks < u64::MAX,
        before.scheduling() ==> before.sched().tickable(),
        handlers::timer_fired(before, after, switch),
    ensures
        after.ticks == before.ticks + 1,
        before.scheduling() ==> after.sched().tick == before.sched().tick + 1,
        switch matches Some(sw) ==> {
            &&& before.scheduling()
            &&& after.global.current_pid == sw.to.0
            &&& before.sched().current_process == Some(sw.from)
            &&& effects::leads_to_current(after.sched().state(), sw.to, sw.pml4, sw.kernel_rsp)
        },
        switch is None ==> after.global.current_pid == before.global.current_pid,
        after.mem == before.mem,
        after.services == before.services,
{
    if before.scheduling() {
        let s = before.sched();
        effects::law_switch_leads_to_the_current_process(
            s.state(),
            s.process_table.next_pid,
            ProcessId(0),
        );
    }
}

} // verus!
