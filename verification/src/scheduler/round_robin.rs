//! The scheduler: process registration, time accounting, IPC and lifecycle.

use vstd::prelude::*;

use crate::ipc::Message;
use crate::process::pcb::{
    CapKind, Capability, ProcessControlBlock, ProcessState, CAP_TABLE_SIZE, KERNEL_STACKS_BYTES,
};
use crate::process::table::{ProcessTable, DEFAULT_STACK_BASE, MAX_PROCESSES};
use crate::process::ProcessId;
use crate::scheduler::audit::{AuditEntry, AuditKind, AuditLog};
use crate::scheduler::policy::pick_next;
use crate::service_registry::{unregister_all, ServiceEntry, ServiceRegistry};

verus! {

/// Ticks of one CPU budget frame.
pub const CPU_BUDGET_FRAME_TICKS: u64 = 1000;

/// Ticks of one IPC rate window.
pub const IPC_RATE_WINDOW_TICKS: u64 = 100;

/// Ticks until the next quantum boundary, at which the timer always fires.
pub const QUANTUM_BOUNDARY_TICKS: u32 = 1;

/// A context switch the caller has to perform: save into the context of
/// `from`, load the kernel stack pointer and address space of `to`, and
/// continue with the context of `to`.
#[derive(Copy, Clone, Debug, PartialEq, Eq, Structural)]
pub struct ContextSwitch {
    pub from: ProcessId,
    pub to: ProcessId,
    pub pml4: u64,
    pub kernel_rsp: u64,
}

/// The process to continue with when there is no context to save.
#[derive(Copy, Clone, Debug, PartialEq, Eq, Structural)]
pub struct SwitchTarget {
    pub to: ProcessId,
    pub pml4: u64,
    pub kernel_rsp: u64,
}

/// Priority scheduler with real-time tier, IPC and audit log.
#[derive(Debug)]
pub struct Scheduler {
    pub process_table: ProcessTable,
    pub current_process: Option<ProcessId>,
    /// Round-robin position within the best priority level.
    pub queue_index: usize,
    pub audit: AuditLog,
    /// Ticks since the scheduler was created.
    pub tick: u64,
}

/// What the scheduling decisions depend on.
#[verifier::ext_equal]
pub struct SchedState {
    pub slots: crate::process::table::Slots,
    pub current: Option<ProcessId>,
    pub queue_index: usize,
    pub tick: u64,
}

// ── Effects of a timer tick on one process ───────────────────────────────────
/// A process after the periodic work of tick `tick`: its deadline is checked,
/// and its counters start anew at the start of a window or frame.
pub open spec fn refreshed(p: ProcessControlBlock, tick: u64) -> ProcessControlBlock {
    let p1 = crate::process::table::deadline_checked(p, tick);
    ProcessControlBlock {
        ipc_rate_used: if tick % IPC_RATE_WINDOW_TICKS == 0 {
            0
        } else {
            p1.ipc_rate_used
        },
        cpu_budget_used: if tick % CPU_BUDGET_FRAME_TICKS == 0 {
            0
        } else {
            p1.cpu_budget_used
        },
        ..p1
    }
}

/// The running process after it is charged one tick.
pub open spec fn charged(p: ProcessControlBlock) -> ProcessControlBlock {
    ProcessControlBlock {
        cpu_time: (p.cpu_time + 1) as u32,
        total_cpu_ticks: (p.total_cpu_ticks + 1) as u64,
        cpu_budget_used: if p.cpu_budget_ticks > 0 {
            (p.cpu_budget_used + 1) as u32
        } else {
            p.cpu_budget_used
        },
        ..p
    }
}

/// A process has used up its quantum or its budget.
pub open spec fn expired(p: ProcessControlBlock) -> bool {
    p.cpu_time >= p.time_slice || (p.cpu_budget_ticks > 0 && p.cpu_budget_used
        >= p.cpu_budget_ticks)
}

/// A running process becomes ready; any other keeps its state.
pub open spec fn descheduled(state: ProcessState) -> ProcessState {
    if state is Running {
        ProcessState::Ready
    } else {
        state
    }
}

/// A process after it is preempted at `tick`: its quantum starts anew, and an
/// elapsed real-time deadline moves on by one period.
pub open spec fn preempted(p: ProcessControlBlock, tick: u64) -> ProcessControlBlock {
    ProcessControlBlock {
        cpu_time: 0,
        state: descheduled(p.state),
        rt_deadline: if p.rt_period > 0 && p.rt_deadline <= tick {
            (p.rt_deadline + p.rt_period) as u64
        } else {
            p.rt_deadline
        },
        ..p
    }
}

/// The counters of `p` have room for one more tick, charged at `tick`.
pub open spec fn chargeable(p: ProcessControlBlock, tick: u64) -> bool {
    &&& p.cpu_time < u32::MAX
    &&& p.total_cpu_ticks < u64::MAX
    &&& p.cpu_budget_ticks > 0 ==> p.cpu_budget_used < u32::MAX
    &&& p.rt_period > 0 && p.rt_deadline <= tick ==> p.rt_deadline + p.rt_period <= u64::MAX
}

// ── Scheduling steps ─────────────────────────────────────────────────────────
/// The state after process `pid` is made the running one.
pub open spec fn running(s: SchedState, pid: ProcessId, queue_index: usize) -> SchedState {
    SchedState {
        slots: crate::process::table::with_process(
            s.slots,
            pid,
            ProcessControlBlock {
                state: ProcessState::Running,
                ..crate::process::table::lookup(s.slots, pid)
            },
        ),
        current: Some(pid),
        queue_index,
        ..s
    }
}

/// The switch from process `from` to process `to`.
pub open spec fn switch_between(s: SchedState, from: ProcessId, to: ProcessId) -> ContextSwitch {
    let p = crate::process::table::lookup(s.slots, to);
    ContextSwitch { from, to, pml4: p.page_table_base, kernel_rsp: p.kernel_rsp }
}

/// State and switch after process `from` gives way to the next process.
pub open spec fn give_way(s: SchedState, from: ProcessId) -> (SchedState, Option<ContextSwitch>) {
    match crate::scheduler::policy::pick(s.slots, s.queue_index) {
        None => (s, None),
        Some((next, queue_index)) => (
            running(s, next, queue_index),
            if next == from {
                None
            } else {
                Some(switch_between(s, from, next))
            },
        ),
    }
}

/// State and choice after the next process is chosen and made current.
pub open spec fn after_schedule(s: SchedState) -> (SchedState, Option<ProcessId>) {
    match crate::scheduler::policy::pick(s.slots, s.queue_index) {
        None => (SchedState { current: None, ..s }, None),
        Some((next, queue_index)) => (
            SchedState { current: Some(next), queue_index, ..s },
            Some(next),
        ),
    }
}

/// The state after the periodic work of the next tick.
pub open spec fn ticked(s: SchedState) -> SchedState {
    let tick = (s.tick + 1) as u64;
    SchedState {
        slots: crate::process::table::map_slots(
            s.slots,
            |p: ProcessControlBlock| refreshed(p, tick),
        ),
        tick,
        ..s
    }
}

/// State and switch after a timer tick.
pub open spec fn after_timer_tick(s: SchedState) -> (SchedState, Option<ContextSwitch>) {
    let t = ticked(s);
    if s.current is Some && crate::process::table::has_process(t.slots, s.current->0) {
        let c = s.current->0;
        let p = charged(crate::process::table::lookup(t.slots, c));
        if expired(p) {
            give_way(
                SchedState {
                    slots: crate::process::table::with_process(t.slots, c, preempted(p, t.tick)),
                    ..t
                },
                c,
            )
        } else {
            (
                SchedState { slots: crate::process::table::with_process(t.slots, c, p), ..t },
                None,
            )
        }
    } else {
        (t, None)
    }
}

/// State and switch after the running process yields at once.
pub open spec fn after_yield(s: SchedState) -> (SchedState, Option<ContextSwitch>) {
    match s.current {
        None => (s, None),
        Some(c) => if crate::process::table::has_process(s.slots, c) {
            let p = crate::process::table::lookup(s.slots, c);
            give_way(
                SchedState {
                    slots: crate::process::table::with_process(
                        s.slots,
                        c,
                        ProcessControlBlock { cpu_time: 0, state: descheduled(p.state), ..p },
                    ),
                    ..s
                },
                c,
            )
        } else {
            match crate::scheduler::policy::pick(s.slots, s.queue_index) {
                None => (s, None),
                Some((next, queue_index)) => (
                    SchedState { current: Some(next), queue_index, ..s },
                    None,
                ),
            }
        },
    }
}

/// State and switch after `blocked` gives up the processor because it blocked.
pub open spec fn after_block(s: SchedState, blocked: ProcessId) -> (
    SchedState,
    Option<ContextSwitch>,
) {
    match crate::scheduler::policy::pick(s.slots, s.queue_index) {
        None => (s, None),
        Some((next, queue_index)) => if crate::process::table::has_process(s.slots, blocked) {
            (running(s, next, queue_index), Some(switch_between(s, blocked, next)))
        } else {
            (SchedState { queue_index, ..s }, None)
        },
    }
}

/// State and target after the next process is chosen with nothing to save.
pub open spec fn after_force(s: SchedState) -> (SchedState, Option<SwitchTarget>) {
    match crate::scheduler::policy::pick(s.slots, s.queue_index) {
        None => (s, None),
        Some((next, queue_index)) => {
            let p = crate::process::table::lookup(s.slots, next);
            (
                running(s, next, queue_index),
                Some(
                    SwitchTarget {
                        to: next,
                        pml4: p.page_table_base,
                        kernel_rsp: p.kernel_rsp,
                    },
                ),
            )
        },
    }
}

/// Ticks from `tick` until the deadline `d`, at least 1 and cut off at
/// `u32::MAX`; 1 if there is no deadline.
pub open spec fn ticks_until(d: u64, tick: u64) -> u32 {
    if d == u64::MAX || d <= tick {
        1
    } else if d - tick > u32::MAX {
        u32::MAX
    } else {
        (d - tick) as u32
    }
}

/// Ticks until the next event: the quantum boundary one tick ahead, or the
/// deadline `d` if that comes first.
pub open spec fn until_event(d: u64, tick: u64) -> u32 {
    if ticks_until(d, tick) < QUANTUM_BOUNDARY_TICKS {
        ticks_until(d, tick)
    } else {
        QUANTUM_BOUNDARY_TICKS
    }
}

/// A process made real-time at `tick` with the given period, 0 for best effort.
pub open spec fn realtime(p: ProcessControlBlock, tick: u64, period: u64) -> ProcessControlBlock {
    ProcessControlBlock {
        rt_period: period,
        rt_deadline: if period > 0 {
            (tick + period) as u64
        } else {
            0
        },
        ..p
    }
}

/// A process may map one more page.
pub open spec fn within_quota(p: ProcessControlBlock) -> bool {
    p.memory_quota_pages == 0 || p.memory_pages_used < p.memory_quota_pages
}

/// A process after one more page is counted.
pub open spec fn page_counted(p: ProcessControlBlock) -> ProcessControlBlock {
    ProcessControlBlock {
        memory_pages_used: if p.memory_pages_used < u32::MAX {
            (p.memory_pages_used + 1) as u32
        } else {
            u32::MAX
        },
        ..p
    }
}

/// The capability in slot `slot` of process `pid`.
pub open spec fn cap_at(
    slots: crate::process::table::Slots,
    pid: ProcessId,
    slot: int,
) -> Option<Capability> {
    if 0 <= slot < CAP_TABLE_SIZE && crate::process::table::has_process(slots, pid)
        && !(crate::process::table::lookup(slots, pid).cap_table@[slot].kind is Empty) {
        Some(crate::process::table::lookup(slots, pid).cap_table@[slot])
    } else {
        None
    }
}

// ── IPC ──────────────────────────────────────────────────────────────────────
/// A process may send no more messages in this rate window.
pub open spec fn rate_limited(p: ProcessControlBlock) -> bool {
    p.ipc_rate_limit > 0 && p.ipc_rate_used >= p.ipc_rate_limit
}

/// The sender of a message to `to`: one more message counted, and waiting for `to`.
pub open spec fn sender_charged(p: ProcessControlBlock, to: ProcessId) -> ProcessControlBlock {
    ProcessControlBlock {
        ipc_rate_used: (p.ipc_rate_used + 1) as u16,
        waiting_for: Some(to),
        ..p
    }
}

/// The slots after `from` is charged for a message to `to`.
pub open spec fn slots_charged(
    slots: crate::process::table::Slots,
    from: ProcessId,
    to: ProcessId,
) -> crate::process::table::Slots {
    if crate::process::table::has_process(slots, from) {
        crate::process::table::with_process(
            slots,
            from,
            sender_charged(crate::process::table::lookup(slots, from), to),
        )
    } else {
        slots
    }
}

/// A process after something arrives in its mailbox: woken if it was blocked.
pub open spec fn stirred(p: ProcessControlBlock) -> ProcessControlBlock {
    if p.state is Blocked {
        crate::process::table::woken(p)
    } else {
        p
    }
}

/// `q` is `p` with message `m` delivered.
pub open spec fn delivered(p: ProcessControlBlock, q: ProcessControlBlock, m: Message) -> bool {
    &&& q == ProcessControlBlock { mailbox: q.mailbox, ..stirred(p) }
    &&& q.mailbox.wf()
    &&& q.mailbox@ == p.mailbox@.push(m)
    &&& q.mailbox.pending_notification == p.mailbox.pending_notification
}

/// `q` is `p` with the notification bits `word` posted.
pub open spec fn notified(p: ProcessControlBlock, q: ProcessControlBlock, word: u64) -> bool {
    &&& q == ProcessControlBlock { mailbox: q.mailbox, ..stirred(p) }
    &&& q.mailbox.wf()
    &&& q.mailbox@ == p.mailbox@
    &&& q.mailbox.pending_notification == p.mailbox.pending_notification | word
}

/// `q` is `p` after it took the oldest message from its mailbox.
pub open spec fn took_message(p: ProcessControlBlock, q: ProcessControlBlock) -> bool {
    &&& q == ProcessControlBlock { mailbox: q.mailbox, waiting_for: None, ..p }
    &&& q.mailbox.wf()
    &&& q.mailbox@ == p.mailbox@.drop_first()
    &&& q.mailbox.pending_notification == p.mailbox.pending_notification
}

/// A process that blocks at `tick` for at most `timeout` ticks, `u64::MAX` meaning forever.
pub open spec fn blocked_until(
    p: ProcessControlBlock,
    tick: u64,
    timeout: u64,
) -> ProcessControlBlock {
    ProcessControlBlock {
        state: ProcessState::Blocked,
        blocked_deadline: if timeout == u64::MAX || tick + timeout > u64::MAX {
            u64::MAX
        } else {
            (tick + timeout) as u64
        },
        ..p
    }
}

/// Outcome `r` of sending `msg` from `from` to `to`.
pub open spec fn message_sent(
    before: Scheduler,
    after: Scheduler,
    from: ProcessId,
    to: ProcessId,
    msg: Message,
    r: bool,
) -> bool {
    let charged = slots_charged(before.slots(), from, to);
    let receiver = crate::process::table::lookup(charged, to);
    &&& after.process_table.next_pid == before.process_table.next_pid
    &&& after.process_table.stacks == before.process_table.stacks
    &&& if !before.has(to) || (before.has(from) && rate_limited(before.pcb(from))) {
        !r && after.state() == before.state() && after.audit == before.audit
    } else if receiver.mailbox@.len() >= crate::ipc::message::QUEUE_CAPACITY {
        &&& !r
        &&& after.state() == SchedState { slots: charged, ..before.state() }
        &&& after.audit == before.audit
    } else {
        &&& r
        &&& delivered(receiver, after.pcb(to), Message { sender: from, ..msg })
        &&& after.state() == SchedState {
            slots: crate::process::table::with_process(charged, to, after.pcb(to)),
            ..before.state()
        }
        &&& after.audit@ == crate::scheduler::audit::recorded(
            before.audit@,
            AuditEntry {
                tick: before.tick,
                kind: AuditKind::Send,
                sender: from.0,
                target: to.0,
            },
        )
    }
}

/// Outcome `r` of `pid` receiving with the given timeout.
pub open spec fn message_received(
    before: Scheduler,
    after: Scheduler,
    pid: ProcessId,
    timeout: u64,
    r: Option<Message>,
) -> bool {
    let p = before.pcb(pid);
    &&& after.process_table.next_pid == before.process_table.next_pid
    &&& after.process_table.stacks == before.process_table.stacks
    &&& if !before.has(pid) || (p.mailbox@.len() == 0 && timeout == 0) {
        r is None && after.state() == before.state() && after.audit == before.audit
    } else if p.mailbox@.len() > 0 {
        &&& r == Some(p.mailbox@[0])
        &&& took_message(p, after.pcb(pid))
        &&& after.state() == SchedState {
            slots: crate::process::table::with_process(before.slots(), pid, after.pcb(pid)),
            ..before.state()
        }
        &&& after.audit@ == crate::scheduler::audit::recorded(
            before.audit@,
            AuditEntry {
                tick: before.tick,
                kind: AuditKind::Receive,
                sender: p.mailbox@[0].sender.0,
                target: pid.0,
            },
        )
    } else {
        &&& r is None
        &&& after.state() == SchedState {
            slots: crate::process::table::with_process(
                before.slots(),
                pid,
                blocked_until(p, before.tick, timeout),
            ),
            ..before.state()
        }
        &&& after.audit@ == crate::scheduler::audit::recorded(
            before.audit@,
            AuditEntry { tick: before.tick, kind: AuditKind::Block, sender: 0, target: pid.0 },
        )
    }
}

/// `after` is `before` with the block of `pid`, if there is one, replaced by `q`.
pub open spec fn process_updated(
    before: Scheduler,
    after: Scheduler,
    pid: ProcessId,
    q: ProcessControlBlock,
) -> bool {
    if before.has(pid) {
        after.replaces(&before, pid, q)
    } else {
        after == before
    }
}

/// Outcome `r` of registering a process that starts at `entry` in the kernel.
pub open spec fn process_added(
    before: Scheduler,
    after: Scheduler,
    entry: u64,
    page_table_base: u64,
    r: Option<ProcessId>,
) -> bool {
    let table = before.process_table;
    &&& after.audit == before.audit
    &&& after.state() == SchedState { slots: after.slots(), ..before.state() }
    &&& if crate::process::table::all_taken(before.slots()) || table.stacks.candidate() is None {
        r is None && after == before
    } else {
        let pid = ProcessId(table.next_pid);
        let id = table.stacks.candidate()->0;
        let rsp = (table.stacks.top(id as int) - 8) as u64;
        &&& r == Some(pid)
        &&& crate::process::table::created(table, after.process_table, after.pcb(pid))
        &&& crate::process::pcb::stack_taken(table.stacks, after.process_table.stacks, entry)
        &&& crate::process::pcb::is_fresh(
            after.pcb(pid),
            pid,
            crate::process::pcb::kernel_context(entry, rsp),
            id,
            rsp,
            page_table_base,
        )
    }
}

/// Outcome `r` of registering a process that starts at `entry` in ring 3.
pub open spec fn ring3_added(
    before: Scheduler,
    after: Scheduler,
    entry: u64,
    stack_top: u64,
    page_table_base: u64,
    trampoline: u64,
    r: Option<ProcessId>,
) -> bool {
    let table = before.process_table;
    &&& after.audit == before.audit
    &&& after.state() == SchedState { slots: after.slots(), ..before.state() }
    &&& if crate::process::table::all_taken(before.slots()) || table.stacks.candidate() is None {
        r is None && after == before
    } else {
        let pid = ProcessId(table.next_pid);
        let id = table.stacks.candidate()->0;
        let top = table.stacks.top(id as int) as u64;
        &&& r == Some(pid)
        &&& crate::process::table::created(table, after.process_table, after.pcb(pid))
        &&& crate::process::pcb::stack_taken(table.stacks, after.process_table.stacks, trampoline)
        &&& crate::process::pcb::is_fresh(
            after.pcb(pid),
            pid,
            crate::process::pcb::ring3_context(entry, stack_top, trampoline, (top - 8) as u64),
            id,
            top,
            page_table_base,
        )
    }
}

/// Outcome `r` of posting the notification bits `word` to `to`.
pub open spec fn notification_sent(
    before: Scheduler,
    after: Scheduler,
    to: ProcessId,
    word: u64,
    r: bool,
) -> bool {
    &&& r == before.has(to)
    &&& !r ==> after == before
    &&& r ==> {
        &&& notified(before.pcb(to), after.pcb(to), word)
        &&& after.process_table.next_pid == before.process_table.next_pid
        &&& after.process_table.stacks == before.process_table.stacks
        &&& after.state() == SchedState {
            slots: crate::process::table::with_process(before.slots(), to, after.pcb(to)),
            ..before.state()
        }
        &&& after.audit@ == crate::scheduler::audit::recorded(
            before.audit@,
            AuditEntry { tick: before.tick, kind: AuditKind::Unblock, sender: 0, target: to.0 },
        )
    }
}

/// Process `pid` is ended: its slot and stack are free, and the services it
/// provided are gone.
pub open spec fn process_ended(
    before: Scheduler,
    after: Scheduler,
    services_before: Seq<ServiceEntry>,
    services_after: Seq<ServiceEntry>,
    pid: ProcessId,
) -> bool {
    &&& !after.has(pid)
    &&& crate::process::table::removed(before.process_table, after.process_table, pid)
    &&& after.current_process == if before.current_process == Some(pid) {
        None
    } else {
        before.current_process
    }
    &&& after.queue_index == before.queue_index
    &&& after.tick == before.tick
    &&& after.audit@ == crate::scheduler::audit::recorded(
        before.audit@,
        AuditEntry { tick: before.tick, kind: AuditKind::Terminate, sender: 0, target: pid.0 },
    )
    &&& crate::service_registry::all_unregistered(services_before, services_after, pid.0)
}

/// The frames that process `pid` was loaded into, none if there is no such process.
pub open spec fn frames_of(s: Scheduler, pid: ProcessId) -> Seq<u64> {
    if s.has(pid) {
        s.pcb(pid).user_frames@
    } else {
        Seq::empty()
    }
}

/// Sending a message leaves the frames of the sender alone.
pub proof fn lemma_sending_keeps_frames(
    before: Scheduler,
    after: Scheduler,
    from: ProcessId,
    to: ProcessId,
    msg: Message,
    r: bool,
)
    requires
        before.wf(),
        after.wf(),
        message_sent(before, after, from, to, msg, r),
    ensures
        frames_of(after, from) == frames_of(before, from),
{
    let slots = before.slots();
    let next_pid = before.process_table.next_pid;
    let charged = slots_charged(slots, from, to);
    if before.has(from) {
        let k = crate::process::table::slot_of(slots, from);
        assert(crate::process::table::holds(slots, k, from));
        assert(crate::process::table::holds(charged, k, from));
        assert(crate::process::table::pids_distinct(charged, next_pid));
    }
    if before.has(to) {
        let t = crate::process::table::slot_of(slots, to);
        assert(crate::process::table::holds(slots, t, to));
        assert(crate::process::table::holds(charged, t, to));
        crate::process::table::lemma_slot_unique(charged, next_pid, t, to);
    }
    if before.has(from) {
        let k = crate::process::table::slot_of(slots, from);
        assert(crate::process::table::holds(after.slots(), k, from));
        crate::process::table::lemma_slot_unique(after.slots(), next_pid, k, from);
    } else if after.has(from) {
        let k = crate::process::table::slot_of(after.slots(), from);
        assert(crate::process::table::holds(after.slots(), k, from));
        assert(crate::process::table::holds(slots, k, from));
    }
}

/// `after` is `before` with `frames` added to those of process `pid`.
pub open spec fn frames_registered(
    before: Scheduler,
    after: Scheduler,
    pid: ProcessId,
    frames: Seq<u64>,
) -> bool {
    let q = after.pcb(pid);
    if before.has(pid) {
        &&& after.replaces(&before, pid, q)
        &&& q == ProcessControlBlock { user_frames: q.user_frames, ..before.pcb(pid) }
        &&& q.user_frames@ == before.pcb(pid).user_frames@ + frames
    } else {
        after == before
    }
}

/// The process that gives up its quantum: used up, and no longer running.
pub open spec fn quantum_given_up(p: ProcessControlBlock) -> ProcessControlBlock {
    ProcessControlBlock { cpu_time: p.time_slice, state: descheduled(p.state), ..p }
}

/// Outcome `r` of storing `cap` in the capability table of `pid`.
pub open spec fn cap_placed(
    before: Scheduler,
    after: Scheduler,
    pid: ProcessId,
    cap: Capability,
    r: Option<usize>,
) -> bool {
    &&& after.only_table_changed(&before)
    &&& crate::process::table::cap_stored(before.process_table, after.process_table, pid, cap, r)
}

/// Outcome `r` of granting the capability in slot `slot` of `from` to `to`.
pub open spec fn cap_granted(
    before: Scheduler,
    after: Scheduler,
    from: ProcessId,
    slot: int,
    to: ProcessId,
    r: Option<usize>,
) -> bool {
    if crate::process::table::grantable(before.slots(), from, slot) {
        cap_placed(before, after, to, before.pcb(from).cap_table@[slot], r)
    } else {
        r is None && after == before
    }
}

impl Scheduler {
    pub open spec fn wf(&self) -> bool {
        &&& self.process_table.wf()
        &&& self.audit.wf()
    }

    pub open spec fn slots(&self) -> crate::process::table::Slots {
        self.process_table.processes@
    }

    pub open spec fn state(&self) -> SchedState {
        SchedState {
            slots: self.process_table.processes@,
            current: self.current_process,
            queue_index: self.queue_index,
            tick: self.tick,
        }
    }

    /// `self` has the kernel stacks, next PID and audit log of `other`.
    pub open spec fn same_resources(&self, other: &Self) -> bool {
        &&& self.process_table.next_pid == other.process_table.next_pid
        &&& self.process_table.stacks == other.process_table.stacks
        &&& self.audit == other.audit
    }

    /// `self` is `other` with the block of `pid` replaced by `q`.
    pub open spec fn replaces(&self, other: &Self, pid: ProcessId, q: ProcessControlBlock) -> bool {
        &&& self.same_resources(other)
        &&& self.state() == SchedState {
            slots: crate::process::table::with_process(other.slots(), pid, q),
            ..other.state()
        }
    }

    /// The counters that a timer tick advances have room.
    pub open spec fn tickable(&self) -> bool {
        &&& self.tick < u64::MAX
        &&& self.current_process is Some && self.has(self.current_process->0) ==> chargeable(
            refreshed(self.pcb(self.current_process->0), (self.tick + 1) as u64),
            (self.tick + 1) as u64,
        )
    }

    /// The message counter of `from` has room for a message to `to`.
    pub open spec fn countable(&self, from: ProcessId, to: ProcessId) -> bool {
        self.has(to) && self.has(from) && !rate_limited(self.pcb(from)) ==> self.pcb(
            from,
        ).ipc_rate_used < u16::MAX
    }

    pub open spec fn has(&self, pid: ProcessId) -> bool {
        crate::process::table::has_process(self.slots(), pid)
    }

    pub open spec fn pcb(&self, pid: ProcessId) -> ProcessControlBlock {
        crate::process::table::lookup(self.slots(), pid)
    }

    pub fn new() -> (r: Self)
        ensures
            r.wf(),
            r.tick == 0,
            r.current_process is None,
            r.queue_index == 0,
            r.audit.is_blank(),
            r.audit@ == Seq::<AuditEntry>::empty(),
            r.process_table.next_pid == 1,
            forall|i: int| 0 <= i < MAX_PROCESSES ==> (#[trigger] r.slots()[i]) is None,
            forall|pid: ProcessId| !r.has(pid),
            r.process_table.stacks.base == DEFAULT_STACK_BASE,
            r.process_table.stacks.next == 0,
            r.process_table.stacks.reclaim@ == Seq::<usize>::empty(),
            forall|k: int|
                0 <= k < KERNEL_STACKS_BYTES ==> r.process_table.stacks.memory@[k] == 0,
    {
        Self::with_table(ProcessTable::new())
    }

    /// A scheduler for the processes of `process_table`.
    pub fn with_table(process_table: ProcessTable) -> (r: Self)
        requires
            process_table.wf(),
        ensures
            r.wf(),
            r.tick == 0,
            r.current_process is None,
            r.queue_index == 0,
            r.audit.is_blank(),
            r.audit@ == Seq::<AuditEntry>::empty(),
            r.process_table == process_table,
    {
        Scheduler {
            process_table,
            current_process: None,
            queue_index: 0,
            audit: AuditLog::new(),
            tick: 0,
        }
    }

    // ── Registration and configuration ───────────────────────────────────────
    /// Registers a process that starts at `entry_point` in the kernel.
    pub fn add_process(&mut self, entry_point: u64, stack_addr: u64, page_table_base: u64) -> (r:
        Option<ProcessId>)
        requires
            old(self).wf(),
            old(self).process_table.next_pid < u32::MAX,
        ensures
            final(self).wf(),
            process_added(*old(self), *final(self), entry_point, page_table_base, r),
    {
        self.process_table.create_process(entry_point, stack_addr, page_table_base)
    }

    /// Registers a process that starts in ring 3 through the trampoline at
    /// `trampoline_addr`.
    pub fn add_ring3_process(
        &mut self,
        user_entry: u64,
        user_stack_top: u64,
        page_table_base: u64,
        trampoline_addr: u64,
    ) -> (r: Option<ProcessId>)
        requires
            old(self).wf(),
            old(self).process_table.next_pid < u32::MAX,
        ensures
            final(self).wf(),
            ring3_added(
                *old(self),
                *final(self),
                user_entry,
                user_stack_top,
                page_table_base,
                trampoline_addr,
                r,
            ),
    {
        self.process_table.create_ring3_process(
            user_entry,
            user_stack_top,
            page_table_base,
            trampoline_addr,
        )
    }

    /// Sets the priority of `pid`, 0 highest.
    pub fn set_priority(&mut self, pid: ProcessId, priority: u8)
        requires
            old(self).wf(),
        ensures
            final(self).wf(),
            process_updated(
                *old(self),
                *final(self),
                pid,
                ProcessControlBlock { priority, ..old(self).pcb(pid) },
            ),
    {
        match self.process_table.get_process(pid) {
            Some(pcb) => {
                pcb.priority = priority;
            },
            None => {},
        }
        proof {
            if old(self).has(pid) {
                crate::process::table::lemma_replaced(
                    old(self).process_table,
                    self.process_table,
                    pid,
                    ProcessControlBlock { priority, ..old(self).pcb(pid) },
                );
            }
        }
    }

    /// Makes `pid` a real-time process with the given period, or a best-effort
    /// process if the period is 0. The first deadline is one period from now.
    pub fn set_realtime(&mut self, pid: ProcessId, period_ticks: u64)
        requires
            old(self).wf(),
            old(self).has(pid) ==> old(self).tick + period_ticks <= u64::MAX,
        ensures
            final(self).wf(),
            process_updated(
                *old(self),
                *final(self),
                pid,
                realtime(old(self).pcb(pid), old(self).tick, period_ticks),
            ),
    {
        let tick: u64 = self.tick;
        match self.process_table.get_process(pid) {
            Some(pcb) => {
                pcb.rt_period = period_ticks;
                pcb.rt_deadline = if period_ticks > 0 {
                    tick + period_ticks
                } else {
                    0
                };
            },
            None => {},
        }
        proof {
            if old(self).has(pid) {
                crate::process::table::lemma_replaced(
                    old(self).process_table,
                    self.process_table,
                    pid,
                    ProcessControlBlock {
                        rt_period: period_ticks,
                        rt_deadline: if period_ticks > 0 {
                            (old(self).tick + period_ticks) as u64
                        } else {
                            0
                        },
                        ..old(self).pcb(pid)
                    },
                );
            }
        }
    }

    /// Sets the limits of `pid`; 0 means no limit.
    pub fn set_quotas(
        &mut self,
        pid: ProcessId,
        memory_quota_pages: u32,
        cpu_budget_ticks: u32,
        ipc_rate_limit: u16,
    )
        requires
            old(self).wf(),
        ensures
            final(self).wf(),
            process_updated(
                *old(self),
                *final(self),
                pid,
                ProcessControlBlock {
                    memory_quota_pages,
                    cpu_budget_ticks,
                    ipc_rate_limit,
                    ..old(self).pcb(pid)
                },
            ),
    {
        match self.process_table.get_process(pid) {
            Some(pcb) => {
                pcb.memory_quota_pages = memory_quota_pages;
                pcb.cpu_budget_ticks = cpu_budget_ticks;
                pcb.ipc_rate_limit = ipc_rate_limit;
            },
            None => {},
        }
        proof {
            if old(self).has(pid) {
                crate::process::table::lemma_replaced(
                    old(self).process_table,
                    self.process_table,
                    pid,
                    ProcessControlBlock {
                        memory_quota_pages,
                        cpu_budget_ticks,
                        ipc_rate_limit,
                        ..old(self).pcb(pid)
                    },
                );
            }
        }
    }

    /// Notes `frames` as frames of `pid`, which are given back when it ends.
    pub fn register_user_frames(&mut self, pid: ProcessId, frames: &[u64])
        requires
            old(self).wf(),
        ensures
            final(self).wf(),
            frames_registered(*old(self), *final(self), pid, frames@),
    {
        match self.process_table.get_process(pid) {
            Some(pcb) => {
                pcb.user_frames.extend_from_slice(frames);
            },
            None => {
                return ;
            },
        }
        proof {
            let i = crate::process::table::slot_of(old(self).slots(), pid);
            assert(crate::process::table::holds(old(self).slots(), i, pid));
            let q = self.slots()[i]->0;
            crate::process::table::lemma_replaced(
                old(self).process_table,
                self.process_table,
                pid,
                q,
            );
            assert(q.user_frames@ =~= old(self).pcb(pid).user_frames@ + frames@);
        }
    }

    // ── Scheduling ───────────────────────────────────────────────────────────
    pub fn current_process(&self) -> (r: Option<ProcessId>)
        ensures
            r == self.current_process,
    {
        self.current_process
    }

    /// Declares `pid` the running process without choosing anew.
    pub fn set_current(&mut self, pid: ProcessId)
        requires
            old(self).wf(),
        ensures
            final(self).wf(),
            final(self).same_resources(old(self)),
            final(self).state() == (SchedState { current: Some(pid), ..old(self).state() }),
    {
        self.current_process = Some(pid);
    }

    /// Chooses the next process to run; `None` if none is runnable.
    pub fn schedule(&mut self) -> (r: Option<ProcessId>)
        requires
            old(self).wf(),
        ensures
            final(self).wf(),
            final(self).same_resources(old(self)),
            (final(self).state(), r) == after_schedule(old(self).state()),
    {
        let next = self.pick_next_priority();
        self.current_process = next;
        next
    }

    /// Picks the next process and advances the round-robin position.
    fn pick_next_priority(&mut self) -> (r: Option<ProcessId>)
        requires
            old(self).wf(),
        ensures
            final(self).wf(),
            final(self).same_resources(old(self)),
            match crate::scheduler::policy::pick(old(self).slots(), old(self).queue_index) {
                None => r is None && *final(self) == *old(self),
                Some((next, queue_index)) => {
                    &&& r == Some(next)
                    &&& final(self).process_table == old(self).process_table
                    &&& final(self).state() == (SchedState { queue_index, ..old(self).state() })
                    &&& old(self).has(next)
                },
            },
    {
        match pick_next(&self.process_table, self.queue_index) {
            Some((next, queue_index)) => {
                proof {
                    crate::scheduler::policy::lemma_pick_runnable(
                        self.slots(),
                        self.process_table.next_pid,
                        self.queue_index,
                    );
                }
                self.queue_index = queue_index;
                Some(next)
            },
            None => None,
        }
    }

    /// Makes `pid` the running process and gives its address space and kernel stack.
    fn run(&mut self, pid: ProcessId) -> (r: (u64, u64))
        requires
            old(self).wf(),
            old(self).has(pid),
        ensures
            final(self).wf(),
            final(self).same_resources(old(self)),
            final(self).state() == running(old(self).state(), pid, old(self).queue_index),
            r == (old(self).pcb(pid).page_table_base, old(self).pcb(pid).kernel_rsp),
    {
        self.current_process = Some(pid);
        let r = match self.process_table.get_process(pid) {
            Some(pcb) => {
                pcb.state = ProcessState::Running;
                (pcb.page_table_base, pcb.kernel_rsp)
            },
            None => (0, 0),
        };
        proof {
            crate::process::table::lemma_replaced(
                old(self).process_table,
                self.process_table,
                pid,
                ProcessControlBlock { state: ProcessState::Running, ..old(self).pcb(pid) },
            );
        }
        r
    }

    /// Lets `from` give way to the next process.
    fn give_way(&mut self, from: ProcessId) -> (r: Option<ContextSwitch>)
        requires
            old(self).wf(),
        ensures
            final(self).wf(),
            final(self).same_resources(old(self)),
            (final(self).state(), r) == give_way(old(self).state(), from),
    {
        match self.pick_next_priority() {
            Some(next) => {
                let (pml4, kernel_rsp) = self.run(next);
                if next == from {
                    None
                } else {
                    Some(ContextSwitch { from, to: next, pml4, kernel_rsp })
                }
            },
            None => None,
        }
    }

    /// One timer tick: wakes processes whose deadline has come, charges the
    /// running process, and, if its quantum or budget is used up, chooses the
    /// next one. Gives the context switch to perform, if any.
    pub fn timer_tick(&mut self) -> (r: Option<ContextSwitch>)
        requires
            old(self).wf(),
            old(self).tickable(),
        ensures
            final(self).wf(),
            final(self).same_resources(old(self)),
            (final(self).state(), r) == after_timer_tick(old(self).state()),
    {
        let tick: u64 = self.tick + 1;
        self.tick = tick;
        self.process_table.check_deadlines(tick);
        if tick % IPC_RATE_WINDOW_TICKS == 0 {
            self.process_table.reset_ipc_rate_counters();
        }
        if tick % CPU_BUDGET_FRAME_TICKS == 0 {
            self.process_table.reset_cpu_budget_counters();
        }
        let ghost f = |p: ProcessControlBlock| refreshed(p, tick);
        proof {
            assert(self.slots() =~= crate::process::table::map_slots(old(self).slots(), f));
            assert(self.state() == ticked(old(self).state()));
        }
        let c = match self.current_process {
            Some(c) => c,
            None => return None,
        };
        proof {
            crate::process::table::lemma_map_slots(
                old(self).slots(),
                f,
                old(self).process_table.next_pid,
                c,
            );
        }
        let ghost before = *self;
        let ghost p = charged(self.pcb(c));
        let mut preempt: bool = false;
        match self.process_table.get_process(c) {
            Some(pcb) => {
                pcb.cpu_time = pcb.cpu_time + 1;
                pcb.total_cpu_ticks = pcb.total_cpu_ticks + 1;
                if pcb.cpu_budget_ticks > 0 {
                    pcb.cpu_budget_used = pcb.cpu_budget_used + 1;
                }
                if pcb.cpu_time >= pcb.time_slice || (pcb.cpu_budget_ticks > 0
                    && pcb.cpu_budget_used >= pcb.cpu_budget_ticks) {
                    pcb.cpu_time = 0;
                    if matches!(pcb.state, ProcessState::Running) {
                        pcb.state = ProcessState::Ready;
                    }
                    if pcb.rt_period > 0 && pcb.rt_deadline <= tick {
                        pcb.rt_deadline = pcb.rt_deadline + pcb.rt_period;
                    }
                    preempt = true;
                }
            },
            None => {
                return None;
            },
        }
        proof {
            let q = if expired(p) {
                preempted(p, tick)
            } else {
                p
            };
            crate::process::table::lemma_replaced(
                before.process_table,
                self.process_table,
                c,
                q,
            );
        }
        if !preempt {
            return None;
        }
        self.give_way(c)
    }

    /// Ticks until the timer has to fire: at the next quantum boundary, or at
    /// the earliest deadline of a blocked process if that comes first, and never
    /// at once. Deadlines are whole ticks, so that is one tick.
    pub fn ticks_until_next_event(&self) -> (r: u32)
        requires
            self.wf(),
        ensures
            r == 1,
            exists|d: u64|
                #![trigger crate::process::table::is_earliest_deadline(self.slots(), d)]
                crate::process::table::is_earliest_deadline(self.slots(), d) && r == until_event(
                    d,
                    self.tick,
                ),
    {
        let earliest: u64 = self.process_table.earliest_blocked_deadline();
        assert(crate::process::table::is_earliest_deadline(self.slots(), earliest));
        if earliest == u64::MAX || earliest <= self.tick {
            return 1;
        }
        let delta: u64 = earliest - self.tick;
        if delta < QUANTUM_BOUNDARY_TICKS as u64 {
            delta as u32
        } else {
            QUANTUM_BOUNDARY_TICKS
        }
    }

    // ── IPC ──────────────────────────────────────────────────────────────────
    /// Delivers `msg` from `from_pid` to the mailbox of `to_pid`, stamped with
    /// the sender's PID, and wakes the receiver if it is blocked.
    ///
    /// `false` if the receiver does not exist, its mailbox is full, or the
    /// sender has exceeded its rate limit. A sender is not charged for a
    /// message to a process that does not exist.
    pub fn send_message(&mut self, from_pid: ProcessId, to_pid: ProcessId, msg: Message) -> (r:
        bool)
        requires
            old(self).wf(),
            old(self).countable(from_pid, to_pid),
        ensures
            final(self).wf(),
            message_sent(*old(self), *final(self), from_pid, to_pid, msg, r),
    {
        if self.process_table.get_process_ref(to_pid).is_none() {
            return false;
        }
        match self.process_table.get_process(from_pid) {
            Some(sender) => {
                if sender.ipc_rate_limit > 0 && sender.ipc_rate_used >= sender.ipc_rate_limit {
                    proof {
                        let i = crate::process::table::slot_of(old(self).slots(), from_pid);
                        assert(crate::process::table::holds(old(self).slots(), i, from_pid));
                        assert(old(self).slots() =~= crate::process::table::with_process(
                            old(self).slots(),
                            from_pid,
                            old(self).pcb(from_pid),
                        ));
                    }
                    return false;
                }
                sender.ipc_rate_used = sender.ipc_rate_used + 1;
                sender.waiting_for = Some(to_pid);
            },
            None => {},
        }
        let ghost middle = *self;
        proof {
            if old(self).has(from_pid) {
                crate::process::table::lemma_replaced(
                    old(self).process_table,
                    self.process_table,
                    from_pid,
                    sender_charged(old(self).pcb(from_pid), to_pid),
                );
            }
            assert(self.slots() == slots_charged(old(self).slots(), from_pid, to_pid));
            assert(self.has(to_pid));
            let i = crate::process::table::slot_of(self.slots(), to_pid);
            assert(crate::process::table::holds(self.slots(), i, to_pid));
        }
        let mut stamped = msg;
        stamped.sender = from_pid;
        let mut sent: bool = false;
        match self.process_table.get_process(to_pid) {
            Some(pcb) => {
                sent = pcb.mailbox.send(stamped);
                if sent && matches!(pcb.state, ProcessState::Blocked) {
                    pcb.state = ProcessState::Ready;
                    pcb.blocked_deadline = u64::MAX;
                    pcb.waiting_for = None;
                }
            },
            None => {},
        }
        proof {
            let i = crate::process::table::slot_of(middle.slots(), to_pid);
            crate::process::table::lemma_slot_unique(
                middle.slots(),
                middle.process_table.next_pid,
                i,
                to_pid,
            );
            let q = self.slots()[i]->0;
            crate::process::table::lemma_replaced(
                middle.process_table,
                self.process_table,
                to_pid,
                q,
            );
            if !sent {
                assert(q == middle.pcb(to_pid));
                assert(self.slots() =~= middle.slots());
            } else {
                assert(delivered(middle.pcb(to_pid), q, stamped));
            }
        }
        if !sent {
            return false;
        }
        self.audit.push(
            AuditEntry {
                tick: self.tick,
                kind: AuditKind::Send,
                sender: from_pid.as_u32(),
                target: to_pid.as_u32(),
            },
        );
        true
    }

    /// Takes the oldest message of `pid`.
    ///
    /// If there is none, the process is blocked until a message arrives or
    /// `timeout_ticks` have passed; `u64::MAX` waits forever and 0 does not block.
    pub fn blocking_receive(&mut self, pid: ProcessId, timeout_ticks: u64) -> (r: Option<Message>)
        requires
            old(self).wf(),
        ensures
            final(self).wf(),
            message_received(*old(self), *final(self), pid, timeout_ticks, r),
    {
        let tick: u64 = self.tick;
        let mut got: Option<Message> = None;
        match self.process_table.get_process(pid) {
            Some(pcb) => {
                got = pcb.mailbox.receive();
                if got.is_some() {
                    pcb.waiting_for = None;
                } else if timeout_ticks != 0 {
                    pcb.state = ProcessState::Blocked;
                    pcb.blocked_deadline = if timeout_ticks == u64::MAX {
                        u64::MAX
                    } else {
                        tick.saturating_add(timeout_ticks)
                    };
                }
            },
            None => {
                return None;
            },
        }
        proof {
            let i = crate::process::table::slot_of(old(self).slots(), pid);
            assert(crate::process::table::holds(old(self).slots(), i, pid));
            let q = self.slots()[i]->0;
            crate::process::table::lemma_replaced(
                old(self).process_table,
                self.process_table,
                pid,
                q,
            );
            if got is None && timeout_ticks == 0 {
                assert(q == old(self).pcb(pid));
                assert(self.slots() =~= old(self).slots());
            }
        }
        match got {
            Some(msg) => {
                self.audit.push(
                    AuditEntry {
                        tick,
                        kind: AuditKind::Receive,
                        sender: msg.sender.as_u32(),
                        target: pid.as_u32(),
                    },
                );
                Some(msg)
            },
            None => {
                if timeout_ticks != 0 {
                    self.audit.push(
                        AuditEntry { tick, kind: AuditKind::Block, sender: 0, target: pid.as_u32() },
                    );
                }
                None
            },
        }
    }

    /// Posts notification bits to `to_pid` and wakes it if it is blocked;
    /// whether the process exists.
    pub fn notify_process(&mut self, to_pid: ProcessId, word: u64) -> (r: bool)
        requires
            old(self).wf(),
        ensures
            final(self).wf(),
            notification_sent(*old(self), *final(self), to_pid, word, r),
    {
        match self.process_table.get_process(to_pid) {
            Some(pcb) => {
                pcb.mailbox.notify(word);
                if matches!(pcb.state, ProcessState::Blocked) {
                    pcb.state = ProcessState::Ready;
                    pcb.blocked_deadline = u64::MAX;
                    pcb.waiting_for = None;
                }
            },
            None => {
                return false;
            },
        }
        proof {
            let i = crate::process::table::slot_of(old(self).slots(), to_pid);
            assert(crate::process::table::holds(old(self).slots(), i, to_pid));
            crate::process::table::lemma_replaced(
                old(self).process_table,
                self.process_table,
                to_pid,
                self.slots()[i]->0,
            );
        }
        self.audit.push(
            AuditEntry {
                tick: self.tick,
                kind: AuditKind::Unblock,
                sender: 0,
                target: to_pid.as_u32(),
            },
        );
        true
    }

    // ── Lifecycle and voluntary switches ─────────────────────────────────────
    /// Ends process `pid`: frees its slot and stack and removes every service it
    /// provides. Ending the running process leaves no process running.
    ///
    /// Gives the frames of the process, which the caller has to give back.
    pub fn terminate_process(&mut self, services: &mut ServiceRegistry, pid: ProcessId) -> (r: Vec<
        u64,
    >)
        requires
            old(self).wf(),
        ensures
            final(self).wf(),
            r@ == frames_of(*old(self), pid),
            process_ended(
                *old(self),
                *final(self),
                old(services).entries@,
                final(services).entries@,
                pid,
            ),
    {
        let mut frames: Vec<u64> = Vec::new();
        if let Some(pcb) = self.process_table.get_process_ref(pid) {
            frames.extend_from_slice(pcb.user_frames.as_slice());
        }
        assert(frames@ =~= frames_of(*self, pid));
        self.audit.push(
            AuditEntry {
                tick: self.tick,
                kind: AuditKind::Terminate,
                sender: 0,
                target: pid.as_u32(),
            },
        );
        self.process_table.terminate_process(pid);
        if let Some(c) = self.current_process {
            if c == pid {
                self.current_process = None;
            }
        }
        unregister_all(services, pid.as_u32());
        frames
    }

    /// Chooses the next process when there is no context to save, as after the
    /// running process was ended. `None` if no process is runnable.
    pub fn force_schedule_next(&mut self) -> (r: Option<SwitchTarget>)
        requires
            old(self).wf(),
        ensures
            final(self).wf(),
            final(self).same_resources(old(self)),
            (final(self).state(), r) == after_force(old(self).state()),
    {
        match self.pick_next_priority() {
            Some(next) => {
                let (pml4, kernel_rsp) = self.run(next);
                Some(SwitchTarget { to: next, pml4, kernel_rsp })
            },
            None => None,
        }
    }

    /// Switches away from `blocked_pid`, which has just blocked. `None` if no
    /// process is runnable or `blocked_pid` does not exist.
    pub fn prepare_block_switch(&mut self, blocked_pid: ProcessId) -> (r: Option<ContextSwitch>)
        requires
            old(self).wf(),
        ensures
            final(self).wf(),
            final(self).same_resources(old(self)),
            (final(self).state(), r) == after_block(old(self).state(), blocked_pid),
    {
        match self.pick_next_priority() {
            Some(next) => {
                if self.process_table.get_process_ref(blocked_pid).is_none() {
                    return None;
                }
                let (pml4, kernel_rsp) = self.run(next);
                Some(ContextSwitch { from: blocked_pid, to: next, pml4, kernel_rsp })
            },
            None => None,
        }
    }

    /// Marks the quantum of the running process as used up, so that the next
    /// tick switches away from it.
    pub fn yield_current(&mut self)
        requires
            old(self).wf(),
        ensures
            final(self).wf(),
            match old(self).current_process {
                Some(c) => process_updated(
                    *old(self),
                    *final(self),
                    c,
                    quantum_given_up(old(self).pcb(c)),
                ),
                None => *final(self) == *old(self),
            },
    {
        let c = match self.current_process {
            Some(c) => c,
            None => return ,
        };
        match self.process_table.get_process(c) {
            Some(pcb) => {
                pcb.cpu_time = pcb.time_slice;
                if matches!(pcb.state, ProcessState::Running) {
                    pcb.state = ProcessState::Ready;
                }
            },
            None => {},
        }
        proof {
            if old(self).has(c) {
                let p = old(self).pcb(c);
                crate::process::table::lemma_replaced(
                    old(self).process_table,
                    self.process_table,
                    c,
                    ProcessControlBlock {
                        cpu_time: p.time_slice,
                        state: descheduled(p.state),
                        ..p
                    },
                );
            }
        }
    }

    /// Gives up the processor at once. `None` if there is nothing to switch to.
    pub fn yield_switch(&mut self) -> (r: Option<ContextSwitch>)
        requires
            old(self).wf(),
        ensures
            final(self).wf(),
            final(self).same_resources(old(self)),
            (final(self).state(), r) == after_yield(old(self).state()),
    {
        let c = match self.current_process {
            Some(c) => c,
            None => return None,
        };
        match self.process_table.get_process(c) {
            Some(pcb) => {
                pcb.cpu_time = 0;
                if matches!(pcb.state, ProcessState::Running) {
                    pcb.state = ProcessState::Ready;
                }
            },
            None => {
                match self.pick_next_priority() {
                    Some(next) => {
                        self.current_process = Some(next);
                    },
                    None => {},
                }
                return None;
            },
        }
        proof {
            let p = old(self).pcb(c);
            crate::process::table::lemma_replaced(
                old(self).process_table,
                self.process_table,
                c,
                ProcessControlBlock { cpu_time: 0, state: descheduled(p.state), ..p },
            );
        }
        self.give_way(c)
    }

    // ── Queries ──────────────────────────────────────────────────────────────
    /// Address space of `pid`.
    pub fn get_process_pml4(&self, pid: ProcessId) -> (r: Option<u64>)
        requires
            self.wf(),
        ensures
            r == (if self.has(pid) {
                Some(self.pcb(pid).page_table_base)
            } else {
                None
            }),
    {
        match self.process_table.get_process_ref(pid) {
            Some(pcb) => Some(pcb.page_table_base),
            None => None,
        }
    }

    /// Saved stack pointer and kernel stack pointer of `pid`.
    pub fn get_ctx_rsp(&self, pid: ProcessId) -> (r: Option<(u64, u64)>)
        requires
            self.wf(),
        ensures
            r == (if self.has(pid) {
                Some((self.pcb(pid).context.rsp, self.pcb(pid).kernel_rsp))
            } else {
                None
            }),
    {
        match self.process_table.get_process_ref(pid) {
            Some(pcb) => Some((pcb.context.rsp, pcb.kernel_rsp)),
            None => None,
        }
    }

    /// The logged events, oldest first.
    pub fn audit_entries(&self) -> (r: Vec<AuditEntry>)
        requires
            self.wf(),
        ensures
            r@ == self.audit@,
    {
        self.audit.iter()
    }

    /// Whether `waiter` waiting for `target` would close a cycle of waits.
    pub fn detect_deadlock(&self, waiter: ProcessId, target: ProcessId) -> (r: bool)
        requires
            self.wf(),
        ensures
            r == crate::process::table::transitively_waits(self.slots(), target, waiter),
    {
        self.process_table.detect_cycle(waiter, target)
    }

    /// Whether `pid` may map one more page; a PID without process may.
    pub fn check_memory_quota(&self, pid: ProcessId) -> (r: bool)
        requires
            self.wf(),
        ensures
            r == (!self.has(pid) || within_quota(self.pcb(pid))),
    {
        match self.process_table.get_process_ref(pid) {
            Some(pcb) => pcb.memory_quota_pages == 0 || pcb.memory_pages_used
                < pcb.memory_quota_pages,
            None => true,
        }
    }

    /// Counts one more page mapped by `pid`.
    pub fn use_memory_page(&mut self, pid: ProcessId)
        requires
            old(self).wf(),
        ensures
            final(self).wf(),
            process_updated(*old(self), *final(self), pid, page_counted(old(self).pcb(pid))),
    {
        match self.process_table.get_process(pid) {
            Some(pcb) => {
                pcb.memory_pages_used = pcb.memory_pages_used.saturating_add(1);
            },
            None => {},
        }
        proof {
            if old(self).has(pid) {
                crate::process::table::lemma_replaced(
                    old(self).process_table,
                    self.process_table,
                    pid,
                    page_counted(old(self).pcb(pid)),
                );
            }
        }
    }

    /// Ticks `pid` has consumed over its lifetime.
    pub fn cpu_time_for(&self, pid: ProcessId) -> (r: Option<u64>)
        requires
            self.wf(),
        ensures
            r == (if self.has(pid) {
                Some(self.pcb(pid).total_cpu_ticks)
            } else {
                None
            }),
    {
        match self.process_table.get_process_ref(pid) {
            Some(pcb) => Some(pcb.total_cpu_ticks),
            None => None,
        }
    }

    /// Real-time deadline of `pid`, 0 if it is not a real-time process.
    pub fn rt_deadline_for(&self, pid: ProcessId) -> (r: Option<u64>)
        requires
            self.wf(),
        ensures
            r == (if self.has(pid) {
                Some(self.pcb(pid).rt_deadline)
            } else {
                None
            }),
    {
        match self.process_table.get_process_ref(pid) {
            Some(pcb) => Some(pcb.rt_deadline),
            None => None,
        }
    }

    // ── Capabilities ─────────────────────────────────────────────────────────
    /// `self` has the scheduling state of `other`, apart from the processes.
    pub open spec fn only_table_changed(&self, other: &Self) -> bool {
        &&& self.audit == other.audit
        &&& self.state() == SchedState { slots: self.slots(), ..other.state() }
    }

    /// Stores `cap` in the first free slot of the table of `pid`.
    pub fn cap_alloc(&mut self, pid: ProcessId, cap: Capability) -> (r: Option<usize>)
        requires
            old(self).wf(),
        ensures
            final(self).wf(),
            cap_placed(*old(self), *final(self), pid, cap, r),
    {
        self.process_table.cap_alloc(pid, cap)
    }

    /// Copies a capability of `from_pid` that carries the grant right to `to_pid`.
    pub fn cap_grant(&mut self, from_pid: ProcessId, slot_idx: usize, to_pid: ProcessId) -> (r:
        Option<usize>)
        requires
            old(self).wf(),
        ensures
            final(self).wf(),
            cap_granted(*old(self), *final(self), from_pid, slot_idx as int, to_pid, r),
    {
        self.process_table.cap_grant(from_pid, slot_idx, to_pid)
    }

    /// Empties slot `slot_idx` of the table of `pid`.
    pub fn cap_revoke(&mut self, pid: ProcessId, slot_idx: usize)
        requires
            old(self).wf(),
        ensures
            final(self).wf(),
            final(self).only_table_changed(old(self)),
            if slot_idx < CAP_TABLE_SIZE && old(self).has(pid) {
                crate::process::table::caps_updated(
                    old(self).process_table,
                    final(self).process_table,
                    pid,
                    slot_idx as int,
                    Capability::none(),
                )
            } else {
                *final(self) == *old(self)
            },
    {
        self.process_table.cap_revoke(pid, slot_idx)
    }

    /// Rights of the capability in slot `slot_idx` of `pid`; `None` if there is none.
    pub fn cap_slot_rights(&self, pid: ProcessId, slot_idx: usize) -> (r: Option<u8>)
        requires
            self.wf(),
        ensures
            r == match cap_at(self.slots(), pid, slot_idx as int) {
                Some(c) => Some(c.rights),
                None => None,
            },
    {
        if slot_idx >= CAP_TABLE_SIZE {
            return None;
        }
        match self.process_table.get_process_ref(pid) {
            Some(pcb) => {
                let cap = pcb.cap_table[slot_idx];
                if cap.is_empty() {
                    None
                } else {
                    Some(cap.rights)
                }
            },
            None => None,
        }
    }

    /// Kind, rights and object of the capability in slot `slot_idx` of `pid`;
    /// `None` if there is none.
    pub fn cap_slot_info(&self, pid: ProcessId, slot_idx: usize) -> (r: Option<(CapKind, u8, u32)>)
        requires
            self.wf(),
        ensures
            r == match cap_at(self.slots(), pid, slot_idx as int) {
                Some(c) => Some((c.kind, c.rights, c.object_id)),
                None => None,
            },
    {
        if slot_idx >= CAP_TABLE_SIZE {
            return None;
        }
        match self.process_table.get_process_ref(pid) {
            Some(pcb) => {
                let cap = pcb.cap_table[slot_idx];
                if cap.is_empty() {
                    None
                } else {
                    Some((cap.kind, cap.rights, cap.object_id))
                }
            },
            None => None,
        }
    }
}

} // verus!
