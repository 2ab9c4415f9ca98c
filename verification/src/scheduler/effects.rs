//! What the operations of the scheduler do to processes.

use vstd::prelude::*;

use crate::ipc::Message;
use crate::process::pcb::{ProcessControlBlock, ProcessState};
use crate::process::table::{self, Slots};
use crate::process::ProcessId;
use crate::scheduler::audit::{AuditEntry, AuditKind};
use crate::scheduler::laws::{self, runnable_at};
use crate::scheduler::policy;
use crate::scheduler::round_robin::{self, SchedState, Scheduler};

verus! {

/// Replacing the block of one process leaves every other process as it was.
pub proof fn lemma_block_replaced(
    slots: Slots,
    next_pid: u32,
    pid: ProcessId,
    q: ProcessControlBlock,
    other: ProcessId,
)
    requires
        table::pids_distinct(slots, next_pid),
        table::has_process(slots, pid),
        q.pid == pid,
    ensures
        ({
            let after = table::with_process(slots, pid, q);
            &&& table::pids_distinct(after, next_pid)
            &&& table::has_process(after, pid)
            &&& table::slot_of(after, pid) == table::slot_of(slots, pid)
            &&& table::lookup(after, pid) == q
            &&& other != pid ==> table::has_process(after, other) == table::has_process(
                slots,
                other,
            )
            &&& other != pid && table::has_process(slots, other) ==> table::lookup(after, other)
                == table::lookup(slots, other)
        }),
{
    let after = table::with_process(slots, pid, q);
    let k = table::slot_of(slots, pid);
    assert(table::holds(slots, k, pid));
    assert(table::holds(after, k, pid));
    assert(table::pids_distinct(after, next_pid));
    table::lemma_slot_unique(after, next_pid, k, pid);
    if other != pid {
        if table::has_process(slots, other) {
            let o = table::slot_of(slots, other);
            assert(table::holds(slots, o, other));
            assert(table::holds(after, o, other));
            table::lemma_slot_unique(after, next_pid, o, other);
        }
        if table::has_process(after, other) {
            let o = table::slot_of(after, other);
            assert(table::holds(after, o, other));
            assert(table::holds(slots, o, other));
        }
    }
}

/// The block of a process carries its PID.
pub proof fn lemma_own_pid(slots: Slots, pid: ProcessId)
    requires
        table::has_process(slots, pid),
    ensures
        table::lookup(slots, pid).pid == pid,
        0 <= table::slot_of(slots, pid) < slots.len(),
        slots[table::slot_of(slots, pid)] == Some(table::lookup(slots, pid)),
{
    assert(table::holds(slots, table::slot_of(slots, pid), pid));
}

// ── Real time ────────────────────────────────────────────────────────────────
/// The first deadline of a process that becomes real-time lies exactly one
/// period ahead of the current tick, so that it is never in the past. A period of
/// 0 makes it a best-effort process without a deadline. Nothing else of the
/// process changes, and no other process does.
pub proof fn law_first_deadline_is_one_period_ahead(
    before: Scheduler,
    after: Scheduler,
    pid: ProcessId,
    period: u64,
    other: ProcessId,
)
    requires
        before.wf(),
        before.has(pid),
        before.tick + period <= u64::MAX,
        round_robin::process_updated(
            before,
            after,
            pid,
            round_robin::realtime(before.pcb(pid), before.tick, period),
        ),
        other != pid,
    ensures
        after.has(pid),
        after.tick == before.tick,
        after.pcb(pid).rt_period == period,
        period > 0 ==> after.pcb(pid).rt_deadline == before.tick + period,
        period > 0 ==> after.pcb(pid).rt_deadline > after.tick,
        period == 0 ==> after.pcb(pid).rt_deadline == 0,
        after.pcb(pid) == (ProcessControlBlock {
            rt_period: after.pcb(pid).rt_period,
            rt_deadline: after.pcb(pid).rt_deadline,
            ..before.pcb(pid)
        }),
        after.has(other) == before.has(other),
        before.has(other) ==> after.pcb(other) == before.pcb(other),
{
    lemma_own_pid(before.slots(), pid);
    lemma_block_replaced(
        before.slots(),
        before.process_table.next_pid,
        pid,
        round_robin::realtime(before.pcb(pid), before.tick, period),
        other,
    );
}

/// Of two processes that become real-time one after the other, the one with the
/// shorter period has the earlier deadline.
pub proof fn law_shorter_period_is_due_first(
    first: Scheduler,
    second: Scheduler,
    third: Scheduler,
    a: ProcessId,
    b: ProcessId,
    short: u64,
    long: u64,
)
    requires
        first.wf(),
        second.wf(),
        first.has(a),
        first.has(b),
        a != b,
        0 < short < long,
        first.tick + long <= u64::MAX,
        round_robin::process_updated(
            first,
            second,
            a,
            round_robin::realtime(first.pcb(a), first.tick, long),
        ),
        round_robin::process_updated(
            second,
            third,
            b,
            round_robin::realtime(second.pcb(b), second.tick, short),
        ),
    ensures
        third.pcb(b).rt_deadline < third.pcb(a).rt_deadline,
        third.pcb(a).rt_deadline - third.pcb(b).rt_deadline == long - short,
{
    law_first_deadline_is_one_period_ahead(first, second, a, long, b);
    law_first_deadline_is_one_period_ahead(second, third, b, short, a);
}

// ── Waking ───────────────────────────────────────────────────────────────────
/// A process that was blocked is ready, has no deadline and waits for nobody; any
/// other is in the state it was in.
pub open spec fn awake(p: ProcessControlBlock, q: ProcessControlBlock) -> bool {
    &&& !(q.state is Blocked)
    &&& p.state is Blocked ==> {
        &&& q.state == ProcessState::Ready
        &&& q.blocked_deadline == u64::MAX
        &&& q.waiting_for is None
    }
    &&& !(p.state is Blocked) ==> {
        &&& q.state == p.state
        &&& q.blocked_deadline == p.blocked_deadline
    }
}

/// A process that was not ended may run once it is awake.
proof fn lemma_awake_may_run(s: Scheduler, pid: ProcessId)
    requires
        s.has(pid),
        s.pcb(pid).state is Ready || s.pcb(pid).state is Running,
    ensures
        runnable_at(s.slots(), table::slot_of(s.slots(), pid)),
        policy::pick(s.slots(), s.queue_index) is Some,
{
    lemma_own_pid(s.slots(), pid);
    laws::law_never_idle(s.slots(), s.queue_index, table::slot_of(s.slots(), pid));
}

/// A notification wakes its receiver: whatever the process waited for, it is not
/// blocked afterwards, so that it is among those that may run. It finds the bits
/// that were posted besides those that were pending, and its mail as it was. The
/// notification is logged. No other process is affected.
pub proof fn law_notification_wakes(
    before: Scheduler,
    after: Scheduler,
    to: ProcessId,
    word: u64,
    r: bool,
    other: ProcessId,
)
    requires
        before.wf(),
        after.wf(),
        round_robin::notification_sent(before, after, to, word, r),
        other != to,
    ensures
        r == before.has(to),
        r ==> {
            let p = before.pcb(to);
            let q = after.pcb(to);
            &&& after.has(to)
            &&& awake(p, q)
            &&& !(p.state is Terminated) ==> runnable_at(
                after.slots(),
                table::slot_of(after.slots(), to),
            )
            &&& !(p.state is Terminated) ==> policy::pick(after.slots(), after.queue_index) is Some
            &&& q.mailbox.pending_notification == p.mailbox.pending_notification | word
            &&& q.mailbox@ == p.mailbox@
            &&& q.cap_table == p.cap_table
            &&& q.priority == p.priority
            &&& q.page_table_base == p.page_table_base
            &&& q.context == p.context
            &&& after.audit@.last() == (AuditEntry {
                tick: before.tick,
                kind: AuditKind::Unblock,
                sender: 0,
                target: to.0,
            })
        },
        !r ==> after == before,
        after.has(other) == before.has(other),
        before.has(other) ==> after.pcb(other) == before.pcb(other),
        after.current_process == before.current_process,
        after.tick == before.tick,
{
    if r {
        lemma_own_pid(before.slots(), to);
        lemma_block_replaced(
            before.slots(),
            before.process_table.next_pid,
            to,
            after.pcb(to),
            other,
        );
        if !(before.pcb(to).state is Terminated) {
            lemma_awake_may_run(after, to);
        }
    }
}

/// The blocks of the receiver and of anybody but sender and receiver after a
/// message was delivered.
proof fn lemma_message_blocks(
    before: Scheduler,
    after: Scheduler,
    from: ProcessId,
    to: ProcessId,
    msg: Message,
    other: ProcessId,
)
    requires
        before.wf(),
        after.wf(),
        round_robin::message_sent(before, after, from, to, msg, true),
        other != to,
    ensures
        before.has(to),
        after.has(to),
        ({
            let receiver = if from == to {
                round_robin::sender_charged(before.pcb(to), to)
            } else {
                before.pcb(to)
            };
            round_robin::delivered(receiver, after.pcb(to), Message { sender: from, ..msg })
        }),
        after.has(other) == before.has(other),
        before.has(other) && other != from ==> after.pcb(other) == before.pcb(other),
        before.has(from) && other == from ==> after.pcb(from) == round_robin::sender_charged(
            before.pcb(from),
            to,
        ),
{
    let slots = before.slots();
    let next_pid = before.process_table.next_pid;
    let charged = round_robin::slots_charged(slots, from, to);
    if before.has(from) {
        lemma_own_pid(slots, from);
        lemma_block_replaced(
            slots,
            next_pid,
            from,
            round_robin::sender_charged(before.pcb(from), to),
            to,
        );
        lemma_block_replaced(
            slots,
            next_pid,
            from,
            round_robin::sender_charged(before.pcb(from), to),
            other,
        );
    }
    lemma_own_pid(charged, to);
    lemma_block_replaced(charged, next_pid, to, after.pcb(to), other);
}

/// A delivered message wakes its receiver: whatever the process waited for, it is
/// not blocked afterwards, so that it is among those that may run. The message is
/// the last of its mail. The delivery is logged with sender and receiver.
pub proof fn law_message_wakes(
    before: Scheduler,
    after: Scheduler,
    from: ProcessId,
    to: ProcessId,
    msg: Message,
)
    requires
        before.wf(),
        after.wf(),
        round_robin::message_sent(before, after, from, to, msg, true),
    ensures
        before.has(to),
        after.has(to),
        awake(before.pcb(to), after.pcb(to)),
        !(before.pcb(to).state is Terminated) ==> runnable_at(
            after.slots(),
            table::slot_of(after.slots(), to),
        ),
        !(before.pcb(to).state is Terminated) ==> policy::pick(after.slots(), after.queue_index) is Some,
        after.pcb(to).mailbox@.len() == before.pcb(to).mailbox@.len() + 1,
        after.pcb(to).mailbox@.last().sender == from,
        after.pcb(to).mailbox@.last().data == msg.data,
        after.pcb(to).mailbox.pending_notification == before.pcb(to).mailbox.pending_notification,
        after.audit@.last() == (AuditEntry {
            tick: before.tick,
            kind: AuditKind::Send,
            sender: from.0,
            target: to.0,
        }),
{
    let other = if to.0 == 0 {
        ProcessId(1)
    } else {
        ProcessId(0)
    };
    lemma_message_blocks(before, after, from, to, msg, other);
    if !(before.pcb(to).state is Terminated) {
        lemma_awake_may_run(after, to);
    }
}

/// A message is delivered exactly if its receiver exists and has room for one
/// more of sixteen messages, and the sender has not used up its rate limit. The
/// sender then waits for the receiver and is charged for one message; nobody
/// else is affected.
pub proof fn law_message_is_delivered_if_it_can_be(
    before: Scheduler,
    after: Scheduler,
    from: ProcessId,
    to: ProcessId,
    msg: Message,
    r: bool,
    other: ProcessId,
)
    requires
        before.wf(),
        after.wf(),
        before.countable(from, to),
        round_robin::message_sent(before, after, from, to, msg, r),
        other != from,
        other != to,
    ensures
        r <==> (before.has(to) && before.pcb(to).mailbox@.len() < 16 && !(before.has(from)
            && before.pcb(from).ipc_rate_limit > 0 && before.pcb(from).ipc_rate_used
            >= before.pcb(from).ipc_rate_limit)),
        r && before.has(from) && from != to ==> {
            &&& after.has(from)
            &&& after.pcb(from).waiting_for == Some(to)
            &&& after.pcb(from).ipc_rate_used == before.pcb(from).ipc_rate_used + 1
            &&& after.pcb(from).state == before.pcb(from).state
            &&& after.pcb(from).mailbox == before.pcb(from).mailbox
        },
        after.has(other) == before.has(other),
        before.has(other) ==> after.pcb(other) == before.pcb(other),
        after.current_process == before.current_process,
        after.tick == before.tick,
{
    let slots = before.slots();
    let next_pid = before.process_table.next_pid;
    if before.has(from) {
        lemma_own_pid(slots, from);
        let q = round_robin::sender_charged(before.pcb(from), to);
        lemma_block_replaced(slots, next_pid, from, q, other);
        lemma_block_replaced(slots, next_pid, from, q, to);
    }
    if r {
        lemma_message_blocks(before, after, from, to, msg, other);
        if from != to {
            lemma_message_blocks(before, after, from, to, msg, from);
        }
    }
}

// ── Receiving ────────────────────────────────────────────────────────────────
/// A process that receives gets its oldest message and waits for nobody
/// afterwards. If there is none, it is blocked until the tick that lies the
/// timeout ahead: never before the current tick, and without end if the timeout
/// is the largest there is or the tick cannot be counted. A timeout of 0 changes
/// nothing. No other process is affected.
pub proof fn law_receive_takes_or_blocks(
    before: Scheduler,
    after: Scheduler,
    pid: ProcessId,
    timeout: u64,
    r: Option<Message>,
    other: ProcessId,
)
    requires
        before.wf(),
        after.wf(),
        before.has(pid),
        round_robin::message_received(before, after, pid, timeout, r),
        other != pid,
    ensures
        after.has(pid),
        ({
            let p = before.pcb(pid);
            let q = after.pcb(pid);
            let mail = p.mailbox@;
            &&& mail.len() > 0 ==> {
                &&& r == Some(mail[0])
                &&& q.mailbox@ == mail.subrange(1, mail.len() as int)
                &&& q.state == p.state
                &&& q.waiting_for is None
                &&& after.audit@.last() == (AuditEntry {
                    tick: before.tick,
                    kind: AuditKind::Receive,
                    sender: mail[0].sender.0,
                    target: pid.0,
                })
            }
            &&& mail.len() == 0 ==> r is None && q.mailbox@ == mail && q.waiting_for == p.waiting_for
            &&& mail.len() == 0 && timeout == 0 ==> after.slots() == before.slots() && after.audit
                == before.audit
            &&& mail.len() == 0 && timeout > 0 ==> {
                &&& q.state is Blocked
                &&& timeout < u64::MAX && before.tick + timeout <= u64::MAX ==> q.blocked_deadline
                    == before.tick + timeout
                &&& timeout == u64::MAX || before.tick + timeout > u64::MAX ==> q.blocked_deadline
                    == u64::MAX
                &&& q.blocked_deadline >= before.tick
                &&& after.audit@.last() == (AuditEntry {
                    tick: before.tick,
                    kind: AuditKind::Block,
                    sender: 0,
                    target: pid.0,
                })
            }
            &&& q.mailbox.pending_notification == p.mailbox.pending_notification
            &&& q.priority == p.priority
            &&& q.cap_table == p.cap_table
            &&& q.page_table_base == p.page_table_base
        }),
        after.has(other) == before.has(other),
        before.has(other) ==> after.pcb(other) == before.pcb(other),
        after.current_process == before.current_process,
        after.tick == before.tick,
{
    lemma_own_pid(before.slots(), pid);
    let p = before.pcb(pid);
    let next_pid = before.process_table.next_pid;
    if p.mailbox@.len() > 0 {
        lemma_block_replaced(before.slots(), next_pid, pid, after.pcb(pid), other);
        assert(p.mailbox@.drop_first() =~= p.mailbox@.subrange(1, p.mailbox@.len() as int));
    } else if timeout > 0 {
        lemma_block_replaced(
            before.slots(),
            next_pid,
            pid,
            round_robin::blocked_until(p, before.tick, timeout),
            other,
        );
    }
}

// ── Time ─────────────────────────────────────────────────────────────────────
/// The processes after the periodic work of a tick.
pub proof fn lemma_ticked(s: SchedState, next_pid: u32, pid: ProcessId)
    requires
        table::pids_distinct(s.slots, next_pid),
        s.tick < u64::MAX,
    ensures
        ({
            let t = round_robin::ticked(s);
            &&& table::pids_distinct(t.slots, next_pid)
            &&& table::has_process(t.slots, pid) == table::has_process(s.slots, pid)
            &&& table::has_process(s.slots, pid) ==> table::lookup(t.slots, pid)
                == round_robin::refreshed(table::lookup(s.slots, pid), (s.tick + 1) as u64)
        }),
{
    let tick = (s.tick + 1) as u64;
    table::lemma_map_slots(
        s.slots,
        |p: ProcessControlBlock| round_robin::refreshed(p, tick),
        next_pid,
        pid,
    );
}

/// What giving way does to the block of any process: the picked one runs.
proof fn lemma_gave_way(s: SchedState, next_pid: u32, from: ProcessId, pid: ProcessId)
    requires
        table::pids_distinct(s.slots, next_pid),
    ensures
        ({
            let (t, r) = round_robin::give_way(s, from);
            let p = table::lookup(s.slots, pid);
            let q = table::lookup(t.slots, pid);
            let picked = policy::pick(s.slots, s.queue_index);
            &&& t.tick == s.tick
            &&& table::pids_distinct(t.slots, next_pid)
            &&& table::has_process(t.slots, pid) == table::has_process(s.slots, pid)
            &&& picked is None ==> t == s && r is None
            &&& picked matches Some((next, _qi)) ==> {
                &&& table::has_process(s.slots, next)
                &&& table::runnable(table::lookup(s.slots, next))
                &&& t.current == Some(next)
                &&& pid == next ==> q == ProcessControlBlock { state: ProcessState::Running, ..p }
                &&& pid != next && table::has_process(s.slots, pid) ==> q == p
                &&& r is None <==> next == from
            }
        }),
{
    let picked = policy::pick(s.slots, s.queue_index);
    if picked is Some {
        let next = (picked->0).0;
        policy::lemma_pick_runnable(s.slots, next_pid, s.queue_index);
        lemma_own_pid(s.slots, next);
        let q = ProcessControlBlock {
            state: ProcessState::Running,
            ..table::lookup(s.slots, next)
        };
        lemma_block_replaced(s.slots, next_pid, next, q, pid);
    }
}

/// A blocked process sleeps until its deadline and no longer: the tick that
/// reaches the deadline wakes it, and no earlier one does.
pub proof fn law_sleeper_wakes_at_its_deadline(s: SchedState, next_pid: u32, pid: ProcessId)
    requires
        table::pids_distinct(s.slots, next_pid),
        s.tick < u64::MAX,
        table::has_process(s.slots, pid),
        table::lookup(s.slots, pid).state is Blocked,
        s.current != Some(pid),
    ensures
        ({
            let p = table::lookup(s.slots, pid);
            let t = round_robin::after_timer_tick(s).0;
            let q = table::lookup(t.slots, pid);
            &&& table::has_process(t.slots, pid)
            &&& p.blocked_deadline > s.tick + 1 ==> {
                &&& q.state is Blocked
                &&& q.blocked_deadline == p.blocked_deadline
                &&& q.waiting_for == p.waiting_for
                &&& t.current != Some(pid)
            }
            &&& p.blocked_deadline <= s.tick + 1 ==> {
                &&& table::runnable(q)
                &&& q.blocked_deadline == u64::MAX
                &&& q.waiting_for is None
            }
            &&& q.mailbox == p.mailbox
            &&& q.priority == p.priority
            &&& q.cap_table == p.cap_table
        }),
{
    lemma_tick_blocks(s, next_pid, pid);
}

/// The block of a process after a tick, by the process it is.
proof fn lemma_tick_blocks(s: SchedState, next_pid: u32, pid: ProcessId)
    requires
        table::pids_distinct(s.slots, next_pid),
        s.tick < u64::MAX,
        table::has_process(s.slots, pid),
    ensures
        ({
            let tick = (s.tick + 1) as u64;
            let p = round_robin::refreshed(table::lookup(s.slots, pid), tick);
            let charged = round_robin::charged(p);
            let (t, r) = round_robin::after_timer_tick(s);
            let q = table::lookup(t.slots, pid);
            let mine = if s.current == Some(pid) {
                if round_robin::expired(charged) {
                    round_robin::preempted(charged, tick)
                } else {
                    charged
                }
            } else {
                p
            };
            &&& t.tick == s.tick + 1
            &&& table::has_process(t.slots, pid)
            &&& q.state == mine.state || (q.state is Running && table::runnable(mine) && t.current
                == Some(pid))
            &&& q == ProcessControlBlock { state: q.state, ..mine }
            &&& s.current == Some(pid) && !round_robin::expired(charged) ==> q.state == mine.state
                && t.current == s.current && r is None
            &&& s.current != Some(pid) && t.current == Some(pid) ==> q.state is Running
        }),
{
    let tick = (s.tick + 1) as u64;
    let u = round_robin::ticked(s);
    lemma_ticked(s, next_pid, pid);
    if s.current is Some {
        let c = s.current->0;
        lemma_ticked(s, next_pid, c);
        if table::has_process(u.slots, c) {
            let p = round_robin::charged(table::lookup(u.slots, c));
            lemma_own_pid(u.slots, c);
            lemma_block_replaced(u.slots, next_pid, c, p, pid);
            if round_robin::expired(p) {
                let q = round_robin::preempted(p, tick);
                lemma_block_replaced(u.slots, next_pid, c, q, pid);
                let v = SchedState { slots: table::with_process(u.slots, c, q), ..u };
                lemma_gave_way(v, next_pid, c, pid);
            }
        }
    }
}

/// The counters of a process after a tick. A tick is charged to the process that
/// ran, and to no other. Counters of messages and of the budget start anew at
/// multiples of 100 and 1000 ticks, and go on otherwise. Limits, mail and
/// capabilities stay as they are.
pub proof fn law_tick_is_charged_to_who_ran(s: SchedState, next_pid: u32, pid: ProcessId)
    requires
        table::pids_distinct(s.slots, next_pid),
        s.tick < u64::MAX,
        table::has_process(s.slots, pid),
        s.current == Some(pid) ==> round_robin::chargeable(
            round_robin::refreshed(table::lookup(s.slots, pid), (s.tick + 1) as u64),
            (s.tick + 1) as u64,
        ),
    ensures
        ({
            let p = table::lookup(s.slots, pid);
            let t = round_robin::after_timer_tick(s).0;
            let q = table::lookup(t.slots, pid);
            let ran = s.current == Some(pid);
            let budget: int = if (s.tick + 1) % 1000 == 0 {
                0
            } else {
                p.cpu_budget_used as int
            };
            &&& table::has_process(t.slots, pid)
            &&& t.tick == s.tick + 1
            &&& q.total_cpu_ticks == p.total_cpu_ticks + if ran {
                1int
            } else {
                0
            }
            &&& !ran ==> q.cpu_time == p.cpu_time
            &&& ran ==> q.cpu_time == p.cpu_time + 1 || q.cpu_time == 0
            &&& q.ipc_rate_used == if (s.tick + 1) % 100 == 0 {
                0
            } else {
                p.ipc_rate_used
            }
            &&& q.cpu_budget_used == budget + if ran && p.cpu_budget_ticks > 0 {
                1int
            } else {
                0
            }
            &&& q.time_slice == p.time_slice
            &&& q.cpu_budget_ticks == p.cpu_budget_ticks
            &&& q.ipc_rate_limit == p.ipc_rate_limit
            &&& q.memory_quota_pages == p.memory_quota_pages
            &&& q.rt_period == p.rt_period
            &&& !ran ==> q.rt_deadline == p.rt_deadline
            &&& q.mailbox == p.mailbox
            &&& q.cap_table == p.cap_table
            &&& q.priority == p.priority
        }),
{
    lemma_tick_blocks(s, next_pid, pid);
}

/// The running process keeps the processor until its quantum or its budget is
/// used up, and no tick longer: then its quantum starts anew and the next process
/// is chosen.
pub proof fn law_quantum_is_kept(s: SchedState, next_pid: u32, c: ProcessId)
    requires
        table::pids_distinct(s.slots, next_pid),
        s.tick < u64::MAX,
        s.current == Some(c),
        table::has_process(s.slots, c),
        table::lookup(s.slots, c).state is Running,
        round_robin::chargeable(
            round_robin::refreshed(table::lookup(s.slots, c), (s.tick + 1) as u64),
            (s.tick + 1) as u64,
        ),
    ensures
        ({
            let p = table::lookup(s.slots, c);
            let (t, r) = round_robin::after_timer_tick(s);
            let q = table::lookup(t.slots, c);
            let budget: int = if (s.tick + 1) % 1000 == 0 {
                0
            } else {
                p.cpu_budget_used as int
            };
            let spent = p.cpu_time + 1 >= p.time_slice || (p.cpu_budget_ticks > 0 && budget + 1
                >= p.cpu_budget_ticks);
            &&& !spent ==> {
                &&& r is None
                &&& t.current == Some(c)
                &&& q.state is Running
                &&& q.cpu_time == p.cpu_time + 1
                &&& q.rt_deadline == p.rt_deadline
            }
            &&& spent ==> {
                &&& q.cpu_time == 0
                &&& r is Some <==> t.current != Some(c)
                &&& t.current != Some(c) ==> q.state is Ready
                &&& q.rt_deadline == if p.rt_period > 0 && p.rt_deadline <= t.tick {
                    p.rt_deadline + p.rt_period
                } else {
                    p.rt_deadline as int
                }
            }
        }),
{
    lemma_tick_blocks(s, next_pid, c);
    let tick = (s.tick + 1) as u64;
    let u = round_robin::ticked(s);
    lemma_ticked(s, next_pid, c);
    let p = round_robin::charged(table::lookup(u.slots, c));
    lemma_own_pid(u.slots, c);
    if round_robin::expired(p) {
        let q = round_robin::preempted(p, tick);
        lemma_block_replaced(u.slots, next_pid, c, q, c);
        let v = SchedState { slots: table::with_process(u.slots, c, q), ..u };
        lemma_gave_way(v, next_pid, c, c);
        laws::law_never_idle(v.slots, v.queue_index, table::slot_of(v.slots, c));
    }
}

/// Giving up the quantum ends it: the next tick preempts the process, starts its
/// quantum anew and chooses who runs next.
pub proof fn law_yield_ends_the_quantum(
    before: Scheduler,
    after: Scheduler,
    c: ProcessId,
    other: ProcessId,
)
    requires
        before.wf(),
        before.current_process == Some(c),
        before.has(c),
        before.pcb(c).state is Running,
        round_robin::process_updated(
            before,
            after,
            c,
            round_robin::quantum_given_up(before.pcb(c)),
        ),
        after.tickable(),
        other != c,
    ensures
        after.has(c),
        after.pcb(c).state is Ready,
        after.pcb(c).cpu_time == before.pcb(c).time_slice,
        ({
            let (t, r) = round_robin::after_timer_tick(after.state());
            &&& table::lookup(t.slots, c).cpu_time == 0
            &&& r is Some <==> t.current != Some(c)
        }),
        after.pcb(c).total_cpu_ticks == before.pcb(c).total_cpu_ticks,
        after.current_process == before.current_process,
        after.has(other) == before.has(other),
        before.has(other) ==> after.pcb(other) == before.pcb(other),
{
    let next_pid = before.process_table.next_pid;
    lemma_own_pid(before.slots(), c);
    lemma_block_replaced(
        before.slots(),
        next_pid,
        c,
        round_robin::quantum_given_up(before.pcb(c)),
        other,
    );
    let s = after.state();
    lemma_tick_blocks(s, next_pid, c);
    let tick = (s.tick + 1) as u64;
    let u = round_robin::ticked(s);
    lemma_ticked(s, next_pid, c);
    let p = round_robin::charged(table::lookup(u.slots, c));
    lemma_own_pid(u.slots, c);
    assert(round_robin::expired(p));
    let q = round_robin::preempted(p, tick);
    lemma_block_replaced(u.slots, next_pid, c, q, c);
    let v = SchedState { slots: table::with_process(u.slots, c, q), ..u };
    lemma_gave_way(v, next_pid, c, c);
    laws::law_never_idle(v.slots, v.queue_index, table::slot_of(v.slots, c));
}

// ── Switching ────────────────────────────────────────────────────────────────
/// A switch that fits the state it leads to: it goes to the current process,
/// which runs, in the address space and on the kernel stack of that process.
pub open spec fn leads_to_current(t: SchedState, to: ProcessId, pml4: u64, kernel_rsp: u64) -> bool {
    let q = table::lookup(t.slots, to);
    &&& t.current == Some(to)
    &&& table::has_process(t.slots, to)
    &&& q.state is Running
    &&& pml4 == q.page_table_base
    &&& kernel_rsp == q.kernel_rsp
}

/// Letting the picked process run leads to it.
pub proof fn lemma_running(s: SchedState, next_pid: u32)
    requires
        table::pids_distinct(s.slots, next_pid),
        policy::pick(s.slots, s.queue_index) is Some,
    ensures
        ({
            let (next, qi) = policy::pick(s.slots, s.queue_index)->0;
            let p = table::lookup(s.slots, next);
            &&& table::runnable(p)
            &&& leads_to_current(
                round_robin::running(s, next, qi),
                next,
                p.page_table_base,
                p.kernel_rsp,
            )
        }),
{
    let (next, qi) = policy::pick(s.slots, s.queue_index)->0;
    policy::lemma_pick_runnable(s.slots, next_pid, s.queue_index);
    lemma_own_pid(s.slots, next);
    let q = ProcessControlBlock { state: ProcessState::Running, ..table::lookup(s.slots, next) };
    lemma_block_replaced(s.slots, next_pid, next, q, next);
}

/// Every switch leads to the process that is current afterwards: it saves the
/// process that had the processor, and loads the address space and kernel stack
/// of the one that runs. This holds of the timer tick, of a yield, of a process
/// that blocks, and of the choice after a process has ended.
pub proof fn law_switch_leads_to_the_current_process(
    s: SchedState,
    next_pid: u32,
    blocked: ProcessId,
)
    requires
        table::pids_distinct(s.slots, next_pid),
        s.tick < u64::MAX,
    ensures
        round_robin::after_timer_tick(s).1 matches Some(sw) ==> {
            &&& s.current == Some(sw.from)
            &&& sw.to != sw.from
            &&& leads_to_current(round_robin::after_timer_tick(s).0, sw.to, sw.pml4, sw.kernel_rsp)
        },
        round_robin::after_yield(s).1 matches Some(sw) ==> {
            &&& s.current == Some(sw.from)
            &&& sw.to != sw.from
            &&& leads_to_current(round_robin::after_yield(s).0, sw.to, sw.pml4, sw.kernel_rsp)
        },
        round_robin::after_block(s, blocked).1 matches Some(sw) ==> {
            &&& sw.from == blocked
            &&& leads_to_current(
                round_robin::after_block(s, blocked).0,
                sw.to,
                sw.pml4,
                sw.kernel_rsp,
            )
        },
        round_robin::after_force(s).1 matches Some(sw) ==> leads_to_current(
            round_robin::after_force(s).0,
            sw.to,
            sw.pml4,
            sw.kernel_rsp,
        ),
{
    let picked = policy::pick(s.slots, s.queue_index);
    if picked is Some {
        lemma_running(s, next_pid);
    }
    if s.current is Some {
        let c = s.current->0;
        let u = round_robin::ticked(s);
        lemma_ticked(s, next_pid, c);
        if table::has_process(u.slots, c) {
            lemma_own_pid(u.slots, c);
            let p = round_robin::charged(table::lookup(u.slots, c));
            let q = round_robin::preempted(p, u.tick);
            lemma_block_replaced(u.slots, next_pid, c, q, c);
            let v = SchedState { slots: table::with_process(u.slots, c, q), ..u };
            if policy::pick(v.slots, v.queue_index) is Some {
                lemma_running(v, next_pid);
            }
        }
        if table::has_process(s.slots, c) {
            lemma_own_pid(s.slots, c);
            let p = table::lookup(s.slots, c);
            let q = ProcessControlBlock {
                cpu_time: 0,
                state: round_robin::descheduled(p.state),
                ..p
            };
            lemma_block_replaced(s.slots, next_pid, c, q, c);
            let v = SchedState { slots: table::with_process(s.slots, c, q), ..s };
            if policy::pick(v.slots, v.queue_index) is Some {
                lemma_running(v, next_pid);
            }
        }
    }
}

// ── New processes ────────────────────────────────────────────────────────────
/// A process that was just registered is ready to run with the middle priority
/// and a quantum of ten ticks, in the given address space; it has no limits, no
/// mail, no capabilities and no deadline, and nothing was charged to it. All other
/// processes are as they were.
pub proof fn law_new_process_starts_clean(
    before: Scheduler,
    after: Scheduler,
    entry: u64,
    stack_top: u64,
    page_table_base: u64,
    trampoline: u64,
    ring3: bool,
    pid: ProcessId,
    other: ProcessId,
)
    requires
        before.wf(),
        after.wf(),
        ring3 ==> round_robin::ring3_added(
            before,
            after,
            entry,
            stack_top,
            page_table_base,
            trampoline,
            Some(pid),
        ),
        !ring3 ==> round_robin::process_added(before, after, entry, page_table_base, Some(pid)),
        other != pid,
    ensures
        !before.has(pid),
        after.has(pid),
        ({
            let q = after.pcb(pid);
            &&& q.state is Ready
            &&& q.priority == 128
            &&& q.time_slice == 10
            &&& q.cpu_time == 0
            &&& q.total_cpu_ticks == 0
            &&& q.page_table_base == page_table_base
            &&& q.memory_quota_pages == 0
            &&& q.memory_pages_used == 0
            &&& q.cpu_budget_ticks == 0
            &&& q.ipc_rate_limit == 0
            &&& q.rt_period == 0
            &&& q.blocked_deadline == u64::MAX
            &&& q.waiting_for is None
            &&& q.mailbox@.len() == 0
            &&& q.mailbox.pending_notification == 0
            &&& q.user_frames@.len() == 0
            &&& forall|i: int| 0 <= i < 64 ==> (#[trigger] q.cap_table@[i]).kind is Empty
            &&& q.context.rflags == 0x202
            &&& q.context.rip == if ring3 {
                trampoline
            } else {
                entry
            }
            &&& ring3 ==> q.context.r12 == entry && q.context.r13 == stack_top
            &&& runnable_at(after.slots(), table::slot_of(after.slots(), pid))
        }),
        after.has(other) == before.has(other),
        before.has(other) ==> after.pcb(other) == before.pcb(other),
        after.current_process == before.current_process,
{
    let table = before.process_table;
    let slots = before.slots();
    let q = after.pcb(pid);
    let i = choose|i: int|
        #![trigger table::first_free(slots, i)]
        table::first_free(slots, i) && after.slots() == slots.update(i, Some(q));
    if before.has(pid) {
        lemma_own_pid(slots, pid);
    }
    lemma_own_pid(after.slots(), pid);
    if before.has(other) {
        let o = table::slot_of(slots, other);
        assert(table::holds(slots, o, other));
        assert(table::holds(after.slots(), o, other));
        table::lemma_slot_unique(after.slots(), after.process_table.next_pid, o, other);
    }
    if after.has(other) {
        let o = table::slot_of(after.slots(), other);
        assert(table::holds(after.slots(), o, other));
        assert(table::holds(slots, o, other));
    }
}

// ── Senders and frames ───────────────────────────────────────────────────────
/// Who sends a message to another process is charged for it and waits for that
/// process from then on, whether or not it has a limit. Nothing else of the sender
/// changes: it goes on running, and its own mail is as it was.
pub proof fn law_sender_waits_for_the_receiver(
    before: Scheduler,
    after: Scheduler,
    from: ProcessId,
    to: ProcessId,
    msg: Message,
)
    requires
        before.wf(),
        after.wf(),
        before.has(from),
        from != to,
        before.pcb(from).ipc_rate_used < u16::MAX,
        round_robin::message_sent(before, after, from, to, msg, true),
    ensures
        after.has(from),
        after.pcb(from).waiting_for == Some(to),
        after.pcb(from).ipc_rate_used == before.pcb(from).ipc_rate_used + 1,
        after.pcb(from) == (ProcessControlBlock {
            waiting_for: after.pcb(from).waiting_for,
            ipc_rate_used: after.pcb(from).ipc_rate_used,
            ..before.pcb(from)
        }),
        after.current_process == before.current_process,
{
    lemma_message_blocks(before, after, from, to, msg, from);
}

/// A message to a full mailbox, one that holds sixteen messages, is refused, but
/// its sender is charged for it all the same. One to nobody, and one from a sender
/// that has used up its rate, is not charged.
pub proof fn law_full_mailbox_is_charged(
    before: Scheduler,
    after: Scheduler,
    from: ProcessId,
    to: ProcessId,
    msg: Message,
)
    requires
        before.wf(),
        after.wf(),
        before.has(from),
        from != to,
        before.pcb(from).ipc_rate_used < u16::MAX,
        round_robin::message_sent(before, after, from, to, msg, false),
    ensures
        ({
            let p = before.pcb(from);
            let free = p.ipc_rate_limit == 0 || p.ipc_rate_used < p.ipc_rate_limit;
            &&& before.has(to) && free ==> {
                &&& before.pcb(to).mailbox@.len() >= 16
                &&& after.has(from)
                &&& after.pcb(from).ipc_rate_used == p.ipc_rate_used + 1
                &&& after.pcb(from).mailbox == p.mailbox
            }
            &&& !before.has(to) || !free ==> after.slots() == before.slots()
            &&& after.audit == before.audit
        }),
{
    let slots = before.slots();
    let next_pid = before.process_table.next_pid;
    lemma_own_pid(slots, from);
    let q = round_robin::sender_charged(before.pcb(from), to);
    lemma_block_replaced(slots, next_pid, from, q, to);
    lemma_block_replaced(slots, next_pid, from, q, from);
}

/// Frames that are registered for a process are given back with those it had
/// already: none is forgotten, and none is made up.
pub proof fn law_registered_frames_are_kept(
    before: Scheduler,
    after: Scheduler,
    pid: ProcessId,
    frames: Seq<u64>,
    f: u64,
)
    requires
        before.wf(),
        before.has(pid),
        round_robin::frames_registered(before, after, pid, frames),
    ensures
        after.has(pid),
        round_robin::frames_of(after, pid).contains(f) <==> frames.contains(f)
            || round_robin::frames_of(before, pid).contains(f),
{
    let q = after.pcb(pid);
    lemma_own_pid(before.slots(), pid);
    lemma_block_replaced(before.slots(), before.process_table.next_pid, pid, q, pid);
    let old_frames = round_robin::frames_of(before, pid);
    let all = old_frames + frames;
    assert(round_robin::frames_of(after, pid) == all);
    if frames.contains(f) {
        assert(all[old_frames.len() + frames.index_of(f)] == f);
    }
    if old_frames.contains(f) {
        assert(all[old_frames.index_of(f)] == f);
    }
    if all.contains(f) {
        let i = all.index_of(f);
        if i < old_frames.len() {
            assert(old_frames[i] == f);
        } else {
            assert(frames[i - old_frames.len()] == f);
        }
    }
}

/// Giving up the processor wakes nobody: a process that is preempted or yields is
/// ready if it was running, and keeps its state otherwise. A blocked one stays
/// blocked.
pub proof fn law_giving_way_wakes_nobody(p: ProcessControlBlock, tick: u64)
    ensures
        p.state is Running ==> round_robin::preempted(p, tick).state is Ready
            && round_robin::quantum_given_up(p).state is Ready,
        !(p.state is Running) ==> round_robin::preempted(p, tick).state == p.state
            && round_robin::quantum_given_up(p).state == p.state,
        round_robin::preempted(p, tick).blocked_deadline == p.blocked_deadline,
        round_robin::preempted(p, tick).waiting_for == p.waiting_for,
{
}

} // verus!
