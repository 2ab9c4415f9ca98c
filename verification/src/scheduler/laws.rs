//! What holds of the scheduler as a whole.

use vstd::prelude::*;

use crate::ipc::Message;
use crate::process::pcb::{ProcessControlBlock, CAP_G};
use crate::process::table::{self, Slots};
use crate::process::ProcessId;
use crate::scheduler::audit::{AuditEntry, AuditKind};
use crate::scheduler::policy;
use crate::scheduler::round_robin::{self, SchedState, Scheduler};
use crate::service_registry::{self, ServiceEntry};

verus! {

/// The process in slot `i` is a runnable real-time process.
pub open spec fn realtime_at(slots: Slots, i: int) -> bool {
    0 <= i < slots.len() && slots[i] is Some && table::runnable(slots[i]->0)
        && slots[i]->0.rt_period > 0
}

/// The process in slot `i` is runnable.
pub open spec fn runnable_at(slots: Slots, i: int) -> bool {
    0 <= i < slots.len() && slots[i] is Some && table::runnable(slots[i]->0)
}

/// Effective priority of the process in slot `i`.
pub open spec fn effective_at(slots: Slots, i: int) -> u8 {
    policy::effective(
        table::blocked_waiters(slots),
        slots[i]->0.pid,
        slots[i]->0.priority,
    )
}

proof fn lemma_ready_priorities(slots: Slots, i: int) -> (m: int)
    requires
        runnable_at(slots, i),
    ensures
        0 <= m < table::ready_priorities(slots).len(),
        table::ready_priorities(slots)[m] == (
            slots[i]->0.pid,
            slots[i]->0.priority,
        ),
{
    table::lemma_collect_complete(
        slots,
        |p: ProcessControlBlock|
            if table::runnable(p) {
                Some((p.pid, p.priority))
            } else {
                None
            },
        i,
    )
}

proof fn lemma_ready_deadlines(slots: Slots, i: int) -> (m: int)
    requires
        realtime_at(slots, i),
    ensures
        0 <= m < table::ready_deadlines(slots).len(),
        table::ready_deadlines(slots)[m] == (
            slots[i]->0.pid,
            slots[i]->0.rt_deadline,
        ),
{
    table::lemma_collect_complete(
        slots,
        |p: ProcessControlBlock|
            if table::runnable(p) && p.rt_period > 0 {
                Some((p.pid, p.rt_deadline))
            } else {
                None
            },
        i,
    )
}

/// Some process is picked whenever one is runnable.
pub proof fn law_never_idle(slots: Slots, queue_index: usize, i: int)
    requires
        runnable_at(slots, i),
    ensures
        policy::pick(slots, queue_index) is Some,
{
    let m = lemma_ready_priorities(slots, i);
}

/// A runnable real-time process keeps every best-effort process from being
/// picked, whatever its priority, and the picked process has the earliest
/// deadline of all runnable real-time processes.
pub proof fn law_earliest_deadline_first(
    slots: Slots,
    next_pid: u32,
    queue_index: usize,
    i: int,
)
    requires
        table::pids_distinct(slots, next_pid),
        realtime_at(slots, i),
    ensures
        policy::pick(slots, queue_index) matches Some((pid, qi)) && {
            &&& qi == queue_index
            &&& table::has_process(slots, pid)
            &&& realtime_at(slots, table::slot_of(slots, pid))
            &&& table::lookup(slots, pid).rt_deadline <= slots[i]->0.rt_deadline
        },
{
    let rt = table::ready_deadlines(slots);
    let m = lemma_ready_deadlines(slots, i);
    law_never_idle(slots, queue_index, i);
    let c = lemma_ready_priorities(slots, i);
    policy::lemma_earliest(rt);
    let e = policy::earliest(rt);
    let k = table::lemma_collect_source(
        slots,
        |p: ProcessControlBlock|
            if table::runnable(p) && p.rt_period > 0 {
                Some((p.pid, p.rt_deadline))
            } else {
                None
            },
        e,
    );
    table::lemma_slot_unique(slots, next_pid, k, rt[e].0);
    assert(rt[e].1 <= rt[m].1);
}

/// Without runnable real-time processes, no runnable process has a better
/// effective priority than the picked one.
pub proof fn law_best_priority_first(slots: Slots, next_pid: u32, queue_index: usize, i: int)
    requires
        table::pids_distinct(slots, next_pid),
        forall|k: int| !#[trigger] realtime_at(slots, k),
        runnable_at(slots, i),
    ensures
        policy::pick(slots, queue_index) matches Some((pid, _qi)) && {
            let s = table::slot_of(slots, pid);
            &&& runnable_at(slots, s)
            &&& slots[s]->0.pid == pid
            &&& effective_at(slots, s) <= effective_at(slots, i)
        },
{
    let candidates = table::ready_priorities(slots);
    let rt = table::ready_deadlines(slots);
    let waiters = table::blocked_waiters(slots);
    let m = lemma_ready_priorities(slots, i);
    if rt.len() > 0 {
        let k = table::lemma_collect_source(
            slots,
            |p: ProcessControlBlock|
                if table::runnable(p) && p.rt_period > 0 {
                    Some((p.pid, p.rt_deadline))
                } else {
                    None
                },
            0,
        );
        assert(realtime_at(slots, k));
    }
    let best = policy::best_level(candidates, waiters);
    let level = policy::at_level(candidates, waiters, best);
    policy::lemma_best_level(candidates, waiters);
    policy::lemma_at_level(candidates, waiters, best);
    let idx = if queue_index < level.len() {
        queue_index as int
    } else {
        0
    };
    let pid = level[idx];
    assert(policy::candidate_at(candidates, waiters, best, pid));
    let c = choose|c: int|
        0 <= c < candidates.len() && (#[trigger] candidates[c]).0 == pid
            && policy::effective(waiters, pid, candidates[c].1) == best;
    let s = table::lemma_collect_source(
        slots,
        |p: ProcessControlBlock|
            if table::runnable(p) {
                Some((p.pid, p.priority))
            } else {
                None
            },
        c,
    );
    table::lemma_slot_unique(slots, next_pid, s, pid);
    assert(candidates[m] == (slots[i]->0.pid, slots[i]->0.priority));
}

/// A blocked process lends its priority to the runnable process it waits for:
/// without runnable real-time processes, the picked process has at least that
/// priority.
pub proof fn law_priority_inheritance(
    slots: Slots,
    next_pid: u32,
    queue_index: usize,
    waiter: int,
    server: int,
)
    requires
        table::pids_distinct(slots, next_pid),
        forall|k: int| !#[trigger] realtime_at(slots, k),
        runnable_at(slots, server),
        0 <= waiter < slots.len(),
        slots[waiter] is Some,
        slots[waiter]->0.state is Blocked,
        slots[waiter]->0.waiting_for == Some(slots[server]->0.pid),
    ensures
        policy::pick(slots, queue_index) matches Some((pid, _qi)) && effective_at(
            slots,
            table::slot_of(slots, pid),
        ) <= slots[waiter]->0.priority,
{
    let waiters = table::blocked_waiters(slots);
    law_best_priority_first(slots, next_pid, queue_index, server);
    let w = table::lemma_collect_complete(
        slots,
        |p: ProcessControlBlock|
            if p.state is Blocked && p.waiting_for is Some {
                Some((p.priority, p.waiting_for->0))
            } else {
                None
            },
        waiter,
    );
    policy::lemma_effective(
        waiters,
        slots[server]->0.pid,
        slots[server]->0.priority,
    );
    assert(waiters[w].1 == slots[server]->0.pid);
}

/// The process in slot `i` is runnable, and no runnable process has a better
/// effective priority.
pub open spec fn at_best_level(slots: Slots, i: int) -> bool {
    &&& runnable_at(slots, i)
    &&& forall|k: int| #[trigger]
        runnable_at(slots, k) ==> effective_at(slots, i) <= effective_at(slots, k)
}

/// The runnable processes with the best effective priority, in slot order.
pub open spec fn best_processes(slots: Slots) -> Seq<ProcessId> {
    let candidates = table::ready_priorities(slots);
    let waiters = table::blocked_waiters(slots);
    policy::at_level(candidates, waiters, policy::best_level(candidates, waiters))
}

/// Where the round robin stands among `n` processes.
pub open spec fn turn(queue_index: usize, n: nat) -> int {
    if queue_index < n {
        queue_index as int
    } else {
        0
    }
}

/// The state after `n` choices of the next process.
pub open spec fn rescheduled(s: SchedState, n: nat) -> SchedState
    decreases n,
{
    if n == 0 {
        s
    } else {
        round_robin::after_schedule(rescheduled(s, (n - 1) as nat)).0
    }
}

/// What the choice after `n` earlier ones gives.
pub open spec fn chosen(s: SchedState, n: nat) -> Option<ProcessId> {
    round_robin::after_schedule(rescheduled(s, n)).1
}

/// Different runnable processes have different PIDs.
proof fn lemma_ready_distinct(slots: Slots, next_pid: u32)
    requires
        table::pids_distinct(slots, next_pid),
    ensures
        forall|a: int, b: int|
            0 <= a < b < table::ready_priorities(slots).len() ==> (
            #[trigger] table::ready_priorities(slots)[a]).0 != (
            #[trigger] table::ready_priorities(slots)[b]).0,
    decreases slots.len(),
{
    if slots.len() > 0 {
        let f = |p: ProcessControlBlock|
            if table::runnable(p) {
                Some((p.pid, p.priority))
            } else {
                None
            };
        let init = slots.drop_last();
        assert(table::pids_distinct(init, next_pid)) by {
            assert forall|i: int| 0 <= i < init.len() implies (#[trigger] init[i]) == slots[i] by {}
        }
        lemma_ready_distinct(init, next_pid);
        let rest = table::ready_priorities(init);
        let all = table::ready_priorities(slots);
        assert forall|a: int, b: int| 0 <= a < b < all.len() implies (#[trigger] all[a]).0 != (
        #[trigger] all[b]).0 by {
            assert(all[a] == rest[a]);
            if b < rest.len() {
                assert(all[b] == rest[b]);
            } else {
                let i = table::lemma_collect_source(init, f, a);
                assert(init[i] == slots[i]);
                assert(slots[i]->0.pid != slots[slots.len() - 1]->0.pid);
            }
        }
    }
}

/// The processes at the best level are the runnable ones that no runnable
/// process beats, each listed once.
pub proof fn lemma_best_processes(slots: Slots, next_pid: u32)
    requires
        table::pids_distinct(slots, next_pid),
    ensures
        best_processes(slots).no_duplicates(),
        forall|i: int| #[trigger]
            at_best_level(slots, i) ==> best_processes(slots).contains(slots[i]->0.pid),
        forall|m: int|
            0 <= m < best_processes(slots).len() ==> at_best_level(
                slots,
                table::slot_of(slots, #[trigger] best_processes(slots)[m]),
            ) && table::has_process(slots, best_processes(slots)[m]),
{
    let candidates = table::ready_priorities(slots);
    let waiters = table::blocked_waiters(slots);
    let best = policy::best_level(candidates, waiters);
    let level = best_processes(slots);
    let f = |p: ProcessControlBlock|
        if table::runnable(p) {
            Some((p.pid, p.priority))
        } else {
            None
        };
    lemma_ready_distinct(slots, next_pid);
    policy::lemma_at_level_distinct(candidates, waiters, best);
    policy::lemma_best_level(candidates, waiters);
    policy::lemma_at_level(candidates, waiters, best);
    assert forall|k: int| #[trigger] runnable_at(slots, k) implies best <= effective_at(
        slots,
        k,
    ) by {
        let m = lemma_ready_priorities(slots, k);
        assert(candidates[m] == (slots[k]->0.pid, slots[k]->0.priority));
    }
    assert forall|m: int| 0 <= m < level.len() implies at_best_level(
        slots,
        table::slot_of(slots, #[trigger] level[m]),
    ) && table::has_process(slots, level[m]) && effective_at(
        slots,
        table::slot_of(slots, level[m]),
    ) == best by {
        assert(policy::candidate_at(candidates, waiters, best, level[m]));
        let c = choose|c: int|
            0 <= c < candidates.len() && (#[trigger] candidates[c]).0 == level[m]
                && policy::effective(waiters, level[m], candidates[c].1) == best;
        let i = table::lemma_collect_source(slots, f, c);
        table::lemma_slot_unique(slots, next_pid, i, level[m]);
    }
    assert forall|i: int| #[trigger] at_best_level(slots, i) implies level.contains(
        slots[i]->0.pid,
    ) by {
        let m = lemma_ready_priorities(slots, i);
        assert(candidates.len() > 0);
        assert(level.len() > 0);
        let s = table::slot_of(slots, level[0]);
        assert(at_best_level(slots, s) && effective_at(slots, s) == best);
        assert(effective_at(slots, i) <= effective_at(slots, s));
        let l = policy::lemma_at_level_complete(candidates, waiters, best, m);
        assert(level[l] == slots[i]->0.pid);
    }
}

/// Choice `n` takes the process whose turn it is.
proof fn lemma_turns(s: SchedState, n: nat)
    requires
        s.slots.len() == table::MAX_PROCESSES,
        table::ready_deadlines(s.slots).len() == 0,
        best_processes(s.slots).len() > 0,
    ensures
        ({
            let level = best_processes(s.slots);
            let k = level.len();
            let at = (turn(s.queue_index, k) + n) % k as int;
            &&& 0 <= at < k
            &&& rescheduled(s, n).slots == s.slots
            &&& turn(rescheduled(s, n).queue_index, k) == at
            &&& chosen(s, n) == Some(level[at])
        }),
    decreases n,
{
    let level = best_processes(s.slots);
    let k = level.len() as int;
    let candidates = table::ready_priorities(s.slots);
    let waiters = table::blocked_waiters(s.slots);
    let best = policy::best_level(candidates, waiters);
    policy::lemma_at_level(candidates, waiters, best);
    table::lemma_collect_len(
        s.slots,
        |p: ProcessControlBlock|
            if table::runnable(p) {
                Some((p.pid, p.priority))
            } else {
                None
            },
    );
    let first = turn(s.queue_index, level.len());
    if n == 0 {
        vstd::arithmetic::div_mod::lemma_small_mod(first as nat, k as nat);
    } else {
        lemma_turns(s, (n - 1) as nat);
        let at = (first + (n - 1)) % k;
        assert((at + 1) % k == (first + n) % k) by {
            vstd::arithmetic::div_mod::lemma_add_mod_noop_right(1, first + (n - 1), k);
        }
    }
    vstd::arithmetic::div_mod::lemma_mod_bound(first + n, k);
}

/// Processes at the best level take turns. Without runnable real-time
/// processes, as many choices in a row as there are processes at the best level
/// give each of them exactly once.
pub proof fn law_round_robin(s: SchedState, next_pid: u32)
    requires
        s.slots.len() == table::MAX_PROCESSES,
        table::pids_distinct(s.slots, next_pid),
        forall|k: int| !#[trigger] realtime_at(s.slots, k),
    ensures
        ({
            let k = best_processes(s.slots).len();
            &&& forall|n: nat| n < k ==> (#[trigger] chosen(s, n)) is Some
            &&& forall|m: nat, n: nat|
                m < n < k ==> #[trigger] chosen(s, m) != #[trigger] chosen(s, n)
            &&& forall|n: nat|
                n < k ==> at_best_level(
                    s.slots,
                    table::slot_of(s.slots, (#[trigger] chosen(s, n))->0),
                )
            &&& forall|i: int| #[trigger]
                at_best_level(s.slots, i) ==> exists|n: nat|
                    n < k && #[trigger] chosen(s, n) == Some(s.slots[i]->0.pid)
        }),
{
    let level = best_processes(s.slots);
    let k = level.len() as int;
    lemma_best_processes(s.slots, next_pid);
    let rt = table::ready_deadlines(s.slots);
    if rt.len() > 0 {
        let i = table::lemma_collect_source(
            s.slots,
            |p: ProcessControlBlock|
                if table::runnable(p) && p.rt_period > 0 {
                    Some((p.pid, p.rt_deadline))
                } else {
                    None
                },
            0,
        );
        assert(realtime_at(s.slots, i));
    }
    let first = turn(s.queue_index, level.len());
    assert forall|n: nat| n < k implies (#[trigger] chosen(s, n)) == Some(
        level[(first + n) % k],
    ) && 0 <= (first + n) % k < k by {
        lemma_turns(s, n);
    }
    assert forall|m: nat, n: nat| m < n < k implies #[trigger] chosen(s, m) != #[trigger] chosen(
        s,
        n,
    ) by {
        lemma_wrapped(first, m as int, k);
        lemma_wrapped(first, n as int, k);
    }
    assert forall|i: int| #[trigger] at_best_level(s.slots, i) implies exists|n: nat|
        n < k && #[trigger] chosen(s, n) == Some(s.slots[i]->0.pid) by {
        let m = level.index_of(s.slots[i]->0.pid);
        assert(level.contains(s.slots[i]->0.pid));
        let n = if m >= first {
            (m - first) as nat
        } else {
            (m - first + k) as nat
        };
        lemma_wrapped(first, n as int, k);
        assert(chosen(s, n) == Some(level[m]));
    }
}

/// Counting on from `first` among `k` places wraps around at most once.
proof fn lemma_wrapped(first: int, n: int, k: int)
    requires
        0 <= first < k,
        0 <= n < k,
    ensures
        (first + n) % k == if first + n < k {
            first + n
        } else {
            first + n - k
        },
{
    if first + n < k {
        vstd::arithmetic::div_mod::lemma_small_mod((first + n) as nat, k as nat);
    } else {
        vstd::arithmetic::div_mod::lemma_small_mod((first + n - k) as nat, k as nat);
        vstd::arithmetic::div_mod::lemma_mod_add_multiples_vanish(first + n - k, k);
    }
}

// ── Time ─────────────────────────────────────────────────────────────────────
/// Giving way changes nothing of a process but its state, and blocks nobody.
proof fn lemma_give_way(s: SchedState, next_pid: u32, from: ProcessId, i: int)
    requires
        table::pids_distinct(s.slots, next_pid),
        0 <= i < s.slots.len(),
        s.slots[i] is Some,
    ensures
        ({
            let t = round_robin::give_way(s, from).0;
            let p = s.slots[i]->0;
            let q = t.slots[i]->0;
            &&& t.tick == s.tick
            &&& t.slots.len() == s.slots.len()
            &&& t.slots[i] is Some
            &&& q == ProcessControlBlock { state: q.state, ..p }
            &&& q.state is Blocked ==> p.state is Blocked
        }),
{
    if policy::pick(s.slots, s.queue_index) is Some {
        policy::lemma_pick_runnable(s.slots, next_pid, s.queue_index);
        let next = (policy::pick(s.slots, s.queue_index)->0).0;
        let k = table::slot_of(s.slots, next);
        assert(table::holds(s.slots, k, next));
    }
}

/// After a timer tick no process is still blocked past its deadline. At the
/// start of a rate window no process has sent a message yet. At the start of a
/// budget frame no process has used up any of its budget, but for the one tick
/// of the process that was running. The pages that a process has mapped stay
/// counted.
pub proof fn law_timer_tick(s: SchedState, next_pid: u32, i: int)
    requires
        table::pids_distinct(s.slots, next_pid),
        s.tick < u64::MAX,
        0 <= i < s.slots.len(),
        s.slots[i] is Some,
    ensures
        ({
            let t = round_robin::after_timer_tick(s).0;
            let p = s.slots[i]->0;
            let q = t.slots[i]->0;
            &&& t.tick == s.tick + 1
            &&& t.slots.len() == s.slots.len()
            &&& t.slots[i] is Some
            &&& q.pid == p.pid
            &&& q.state is Blocked ==> q.blocked_deadline > t.tick
            &&& t.tick % round_robin::IPC_RATE_WINDOW_TICKS == 0 ==> q.ipc_rate_used == 0
            &&& t.tick % round_robin::CPU_BUDGET_FRAME_TICKS == 0 ==> {
                &&& s.current != Some(p.pid) ==> q.cpu_budget_used == 0
                &&& q.cpu_budget_used <= 1
            }
            &&& q.memory_pages_used == p.memory_pages_used
        }),
{
    let t = round_robin::ticked(s);
    assert(table::pids_distinct(t.slots, next_pid));
    if s.current is Some && table::has_process(t.slots, s.current->0) {
        let c = s.current->0;
        let k = table::slot_of(t.slots, c);
        assert(table::holds(t.slots, k, c));
        let p = round_robin::charged(table::lookup(t.slots, c));
        if round_robin::expired(p) {
            let q = round_robin::preempted(p, t.tick);
            let u = SchedState { slots: table::with_process(t.slots, c, q), ..t };
            assert(table::pids_distinct(u.slots, next_pid));
            lemma_give_way(u, next_pid, c, i);
        }
    }
}

/// The sender of a delivered message is the process that sent it, whatever the
/// message claimed; the message is the last one of the receiver's mailbox and
/// keeps its payload.
pub proof fn law_sender_is_genuine(
    before: Scheduler,
    after: Scheduler,
    from: ProcessId,
    to: ProcessId,
    msg: Message,
)
    requires
        round_robin::message_sent(before, after, from, to, msg, true),
    ensures
        after.pcb(to).mailbox@.len() > 0,
        after.pcb(to).mailbox@.last().sender == from,
        after.pcb(to).mailbox@.last().data == msg.data,
{
}

/// A refused message reaches no mailbox: the only change is that the sender
/// may have been charged for it.
pub proof fn law_refused_message_changes_no_mailbox(
    before: Scheduler,
    after: Scheduler,
    from: ProcessId,
    to: ProcessId,
    msg: Message,
    i: int,
)
    requires
        before.wf(),
        round_robin::message_sent(before, after, from, to, msg, false),
        0 <= i < before.slots().len(),
        before.slots()[i] is Some,
    ensures
        after.slots()[i] is Some,
        after.slots()[i]->0.mailbox == before.slots()[i]->0.mailbox,
        after.slots()[i]->0.state == before.slots()[i]->0.state,
{
    if before.has(from) {
        let k = table::slot_of(before.slots(), from);
        assert(table::holds(before.slots(), k, from));
    }
}

/// The mailbox of the receiver after a message was delivered to it.
pub proof fn lemma_delivered(
    before: Scheduler,
    sent: Scheduler,
    from: ProcessId,
    to: ProcessId,
    msg: Message,
)
    requires
        before.wf(),
        sent.wf(),
        round_robin::message_sent(before, sent, from, to, msg, true),
    ensures
        sent.has(to),
        sent.pcb(to).mailbox@ == before.pcb(to).mailbox@.push((Message { sender: from, ..msg })),
{
    let charged = round_robin::slots_charged(before.slots(), from, to);
    let t = table::slot_of(before.slots(), to);
    assert(table::holds(before.slots(), t, to));
    if before.has(from) {
        let k = table::slot_of(before.slots(), from);
        assert(table::holds(before.slots(), k, from));
    }
    assert(table::holds(charged, t, to));
    assert(table::pids_distinct(charged, before.process_table.next_pid));
    table::lemma_slot_unique(charged, before.process_table.next_pid, t, to);
    table::lemma_slot_unique(before.slots(), before.process_table.next_pid, t, to);
    assert(table::holds(sent.slots(), t, to));
}

/// Who waits for whom after a message was delivered: the sender waits for the
/// receiver, which itself may have stopped to wait; nobody else is affected.
pub proof fn lemma_waits_after_send(
    before: Scheduler,
    after: Scheduler,
    from: ProcessId,
    to: ProcessId,
    msg: Message,
)
    requires
        before.wf(),
        round_robin::message_sent(before, after, from, to, msg, true),
        before.has(from),
        from != to,
    ensures
        table::pids_distinct(after.slots(), after.process_table.next_pid),
        after.has(from),
        after.pcb(from).mailbox == before.pcb(from).mailbox,
        table::waits_for(after.slots(), from) == Some(to),
        forall|q: ProcessId|
            q != from ==> (#[trigger] table::waits_for(after.slots(), q) == table::waits_for(
                before.slots(),
                q,
            ) || table::waits_for(after.slots(), q) is None),
{
    let slots = before.slots();
    let next_pid = before.process_table.next_pid;
    let charged = round_robin::slots_charged(slots, from, to);
    let k = table::slot_of(slots, from);
    assert(table::holds(slots, k, from));
    let t = table::slot_of(slots, to);
    assert(table::holds(slots, t, to));
    assert(table::holds(charged, k, from));
    assert(table::holds(charged, t, to));
    assert(table::pids_distinct(charged, next_pid));
    table::lemma_slot_unique(charged, next_pid, t, to);
    let s = after.slots();
    assert(s == charged.update(t, Some(after.pcb(to))));
    assert(table::pids_distinct(s, next_pid));
    assert(table::holds(s, k, from));
    table::lemma_slot_unique(s, next_pid, k, from);
    assert forall|q: ProcessId| q != from implies (#[trigger] table::waits_for(s, q)
        == table::waits_for(slots, q) || table::waits_for(s, q) is None) by {
        if table::has_process(s, q) {
            let i = table::slot_of(s, q);
            assert(table::holds(s, i, q));
            assert(table::holds(slots, i, q));
            table::lemma_slot_unique(slots, next_pid, i, q);
        }
    }
}

/// The receiver's mailbox after `j` messages were received from it.
proof fn lemma_mailbox_drained(
    states: Seq<Scheduler>,
    timeouts: Seq<u64>,
    got: Seq<Option<Message>>,
    to: ProcessId,
    j: int,
)
    requires
        states.len() == got.len() + 1,
        timeouts.len() == got.len(),
        forall|k: int| 0 <= k < states.len() ==> (#[trigger] states[k]).wf(),
        forall|k: int|
            0 <= k < got.len() ==> round_robin::message_received(
                states[k],
                states[k + 1],
                to,
                timeouts[k],
                #[trigger] got[k],
            ),
        states[0].has(to),
        0 <= j <= got.len(),
        j <= states[0].pcb(to).mailbox@.len(),
    ensures
        states[j].has(to),
        states[j].pcb(to).mailbox@ == states[0].pcb(to).mailbox@.skip(j),
    decreases j,
{
    let all = states[0].pcb(to).mailbox@;
    if j > 0 {
        lemma_mailbox_drained(states, timeouts, got, to, j - 1);
        let s = states[j - 1];
        let t = table::slot_of(s.slots(), to);
        assert(table::holds(s.slots(), t, to));
        assert(round_robin::message_received(s, states[j], to, timeouts[j - 1], got[j - 1]));
        assert(table::holds(states[j].slots(), t, to));
        table::lemma_slot_unique(
            states[j].slots(),
            states[j].process_table.next_pid,
            t,
            to,
        );
        assert(all.skip(j - 1).drop_first() =~= all.skip(j));
    } else {
        assert(all.skip(0) =~= all);
    }
}

/// Messages arrive in the order in which they were sent: a process first
/// receives what its mailbox already held, oldest first, and then the message
/// that was sent, with its payload and the true sender.
pub proof fn law_messages_arrive_in_order(
    before: Scheduler,
    states: Seq<Scheduler>,
    timeouts: Seq<u64>,
    got: Seq<Option<Message>>,
    from: ProcessId,
    to: ProcessId,
    msg: Message,
    i: int,
)
    requires
        before.wf(),
        states.len() == got.len() + 1,
        timeouts.len() == got.len(),
        forall|k: int| 0 <= k < states.len() ==> (#[trigger] states[k]).wf(),
        round_robin::message_sent(before, states[0], from, to, msg, true),
        forall|k: int|
            0 <= k < got.len() ==> round_robin::message_received(
                states[k],
                states[k + 1],
                to,
                timeouts[k],
                #[trigger] got[k],
            ),
        0 <= i < got.len(),
    ensures
        i < before.pcb(to).mailbox@.len() ==> got[i] == Some(before.pcb(to).mailbox@[i]),
        i == before.pcb(to).mailbox@.len() ==> (got[i] matches Some(m) && m.sender == from && m.data
            == msg.data),
{
    lemma_delivered(before, states[0], from, to, msg);
    if i <= before.pcb(to).mailbox@.len() {
        lemma_mailbox_drained(states, timeouts, got, to, i);
        assert(round_robin::message_received(states[i], states[i + 1], to, timeouts[i], got[i]));
    }
}

/// A capability is granted only with the grant right, and the receiver gets it
/// with the rights it has: granting adds no rights.
pub proof fn law_granting_adds_no_rights(
    before: Scheduler,
    after: Scheduler,
    from: ProcessId,
    slot: int,
    to: ProcessId,
    made: Option<usize>,
)
    requires
        round_robin::cap_granted(before, after, from, slot, to, made),
    ensures
        made matches Some(k) ==> {
            let cap = before.pcb(from).cap_table@[slot];
            &&& before.has(from)
            &&& cap.rights & CAP_G != 0
            &&& after.pcb(to).cap_table@[k as int] == cap
        },
        made is None ==> after.slots() == before.slots(),
{
}

/// Once a process has mapped as many pages as its quota allows, it may map no
/// more, and a process without quota always may.
pub proof fn law_quota_is_a_limit(p: ProcessControlBlock)
    ensures
        p.memory_quota_pages == 0 ==> round_robin::within_quota(
            round_robin::page_counted(p),
        ),
        p.memory_quota_pages > 0 && p.memory_pages_used + 1 >= p.memory_quota_pages
            ==> !round_robin::within_quota(
            round_robin::page_counted(p),
        ),
        p.memory_quota_pages > 0 && p.memory_pages_used + 1 < p.memory_quota_pages
            ==> round_robin::within_quota(
            round_robin::page_counted(p),
        ),
{
}

/// A process with a message rate limit stays within it: sending never counts
/// more messages than the limit, each delivered message counts, and at the limit
/// nothing is delivered.
pub proof fn law_rate_limit_holds(
    before: Scheduler,
    after: Scheduler,
    from: ProcessId,
    to: ProcessId,
    msg: Message,
    r: bool,
)
    requires
        before.wf(),
        after.wf(),
        round_robin::message_sent(before, after, from, to, msg, r),
        before.has(from),
        before.pcb(from).ipc_rate_limit > 0,
        before.pcb(from).ipc_rate_used <= before.pcb(from).ipc_rate_limit,
    ensures
        after.has(from),
        after.pcb(from).ipc_rate_limit == before.pcb(from).ipc_rate_limit,
        after.pcb(from).ipc_rate_used <= after.pcb(from).ipc_rate_limit,
        r ==> after.pcb(from).ipc_rate_used == before.pcb(from).ipc_rate_used + 1,
        r ==> before.pcb(from).ipc_rate_used < before.pcb(from).ipc_rate_limit,
{
    let k = table::slot_of(before.slots(), from);
    assert(table::holds(before.slots(), k, from));
    let charged = round_robin::slots_charged(before.slots(), from, to);
    assert(table::holds(charged, k, from));
    if before.has(to) {
        let t = table::slot_of(before.slots(), to);
        assert(table::holds(before.slots(), t, to));
        assert(table::holds(charged, t, to));
        assert(table::pids_distinct(charged, before.process_table.next_pid));
        table::lemma_slot_unique(charged, before.process_table.next_pid, t, to);
    }
    assert(table::holds(after.slots(), k, from));
    table::lemma_slot_unique(after.slots(), after.process_table.next_pid, k, from);
}

/// A process is preempted by the tick that uses up its processor budget. The
/// budget starts anew with every frame, and the message count with every window.
pub proof fn law_budget_is_a_limit(p: ProcessControlBlock, tick: u64)
    ensures
        round_robin::chargeable(p, tick) && p.cpu_budget_ticks > 0 && p.cpu_budget_used + 1
            >= p.cpu_budget_ticks ==> round_robin::expired(round_robin::charged(p)),
        tick % round_robin::CPU_BUDGET_FRAME_TICKS == 0 ==> round_robin::refreshed(
            p,
            tick,
        ).cpu_budget_used == 0,
        tick % round_robin::IPC_RATE_WINDOW_TICKS == 0 ==> round_robin::refreshed(
            p,
            tick,
        ).ipc_rate_used == 0,
{
}

/// An elapsed deadline moves on by exactly one period, so that no drift builds up,
/// and a deadline still ahead stays.
pub proof fn law_deadline_does_not_drift(p: ProcessControlBlock, tick: u64)
    requires
        round_robin::chargeable(p, tick),
        p.rt_period > 0,
    ensures
        p.rt_deadline <= tick ==> round_robin::preempted(p, tick).rt_deadline
            == p.rt_deadline + p.rt_period,
        p.rt_deadline > tick ==> round_robin::preempted(p, tick).rt_deadline
            == p.rt_deadline,
{
}

/// An ended process is gone: it is not in the table, is not current, and no name
/// leads to it. All others are as they were, and its end is the latest event of
/// the log.
pub proof fn law_ended_process_is_gone(
    before: Scheduler,
    after: Scheduler,
    services_before: Seq<ServiceEntry>,
    services_after: Seq<ServiceEntry>,
    pid: ProcessId,
    other: ProcessId,
    key: Seq<u8>,
)
    requires
        before.wf(),
        after.wf(),
        round_robin::process_ended(before, after, services_before, services_after, pid),
        other != pid,
    ensures
        !after.has(pid),
        after.current_process != Some(pid),
        service_registry::provider(services_after, key) != Some(pid.0),
        service_registry::provider(services_before, key) != Some(pid.0)
            ==> service_registry::provider(services_after, key) == service_registry::provider(
            services_before,
            key,
        ),
        after.has(other) == before.has(other),
        before.has(other) ==> after.pcb(other) == before.pcb(other),
        after.audit@.last() == (AuditEntry {
            tick: before.tick,
            kind: AuditKind::Terminate,
            sender: 0,
            target: pid.0,
        }),
{
    service_registry::law_unregistered_is_not_found(services_before, services_after, pid.0, key);
    let k = table::slot_of(before.slots(), pid);
    if before.has(pid) {
        assert(table::holds(before.slots(), k, pid));
    }
    if before.has(other) {
        crate::process::laws::law_others_survive(
            before.process_table,
            after.process_table,
            pid,
            other,
        );
    }
    if after.has(other) {
        let o = table::slot_of(after.slots(), other);
        assert(table::holds(after.slots(), o, other));
        assert(table::holds(before.slots(), o, other));
    }
}

// ── Who runs ─────────────────────────────────────────────────────────────────
/// No process but the current one is in the running state.
pub open spec fn only_current_runs(s: SchedState) -> bool {
    forall|i: int|
        0 <= i < s.slots.len() && (#[trigger] s.slots[i]) is Some && s.slots[i]->0.state is Running
            ==> s.current == Some(s.slots[i]->0.pid)
}

/// No process is in the running state.
pub open spec fn nobody_runs(s: SchedState) -> bool {
    forall|i: int|
        0 <= i < s.slots.len() && (#[trigger] s.slots[i]) is Some ==> !(s.slots[i]->0.state is Running)
}

/// Once the current process is no longer running, letting the next one run
/// leaves that one alone running.
proof fn lemma_next_runs_alone(s: SchedState, next_pid: u32)
    requires
        table::pids_distinct(s.slots, next_pid),
        nobody_runs(s),
        policy::pick(s.slots, s.queue_index) is Some,
    ensures
        ({
            let (next, queue_index) = policy::pick(s.slots, s.queue_index)->0;
            only_current_runs(round_robin::running(s, next, queue_index))
        }),
{
    let (next, queue_index) = policy::pick(s.slots, s.queue_index)->0;
    policy::lemma_pick_runnable(s.slots, next_pid, s.queue_index);
    let t = table::slot_of(s.slots, next);
    assert(table::holds(s.slots, t, next));
}

/// Taking the processor from the current process leaves nobody running.
proof fn lemma_current_descheduled(s: SchedState, next_pid: u32, c: ProcessId, q: ProcessControlBlock)
    requires
        table::pids_distinct(s.slots, next_pid),
        only_current_runs(s),
        s.current == Some(c),
        table::has_process(s.slots, c),
        q.pid == c,
        !(q.state is Running),
    ensures
        nobody_runs(SchedState { slots: table::with_process(s.slots, c, q), ..s }),
        table::pids_distinct(table::with_process(s.slots, c, q), next_pid),
{
    let t = table::slot_of(s.slots, c);
    assert(table::holds(s.slots, t, c));
    let slots = table::with_process(s.slots, c, q);
    assert forall|i: int| 0 <= i < slots.len() && (#[trigger] slots[i]) is Some implies !(
    slots[i]->0.state is Running) by {
        if i != t {
            assert(slots[i] == s.slots[i]);
            if s.slots[i]->0.state is Running {
                assert(s.slots[i]->0.pid != s.slots[t]->0.pid);
            }
        }
    }
}

/// At most one process runs: a timer tick and a yield keep every process but
/// the current one out of the running state.
pub proof fn law_only_current_runs(s: SchedState, next_pid: u32)
    requires
        table::pids_distinct(s.slots, next_pid),
        only_current_runs(s),
        s.tick < u64::MAX,
    ensures
        only_current_runs(round_robin::after_timer_tick(s).0),
        only_current_runs(round_robin::after_yield(s).0),
{
    let t = round_robin::ticked(s);
    assert(only_current_runs(t));
    assert(table::pids_distinct(t.slots, next_pid));
    if s.current is Some && table::has_process(t.slots, s.current->0) {
        let c = s.current->0;
        let k = table::slot_of(t.slots, c);
        assert(table::holds(t.slots, k, c));
        let p = round_robin::charged(table::lookup(t.slots, c));
        if round_robin::expired(p) {
            let q = round_robin::preempted(p, t.tick);
            lemma_current_descheduled(t, next_pid, c, q);
            let u = SchedState { slots: table::with_process(t.slots, c, q), ..t };
            if policy::pick(u.slots, u.queue_index) is Some {
                lemma_next_runs_alone(u, next_pid);
            }
        }
    }
    if s.current is Some && table::has_process(s.slots, s.current->0) {
        let c = s.current->0;
        let k = table::slot_of(s.slots, c);
        assert(table::holds(s.slots, k, c));
        let p = table::lookup(s.slots, c);
        let q = ProcessControlBlock { cpu_time: 0, state: round_robin::descheduled(p.state), ..p };
        lemma_current_descheduled(s, next_pid, c, q);
        let u = SchedState { slots: table::with_process(s.slots, c, q), ..s };
        if policy::pick(u.slots, u.queue_index) is Some {
            lemma_next_runs_alone(u, next_pid);
        }
    } else if s.current is Some {
        let c = s.current->0;
        assert forall|i: int| 0 <= i < s.slots.len() && (#[trigger] s.slots[i]) is Some implies !(
        s.slots[i]->0.state is Running) by {
            if s.slots[i]->0.state is Running {
                assert(table::holds(s.slots, i, c));
            }
        }
    }
}

} // verus!
