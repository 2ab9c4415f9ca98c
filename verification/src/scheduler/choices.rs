//! Who runs next, and how long.

use vstd::prelude::*;

use crate::process::pcb::{ProcessControlBlock, ProcessState};
use crate::process::table::{self, Slots};
use crate::process::ProcessId;
use crate::scheduler::effects::lemma_own_pid;
use crate::scheduler::policy;
use crate::scheduler::round_robin::{self, SchedState};

verus! {

/// Replacing a process by one that is listed in the same way changes no list.
proof fn lemma_collect_replaced<T>(
    slots: Slots,
    f: spec_fn(ProcessControlBlock) -> Option<T>,
    i: int,
    q: ProcessControlBlock,
)
    requires
        0 <= i < slots.len(),
        slots[i] is Some,
        f(q) == f(slots[i]->0),
    ensures
        table::collect(slots.update(i, Some(q)), f) == table::collect(slots, f),
    decreases slots.len(),
{
    let after = slots.update(i, Some(q));
    let init = slots.drop_last();
    if i < init.len() {
        lemma_collect_replaced(init, f, i, q);
        assert(after.drop_last() =~= init.update(i, Some(q)));
        assert(after.last() == slots.last());
    } else {
        assert(after.drop_last() =~= init);
    }
}

/// The policy does not tell a ready process from a running one.
proof fn lemma_pick_after_running(s: SchedState, next_pid: u32)
    requires
        table::pids_distinct(s.slots, next_pid),
        policy::pick(s.slots, s.queue_index) is Some,
    ensures
        ({
            let (next, qi) = policy::pick(s.slots, s.queue_index)->0;
            policy::pick(round_robin::running(s, next, qi).slots, s.queue_index) == policy::pick(
                s.slots,
                s.queue_index,
            )
        }),
{
    let (next, qi) = policy::pick(s.slots, s.queue_index)->0;
    policy::lemma_pick_runnable(s.slots, next_pid, s.queue_index);
    lemma_own_pid(s.slots, next);
    let p = table::lookup(s.slots, next);
    let q = ProcessControlBlock { state: ProcessState::Running, ..p };
    let i = table::slot_of(s.slots, next);
    let priority = |p: ProcessControlBlock|
        if table::runnable(p) {
            Some((p.pid, p.priority))
        } else {
            None
        };
    let deadline = |p: ProcessControlBlock|
        if table::runnable(p) && p.rt_period > 0 {
            Some((p.pid, p.rt_deadline))
        } else {
            None
        };
    let waiter = |p: ProcessControlBlock|
        if p.state is Blocked && p.waiting_for is Some {
            Some((p.priority, p.waiting_for->0))
        } else {
            None
        };
    let after = s.slots.update(i, Some(q));
    assert(round_robin::running(s, next, qi).slots == after);
    lemma_collect_replaced(s.slots, priority, i, q);
    lemma_collect_replaced(s.slots, deadline, i, q);
    lemma_collect_replaced(s.slots, waiter, i, q);
    assert(table::ready_priorities(after) == table::collect(after, priority));
    assert(table::ready_priorities(s.slots) == table::collect(s.slots, priority));
    assert(table::ready_deadlines(after) == table::collect(after, deadline));
    assert(table::ready_deadlines(s.slots) == table::collect(s.slots, deadline));
    assert(table::blocked_waiters(after) == table::collect(after, waiter));
    assert(table::blocked_waiters(s.slots) == table::collect(s.slots, waiter));
}

/// The process that the policy picks from the processes of `t` has the
/// processor, and the round robin, which stood at `queue_index`, has moved on.
pub open spec fn follows_policy(t: SchedState, queue_index: usize) -> bool {
    policy::pick(t.slots, queue_index) matches Some((next, qi)) && {
        &&& t.current == Some(next)
        &&& t.queue_index == qi
        &&& table::has_process(t.slots, next)
        &&& table::lookup(t.slots, next).state is Running
    }
}

proof fn lemma_running_follows_policy(s: SchedState, next_pid: u32)
    requires
        table::pids_distinct(s.slots, next_pid),
        policy::pick(s.slots, s.queue_index) is Some,
    ensures
        ({
            let (next, qi) = policy::pick(s.slots, s.queue_index)->0;
            follows_policy(round_robin::running(s, next, qi), s.queue_index)
        }),
{
    lemma_pick_after_running(s, next_pid);
    crate::scheduler::effects::lemma_running(s, next_pid);
}

/// Whenever the processor is free to be given away, the process that the policy
/// picks gets it: after a yield, after a process has blocked, after one has
/// ended, and after the tick that uses up a quantum. There is a switch exactly if
/// that is another process than before; nobody gets the processor only if nobody
/// can run.
pub proof fn law_processor_goes_where_the_policy_says(
    s: SchedState,
    next_pid: u32,
    c: ProcessId,
)
    requires
        table::pids_distinct(s.slots, next_pid),
        s.tick < u64::MAX,
        table::has_process(s.slots, c),
        s.current == Some(c),
    ensures
        ({
            let (t, r) = round_robin::after_yield(s);
            table::runnable(table::lookup(s.slots, c)) ==> follows_policy(t, s.queue_index) && (
            r is Some <==> t.current != Some(c))
        }),
        ({
            let (t, r) = round_robin::after_block(s, c);
            &&& r is Some ==> follows_policy(t, s.queue_index)
            &&& r is None ==> t == s && policy::pick(s.slots, s.queue_index) is None
        }),
        ({
            let (t, r) = round_robin::after_force(s);
            &&& r is Some ==> follows_policy(t, s.queue_index)
            &&& r is None ==> t == s && policy::pick(s.slots, s.queue_index) is None
        }),
        ({
            let (t, r) = round_robin::after_timer_tick(s);
            let p = table::lookup(s.slots, c);
            p.state is Running && p.cpu_time < u32::MAX && p.cpu_time + 1 >= p.time_slice
                ==> follows_policy(t, s.queue_index) && (r is Some <==> t.current != Some(c))
        }),
{
    let p0 = table::lookup(s.slots, c);
    lemma_own_pid(s.slots, c);
    if policy::pick(s.slots, s.queue_index) is Some {
        lemma_running_follows_policy(s, next_pid);
    }
    let q = ProcessControlBlock { cpu_time: 0, state: round_robin::descheduled(p0.state), ..p0 };
    lemma_given_up(s, next_pid, c, q);
    let u = round_robin::ticked(s);
    crate::scheduler::effects::lemma_ticked(s, next_pid, c);
    lemma_own_pid(u.slots, c);
    let p = round_robin::charged(table::lookup(u.slots, c));
    lemma_given_up(u, next_pid, c, round_robin::preempted(p, u.tick));
}

/// A process that gives up the processor and can go on still leaves somebody to
/// run.
proof fn lemma_given_up(s: SchedState, next_pid: u32, c: ProcessId, q: ProcessControlBlock)
    requires
        table::pids_distinct(s.slots, next_pid),
        table::has_process(s.slots, c),
        q.pid == c,
    ensures
        ({
            let v = SchedState { slots: table::with_process(s.slots, c, q), ..s };
            table::runnable(q) ==> follows_policy(
                round_robin::give_way(v, c).0,
                s.queue_index,
            ) && (round_robin::give_way(v, c).1 is Some <==> round_robin::give_way(v, c).0.current
                != Some(c))
        }),
{
    let v = SchedState { slots: table::with_process(s.slots, c, q), ..s };
    crate::scheduler::effects::lemma_block_replaced(s.slots, next_pid, c, q, c);
    if table::runnable(q) {
        lemma_own_pid(v.slots, c);
        assert(crate::scheduler::laws::runnable_at(v.slots, table::slot_of(v.slots, c)));
        crate::scheduler::laws::law_never_idle(
            v.slots,
            v.queue_index,
            table::slot_of(v.slots, c),
        );
        lemma_running_follows_policy(v, next_pid);
    }
}

/// Choosing the next process makes it current and moves the round robin on, and
/// changes no process.
pub proof fn law_choice_changes_no_process(s: SchedState)
    ensures
        ({
            let (t, r) = round_robin::after_schedule(s);
            &&& t.slots == s.slots
            &&& t.tick == s.tick
            &&& t.current == r
            &&& r is None <==> policy::pick(s.slots, s.queue_index) is None
            &&& r is Some ==> policy::pick(s.slots, s.queue_index) == Some((r->0, t.queue_index))
        }),
{
}

/// The timer fires at every tick, and never later than the next deadline.
pub proof fn law_timer_never_fires_late(d: u64, tick: u64)
    ensures
        round_robin::until_event(d, tick) == 1,
        round_robin::ticks_until(d, tick) >= 1,
        tick < d < u64::MAX ==> tick + round_robin::ticks_until(d, tick) <= d,
        tick < d < u64::MAX && d - tick <= u32::MAX ==> tick + round_robin::ticks_until(d, tick) == d,
{
}

} // verus!
