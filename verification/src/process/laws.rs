//! What holds of the process table as a whole.

use vstd::prelude::*;

use crate::process::pcb::{
    Capability, KernelStackPool, ProcessControlBlock, KERNEL_GUARD_SIZE, KERNEL_SLOT_SIZE,
    MAX_KERNEL_STACKS,
};
use crate::process::table::{self, ProcessTable};
use crate::process::ProcessId;

verus! {

/// A new process has a PID that no process had, and every other process stays.
pub proof fn law_pid_is_new(
    before: ProcessTable,
    after: ProcessTable,
    p: ProcessControlBlock,
    other: ProcessId,
)
    requires
        before.wf(),
        after.wf(),
        table::created(before, after, p),
    ensures
        !table::has_process(before.processes@, p.pid),
        table::has_process(before.processes@, other) ==> {
            &&& other != p.pid
            &&& table::has_process(after.processes@, other)
            &&& table::lookup(after.processes@, other)
                == table::lookup(before.processes@, other)
        },
{
    let bs = before.processes@;
    let s = after.processes@;
    if table::has_process(bs, p.pid) {
        let i = table::slot_of(bs, p.pid);
        assert(table::holds(bs, i, p.pid));
        assert(bs[i]->0.pid.0 < before.next_pid);
    }
    if table::has_process(bs, other) {
        let i = table::slot_of(bs, other);
        assert(table::holds(bs, i, other));
        let f = choose|f: int|
            #![trigger table::first_free(bs, f)]
            table::first_free(bs, f) && s == bs.update(f, Some(p));
        assert(table::holds(s, i, other));
        table::lemma_slot_unique(s, after.next_pid, i, other);
    }
}

/// Ending a process leaves a free slot, and makes its kernel stack the one
/// handed out next, so that a new process can be created.
pub proof fn law_resources_are_reclaimed(
    before: ProcessTable,
    after: ProcessTable,
    pid: ProcessId,
)
    requires
        before.wf(),
        after.wf(),
        table::has_process(before.processes@, pid),
        table::removed(before, after, pid),
    ensures
        !table::all_taken(after.processes@),
        after.stacks.candidate() == Some(
            table::lookup(before.processes@, pid).kernel_stack_id,
        ),
{
    let i = table::slot_of(before.processes@, pid);
    assert(table::holds(before.processes@, i, pid));
    assert(after.processes@[i] is None);
}

/// Ending a process leaves every other process as it was.
pub proof fn law_others_survive(
    before: ProcessTable,
    after: ProcessTable,
    pid: ProcessId,
    other: ProcessId,
)
    requires
        before.wf(),
        after.wf(),
        table::removed(before, after, pid),
        table::has_process(before.processes@, other),
        other != pid,
    ensures
        table::has_process(after.processes@, other),
        table::lookup(after.processes@, other) == table::lookup(
            before.processes@,
            other,
        ),
{
    if table::has_process(before.processes@, pid) {
        let i = table::slot_of(before.processes@, pid);
        assert(table::holds(before.processes@, i, pid));
        let k = table::slot_of(before.processes@, other);
        assert(table::holds(before.processes@, k, other));
        assert(table::holds(after.processes@, k, other));
        table::lemma_slot_unique(after.processes@, after.next_pid, k, other);
    }
}

/// Two processes never run on the same kernel stack: their usable stack ranges
/// do not overlap.
pub proof fn law_stacks_are_disjoint(table: ProcessTable, a: ProcessId, b: ProcessId)
    requires
        table.wf(),
        table::has_process(table.processes@, a),
        table::has_process(table.processes@, b),
        a != b,
    ensures
        ({
            let ia = table::lookup(table.processes@, a).kernel_stack_id as int;
            let ib = table::lookup(table.processes@, b).kernel_stack_id as int;
            table.stacks.top(ia) <= table.stacks.guard(ib) || table.stacks.top(ib)
                <= table.stacks.guard(ia)
        }),
{
    let i = table::slot_of(table.processes@, a);
    let j = table::slot_of(table.processes@, b);
    assert(table::holds(table.processes@, i, a));
    assert(table::holds(table.processes@, j, b));
    assert(table.processes@[i]->0.kernel_stack_id != table.processes@[j]->0.kernel_stack_id);
}

/// A cleared stack holds nothing of its previous owner: every usable byte is zero.
pub proof fn law_cleared_stack_is_zero(memory: Seq<u8>, id: int, k: int)
    requires
        memory.len() == crate::process::pcb::KERNEL_STACKS_BYTES,
        0 <= id < MAX_KERNEL_STACKS,
        id * KERNEL_SLOT_SIZE + KERNEL_GUARD_SIZE <= k < id * KERNEL_SLOT_SIZE + KERNEL_SLOT_SIZE,
    ensures
        crate::process::pcb::stack_cleared(memory, id)[k] == 0,
{
}

/// The stack returned last is the one handed out next.
pub proof fn law_stacks_are_lifo(before: KernelStackPool, after: KernelStackPool, id: usize)
    requires
        before.reclaim@.len() < MAX_KERNEL_STACKS,
        after.reclaim@ == before.reclaim@.push(id),
    ensures
        after.candidate() == Some(id),
{
}

/// A capability that was stored can be found by its kind and object.
pub proof fn law_stored_capability_is_found(
    before: ProcessTable,
    after: ProcessTable,
    pid: ProcessId,
    cap: Capability,
    slot: usize,
)
    requires
        table::cap_stored(before, after, pid, cap, Some(slot)),
    ensures
        table::has_process(after.processes@, pid),
        !table::no_cap(
            table::lookup(after.processes@, pid).cap_table@,
            table::cap_matches(cap.kind, cap.object_id),
        ),
        table::lookup(after.processes@, pid).cap_table@[slot as int] == cap,
{
    let caps = table::lookup(after.processes@, pid).cap_table@;
    assert((table::cap_matches(cap.kind, cap.object_id))(caps[slot as int]));
}

/// Granting a capability leaves the grantor's capabilities as they were.
pub proof fn law_grant_keeps_source(
    before: ProcessTable,
    after: ProcessTable,
    from: ProcessId,
    to: ProcessId,
    cap: Capability,
    r: Option<usize>,
)
    requires
        before.wf(),
        after.wf(),
        from != to,
        table::has_process(before.processes@, from),
        table::cap_stored(before, after, to, cap, r),
    ensures
        table::has_process(after.processes@, from),
        table::lookup(after.processes@, from) == table::lookup(
            before.processes@,
            from,
        ),
{
    if r is Some {
        let q = table::lookup(after.processes@, to);
        let i = table::slot_of(before.processes@, to);
        assert(table::holds(before.processes@, i, to));
        table::lemma_replaced(before, after, to, q);
        assert(table::lookup(after.processes@, from)
            == table::lookup(before.processes@, from));
    }
}

/// A revoked slot is free again: if every slot before it is taken, it is the
/// one used next.
pub proof fn law_revoked_slot_is_reused(
    before: ProcessTable,
    after: ProcessTable,
    pid: ProcessId,
    slot: int,
)
    requires
        0 <= slot < crate::process::pcb::CAP_TABLE_SIZE,
        table::caps_updated(before, after, pid, slot, Capability::none()),
        forall|j: int|
            0 <= j < slot ==> !((#[trigger] table::lookup(
                before.processes@,
                pid,
            ).cap_table@[j]).kind is Empty),
    ensures
        table::first_cap(
            table::lookup(after.processes@, pid).cap_table@,
            table::cap_free(),
            slot,
        ),
{
    let p = table::lookup(before.processes@, pid);
    let q = table::lookup(after.processes@, pid);
    assert forall|j: int| 0 <= j < slot implies !(table::cap_free())(
        #[trigger] q.cap_table@[j],
    ) by {
        assert(q.cap_table@[j] == p.cap_table@[j]);
    }
}

// ── Waiting ──────────────────────────────────────────────────────────────────
/// No process waits, over any number of links, for itself.
pub open spec fn acyclic(slots: table::Slots) -> bool {
    forall|p: ProcessId| !#[trigger] table::transitively_waits(slots, p, p)
}

/// Walking `n` links and then `m` more is walking `n + m` links.
proof fn lemma_chain_joins(slots: table::Slots, p: ProcessId, q: ProcessId, n: nat, m: nat)
    requires
        table::wait_chain(slots, p, n) == Some(q),
    ensures
        table::wait_chain(slots, p, n + m) == table::wait_chain(slots, q, m),
    decreases m,
{
    if m > 0 {
        lemma_chain_joins(slots, p, q, n, (m - 1) as nat);
        assert((n + m - 1) as nat == n + (m - 1) as nat);
    }
}

/// A chain that does not pass `waiter` is the same before and after `waiter`
/// starts to wait.
proof fn lemma_chain_kept(
    before: table::Slots,
    after: table::Slots,
    waiter: ProcessId,
    p: ProcessId,
    n: nat,
)
    requires
        forall|q: ProcessId|
            q != waiter ==> #[trigger] table::waits_for(after, q) == table::waits_for(before, q),
        forall|m: nat| m < n ==> #[trigger] table::wait_chain(before, p, m) != Some(waiter),
    ensures
        table::wait_chain(after, p, n) == table::wait_chain(before, p, n),
    decreases n,
{
    if n > 0 {
        lemma_chain_kept(before, after, waiter, p, (n - 1) as nat);
        assert(table::wait_chain(before, p, (n - 1) as nat) != Some(waiter));
    }
}

/// A chain that ends at a process and does not pass `waiter` was there before
/// `waiter` started to wait and others stopped.
proof fn lemma_chain_was_there(
    before: table::Slots,
    after: table::Slots,
    waiter: ProcessId,
    p: ProcessId,
    n: nat,
)
    requires
        forall|q: ProcessId|
            q != waiter ==> (#[trigger] table::waits_for(after, q) == table::waits_for(before, q)
                || table::waits_for(after, q) is None),
        forall|m: nat| m < n ==> #[trigger] table::wait_chain(after, p, m) != Some(waiter),
        table::wait_chain(after, p, n) is Some,
    ensures
        table::wait_chain(before, p, n) == table::wait_chain(after, p, n),
    decreases n,
{
    if n > 0 {
        let m = (n - 1) as nat;
        lemma_chain_was_there(before, after, waiter, p, m);
        assert(table::wait_chain(after, p, m) != Some(waiter));
    }
}

/// A process that waits for another one, which does not wait for it, does not
/// wait for itself. If nobody waited for themselves before, and nobody else
/// started to wait, nobody does now.
pub proof fn lemma_new_wait(
    before: table::Slots,
    after: table::Slots,
    waiter: ProcessId,
    target: ProcessId,
)
    requires
        forall|q: ProcessId|
            q != waiter ==> (#[trigger] table::waits_for(after, q) == table::waits_for(before, q)
                || table::waits_for(after, q) is None),
        table::waits_for(after, waiter) == Some(target),
        waiter != target,
        !table::transitively_waits(after, target, waiter),
    ensures
        !table::transitively_waits(after, waiter, waiter),
        acyclic(before) ==> acyclic(after),
{
    assert forall|p: ProcessId, n: nat, j: nat|
        n >= 1 && j < n && table::wait_chain(after, p, n) == Some(p) && table::wait_chain(
            after,
            p,
            j,
        ) == Some(waiter) implies false by {
        assert(table::wait_chain(after, p, j + 1) == Some(target));
        lemma_chain_joins(after, p, target, j + 1, (n - 1) as nat);
        lemma_chain_joins(after, p, p, n, j);
        assert(j + 1 + (n - 1) as nat == n + j);
        assert(table::wait_chain(after, target, (n - 1) as nat) == Some(waiter));
        if n == 1 {
            assert(table::wait_chain(after, target, 0) == Some(target));
        }
    }
    if table::transitively_waits(after, waiter, waiter) {
        let n = choose|n: nat|
            n >= 1 && #[trigger] table::wait_chain(after, waiter, n) == Some(waiter);
        assert(table::wait_chain(after, waiter, 0) == Some(waiter));
    }
    if acyclic(before) {
        assert forall|p: ProcessId| !#[trigger] table::transitively_waits(after, p, p) by {
            if table::transitively_waits(after, p, p) {
                let n = choose|n: nat| n >= 1 && #[trigger] table::wait_chain(after, p, n) == Some(p);
                lemma_chain_was_there(before, after, waiter, p, n);
                assert(table::transitively_waits(before, p, p));
            }
        }
    }
}

/// Chains depend on nothing but who waits for whom.
pub proof fn lemma_same_chain(before: table::Slots, after: table::Slots, p: ProcessId, n: nat)
    requires
        forall|q: ProcessId| #[trigger]
            table::waits_for(after, q) == table::waits_for(before, q),
    ensures
        table::wait_chain(after, p, n) == table::wait_chain(before, p, n),
    decreases n,
{
    if n > 0 {
        lemma_same_chain(before, after, p, (n - 1) as nat);
    }
}

/// A process that starts to wait for another one, after the check for cycles
/// found none, does not end up waiting for itself, nor does any other process:
/// waits that pass the check never lead to a deadlock.
pub proof fn law_checked_wait_is_no_deadlock(
    before: ProcessTable,
    after: ProcessTable,
    waiter: ProcessId,
    target: ProcessId,
)
    requires
        before.wf(),
        table::has_process(before.processes@, waiter),
        acyclic(before.processes@),
        waiter != target,
        !table::transitively_waits(before.processes@, target, waiter),
        after.next_pid == before.next_pid,
        after.stacks == before.stacks,
        after.processes@ == table::with_process(
            before.processes@,
            waiter,
            (ProcessControlBlock {
                waiting_for: Some(target),
                ..table::lookup(before.processes@, waiter)
            }),
        ),
    ensures
        acyclic(after.processes@),
{
    let bs = before.processes@;
    let s = after.processes@;
    let old_block = table::lookup(bs, waiter);
    let block = ProcessControlBlock { waiting_for: Some(target), ..old_block };
    let i = table::slot_of(bs, waiter);
    assert(table::holds(bs, i, waiter));
    assert(bs[i]->0.mailbox.wf());
    table::lemma_replaced(before, after, waiter, block);
    assert(table::has_process(s, waiter) == table::has_process(bs, waiter));
    assert(table::waits_for(s, waiter) == Some(target));
    assert forall|q: ProcessId| q != waiter implies #[trigger] table::waits_for(s, q)
        == table::waits_for(bs, q) by {
        assert(table::has_process(s, q) == table::has_process(bs, q));
        if table::has_process(bs, q) {
            assert(table::lookup(s, q) == table::lookup(bs, q));
        }
    }
    // The chain from `target` never reaches `waiter`.
    assert forall|m: nat| #[trigger] table::wait_chain(bs, target, m) != Some(waiter) by {
        if m == 0 {
            assert(table::wait_chain(bs, target, 0) == Some(target));
        }
    }
    assert forall|p: ProcessId| !#[trigger] table::transitively_waits(s, p, p) by {
        if table::transitively_waits(s, p, p) {
            let n = choose|n: nat| n >= 1 && #[trigger] table::wait_chain(s, p, n) == Some(p);
            if exists|j: nat| j < n && #[trigger] table::wait_chain(bs, p, j) == Some(waiter) {
                lemma_first_visit(bs, s, waiter, p, n);
                let j = choose|j: nat| j < n && #[trigger] table::wait_chain(s, p, j) == Some(waiter);
                assert(table::wait_chain(s, p, j + 1) == Some(target));
                lemma_chain_joins(s, p, target, j + 1, (n - 1) as nat);
                lemma_chain_joins(s, p, p, n, j);
                assert(j + 1 + (n - 1) as nat == n + j);
                lemma_chain_kept(bs, s, waiter, target, (n - 1) as nat);
                assert(table::wait_chain(bs, target, (n - 1) as nat) == Some(waiter));
            } else {
                lemma_chain_kept(bs, s, waiter, p, n);
                assert(table::wait_chain(bs, p, n) == Some(p));
                assert(table::transitively_waits(bs, p, p));
            }
        }
    }
}

/// A chain that passes `waiter` before it starts to wait also does afterwards.
proof fn lemma_first_visit(
    before: table::Slots,
    after: table::Slots,
    waiter: ProcessId,
    p: ProcessId,
    n: nat,
)
    requires
        forall|q: ProcessId|
            q != waiter ==> #[trigger] table::waits_for(after, q) == table::waits_for(before, q),
        exists|j: nat| j < n && #[trigger] table::wait_chain(before, p, j) == Some(waiter),
    ensures
        exists|j: nat| j < n && #[trigger] table::wait_chain(after, p, j) == Some(waiter),
    decreases n,
{
    let j = choose|j: nat| j < n && #[trigger] table::wait_chain(before, p, j) == Some(waiter);
    if exists|k: nat| k < j && #[trigger] table::wait_chain(before, p, k) == Some(waiter) {
        lemma_first_visit(before, after, waiter, p, j);
        let k = choose|k: nat| k < j && #[trigger] table::wait_chain(after, p, k) == Some(waiter);
        assert(k < n);
    } else {
        lemma_chain_kept(before, after, waiter, p, j);
    }
}

// ── Lists and stacks ─────────────────────────────────────────────────────────
/// The list of processes holds every process with its PID, its priority, and 0 if
/// it can run, 1 if it is blocked and 2 if it has ended; and it holds nothing
/// else.
pub proof fn law_listing_is_complete(slots: table::Slots, i: int, m: int)
    ensures
        0 <= i < slots.len() && slots[i] is Some ==> exists|k: int|
            {
                let p = slots[i]->0;
                &&& 0 <= k < table::all_processes(slots).len()
                &&& (#[trigger] table::all_processes(slots)[k]).0 == p.pid
                &&& table::all_processes(slots)[k].1 == 0 <==> p.state is Ready || p.state is Running
                &&& table::all_processes(slots)[k].1 == 1 <==> p.state is Blocked
                &&& table::all_processes(slots)[k].1 == 2 <==> p.state is Terminated
                &&& table::all_processes(slots)[k].2 == p.priority
            },
        0 <= m < table::all_processes(slots).len() ==> table::has_process(
            slots,
            table::all_processes(slots)[m].0,
        ),
{
    let f = |p: ProcessControlBlock| Some((p.pid, table::state_code(p.state), p.priority));
    assert(table::all_processes(slots) == table::collect(slots, f));
    if 0 <= i < slots.len() && slots[i] is Some {
        let k = table::lemma_collect_complete(slots, f, i);
        assert(table::all_processes(slots)[k].0 == slots[i]->0.pid);
    }
    if 0 <= m < table::all_processes(slots).len() {
        let k = table::lemma_collect_source(slots, f, m);
        assert(table::holds(slots, k, table::all_processes(slots)[m].0));
    }
}

/// Runnable processes, and only they, are listed as ready, with their own
/// priorities; of them the real-time ones are listed with their own deadlines.
pub proof fn law_ready_lists_hold_the_runnable(slots: table::Slots, m: int)
    ensures
        0 <= m < table::ready_pids(slots).len() ==> exists|i: int|
            {
                &&& 0 <= i < slots.len()
                &&& (#[trigger] slots[i]) is Some
                &&& slots[i]->0.state is Ready || slots[i]->0.state is Running
                &&& slots[i]->0.pid == table::ready_pids(slots)[m]
            },
        0 <= m < table::ready_priorities(slots).len() ==> exists|i: int|
            {
                &&& 0 <= i < slots.len()
                &&& (#[trigger] slots[i]) is Some
                &&& slots[i]->0.state is Ready || slots[i]->0.state is Running
                &&& slots[i]->0.pid == table::ready_priorities(slots)[m].0
                &&& slots[i]->0.priority == table::ready_priorities(slots)[m].1
            },
        0 <= m < table::ready_deadlines(slots).len() ==> exists|i: int|
            {
                &&& 0 <= i < slots.len()
                &&& (#[trigger] slots[i]) is Some
                &&& slots[i]->0.state is Ready || slots[i]->0.state is Running
                &&& slots[i]->0.rt_period > 0
                &&& slots[i]->0.pid == table::ready_deadlines(slots)[m].0
                &&& slots[i]->0.rt_deadline == table::ready_deadlines(slots)[m].1
            },
        0 <= m < table::blocked_waiters(slots).len() ==> exists|i: int|
            {
                &&& 0 <= i < slots.len()
                &&& (#[trigger] slots[i]) is Some
                &&& slots[i]->0.state is Blocked
                &&& slots[i]->0.priority == table::blocked_waiters(slots)[m].0
                &&& slots[i]->0.waiting_for == Some(table::blocked_waiters(slots)[m].1)
            },
{
    let pid = |p: ProcessControlBlock|
        if table::runnable(p) {
            Some(p.pid)
        } else {
            None
        };
    let priority = |p: ProcessControlBlock|
        if table::runnable(p) {
            Some((p.pid, p.priority))
        } else {
            None
        };
    let deadline = |p: ProcessControlBlock|
        if table::runnable(p) && p.rt_period > 0 {
            Some((p.pid, p.rt_deadline))
        } else {
            None
        };
    let waiter = |p: ProcessControlBlock|
        if p.state is Blocked && p.waiting_for is Some {
            Some((p.priority, p.waiting_for->0))
        } else {
            None
        };
    assert(table::ready_pids(slots) == table::collect(slots, pid));
    assert(table::ready_priorities(slots) == table::collect(slots, priority));
    assert(table::ready_deadlines(slots) == table::collect(slots, deadline));
    assert(table::blocked_waiters(slots) == table::collect(slots, waiter));
    if 0 <= m < table::ready_pids(slots).len() {
        let i = table::lemma_collect_source(slots, pid, m);
        assert(slots[i] is Some);
    }
    if 0 <= m < table::ready_priorities(slots).len() {
        let i = table::lemma_collect_source(slots, priority, m);
        assert(slots[i] is Some);
    }
    if 0 <= m < table::ready_deadlines(slots).len() {
        let i = table::lemma_collect_source(slots, deadline, m);
        assert(slots[i] is Some);
    }
    if 0 <= m < table::blocked_waiters(slots).len() {
        let i = table::lemma_collect_source(slots, waiter, m);
        assert(slots[i] is Some);
    }
}

/// Below every stack of 8 KB lies a guard page, and above it the guard page of the
/// next one.
pub proof fn law_guard_page_lies_below_the_stack(pool: KernelStackPool, id: int)
    ensures
        pool.top(id) - pool.guard(id) == 4096 + 8192,
        pool.guard(id + 1) == pool.top(id),
        pool.base % 4096 == 0 ==> pool.guard(id) % 4096 == 0,
{
}

/// The first switch to a process finds, at the saved stack pointer, the address
/// it is to start at. The saved stack pointer lies inside the process's own stack,
/// of which the rest is zero.
pub proof fn law_first_switch_finds_the_start(
    before: KernelStackPool,
    after: KernelStackPool,
    start: u64,
    k: int,
)
    requires
        before.wf(),
        crate::process::pcb::stack_taken(before, after, start),
    ensures
        ({
            let id = before.candidate()->0 as int;
            let rsp = before.top(id) - 8;
            &&& crate::bytes::le64(after.memory@, rsp - after.base) == start
            &&& after.guard(id) + 4096 <= rsp
            &&& after.guard(id) + 4096 <= k < rsp ==> after.memory@[k - after.base] == 0
            &&& 0 <= k - after.base < after.memory@.len() && !(after.guard(id) + 4096 <= k
                < after.top(id)) ==> after.memory@[k - after.base] == before.memory@[k - before.base]
        }),
{
    let id = before.candidate()->0 as int;
    if before.reclaim@.len() > 0 {
        assert(before.reclaim@[before.reclaim@.len() - 1] < MAX_KERNEL_STACKS);
    }
    assert(0 <= id < 32);
    let cleared = crate::process::pcb::stack_cleared(before.memory@, id);
    crate::bytes::lemma_le64_roundtrip(cleared, id * 12288 + 12280, start);
}

/// A capability is stored if there is any room for it: it is refused only if the
/// process does not exist or every slot of its table is taken, and it goes to the
/// lowest slot that is free.
pub proof fn law_capability_goes_to_the_lowest_free_slot(
    before: ProcessTable,
    after: ProcessTable,
    pid: ProcessId,
    cap: Capability,
    r: Option<usize>,
    i: int,
)
    requires
        table::cap_stored(before, after, pid, cap, r),
        0 <= i < 64,
    ensures
        ({
            let caps = table::lookup(before.processes@, pid).cap_table@;
            match r {
                None => {
                    &&& after.processes@ == before.processes@
                    &&& table::has_process(before.processes@, pid) ==> !(caps[i].kind is Empty)
                },
                Some(slot) => {
                    &&& table::has_process(before.processes@, pid)
                    &&& slot < 64
                    &&& caps[slot as int].kind is Empty
                    &&& i < slot ==> !(caps[i].kind is Empty)
                    &&& table::lookup(after.processes@, pid).cap_table@[slot as int] == cap
                    &&& i != slot ==> table::lookup(after.processes@, pid).cap_table@[i] == caps[i]
                },
            }
        }),
{
    let caps = table::lookup(before.processes@, pid).cap_table@;
    let free = table::cap_free();
    assert(free(caps[i]) == (caps[i].kind is Empty));
}

/// Looking for a capability finds the first one of that kind for that object, and
/// nothing only if there is none.
pub proof fn law_capability_is_looked_for_by_kind_and_object(
    caps: Seq<Capability>,
    kind: crate::process::pcb::CapKind,
    object_id: u32,
    i: int,
    c: int,
)
    requires
        0 <= i < caps.len(),
    ensures
        table::no_cap(caps, table::cap_matches(kind, object_id)) ==> !(caps[i].kind == kind
            && caps[i].object_id == object_id),
        table::first_cap(caps, table::cap_matches(kind, object_id), c) ==> {
            &&& caps[c].kind == kind
            &&& caps[c].object_id == object_id
            &&& i < c ==> !(caps[i].kind == kind && caps[i].object_id == object_id)
        },
{
    let f = table::cap_matches(kind, object_id);
    assert(f(caps[i]) == (caps[i].kind == kind && caps[i].object_id == object_id));
}

/// A process that has ended leaves nothing on its kernel stack, and no other stack is
/// touched. Ending a process that does not exist changes nothing.
pub proof fn law_ended_process_leaves_no_trace(
    before: ProcessTable,
    after: ProcessTable,
    pid: ProcessId,
    k: int,
)
    requires
        before.wf(),
        table::removed(before, after, pid),
        0 <= k < before.stacks.memory@.len(),
    ensures
        table::has_process(before.processes@, pid) ==> ({
            let id = table::lookup(before.processes@, pid).kernel_stack_id as int;
            &&& id * 12288 + 4096 <= k < id * 12288 + 12288 ==> after.stacks.memory@[k] == 0
            &&& !(id * 12288 + 4096 <= k < id * 12288 + 12288) ==> after.stacks.memory@[k]
                == before.stacks.memory@[k]
        }),
        !table::has_process(before.processes@, pid) ==> after == before,
{
}

/// A new process takes the lowest slot that is free, and changes no other slot.
pub proof fn law_new_process_takes_the_lowest_slot(
    before: ProcessTable,
    after: ProcessTable,
    p: ProcessControlBlock,
    j: int,
)
    requires
        after.wf(),
        table::created(before, after, p),
        0 <= j < before.processes@.len(),
    ensures
        ({
            let i = table::slot_of(after.processes@, p.pid);
            &&& 0 <= i < before.processes@.len()
            &&& before.processes@[i] is None
            &&& after.processes@[i] == Some(p)
            &&& j < i ==> before.processes@[j] is Some
            &&& j != i ==> after.processes@[j] == before.processes@[j]
        }),
        after.next_pid == before.next_pid + 1,
{
    let bs = before.processes@;
    let s = after.processes@;
    let f = choose|f: int|
        #![trigger table::first_free(bs, f)]
        table::first_free(bs, f) && s == bs.update(f, Some(p));
    assert(table::holds(s, f, p.pid));
    table::lemma_slot_unique(s, after.next_pid, f, p.pid);
}

} // verus!
