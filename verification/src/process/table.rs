//! The process table.

use vstd::prelude::*;

use crate::process::pcb::{
    free_kernel_stack, CapKind, Capability, KernelStackPool, ProcessControlBlock, ProcessState,
    CAP_G, CAP_TABLE_SIZE, KERNEL_STACKS_BYTES,
};
use crate::process::ProcessId;

verus! {

/// Processes that can exist at the same time.
pub const MAX_PROCESSES: usize = 32;

// ── Bounded list ─────────────────────────────────────────────────────────────
/// List of at most `MAX_PROCESSES` elements.
#[derive(Debug)]
pub struct ProcList<T: Copy> {
    pub buf: Vec<T>,
}

impl<T: Copy> View for ProcList<T> {
    type V = Seq<T>;

    open spec fn view(&self) -> Seq<T> {
        self.buf@
    }
}

impl<T: Copy> ProcList<T> {
    pub open spec fn wf(&self) -> bool {
        self@.len() <= MAX_PROCESSES
    }

    pub fn new() -> (r: Self)
        ensures
            r.wf(),
            r@ == Seq::<T>::empty(),
    {
        ProcList { buf: Vec::new() }
    }

    /// Appends `val`; a value that does not fit is dropped.
    pub fn push(&mut self, val: T)
        requires
            old(self).wf(),
        ensures
            final(self).wf(),
            final(self)@ == if old(self)@.len() < MAX_PROCESSES {
                old(self)@.push(val)
            } else {
                old(self)@
            },
    {
        if self.buf.len() < MAX_PROCESSES {
            self.buf.push(val);
        }
    }

    pub fn is_empty(&self) -> (r: bool)
        ensures
            r == (self@.len() == 0),
    {
        self.buf.len() == 0
    }

    pub fn len(&self) -> (r: usize)
        ensures
            r == self@.len(),
    {
        self.buf.len()
    }

    /// The elements, in insertion order.
    pub fn as_slice(&self) -> (r: &[T])
        ensures
            r@ == self@,
    {
        self.buf.as_slice()
    }

    /// Goes through the elements, in insertion order.
    pub fn iter(&self) -> (r: core::slice::Iter<'_, T>)
        ensures
            vstd::std_specs::iter::IteratorSpec::remaining(&r) == self@.as_ref(),
    {
        self.as_slice().iter()
    }

    /// Element `i`.
    pub fn get(&self, i: usize) -> (r: T)
        requires
            i < self@.len(),
        ensures
            r == self@[i as int],
    {
        self.buf[i]
    }
}

// ── Model of the table ───────────────────────────────────────────────────────
/// The slots of a process table.
pub type Slots = Seq<Option<ProcessControlBlock>>;

/// Slot `i` holds process `pid`.
pub open spec fn holds(slots: Slots, i: int, pid: ProcessId) -> bool {
    0 <= i < slots.len() && slots[i] is Some && slots[i]->0.pid == pid
}

/// Some slot holds process `pid`.
pub open spec fn has_process(slots: Slots, pid: ProcessId) -> bool {
    exists|i: int| holds(slots, i, pid)
}

/// The slot that holds process `pid`.
pub open spec fn slot_of(slots: Slots, pid: ProcessId) -> int {
    choose|i: int| holds(slots, i, pid)
}

/// The control block of process `pid`.
pub open spec fn lookup(slots: Slots, pid: ProcessId) -> ProcessControlBlock {
    slots[slot_of(slots, pid)]->0
}

/// The slots with the block of `pid` replaced by `p`.
pub open spec fn with_process(slots: Slots, pid: ProcessId, p: ProcessControlBlock) -> Slots {
    slots.update(slot_of(slots, pid), Some(p))
}

/// Slot `i` is the first free one.
pub open spec fn first_free(slots: Slots, i: int) -> bool {
    &&& 0 <= i < slots.len()
    &&& slots[i] is None
    &&& forall|j: int| 0 <= j < i ==> (#[trigger] slots[j]) is Some
}

/// No slot is free.
pub open spec fn all_taken(slots: Slots) -> bool {
    forall|j: int| 0 <= j < slots.len() ==> (#[trigger] slots[j]) is Some
}

/// What `f` gives for the processes of the table, in slot order.
pub open spec fn collect<T>(slots: Slots, f: spec_fn(ProcessControlBlock) -> Option<T>) -> Seq<T>
    decreases slots.len(),
{
    if slots.len() == 0 {
        Seq::empty()
    } else {
        let rest = collect(slots.drop_last(), f);
        match slots.last() {
            Some(p) => match f(p) {
                Some(t) => rest.push(t),
                None => rest,
            },
            None => rest,
        }
    }
}

/// What `collect` gives comes from the processes of the table.
pub proof fn lemma_collect_source<T>(
    slots: Slots,
    f: spec_fn(ProcessControlBlock) -> Option<T>,
    m: int,
) -> (i: int)
    requires
        0 <= m < collect(slots, f).len(),
    ensures
        0 <= i < slots.len(),
        slots[i] is Some,
        f(slots[i]->0) == Some(collect(slots, f)[m]),
    decreases slots.len(),
{
    let init = slots.drop_last();
    if m < collect(init, f).len() {
        let i = lemma_collect_source(init, f, m);
        assert(slots[i] == init[i]);
        i
    } else {
        slots.len() - 1
    }
}

/// `collect` gives at most one item per slot.
pub proof fn lemma_collect_len<T>(slots: Slots, f: spec_fn(ProcessControlBlock) -> Option<T>)
    ensures
        collect(slots, f).len() <= slots.len(),
    decreases slots.len(),
{
    if slots.len() > 0 {
        lemma_collect_len(slots.drop_last(), f);
    }
}

/// `collect` misses no process of the table.
pub proof fn lemma_collect_complete<T>(
    slots: Slots,
    f: spec_fn(ProcessControlBlock) -> Option<T>,
    i: int,
) -> (m: int)
    requires
        0 <= i < slots.len(),
        slots[i] is Some,
        f(slots[i]->0) is Some,
    ensures
        0 <= m < collect(slots, f).len(),
        Some(collect(slots, f)[m]) == f(slots[i]->0),
    decreases slots.len(),
{
    let init = slots.drop_last();
    if i < init.len() {
        assert(slots[i] == init[i]);
        lemma_collect_complete(init, f, i)
    } else {
        collect(init, f).len() as int
    }
}

/// Replacing every process `p` by an `f(p)` with the same PID leaves every
/// process in its place.
pub proof fn lemma_map_slots(
    slots: Slots,
    f: spec_fn(ProcessControlBlock) -> ProcessControlBlock,
    next_pid: u32,
    pid: ProcessId,
)
    requires
        pids_distinct(slots, next_pid),
        forall|p: ProcessControlBlock| (#[trigger] f(p)).pid == p.pid,
    ensures
        pids_distinct(map_slots(slots, f), next_pid),
        has_process(map_slots(slots, f), pid) == has_process(slots, pid),
        has_process(slots, pid) ==> {
            &&& slot_of(map_slots(slots, f), pid) == slot_of(slots, pid)
            &&& lookup(map_slots(slots, f), pid) == f(lookup(slots, pid))
        },
{
    let s = map_slots(slots, f);
    assert forall|i: int| 0 <= i < slots.len() && slots[i] is Some implies (#[trigger] s[i])->0.pid
        == slots[i]->0.pid by {}
    assert forall|i: int, j: int|
        0 <= i < s.len() && 0 <= j < s.len() && i != j && s[i] is Some && s[j] is Some implies (
    #[trigger] s[i])->0.pid != (#[trigger] s[j])->0.pid by {
        assert(slots[i]->0.pid != slots[j]->0.pid);
    }
    if has_process(slots, pid) {
        let i = slot_of(slots, pid);
        assert(holds(slots, i, pid));
        assert(holds(s, i, pid));
        lemma_slot_unique(s, next_pid, i, pid);
    }
    if has_process(s, pid) {
        let i = slot_of(s, pid);
        assert(holds(s, i, pid));
        assert(holds(slots, i, pid));
    }
}

/// The slots with every process `p` replaced by `f(p)`.
pub open spec fn map_slots(
    slots: Slots,
    f: spec_fn(ProcessControlBlock) -> ProcessControlBlock,
) -> Slots {
    Seq::new(
        slots.len(),
        |i: int|
            match slots[i] {
                Some(p) => Some(f(p)),
                None => None,
            },
    )
}

/// A process is eligible to run.
pub open spec fn runnable(p: ProcessControlBlock) -> bool {
    p.state is Ready || p.state is Running
}

/// Process state as reported by `list_all`.
pub open spec fn state_code(state: ProcessState) -> u8 {
    match state {
        ProcessState::Ready | ProcessState::Running => 0,
        ProcessState::Blocked => 1,
        ProcessState::Terminated => 2,
    }
}

/// PID, state code and priority of every process.
pub open spec fn all_processes(slots: Slots) -> Seq<(ProcessId, u8, u8)> {
    collect(slots, |p: ProcessControlBlock| Some((p.pid, state_code(p.state), p.priority)))
}

/// PIDs of the runnable processes.
pub open spec fn ready_pids(slots: Slots) -> Seq<ProcessId> {
    collect(
        slots,
        |p: ProcessControlBlock|
            if runnable(p) {
                Some(p.pid)
            } else {
                None
            },
    )
}

/// PID and priority of the runnable processes.
pub open spec fn ready_priorities(slots: Slots) -> Seq<(ProcessId, u8)> {
    collect(
        slots,
        |p: ProcessControlBlock|
            if runnable(p) {
                Some((p.pid, p.priority))
            } else {
                None
            },
    )
}

/// PID and deadline of the runnable real-time processes.
pub open spec fn ready_deadlines(slots: Slots) -> Seq<(ProcessId, u64)> {
    collect(
        slots,
        |p: ProcessControlBlock|
            if runnable(p) && p.rt_period > 0 {
                Some((p.pid, p.rt_deadline))
            } else {
                None
            },
    )
}

/// Priority and target of the blocked processes that wait for another process.
pub open spec fn blocked_waiters(slots: Slots) -> Seq<(u8, ProcessId)> {
    collect(
        slots,
        |p: ProcessControlBlock|
            if p.state is Blocked && p.waiting_for is Some {
                Some((p.priority, p.waiting_for->0))
            } else {
                None
            },
    )
}

/// A process after it is woken: ready, with no deadline and no one to wait for.
pub open spec fn woken(p: ProcessControlBlock) -> ProcessControlBlock {
    ProcessControlBlock {
        state: ProcessState::Ready,
        blocked_deadline: u64::MAX,
        waiting_for: None,
        ..p
    }
}

/// A process after the deadlines are checked at `tick`.
pub open spec fn deadline_checked(p: ProcessControlBlock, tick: u64) -> ProcessControlBlock {
    if p.state is Blocked && p.blocked_deadline <= tick {
        woken(p)
    } else {
        p
    }
}

/// `d` is the earliest finite deadline of a blocked process, `u64::MAX` if there is none.
pub open spec fn is_earliest_deadline(slots: Slots, d: u64) -> bool {
    &&& forall|i: int|
        0 <= i < slots.len() && slots[i] is Some && slots[i]->0.state is Blocked ==> d <= (
        #[trigger] slots[i])->0.blocked_deadline
    &&& d != u64::MAX ==> exists|i: int|
        0 <= i < slots.len() && slots[i] is Some && slots[i]->0.state is Blocked && (
        #[trigger] slots[i])->0.blocked_deadline == d
}

/// `c` is the first slot of a capability table that satisfies `f`.
pub open spec fn first_cap(
    caps: Seq<Capability>,
    f: spec_fn(Capability) -> bool,
    c: int,
) -> bool {
    &&& 0 <= c < caps.len()
    &&& f(caps[c])
    &&& forall|j: int| 0 <= j < c ==> !f(#[trigger] caps[j])
}

/// No slot of a capability table satisfies `f`.
pub open spec fn no_cap(caps: Seq<Capability>, f: spec_fn(Capability) -> bool) -> bool {
    forall|j: int| 0 <= j < caps.len() ==> !f(#[trigger] caps[j])
}

/// A capability slot is free.
pub open spec fn cap_free() -> spec_fn(Capability) -> bool {
    |c: Capability| c.kind is Empty
}

/// A capability slot refers to object `object_id` of kind `kind`.
pub open spec fn cap_matches(kind: CapKind, object_id: u32) -> spec_fn(Capability) -> bool {
    |c: Capability| c.kind == kind && c.object_id == object_id
}

/// Outcome `r` of storing `cap` in the first free slot of the table of `pid`.
pub open spec fn cap_stored(
    before: ProcessTable,
    after: ProcessTable,
    pid: ProcessId,
    cap: Capability,
    r: Option<usize>,
) -> bool {
    let slots = before.processes@;
    let caps = lookup(slots, pid).cap_table@;
    if !has_process(slots, pid) || no_cap(caps, cap_free()) {
        r is None && after.processes@ == slots && after.next_pid == before.next_pid && after.stacks
            == before.stacks
    } else {
        &&& r is Some
        &&& first_cap(caps, cap_free(), r->0 as int)
        &&& caps_updated(before, after, pid, r->0 as int, cap)
    }
}

/// `after` is `before` with slot `slot` of the capability table of `pid` set to `cap`.
pub open spec fn caps_updated(
    before: ProcessTable,
    after: ProcessTable,
    pid: ProcessId,
    slot: int,
    cap: Capability,
) -> bool {
    let p = lookup(before.processes@, pid);
    let q = lookup(after.processes@, pid);
    &&& has_process(after.processes@, pid)
    &&& q == ProcessControlBlock { cap_table: q.cap_table, ..p }
    &&& q.cap_table@ == p.cap_table@.update(slot, cap)
    &&& after.processes@ == with_process(before.processes@, pid, q)
    &&& after.next_pid == before.next_pid
    &&& after.stacks == before.stacks
}

/// Slot `slot` of `pid` holds a capability that may be granted on.
pub open spec fn grantable(slots: Slots, pid: ProcessId, slot: int) -> bool {
    &&& 0 <= slot < CAP_TABLE_SIZE
    &&& has_process(slots, pid)
    &&& !(lookup(slots, pid).cap_table@[slot].kind is Empty)
    &&& lookup(slots, pid).cap_table@[slot].rights & CAP_G != 0
}

/// The process that `pid` waits for.
pub open spec fn waits_for(slots: Slots, pid: ProcessId) -> Option<ProcessId> {
    if has_process(slots, pid) {
        lookup(slots, pid).waiting_for
    } else {
        None
    }
}

/// The process reached from `pid` over `n` links of the wait-for graph.
pub open spec fn wait_chain(slots: Slots, pid: ProcessId, n: nat) -> Option<ProcessId>
    decreases n,
{
    if n == 0 {
        Some(pid)
    } else {
        match wait_chain(slots, pid, (n - 1) as nat) {
            Some(q) => waits_for(slots, q),
            None => None,
        }
    }
}

/// `from` waits, over one or more links, for `to`.
pub open spec fn transitively_waits(slots: Slots, from: ProcessId, to: ProcessId) -> bool {
    exists|n: nat| n >= 1 && #[trigger] wait_chain(slots, from, n) == Some(to)
}

/// A chain that has ended reaches nothing further.
proof fn lemma_chain_ends(slots: Slots, from: ProcessId, to: ProcessId, n: nat)
    requires
        wait_chain(slots, from, n) is None,
        forall|m: nat| 1 <= m < n ==> #[trigger] wait_chain(slots, from, m) != Some(to),
    ensures
        !transitively_waits(slots, from, to),
{
    assert forall|m: nat| m >= n implies #[trigger] wait_chain(slots, from, m) is None by {
        lemma_chain_stays_ended(slots, from, n, m);
    }
}

proof fn lemma_chain_stays_ended(slots: Slots, from: ProcessId, n: nat, m: nat)
    requires
        wait_chain(slots, from, n) is None,
        m >= n,
    ensures
        wait_chain(slots, from, m) is None,
    decreases m,
{
    if m > n {
        lemma_chain_stays_ended(slots, from, n, (m - 1) as nat);
    }
}

/// A chain that returns to an earlier process reaches nothing new.
proof fn lemma_chain_repeats(slots: Slots, from: ProcessId, to: ProcessId, k: nat, n: nat)
    requires
        k < n,
        wait_chain(slots, from, k) == wait_chain(slots, from, n),
        forall|m: nat| 1 <= m <= n ==> #[trigger] wait_chain(slots, from, m) != Some(to),
    ensures
        !transitively_waits(slots, from, to),
{
    assert forall|m: nat| m >= 1 implies #[trigger] wait_chain(slots, from, m) != Some(to) by {
        lemma_chain_periodic(slots, from, to, k, n, m);
    }
}

proof fn lemma_chain_periodic(
    slots: Slots,
    from: ProcessId,
    to: ProcessId,
    k: nat,
    n: nat,
    m: nat,
)
    requires
        k < n,
        m >= 1,
        wait_chain(slots, from, k) == wait_chain(slots, from, n),
        forall|j: nat| 1 <= j <= n ==> #[trigger] wait_chain(slots, from, j) != Some(to),
    ensures
        wait_chain(slots, from, m) != Some(to),
    decreases m,
{
    if m > n {
        lemma_chain_shift(slots, from, k, n, (m - n) as nat);
        lemma_chain_periodic(slots, from, to, k, n, (k + (m - n)) as nat);
    }
}

proof fn lemma_chain_shift(slots: Slots, from: ProcessId, k: nat, n: nat, d: nat)
    requires
        wait_chain(slots, from, k) == wait_chain(slots, from, n),
    ensures
        wait_chain(slots, from, k + d) == wait_chain(slots, from, n + d),
    decreases d,
{
    if d > 0 {
        lemma_chain_shift(slots, from, k, n, (d - 1) as nat);
        assert(wait_chain(slots, from, (k + d - 1) as nat) == wait_chain(
            slots,
            from,
            (n + d - 1) as nat,
        ));
    }
}

/// A list of distinct slots that misses one is shorter than the table.
proof fn lemma_trail_room(trail: Seq<int>, slot: int)
    requires
        trail.no_duplicates(),
        forall|k: int| 0 <= k < trail.len() ==> 0 <= #[trigger] trail[k] < MAX_PROCESSES,
        0 <= slot < MAX_PROCESSES,
        !trail.contains(slot),
    ensures
        trail.len() < MAX_PROCESSES,
        trail.push(slot).no_duplicates(),
{
    let all = trail.push(slot);
    assert(all.no_duplicates()) by {
        assert forall|i: int, j: int| 0 <= i < all.len() && 0 <= j < all.len() && i != j implies all[i]
            != all[j] by {
            if i == trail.len() {
                assert(trail.contains(trail[j]));
            } else if j == trail.len() {
                assert(trail.contains(trail[i]));
            }
        }
    }
    all.unique_seq_to_set();
    vstd::set_lib::lemma_int_range(0, MAX_PROCESSES as int);
    assert(all.to_set().subset_of(vstd::set_lib::set_int_range(0, MAX_PROCESSES as int)));
    vstd::set_lib::lemma_len_subset(
        all.to_set(),
        vstd::set_lib::set_int_range(0, MAX_PROCESSES as int),
    );
}

/// No two slots hold the same process, and every slot holds a PID that was
/// given out, which PID 0 never is.
pub open spec fn pids_distinct(slots: Slots, next_pid: u32) -> bool {
    &&& forall|i: int|
        0 <= i < slots.len() && slots[i] is Some ==> 0 < (#[trigger] slots[i])->0.pid.0 < next_pid
    &&& forall|i: int, j: int|
        0 <= i < slots.len() && 0 <= j < slots.len() && i != j && slots[i] is Some && slots[j] is Some
            ==> (#[trigger] slots[i])->0.pid != (#[trigger] slots[j])->0.pid
}

/// Every process has a kernel stack to itself that the pool counts as in use.
pub open spec fn stacks_owned(slots: Slots, stacks: KernelStackPool) -> bool {
    &&& forall|i: int|
        0 <= i < slots.len() && slots[i] is Some ==> {
            &&& (#[trigger] slots[i])->0.kernel_stack_id < stacks.next
            &&& !stacks.reclaim@.contains(slots[i]->0.kernel_stack_id)
        }
    &&& forall|i: int, j: int|
        0 <= i < slots.len() && 0 <= j < slots.len() && i != j && slots[i] is Some && slots[j] is Some
            ==> (#[trigger] slots[i])->0.kernel_stack_id != (#[trigger] slots[j])->0.kernel_stack_id
}

/// Every mailbox is well formed.
pub open spec fn mailboxes_wf(slots: Slots) -> bool {
    forall|i: int| 0 <= i < slots.len() && slots[i] is Some ==> (#[trigger] slots[i])->0.mailbox.wf()
}

/// In a table without duplicate PIDs, the slot that holds a PID is unique.
pub proof fn lemma_slot_unique(slots: Slots, next_pid: u32, i: int, pid: ProcessId)
    requires
        pids_distinct(slots, next_pid),
        holds(slots, i, pid),
    ensures
        slot_of(slots, pid) == i,
        has_process(slots, pid),
{
    let j = slot_of(slots, pid);
    assert(holds(slots, j, pid));
    if i != j {
        assert(slots[i]->0.pid != slots[j]->0.pid);
    }
}

/// `after` is `before` with process `p` added in the first free slot.
pub open spec fn created(
    before: ProcessTable,
    after: ProcessTable,
    p: ProcessControlBlock,
) -> bool {
    &&& after.next_pid == before.next_pid + 1
    &&& p.pid == ProcessId(before.next_pid)
    &&& exists|i: int|
        #![trigger first_free(before.processes@, i)]
        first_free(before.processes@, i) && after.processes@ == before.processes@.update(i, Some(p))
    &&& has_process(after.processes@, p.pid)
    &&& lookup(after.processes@, p.pid) == p
}

/// `after` is `before` without process `pid`, whose kernel stack went back,
/// cleared, to the pool.
pub open spec fn removed(before: ProcessTable, after: ProcessTable, pid: ProcessId) -> bool {
    let id = lookup(before.processes@, pid).kernel_stack_id;
    if has_process(before.processes@, pid) {
        &&& after.processes@ == before.processes@.update(slot_of(before.processes@, pid), None)
        &&& after.next_pid == before.next_pid
        &&& after.stacks.base == before.stacks.base
        &&& after.stacks.next == before.stacks.next
        &&& after.stacks.reclaim@ == before.stacks.reclaim@.push(id)
        &&& after.stacks.memory@ == crate::process::pcb::stack_cleared(
            before.stacks.memory@,
            id as int,
        )
    } else {
        after == before
    }
}

/// Adding a fresh process in a free slot keeps the table well formed.
proof fn lemma_created(
    before: ProcessTable,
    after: ProcessTable,
    i: int,
    p: ProcessControlBlock,
    word: u64,
)
    requires
        before.wf(),
        first_free(before.processes@, i),
        after.processes@ == before.processes@.update(i, Some(p)),
        after.next_pid == before.next_pid + 1,
        p.pid == ProcessId(before.next_pid),
        p.mailbox.wf(),
        crate::process::pcb::stack_taken(before.stacks, after.stacks, word),
        p.kernel_stack_id == before.stacks.candidate()->0,
    ensures
        after.wf(),
        created(before, after, p),
{
    let bs = before.processes@;
    let s = after.processes@;
    let r = before.stacks.reclaim@;
    assert forall|k: int| 0 <= k < s.len() && s[k] is Some implies !after.stacks.reclaim@.contains(
        (#[trigger] s[k])->0.kernel_stack_id,
    ) && s[k]->0.kernel_stack_id < after.stacks.next && s[k]->0.pid.0 < after.next_pid
        && s[k]->0.mailbox.wf() by {
        if k != i {
            assert(bs[k] == s[k]);
            if r.len() > 0 && r.drop_last().contains(s[k]->0.kernel_stack_id) {
                let m = r.drop_last().index_of(s[k]->0.kernel_stack_id);
                assert(r[m] == s[k]->0.kernel_stack_id);
                assert(r.contains(s[k]->0.kernel_stack_id));
            }
        } else if r.len() > 0 && r.drop_last().contains(p.kernel_stack_id) {
            let m = r.drop_last().index_of(p.kernel_stack_id);
            assert(r[m] == r[r.len() - 1]);
        }
    }
    if r.len() > 0 {
        assert(r.contains(r.last()));
    }
    assert forall|k: int, l: int|
        0 <= k < s.len() && 0 <= l < s.len() && k != l && s[k] is Some && s[l] is Some implies (
    #[trigger] s[k])->0.kernel_stack_id != (#[trigger] s[l])->0.kernel_stack_id && s[k]->0.pid
        != s[l]->0.pid by {
        if k != i {
            assert(bs[k] == s[k]);
        }
        if l != i {
            assert(bs[l] == s[l]);
        }
    }
    assert(holds(s, i, p.pid));
    lemma_slot_unique(s, after.next_pid, i, p.pid);
}

/// A pool with a slot in use has room to take that slot back.
proof fn lemma_reclaim_room(pool: KernelStackPool, id: usize)
    requires
        pool.wf(),
        pool.reclaim_distinct(),
        id < pool.next,
        !pool.reclaim@.contains(id),
    ensures
        pool.reclaim@.len() < crate::process::pcb::MAX_KERNEL_STACKS,
{
    let all = pool.reclaim@.push(id);
    let ids = all.map(|_i: int, x: usize| x as int);
    assert(ids.no_duplicates()) by {
        assert forall|i: int, j: int| 0 <= i < ids.len() && 0 <= j < ids.len() && i != j implies ids[i]
            != ids[j] by {
            if i == ids.len() - 1 {
                assert(pool.reclaim@.contains(pool.reclaim@[j]));
            } else if j == ids.len() - 1 {
                assert(pool.reclaim@.contains(pool.reclaim@[i]));
            }
        }
    }
    ids.unique_seq_to_set();
    vstd::set_lib::lemma_int_range(0, pool.next as int);
    assert(ids.to_set().subset_of(vstd::set_lib::set_int_range(0, pool.next as int)));
    vstd::set_lib::lemma_len_subset(
        ids.to_set(),
        vstd::set_lib::set_int_range(0, pool.next as int),
    );
}

/// Removing a process and returning its stack keeps the table well formed.
proof fn lemma_terminated(before: ProcessTable, after: ProcessTable, i: int, pid: ProcessId)
    requires
        before.wf(),
        holds(before.processes@, i, pid),
        after.processes@ == before.processes@.update(i, None),
        after.next_pid == before.next_pid,
        after.stacks.wf(),
        after.stacks.next == before.stacks.next,
        after.stacks.reclaim@ == before.stacks.reclaim@.push(
            before.processes@[i]->0.kernel_stack_id,
        ),
    ensures
        after.wf(),
        !has_process(after.processes@, pid),
{
    let bs = before.processes@;
    let s = after.processes@;
    let r = before.stacks.reclaim@;
    let id = bs[i]->0.kernel_stack_id;
    assert forall|k: int| 0 <= k < s.len() && s[k] is Some implies (#[trigger] s[k]) == bs[k]
        && !after.stacks.reclaim@.contains(s[k]->0.kernel_stack_id) && s[k]->0.pid != pid by {
        assert(k != i);
        assert(bs[k] == s[k]);
        if after.stacks.reclaim@.contains(s[k]->0.kernel_stack_id) {
            let m = after.stacks.reclaim@.index_of(s[k]->0.kernel_stack_id);
            if m < r.len() {
                assert(r.contains(r[m]));
            }
        }
    }
    assert(r.push(id).no_duplicates()) by {
        assert forall|a: int, b: int| 0 <= a < r.len() + 1 && 0 <= b < r.len() + 1 && a != b implies r.push(
            id,
        )[a] != r.push(id)[b] by {
            if a == r.len() {
                assert(r.contains(r[b]));
            } else if b == r.len() {
                assert(r.contains(r[a]));
            }
        }
    }
}

/// Replacing the block of a process by one with the same identity, stack and
/// a well-formed mailbox keeps the table well formed.
pub proof fn lemma_same_identity(
    before: ProcessTable,
    after: ProcessTable,
    i: int,
    pid: ProcessId,
)
    requires
        before.wf(),
        holds(before.processes@, i, pid),
        after.next_pid == before.next_pid,
        after.stacks == before.stacks,
        after.processes@.len() == before.processes@.len(),
        after.processes@[i] is Some,
        after.processes@ == before.processes@.update(i, after.processes@[i]),
        after.processes@[i]->0.pid == pid,
        after.processes@[i]->0.kernel_stack_id == before.processes@[i]->0.kernel_stack_id,
        after.processes@[i]->0.mailbox.wf(),
    ensures
        after.wf(),
        has_process(after.processes@, pid),
        slot_of(before.processes@, pid) == i,
        slot_of(after.processes@, pid) == i,
        lookup(after.processes@, pid) == after.processes@[i]->0,
        lookup(before.processes@, pid) == before.processes@[i]->0,
        after.processes@ == with_process(before.processes@, pid, after.processes@[i]->0),
{
    let bs = before.processes@;
    let s = after.processes@;
    assert forall|k: int| 0 <= k < s.len() && k != i implies (#[trigger] s[k]) == bs[k] by {}
    assert(holds(s, i, pid));
    lemma_slot_unique(bs, before.next_pid, i, pid);
    assert(pids_distinct(s, after.next_pid));
    lemma_slot_unique(s, after.next_pid, i, pid);
}

/// Replacing the block of `pid` by `q`, with the same identity and stack and a
/// well-formed mailbox, keeps the table well formed and every other process as it was.
pub proof fn lemma_replaced(
    before: ProcessTable,
    after: ProcessTable,
    pid: ProcessId,
    q: ProcessControlBlock,
)
    requires
        before.wf(),
        has_process(before.processes@, pid),
        after.next_pid == before.next_pid,
        after.stacks == before.stacks,
        after.processes@ == with_process(before.processes@, pid, q),
        q.pid == pid,
        q.kernel_stack_id == lookup(before.processes@, pid).kernel_stack_id,
        q.mailbox.wf(),
    ensures
        after.wf(),
        lookup(after.processes@, pid) == q,
        forall|other: ProcessId|
            #![trigger has_process(after.processes@, other)]
            has_process(after.processes@, other) == has_process(before.processes@, other),
        forall|other: ProcessId|
            #![trigger lookup(after.processes@, other)]
            has_process(before.processes@, other) ==> slot_of(after.processes@, other) == slot_of(
                before.processes@,
                other,
            ) && (other != pid ==> lookup(after.processes@, other) == lookup(
                before.processes@,
                other,
            )),
{
    let bs = before.processes@;
    let s = after.processes@;
    let i = slot_of(bs, pid);
    assert(holds(bs, i, pid));
    lemma_same_identity(before, after, i, pid);
    assert forall|other: ProcessId| has_process(bs, other) implies has_process(s, other) && slot_of(
        s,
        other,
    ) == slot_of(bs, other) && (other != pid ==> #[trigger] lookup(s, other) == lookup(bs, other)) by {
        let k = slot_of(bs, other);
        assert(holds(bs, k, other));
        assert(holds(s, k, other));
        lemma_slot_unique(s, after.next_pid, k, other);
    }
    assert forall|other: ProcessId| #[trigger] has_process(s, other) == has_process(bs, other) by {
        if has_process(bs, other) {
            assert(holds(s, slot_of(bs, other), other));
        }
        if has_process(s, other) {
            assert(holds(bs, slot_of(s, other), other));
        }
    }
}

/// Table of all processes and of the kernel stacks they run on.
#[derive(Debug)]
pub struct ProcessTable {
    pub processes: Vec<Option<ProcessControlBlock>>,
    /// PID of the next process to be created.
    pub next_pid: u32,
    pub stacks: KernelStackPool,
}

/// Address of the kernel stacks of a table made by `ProcessTable::new`.
pub const DEFAULT_STACK_BASE: u64 = 0x20_0000;

impl ProcessTable {
    pub open spec fn wf(&self) -> bool {
        &&& self.processes@.len() == MAX_PROCESSES
        &&& self.stacks.wf()
        &&& self.stacks.reclaim_distinct()
        &&& self.next_pid > 0
        &&& pids_distinct(self.processes@, self.next_pid)
        &&& stacks_owned(self.processes@, self.stacks)
        &&& mailboxes_wf(self.processes@)
    }

    pub fn new() -> (r: Self)
        ensures
            r.wf(),
            r.next_pid == 1,
            forall|i: int| 0 <= i < MAX_PROCESSES ==> (#[trigger] r.processes@[i]) is None,
            r.stacks.base == DEFAULT_STACK_BASE,
            r.stacks.next == 0,
            r.stacks.reclaim@ == Seq::<usize>::empty(),
            forall|k: int| 0 <= k < KERNEL_STACKS_BYTES ==> r.stacks.memory@[k] == 0,
    {
        Self::with_stacks(KernelStackPool::new(DEFAULT_STACK_BASE))
    }

    /// An empty table whose processes run on the stacks of `stacks`.
    pub fn with_stacks(stacks: KernelStackPool) -> (r: Self)
        requires
            stacks.wf(),
            stacks.reclaim_distinct(),
        ensures
            r.wf(),
            r.next_pid == 1,
            forall|i: int| 0 <= i < MAX_PROCESSES ==> (#[trigger] r.processes@[i]) is None,
            r.stacks == stacks,
    {
        let mut processes: Vec<Option<ProcessControlBlock>> = Vec::new();
        while processes.len() < MAX_PROCESSES
            invariant
                processes@.len() <= MAX_PROCESSES,
                forall|i: int| 0 <= i < processes@.len() ==> (#[trigger] processes@[i]) is None,
            decreases MAX_PROCESSES - processes@.len(),
        {
            processes.push(None);
        }
        ProcessTable { processes, next_pid: 1, stacks }
    }

    fn find(&self, pid: ProcessId) -> (r: Option<usize>)
        requires
            self.wf(),
        ensures
            match r {
                Some(i) => holds(self.processes@, i as int, pid) && i == slot_of(
                    self.processes@,
                    pid,
                ) && has_process(self.processes@, pid),
                None => !has_process(self.processes@, pid),
            },
    {
        let mut i: usize = 0;
        while i < MAX_PROCESSES
            invariant
                self.wf(),
                i <= MAX_PROCESSES,
                forall|j: int| 0 <= j < i ==> !#[trigger] holds(self.processes@, j, pid),
            decreases MAX_PROCESSES - i,
        {
            if let Some(pcb) = &self.processes[i] {
                if pcb.pid == pid {
                    proof {
                        lemma_slot_unique(self.processes@, self.next_pid, i as int, pid);
                    }
                    return Some(i);
                }
            }
            i = i + 1;
        }
        None
    }

    fn find_free(&self) -> (r: Option<usize>)
        requires
            self.wf(),
        ensures
            match r {
                Some(i) => first_free(self.processes@, i as int),
                None => all_taken(self.processes@),
            },
    {
        let mut i: usize = 0;
        while i < MAX_PROCESSES
            invariant
                self.wf(),
                i <= MAX_PROCESSES,
                forall|j: int| 0 <= j < i ==> (#[trigger] self.processes@[j]) is Some,
            decreases MAX_PROCESSES - i,
        {
            if self.processes[i].is_none() {
                return Some(i);
            }
            i = i + 1;
        }
        None
    }

    /// Creates a process that starts at `entry_point` in the kernel.
    ///
    /// `None` if no slot or no kernel stack is free.
    pub fn create_process(
        &mut self,
        entry_point: u64,
        stack_addr: u64,
        page_table_base: u64,
    ) -> (r: Option<ProcessId>)
        requires
            old(self).wf(),
            old(self).next_pid < u32::MAX,
        ensures
            final(self).wf(),
            all_taken(old(self).processes@) || old(self).stacks.candidate() is None ==> r is None
                && *final(self) == *old(self),
            !all_taken(old(self).processes@) && old(self).stacks.candidate() is Some ==> {
                let p = lookup(final(self).processes@, ProcessId(old(self).next_pid));
                let id = old(self).stacks.candidate()->0;
                let rsp = (old(self).stacks.top(id as int) - 8) as u64;
                &&& r == Some(ProcessId(old(self).next_pid))
                &&& created(*old(self), *final(self), p)
                &&& crate::process::pcb::stack_taken(
                    old(self).stacks,
                    final(self).stacks,
                    entry_point,
                )
                &&& crate::process::pcb::is_fresh(
                    p,
                    ProcessId(old(self).next_pid),
                    crate::process::pcb::kernel_context(entry_point, rsp),
                    id,
                    rsp,
                    page_table_base,
                )
            },
    {
        let i: usize = match self.find_free() {
            Some(i) => i,
            None => return None,
        };
        let pid = ProcessId::new(self.next_pid);
        let pcb = match ProcessControlBlock::new(
            &mut self.stacks,
            pid,
            entry_point,
            stack_addr,
            page_table_base,
        ) {
            Some(pcb) => pcb,
            None => return None,
        };
        let ghost p = pcb;
        self.processes[i] = Some(pcb);
        self.next_pid = self.next_pid + 1;
        proof {
            lemma_created(*old(self), *self, i as int, p, entry_point);
        }
        Some(pid)
    }

    /// Creates a process that starts in ring 3 through the trampoline at
    /// `trampoline_addr`.
    ///
    /// `None` if no slot or no kernel stack is free.
    pub fn create_ring3_process(
        &mut self,
        user_entry: u64,
        user_stack_top: u64,
        page_table_base: u64,
        trampoline_addr: u64,
    ) -> (r: Option<ProcessId>)
        requires
            old(self).wf(),
            old(self).next_pid < u32::MAX,
        ensures
            final(self).wf(),
            all_taken(old(self).processes@) || old(self).stacks.candidate() is None ==> r is None
                && *final(self) == *old(self),
            !all_taken(old(self).processes@) && old(self).stacks.candidate() is Some ==> {
                let p = lookup(final(self).processes@, ProcessId(old(self).next_pid));
                let id = old(self).stacks.candidate()->0;
                let top = old(self).stacks.top(id as int) as u64;
                &&& r == Some(ProcessId(old(self).next_pid))
                &&& created(*old(self), *final(self), p)
                &&& crate::process::pcb::stack_taken(
                    old(self).stacks,
                    final(self).stacks,
                    trampoline_addr,
                )
                &&& crate::process::pcb::is_fresh(
                    p,
                    ProcessId(old(self).next_pid),
                    crate::process::pcb::ring3_context(
                        user_entry,
                        user_stack_top,
                        trampoline_addr,
                        (top - 8) as u64,
                    ),
                    id,
                    top,
                    page_table_base,
                )
            },
    {
        let i: usize = match self.find_free() {
            Some(i) => i,
            None => return None,
        };
        let pid = ProcessId::new(self.next_pid);
        let pcb = match ProcessControlBlock::new_ring3(
            &mut self.stacks,
            pid,
            user_entry,
            user_stack_top,
            page_table_base,
            trampoline_addr,
        ) {
            Some(pcb) => pcb,
            None => return None,
        };
        let ghost p = pcb;
        self.processes[i] = Some(pcb);
        self.next_pid = self.next_pid + 1;
        proof {
            lemma_created(*old(self), *self, i as int, p, trampoline_addr);
        }
        Some(pid)
    }

    /// Removes process `pid`: frees its slot and returns its kernel stack,
    /// cleared, to the pool. An unknown PID is ignored.
    pub fn terminate_process(&mut self, pid: ProcessId)
        requires
            old(self).wf(),
        ensures
            final(self).wf(),
            !has_process(final(self).processes@, pid),
            removed(*old(self), *final(self), pid),
    {
        let i: usize = match self.find(pid) {
            Some(i) => i,
            None => return ,
        };
        let id: usize = match &self.processes[i] {
            Some(pcb) => pcb.kernel_stack_id,
            None => return ,
        };
        self.processes[i] = None;
        proof {
            lemma_reclaim_room(old(self).stacks, id);
        }
        free_kernel_stack(&mut self.stacks, id);
        proof {
            lemma_terminated(*old(self), *self, i as int, pid);
        }
    }

    /// The block of process `pid`, for modification.
    pub fn get_process(&mut self, pid: ProcessId) -> (r: Option<&mut ProcessControlBlock>)
        requires
            old(self).wf(),
        ensures
            match r {
                Some(p) => {
                    &&& has_process(old(self).processes@, pid)
                    &&& *p == lookup(old(self).processes@, pid)
                    &&& final(self).processes@ == with_process(
                        old(self).processes@,
                        pid,
                        *final(p),
                    )
                    &&& final(self).next_pid == old(self).next_pid
                    &&& final(self).stacks == old(self).stacks
                },
                None => !has_process(old(self).processes@, pid) && *final(self) == *old(self),
            },
    {
        match self.find(pid) {
            Some(i) => match &mut self.processes[i] {
                Some(p) => Some(p),
                None => None,
            },
            None => None,
        }
    }

    /// The block of process `pid`.
    pub fn get_process_ref(&self, pid: ProcessId) -> (r: Option<&ProcessControlBlock>)
        requires
            self.wf(),
        ensures
            r == (if has_process(self.processes@, pid) {
                Some(&lookup(self.processes@, pid))
            } else {
                None
            }),
    {
        match self.find(pid) {
            Some(i) => match &self.processes[i] {
                Some(p) => Some(p),
                None => None,
            },
            None => None,
        }
    }

    /// PID, state and priority of every process; the state is 0 for ready or
    /// running, 1 for blocked and 2 for terminated.
    pub fn list_all(&self) -> (r: ProcList<(ProcessId, u8, u8)>)
        requires
            self.wf(),
        ensures
            r.wf(),
            r@ == all_processes(self.processes@),
    {
        let mut out: ProcList<(ProcessId, u8, u8)> = ProcList::new();
        let mut i: usize = 0;
        while i < MAX_PROCESSES
            invariant
                self.wf(),
                i <= MAX_PROCESSES,
                out@.len() <= i,
                out@ == all_processes(self.processes@.take(i as int)),
            decreases MAX_PROCESSES - i,
        {
            assert(self.processes@.take(i + 1).drop_last() =~= self.processes@.take(i as int));
            if let Some(pcb) = &self.processes[i] {
                let state: u8 = match pcb.state {
                    ProcessState::Ready | ProcessState::Running => 0,
                    ProcessState::Blocked => 1,
                    ProcessState::Terminated => 2,
                };
                out.push((pcb.pid, state, pcb.priority));
            }
            i = i + 1;
        }
        assert(self.processes@.take(MAX_PROCESSES as int) =~= self.processes@);
        out
    }

    /// PIDs of the ready and running processes.
    pub fn get_ready_processes(&self) -> (r: ProcList<ProcessId>)
        requires
            self.wf(),
        ensures
            r.wf(),
            r@ == ready_pids(self.processes@),
    {
        let mut out: ProcList<ProcessId> = ProcList::new();
        let mut i: usize = 0;
        while i < MAX_PROCESSES
            invariant
                self.wf(),
                i <= MAX_PROCESSES,
                out@.len() <= i,
                out@ == ready_pids(self.processes@.take(i as int)),
            decreases MAX_PROCESSES - i,
        {
            assert(self.processes@.take(i + 1).drop_last() =~= self.processes@.take(i as int));
            if let Some(pcb) = &self.processes[i] {
                if matches!(pcb.state, ProcessState::Ready | ProcessState::Running) {
                    out.push(pcb.pid);
                }
            }
            i = i + 1;
        }
        assert(self.processes@.take(MAX_PROCESSES as int) =~= self.processes@);
        out
    }

    /// PID and priority of the ready and running processes.
    pub fn get_ready_with_priority(&self) -> (r: ProcList<(ProcessId, u8)>)
        requires
            self.wf(),
        ensures
            r.wf(),
            r@ == ready_priorities(self.processes@),
    {
        let mut out: ProcList<(ProcessId, u8)> = ProcList::new();
        let mut i: usize = 0;
        while i < MAX_PROCESSES
            invariant
                self.wf(),
                i <= MAX_PROCESSES,
                out@.len() <= i,
                out@ == ready_priorities(self.processes@.take(i as int)),
            decreases MAX_PROCESSES - i,
        {
            assert(self.processes@.take(i + 1).drop_last() =~= self.processes@.take(i as int));
            if let Some(pcb) = &self.processes[i] {
                if matches!(pcb.state, ProcessState::Ready | ProcessState::Running) {
                    out.push((pcb.pid, pcb.priority));
                }
            }
            i = i + 1;
        }
        assert(self.processes@.take(MAX_PROCESSES as int) =~= self.processes@);
        out
    }

    /// PID and deadline of the ready and running real-time processes.
    pub fn get_ready_realtime(&self) -> (r: ProcList<(ProcessId, u64)>)
        requires
            self.wf(),
        ensures
            r.wf(),
            r@ == ready_deadlines(self.processes@),
    {
        let mut out: ProcList<(ProcessId, u64)> = ProcList::new();
        let mut i: usize = 0;
        while i < MAX_PROCESSES
            invariant
                self.wf(),
                i <= MAX_PROCESSES,
                out@.len() <= i,
                out@ == ready_deadlines(self.processes@.take(i as int)),
            decreases MAX_PROCESSES - i,
        {
            assert(self.processes@.take(i + 1).drop_last() =~= self.processes@.take(i as int));
            if let Some(pcb) = &self.processes[i] {
                if matches!(pcb.state, ProcessState::Ready | ProcessState::Running) && pcb.rt_period
                    > 0 {
                    out.push((pcb.pid, pcb.rt_deadline));
                }
            }
            i = i + 1;
        }
        assert(self.processes@.take(MAX_PROCESSES as int) =~= self.processes@);
        out
    }

    /// Priority and target of the blocked processes that wait for another one.
    pub fn get_blocked_waiters(&self) -> (r: ProcList<(u8, ProcessId)>)
        requires
            self.wf(),
        ensures
            r.wf(),
            r@ == blocked_waiters(self.processes@),
    {
        let mut out: ProcList<(u8, ProcessId)> = ProcList::new();
        let mut i: usize = 0;
        while i < MAX_PROCESSES
            invariant
                self.wf(),
                i <= MAX_PROCESSES,
                out@.len() <= i,
                out@ == blocked_waiters(self.processes@.take(i as int)),
            decreases MAX_PROCESSES - i,
        {
            assert(self.processes@.take(i + 1).drop_last() =~= self.processes@.take(i as int));
            if let Some(pcb) = &self.processes[i] {
                if matches!(pcb.state, ProcessState::Blocked) {
                    if let Some(target) = pcb.waiting_for {
                        out.push((pcb.priority, target));
                    }
                }
            }
            i = i + 1;
        }
        assert(self.processes@.take(MAX_PROCESSES as int) =~= self.processes@);
        out
    }

    /// Wakes the blocked processes whose deadline has come.
    pub fn check_deadlines(&mut self, current_tick: u64)
        requires
            old(self).wf(),
        ensures
            final(self).wf(),
            final(self).processes@ == map_slots(
                old(self).processes@,
                |p: ProcessControlBlock| deadline_checked(p, current_tick),
            ),
            final(self).next_pid == old(self).next_pid,
            final(self).stacks == old(self).stacks,
    {
        let ghost f = |p: ProcessControlBlock| deadline_checked(p, current_tick);
        let ghost target = map_slots(self.processes@, f);
        let mut i: usize = 0;
        while i < MAX_PROCESSES
            invariant
                i <= MAX_PROCESSES,
                old(self).wf(),
                target == map_slots(old(self).processes@, f),
                f == (|p: ProcessControlBlock| deadline_checked(p, current_tick)),
                self.processes@.len() == MAX_PROCESSES,
                self.processes@ =~= target.take(i as int) + old(self).processes@.skip(i as int),
                self.next_pid == old(self).next_pid,
                self.stacks == old(self).stacks,
            decreases MAX_PROCESSES - i,
        {
            assert(self.processes@[i as int] == old(self).processes@[i as int]);
            match &mut self.processes[i] {
                Some(pcb) => {
                    if matches!(pcb.state, ProcessState::Blocked) && pcb.blocked_deadline
                        <= current_tick {
                        pcb.state = ProcessState::Ready;
                        pcb.blocked_deadline = u64::MAX;
                        pcb.waiting_for = None;
                    }
                },
                None => {},
            }
            assert(self.processes@[i as int] == target[i as int]);
            i = i + 1;
        }
        assert(self.processes@ =~= target);
    }

    /// The earliest finite deadline of a blocked process, `u64::MAX` if there is none.
    pub fn earliest_blocked_deadline(&self) -> (r: u64)
        requires
            self.wf(),
        ensures
            is_earliest_deadline(self.processes@, r),
    {
        let mut best: u64 = u64::MAX;
        let mut i: usize = 0;
        while i < MAX_PROCESSES
            invariant
                self.wf(),
                i <= MAX_PROCESSES,
                forall|j: int|
                    0 <= j < i && self.processes@[j] is Some && self.processes@[j]->0.state is Blocked
                        ==> best <= (#[trigger] self.processes@[j])->0.blocked_deadline,
                best != u64::MAX ==> exists|j: int|
                    0 <= j < i && self.processes@[j] is Some && self.processes@[j]->0.state is Blocked
                        && (#[trigger] self.processes@[j])->0.blocked_deadline == best,
            decreases MAX_PROCESSES - i,
        {
            if let Some(pcb) = &self.processes[i] {
                if matches!(pcb.state, ProcessState::Blocked) && pcb.blocked_deadline < best {
                    best = pcb.blocked_deadline;
                    assert(self.processes@[i as int]->0.blocked_deadline == best);
                }
            }
            i = i + 1;
        }
        best
    }

    /// Starts a new rate window: no process has sent any message.
    pub fn reset_ipc_rate_counters(&mut self)
        requires
            old(self).wf(),
        ensures
            final(self).wf(),
            final(self).processes@ == map_slots(
                old(self).processes@,
                |p: ProcessControlBlock| ProcessControlBlock { ipc_rate_used: 0, ..p },
            ),
            final(self).next_pid == old(self).next_pid,
            final(self).stacks == old(self).stacks,
    {
        let ghost f = |p: ProcessControlBlock| ProcessControlBlock { ipc_rate_used: 0, ..p };
        let ghost target = map_slots(self.processes@, f);
        let mut i: usize = 0;
        while i < MAX_PROCESSES
            invariant
                i <= MAX_PROCESSES,
                old(self).wf(),
                target == map_slots(old(self).processes@, f),
                f == (|p: ProcessControlBlock| ProcessControlBlock { ipc_rate_used: 0, ..p }),
                self.processes@.len() == MAX_PROCESSES,
                self.processes@ =~= target.take(i as int) + old(self).processes@.skip(i as int),
                self.next_pid == old(self).next_pid,
                self.stacks == old(self).stacks,
            decreases MAX_PROCESSES - i,
        {
            assert(self.processes@[i as int] == old(self).processes@[i as int]);
            match &mut self.processes[i] {
                Some(pcb) => {
                    pcb.ipc_rate_used = 0;
                },
                None => {},
            }
            assert(self.processes@[i as int] == target[i as int]);
            i = i + 1;
        }
        assert(self.processes@ =~= target);
    }

    /// Starts a new budget frame: no process has used any of its budget.
    pub fn reset_cpu_budget_counters(&mut self)
        requires
            old(self).wf(),
        ensures
            final(self).wf(),
            final(self).processes@ == map_slots(
                old(self).processes@,
                |p: ProcessControlBlock| ProcessControlBlock { cpu_budget_used: 0, ..p },
            ),
            final(self).next_pid == old(self).next_pid,
            final(self).stacks == old(self).stacks,
    {
        let ghost f = |p: ProcessControlBlock| ProcessControlBlock { cpu_budget_used: 0, ..p };
        let ghost target = map_slots(self.processes@, f);
        let mut i: usize = 0;
        while i < MAX_PROCESSES
            invariant
                i <= MAX_PROCESSES,
                old(self).wf(),
                target == map_slots(old(self).processes@, f),
                f == (|p: ProcessControlBlock| ProcessControlBlock { cpu_budget_used: 0, ..p }),
                self.processes@.len() == MAX_PROCESSES,
                self.processes@ =~= target.take(i as int) + old(self).processes@.skip(i as int),
                self.next_pid == old(self).next_pid,
                self.stacks == old(self).stacks,
            decreases MAX_PROCESSES - i,
        {
            assert(self.processes@[i as int] == old(self).processes@[i as int]);
            match &mut self.processes[i] {
                Some(pcb) => {
                    pcb.cpu_budget_used = 0;
                },
                None => {},
            }
            assert(self.processes@[i as int] == target[i as int]);
            i = i + 1;
        }
        assert(self.processes@ =~= target);
    }

    // ── Capabilities ─────────────────────────────────────────────────────────
    /// Stores `cap` in the first free slot of the table of `pid` and gives the
    /// slot. `None` if the process does not exist or its table is full.
    pub fn cap_alloc(&mut self, pid: ProcessId, cap: Capability) -> (r: Option<usize>)
        requires
            old(self).wf(),
        ensures
            final(self).wf(),
            cap_stored(*old(self), *final(self), pid, cap, r),
    {
        let i: usize = match self.find(pid) {
            Some(i) => i,
            None => return None,
        };
        let c: usize = match &self.processes[i] {
            Some(pcb) => match Self::free_cap_slot(&pcb.cap_table) {
                Some(c) => c,
                None => return None,
            },
            None => return None,
        };
        match &mut self.processes[i] {
            Some(pcb) => {
                pcb.cap_table[c] = cap;
            },
            None => {},
        }
        proof {
            lemma_same_identity(*old(self), *self, i as int, pid);
        }
        Some(c)
    }

    fn free_cap_slot(caps: &[Capability; CAP_TABLE_SIZE]) -> (r: Option<usize>)
        ensures
            match r {
                Some(c) => first_cap(caps@, cap_free(), c as int),
                None => no_cap(caps@, cap_free()),
            },
    {
        let mut c: usize = 0;
        while c < CAP_TABLE_SIZE
            invariant
                c <= CAP_TABLE_SIZE,
                forall|j: int| 0 <= j < c ==> !(cap_free())(#[trigger] caps@[j]),
            decreases CAP_TABLE_SIZE - c,
        {
            if caps[c].is_empty() {
                return Some(c);
            }
            c = c + 1;
        }
        None
    }

    /// The first capability of `pid` for object `object_id` of kind `kind`.
    pub fn cap_find(&self, pid: ProcessId, kind: CapKind, object_id: u32) -> (r: Option<
        (usize, Capability),
    >)
        requires
            self.wf(),
        ensures
            match r {
                Some((c, cap)) => {
                    let caps = lookup(self.processes@, pid).cap_table@;
                    &&& has_process(self.processes@, pid)
                    &&& first_cap(caps, cap_matches(kind, object_id), c as int)
                    &&& cap == caps[c as int]
                },
                None => has_process(self.processes@, pid) ==> no_cap(
                    lookup(self.processes@, pid).cap_table@,
                    cap_matches(kind, object_id),
                ),
            },
    {
        let pcb = match self.get_process_ref(pid) {
            Some(pcb) => pcb,
            None => return None,
        };
        let mut c: usize = 0;
        while c < CAP_TABLE_SIZE
            invariant
                c <= CAP_TABLE_SIZE,
                has_process(self.processes@, pid),
                *pcb == lookup(self.processes@, pid),
                forall|j: int|
                    0 <= j < c ==> !(cap_matches(kind, object_id))(#[trigger] pcb.cap_table@[j]),
            decreases CAP_TABLE_SIZE - c,
        {
            let cap = pcb.cap_table[c];
            if cap.kind == kind && cap.object_id == object_id {
                return Some((c, cap));
            }
            c = c + 1;
        }
        None
    }

    /// Empties slot `slot_idx` of the table of `pid`. An unknown process or an
    /// out-of-range slot is ignored.
    pub fn cap_revoke(&mut self, pid: ProcessId, slot_idx: usize)
        requires
            old(self).wf(),
        ensures
            final(self).wf(),
            if slot_idx < CAP_TABLE_SIZE && has_process(old(self).processes@, pid) {
                caps_updated(
                    *old(self),
                    *final(self),
                    pid,
                    slot_idx as int,
                    Capability::none(),
                )
            } else {
                *final(self) == *old(self)
            },
    {
        if slot_idx >= CAP_TABLE_SIZE {
            return ;
        }
        let i: usize = match self.find(pid) {
            Some(i) => i,
            None => return ,
        };
        match &mut self.processes[i] {
            Some(pcb) => {
                pcb.cap_table[slot_idx] = Capability::empty();
            },
            None => {},
        }
        proof {
            lemma_same_identity(*old(self), *self, i as int, pid);
        }
    }

    /// Copies the capability in slot `slot_idx` of `from_pid` to the first free
    /// slot of `to_pid` and gives that slot.
    ///
    /// `None`, and no change, unless the source slot holds a capability with
    /// the grant right and the target exists and has a free slot.
    pub fn cap_grant(&mut self, from_pid: ProcessId, slot_idx: usize, to_pid: ProcessId) -> (r:
        Option<usize>)
        requires
            old(self).wf(),
        ensures
            final(self).wf(),
            if grantable(old(self).processes@, from_pid, slot_idx as int) {
                cap_stored(
                    *old(self),
                    *final(self),
                    to_pid,
                    lookup(old(self).processes@, from_pid).cap_table@[slot_idx as int],
                    r,
                )
            } else {
                r is None && *final(self) == *old(self)
            },
    {
        if slot_idx >= CAP_TABLE_SIZE {
            return None;
        }
        let cap = match self.get_process_ref(from_pid) {
            Some(from) => from.cap_table[slot_idx],
            None => return None,
        };
        if cap.is_empty() || cap.rights & CAP_G == 0 {
            return None;
        }
        self.cap_alloc(to_pid, cap)
    }

    // ── Deadlock detection ───────────────────────────────────────────────────
    /// Whether `target` already waits, directly or through others, for
    /// `waiter`, so that `waiter` waiting for `target` would close a cycle.
    pub fn detect_cycle(&self, waiter: ProcessId, target: ProcessId) -> (r: bool)
        requires
            self.wf(),
        ensures
            r == transitively_waits(self.processes@, target, waiter),
    {
        let mut visited: [bool; MAX_PROCESSES] = [false;MAX_PROCESSES];
        let mut current = target;
        let ghost slots = self.processes@;
        let ghost mut trail: Seq<int> = Seq::empty();
        loop
            invariant
                self.wf(),
                slots == self.processes@,
                wait_chain(slots, target, trail.len()) == Some(current),
                forall|n: nat|
                    1 <= n <= trail.len() ==> #[trigger] wait_chain(slots, target, n) != Some(
                        waiter,
                    ),
                forall|k: int|
                    0 <= k < trail.len() ==> {
                        &&& 0 <= #[trigger] trail[k] < MAX_PROCESSES
                        &&& visited@[trail[k]]
                        &&& wait_chain(slots, target, k as nat) is Some
                        &&& holds(slots, trail[k], wait_chain(slots, target, k as nat)->0)
                    },
                forall|s: int|
                    0 <= s < MAX_PROCESSES && #[trigger] visited@[s] ==> trail.contains(s),
                trail.no_duplicates(),
            decreases MAX_PROCESSES - trail.len(),
        {
            let slot: usize = match self.find(current) {
                Some(i) => i,
                None => {
                    proof {
                        assert(wait_chain(slots, target, trail.len() + 1) is None);
                        lemma_chain_ends(slots, target, waiter, trail.len() + 1);
                    }
                    return false;
                },
            };
            if visited[slot] {
                proof {
                    let k = trail.index_of(slot as int);
                    lemma_chain_repeats(slots, target, waiter, k as nat, trail.len());
                }
                return false;
            }
            let ghost seen = visited@;
            let ghost walked = trail;
            visited[slot] = true;
            proof {
                lemma_trail_room(trail, slot as int);
                trail = trail.push(slot as int);
                assert(trail[trail.len() - 1] == slot as int);
                assert forall|s: int|
                    0 <= s < MAX_PROCESSES && #[trigger] visited@[s] implies trail.contains(s) by {
                    if s != slot {
                        assert(seen[s]);
                        assert(trail[walked.index_of(s)] == s);
                    }
                }
            }
            match &self.processes[slot] {
                Some(pcb) => match pcb.waiting_for {
                    Some(next) => {
                        assert(wait_chain(slots, target, trail.len()) == Some(next));
                        if next == waiter {
                            return true;
                        }
                        current = next;
                    },
                    None => {
                        proof {
                            assert(wait_chain(slots, target, trail.len()) is None);
                            lemma_chain_ends(slots, target, waiter, trail.len());
                        }
                        return false;
                    },
                },
                None => {
                    return false;
                },
            }
        }
    }
}

} // verus!
