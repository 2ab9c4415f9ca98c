//! The scheduling policy: which runnable process runs next.
//!
//! Real-time processes run before all others, earliest deadline first. Among
//! the rest the lowest priority number wins, where a process inherits the
//! priority of any blocked process that waits for it; processes at the same
//! level take turns.

use vstd::prelude::*;

use crate::process::table::{ProcList, ProcessTable, MAX_PROCESSES};
use crate::process::pcb::ProcessControlBlock;
use crate::process::ProcessId;

verus! {

/// Index of the first entry of `rt` with the earliest deadline.
pub open spec fn earliest(rt: Seq<(ProcessId, u64)>) -> int
    decreases rt.len(),
{
    if rt.len() <= 1 {
        0
    } else {
        let e = earliest(rt.drop_last());
        if rt.last().1 < rt[e].1 {
            rt.len() - 1
        } else {
            e
        }
    }
}

/// Priority of process `pid` with natural priority `natural`, given the
/// priorities that blocked processes donate.
pub open spec fn effective(waiters: Seq<(u8, ProcessId)>, pid: ProcessId, natural: u8) -> u8
    decreases waiters.len(),
{
    if waiters.len() == 0 {
        natural
    } else {
        let rest = effective(waiters.drop_last(), pid, natural);
        if waiters.last().1 == pid && waiters.last().0 < rest {
            waiters.last().0
        } else {
            rest
        }
    }
}

/// The best (lowest) effective priority among `candidates`, 255 if there are none.
pub open spec fn best_level(
    candidates: Seq<(ProcessId, u8)>,
    waiters: Seq<(u8, ProcessId)>,
) -> u8
    decreases candidates.len(),
{
    if candidates.len() == 0 {
        255
    } else {
        let rest = best_level(candidates.drop_last(), waiters);
        let e = effective(waiters, candidates.last().0, candidates.last().1);
        if e < rest {
            e
        } else {
            rest
        }
    }
}

/// The candidates whose effective priority is `level`, in order.
pub open spec fn at_level(
    candidates: Seq<(ProcessId, u8)>,
    waiters: Seq<(u8, ProcessId)>,
    level: u8,
) -> Seq<ProcessId>
    decreases candidates.len(),
{
    if candidates.len() == 0 {
        Seq::empty()
    } else {
        let rest = at_level(candidates.drop_last(), waiters, level);
        if effective(waiters, candidates.last().0, candidates.last().1) == level {
            rest.push(candidates.last().0)
        } else {
            rest
        }
    }
}

/// The next process to run and the round-robin position afterwards, `None` if
/// no process is runnable.
pub open spec fn pick(slots: crate::process::table::Slots, queue_index: usize) -> Option<
    (ProcessId, usize),
> {
    let candidates = crate::process::table::ready_priorities(slots);
    let rt = crate::process::table::ready_deadlines(slots);
    let waiters = crate::process::table::blocked_waiters(slots);
    if candidates.len() == 0 {
        None
    } else if rt.len() > 0 {
        Some((rt[earliest(rt)].0, queue_index))
    } else {
        let level = at_level(candidates, waiters, best_level(candidates, waiters));
        let idx = if queue_index < level.len() {
            queue_index as int
        } else {
            0
        };
        Some((level[idx], ((idx + 1) % level.len() as int) as usize))
    }
}

/// `earliest` is the first index with the smallest deadline.
pub proof fn lemma_earliest(rt: Seq<(ProcessId, u64)>)
    requires
        rt.len() > 0,
    ensures
        0 <= earliest(rt) < rt.len(),
        forall|k: int| 0 <= k < rt.len() ==> rt[earliest(rt)].1 <= (#[trigger] rt[k]).1,
        forall|k: int| 0 <= k < earliest(rt) ==> rt[earliest(rt)].1 < (#[trigger] rt[k]).1,
    decreases rt.len(),
{
    if rt.len() > 1 {
        let init = rt.drop_last();
        lemma_earliest(init);
        assert forall|k: int| 0 <= k < rt.len() implies rt[earliest(rt)].1 <= (#[trigger] rt[k]).1 by {
            if k < rt.len() - 1 {
                assert(init[k] == rt[k]);
            }
        }
        assert forall|k: int| 0 <= k < earliest(rt) implies rt[earliest(rt)].1 < (#[trigger] rt[k]).1 by {
            if k < rt.len() - 1 {
                assert(init[k] == rt[k]);
            }
        }
    }
}

/// The effective priority is the natural one or a donated one, and no worse
/// than any of these.
pub proof fn lemma_effective(waiters: Seq<(u8, ProcessId)>, pid: ProcessId, natural: u8)
    ensures
        effective(waiters, pid, natural) <= natural,
        forall|k: int|
            0 <= k < waiters.len() && (#[trigger] waiters[k]).1 == pid ==> effective(
                waiters,
                pid,
                natural,
            ) <= waiters[k].0,
        effective(waiters, pid, natural) != natural ==> exists|k: int|
            0 <= k < waiters.len() && (#[trigger] waiters[k]).1 == pid && waiters[k].0 == effective(
                waiters,
                pid,
                natural,
            ),
    decreases waiters.len(),
{
    if waiters.len() > 0 {
        let init = waiters.drop_last();
        lemma_effective(init, pid, natural);
        let e = effective(waiters, pid, natural);
        assert forall|k: int| 0 <= k < waiters.len() && (#[trigger] waiters[k]).1 == pid implies e
            <= waiters[k].0 by {
            if k < waiters.len() - 1 {
                assert(init[k] == waiters[k]);
            }
        }
        if e != natural {
            if waiters.last().1 == pid && waiters.last().0 < effective(init, pid, natural) {
                assert(waiters[waiters.len() - 1].0 == e);
            } else {
                let k = choose|k: int|
                    0 <= k < init.len() && (#[trigger] init[k]).1 == pid && init[k].0 == e;
                assert(waiters[k] == init[k]);
            }
        }
    }
}

/// The best level is attained by a candidate and beaten by none.
pub proof fn lemma_best_level(candidates: Seq<(ProcessId, u8)>, waiters: Seq<(u8, ProcessId)>)
    ensures
        forall|k: int|
            0 <= k < candidates.len() ==> best_level(candidates, waiters) <= effective(
                waiters,
                (#[trigger] candidates[k]).0,
                candidates[k].1,
            ),
        candidates.len() > 0 ==> at_level(candidates, waiters, best_level(candidates, waiters)).len()
            > 0,
    decreases candidates.len(),
{
    if candidates.len() > 0 {
        let init = candidates.drop_last();
        lemma_best_level(init, waiters);
        assert forall|k: int| 0 <= k < candidates.len() implies best_level(candidates, waiters)
            <= effective(waiters, (#[trigger] candidates[k]).0, candidates[k].1) by {
            if k < candidates.len() - 1 {
                assert(init[k] == candidates[k]);
            }
        }
        let b = best_level(candidates, waiters);
        if effective(waiters, candidates.last().0, candidates.last().1) != b {
            if init.len() == 0 {
                assert(best_level(init, waiters) == 255);
            }
        }
    }
}

/// `pid` is a candidate with effective priority `level`.
pub open spec fn candidate_at(
    candidates: Seq<(ProcessId, u8)>,
    waiters: Seq<(u8, ProcessId)>,
    level: u8,
    pid: ProcessId,
) -> bool {
    exists|k: int|
        0 <= k < candidates.len() && (#[trigger] candidates[k]).0 == pid && effective(
            waiters,
            pid,
            candidates[k].1,
        ) == level
}

/// Every process at a level is a candidate with that effective priority.
pub proof fn lemma_at_level(
    candidates: Seq<(ProcessId, u8)>,
    waiters: Seq<(u8, ProcessId)>,
    level: u8,
)
    ensures
        at_level(candidates, waiters, level).len() <= candidates.len(),
        forall|m: int|
            0 <= m < at_level(candidates, waiters, level).len() ==> candidate_at(
                candidates,
                waiters,
                level,
                #[trigger] at_level(candidates, waiters, level)[m],
            ),
    decreases candidates.len(),
{
    if candidates.len() > 0 {
        let init = candidates.drop_last();
        lemma_at_level(init, waiters, level);
        let rest = at_level(init, waiters, level);
        let all = at_level(candidates, waiters, level);
        assert forall|m: int| 0 <= m < all.len() implies candidate_at(
            candidates,
            waiters,
            level,
            #[trigger] all[m],
        ) by {
            if m < rest.len() {
                assert(candidate_at(init, waiters, level, rest[m]));
                let k = choose|k: int|
                    0 <= k < init.len() && (#[trigger] init[k]).0 == rest[m] && effective(
                        waiters,
                        rest[m],
                        init[k].1,
                    ) == level;
                assert(candidates[k] == init[k]);
            } else {
                assert(candidates[candidates.len() - 1].0 == all[m]);
            }
        }
    }
}

/// Every candidate with a given effective priority is at that level.
pub proof fn lemma_at_level_complete(
    candidates: Seq<(ProcessId, u8)>,
    waiters: Seq<(u8, ProcessId)>,
    level: u8,
    k: int,
) -> (m: int)
    requires
        0 <= k < candidates.len(),
        effective(waiters, candidates[k].0, candidates[k].1) == level,
    ensures
        0 <= m < at_level(candidates, waiters, level).len(),
        at_level(candidates, waiters, level)[m] == candidates[k].0,
    decreases candidates.len(),
{
    let init = candidates.drop_last();
    if k < init.len() {
        assert(init[k] == candidates[k]);
        lemma_at_level_complete(init, waiters, level, k)
    } else {
        at_level(init, waiters, level).len() as int
    }
}

/// Different candidates are different entries of a level.
pub proof fn lemma_at_level_distinct(
    candidates: Seq<(ProcessId, u8)>,
    waiters: Seq<(u8, ProcessId)>,
    level: u8,
)
    requires
        forall|a: int, b: int|
            0 <= a < b < candidates.len() ==> (#[trigger] candidates[a]).0 != (
            #[trigger] candidates[b]).0,
    ensures
        at_level(candidates, waiters, level).no_duplicates(),
    decreases candidates.len(),
{
    if candidates.len() > 0 {
        let init = candidates.drop_last();
        assert forall|a: int, b: int| 0 <= a < b < init.len() implies (#[trigger] init[a]).0 != (
        #[trigger] init[b]).0 by {
            assert(init[a] == candidates[a] && init[b] == candidates[b]);
        }
        lemma_at_level_distinct(init, waiters, level);
        lemma_at_level(init, waiters, level);
        let rest = at_level(init, waiters, level);
        assert forall|m: int| 0 <= m < rest.len() implies #[trigger] rest[m]
            != candidates.last().0 by {
            assert(candidate_at(init, waiters, level, rest[m]));
            let k = choose|k: int|
                0 <= k < init.len() && (#[trigger] init[k]).0 == rest[m] && effective(
                    waiters,
                    rest[m],
                    init[k].1,
                ) == level;
            assert(candidates[k] == init[k]);
        }
    }
}

/// The process that is picked exists and is runnable.
pub proof fn lemma_pick_runnable(
    slots: crate::process::table::Slots,
    next_pid: u32,
    queue_index: usize,
)
    requires
        crate::process::table::pids_distinct(slots, next_pid),
        pick(slots, queue_index) is Some,
    ensures
        crate::process::table::has_process(slots, (pick(slots, queue_index)->0).0),
        crate::process::table::runnable(
            crate::process::table::lookup(slots, (pick(slots, queue_index)->0).0),
        ),
{
    let candidates = crate::process::table::ready_priorities(slots);
    let rt = crate::process::table::ready_deadlines(slots);
    let waiters = crate::process::table::blocked_waiters(slots);
    let pid = (pick(slots, queue_index)->0).0;
    if rt.len() > 0 {
        lemma_earliest(rt);
        let i = crate::process::table::lemma_collect_source(
            slots,
            |p: ProcessControlBlock|
                if crate::process::table::runnable(p) && p.rt_period > 0 {
                    Some((p.pid, p.rt_deadline))
                } else {
                    None
                },
            earliest(rt),
        );
        crate::process::table::lemma_slot_unique(slots, next_pid, i, pid);
    } else {
        let best = best_level(candidates, waiters);
        let level = at_level(candidates, waiters, best);
        lemma_best_level(candidates, waiters);
        lemma_at_level(candidates, waiters, best);
        let idx = if queue_index < level.len() {
            queue_index as int
        } else {
            0
        };
        assert(candidate_at(candidates, waiters, best, level[idx]));
        let k = choose|k: int|
            0 <= k < candidates.len() && (#[trigger] candidates[k]).0 == level[idx] && effective(
                waiters,
                level[idx],
                candidates[k].1,
            ) == best;
        let i = crate::process::table::lemma_collect_source(
            slots,
            |p: ProcessControlBlock|
                if crate::process::table::runnable(p) {
                    Some((p.pid, p.priority))
                } else {
                    None
                },
            k,
        );
        crate::process::table::lemma_slot_unique(slots, next_pid, i, pid);
    }
}

/// First entry with the earliest deadline.
fn earliest_deadline(rt: &ProcList<(ProcessId, u64)>) -> (r: ProcessId)
    requires
        rt@.len() > 0,
    ensures
        r == rt@[earliest(rt@)].0,
{
    let mut best: usize = 0;
    let mut i: usize = 1;
    assert(rt@.take(1).len() == 1);
    while i < rt.len()
        invariant
            1 <= i <= rt@.len(),
            best < i,
            best == earliest(rt@.take(i as int)),
        decreases rt@.len() - i,
    {
        assert(rt@.take(i + 1).drop_last() =~= rt@.take(i as int));
        if rt.get(i).1 < rt.get(best).1 {
            best = i;
        }
        i = i + 1;
    }
    assert(rt@.take(rt@.len() as int) =~= rt@);
    rt.get(best).0
}

/// Priority of `pid` after inheritance.
fn effective_priority(waiters: &ProcList<(u8, ProcessId)>, pid: ProcessId, natural: u8) -> (r: u8)
    ensures
        r == effective(waiters@, pid, natural),
{
    let mut best: u8 = natural;
    let mut i: usize = 0;
    while i < waiters.len()
        invariant
            i <= waiters@.len(),
            best == effective(waiters@.take(i as int), pid, natural),
        decreases waiters@.len() - i,
    {
        assert(waiters@.take(i + 1).drop_last() =~= waiters@.take(i as int));
        let (donated, target) = waiters.get(i);
        if target == pid && donated < best {
            best = donated;
        }
        i = i + 1;
    }
    assert(waiters@.take(waiters@.len() as int) =~= waiters@);
    best
}

/// Picks the next process to run and the round-robin position afterwards.
pub fn pick_next(table: &ProcessTable, queue_index: usize) -> (r: Option<(ProcessId, usize)>)
    requires
        table.wf(),
    ensures
        r == pick(table.processes@, queue_index),
{
    let candidates = table.get_ready_with_priority();
    if candidates.is_empty() {
        return None;
    }
    let rt = table.get_ready_realtime();
    if !rt.is_empty() {
        return Some((earliest_deadline(&rt), queue_index));
    }
    let waiters = table.get_blocked_waiters();
    let mut min_prio: u8 = 255;
    let mut i: usize = 0;
    while i < candidates.len()
        invariant
            i <= candidates@.len(),
            min_prio == best_level(candidates@.take(i as int), waiters@),
        decreases candidates@.len() - i,
    {
        assert(candidates@.take(i + 1).drop_last() =~= candidates@.take(i as int));
        let (pid, natural) = candidates.get(i);
        let e: u8 = effective_priority(&waiters, pid, natural);
        if e < min_prio {
            min_prio = e;
        }
        i = i + 1;
    }
    assert(candidates@.take(candidates@.len() as int) =~= candidates@);
    let mut level: ProcList<ProcessId> = ProcList::new();
    let mut k: usize = 0;
    while k < candidates.len()
        invariant
            candidates.wf(),
            k <= candidates@.len(),
            level@.len() <= k,
            level.wf(),
            level@ == at_level(candidates@.take(k as int), waiters@, min_prio),
        decreases candidates@.len() - k,
    {
        assert(candidates@.take(k + 1).drop_last() =~= candidates@.take(k as int));
        let (pid, natural) = candidates.get(k);
        if effective_priority(&waiters, pid, natural) == min_prio {
            level.push(pid);
        }
        k = k + 1;
    }
    proof {
        lemma_best_level(candidates@, waiters@);
    }
    let idx: usize = if queue_index >= level.len() {
        0
    } else {
        queue_index
    };
    assert(MAX_PROCESSES == 32);
    Some((level.get(idx), (idx + 1) % level.len()))
}

} // verus!
