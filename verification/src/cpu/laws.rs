//! What holds of system calls as a whole.

use vstd::prelude::*;

use crate::cpu::mapping;
use crate::cpu::syscall::{
    self, Reply, EAGAIN, EINVAL, ENOSYS, ETIMEDOUT, SYS_CALL, SYS_LOOKUP, SYS_LOOKUP_CAP, SYS_RECV_MSG,
    SYS_REGISTER, SYS_RESTART_SERVER, SYS_SEND_CAP, SYS_SEND_MSG, SYS_SPAWN_ELF,
};
use crate::cpu::user_memory::MESSAGE_SIZE;
use crate::elf_spawn::Programs;
use crate::interrupts::handlers;
use crate::ipc::Message;
use crate::kernel::Kernel;
use crate::memory::laws;
use crate::memory::paging::{self, KernelSpace, PTE_ADDR_MASK, PTE_PRESENT};
use crate::memory::ram::Ram;
use crate::memory::FrameKind;
use crate::process::laws as process_laws;
use crate::process::pcb::Capability;
use crate::process::table;
use crate::process::ProcessId;
use crate::scheduler::laws as scheduler_laws;
use crate::scheduler::round_robin::{self, SwitchTarget};

verus! {

/// A number that names no system call gives `ENOSYS` and changes nothing.
pub proof fn law_unknown_call_changes_nothing(
    before: Kernel,
    after: Kernel,
    user_before: Ram,
    user_after: Ram,
    p: Programs,
    number: u64,
    a0: u64,
    a1: u64,
    a2: u64,
    a3: u64,
    r: Reply,
)
    requires
        number > SYS_LOOKUP_CAP,
        number != SYS_SPAWN_ELF,
        number != SYS_RESTART_SERVER,
        syscall::dispatched(before, after, user_before, user_after, p, number, a0, a1, a2, a3, r),
    ensures
        r == Reply::Value(ENOSYS),
        after == before,
        user_after == user_before,
{
}

/// The buffer that a system call reads or writes lies outside user space, is
/// null or is not aligned.
pub open spec fn invalid_buffer(number: u64, a0: u64, a1: u64, a2: u64) -> bool {
    if number == SYS_RECV_MSG || number == SYS_SEND_MSG || number == SYS_SEND_CAP {
        !syscall::message_buffer(a1)
    } else if number == SYS_CALL {
        !syscall::message_buffer(a1) || !syscall::message_buffer(a2)
    } else if number == SYS_REGISTER || number == SYS_LOOKUP || number == SYS_LOOKUP_CAP
        || number == SYS_RESTART_SERVER {
        !syscall::name_buffer(a0)
    } else if number == SYS_SPAWN_ELF {
        !crate::cpu::user_memory::user_range(a0, a1, 1)
    } else {
        false
    }
}

/// A system call with an invalid buffer gives `EINVAL` and changes nothing, so
/// that no process can make the kernel read or write kernel memory for it.
pub proof fn law_invalid_buffer_changes_nothing(
    before: Kernel,
    after: Kernel,
    user_before: Ram,
    user_after: Ram,
    p: Programs,
    number: u64,
    a0: u64,
    a1: u64,
    a2: u64,
    a3: u64,
    r: Reply,
)
    requires
        invalid_buffer(number, a0, a1, a2),
        syscall::dispatched(before, after, user_before, user_after, p, number, a0, a1, a2, a3, r),
    ensures
        r == Reply::Value(EINVAL),
        after == before,
        user_after == user_before,
{
}

/// Storing words leaves the bytes around them alone.
proof fn lemma_words_bytes(m: Ram, addr: int, ws: Seq<u64>, x: int)
    requires
        x < addr || addr + 8 * ws.len() <= x,
    ensures
        crate::memory::ram::with_words(m, addr, ws).byte(x) == m.byte(x),
        crate::memory::ram::with_words(m, addr, ws).base == m.base,
        crate::memory::ram::with_words(m, addr, ws).bytes.len() == m.bytes.len(),
    decreases ws.len(),
{
    if ws.len() > 0 {
        lemma_words_bytes(m, addr, ws.drop_last(), x);
    }
}

/// A system call writes to user memory only where the caller asked for a
/// message: at the second argument of a receive, at the third of a call.
pub proof fn law_call_writes_only_its_buffer(
    before: Kernel,
    after: Kernel,
    user_before: Ram,
    user_after: Ram,
    p: Programs,
    number: u64,
    a0: u64,
    a1: u64,
    a2: u64,
    a3: u64,
    r: Reply,
    x: int,
)
    requires
        syscall::dispatched(before, after, user_before, user_after, p, number, a0, a1, a2, a3, r),
        number == SYS_RECV_MSG ==> x < a1 || a1 + MESSAGE_SIZE <= x,
        number == SYS_CALL ==> x < a2 || a2 + MESSAGE_SIZE <= x,
    ensures
        user_after.byte(x) == user_before.byte(x),
{
    if number == SYS_RECV_MSG && user_after != user_before {
        let got = choose|got: Option<crate::ipc::Message>|
            {
                &&& #[trigger] syscall::received(before, after, a0, got)
                &&& user_after == syscall::delivered_at(user_before, a1, got)
            };
        lemma_words_bytes(
            user_before,
            a1 as int,
            crate::cpu::user_memory::message_words(got->0),
            x,
        );
    }
    if number == SYS_CALL && user_after != user_before {
        let (middle, code) = choose|middle: Kernel, code: u64|
            {
                &&& #[trigger] syscall::buffer_sent(
                    before,
                    middle,
                    user_before,
                    ProcessId(a0 as u32),
                    a1,
                    EAGAIN,
                    code,
                )
                &&& code != EAGAIN
                &&& syscall::awaited(
                    middle,
                    after,
                    user_before,
                    user_after,
                    ProcessId(a0 as u32),
                    a2,
                    a3,
                    r,
                )
            };
        let got = choose|got: Option<crate::ipc::Message>|
            {
                &&& #[trigger] syscall::received(middle, after, syscall::call_timeout(a3), got)
                &&& got is Some
                &&& user_after == syscall::delivered_at(user_before, a2, got)
            };
        lemma_words_bytes(
            user_before,
            a2 as int,
            crate::cpu::user_memory::message_words(got->0),
            x,
        );
    }
}

// ── Synchronous calls ────────────────────────────────────────────────────────
/// The states of a call that blocks: its message was delivered, and nothing but
/// the state and deadline of the caller has changed since.
proof fn lemma_call_blocks(
    before: Kernel,
    after: Kernel,
    user_before: Ram,
    user_after: Ram,
    to: u64,
    buf: u64,
    reply: u64,
    ticks: u64,
    r: Reply,
) -> (found: (Kernel, Message))
    requires
        before.wf(),
        syscall::called(before, after, user_before, user_after, to, buf, reply, ticks, r),
        r is Blocked,
    ensures
        before.scheduling(),
        before.sched().has(before.current()),
        before.current() != ProcessId(to as u32),
        found.0.current() == before.current(),
        table::pids_distinct(found.0.sched().slots(), found.0.sched().process_table.next_pid),
        found.0.sched().has(before.current()),
        found.0.sched().pcb(before.current()).mailbox@.len() == 0,
        round_robin::message_sent(
            before.sched(),
            found.0.sched(),
            before.current(),
            ProcessId(to as u32),
            found.1,
            true,
        ),
        !table::transitively_waits(
            found.0.sched().slots(),
            ProcessId(to as u32),
            before.current(),
        ),
        syscall::received(found.0, after, syscall::call_timeout(ticks), None),
        r == (Reply::Blocked {
            reply,
            deadline: syscall::wait_deadline(found.0.sched().tick, ticks),
        }),
{
    let me = before.current();
    let target = ProcessId(to as u32);
    let (middle, code) = choose|middle: Kernel, code: u64|
        {
            &&& #[trigger] syscall::buffer_sent(
                before,
                middle,
                user_before,
                target,
                buf,
                EAGAIN,
                code,
            )
            &&& code != EAGAIN
            &&& syscall::awaited(
                middle,
                after,
                user_before,
                user_after,
                target,
                reply,
                ticks,
                r,
            )
        };
    let msg = choose|msg: Message| #[trigger]
        syscall::sent(before, middle, target, msg, EAGAIN, code);
    let s = before.sched();
    let charged = round_robin::slots_charged(s.slots(), me, target);
    if !s.has(me) {
        // A PID without a process gets none by sending.
        let i = table::slot_of(middle.sched().slots(), me);
        assert(table::holds(middle.sched().slots(), i, me));
        let t = table::slot_of(s.slots(), target);
        assert(table::holds(s.slots(), t, target));
        assert(table::holds(s.slots(), i, me));
    }
    if me == target {
        // A message to oneself is there already.
        let k = table::slot_of(s.slots(), me);
        assert(table::holds(s.slots(), k, me));
        assert(table::pids_distinct(charged, s.process_table.next_pid));
        assert(table::holds(charged, k, me));
        table::lemma_slot_unique(charged, s.process_table.next_pid, k, me);
        assert(middle.sched().pcb(me).mailbox@.len() > 0);
    }
    scheduler_laws::lemma_waits_after_send(s, middle.sched(), me, target, msg);
    (middle, msg)
}

/// A call that blocks closes no cycle of waits: its caller does not wait for
/// itself, and if nobody did before the call, nobody does now.
pub proof fn law_call_closes_no_cycle(
    before: Kernel,
    after: Kernel,
    user_before: Ram,
    user_after: Ram,
    to: u64,
    buf: u64,
    reply: u64,
    ticks: u64,
    r: Reply,
)
    requires
        before.wf(),
        after.wf(),
        syscall::called(before, after, user_before, user_after, to, buf, reply, ticks, r),
        r is Blocked,
    ensures
        after.sched().has(before.current()),
        after.sched().pcb(before.current()).state is Blocked,
        after.sched().pcb(before.current()).waiting_for == Some(ProcessId(to as u32)),
        !table::transitively_waits(after.sched().slots(), before.current(), before.current()),
        process_laws::acyclic(before.sched().slots()) ==> process_laws::acyclic(
            after.sched().slots(),
        ),
{
    let me = before.current();
    let target = ProcessId(to as u32);
    let (middle, msg) = lemma_call_blocks(
        before,
        after,
        user_before,
        user_after,
        to,
        buf,
        reply,
        ticks,
        r,
    );
    scheduler_laws::lemma_waits_after_send(before.sched(), middle.sched(), me, target, msg);
    let m = middle.sched().slots();
    let s = after.sched().slots();
    let next_pid = middle.sched().process_table.next_pid;
    let k = table::slot_of(m, me);
    assert(table::holds(m, k, me));
    assert(table::holds(s, k, me));
    table::lemma_slot_unique(s, next_pid, k, me);
    assert forall|q: ProcessId| #[trigger] table::waits_for(s, q) == table::waits_for(m, q) by {
        if table::has_process(s, q) {
            let i = table::slot_of(s, q);
            assert(table::holds(s, i, q));
            assert(table::holds(m, i, q));
            table::lemma_slot_unique(m, next_pid, i, q);
        } else if table::has_process(m, q) {
            let i = table::slot_of(m, q);
            assert(table::holds(m, i, q));
            assert(table::holds(s, i, q));
        }
    }
    assert(!table::transitively_waits(s, target, me)) by {
        if table::transitively_waits(s, target, me) {
            let n = choose|n: nat|
                n >= 1 && #[trigger] table::wait_chain(s, target, n) == Some(me);
            process_laws::lemma_same_chain(m, s, target, n);
            assert(table::wait_chain(m, target, n) == Some(me));
        }
    }
    process_laws::lemma_new_wait(before.sched().slots(), s, me, target);
}

/// A message that arrives while a call is blocked ends the call: when the caller
/// runs again it gets 0 and that message, with the true sender, in its buffer.
pub proof fn law_reply_ends_the_call(
    before: Kernel,
    blocked: Kernel,
    user_before: Ram,
    user_blocked: Ram,
    to: u64,
    buf: u64,
    reply: u64,
    ticks: u64,
    deadline: u64,
    from: ProcessId,
    msg: Message,
    answered: Kernel,
    after: Kernel,
    user_answered: Ram,
    user_after: Ram,
    r: Reply,
)
    requires
        before.wf(),
        blocked.wf(),
        answered.wf(),
        syscall::called(
            before,
            blocked,
            user_before,
            user_blocked,
            to,
            buf,
            reply,
            ticks,
            (Reply::Blocked { reply, deadline }),
        ),
        answered.scheduling(),
        answered.current() == before.current(),
        round_robin::message_sent(
            blocked.sched(),
            answered.sched(),
            from,
            before.current(),
            msg,
            true,
        ),
        syscall::call_resumed(
            answered,
            after,
            user_answered,
            user_after,
            reply,
            deadline,
            r,
        ),
    ensures
        r == Reply::Value(0),
        user_after == syscall::delivered_at(
            user_answered,
            reply,
            Some(Message { sender: from, ..msg }),
        ),
{
    let me = before.current();
    let (middle, _sent) = lemma_call_blocks(
        before,
        blocked,
        user_before,
        user_blocked,
        to,
        buf,
        reply,
        ticks,
        Reply::Blocked { reply, deadline },
    );
    let m = middle.sched().slots();
    let s = blocked.sched().slots();
    let k = table::slot_of(m, me);
    assert(table::holds(m, k, me));
    assert(table::holds(s, k, me));
    table::lemma_slot_unique(s, blocked.sched().process_table.next_pid, k, me);
    scheduler_laws::lemma_delivered(blocked.sched(), answered.sched(), from, me, msg);
}

/// A blocked call times out exactly when its caller runs at or after the
/// deadline and no message has come: never without a deadline, and never before.
pub proof fn law_call_times_out_at_its_deadline(
    before: Kernel,
    after: Kernel,
    user_before: Ram,
    user_after: Ram,
    reply: u64,
    deadline: u64,
    r: Reply,
)
    requires
        before.scheduling(),
        before.sched().has(before.current()),
        syscall::message_buffer(reply),
        syscall::call_resumed(before, after, user_before, user_after, reply, deadline, r),
    ensures
        r == Reply::Value(ETIMEDOUT) <==> (!syscall::answered(before) && deadline != u64::MAX
            && deadline <= before.sched().tick),
        r == Reply::Value(ETIMEDOUT) ==> after == before && user_after == user_before,
{
}

// ── Exit ─────────────────────────────────────────────────────────────────────
/// When a process exits, the frames it was loaded into are free, and no other
/// frame is touched.
pub proof fn law_exit_frees_the_program(before: Kernel, after: Kernel)
    requires
        before.wf(),
        before.scheduling(),
        syscall::exited(before, after),
    ensures
        paging::freed_exactly(
            before.mem@,
            after.mem@,
            round_robin::frames_of(before.sched(), before.current()),
        ),
        !after.sched().has(before.current()),
{
    paging::lemma_gave_back(
        before.mem,
        after.mem,
        round_robin::frames_of(before.sched(), before.current()),
    );
}

/// When a process is ended because of a fault, the frames it was loaded into are
/// free, and no other frame is touched.
pub proof fn law_fault_frees_the_program(
    before: Kernel,
    after: Kernel,
    fault_code: u64,
    target: Option<SwitchTarget>,
)
    requires
        before.wf(),
        before.scheduling(),
        handlers::process_faulted(before, after, fault_code, target),
    ensures
        paging::freed_exactly(
            before.mem@,
            after.mem@,
            round_robin::frames_of(before.sched(), before.current()),
        ),
{
    paging::lemma_gave_back(
        before.mem,
        after.mem,
        round_robin::frames_of(before.sched(), before.current()),
    );
}

// ── Mapping ──────────────────────────────────────────────────────────────────
/// Flags of mappings say present and hold no address bits; they say writable (2)
/// and for users (4) as asked, and never forbid execution (the top bit).
pub proof fn lemma_mapping_flags(writable: bool, user: bool)
    ensures
        mapping::mapping_flags(writable, user) & PTE_PRESENT != 0,
        mapping::mapping_flags(writable, user) & PTE_ADDR_MASK == 0,
        mapping::mapping_flags(writable, user) & 0x2 != 0 <==> writable,
        mapping::mapping_flags(writable, user) & 0x4 != 0 <==> user,
        mapping::mapping_flags(writable, user) & 0x8000_0000_0000_0000 == 0,
{
    assert(0x1u64 | 0x2 == 0x3 && 0x1u64 | 0x2 | 0x4 == 0x7 && 0x1u64 | 0x4 == 0x5) by (bit_vector);
    assert(forall|v: u64|
        (v == 0x1 || v == 0x3 || v == 0x5 || v == 0x7) ==> #[trigger] (v & 0x1) != 0 && v
            & 0x000F_FFFF_FFFF_F000 == 0 && (v & 0x2 != 0 <==> v == 0x3 || v == 0x7) && (v & 0x4 != 0
            <==> v == 0x5 || v == 0x7) && v & 0x8000_0000_0000_0000 == 0) by (bit_vector);
}

/// Taking a frame for a user keeps the address space sound.
pub proof fn lemma_user_frame(s: KernelSpace, root: u64)
    requires
        laws::kernel_ok(s, root),
        mapping::user_frame(s) is Some,
    ensures
        ({
            let (p, t) = mapping::user_frame(s)->0;
            &&& laws::kernel_ok(t, root)
            &&& t.ram == s.ram
            &&& laws::spare(s, p)
            &&& p % 4096 == 0
            &&& p <= PTE_ADDR_MASK
        }),
{
    let (p, t) = mapping::user_frame(s)->0;
    let taken = (s.take_frame()->0).1;
    laws::lemma_take_frame(s);
    assert(laws::fresh(s.ram, root, p));
    assert(taken.frames.tagged(p, FrameKind::UserOwned).tags.len() == taken.frames.tags.len());
    assert forall|f: u64| #[trigger] laws::in_free(t.frames, f) implies laws::in_free(
        taken.frames,
        f,
    ) by {
        let j = choose|j: int|
            0 <= j < t.frames.free.len() && #[trigger] t.frames.free[j] && t.frames.addr(j) == f && f
                < t.frames.end;
        assert(taken.frames.free[j]);
    }
    assert forall|f: u64| #[trigger] laws::spare(t, f) implies laws::fresh(t.ram, root, f) by {
        assert(laws::spare(taken, f));
        assert(laws::spare(s, f));
    }
}

/// Mapping a page for the caller moves no other page of its address space, and
/// so none outside user space. If the call succeeds, the page is at the given
/// frame, or at one that was free.
pub proof fn law_map_call_moves_no_other_page(
    before: Kernel,
    after: Kernel,
    vaddr: u64,
    paddr: u64,
    flags: u64,
    r: u64,
    other: u64,
)
    requires
        laws::kernel_ok(before.mem@, before.current_pml4()),
        mapping::page_mapped(before, after, vaddr, paddr, flags, r),
        paddr <= PTE_ADDR_MASK,
    ensures
        ({
            let root = before.current_pml4();
            let old_at = paging::translated(before.mem@.ram, root, other);
            let new_at = paging::translated(after.mem@.ram, root, other);
            &&& laws::kernel_ok(after.mem@, root)
            &&& !laws::same_page(other, vaddr) ==> new_at == old_at
            &&& paging::pml4_index(other) >= 256 ==> new_at == old_at
            &&& r == 0 && other == vaddr ==> new_at is Some && if paddr != 0 {
                new_at->0 == paddr
            } else {
                laws::spare(before.mem@, new_at->0)
            }
        }),
{
    let root = before.current_pml4();
    let pte = mapping::mapping_flags(flags & 1 != 0, flags & 2 != 0);
    lemma_mapping_flags(flags & 1 != 0, flags & 2 != 0);
    if crate::cpu::user_memory::user_page(vaddr) && paddr % 4096 == 0
        && !mapping::quota_exhausted(before) {
        assert(vaddr / 0x80_0000_0000 < 256);
        if paddr != 0 {
            if before.scheduling() {
                laws::law_map_page_global_translates(before.mem@, root, vaddr, paddr, pte, other);
                laws::lemma_page_target(paddr, vaddr);
            }
        } else if mapping::user_frame(before.mem@) is Some {
            let (p, m) = mapping::user_frame(before.mem@)->0;
            lemma_user_frame(before.mem@, root);
            laws::lemma_page_target(p, vaddr);
            laws::law_map_page_global_translates(m, root, vaddr, p, pte, other);
        }
    }
}

/// Whoever holds the capability of a shared frame and maps it gets that frame.
///
/// Capabilities can name the frames below 16 TB.
pub proof fn law_capability_maps_its_frame(
    before: Kernel,
    after: Kernel,
    vaddr: u64,
    slot: u64,
    flags: u64,
    r: u64,
    phys: u64,
    rights: u8,
)
    requires
        laws::kernel_ok(before.mem@, before.current_pml4()),
        mapping::cap_mapped(before, after, vaddr, slot, flags, r),
        syscall::own_cap(before, slot) == Some(
            Capability { rights, ..mapping::frame_cap(phys) },
        ),
        phys % 4096 == 0,
        phys / 4096 <= u32::MAX,
        r == 0,
    ensures
        paging::translated(after.mem@.ram, before.current_pml4(), vaddr) == Some(phys),
{
    let root = before.current_pml4();
    let cap = syscall::own_cap(before, slot)->0;
    let writable = flags & 1 != 0 && cap.rights & crate::process::pcb::CAP_W != 0;
    lemma_mapping_flags(writable, true);
    assert(cap.object_id * 4096 == phys);
    laws::lemma_page_target(phys, vaddr);
    laws::law_map_page_global_translates(
        before.mem@,
        root,
        vaddr,
        phys,
        mapping::mapping_flags(writable, true),
        vaddr,
    );
}

} // verus!
