//! Which system call a number names, and what every call needs.

use vstd::prelude::*;

use crate::cpu::mapping;
use crate::cpu::syscall::{self, Reply};
use crate::elf_spawn::Programs;
use crate::kernel::Kernel;
use crate::memory::ram::Ram;
use crate::process::table;
use crate::process::ProcessId;
use crate::scheduler::effects;
use crate::scheduler::round_robin;

verus! {

/// Every number leads to its own call, with the arguments in their order. The
/// calls that talk to the serial port leave that to the caller of the kernel, and
/// take the byte from the low end of the first argument.
pub proof fn law_numbers_lead_to_their_calls(
    before: Kernel,
    after: Kernel,
    user_before: Ram,
    user_after: Ram,
    p: Programs,
    number: u64,
    a0: u64,
    a1: u64,
    a2: u64,
    a3: u64,
    r: Reply,
)
    requires
        syscall::dispatched(before, after, user_before, user_after, p, number, a0, a1, a2, a3, r),
    ensures
        number != 6 && number != 17 ==> user_after == user_before,
        number != 12 && number != 13 && number != 17 ==> r is Value,
        number == 0 ==> syscall::yielded(before, after) && r == Reply::Value(0),
        number == 1 ==> syscall::exited(before, after) && r == Reply::Value(a0),
        number == 3 ==> syscall::words_sent(before, after, a0, a1, a2, r->Value_0),
        number == 4 ==> syscall::word_received(before, after, a0, r->Value_0),
        number == 5 ==> syscall::notified(before, after, a0, a1, r->Value_0),
        number == 6 ==> syscall::message_fetched(
            before,
            after,
            user_before,
            user_after,
            a0,
            a1,
            r->Value_0,
        ),
        number == 7 ==> syscall::message_posted(before, after, user_before, a0, a1, r->Value_0),
        number == 8 ==> syscall::spawned(before, after, a0, a1, a2, r->Value_0),
        number == 9 ==> mapping::page_mapped(before, after, a0, a1, a2, r->Value_0),
        number == 10 ==> syscall::name_registered(before, after, user_before, a0, r->Value_0),
        number == 11 ==> r->Value_0 == syscall::name_looked_up(before, user_before, a0),
        number == 12 ==> after == before && r is UartWrite && (a0 <= 255 ==> r->UartWrite_0 == a0),
        number == 13 ==> after == before && r is UartRead,
        number == 17 ==> syscall::called(
            before,
            after,
            user_before,
            user_after,
            a0,
            a1,
            a2,
            a3,
            r,
        ),
        number == 18 ==> syscall::granted(before, after, a0, a1, r->Value_0),
        number == 20 ==> syscall::channel_bound(before, after, a0, a1, r->Value_0),
        number == 21 ==> syscall::sent_by_cap(before, after, user_before, a0, a1, r->Value_0),
        number == 22 ==> mapping::page_shared(before, after, a0, a1, r->Value_0),
        number == 23 ==> mapping::cap_mapped(before, after, a0, a1, a2, r->Value_0),
        number == 24 ==> syscall::service_channel(before, after, user_before, a0, r->Value_0),
        number == 26 ==> syscall::program_requested(
            before,
            after,
            user_before,
            p,
            a0,
            a1,
            a2,
            r->Value_0,
        ),
        number == 27 ==> syscall::restart_requested(before, after, user_before, p, a0, r->Value_0),
{
}

/// Before there is a scheduler, the calls that need one give the largest value and
/// change nothing.
pub proof fn law_without_scheduler_nothing_happens(
    before: Kernel,
    after: Kernel,
    user_before: Ram,
    user_after: Ram,
    p: Programs,
    number: u64,
    a0: u64,
    a1: u64,
    a2: u64,
    a3: u64,
    r: Reply,
)
    requires
        !before.scheduling(),
        number == 3 || number == 4 || number == 5 || number == 8 || number == 15 || number == 16
            || number == 19,
        syscall::dispatched(before, after, user_before, user_after, p, number, a0, a1, a2, a3, r),
    ensures
        r == Reply::Value(0xFFFF_FFFF_FFFF_FFFF),
        after == before,
        user_after == user_before,
{
}

/// A message buffer is 72 bytes, and a name buffer 16: all of them lie above
/// address 0 in the lower half of the address space. Messages are aligned to
/// words.
pub proof fn law_buffers_lie_in_user_space(buf: u64)
    ensures
        syscall::message_buffer(buf) <==> 0 < buf && buf % 8 == 0 && buf + 72 <= 0x8000_0000_0000,
        syscall::name_buffer(buf) <==> 0 < buf && buf + 16 <= 0x8000_0000_0000,
{
}

/// A caller that is woken too early from a blocked call is blocked again until the
/// very same deadline.
pub proof fn law_deadline_of_a_call_stays(
    before: Kernel,
    after: Kernel,
    user_before: Ram,
    user_after: Ram,
    reply: u64,
    deadline: u64,
    r: Reply,
)
    requires
        before.wf(),
        after.wf(),
        before.scheduling(),
        syscall::call_resumed(before, after, user_before, user_after, reply, deadline, r),
        r is Blocked,
    ensures
        r == (Reply::Blocked { reply, deadline }),
        user_after == user_before,
        after.sched().has(before.current()),
        after.sched().pcb(before.current()).state is Blocked,
        after.sched().pcb(before.current()).blocked_deadline == deadline,
{
    let me = before.current();
    let other = if me.0 == 0 {
        ProcessId(1)
    } else {
        ProcessId(0)
    };
    effects::law_receive_takes_or_blocks(
        before.sched(),
        after.sched(),
        me,
        syscall::ticks_left(before.sched().tick, deadline),
        None,
        other,
    );
}

/// A yield call ends the caller's quantum and changes nothing else: the process it
/// was, ready now, has used up its time slice, so that the next tick lets another
/// one run.
pub proof fn law_yield_call_ends_the_quantum(before: Kernel, after: Kernel, other: ProcessId)
    requires
        before.wf(),
        before.scheduling(),
        before.sched().current_process == Some(before.current()),
        before.sched().has(before.current()),
        before.sched().pcb(before.current()).state is Running,
        syscall::yielded(before, after),
        other != before.current(),
    ensures
        ({
            let b = before.sched().pcb(before.current());
            let q = after.sched().pcb(before.current());
            &&& after.sched().has(before.current())
            &&& q.cpu_time == b.time_slice
            &&& q.state is Ready
            &&& q.mailbox == b.mailbox && q.priority == b.priority && q.total_cpu_ticks
                == b.total_cpu_ticks
        }),
        after.sched().has(other) == before.sched().has(other),
        before.sched().has(other) ==> after.sched().pcb(other) == before.sched().pcb(other),
        after.mem == before.mem,
        after.current() == before.current(),
{
    let s = before.sched();
    let c = before.current();
    effects::lemma_own_pid(s.slots(), c);
    effects::lemma_block_replaced(
        s.slots(),
        s.process_table.next_pid,
        c,
        round_robin::quantum_given_up(s.pcb(c)),
        other,
    );
}

/// Creating a process fails only for want of a slot in the process table or of a
/// kernel stack.
pub proof fn law_creation_fails_only_when_full(
    before: round_robin::Scheduler,
    after: round_robin::Scheduler,
    entry: u64,
    stack_top: u64,
    pml4: u64,
    trampoline: u64,
    ring3: bool,
    i: int,
)
    requires
        ring3 ==> round_robin::ring3_added(before, after, entry, stack_top, pml4, trampoline, None),
        !ring3 ==> round_robin::process_added(before, after, entry, pml4, None),
    ensures
        after == before,
        before.process_table.stacks.reclaim@.len() == 0 && before.process_table.stacks.next >= 32
            || (0 <= i < before.slots().len() ==> before.slots()[i] is Some),
{
    if table::all_taken(before.slots()) {
        if 0 <= i < before.slots().len() {
            assert(before.slots()[i] is Some);
        }
    }
}

/// Whoever registers as the serial driver, `uart-drv`, gets the bytes of the serial
/// port from then on; registering under any other name changes nothing about that,
/// and neither does an attempt that fails.
pub proof fn law_serial_driver_gets_the_port(
    before: Kernel,
    after: Kernel,
    user: Ram,
    buf: u64,
    r: u64,
)
    requires
        syscall::name_registered(before, after, user, buf, r),
    ensures
        ({
            let driver = seq![117u8, 97u8, 114u8, 116u8, 45u8, 100u8, 114u8, 118u8];
            &&& r == 0 && syscall::service_name(user, buf) == driver ==> after.uart_irq.pid
                == before.global.current_pid
            &&& r != 0 || syscall::service_name(user, buf) != driver ==> after.uart_irq.pid
                == before.uart_irq.pid
        }),
        r == 0 || r == 0xFFFF_FFFF_FFFF_FFFE,
{
    assert(crate::uart_irq::UART_DRV_NAME@ =~= seq![117u8, 97u8, 114u8, 116u8, 45u8, 100u8, 114u8, 118u8]);
}

/// A page is mapped unless there is a reason against it: with a valid address, an
/// aligned frame and quota left, the call fails only for want of memory, and then
/// counts nothing.
pub proof fn law_map_call_fails_only_without_memory(
    before: Kernel,
    after: Kernel,
    vaddr: u64,
    paddr: u64,
    flags: u64,
    r: u64,
)
    requires
        before.scheduling(),
        before.sched().has(before.current()),
        vaddr >= 4096,
        vaddr % 4096 == 0,
        vaddr + 4096 <= 0x8000_0000_0000,
        paddr % 4096 == 0,
        ({
            let p = before.sched().pcb(before.current());
            p.memory_quota_pages == 0 || p.memory_pages_used < p.memory_quota_pages
        }),
        mapping::page_mapped(before, after, vaddr, paddr, flags, r),
    ensures
        r == 0 || r == 0xFFFF_FFFF_FFFF_FFFC,
        r != 0 ==> after.sched() == before.sched(),
        paddr != 0 && before.mem@.mapped(
            before.current_pml4(),
            vaddr,
            paddr,
            mapping::mapping_flags(flags & 1 != 0, flags & 2 != 0),
        ).1 ==> r == 0,
{
}

/// A program that is started has the PID that the call gives back. A start that
/// fails gives the argument error, and so does memory that cannot be read.
pub proof fn law_start_gives_the_pid(
    before: Kernel,
    after: Kernel,
    user: Ram,
    p: Programs,
    a0: u64,
    a1: u64,
    a2: u64,
    r: u64,
)
    requires
        after.wf(),
        syscall::program_requested(before, after, user, p, a0, a1, a2, r)
            || syscall::restart_requested(before, after, user, p, a0, r),
    ensures
        r <= u32::MAX || r == 0xFFFF_FFFF_FFFF_FFFE,
        r <= u32::MAX ==> after.scheduling() && after.sched().has(ProcessId(r as u32)),
        r <= u32::MAX ==> before.scheduling() && r == before.sched().process_table.next_pid,
{
    if r <= u32::MAX {
        let (data, priority) = choose|data: Seq<u8>, priority: u8|
            #[trigger] crate::elf_spawn::program_started(
                before,
                after,
                data,
                priority,
                p.trampoline,
                Some(r as u32),
            );
        let pid = ProcessId(r as u32);
        let made = choose|made: Option<ProcessId>|
            #[trigger] crate::elf::elf_spawned(before, after, data, priority, p.trampoline, made)
                && Some(r as u32) == match made {
                Some(q) => Some(q.0),
                None => None,
            };
        assert(made == Some(pid));
        crate::elf_started::lemma_started_space(before, after, data, priority, p.trampoline, pid);
    }
}

// ── Refusals ─────────────────────────────────────────────────────────────────
/// A channel is refused with the argument error, and then nothing changes: if it
/// leads to process 0, or if the caller has no free slot for it. Otherwise the call
/// gives a slot.
pub proof fn law_channel_is_refused_only_when_full(
    before: Kernel,
    after: Kernel,
    target: u64,
    rights: u64,
    r: u64,
    i: int,
)
    requires
        before.scheduling(),
        before.sched().has(before.current()),
        syscall::channel_bound(before, after, target, rights, r),
        r >= 64,
        0 <= i < 64,
    ensures
        r == 0xFFFF_FFFF_FFFF_FFFE,
        after.sched().slots() == before.sched().slots(),
        target as u32 == 0 || !(before.sched().pcb(before.current()).cap_table@[i].kind is Empty),
{
    if target as u32 != 0 {
        let cap = crate::process::pcb::Capability {
            kind: crate::process::pcb::CapKind::Channel,
            rights: syscall::channel_rights(rights),
            object_id: target as u32,
        };
        let slot = choose|slot: Option<usize>|
            #[trigger] round_robin::cap_placed(
                before.sched(),
                after.sched(),
                before.current(),
                cap,
                slot,
            ) && r == syscall::slot_or(slot, syscall::EINVAL);
        crate::process::laws::law_capability_goes_to_the_lowest_free_slot(
            before.sched().process_table,
            after.sched().process_table,
            before.current(),
            cap,
            slot,
            i,
        );
    }
}

/// A message from a buffer is either sent, and the call gives 0, or refused with the
/// argument error. A call that cannot send gives the error for trying again
/// instead, and does not wait.
pub proof fn law_refused_messages_are_told(
    before: Kernel,
    after: Kernel,
    user_before: Ram,
    user_after: Ram,
    to: u64,
    buf: u64,
    reply: u64,
    ticks: u64,
    posted: u64,
    r: Reply,
)
    requires
        before.wf(),
        before.scheduling(),
        syscall::message_buffer(buf),
        syscall::message_buffer(reply),
        !before.sched().has(ProcessId(to as u32)),
        syscall::message_posted(before, after, user_before, to, buf, posted)
            || syscall::called(before, after, user_before, user_after, to, buf, reply, ticks, r),
    ensures
        syscall::message_posted(before, after, user_before, to, buf, posted) ==> posted
            == 0xFFFF_FFFF_FFFF_FFFE,
        syscall::called(before, after, user_before, user_after, to, buf, reply, ticks, r) ==> r
            == Reply::Value(0xFFFF_FFFF_FFFF_FFFB) && user_after == user_before,
        after.sched().slots() == before.sched().slots(),
{
}

/// Who calls somebody that waits, over however many others, for the caller, is told
/// so and is not blocked. A caller that is gone has timed out.
pub proof fn law_deadlock_is_told(
    before: Kernel,
    after: Kernel,
    user_before: Ram,
    user_after: Ram,
    to: ProcessId,
    reply: u64,
    ticks: u64,
    r: Reply,
)
    requires
        before.scheduling(),
        syscall::awaited(before, after, user_before, user_after, to, reply, ticks, r),
        before.sched().has(before.current()) ==> before.sched().pcb(
            before.current(),
        ).mailbox@.len() == 0,
    ensures
        before.sched().has(before.current()) && table::transitively_waits(
            before.sched().slots(),
            to,
            before.current(),
        ) ==> r == Reply::Value(0xFFFF_FFFF_FFFF_FFF8) && after == before,
        !before.sched().has(before.current()) ==> r == Reply::Value(0xFFFF_FFFF_FFFF_FFFA) && after
            == before,
        user_after == user_before,
{
}

/// Mapping with a capability fails with the argument error if memory for tables runs
/// out, and succeeds otherwise. Nothing is charged in either case.
pub proof fn law_capability_maps_unless_memory_runs_out(
    before: Kernel,
    after: Kernel,
    vaddr: u64,
    slot: u64,
    flags: u64,
    r: u64,
)
    requires
        before.scheduling(),
        before.sched().has(before.current()),
        vaddr >= 4096,
        vaddr % 4096 == 0,
        vaddr + 4096 <= 0x8000_0000_0000,
        slot < 64,
        ({
            let cap = before.sched().pcb(before.current()).cap_table@[slot as int];
            cap.kind is Memory && cap.rights & 0x01 != 0
        }),
        mapping::cap_mapped(before, after, vaddr, slot, flags, r),
    ensures
        r == 0 || r == 0xFFFF_FFFF_FFFF_FFFE,
        ({
            let cap = before.sched().pcb(before.current()).cap_table@[slot as int];
            r == 0 <==> before.mem@.mapped(
                before.current_pml4(),
                vaddr,
                (cap.object_id * 4096) as u64,
                mapping::mapping_flags(flags & 1 != 0 && cap.rights & 0x02 != 0, true),
            ).1
        }),
        after.sched() == before.sched(),
{
}

} // verus!
