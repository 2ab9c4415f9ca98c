//! What system calls do, in terms of their arguments and results.

use vstd::prelude::*;

use crate::cpu::syscall::{self, Reply};
use crate::cpu::user_memory;
use crate::elf_spawn::Programs;
use crate::ipc::Message;
use crate::kernel::Kernel;
use crate::memory::ram::{self, Ram};
use crate::process::pcb::{CapKind, Capability, ProcessControlBlock};
use crate::process::table;
use crate::process::ProcessId;
use crate::scheduler::effects::{self, awake};
use crate::scheduler::round_robin::{self, Scheduler};
use crate::service_registry;

verus! {

// ── Capabilities ─────────────────────────────────────────────────────────────
/// The capabilities of the current process.
pub open spec fn own_caps(k: Kernel) -> Seq<Capability> {
    k.sched().pcb(k.current()).cap_table@
}

/// A capability that was issued lies in the slot that the call gave, which was
/// free, and every other slot is as it was.
proof fn lemma_issued(before: Kernel, after: Kernel, cap: Capability, full: u64, r: u64)
    requires
        before.wf(),
        after.wf(),
        before.scheduling(),
        syscall::cap_issued(before, after, cap, full, r),
        full >= 64,
        r < 64,
    ensures
        before.sched().has(before.current()),
        after.sched().has(before.current()),
        after.current() == before.current(),
        own_caps(before)[r as int].kind is Empty,
        own_caps(after) == own_caps(before).update(r as int, cap),
{
    let slot = choose|slot: Option<usize>|
        #[trigger] round_robin::cap_placed(
            before.sched(),
            after.sched(),
            before.current(),
            cap,
            slot,
        ) && r == syscall::slot_or(slot, full);
}

/// A new channel carries no right that was not asked for, and every known right
/// that was: read is 1, write 2, grant 4 and manage 8. Asking for none gives read,
/// write and grant. The channel leads to the process that was named, lies in a
/// slot that was free, and all other capabilities stay.
pub proof fn law_new_channel_has_the_rights_asked_for(
    before: Kernel,
    after: Kernel,
    target: u64,
    rights: u64,
    r: u64,
)
    requires
        before.wf(),
        after.wf(),
        before.scheduling(),
        syscall::channel_bound(before, after, target, rights, r),
        r < 64,
    ensures
        after.sched().has(before.current()),
        ({
            let stored = own_caps(after)[r as int];
            &&& stored.kind == CapKind::Channel
            &&& stored.object_id == target as u32
            &&& rights != 0 ==> stored.rights & !(rights as u8) == 0
            &&& rights != 0 ==> stored.rights == (rights as u8) & 0x0F
            &&& rights == 0 ==> stored.rights == 0x07
        }),
        own_caps(before)[r as int].kind is Empty,
        forall|i: int|
            0 <= i < 64 && i != r ==> #[trigger] own_caps(after)[i] == own_caps(before)[i],
        target as u32 != 0,
{
    let cap = Capability {
        kind: CapKind::Channel,
        rights: syscall::channel_rights(rights),
        object_id: target as u32,
    };
    lemma_issued(before, after, cap, syscall::EINVAL, r);
    let asked = rights as u8;
    assert(0x01u8 | 0x02 | 0x04 | 0x08 == 0x0F && (asked & 0x0F) & !asked == 0 && 0x01u8 | 0x02 | 0x04
        == 0x07) by (bit_vector);
}

/// A channel that was bound without the right to write refuses every message:
/// the call gives the permission error and changes nothing.
pub proof fn law_unwritable_channel_refuses_messages(
    before: Kernel,
    bound: Kernel,
    after: Kernel,
    user: Ram,
    target: u64,
    rights: u64,
    slot: u64,
    buf: u64,
    r: u64,
)
    requires
        before.wf(),
        bound.wf(),
        before.scheduling(),
        syscall::channel_bound(before, bound, target, rights, slot),
        slot < 64,
        rights != 0,
        rights as u8 & 0x02 == 0,
        syscall::message_buffer(buf),
        syscall::sent_by_cap(bound, after, user, slot, buf, r),
    ensures
        r == 0xFFFF_FFFF_FFFF_FFFD,
        after == bound,
{
    law_new_channel_has_the_rights_asked_for(before, bound, target, rights, slot);
    let asked = rights as u8;
    assert(asked & 0x02 == 0 ==> (asked & 0x0F) & 0x02 == 0) by (bit_vector);
}

/// A channel that was bound with the right to write sends to the process it was
/// bound to: a message that is accepted is the last of that process's mail, with
/// the caller as its sender, and the process is awake.
pub proof fn law_writable_channel_reaches_its_target(
    before: Kernel,
    bound: Kernel,
    after: Kernel,
    user: Ram,
    target: u64,
    rights: u64,
    slot: u64,
    buf: u64,
)
    requires
        before.wf(),
        bound.wf(),
        after.wf(),
        before.scheduling(),
        syscall::channel_bound(before, bound, target, rights, slot),
        slot < 64,
        rights == 0 || rights as u8 & 0x02 != 0,
        syscall::message_buffer(buf),
        syscall::sent_by_cap(bound, after, user, slot, buf, 0),
    ensures
        ({
            let to = ProcessId(target as u32);
            let mail = after.sched().pcb(to).mailbox@;
            &&& after.sched().has(to)
            &&& mail.len() == bound.sched().pcb(to).mailbox@.len() + 1
            &&& mail.last().sender == before.current()
            &&& forall|i: int|
                0 <= i < 8 ==> #[trigger] mail.last().data@[i] == user.word(buf + 8 + 8 * i)
            &&& awake(bound.sched().pcb(to), after.sched().pcb(to))
        }),
{
    law_new_channel_has_the_rights_asked_for(before, bound, target, rights, slot);
    let asked = rights as u8;
    assert((asked & 0x02 != 0 ==> (asked & 0x0F) & 0x02 != 0) && 0x07u8 & 0x02 != 0) by (bit_vector);
    let to = ProcessId(target as u32);
    assert(syscall::channel_target(bound, slot) == Some(to));
    law_sent_buffer_arrives(bound, after, user, to, buf, syscall::EINVAL);
}

/// A message that is sent from a buffer arrives with the words of the buffer as
/// its payload and the caller as its sender, whatever sender the buffer names.
/// Its receiver is awake afterwards.
pub proof fn law_sent_buffer_arrives(
    before: Kernel,
    after: Kernel,
    user: Ram,
    to: ProcessId,
    buf: u64,
    refused: u64,
)
    requires
        before.wf(),
        after.wf(),
        before.scheduling(),
        syscall::buffer_sent(before, after, user, to, buf, refused, 0),
    ensures
        ({
            let mail = after.sched().pcb(to).mailbox@;
            &&& before.sched().has(to)
            &&& after.sched().has(to)
            &&& mail.len() == before.sched().pcb(to).mailbox@.len() + 1
            &&& mail.last().sender == before.current()
            &&& forall|i: int|
                0 <= i < 8 ==> #[trigger] mail.last().data@[i] == user.word(buf + 8 + 8 * i)
            &&& awake(before.sched().pcb(to), after.sched().pcb(to))
        }),
{
    let msg = choose|msg: Message|
        {
            &&& #[trigger] syscall::sent(before, after, to, msg, refused, 0)
            &&& user_memory::is_message_at(user, buf as int, before.current(), msg)
        };
    effects::law_message_wakes(before.sched(), after.sched(), before.current(), to, msg);
}

/// Sending through a slot works only with a channel that may be written to.
/// Anything else in the slot, and an empty slot, gives the permission error and
/// changes nothing.
pub proof fn law_only_writable_channels_send(
    before: Kernel,
    after: Kernel,
    user: Ram,
    slot: u64,
    buf: u64,
    r: u64,
)
    requires
        before.scheduling(),
        before.sched().has(before.current()),
        syscall::message_buffer(buf),
        slot < 64,
        syscall::sent_by_cap(before, after, user, slot, buf, r),
    ensures
        ({
            let cap = own_caps(before)[slot as int];
            cap.kind != CapKind::Channel || cap.rights & 0x02 == 0 ==> r == 0xFFFF_FFFF_FFFF_FFFD
                && after == before
        }),
{
}

/// A channel to a named service may be written to and nothing else: it cannot be
/// read or granted on. It leads to the process that provides the service.
pub proof fn law_service_channel_is_write_only(
    before: Kernel,
    after: Kernel,
    user: Ram,
    buf: u64,
    r: u64,
)
    requires
        before.wf(),
        after.wf(),
        before.scheduling(),
        syscall::service_channel(before, after, user, buf, r),
        r < 64,
    ensures
        after.sched().has(before.current()),
        ({
            let stored = own_caps(after)[r as int];
            &&& stored.kind == CapKind::Channel
            &&& stored.rights == 0x02
            &&& service_registry::provider(
                before.services.entries@,
                syscall::service_name(user, buf),
            ) == Some(stored.object_id)
        }),
        own_caps(before)[r as int].kind is Empty,
        forall|i: int|
            0 <= i < 64 && i != r ==> #[trigger] own_caps(after)[i] == own_caps(before)[i],
{
    let pid = service_registry::provider(
        before.services.entries@,
        syscall::service_name(user, buf),
    )->0;
    lemma_issued(
        before,
        after,
        Capability { kind: CapKind::Channel, rights: 0x02, object_id: pid },
        syscall::ENOMEM,
        r,
    );
}

/// A name that nobody provides gives no channel, and a full table gives none
/// either; both are told apart.
pub proof fn law_unknown_service_gives_no_channel(
    before: Kernel,
    after: Kernel,
    user: Ram,
    buf: u64,
    r: u64,
)
    requires
        before.scheduling(),
        syscall::name_buffer(buf),
        syscall::service_channel(before, after, user, buf, r),
    ensures
        r == 0xFFFF_FFFF_FFFF_FFF9 <==> service_registry::provider(
            before.services.entries@,
            syscall::service_name(user, buf),
        ) is None,
        r == 0xFFFF_FFFF_FFFF_FFF9 ==> after == before,
        r < 64 || r == 0xFFFF_FFFF_FFFF_FFF9 || r == 0xFFFF_FFFF_FFFF_FFFC,
        r >= 64 ==> after.sched().slots() == before.sched().slots(),
{
    if service_registry::provider(
        before.services.entries@,
        syscall::service_name(user, buf),
    ) is Some {
        let pid = service_registry::provider(
            before.services.entries@,
            syscall::service_name(user, buf),
        )->0;
        let cap = Capability { kind: CapKind::Channel, rights: 0x02, object_id: pid };
        let slot = choose|slot: Option<usize>|
            #[trigger] round_robin::cap_placed(
                before.sched(),
                after.sched(),
                before.current(),
                cap,
                slot,
            ) && r == syscall::slot_or(slot, syscall::ENOMEM);
    }
}

/// A capability is granted on exactly as it is, and only with the grant right. A
/// capability without it gives the permission error. The one who grants keeps it.
pub proof fn law_grant_call_copies_the_capability(
    before: Kernel,
    after: Kernel,
    slot: u64,
    to: u64,
    r: u64,
)
    requires
        before.wf(),
        after.wf(),
        before.scheduling(),
        before.sched().has(before.current()),
        slot < 64,
        syscall::granted(before, after, slot, to, r),
    ensures
        ({
            let cap = own_caps(before)[slot as int];
            let receiver = ProcessId(to as u32);
            &&& cap.kind != CapKind::Empty && cap.rights & 0x04 == 0 ==> r == 0xFFFF_FFFF_FFFF_FFFD
            &&& cap.kind == CapKind::Empty || cap.rights & 0x04 == 0 ==> after.sched()
                == before.sched() && r >= 64
            &&& r < 64 ==> {
                &&& cap.kind != CapKind::Empty
                &&& cap.rights & 0x04 != 0
                &&& before.sched().has(receiver)
                &&& after.sched().pcb(receiver).cap_table@[r as int] == cap
                &&& before.sched().pcb(receiver).cap_table@[r as int].kind is Empty
            }
            &&& after.sched().has(before.current())
            &&& own_caps(after)[slot as int] == cap
        }),
{
    let cap = own_caps(before)[slot as int];
    let me = before.current();
    let receiver = ProcessId(to as u32);
    let error = if !(cap.kind is Empty) && cap.rights & 0x04 == 0 {
        syscall::EPERM
    } else {
        syscall::EINVAL
    };
    let made = choose|made: Option<usize>|
        {
            &&& #[trigger] round_robin::cap_granted(
                before.sched(),
                after.sched(),
                me,
                slot as int,
                receiver,
                made,
            )
            &&& r == syscall::slot_or(made, error)
        };
    if made is Some {
        effects::lemma_own_pid(before.sched().slots(), receiver);
        effects::lemma_block_replaced(
            before.sched().slots(),
            before.sched().process_table.next_pid,
            receiver,
            after.sched().pcb(receiver),
            me,
        );
    }
}

// ── Settings ─────────────────────────────────────────────────────────────────
/// The process that a call names: 0 names the caller.
pub open spec fn meant(k: Kernel, pid: u64) -> ProcessId {
    if pid == 0 {
        ProcessId(k.global.current_pid)
    } else {
        ProcessId(pid as u32)
    }
}

/// What changing the block of one process does in the kernel.
proof fn lemma_changed(
    before: Kernel,
    after: Kernel,
    pid: ProcessId,
    q: ProcessControlBlock,
    r: u64,
    other: ProcessId,
)
    requires
        before.wf(),
        before.scheduling(),
        before.sched().has(pid),
        q.pid == before.sched().pcb(pid).pid,
        syscall::process_changed(before, after, pid, q, r),
        other != pid,
    ensures
        r == 0,
        after.sched().has(pid),
        after.sched().pcb(pid) == q,
        after.sched().has(other) == before.sched().has(other),
        before.sched().has(other) ==> after.sched().pcb(other) == before.sched().pcb(other),
{
    effects::lemma_own_pid(before.sched().slots(), pid);
    effects::lemma_block_replaced(
        before.sched().slots(),
        before.sched().process_table.next_pid,
        pid,
        q,
        other,
    );
}

/// The calls that set priority, period and limits change that of the process
/// that is named, 0 naming the caller, and nothing else of it or of any other.
/// Limits that fit are set as they are; a message rate that does not fit its
/// counter is the largest that does.
pub proof fn law_settings_are_set(
    before: Kernel,
    after: Kernel,
    user_before: Ram,
    user_after: Ram,
    p: Programs,
    number: u64,
    a0: u64,
    a1: u64,
    a2: u64,
    a3: u64,
    r: Reply,
    other: ProcessId,
)
    requires
        before.wf(),
        before.scheduling(),
        before.sched().has(meant(before, a0)),
        other != meant(before, a0),
        number == 15 || number == 16 || number == 19,
        number == 16 ==> before.sched().tick + a1 <= u64::MAX,
        syscall::dispatched(before, after, user_before, user_after, p, number, a0, a1, a2, a3, r),
    ensures
        r == Reply::Value(0),
        user_after == user_before,
        after.sched().has(meant(before, a0)),
        ({
            let b = before.sched().pcb(meant(before, a0));
            let q = after.sched().pcb(meant(before, a0));
            &&& number == 15 && a1 <= 255 ==> q.priority == a1
            &&& number == 15 ==> q == ProcessControlBlock { priority: q.priority, ..b }
            &&& number == 16 ==> q.rt_period == a1
            &&& number == 16 && a1 > 0 ==> q.rt_deadline == before.sched().tick + a1
            &&& number == 16 ==> q == ProcessControlBlock {
                rt_period: q.rt_period,
                rt_deadline: q.rt_deadline,
                ..b
            }
            &&& number == 19 && a1 <= u32::MAX ==> q.memory_quota_pages == a1
            &&& number == 19 && a2 <= u32::MAX ==> q.cpu_budget_ticks == a2
            &&& number == 19 ==> q.ipc_rate_limit == if a3 <= 65535 {
                a3
            } else {
                65535
            }
            &&& number == 19 ==> q == ProcessControlBlock {
                memory_quota_pages: q.memory_quota_pages,
                cpu_budget_ticks: q.cpu_budget_ticks,
                ipc_rate_limit: q.ipc_rate_limit,
                ..b
            }
        }),
        after.sched().has(other) == before.sched().has(other),
        before.sched().has(other) ==> after.sched().pcb(other) == before.sched().pcb(other),
        after.mem == before.mem,
        after.services == before.services,
{
    let pid = meant(before, a0);
    let b = before.sched().pcb(pid);
    let v = r->Value_0;
    if number == 15 {
        assert(a1 <= 255 ==> a1 & 0xFF == a1) by (bit_vector);
        let q = ProcessControlBlock { priority: (a1 & 0xFF) as u8, ..b };
        lemma_changed(before, after, pid, q, v, other);
    } else if number == 16 {
        let q = round_robin::realtime(b, before.sched().tick, a1);
        lemma_changed(before, after, pid, q, v, other);
    } else {
        let q = syscall::limited(b, a1, a2, a3);
        lemma_changed(before, after, pid, q, v, other);
    }
}

/// The calls that only tell something change nothing. The first gives the PID of
/// the caller, the second the time since boot in nanoseconds, ten million to a
/// tick, as long as that can be counted.
pub proof fn law_questions_change_nothing(
    before: Kernel,
    after: Kernel,
    user_before: Ram,
    user_after: Ram,
    p: Programs,
    number: u64,
    a0: u64,
    a1: u64,
    a2: u64,
    a3: u64,
    r: Reply,
)
    requires
        number == 2 || number == 14 || number == 11,
        syscall::dispatched(before, after, user_before, user_after, p, number, a0, a1, a2, a3, r),
    ensures
        after == before,
        user_after == user_before,
        number == 2 ==> r == Reply::Value(before.global.current_pid as u64),
        number == 14 && before.ticks <= 1_844_674_407_370 ==> (r matches Reply::Value(ns) && ns
            == before.ticks * 10_000_000),
        number == 14 && before.ticks > 1_844_674_407_370 ==> r == Reply::Value(
            0xFFFF_FFFF_FFFF_FFFF,
        ),
        number == 11 && service_registry::provider(
            before.services.entries@,
            syscall::service_name(user_before, a0),
        ) is None ==> r == Reply::Value(0xFFFF_FFFF_FFFF_FFFE),
{
}

// ── Services ─────────────────────────────────────────────────────────────────
/// A name of at most fifteen bytes under which a process registers leads to that
/// process when it is looked up.
pub proof fn law_registered_name_is_looked_up(
    before: Kernel,
    after: Kernel,
    user: Ram,
    buf: u64,
)
    requires
        syscall::name_registered(before, after, user, buf, 0),
        syscall::service_name(user, buf).len() < 16,
    ensures
        syscall::name_buffer(buf),
        syscall::name_looked_up(after, user, buf) == before.global.current_pid,
        after.global == before.global,
        after.mem == before.mem,
{
    let raw = user_memory::name_at(user, buf as int);
    service_registry::law_registered_is_found(
        before.services.entries@,
        after.services.entries@,
        raw,
        before.global.current_pid,
    );
}

// ── Messages ─────────────────────────────────────────────────────────────────
/// Two words that are sent arrive as the first two of the message, followed by
/// zeros, with the caller as sender. The receiver is awake afterwards. The call
/// is refused with the argument error if nothing is delivered.
pub proof fn law_sent_words_arrive(
    before: Kernel,
    after: Kernel,
    to: u64,
    w0: u64,
    w1: u64,
    r: u64,
)
    requires
        before.wf(),
        after.wf(),
        before.scheduling(),
        syscall::words_sent(before, after, to, w0, w1, r),
    ensures
        r == 0 || r == 0xFFFF_FFFF_FFFF_FFFE,
        r == 0 ==> {
            let pid = ProcessId(to as u32);
            let mail = after.sched().pcb(pid).mailbox@;
            &&& before.sched().has(pid)
            &&& after.sched().has(pid)
            &&& mail.len() == before.sched().pcb(pid).mailbox@.len() + 1
            &&& mail.last().sender == before.current()
            &&& mail.last().data@[0] == w0
            &&& mail.last().data@[1] == w1
            &&& forall|i: int| 2 <= i < 8 ==> #[trigger] mail.last().data@[i] == 0
            &&& awake(before.sched().pcb(pid), after.sched().pcb(pid))
        },
{
    let pid = ProcessId(to as u32);
    let msg = choose|msg: Message|
        {
            &&& #[trigger] syscall::sent(before, after, pid, msg, syscall::EINVAL, r)
            &&& msg.sender == before.current()
            &&& msg.data@ == seq![w0, w1, 0, 0, 0, 0, 0, 0]
        };
    if r == 0 {
        effects::law_message_wakes(before.sched(), after.sched(), before.current(), pid, msg);
    }
}

/// A receive gives the first word of the oldest message, and a receive into a
/// buffer stores its sender and its eight words there. Without a message both
/// give the largest value there is.
pub proof fn law_received_message_is_the_oldest(
    before: Kernel,
    after: Kernel,
    user_before: Ram,
    user_after: Ram,
    timeout: u64,
    buf: u64,
    word: u64,
    fetched: Kernel,
    r: u64,
)
    requires
        before.wf(),
        before.scheduling(),
        before.sched().has(before.current()),
        syscall::word_received(before, after, timeout, word),
        syscall::message_fetched(before, fetched, user_before, user_after, timeout, buf, r),
        syscall::message_buffer(buf),
        user_before.covers(buf as int, 72),
    ensures
        ({
            let mail = before.sched().pcb(before.current()).mailbox@;
            &&& mail.len() > 0 ==> {
                &&& word == mail[0].data@[0]
                &&& r == 0
                &&& user_after.word(buf as int) == mail[0].sender.0
                &&& forall|i: int|
                    0 <= i < 8 ==> user_after.word(buf + 8 + 8 * i) == #[trigger] mail[0].data@[i]
            }
            &&& mail.len() == 0 ==> {
                &&& word == 0xFFFF_FFFF_FFFF_FFFF
                &&& r == 0xFFFF_FFFF_FFFF_FFFF
                &&& user_after == user_before
            }
        }),
{
    let mail = before.sched().pcb(before.current()).mailbox@;
    let got = choose|got: Option<Message>|
        {
            &&& #[trigger] syscall::received(before, fetched, timeout, got)
            &&& user_after == syscall::delivered_at(user_before, buf, got)
            &&& r == if got is Some {
                0
            } else {
                syscall::NO_MESSAGE
            }
        };
    if mail.len() > 0 {
        let ws = user_memory::message_words(mail[0]);
        ram::lemma_with_words(user_before, buf as int, ws, 0);
        assert forall|i: int| 0 <= i < 8 implies user_after.word(buf + 8 + 8 * i)
            == #[trigger] mail[0].data@[i] by {
            ram::lemma_with_words(user_before, buf as int, ws, i + 1);
            assert(ws[i + 1] == mail[0].data@[i]);
            assert(buf + 8 * (i + 1) == buf + 8 + 8 * i);
        }
    }
}

/// Notification bits reach the process that is named and wake it; the call fails
/// with the argument error exactly if there is no such process.
pub proof fn law_notify_call_wakes(before: Kernel, after: Kernel, to: u64, word: u64, r: u64)
    requires
        before.wf(),
        after.wf(),
        before.scheduling(),
        syscall::notified(before, after, to, word, r),
    ensures
        ({
            let pid = ProcessId(to as u32);
            &&& r == 0 <==> before.sched().has(pid)
            &&& r != 0 ==> r == 0xFFFF_FFFF_FFFF_FFFE && after.sched() == before.sched()
            &&& r == 0 ==> {
                let q = after.sched().pcb(pid);
                &&& after.sched().has(pid)
                &&& awake(before.sched().pcb(pid), q)
                &&& q.mailbox.pending_notification == before.sched().pcb(
                    pid,
                ).mailbox.pending_notification | word
            }
        }),
{
    let pid = ProcessId(to as u32);
    let other = if pid.0 == 0 {
        ProcessId(1)
    } else {
        ProcessId(0)
    };
    effects::law_notification_wakes(
        before.sched(),
        after.sched(),
        pid,
        word,
        r == 0,
        other,
    );
}

/// A call that blocks waits as long as was asked for: its caller is blocked until
/// the tick that lies that many ticks ahead, or without end if 0 was asked for or
/// the tick cannot be counted. The deadline of the reply is the same tick.
pub proof fn law_call_waits_as_long_as_asked(
    before: Kernel,
    after: Kernel,
    user_before: Ram,
    user_after: Ram,
    to: ProcessId,
    reply: u64,
    ticks: u64,
    r: Reply,
)
    requires
        before.wf(),
        after.wf(),
        before.scheduling(),
        syscall::awaited(before, after, user_before, user_after, to, reply, ticks, r),
        r is Blocked,
    ensures
        r->reply == reply,
        ticks == 0 ==> r->deadline == u64::MAX,
        ticks > 0 && before.sched().tick + ticks <= u64::MAX ==> r->deadline == before.sched().tick
            + ticks,
        r->deadline >= before.sched().tick,
        after.sched().has(before.current()),
        after.sched().pcb(before.current()).state is Blocked,
        after.sched().pcb(before.current()).blocked_deadline == r->deadline,
        before.sched().pcb(before.current()).mailbox@.len() == 0,
        !table::transitively_waits(before.sched().slots(), to, before.current()),
        user_after == user_before,
{
    let me = before.current();
    let other = if me.0 == 0 {
        ProcessId(1)
    } else {
        ProcessId(0)
    };
    effects::law_receive_takes_or_blocks(
        before.sched(),
        after.sched(),
        me,
        syscall::call_timeout(ticks),
        None,
        other,
    );
}

// ── Processes ────────────────────────────────────────────────────────────────
/// A process that is started in the kernel is new and ready, begins at the given
/// address in the given address space, the kernel's if 0 was given, and has the
/// priority that was asked for if it lies between 1 and 255, else the middle one.
pub proof fn law_spawn_call_starts_a_process(
    before: Kernel,
    after: Kernel,
    entry: u64,
    pml4: u64,
    priority: u64,
    r: u64,
)
    requires
        before.wf(),
        after.wf(),
        before.scheduling(),
        before.sched().process_table.next_pid < u32::MAX,
        syscall::spawned(before, after, entry, pml4, priority, r),
        r <= u32::MAX,
    ensures
        ({
            let pid = ProcessId(r as u32);
            let q = after.sched().pcb(pid);
            &&& !before.sched().has(pid)
            &&& after.sched().has(pid)
            &&& q.state is Ready
            &&& q.context.rip == entry
            &&& q.page_table_base == if pml4 != 0 {
                pml4
            } else {
                before.global.kernel_pml4
            }
            &&& q.priority == if 1 <= priority <= 255 {
                priority
            } else {
                128
            }
            &&& q.mailbox@.len() == 0
            &&& forall|i: int| 0 <= i < 64 ==> (#[trigger] q.cap_table@[i]).kind is Empty
        }),
        after.current() == before.current(),
        after.mem == before.mem,
{
    let (middle, made) = choose|middle: Scheduler, made: Option<ProcessId>|
        {
            &&& #[trigger] round_robin::process_added(
                before.sched(),
                middle,
                entry,
                syscall::spawn_space(before, pml4),
                made,
            )
            &&& match made {
                Some(pid) => {
                    &&& r == pid.0
                    &&& if 0 < priority <= 255 {
                        round_robin::process_updated(
                            middle,
                            after.sched(),
                            pid,
                            ProcessControlBlock { priority: priority as u8, ..middle.pcb(pid) },
                        )
                    } else {
                        after.sched() == middle
                    }
                },
                None => r == syscall::EINVAL && after.sched() == middle,
            }
        };
    let pid = made->0;
    let slots = before.sched().slots();
    if before.sched().has(pid) {
        effects::lemma_own_pid(slots, pid);
    }
    effects::lemma_own_pid(middle.slots(), pid);
    if 0 < priority <= 255 {
        let k = table::slot_of(middle.slots(), pid);
        let q = ProcessControlBlock { priority: priority as u8, ..middle.pcb(pid) };
        assert(table::holds(middle.slots(), k, pid));
        assert(table::holds(after.sched().slots(), k, pid));
        table::lemma_slot_unique(
            after.sched().slots(),
            after.sched().process_table.next_pid,
            k,
            pid,
        );
    }
}

/// A process that exits is gone, gives back its code, and leaves no name and no
/// message behind; all other processes go on as they were.
pub proof fn law_exit_call_ends_the_caller(
    before: Kernel,
    after: Kernel,
    user_before: Ram,
    user_after: Ram,
    p: Programs,
    a0: u64,
    a1: u64,
    a2: u64,
    a3: u64,
    r: Reply,
    other: ProcessId,
    key: Seq<u8>,
)
    requires
        before.wf(),
        after.wf(),
        before.scheduling(),
        syscall::dispatched(before, after, user_before, user_after, p, 1, a0, a1, a2, a3, r),
        other != before.current(),
    ensures
        r == Reply::Value(a0),
        !after.sched().has(before.current()),
        after.sched().current_process != Some(before.current()),
        service_registry::provider(after.services.entries@, key) != Some(before.global.current_pid),
        after.sched().has(other) == before.sched().has(other),
        before.sched().has(other) ==> after.sched().pcb(other) == before.sched().pcb(other),
{
    crate::scheduler::laws::law_ended_process_is_gone(
        before.sched(),
        after.sched(),
        before.services.entries@,
        after.services.entries@,
        before.current(),
        other,
        key,
    );
}

} // verus!
