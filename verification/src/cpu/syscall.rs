//! System calls.
//!
//! A user process enters the kernel with a number and up to six arguments.
//! `dispatch_syscall` carries out the call and gives the value the process
//! gets back. `user` is the user half of the active address space.

use vstd::prelude::*;

use crate::cpu::mapping::{sys_map, sys_map_cap, sys_map_share};
use crate::cpu::user_memory::{
    read_bytes, read_message, read_name, validate_user_ptr, validate_user_vaddr, write_message, MESSAGE_ALIGN,
    MESSAGE_SIZE,
};
use crate::elf_spawn::{call_elf_spawn, call_restart_server, Programs};
use crate::ipc::Message;
use crate::kernel::Kernel;
use crate::memory::{free_all, PhysMemory};
use crate::process::pcb::{
    CapKind, Capability, ProcessControlBlock, CAP_G, CAP_R, CAP_TABLE_SIZE, CAP_W, CAP_X,
};
use crate::process::ProcessId;
use crate::scheduler::global::get_global;
use crate::scheduler::round_robin::Scheduler;
use crate::service_registry::{lookup, register, same_bytes, trim_name};
use crate::uart_irq::{set_uart_drv_pid, UART_DRV_NAME};

verus! {

pub const MSR_EFER: u32 = 0xC000_0080;

pub const MSR_STAR: u32 = 0xC000_0081;

pub const MSR_LSTAR: u32 = 0xC000_0082;

pub const MSR_SFMASK: u32 = 0xC000_0084;

/// The processor accepts system call instructions.
pub const EFER_SCE: u64 = 1;

/// Segments of system calls: kernel code at 0x08, users from 0x10 on.
pub const STAR_SEGMENTS: u64 = 0x0010_0008_0000_0000;

/// Flags cleared on entry: interrupts and direction.
pub const SFMASK_FLAGS: u64 = 0x600;

/// The register writes that enable system calls with the entry point `entry`.
/// `efer` is the current value of the feature register.
pub fn init(efer: u64, entry: u64) -> (r: [(u32, u64); 4])
    ensures
        r@ == seq![
            (MSR_EFER, efer | EFER_SCE),
            (MSR_STAR, STAR_SEGMENTS),
            (MSR_LSTAR, entry),
            (MSR_SFMASK, SFMASK_FLAGS),
        ],
{
    let r: [(u32, u64); 4] = [
        (MSR_EFER, efer | EFER_SCE),
        (MSR_STAR, STAR_SEGMENTS),
        (MSR_LSTAR, entry),
        (MSR_SFMASK, SFMASK_FLAGS),
    ];
    assert(r@ =~= seq![
        (MSR_EFER, efer | EFER_SCE),
        (MSR_STAR, STAR_SEGMENTS),
        (MSR_LSTAR, entry),
        (MSR_SFMASK, SFMASK_FLAGS),
    ]);
    r
}

pub const SYS_YIELD: u64 = 0;

pub const SYS_EXIT: u64 = 1;

pub const SYS_GETPID: u64 = 2;

pub const SYS_SEND: u64 = 3;

pub const SYS_RECV: u64 = 4;

pub const SYS_NOTIFY: u64 = 5;

pub const SYS_RECV_MSG: u64 = 6;

pub const SYS_SEND_MSG: u64 = 7;

pub const SYS_SPAWN: u64 = 8;

pub const SYS_MAP: u64 = 9;

pub const SYS_REGISTER: u64 = 10;

pub const SYS_LOOKUP: u64 = 11;

pub const SYS_UART_WRITE: u64 = 12;

pub const SYS_UART_READ: u64 = 13;

pub const SYS_CLOCK: u64 = 14;

pub const SYS_SETPRIO: u64 = 15;

pub const SYS_SETRT: u64 = 16;

pub const SYS_CALL: u64 = 17;

pub const SYS_CAP_GRANT: u64 = 18;

pub const SYS_SETQUOTA: u64 = 19;

pub const SYS_CHAN_BIND: u64 = 20;

pub const SYS_SEND_CAP: u64 = 21;

pub const SYS_MAP_SHARE: u64 = 22;

pub const SYS_MAP_CAP: u64 = 23;

pub const SYS_LOOKUP_CAP: u64 = 24;

pub const SYS_SPAWN_ELF: u64 = 26;

pub const SYS_RESTART_SERVER: u64 = 27;

/// The function is not implemented.
pub const ENOSYS: u64 = 0xFFFF_FFFF_FFFF_FFFF;

/// An argument is invalid.
pub const EINVAL: u64 = 0xFFFF_FFFF_FFFF_FFFE;

/// The operation is not permitted.
pub const EPERM: u64 = 0xFFFF_FFFF_FFFF_FFFD;

/// Physical memory or a table is exhausted.
pub const ENOMEM: u64 = 0xFFFF_FFFF_FFFF_FFFC;

/// The resource is temporarily unavailable.
pub const EAGAIN: u64 = 0xFFFF_FFFF_FFFF_FFFB;

/// The operation timed out.
pub const ETIMEDOUT: u64 = 0xFFFF_FFFF_FFFF_FFFA;

/// There is no such entry.
pub const ENOENT: u64 = 0xFFFF_FFFF_FFFF_FFF9;

/// Waiting would never end, because the other side waits for the caller.
pub const EDEADLK: u64 = 0xFFFF_FFFF_FFFF_FFF8;

/// What a receive gives back when there is no message: the process is blocked
/// and has to try again when it next runs.
pub const NO_MESSAGE: u64 = 0xFFFF_FFFF_FFFF_FFFF;

/// Nanoseconds per timer tick.
pub const NS_PER_TICK: u64 = 10_000_000;

/// How a system call ends.
#[derive(Copy, Clone, Debug, PartialEq, Eq, Structural)]
pub enum Reply {
    /// The value the process gets back.
    Value(u64),
    /// Write the byte to the serial port, and give back 0.
    UartWrite(u8),
    /// Read the serial port, and give back `uart_read_value` of what it gave.
    UartRead,
    /// The process is blocked in a synchronous call. When it runs again, go on
    /// with what `resume_call` says for this reply buffer and deadline.
    Blocked { reply: u64, deadline: u64 },
}

// ── Scheduling and identity ──────────────────────────────────────────────────
/// The current process has given up its quantum.
pub open spec fn yielded(before: Kernel, after: Kernel) -> bool {
    if before.scheduling() {
        &&& after.differs_in_sched(&before)
        &&& match before.sched().current_process {
            Some(c) => crate::scheduler::round_robin::process_updated(
                before.sched(),
                after.sched(),
                c,
                crate::scheduler::round_robin::quantum_given_up(before.sched().pcb(c)),
            ),
            None => after.sched() == before.sched(),
        }
    } else {
        after == before
    }
}

/// Gives up the rest of the quantum; the next timer tick switches processes.
pub fn sys_yield(k: &mut Kernel) -> (r: u64)
    requires
        old(k).wf(),
    ensures
        final(k).wf(),
        r == 0,
        yielded(*old(k), *final(k)),
{
    if let Some(sched) = get_global(&mut k.global) {
        sched.yield_current();
    }
    0
}

/// The current process has ended, and its frames are given back.
pub open spec fn exited(before: Kernel, after: Kernel) -> bool {
    if before.scheduling() {
        &&& after.scheduling()
        &&& after.global.current_pid == before.global.current_pid
        &&& after.global.kernel_pml4 == before.global.kernel_pml4
        &&& crate::memory::paging::gave_back(
            before.mem,
            after.mem,
            crate::scheduler::round_robin::frames_of(before.sched(), before.current()),
        )
        &&& after.uart_irq == before.uart_irq
        &&& after.ticks == before.ticks
        &&& crate::scheduler::round_robin::process_ended(
            before.sched(),
            after.sched(),
            before.services.entries@,
            after.services.entries@,
            before.current(),
        )
    } else {
        after == before
    }
}

/// Ends the calling process and gives its frames back.
pub fn sys_exit(k: &mut Kernel, code: u64) -> (r: u64)
    requires
        old(k).wf(),
    ensures
        final(k).wf(),
        r == code,
        exited(*old(k), *final(k)),
{
    let pid = ProcessId::new(k.global.current_pid);
    if let Some(sched) = get_global(&mut k.global) {
        let frames = sched.terminate_process(&mut k.services, pid);
        free_all(&mut k.mem.frames, frames.as_slice());
    }
    code
}

/// The PID of the calling process.
pub fn sys_getpid(k: &Kernel) -> (r: u64)
    ensures
        r == k.global.current_pid,
{
    k.global.current_pid as u64
}

/// Nanoseconds since boot.
pub open spec fn clock(ticks: u64) -> u64 {
    if ticks * NS_PER_TICK > u64::MAX {
        u64::MAX
    } else {
        (ticks * NS_PER_TICK) as u64
    }
}

/// Nanoseconds since boot, in steps of one tick.
pub fn sys_clock(k: &Kernel) -> (r: u64)
    ensures
        r == clock(k.ticks),
{
    match k.ticks.checked_mul(NS_PER_TICK) {
        Some(ns) => ns,
        None => u64::MAX,
    }
}

/// The process an argument names: 0 is the caller.
pub open spec fn named_process(k: Kernel, pid: u64) -> ProcessId {
    if pid == 0 {
        k.current()
    } else {
        ProcessId(pid as u32)
    }
}

fn process_named(k: &Kernel, pid: u64) -> (r: ProcessId)
    ensures
        r == named_process(*k, pid),
{
    if pid == 0 {
        ProcessId::new(k.global.current_pid)
    } else {
        ProcessId::new(pid as u32)
    }
}

/// The block of `pid` is `q` now, if there is a scheduler and such a process.
pub open spec fn process_changed(
    before: Kernel,
    after: Kernel,
    pid: ProcessId,
    q: ProcessControlBlock,
    r: u64,
) -> bool {
    if before.scheduling() {
        &&& r == 0
        &&& after.differs_in_sched(&before)
        &&& crate::scheduler::round_robin::process_updated(before.sched(), after.sched(), pid, q)
    } else {
        r == ENOSYS && after == before
    }
}

/// Sets the priority of process `pid`, 0 meaning the caller.
pub fn sys_setprio(k: &mut Kernel, pid: u64, priority: u64) -> (r: u64)
    requires
        old(k).wf(),
    ensures
        final(k).wf(),
        process_changed(
            *old(k),
            *final(k),
            named_process(*old(k), pid),
            ProcessControlBlock {
                priority: (priority & 0xFF) as u8,
                ..old(k).sched().pcb(named_process(*old(k), pid))
            },
            r,
        ),
{
    let target = process_named(k, pid);
    match get_global(&mut k.global) {
        Some(sched) => {
            sched.set_priority(target, (priority & 0xFF) as u8);
            0
        },
        None => ENOSYS,
    }
}

/// Makes process `pid`, 0 meaning the caller, a real-time process with the
/// given period, or a best-effort process if the period is 0.
pub fn sys_setrt(k: &mut Kernel, pid: u64, period: u64) -> (r: u64)
    requires
        old(k).wf(),
        old(k).scheduling() && old(k).sched().has(named_process(*old(k), pid))
            ==> old(k).sched().tick + period <= u64::MAX,
    ensures
        final(k).wf(),
        process_changed(
            *old(k),
            *final(k),
            named_process(*old(k), pid),
            crate::scheduler::round_robin::realtime(
                old(k).sched().pcb(named_process(*old(k), pid)),
                old(k).sched().tick,
                period,
            ),
            r,
        ),
{
    let target = process_named(k, pid);
    match get_global(&mut k.global) {
        Some(sched) => {
            sched.set_realtime(target, period);
            0
        },
        None => ENOSYS,
    }
}

/// A process with the given limits. The rate is cut off at what its counter holds.
pub open spec fn limited(p: ProcessControlBlock, pages: u64, budget: u64, rate: u64) -> ProcessControlBlock {
    ProcessControlBlock {
        memory_quota_pages: pages as u32,
        cpu_budget_ticks: budget as u32,
        ipc_rate_limit: if rate < u16::MAX {
            rate as u16
        } else {
            u16::MAX
        },
        ..p
    }
}

/// Sets the limits of process `pid`, 0 meaning the caller: pages, ticks per
/// budget frame and messages per rate window. A limit of 0 means none.
pub fn sys_setquota(k: &mut Kernel, pid: u64, pages: u64, budget: u64, rate: u64) -> (r: u64)
    requires
        old(k).wf(),
    ensures
        final(k).wf(),
        process_changed(
            *old(k),
            *final(k),
            named_process(*old(k), pid),
            limited(old(k).sched().pcb(named_process(*old(k), pid)), pages, budget, rate),
            r,
        ),
{
    let target = process_named(k, pid);
    let ipc_rate: u16 = if rate < u16::MAX as u64 {
        rate as u16
    } else {
        u16::MAX
    };
    match get_global(&mut k.global) {
        Some(sched) => {
            sched.set_quotas(target, pages as u32, budget as u32, ipc_rate);
            0
        },
        None => ENOSYS,
    }
}

/// The address space of a new process: `pml4`, or the kernel's if that is 0.
pub open spec fn spawn_space(k: Kernel, pml4: u64) -> u64 {
    if pml4 != 0 {
        pml4
    } else {
        k.global.kernel_pml4
    }
}

/// Outcome of creating a kernel process at `entry` in address space `pml4`.
pub open spec fn spawned(
    before: Kernel,
    after: Kernel,
    entry: u64,
    pml4: u64,
    priority: u64,
    r: u64,
) -> bool {
    if !before.scheduling() {
        r == ENOSYS && after == before
    } else {
        &&& after.differs_in_sched(&before)
        &&& exists|middle: Scheduler, made: Option<ProcessId>|
            {
                &&& #[trigger] crate::scheduler::round_robin::process_added(
                    before.sched(),
                    middle,
                    entry,
                    spawn_space(before, pml4),
                    made,
                )
                &&& match made {
                    Some(pid) => {
                        &&& r == pid.0
                        &&& if 0 < priority <= 255 {
                            crate::scheduler::round_robin::process_updated(
                                middle,
                                after.sched(),
                                pid,
                                ProcessControlBlock {
                                    priority: priority as u8,
                                    ..middle.pcb(pid)
                                },
                            )
                        } else {
                            after.sched() == middle
                        }
                    },
                    None => r == EINVAL && after.sched() == middle,
                }
            }
    }
}

/// Creates a process that starts at `entry` in the kernel. `pml4` is its
/// address space, 0 meaning the kernel's; a `priority` outside 1 to 255 leaves
/// the default.
pub fn sys_spawn(k: &mut Kernel, entry: u64, pml4: u64, priority: u64) -> (r: u64)
    requires
        old(k).wf(),
        old(k).scheduling() ==> old(k).sched().process_table.next_pid < u32::MAX,
    ensures
        final(k).wf(),
        spawned(*old(k), *final(k), entry, pml4, priority, r),
{
    let space: u64 = if pml4 != 0 {
        pml4
    } else {
        k.global.kernel_pml4
    };
    let ghost mut middle = arbitrary();
    let made: Option<ProcessId>;
    match get_global(&mut k.global) {
        Some(sched) => {
            made = sched.add_process(entry, 0, space);
            proof {
                middle = *sched;
            }
            if let Some(pid) = made {
                if priority > 0 && priority <= 255 {
                    sched.set_priority(pid, priority as u8);
                }
            }
        },
        None => {
            return ENOSYS;
        },
    }
    assert(crate::scheduler::round_robin::process_added(
        old(k).sched(),
        middle,
        entry,
        spawn_space(*old(k), pml4),
        made,
    ));
    match made {
        Some(pid) => pid.as_u32() as u64,
        None => EINVAL,
    }
}

// ── Messages ─────────────────────────────────────────────────────────────────
/// Outcome of the current process sending `msg` to `to`: 0, or `refused`.
pub open spec fn sent(
    before: Kernel,
    after: Kernel,
    to: ProcessId,
    msg: Message,
    refused: u64,
    r: u64,
) -> bool {
    &&& after.differs_in_sched(&before)
    &&& r == 0 || r == refused
    &&& crate::scheduler::round_robin::message_sent(
        before.sched(),
        after.sched(),
        before.current(),
        to,
        msg,
        r == 0,
    )
}

/// Outcome of sending two words.
pub open spec fn words_sent(
    before: Kernel,
    after: Kernel,
    to: u64,
    w0: u64,
    w1: u64,
    r: u64,
) -> bool {
    if before.scheduling() {
        exists|msg: Message|
            {
                &&& #[trigger] sent(before, after, ProcessId(to as u32), msg, EINVAL, r)
                &&& msg.sender == before.current()
                &&& msg.data@ == seq![w0, w1, 0, 0, 0, 0, 0, 0]
            }
    } else {
        r == ENOSYS && after == before
    }
}

/// Sends a message of two words to process `to`.
pub fn sys_send(k: &mut Kernel, to: u64, w0: u64, w1: u64) -> (r: u64)
    requires
        old(k).wf(),
        old(k).scheduling() ==> old(k).sched().countable(old(k).current(), ProcessId(to as u32)),
    ensures
        final(k).wf(),
        words_sent(*old(k), *final(k), to, w0, w1, r),
{
    let from = ProcessId::new(k.global.current_pid);
    let mut msg = Message::new(from);
    msg.set_data(0, w0);
    msg.set_data(1, w1);
    assert(msg.data@ =~= seq![w0, w1, 0, 0, 0, 0, 0, 0]);
    let r: u64 = match get_global(&mut k.global) {
        Some(sched) => {
            if sched.send_message(from, ProcessId::new(to as u32), msg) {
                0
            } else {
                EINVAL
            }
        },
        None => ENOSYS,
    };
    proof {
        if old(k).scheduling() {
            assert(sent(*old(k), *k, ProcessId(to as u32), msg, EINVAL, r));
        }
    }
    r
}

/// Outcome `got` of the current process receiving with the given timeout.
pub open spec fn received(
    before: Kernel,
    after: Kernel,
    timeout: u64,
    got: Option<Message>,
) -> bool {
    &&& after.differs_in_sched(&before)
    &&& crate::scheduler::round_robin::message_received(
        before.sched(),
        after.sched(),
        before.current(),
        timeout,
        got,
    )
}

/// Outcome of receiving the first word of a message.
pub open spec fn word_received(before: Kernel, after: Kernel, timeout: u64, r: u64) -> bool {
    if before.scheduling() {
        exists|got: Option<Message>|
            {
                &&& #[trigger] received(before, after, timeout, got)
                &&& r == match got {
                    Some(msg) => msg.data@[0],
                    None => NO_MESSAGE,
                }
            }
    } else {
        r == ENOSYS && after == before
    }
}

/// Takes the next message and gives its first word. If there is none, the
/// process is blocked for at most `timeout` ticks.
pub fn sys_recv(k: &mut Kernel, timeout: u64) -> (r: u64)
    requires
        old(k).wf(),
    ensures
        final(k).wf(),
        word_received(*old(k), *final(k), timeout, r),
{
    let pid = ProcessId::new(k.global.current_pid);
    let got: Option<Message>;
    match get_global(&mut k.global) {
        Some(sched) => {
            got = sched.blocking_receive(pid, timeout);
        },
        None => {
            return ENOSYS;
        },
    }
    assert(received(*old(k), *k, timeout, got));
    match got {
        Some(msg) => msg.get_data(0),
        None => NO_MESSAGE,
    }
}

/// Outcome of posting notification bits.
pub open spec fn notified(before: Kernel, after: Kernel, to: u64, word: u64, r: u64) -> bool {
    if before.scheduling() {
        &&& after.differs_in_sched(&before)
        &&& r == 0 || r == EINVAL
        &&& crate::scheduler::round_robin::notification_sent(
            before.sched(),
            after.sched(),
            ProcessId(to as u32),
            word,
            r == 0,
        )
    } else {
        r == ENOSYS && after == before
    }
}

/// Posts the notification bits `word` to process `to`.
pub fn sys_notify(k: &mut Kernel, to: u64, word: u64) -> (r: u64)
    requires
        old(k).wf(),
    ensures
        final(k).wf(),
        notified(*old(k), *final(k), to, word, r),
{
    match get_global(&mut k.global) {
        Some(sched) => {
            if sched.notify_process(ProcessId::new(to as u32), word) {
                0
            } else {
                EINVAL
            }
        },
        None => ENOSYS,
    }
}

/// The user memory after the message `got`, if any, is delivered at `buf`.
pub open spec fn delivered_at(
    m: crate::memory::ram::Ram,
    buf: u64,
    got: Option<Message>,
) -> crate::memory::ram::Ram {
    match got {
        Some(msg) => crate::memory::ram::with_words(
            m,
            buf as int,
            crate::cpu::user_memory::message_words(msg),
        ),
        None => m,
    }
}

/// A whole message fits at `buf`.
pub open spec fn message_buffer(buf: u64) -> bool {
    crate::cpu::user_memory::user_range(buf, MESSAGE_SIZE, MESSAGE_ALIGN)
}

/// Outcome of receiving a whole message into a buffer.
pub open spec fn message_fetched(
    before: Kernel,
    after: Kernel,
    user_before: crate::memory::ram::Ram,
    user_after: crate::memory::ram::Ram,
    timeout: u64,
    buf: u64,
    r: u64,
) -> bool {
    if !message_buffer(buf) {
        r == EINVAL && after == before && user_after == user_before
    } else if !before.scheduling() {
        r == ENOSYS && after == before && user_after == user_before
    } else {
        exists|got: Option<Message>|
            {
                &&& #[trigger] received(before, after, timeout, got)
                &&& user_after == delivered_at(user_before, buf, got)
                &&& r == if got is Some {
                    0
                } else {
                    NO_MESSAGE
                }
            }
    }
}

/// Takes the next message into the buffer at `buf`. If there is none, the
/// process is blocked for at most `timeout` ticks.
pub fn sys_recv_msg(k: &mut Kernel, user: &mut PhysMemory, timeout: u64, buf: u64) -> (r: u64)
    requires
        old(k).wf(),
        old(user).wf(),
    ensures
        final(k).wf(),
        final(user).wf(),
        message_fetched(*old(k), *final(k), old(user)@, final(user)@, timeout, buf, r),
{
    if !validate_user_ptr(buf, MESSAGE_SIZE, MESSAGE_ALIGN) {
        return EINVAL;
    }
    let pid = ProcessId::new(k.global.current_pid);
    let got: Option<Message>;
    match get_global(&mut k.global) {
        Some(sched) => {
            got = sched.blocking_receive(pid, timeout);
        },
        None => {
            return ENOSYS;
        },
    }
    assert(received(*old(k), *k, timeout, got));
    match got {
        Some(msg) => {
            write_message(user, buf, msg);
            0
        },
        None => NO_MESSAGE,
    }
}

/// The message at `buf`, stamped with the current process, is sent to `to`.
pub open spec fn buffer_sent(
    before: Kernel,
    after: Kernel,
    user: crate::memory::ram::Ram,
    to: ProcessId,
    buf: u64,
    refused: u64,
    r: u64,
) -> bool {
    exists|msg: Message|
        {
            &&& #[trigger] sent(before, after, to, msg, refused, r)
            &&& crate::cpu::user_memory::is_message_at(user, buf as int, before.current(), msg)
        }
}

/// Outcome of sending a whole message from a buffer.
pub open spec fn message_posted(
    before: Kernel,
    after: Kernel,
    user: crate::memory::ram::Ram,
    to: u64,
    buf: u64,
    r: u64,
) -> bool {
    if !message_buffer(buf) {
        r == EINVAL && after == before
    } else if !before.scheduling() {
        r == ENOSYS && after == before
    } else {
        buffer_sent(before, after, user, ProcessId(to as u32), buf, EINVAL, r)
    }
}

/// Sends the message at `buf` to process `to`. Whatever sender the buffer
/// names, the receiver sees the PID of the caller.
pub fn sys_send_msg(k: &mut Kernel, user: &PhysMemory, to: u64, buf: u64) -> (r: u64)
    requires
        old(k).wf(),
        user.wf(),
        old(k).scheduling() ==> old(k).sched().countable(old(k).current(), ProcessId(to as u32)),
    ensures
        final(k).wf(),
        message_posted(*old(k), *final(k), user@, to, buf, r),
{
    if !validate_user_ptr(buf, MESSAGE_SIZE, MESSAGE_ALIGN) {
        return EINVAL;
    }
    let from = ProcessId::new(k.global.current_pid);
    let msg = read_message(user, buf, from);
    let r: u64 = match get_global(&mut k.global) {
        Some(sched) => {
            if sched.send_message(from, ProcessId::new(to as u32), msg) {
                0
            } else {
                EINVAL
            }
        },
        None => ENOSYS,
    };
    proof {
        if old(k).scheduling() {
            assert(sent(*old(k), *k, ProcessId(to as u32), msg, EINVAL, r));
        }
    }
    r
}

/// How long a call waits for its reply: 0 means forever.
pub open spec fn call_timeout(ticks: u64) -> u64 {
    if ticks == 0 {
        u64::MAX
    } else {
        ticks
    }
}

/// The tick at which a call that waits from `tick` on for `ticks` ticks gives
/// up, `u64::MAX` meaning never.
pub open spec fn wait_deadline(tick: u64, ticks: u64) -> u64 {
    if ticks == 0 || tick + ticks > u64::MAX {
        u64::MAX
    } else {
        (tick + ticks) as u64
    }
}

/// A message waits for the current process.
pub open spec fn answered(k: Kernel) -> bool {
    k.sched().has(k.current()) && k.sched().pcb(k.current()).mailbox@.len() > 0
}

/// The message that waits for the current process is taken into the buffer at
/// `reply`.
pub open spec fn reply_fetched(
    before: Kernel,
    after: Kernel,
    user_before: crate::memory::ram::Ram,
    user_after: crate::memory::ram::Ram,
    timeout: u64,
    reply: u64,
) -> bool {
    exists|got: Option<Message>|
        {
            &&& #[trigger] received(before, after, timeout, got)
            &&& got is Some
            &&& user_after == delivered_at(user_before, reply, got)
        }
}

/// Outcome of waiting for the reply to a call to `to`.
pub open spec fn awaited(
    before: Kernel,
    after: Kernel,
    user_before: crate::memory::ram::Ram,
    user_after: crate::memory::ram::Ram,
    to: ProcessId,
    reply: u64,
    ticks: u64,
    r: Reply,
) -> bool {
    let s = before.sched();
    if answered(before) {
        &&& reply_fetched(before, after, user_before, user_after, call_timeout(ticks), reply)
        &&& r == Reply::Value(0)
    } else {
        &&& user_after == user_before
        &&& if !s.has(before.current()) {
            r == Reply::Value(ETIMEDOUT) && after == before
        } else if crate::process::table::transitively_waits(s.slots(), to, before.current()) {
            r == Reply::Value(EDEADLK) && after == before
        } else {
            &&& received(before, after, call_timeout(ticks), None)
            &&& r == (Reply::Blocked { reply, deadline: wait_deadline(s.tick, ticks) })
        }
    }
}

/// Outcome of a synchronous call.
pub open spec fn called(
    before: Kernel,
    after: Kernel,
    user_before: crate::memory::ram::Ram,
    user_after: crate::memory::ram::Ram,
    to: u64,
    buf: u64,
    reply: u64,
    ticks: u64,
    r: Reply,
) -> bool {
    if !message_buffer(buf) || !message_buffer(reply) {
        r == Reply::Value(EINVAL) && after == before && user_after == user_before
    } else if !before.scheduling() {
        r == Reply::Value(ENOSYS) && after == before && user_after == user_before
    } else {
        exists|middle: Kernel, code: u64|
            {
                &&& #[trigger] buffer_sent(
                    before,
                    middle,
                    user_before,
                    ProcessId(to as u32),
                    buf,
                    EAGAIN,
                    code,
                )
                &&& if code == EAGAIN {
                    r == Reply::Value(EAGAIN) && after == middle && user_after == user_before
                } else {
                    awaited(
                        middle,
                        after,
                        user_before,
                        user_after,
                        ProcessId(to as u32),
                        reply,
                        ticks,
                        r,
                    )
                }
            }
    }
}

/// Sends the message at `buf` to process `to` and waits for the next message,
/// which goes to `reply`, for at most `ticks` ticks, 0 meaning forever.
///
/// 0 if a message is there already. Otherwise the caller is blocked, and the
/// call ends with `resume_call`. A wait that would never end, because `to`
/// waits for the caller, is refused with `EDEADLK`.
pub fn sys_call(
    k: &mut Kernel,
    user: &mut PhysMemory,
    to: u64,
    buf: u64,
    reply: u64,
    ticks: u64,
) -> (r: Reply)
    requires
        old(k).wf(),
        old(user).wf(),
        old(k).scheduling() ==> old(k).sched().countable(old(k).current(), ProcessId(to as u32)),
    ensures
        final(k).wf(),
        final(user).wf(),
        called(*old(k), *final(k), old(user)@, final(user)@, to, buf, reply, ticks, r),
{
    if !validate_user_ptr(buf, MESSAGE_SIZE, MESSAGE_ALIGN) {
        return Reply::Value(EINVAL);
    }
    if !validate_user_ptr(reply, MESSAGE_SIZE, MESSAGE_ALIGN) {
        return Reply::Value(EINVAL);
    }
    let caller = ProcessId::new(k.global.current_pid);
    let target = ProcessId::new(to as u32);
    let msg = read_message(user, buf, caller);
    let accepted: bool;
    match get_global(&mut k.global) {
        Some(sched) => {
            accepted = sched.send_message(caller, target, msg);
        },
        None => {
            return Reply::Value(ENOSYS);
        },
    }
    let ghost middle = *k;
    let code: u64 = if accepted {
        0
    } else {
        EAGAIN
    };
    proof {
        assert(sent(*old(k), middle, target, msg, EAGAIN, code));
        assert(buffer_sent(*old(k), middle, old(user)@, target, buf, EAGAIN, code));
    }
    if !accepted {
        return Reply::Value(EAGAIN);
    }
    await_reply(k, user, target, reply, ticks)
}

/// Waits for the reply to a call to `to`.
fn await_reply(
    k: &mut Kernel,
    user: &mut PhysMemory,
    to: ProcessId,
    reply: u64,
    ticks: u64,
) -> (r: Reply)
    requires
        old(k).wf(),
        old(user).wf(),
        old(k).scheduling(),
        message_buffer(reply),
    ensures
        final(k).wf(),
        final(user).wf(),
        awaited(*old(k), *final(k), old(user)@, final(user)@, to, reply, ticks, r),
{
    let caller = ProcessId::new(k.global.current_pid);
    let timeout: u64 = if ticks == 0 {
        u64::MAX
    } else {
        ticks
    };
    let mut got: Option<Message> = None;
    let mut deadline: u64 = u64::MAX;
    if let Some(sched) = get_global(&mut k.global) {
        match sched.process_table.get_process_ref(caller) {
            Some(pcb) => {
                if pcb.mailbox.is_empty() && sched.detect_deadlock(caller, to) {
                    return Reply::Value(EDEADLK);
                }
            },
            None => {
                return Reply::Value(ETIMEDOUT);
            },
        }
        if ticks != 0 {
            deadline = sched.tick.saturating_add(ticks);
        }
        got = sched.blocking_receive(caller, timeout);
    }
    assert(received(*old(k), *k, call_timeout(ticks), got));
    match got {
        Some(answer) => {
            write_message(user, reply, answer);
            Reply::Value(0)
        },
        None => Reply::Blocked { reply, deadline },
    }
}

/// Ticks that are left at `tick` until `deadline`, `u64::MAX` if it never comes.
pub open spec fn ticks_left(tick: u64, deadline: u64) -> u64 {
    if deadline == u64::MAX {
        u64::MAX
    } else {
        (deadline - tick) as u64
    }
}

/// How a call that was blocked goes on when its caller runs again.
pub open spec fn call_resumed(
    before: Kernel,
    after: Kernel,
    user_before: crate::memory::ram::Ram,
    user_after: crate::memory::ram::Ram,
    reply: u64,
    deadline: u64,
    r: Reply,
) -> bool {
    let s = before.sched();
    if !message_buffer(reply) {
        r == Reply::Value(EINVAL) && after == before && user_after == user_before
    } else if !before.scheduling() {
        r == Reply::Value(ENOSYS) && after == before && user_after == user_before
    } else if answered(before) {
        &&& reply_fetched(before, after, user_before, user_after, 0, reply)
        &&& r == Reply::Value(0)
    } else {
        &&& user_after == user_before
        &&& if !s.has(before.current()) || (deadline != u64::MAX && deadline <= s.tick) {
            r == Reply::Value(ETIMEDOUT) && after == before
        } else {
            &&& received(before, after, ticks_left(s.tick, deadline), None)
            &&& r == (Reply::Blocked { reply, deadline })
        }
    }
}

/// Goes on with a call that was blocked, when its caller runs again: 0 if a
/// message came, which then goes to `reply`, and `ETIMEDOUT` if the deadline
/// has passed without one. A caller that was woken by anything else is blocked
/// again.
pub fn resume_call(k: &mut Kernel, user: &mut PhysMemory, reply: u64, deadline: u64) -> (r: Reply)
    requires
        old(k).wf(),
        old(user).wf(),
    ensures
        final(k).wf(),
        final(user).wf(),
        call_resumed(*old(k), *final(k), old(user)@, final(user)@, reply, deadline, r),
{
    if !validate_user_ptr(reply, MESSAGE_SIZE, MESSAGE_ALIGN) {
        return Reply::Value(EINVAL);
    }
    let caller = ProcessId::new(k.global.current_pid);
    let mut got: Option<Message> = None;
    let ghost mut timeout: u64 = 0;
    match get_global(&mut k.global) {
        Some(sched) => {
            let empty: bool = match sched.process_table.get_process_ref(caller) {
                Some(pcb) => pcb.mailbox.is_empty(),
                None => {
                    return Reply::Value(ETIMEDOUT);
                },
            };
            if empty && deadline != u64::MAX && deadline <= sched.tick {
                return Reply::Value(ETIMEDOUT);
            }
            let left: u64 = if !empty {
                0
            } else if deadline == u64::MAX {
                u64::MAX
            } else {
                deadline - sched.tick
            };
            got = sched.blocking_receive(caller, left);
            proof {
                timeout = left;
            }
        },
        None => {
            return Reply::Value(ENOSYS);
        },
    }
    assert(received(*old(k), *k, timeout, got));
    match got {
        Some(answer) => {
            write_message(user, reply, answer);
            Reply::Value(0)
        },
        None => Reply::Blocked { reply, deadline },
    }
}

// ── Services ─────────────────────────────────────────────────────────────────
/// A whole name fits at `buf`.
pub open spec fn name_buffer(buf: u64) -> bool {
    crate::cpu::user_memory::user_range(buf, 16, 1)
}

/// The service name at `buf`.
pub open spec fn service_name(user: crate::memory::ram::Ram, buf: u64) -> Seq<u8> {
    crate::service_registry::trimmed(crate::cpu::user_memory::name_at(user, buf as int))
}

/// Outcome of registering the current process under the name at `buf`.
pub open spec fn name_registered(
    before: Kernel,
    after: Kernel,
    user: crate::memory::ram::Ram,
    buf: u64,
    r: u64,
) -> bool {
    if !name_buffer(buf) {
        r == EINVAL && after == before
    } else {
        &&& r == 0 || r == EINVAL
        &&& crate::service_registry::registered(
            before.services.entries@,
            after.services.entries@,
            service_name(user, buf),
            before.global.current_pid,
            r == 0,
        )
        &&& after.uart_irq.pid == if r == 0 && service_name(user, buf) == UART_DRV_NAME@ {
            before.global.current_pid
        } else {
            before.uart_irq.pid
        }
        &&& after.global == before.global
        &&& after.mem == before.mem
        &&& after.ticks == before.ticks
    }
}

/// Registers the caller under the name at `buf`. The serial driver receives the
/// bytes of the serial port from then on.
pub fn sys_register(k: &mut Kernel, user: &PhysMemory, buf: u64) -> (r: u64)
    requires
        old(k).wf(),
        user.wf(),
    ensures
        final(k).wf(),
        name_registered(*old(k), *final(k), user@, buf, r),
{
    if !validate_user_ptr(buf, 16, 1) {
        return EINVAL;
    }
    let pid: u32 = k.global.current_pid;
    let name = read_name(user, buf);
    if register(&mut k.services, &name, pid) {
        if same_bytes(trim_name(&name), &UART_DRV_NAME) {
            set_uart_drv_pid(&mut k.uart_irq, pid);
        }
        0
    } else {
        EINVAL
    }
}

/// What looking up the name at `buf` gives back.
pub open spec fn name_looked_up(k: Kernel, user: crate::memory::ram::Ram, buf: u64) -> u64 {
    if name_buffer(buf) {
        match crate::service_registry::provider(k.services.entries@, service_name(user, buf)) {
            Some(pid) => pid as u64,
            None => EINVAL,
        }
    } else {
        EINVAL
    }
}

/// The process registered under the name at `buf`.
pub fn sys_lookup(k: &Kernel, user: &PhysMemory, buf: u64) -> (r: u64)
    requires
        user.wf(),
    ensures
        r == name_looked_up(*k, user@, buf),
{
    if !validate_user_ptr(buf, 16, 1) {
        return EINVAL;
    }
    let name = read_name(user, buf);
    match lookup(&k.services, &name) {
        Some(pid) => pid as u64,
        None => EINVAL,
    }
}

// ── Capabilities ─────────────────────────────────────────────────────────────
/// The slot, or the error code if there is none.
pub open spec fn slot_or(slot: Option<usize>, error: u64) -> u64 {
    match slot {
        Some(s) => s as u64,
        None => error,
    }
}

fn slot_value(slot: Option<usize>, error: u64) -> (r: u64)
    ensures
        r == slot_or(slot, error),
{
    match slot {
        Some(s) => s as u64,
        None => error,
    }
}

/// Outcome of storing `cap` for the current process.
pub open spec fn cap_issued(
    before: Kernel,
    after: Kernel,
    cap: Capability,
    full: u64,
    r: u64,
) -> bool {
    &&& after.differs_in_sched(&before)
    &&& exists|slot: Option<usize>|
        #[trigger] crate::scheduler::round_robin::cap_placed(
            before.sched(),
            after.sched(),
            before.current(),
            cap,
            slot,
        ) && r == slot_or(slot, full)
}

/// Outcome of granting a capability.
pub open spec fn granted(before: Kernel, after: Kernel, slot: u64, to: u64, r: u64) -> bool {
    if !before.scheduling() {
        r == ENOSYS && after == before
    } else {
        let cap = crate::scheduler::round_robin::cap_at(
            before.sched().slots(),
            before.current(),
            slot as int,
        );
        &&& after.differs_in_sched(&before)
        &&& exists|made: Option<usize>|
            {
                &&& #[trigger] crate::scheduler::round_robin::cap_granted(
                    before.sched(),
                    after.sched(),
                    before.current(),
                    slot as int,
                    ProcessId(to as u32),
                    made,
                )
                &&& r == slot_or(
                    made,
                    if cap is Some && cap->0.rights & CAP_G == 0 {
                        EPERM
                    } else {
                        EINVAL
                    },
                )
            }
    }
}

/// Copies the capability in slot `slot` of the caller to process `to`, and
/// gives the slot it got there.
pub fn sys_cap_grant(k: &mut Kernel, slot: u64, to: u64) -> (r: u64)
    requires
        old(k).wf(),
    ensures
        final(k).wf(),
        granted(*old(k), *final(k), slot, to, r),
{
    let caller = ProcessId::new(k.global.current_pid);
    match get_global(&mut k.global) {
        Some(sched) => {
            if slot >= CAP_TABLE_SIZE as u64 {
                assert(crate::scheduler::round_robin::cap_granted(
                    *sched,
                    *sched,
                    caller,
                    slot as int,
                    ProcessId(to as u32),
                    None,
                ));
                return EINVAL;
            }
            let ghost first = *sched;
            let rights = sched.cap_slot_rights(caller, slot as usize);
            let made = sched.cap_grant(caller, slot as usize, ProcessId::new(to as u32));
            assert(crate::scheduler::round_robin::cap_granted(
                first,
                *sched,
                caller,
                slot as int,
                ProcessId(to as u32),
                made,
            ));
            let error: u64 = match rights {
                Some(r) => {
                    if r & CAP_G == 0 {
                        EPERM
                    } else {
                        EINVAL
                    }
                },
                None => EINVAL,
            };
            slot_value(made, error)
        },
        None => ENOSYS,
    }
}

/// The rights a new channel gets: those asked for, or read, write and grant.
pub open spec fn channel_rights(asked: u64) -> u8 {
    if asked == 0 {
        CAP_R | CAP_W | CAP_G
    } else {
        (asked as u8) & (CAP_R | CAP_W | CAP_G | CAP_X)
    }
}

/// Outcome of creating a channel to process `target`.
pub open spec fn channel_bound(
    before: Kernel,
    after: Kernel,
    target: u64,
    rights: u64,
    r: u64,
) -> bool {
    if !before.scheduling() {
        r == ENOSYS && after == before
    } else if target as u32 == 0 {
        r == EINVAL && after == before
    } else {
        cap_issued(
            before,
            after,
            Capability {
                kind: CapKind::Channel,
                rights: channel_rights(rights),
                object_id: target as u32,
            },
            EINVAL,
            r,
        )
    }
}

/// Gives the caller a channel capability for process `target`.
pub fn sys_chan_bind(k: &mut Kernel, target: u64, rights: u64) -> (r: u64)
    requires
        old(k).wf(),
    ensures
        final(k).wf(),
        channel_bound(*old(k), *final(k), target, rights, r),
{
    let caller = ProcessId::new(k.global.current_pid);
    let granted_rights: u8 = if rights == 0 {
        CAP_R | CAP_W | CAP_G
    } else {
        (rights as u8) & (CAP_R | CAP_W | CAP_G | CAP_X)
    };
    let cap = Capability::new(CapKind::Channel, granted_rights, target as u32);
    let slot: Option<usize>;
    match get_global(&mut k.global) {
        Some(sched) => {
            if target as u32 == 0 {
                return EINVAL;
            }
            slot = sched.cap_alloc(caller, cap);
        },
        None => {
            return ENOSYS;
        },
    }
    assert(crate::scheduler::round_robin::cap_placed(
        old(k).sched(),
        k.sched(),
        old(k).current(),
        cap,
        slot,
    ));
    slot_value(slot, EINVAL)
}

/// The capability of the current process in slot `slot`.
pub open spec fn own_cap(k: Kernel, slot: u64) -> Option<Capability> {
    crate::scheduler::round_robin::cap_at(k.sched().slots(), k.current(), slot as int)
}

/// The process the current one may send to through slot `slot`.
pub open spec fn channel_target(k: Kernel, slot: u64) -> Option<ProcessId> {
    match own_cap(k, slot) {
        Some(c) => if c.kind is Channel && c.rights & CAP_W != 0 {
            Some(ProcessId(c.object_id))
        } else {
            None
        },
        None => None,
    }
}

/// Outcome of sending through a channel capability.
pub open spec fn sent_by_cap(
    before: Kernel,
    after: Kernel,
    user: crate::memory::ram::Ram,
    slot: u64,
    buf: u64,
    r: u64,
) -> bool {
    if !message_buffer(buf) {
        r == EINVAL && after == before
    } else if !before.scheduling() {
        r == ENOSYS && after == before
    } else if slot >= CAP_TABLE_SIZE {
        r == EINVAL && after == before
    } else {
        match channel_target(before, slot) {
            Some(to) => buffer_sent(before, after, user, to, buf, EINVAL, r),
            None => r == EPERM && after == before,
        }
    }
}

/// Sends the message at `buf` through the channel capability in slot `slot`.
/// Without a channel that may be written to, nothing is sent.
pub fn sys_send_cap(k: &mut Kernel, user: &PhysMemory, slot: u64, buf: u64) -> (r: u64)
    requires
        old(k).wf(),
        user.wf(),
        old(k).scheduling() && channel_target(*old(k), slot) is Some ==> old(k).sched().countable(
            old(k).current(),
            channel_target(*old(k), slot)->0,
        ),
    ensures
        final(k).wf(),
        sent_by_cap(*old(k), *final(k), user@, slot, buf, r),
{
    if !validate_user_ptr(buf, MESSAGE_SIZE, MESSAGE_ALIGN) {
        return EINVAL;
    }
    let caller = ProcessId::new(k.global.current_pid);
    let msg = read_message(user, buf, caller);
    let target: ProcessId;
    let r: u64;
    match get_global(&mut k.global) {
        Some(sched) => {
            if slot >= CAP_TABLE_SIZE as u64 {
                return EINVAL;
            }
            target = match sched.cap_slot_info(caller, slot as usize) {
                Some((kind, rights, object_id)) => {
                    if matches!(kind, CapKind::Channel) && rights & CAP_W != 0 {
                        ProcessId::new(object_id)
                    } else {
                        return EPERM;
                    }
                },
                None => {
                    return EPERM;
                },
            };
            r = if sched.send_message(caller, target, msg) {
                0
            } else {
                EINVAL
            };
        },
        None => {
            return ENOSYS;
        },
    }
    assert(sent(*old(k), *k, target, msg, EINVAL, r));
    r
}

/// Outcome of obtaining a channel to a named service.
pub open spec fn service_channel(
    before: Kernel,
    after: Kernel,
    user: crate::memory::ram::Ram,
    buf: u64,
    r: u64,
) -> bool {
    if !name_buffer(buf) {
        r == EINVAL && after == before
    } else {
        match crate::service_registry::provider(
            before.services.entries@,
            service_name(user, buf),
        ) {
            None => r == ENOENT && after == before,
            Some(pid) => if !before.scheduling() {
                r == ENOSYS && after == before
            } else {
                cap_issued(
                    before,
                    after,
                    Capability { kind: CapKind::Channel, rights: CAP_W, object_id: pid },
                    ENOMEM,
                    r,
                )
            },
        }
    }
}

/// Gives the caller a channel capability, for writing only, to the service
/// whose name is at `buf`.
pub fn sys_lookup_cap(k: &mut Kernel, user: &PhysMemory, buf: u64) -> (r: u64)
    requires
        old(k).wf(),
        user.wf(),
    ensures
        final(k).wf(),
        service_channel(*old(k), *final(k), user@, buf, r),
{
    if !validate_user_ptr(buf, 16, 1) {
        return EINVAL;
    }
    let name = read_name(user, buf);
    let target: u32 = match lookup(&k.services, &name) {
        Some(pid) => pid,
        None => return ENOENT,
    };
    let caller = ProcessId::new(k.global.current_pid);
    let cap = Capability::new(CapKind::Channel, CAP_W, target);
    let slot: Option<usize>;
    match get_global(&mut k.global) {
        Some(sched) => {
            slot = sched.cap_alloc(caller, cap);
        },
        None => {
            return ENOSYS;
        },
    }
    assert(crate::scheduler::round_robin::cap_placed(
        old(k).sched(),
        k.sched(),
        old(k).current(),
        cap,
        slot,
    ));
    slot_value(slot, ENOMEM)
}

// ── Programs ─────────────────────────────────────────────────────────────────
/// What a request to start a program gives back: the new PID, or `EINVAL`.
pub open spec fn started_value(made: Option<u32>) -> u64 {
    match made {
        Some(pid) => pid as u64,
        None => EINVAL,
    }
}

/// Outcome of starting the program in the `len` bytes at `ptr`.
pub open spec fn program_requested(
    before: Kernel,
    after: Kernel,
    user: crate::memory::ram::Ram,
    p: Programs,
    ptr: u64,
    len: u64,
    priority: u64,
    r: u64,
) -> bool {
    if !crate::cpu::user_memory::readable(user, ptr, len) {
        r == EINVAL && after == before
    } else {
        exists|made: Option<u32>|
            {
                &&& #[trigger] crate::elf_spawn::spawn_served(
                    p.hooks,
                    before,
                    after,
                    crate::cpu::user_memory::bytes_at(user, ptr as int, len as int),
                    (priority & 0xFF) as u8,
                    p.trampoline,
                    made,
                )
                &&& r == started_value(made)
            }
    }
}

/// Starts the program in the `len` bytes at `ptr` of user memory and gives its
/// PID. A `priority` of 0 leaves the default.
pub fn sys_spawn_elf(
    k: &mut Kernel,
    user: &PhysMemory,
    p: &Programs,
    ptr: u64,
    len: u64,
    priority: u64,
) -> (r: u64)
    requires
        old(k).wf(),
        user.wf(),
        crate::memory::paging::table_addr(old(k).global.kernel_pml4),
        old(k).scheduling() ==> old(k).sched().process_table.next_pid < u32::MAX,
    ensures
        final(k).wf(),
        program_requested(*old(k), *final(k), user@, *p, ptr, len, priority, r),
{
    let data = match read_bytes(user, ptr, len) {
        Some(d) => d,
        None => return EINVAL,
    };
    let prio: u8 = (priority & 0xFF) as u8;
    let made = call_elf_spawn(&p.hooks, k, data, prio, p.trampoline);
    assert(crate::elf_spawn::spawn_served(
        p.hooks,
        *old(k),
        *k,
        crate::cpu::user_memory::bytes_at(user@, ptr as int, len as int),
        prio,
        p.trampoline,
        made,
    ));
    match made {
        Some(pid) => pid as u64,
        None => EINVAL,
    }
}

/// Outcome of starting the server with the name at `buf` anew.
pub open spec fn restart_requested(
    before: Kernel,
    after: Kernel,
    user: crate::memory::ram::Ram,
    p: Programs,
    buf: u64,
    r: u64,
) -> bool {
    if !name_buffer(buf) {
        r == EINVAL && after == before
    } else {
        exists|made: Option<u32>|
            {
                &&& #[trigger] crate::elf_spawn::restart_served(
                    p.hooks,
                    before,
                    after,
                    p.images,
                    crate::cpu::user_memory::name_at(user, buf as int),
                    p.trampoline,
                    made,
                )
                &&& r == started_value(made)
            }
    }
}

/// Starts the server with the name at `buf` anew and gives its PID.
pub fn sys_restart_server(k: &mut Kernel, user: &PhysMemory, p: &Programs, buf: u64) -> (r: u64)
    requires
        old(k).wf(),
        user.wf(),
        crate::memory::paging::table_addr(old(k).global.kernel_pml4),
        old(k).scheduling() ==> old(k).sched().process_table.next_pid < u32::MAX,
    ensures
        final(k).wf(),
        restart_requested(*old(k), *final(k), user@, *p, buf, r),
{
    if !validate_user_ptr(buf, 16, 1) {
        return EINVAL;
    }
    let name = read_name(user, buf);
    let made = call_restart_server(&p.hooks, k, &p.images, &name, p.trampoline);
    assert(crate::elf_spawn::restart_served(
        p.hooks,
        *old(k),
        *k,
        p.images,
        crate::cpu::user_memory::name_at(user@, buf as int),
        p.trampoline,
        made,
    ));
    match made {
        Some(pid) => pid as u64,
        None => EINVAL,
    }
}

// ── Dispatch ─────────────────────────────────────────────────────────────────
/// What a read of the serial port gives back: the byte, or `u64::MAX` if there
/// was none.
pub fn uart_read_value(byte: Option<u8>) -> (r: u64)
    ensures
        r == match byte {
            Some(b) => b as u64,
            None => u64::MAX,
        },
{
    match byte {
        Some(b) => b as u64,
        None => u64::MAX,
    }
}

/// The counters that system call `number` advances have room, and the page
/// tables it works on are addressable.
pub open spec fn dispatchable(k: Kernel, number: u64, a0: u64, a1: u64) -> bool {
    &&& k.scheduling() && (number == SYS_SEND || number == SYS_SEND_MSG || number == SYS_CALL)
        ==> k.sched().countable(k.current(), ProcessId(a0 as u32))
    &&& k.scheduling() && number == SYS_SEND_CAP && channel_target(k, a0) is Some
        ==> k.sched().countable(k.current(), channel_target(k, a0)->0)
    &&& k.scheduling() && (number == SYS_SPAWN || number == SYS_SPAWN_ELF || number
        == SYS_RESTART_SERVER) ==> k.sched().process_table.next_pid < u32::MAX
    &&& number == SYS_SPAWN_ELF || number == SYS_RESTART_SERVER
        ==> crate::memory::paging::table_addr(k.global.kernel_pml4)
    &&& k.scheduling() && number == SYS_SETRT && k.sched().has(named_process(k, a0))
        ==> k.sched().tick + a1 <= u64::MAX
    &&& number == SYS_MAP || number == SYS_MAP_SHARE || number == SYS_MAP_CAP
        ==> crate::memory::paging::table_addr(k.current_pml4())
}

/// Outcome of a system call that gives back `r` and leaves user memory alone.
pub open spec fn quiet_call(
    before: Kernel,
    after: Kernel,
    user: crate::memory::ram::Ram,
    p: Programs,
    number: u64,
    a0: u64,
    a1: u64,
    a2: u64,
    a3: u64,
    r: u64,
) -> bool {
    let target = named_process(before, a0);
    let block = before.sched().pcb(target);
    if number == SYS_YIELD {
        r == 0 && yielded(before, after)
    } else if number == SYS_EXIT {
        r == a0 && exited(before, after)
    } else if number == SYS_GETPID {
        r == before.global.current_pid && after == before
    } else if number == SYS_SEND {
        words_sent(before, after, a0, a1, a2, r)
    } else if number == SYS_RECV {
        word_received(before, after, a0, r)
    } else if number == SYS_NOTIFY {
        notified(before, after, a0, a1, r)
    } else if number == SYS_SEND_MSG {
        message_posted(before, after, user, a0, a1, r)
    } else if number == SYS_SPAWN {
        spawned(before, after, a0, a1, a2, r)
    } else if number == SYS_MAP {
        crate::cpu::mapping::page_mapped(before, after, a0, a1, a2, r)
    } else if number == SYS_REGISTER {
        name_registered(before, after, user, a0, r)
    } else if number == SYS_LOOKUP {
        after == before && r == name_looked_up(before, user, a0)
    } else if number == SYS_CLOCK {
        after == before && r == clock(before.ticks)
    } else if number == SYS_SETPRIO {
        process_changed(
            before,
            after,
            target,
            ProcessControlBlock { priority: (a1 & 0xFF) as u8, ..block },
            r,
        )
    } else if number == SYS_SETRT {
        process_changed(
            before,
            after,
            target,
            crate::scheduler::round_robin::realtime(block, before.sched().tick, a1),
            r,
        )
    } else if number == SYS_CAP_GRANT {
        granted(before, after, a0, a1, r)
    } else if number == SYS_SETQUOTA {
        process_changed(before, after, target, limited(block, a1, a2, a3), r)
    } else if number == SYS_CHAN_BIND {
        channel_bound(before, after, a0, a1, r)
    } else if number == SYS_SEND_CAP {
        sent_by_cap(before, after, user, a0, a1, r)
    } else if number == SYS_MAP_SHARE {
        crate::cpu::mapping::page_shared(before, after, a0, a1, r)
    } else if number == SYS_MAP_CAP {
        crate::cpu::mapping::cap_mapped(before, after, a0, a1, a2, r)
    } else if number == SYS_LOOKUP_CAP {
        service_channel(before, after, user, a0, r)
    } else if number == SYS_SPAWN_ELF {
        program_requested(before, after, user, p, a0, a1, a2, r)
    } else if number == SYS_RESTART_SERVER {
        restart_requested(before, after, user, p, a0, r)
    } else {
        r == ENOSYS && after == before
    }
}

/// Outcome `r` of system call `number`.
pub open spec fn dispatched(
    before: Kernel,
    after: Kernel,
    user_before: crate::memory::ram::Ram,
    user_after: crate::memory::ram::Ram,
    p: Programs,
    number: u64,
    a0: u64,
    a1: u64,
    a2: u64,
    a3: u64,
    r: Reply,
) -> bool {
    if number == SYS_UART_WRITE {
        r == Reply::UartWrite(a0 as u8) && after == before && user_after == user_before
    } else if number == SYS_UART_READ {
        r == Reply::UartRead && after == before && user_after == user_before
    } else if number == SYS_RECV_MSG {
        &&& r is Value
        &&& message_fetched(before, after, user_before, user_after, a0, a1, r->Value_0)
    } else if number == SYS_CALL {
        called(before, after, user_before, user_after, a0, a1, a2, a3, r)
    } else {
        &&& r is Value
        &&& user_after == user_before
        &&& quiet_call(before, after, user_before, p, number, a0, a1, a2, a3, r->Value_0)
    }
}

/// Carries out system call `number`. A number that names no call gives `ENOSYS`.
pub fn dispatch_syscall(
    k: &mut Kernel,
    user: &mut PhysMemory,
    programs: &Programs,
    number: u64,
    a0: u64,
    a1: u64,
    a2: u64,
    a3: u64,
    _a4: u64,
    _a5: u64,
) -> (r: Reply)
    requires
        old(k).wf(),
        old(user).wf(),
        dispatchable(*old(k), number, a0, a1),
    ensures
        final(k).wf(),
        final(user).wf(),
        dispatched(
            *old(k),
            *final(k),
            old(user)@,
            final(user)@,
            *programs,
            number,
            a0,
            a1,
            a2,
            a3,
            r,
        ),
{
    if number == SYS_UART_WRITE {
        return Reply::UartWrite(a0 as u8);
    }
    if number == SYS_UART_READ {
        return Reply::UartRead;
    }
    if number == SYS_CALL {
        return sys_call(k, user, a0, a1, a2, a3);
    }
    let value: u64 = match number {
        SYS_YIELD => sys_yield(k),
        SYS_EXIT => sys_exit(k, a0),
        SYS_GETPID => sys_getpid(k),
        SYS_SEND => sys_send(k, a0, a1, a2),
        SYS_RECV => sys_recv(k, a0),
        SYS_NOTIFY => sys_notify(k, a0, a1),
        SYS_RECV_MSG => sys_recv_msg(k, user, a0, a1),
        SYS_SEND_MSG => sys_send_msg(k, user, a0, a1),
        SYS_SPAWN => sys_spawn(k, a0, a1, a2),
        SYS_MAP => sys_map(k, a0, a1, a2),
        SYS_REGISTER => sys_register(k, user, a0),
        SYS_LOOKUP => sys_lookup(k, user, a0),
        SYS_CLOCK => sys_clock(k),
        SYS_SETPRIO => sys_setprio(k, a0, a1),
        SYS_SETRT => sys_setrt(k, a0, a1),
        SYS_CAP_GRANT => sys_cap_grant(k, a0, a1),
        SYS_SETQUOTA => sys_setquota(k, a0, a1, a2, a3),
        SYS_CHAN_BIND => sys_chan_bind(k, a0, a1),
        SYS_SEND_CAP => sys_send_cap(k, user, a0, a1),
        SYS_MAP_SHARE => sys_map_share(k, a0, a1),
        SYS_MAP_CAP => sys_map_cap(k, a0, a1, a2),
        SYS_LOOKUP_CAP => sys_lookup_cap(k, user, a0),
        SYS_SPAWN_ELF => sys_spawn_elf(k, user, programs, a0, a1, a2),
        SYS_RESTART_SERVER => sys_restart_server(k, user, programs, a0),
        _ => ENOSYS,
    };
    Reply::Value(value)
}

} // verus!
