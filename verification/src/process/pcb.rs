//! Kernel stacks, capabilities, saved contexts and process control blocks.

use vstd::prelude::*;

use crate::bytes::{put_u64, zero_range};
use crate::ipc::MessageQueue;
use crate::process::ProcessId;

verus! {

// ── Kernel stacks ────────────────────────────────────────────────────────────
/// Usable bytes of one kernel stack.
pub const KERNEL_STACK_SIZE: usize = 8192;

/// Guard bytes below each kernel stack; never touched, unmapped at boot.
pub const KERNEL_GUARD_SIZE: usize = 4096;

/// Guard and stack together.
pub const KERNEL_SLOT_SIZE: usize = 12288;

/// Number of kernel stack slots.
pub const MAX_KERNEL_STACKS: usize = 32;

/// Bytes of all kernel stack slots together.
pub const KERNEL_STACKS_BYTES: usize = 393216;

/// The kernel stack slots and the record of which are free.
///
/// Slot `id` occupies `KERNEL_SLOT_SIZE` bytes from offset `id * KERNEL_SLOT_SIZE`:
/// first the guard page, then the stack, which grows downward from the slot's end.
#[derive(Debug)]
pub struct KernelStackPool {
    /// Address of slot 0; page aligned so that guard pages cover whole pages.
    pub base: u64,
    /// Contents of all slots.
    pub memory: Vec<u8>,
    /// Slots below this one have been handed out at least once.
    pub next: usize,
    /// Returned slots, most recently returned last.
    pub reclaim: Vec<usize>,
}

impl KernelStackPool {
    pub open spec fn wf(&self) -> bool {
        &&& self.base + KERNEL_STACKS_BYTES <= u64::MAX
        &&& self.memory@.len() == KERNEL_STACKS_BYTES
        &&& self.next <= MAX_KERNEL_STACKS
        &&& self.reclaim@.len() <= MAX_KERNEL_STACKS
        &&& forall|i: int|
            0 <= i < self.reclaim@.len() ==> (#[trigger] self.reclaim@[i]) < MAX_KERNEL_STACKS
    }

    /// Every returned slot was handed out before, and is listed once.
    pub open spec fn reclaim_distinct(&self) -> bool {
        &&& self.reclaim@.no_duplicates()
        &&& forall|i: int| 0 <= i < self.reclaim@.len() ==> (#[trigger] self.reclaim@[i]) < self.next
    }

    /// The slot the next allocation hands out.
    pub open spec fn candidate(&self) -> Option<usize> {
        if self.reclaim@.len() > 0 {
            Some(self.reclaim@.last())
        } else if self.next < MAX_KERNEL_STACKS {
            Some(self.next)
        } else {
            None
        }
    }

    /// Address of the guard page of slot `id`.
    pub open spec fn guard(&self, id: int) -> int {
        self.base + id * KERNEL_SLOT_SIZE
    }

    /// Address one past the stack of slot `id`.
    pub open spec fn top(&self, id: int) -> int {
        self.base + id * KERNEL_SLOT_SIZE + KERNEL_SLOT_SIZE
    }

    /// A pool of unused, zeroed slots at `base`.
    pub fn new(base: u64) -> (r: Self)
        requires
            base + KERNEL_STACKS_BYTES <= u64::MAX,
        ensures
            r.wf(),
            r.reclaim_distinct(),
            r.base == base,
            r.next == 0,
            r.reclaim@ == Seq::<usize>::empty(),
            forall|k: int| 0 <= k < KERNEL_STACKS_BYTES ==> r.memory@[k] == 0,
    {
        let memory: Vec<u8> = vec![0u8; KERNEL_STACKS_BYTES];
        KernelStackPool { base, memory, next: 0, reclaim: Vec::new() }
    }
}

/// Pool contents after the usable part of slot `id` is cleared.
pub open spec fn stack_cleared(memory: Seq<u8>, id: int) -> Seq<u8> {
    crate::bytes::zeroed(memory, id * KERNEL_SLOT_SIZE + KERNEL_GUARD_SIZE, KERNEL_STACK_SIZE as int)
}

/// Allocates a kernel stack, preferring the most recently returned slot.
///
/// Gives `(id, guard page address, stack top address)`, or `None` if every slot
/// is in use. The stack handed out is all zero.
pub fn alloc_kernel_stack(pool: &mut KernelStackPool) -> (r: Option<(usize, u64, u64)>)
    requires
        old(pool).wf(),
    ensures
        final(pool).wf(),
        final(pool).base == old(pool).base,
        old(pool).candidate() is None ==> r is None && *final(pool) == *old(pool),
        old(pool).candidate() matches Some(id) ==> {
            &&& r == Some((id, old(pool).guard(id as int) as u64, old(pool).top(id as int) as u64))
            &&& final(pool).memory@ == stack_cleared(old(pool).memory@, id as int)
            &&& if old(pool).reclaim@.len() > 0 {
                &&& final(pool).reclaim@ == old(pool).reclaim@.drop_last()
                &&& final(pool).next == old(pool).next
            } else {
                &&& final(pool).reclaim@ == old(pool).reclaim@
                &&& final(pool).next == old(pool).next + 1
            }
        },
{
    let id: usize = if pool.reclaim.len() > 0 {
        pool.reclaim.pop().unwrap()
    } else {
        if pool.next >= MAX_KERNEL_STACKS {
            return None;
        }
        let id: usize = pool.next;
        pool.next = id + 1;
        id
    };
    zero_range(
        &mut pool.memory,
        id * KERNEL_SLOT_SIZE + KERNEL_GUARD_SIZE,
        KERNEL_STACK_SIZE,
    );
    let guard: u64 = pool.base + id as u64 * KERNEL_SLOT_SIZE as u64;
    let top: u64 = guard + KERNEL_SLOT_SIZE as u64;
    Some((id, guard, top))
}

/// Returns slot `stack_id` to the pool and clears its stack, so that the next
/// owner sees nothing of this one. An out-of-range id is ignored.
pub fn free_kernel_stack(pool: &mut KernelStackPool, stack_id: usize)
    requires
        old(pool).wf(),
    ensures
        final(pool).wf(),
        final(pool).base == old(pool).base,
        final(pool).next == old(pool).next,
        stack_id >= MAX_KERNEL_STACKS ==> *final(pool) == *old(pool),
        stack_id < MAX_KERNEL_STACKS ==> {
            &&& final(pool).memory@ == stack_cleared(old(pool).memory@, stack_id as int)
            &&& final(pool).reclaim@ == if old(pool).reclaim@.len() < MAX_KERNEL_STACKS {
                old(pool).reclaim@.push(stack_id)
            } else {
                old(pool).reclaim@
            }
        },
{
    if stack_id >= MAX_KERNEL_STACKS {
        return ;
    }
    zero_range(
        &mut pool.memory,
        stack_id * KERNEL_SLOT_SIZE + KERNEL_GUARD_SIZE,
        KERNEL_STACK_SIZE,
    );
    if pool.reclaim.len() < MAX_KERNEL_STACKS {
        pool.reclaim.push(stack_id);
    }
}

/// Address of the guard page of slot `stack_id`.
pub fn kernel_stack_guard_addr(pool: &KernelStackPool, stack_id: usize) -> (r: Option<u64>)
    requires
        pool.wf(),
    ensures
        r == (if stack_id < MAX_KERNEL_STACKS {
            Some(pool.guard(stack_id as int) as u64)
        } else {
            None
        }),
{
    if stack_id >= MAX_KERNEL_STACKS {
        return None;
    }
    Some(pool.base + stack_id as u64 * KERNEL_SLOT_SIZE as u64)
}

// ── Capabilities ─────────────────────────────────────────────────────────────
/// The kind of object a capability refers to.
#[derive(Copy, Clone, Debug, PartialEq, Eq, Structural)]
pub enum CapKind {
    /// Empty or revoked slot.
    Empty,
    /// IPC endpoint.
    Channel,
    /// Process handle.
    Process,
    /// Physical memory, named by frame number.
    Memory,
    /// Named service.
    Service,
}

/// Right to read or receive.
pub const CAP_R: u8 = 0x01;

/// Right to write or send.
pub const CAP_W: u8 = 0x02;

/// Right to grant the capability to another process.
pub const CAP_G: u8 = 0x04;

/// Right to execute or manage.
pub const CAP_X: u8 = 0x08;

/// One slot of a process's capability table.
#[derive(Copy, Clone, Debug)]
pub struct Capability {
    pub kind: CapKind,
    /// Bitmask of `CAP_R`, `CAP_W`, `CAP_G` and `CAP_X`.
    pub rights: u8,
    /// Identifier of the kernel object.
    pub object_id: u32,
}

impl Capability {
    /// The capability an empty slot holds.
    pub open spec fn none() -> Self {
        Capability { kind: CapKind::Empty, rights: 0, object_id: 0 }
    }

    pub fn empty() -> (r: Self)
        ensures
            r == Self::none(),
    {
        Capability { kind: CapKind::Empty, rights: 0, object_id: 0 }
    }

    pub fn new(kind: CapKind, rights: u8, object_id: u32) -> (r: Self)
        ensures
            r == (Capability { kind, rights, object_id }),
    {
        Capability { kind, rights, object_id }
    }

    pub fn is_empty(self) -> (r: bool)
        ensures
            r == (self.kind is Empty),
    {
        matches!(self.kind, CapKind::Empty)
    }
}

/// Capability slots per process.
pub const CAP_TABLE_SIZE: usize = 64;

// ── Process state and saved context ──────────────────────────────────────────
#[derive(Copy, Clone, Debug, PartialEq, Eq, Structural)]
pub enum ProcessState {
    Ready,
    Running,
    Blocked,
    Terminated,
}

/// Registers saved and restored by a context switch.
#[derive(Copy, Clone, Debug, PartialEq, Eq, Structural)]
pub struct TaskContext {
    pub rbx: u64,
    pub rbp: u64,
    pub r12: u64,
    pub r13: u64,
    pub r14: u64,
    pub r15: u64,
    pub rax: u64,
    pub rcx: u64,
    pub rdx: u64,
    pub rsi: u64,
    pub rdi: u64,
    pub r8: u64,
    pub r9: u64,
    pub r10: u64,
    pub r11: u64,
    pub rsp: u64,
    pub rip: u64,
    pub rflags: u64,
}

/// Flags of a fresh context: interrupts enabled.
pub const INITIAL_RFLAGS: u64 = 0x202;

impl TaskContext {
    /// The all-zero context with interrupts enabled.
    pub open spec fn cleared() -> Self {
        TaskContext {
            rbx: 0,
            rbp: 0,
            r12: 0,
            r13: 0,
            r14: 0,
            r15: 0,
            rax: 0,
            rcx: 0,
            rdx: 0,
            rsi: 0,
            rdi: 0,
            r8: 0,
            r9: 0,
            r10: 0,
            r11: 0,
            rsp: 0,
            rip: 0,
            rflags: INITIAL_RFLAGS,
        }
    }

    pub fn zero() -> (r: Self)
        ensures
            r == Self::cleared(),
    {
        TaskContext {
            rbx: 0,
            rbp: 0,
            r12: 0,
            r13: 0,
            r14: 0,
            r15: 0,
            rax: 0,
            rcx: 0,
            rdx: 0,
            rsi: 0,
            rdi: 0,
            r8: 0,
            r9: 0,
            r10: 0,
            r11: 0,
            rsp: 0,
            rip: 0,
            rflags: INITIAL_RFLAGS,
        }
    }
}

// ── Process control block ────────────────────────────────────────────────────
/// Everything the kernel keeps about one process.
#[derive(Debug)]
pub struct ProcessControlBlock {
    pub pid: ProcessId,
    pub state: ProcessState,
    /// Scheduling priority, 0 highest.
    pub priority: u8,
    /// Context restored when the process next runs.
    pub context: TaskContext,
    pub kernel_stack_id: usize,
    /// Stack pointer loaded on entry to the kernel.
    pub kernel_rsp: u64,
    pub page_table_base: u64,
    /// Ticks per quantum.
    pub time_slice: u32,
    /// Ticks consumed in the current quantum.
    pub cpu_time: u32,
    /// Pages the process may map; 0 means no limit.
    pub memory_quota_pages: u32,
    /// Pages mapped so far.
    pub memory_pages_used: u32,
    /// Ticks per budget frame; 0 means no limit.
    pub cpu_budget_ticks: u32,
    /// Ticks used in the current budget frame.
    pub cpu_budget_used: u32,
    /// Messages per rate window; 0 means no limit.
    pub ipc_rate_limit: u16,
    /// Messages sent in the current rate window.
    pub ipc_rate_used: u16,
    /// Ticks consumed over the process's lifetime.
    pub total_cpu_ticks: u64,
    /// Tick at which a blocked process is woken; `u64::MAX` means never.
    pub blocked_deadline: u64,
    pub mailbox: MessageQueue,
    /// Process this one last sent to; while blocked, the receiver of its priority.
    pub waiting_for: Option<ProcessId>,
    pub cap_table: [Capability; CAP_TABLE_SIZE],
    /// Period in ticks of a real-time process; 0 means best effort.
    pub rt_period: u64,
    /// Tick by which the current activation must complete.
    pub rt_deadline: u64,
    /// Frames that hold the program, given back when the process ends.
    pub user_frames: Vec<u64>,
}

/// `p` is the block of a process that was just created: ready, default
/// priority and quantum, no limits, nothing consumed, no mail, no capabilities,
/// no frames.
pub open spec fn is_fresh(
    p: ProcessControlBlock,
    pid: ProcessId,
    context: TaskContext,
    kernel_stack_id: usize,
    kernel_rsp: u64,
    page_table_base: u64,
) -> bool {
    &&& p.pid == pid
    &&& p.state is Ready
    &&& p.priority == 128
    &&& p.context == context
    &&& p.kernel_stack_id == kernel_stack_id
    &&& p.kernel_rsp == kernel_rsp
    &&& p.page_table_base == page_table_base
    &&& p.time_slice == 10
    &&& p.cpu_time == 0
    &&& p.memory_quota_pages == 0
    &&& p.memory_pages_used == 0
    &&& p.cpu_budget_ticks == 0
    &&& p.cpu_budget_used == 0
    &&& p.ipc_rate_limit == 0
    &&& p.ipc_rate_used == 0
    &&& p.total_cpu_ticks == 0
    &&& p.blocked_deadline == u64::MAX
    &&& p.mailbox.wf()
    &&& p.mailbox@ == Seq::<crate::ipc::Message>::empty()
    &&& p.mailbox.pending_notification == 0
    &&& p.waiting_for is None
    &&& forall|i: int| 0 <= i < CAP_TABLE_SIZE ==> (#[trigger] p.cap_table@[i]) == Capability::none()
    &&& p.rt_period == 0
    &&& p.rt_deadline == 0
    &&& p.user_frames@ == Seq::<u64>::empty()
}

/// The context of a process that first runs at `entry` on its kernel stack.
pub open spec fn kernel_context(entry: u64, rsp: u64) -> TaskContext {
    TaskContext { rsp, rip: entry, ..TaskContext::cleared() }
}

/// The context of a process that first runs the ring-3 trampoline, which finds
/// the user entry point in `r12` and the user stack top in `r13`.
pub open spec fn ring3_context(
    user_entry: u64,
    user_stack_top: u64,
    trampoline: u64,
    rsp: u64,
) -> TaskContext {
    TaskContext {
        rsp,
        rip: trampoline,
        r12: user_entry,
        r13: user_stack_top,
        ..TaskContext::cleared()
    }
}

/// The pool after a stack was taken from `before` and `word` was stored in the
/// topmost word of that stack, where the first context switch pops it.
pub open spec fn stack_taken(before: KernelStackPool, after: KernelStackPool, word: u64) -> bool {
    &&& before.candidate() is Some
    &&& after.wf()
    &&& after.base == before.base
    &&& after.memory@ == crate::bytes::with_le64(
        stack_cleared(before.memory@, before.candidate()->0 as int),
        before.candidate()->0 * KERNEL_SLOT_SIZE + KERNEL_SLOT_SIZE - 8,
        word,
    )
    &&& if before.reclaim@.len() > 0 {
        &&& after.reclaim@ == before.reclaim@.drop_last()
        &&& after.next == before.next
    } else {
        &&& after.reclaim@ == before.reclaim@
        &&& after.next == before.next + 1
    }
}

impl ProcessControlBlock {
    fn fresh(
        pid: ProcessId,
        context: TaskContext,
        kernel_stack_id: usize,
        kernel_rsp: u64,
        page_table_base: u64,
    ) -> (r: Self)
        ensures
            is_fresh(r, pid, context, kernel_stack_id, kernel_rsp, page_table_base),
    {
        ProcessControlBlock {
            pid,
            state: ProcessState::Ready,
            priority: 128,
            context,
            kernel_stack_id,
            kernel_rsp,
            page_table_base,
            time_slice: 10,
            cpu_time: 0,
            memory_quota_pages: 0,
            memory_pages_used: 0,
            cpu_budget_ticks: 0,
            cpu_budget_used: 0,
            ipc_rate_limit: 0,
            ipc_rate_used: 0,
            total_cpu_ticks: 0,
            blocked_deadline: u64::MAX,
            mailbox: MessageQueue::new(),
            waiting_for: None,
            cap_table: [Capability::empty();CAP_TABLE_SIZE],
            rt_period: 0,
            rt_deadline: 0,
            user_frames: Vec::new(),
        }
    }

    /// Creates the block of a process that starts in ring 3 through the
    /// trampoline at `trampoline_addr`. `None` if no kernel stack is free.
    pub fn new_ring3(
        pool: &mut KernelStackPool,
        pid: ProcessId,
        user_entry: u64,
        user_stack_top: u64,
        page_table_base: u64,
        trampoline_addr: u64,
    ) -> (r: Option<Self>)
        requires
            old(pool).wf(),
        ensures
            old(pool).candidate() is None ==> r is None && *final(pool) == *old(pool),
            old(pool).candidate() matches Some(id) ==> {
                &&& r is Some
                &&& stack_taken(*old(pool), *final(pool), trampoline_addr)
                &&& is_fresh(
                    r->0,
                    pid,
                    ring3_context(
                        user_entry,
                        user_stack_top,
                        trampoline_addr,
                        (old(pool).top(id as int) - 8) as u64,
                    ),
                    id,
                    old(pool).top(id as int) as u64,
                    page_table_base,
                )
            },
    {
        let (stack_id, _guard, top) = match alloc_kernel_stack(pool) {
            Some(s) => s,
            None => return None,
        };
        let kern_rsp: u64 = top - 8;
        put_u64(
            &mut pool.memory,
            stack_id * KERNEL_SLOT_SIZE + KERNEL_SLOT_SIZE - 8,
            trampoline_addr,
        );
        let mut ctx = TaskContext::zero();
        ctx.rsp = kern_rsp;
        ctx.rip = trampoline_addr;
        ctx.r12 = user_entry;
        ctx.r13 = user_stack_top;
        Some(Self::fresh(pid, ctx, stack_id, top, page_table_base))
    }

    /// Creates the block of a process that starts at `entry_point` in the
    /// kernel. `None` if no kernel stack is free.
    pub fn new(
        pool: &mut KernelStackPool,
        pid: ProcessId,
        entry_point: u64,
        _user_stack_top: u64,
        page_table_base: u64,
    ) -> (r: Option<Self>)
        requires
            old(pool).wf(),
        ensures
            old(pool).candidate() is None ==> r is None && *final(pool) == *old(pool),
            old(pool).candidate() matches Some(id) ==> {
                &&& r is Some
                &&& stack_taken(*old(pool), *final(pool), entry_point)
                &&& is_fresh(
                    r->0,
                    pid,
                    kernel_context(entry_point, (old(pool).top(id as int) - 8) as u64),
                    id,
                    (old(pool).top(id as int) - 8) as u64,
                    page_table_base,
                )
            },
    {
        let (stack_id, _guard, top) = match alloc_kernel_stack(pool) {
            Some(s) => s,
            None => return None,
        };
        let kern_rsp: u64 = top - 8;
        put_u64(
            &mut pool.memory,
            stack_id * KERNEL_SLOT_SIZE + KERNEL_SLOT_SIZE - 8,
            entry_point,
        );
        let mut ctx = TaskContext::zero();
        ctx.rsp = kern_rsp;
        ctx.rip = entry_point;
        Some(Self::fresh(pid, ctx, stack_id, kern_rsp, page_table_base))
    }
}

} // verus!
