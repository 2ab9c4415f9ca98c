//! System calls that map pages into the caller's address space.

use vstd::prelude::*;

use crate::cpu::syscall::{EINVAL, ENOMEM, ENOSYS, EPERM};
use crate::cpu::user_memory::validate_user_vaddr;
use crate::kernel::Kernel;
use crate::memory::{
    frame_tag, global_alloc_4k, map_page_global, FrameKind, PTE_PRESENT, PTE_USER, PTE_WRITABLE,
};
use crate::process::pcb::{CapKind, Capability, CAP_G, CAP_R, CAP_TABLE_SIZE, CAP_W};
use crate::process::ProcessId;
use crate::scheduler::global::get_global;
use crate::scheduler::round_robin::Scheduler;

verus! {

/// Page-table flags of a mapping.
pub open spec fn mapping_flags(writable: bool, user: bool) -> u64 {
    let base = if writable {
        PTE_PRESENT | PTE_WRITABLE
    } else {
        PTE_PRESENT
    };
    if user {
        base | PTE_USER
    } else {
        base
    }
}

fn flags_for(writable: bool, user: bool) -> (r: u64)
    ensures
        r == mapping_flags(writable, user),
{
    let base: u64 = if writable {
        PTE_PRESENT | PTE_WRITABLE
    } else {
        PTE_PRESENT
    };
    if user {
        base | PTE_USER
    } else {
        base
    }
}

/// The current process has mapped as many pages as it may.
pub open spec fn quota_exhausted(k: Kernel) -> bool {
    &&& k.scheduling()
    &&& k.sched().has(k.current())
    &&& !crate::scheduler::round_robin::within_quota(k.sched().pcb(k.current()))
}

/// A frame for the current process, tagged as user memory, and the memory
/// afterwards.
pub open spec fn user_frame(s: crate::memory::paging::KernelSpace) -> Option<
    (u64, crate::memory::paging::KernelSpace),
> {
    match s.take_frame() {
        Some((p, after)) => Some(
            (
                p,
                crate::memory::paging::KernelSpace {
                    frames: after.frames.tagged(p, FrameKind::UserOwned),
                    ..after
                },
            ),
        ),
        None => None,
    }
}

/// `after` has one more page counted for the current process than `before`.
pub open spec fn page_charged(before: Kernel, after: Scheduler) -> bool {
    crate::scheduler::round_robin::process_updated(
        before.sched(),
        after,
        before.current(),
        crate::scheduler::round_robin::page_counted(before.sched().pcb(before.current())),
    )
}

/// Takes a frame and tags it as user memory.
fn take_user_frame(k: &mut Kernel) -> (r: Option<u64>)
    requires
        old(k).wf(),
    ensures
        final(k).wf(),
        final(k).differs_in_mem(old(k)),
        match user_frame(old(k).mem@) {
            Some((p, after)) => r == Some(p) && final(k).mem@ == after,
            None => r is None && *final(k) == *old(k),
        },
{
    match global_alloc_4k(&mut k.mem.frames) {
        Some(p) => {
            frame_tag(&mut k.mem.frames, p, FrameKind::UserOwned);
            Some(p)
        },
        None => None,
    }
}

/// The top-level page table of the current process.
fn active_pml4(k: &Kernel) -> (r: u64)
    requires
        k.wf(),
    ensures
        r == k.current_pml4(),
{
    let pid = ProcessId::new(k.global.current_pid);
    match &k.global.scheduler {
        Some(sched) => match sched.get_process_pml4(pid) {
            Some(pml4) => pml4,
            None => k.global.kernel_pml4,
        },
        None => k.global.kernel_pml4,
    }
}

/// Whether the current process may map one more page.
fn may_map(k: &Kernel) -> (r: bool)
    requires
        k.wf(),
    ensures
        r == !quota_exhausted(*k),
{
    let pid = ProcessId::new(k.global.current_pid);
    match &k.global.scheduler {
        Some(sched) => sched.check_memory_quota(pid),
        None => true,
    }
}

/// Counts one more page for the current process.
fn charge_page(k: &mut Kernel)
    requires
        old(k).wf(),
    ensures
        final(k).wf(),
        old(k).scheduling() ==> final(k).differs_in_sched(old(k)) && page_charged(
            *old(k),
            final(k).sched(),
        ),
        !old(k).scheduling() ==> *final(k) == *old(k),
{
    let pid = ProcessId::new(k.global.current_pid);
    if let Some(sched) = get_global(&mut k.global) {
        sched.use_memory_page(pid);
    }
}

/// Outcome of mapping the frame at `phys`, taken from memory `m`, at `vaddr`.
pub open spec fn frame_mapped(
    before: Kernel,
    after: Kernel,
    m: crate::memory::paging::KernelSpace,
    vaddr: u64,
    phys: u64,
    flags: u64,
    r: u64,
) -> bool {
    let (mapped, ok) = m.mapped(before.current_pml4(), vaddr, phys, flags);
    &&& after.differs_in_sched_and_mem(&before)
    &&& after.mem@ == mapped
    &&& if ok {
        r == 0 && page_charged(before, after.sched())
    } else {
        r == ENOMEM && after.sched() == before.sched()
    }
}

/// Outcome of mapping a page: the frame at `paddr`, or a new one if `paddr` is 0.
pub open spec fn page_mapped(
    before: Kernel,
    after: Kernel,
    vaddr: u64,
    paddr: u64,
    flags: u64,
    r: u64,
) -> bool {
    let pte = mapping_flags(flags & 1 != 0, flags & 2 != 0);
    if !crate::cpu::user_memory::user_page(vaddr) || paddr % 4096 != 0 {
        r == EINVAL && after == before
    } else if quota_exhausted(before) {
        r == ENOMEM && after == before
    } else if paddr != 0 {
        if before.scheduling() {
            frame_mapped(before, after, before.mem@, vaddr, paddr, pte, r)
        } else {
            r == ENOSYS && after == before
        }
    } else {
        match user_frame(before.mem@) {
            None => r == ENOMEM && after == before,
            Some((phys, m)) => if before.scheduling() {
                frame_mapped(before, after, m, vaddr, phys, pte, r)
            } else {
                r == ENOSYS && after.differs_in_mem(&before) && after.mem@ == m
            },
        }
    }
}

/// Maps a page of the caller at `vaddr`: the frame at `paddr`, or a new frame if
/// `paddr` is 0. Bit 0 of `flags` makes it writable, bit 1 accessible to users.
pub fn sys_map(k: &mut Kernel, vaddr: u64, paddr: u64, flags: u64) -> (r: u64)
    requires
        old(k).wf(),
        crate::memory::paging::table_addr(old(k).current_pml4()),
    ensures
        final(k).wf(),
        page_mapped(*old(k), *final(k), vaddr, paddr, flags, r),
{
    if !validate_user_vaddr(vaddr) {
        return EINVAL;
    }
    if paddr % 4096 != 0 {
        return EINVAL;
    }
    if !may_map(k) {
        return ENOMEM;
    }
    let phys: u64 = if paddr != 0 {
        paddr
    } else {
        match take_user_frame(k) {
            Some(p) => p,
            None => return ENOMEM,
        }
    };
    if k.global.scheduler.is_none() {
        return ENOSYS;
    }
    let pml4: u64 = active_pml4(k);
    let pte: u64 = flags_for(flags & 1 != 0, flags & 2 != 0);
    if map_page_global(&mut k.mem, pml4, vaddr, phys, pte) {
        charge_page(k);
        0
    } else {
        ENOMEM
    }
}

/// The capability for the frame at `phys`: read, write and grant.
pub open spec fn frame_cap(phys: u64) -> Capability {
    Capability {
        kind: CapKind::Memory,
        rights: CAP_R | CAP_W | CAP_G,
        object_id: (phys / 4096) as u32,
    }
}

/// Outcome of sharing the cleared frame at `phys`, in memory `m`, at `vaddr`.
pub open spec fn frame_shared(
    before: Kernel,
    after: Kernel,
    m: crate::memory::paging::KernelSpace,
    vaddr: u64,
    phys: u64,
    flags: u64,
    r: u64,
) -> bool {
    let (mapped, ok) = m.cleared(phys).mapped(before.current_pml4(), vaddr, phys, flags);
    &&& after.differs_in_sched_and_mem(&before)
    &&& after.mem@ == mapped
    &&& if ok {
        exists|middle: Scheduler, slot: Option<usize>|
            {
                &&& page_charged(before, middle)
                &&& #[trigger] crate::scheduler::round_robin::cap_placed(
                    middle,
                    after.sched(),
                    before.current(),
                    frame_cap(phys),
                    slot,
                )
                &&& r == crate::cpu::syscall::slot_or(slot, EINVAL)
            }
    } else {
        r == ENOMEM && after.sched() == before.sched()
    }
}

/// Outcome of allocating and mapping a page that can be shared.
pub open spec fn page_shared(
    before: Kernel,
    after: Kernel,
    vaddr: u64,
    flags: u64,
    r: u64,
) -> bool {
    if !crate::cpu::user_memory::user_page(vaddr) {
        r == EINVAL && after == before
    } else if !before.scheduling() {
        r == ENOSYS && after == before
    } else if quota_exhausted(before) {
        r == ENOMEM && after == before
    } else {
        match user_frame(before.mem@) {
            None => r == ENOMEM && after == before,
            Some((phys, m)) => frame_shared(
                before,
                after,
                m,
                vaddr,
                phys,
                mapping_flags(flags & 1 != 0, true),
                r,
            ),
        }
    }
}

/// Maps a new, zeroed frame at `vaddr` and gives the caller a capability with
/// which others can map it too. Bit 0 of `flags` makes it writable. If the
/// capability table is full, the page is mapped all the same.
pub fn sys_map_share(k: &mut Kernel, vaddr: u64, flags: u64) -> (r: u64)
    requires
        old(k).wf(),
        crate::memory::paging::table_addr(old(k).current_pml4()),
    ensures
        final(k).wf(),
        page_shared(*old(k), *final(k), vaddr, flags, r),
{
    if !validate_user_vaddr(vaddr) {
        return EINVAL;
    }
    if k.global.scheduler.is_none() {
        return ENOSYS;
    }
    if !may_map(k) {
        return ENOMEM;
    }
    let caller = ProcessId::new(k.global.current_pid);
    let phys: u64 = match take_user_frame(k) {
        Some(p) => p,
        None => return ENOMEM,
    };
    k.mem.ram.zero(phys, 4096);
    let pml4: u64 = active_pml4(k);
    let pte: u64 = flags_for(flags & 1 != 0, true);
    if !map_page_global(&mut k.mem, pml4, vaddr, phys, pte) {
        return ENOMEM;
    }
    charge_page(k);
    let ghost middle = k.sched();
    let cap = Capability::new(CapKind::Memory, CAP_R | CAP_W | CAP_G, (phys / 4096) as u32);
    let mut slot: Option<usize> = None;
    if let Some(sched) = get_global(&mut k.global) {
        slot = sched.cap_alloc(caller, cap);
    }
    assert(crate::scheduler::round_robin::cap_placed(
        middle,
        k.sched(),
        old(k).current(),
        frame_cap(phys),
        slot,
    ));
    match slot {
        Some(s) => s as u64,
        None => EINVAL,
    }
}

/// Outcome of mapping the frame that a capability stands for.
pub open spec fn cap_mapped(
    before: Kernel,
    after: Kernel,
    vaddr: u64,
    slot: u64,
    flags: u64,
    r: u64,
) -> bool {
    if !crate::cpu::user_memory::user_page(vaddr) {
        r == EINVAL && after == before
    } else if !before.scheduling() {
        r == ENOSYS && after == before
    } else if slot >= CAP_TABLE_SIZE {
        r == EINVAL && after == before
    } else {
        let cap = crate::cpu::syscall::own_cap(before, slot);
        if cap is Some && cap->0.kind is Memory && cap->0.rights & CAP_R != 0 {
            let (mapped, ok) = before.mem@.mapped(
                before.current_pml4(),
                vaddr,
                (cap->0.object_id * 4096) as u64,
                mapping_flags(flags & 1 != 0 && cap->0.rights & CAP_W != 0, true),
            );
            &&& after.differs_in_mem(&before)
            &&& after.mem@ == mapped
            &&& r == if ok {
                0
            } else {
                EINVAL
            }
        } else {
            r == EPERM && after == before
        }
    }
}

/// Maps the frame of the memory capability in slot `slot` at `vaddr`. Bit 0 of
/// `flags` makes it writable if the capability permits that.
pub fn sys_map_cap(k: &mut Kernel, vaddr: u64, slot: u64, flags: u64) -> (r: u64)
    requires
        old(k).wf(),
        crate::memory::paging::table_addr(old(k).current_pml4()),
    ensures
        final(k).wf(),
        cap_mapped(*old(k), *final(k), vaddr, slot, flags, r),
{
    if !validate_user_vaddr(vaddr) {
        return EINVAL;
    }
    let caller = ProcessId::new(k.global.current_pid);
    let found = match &k.global.scheduler {
        Some(sched) => {
            if slot >= CAP_TABLE_SIZE as u64 {
                return EINVAL;
            }
            sched.cap_slot_info(caller, slot as usize)
        },
        None => return ENOSYS,
    };
    let (pfn, may_write) = match found {
        Some((kind, rights, object_id)) => {
            if matches!(kind, CapKind::Memory) && rights & CAP_R != 0 {
                (object_id, rights & CAP_W != 0)
            } else {
                return EPERM;
            }
        },
        None => return EPERM,
    };
    let pml4: u64 = active_pml4(k);
    let pte: u64 = flags_for(flags & 1 != 0 && may_write, true);
    if map_page_global(&mut k.mem, pml4, vaddr, pfn as u64 * 4096, pte) {
        0
    } else {
        EINVAL
    }
}

} // verus!
