//! What the calls that map pages leave in the page tables.

use vstd::prelude::*;

use crate::cpu::laws as call_laws;
use crate::cpu::mapping;
use crate::cpu::outcomes::own_caps;
use crate::cpu::syscall;
use crate::kernel::Kernel;
use crate::memory::contents;
use crate::memory::entries;
use crate::memory::laws;
use crate::memory::paging::{KernelSpace, PTE_ADDR_MASK};
use crate::memory::FrameKind;
use crate::process::pcb::CapKind;
use crate::scheduler::effects;
use crate::scheduler::round_robin::{self, Scheduler};

verus! {

/// The word that maps the page of `vaddr` in the address space of the current
/// process.
pub open spec fn own_leaf(before: Kernel, after: Kernel, vaddr: u64) -> Option<u64> {
    entries::leaf(after.mem@.ram, before.current_pml4(), vaddr)
}

/// The current process has one more page counted, and nothing else of it has
/// changed.
pub open spec fn one_page_more(before: Scheduler, after: Scheduler, k: Kernel) -> bool {
    let p = before.pcb(k.current());
    let q = after.pcb(k.current());
    before.has(k.current()) && p.memory_pages_used < u32::MAX ==> {
        &&& after.has(k.current())
        &&& q.memory_pages_used == p.memory_pages_used + 1
        &&& q.memory_quota_pages == p.memory_quota_pages
        &&& q.page_table_base == p.page_table_base
        &&& q.state == p.state
    }
}

/// Counting a page for the current process.
proof fn lemma_charged(before: Kernel, after: Scheduler)
    requires
        before.wf(),
        before.scheduling(),
        mapping::page_charged(before, after),
    ensures
        one_page_more(before.sched(), after, before),
        before.sched().has(before.current()) ==> after.pcb(before.current()).cap_table
            == before.sched().pcb(before.current()).cap_table,
{
    let s = before.sched();
    let me = before.current();
    if s.has(me) {
        effects::lemma_own_pid(s.slots(), me);
        effects::lemma_block_replaced(
            s.slots(),
            s.process_table.next_pid,
            me,
            round_robin::page_counted(s.pcb(me)),
            me,
        );
    }
}

/// A page that a process maps may be written to if and only if bit 0 of the flags
/// was set, and is for users if and only if bit 1 was; nothing forbids to execute
/// it. The word that maps it names the given frame, or one that was free. One page
/// more is counted for the caller.
pub proof fn law_map_call_grants_what_was_asked(
    before: Kernel,
    after: Kernel,
    vaddr: u64,
    paddr: u64,
    flags: u64,
)
    requires
        before.wf(),
        laws::kernel_ok(before.mem@, before.current_pml4()),
        mapping::page_mapped(before, after, vaddr, paddr, flags, 0),
        paddr <= PTE_ADDR_MASK,
    ensures
        own_leaf(before, after, vaddr) is Some,
        ({
            let e = own_leaf(before, after, vaddr)->0;
            let f = e & 0x000F_FFFF_FFFF_F000;
            &&& e & 0x1 != 0
            &&& e & 0x2 != 0 <==> flags & 0x1 != 0
            &&& e & 0x4 != 0 <==> flags & 0x2 != 0
            &&& e & 0x8000_0000_0000_0000 == 0
            &&& flags & 0x2 != 0 ==> entries::open_to_users(
                after.mem@.ram,
                before.current_pml4(),
                vaddr,
            )
            &&& paddr != 0 ==> f == paddr
            &&& paddr == 0 ==> laws::spare(before.mem@, f)
        }),
        before.scheduling(),
        vaddr != 0 && vaddr % 4096 == 0 && vaddr < 0x0000_8000_0000_0000,
        paddr % 4096 == 0,
        one_page_more(before.sched(), after.sched(), before),
        before.sched().has(before.current()) && before.sched().pcb(
            before.current(),
        ).memory_quota_pages > 0 ==> before.sched().pcb(before.current()).memory_pages_used
            < before.sched().pcb(before.current()).memory_quota_pages,
{
    let root = before.current_pml4();
    let pte = mapping::mapping_flags(flags & 1 != 0, flags & 2 != 0);
    call_laws::lemma_mapping_flags(flags & 1 != 0, flags & 2 != 0);
    lemma_charged(before, after.sched());
    if paddr != 0 {
        crate::elf_laws::lemma_aligned_frame(paddr);
        entries::law_mapped_page_has_its_flags(before.mem@, root, vaddr, paddr, pte, vaddr);
    } else {
        let (p, m) = mapping::user_frame(before.mem@)->0;
        call_laws::lemma_user_frame(before.mem@, root);
        crate::elf_laws::lemma_aligned_frame(p);
        entries::law_mapped_page_has_its_flags(m, root, vaddr, p, pte, vaddr);
    }
}

/// A page that is mapped to be shared is for users, and may be written to if and
/// only if bit 0 of the flags was set. The frame was free and is all zero. The slot
/// that the call gives was empty, and holds a capability for that frame with the
/// rights to read (1), write (2) and grant (4).
pub proof fn law_share_call_grants_what_was_asked(
    before: Kernel,
    after: Kernel,
    vaddr: u64,
    flags: u64,
    r: u64,
)
    requires
        before.wf(),
        after.wf(),
        laws::kernel_ok(before.mem@, before.current_pml4()),
        mapping::page_shared(before, after, vaddr, flags, r),
        r < 64,
    ensures
        own_leaf(before, after, vaddr) is Some,
        ({
            let e = own_leaf(before, after, vaddr)->0;
            let f = e & 0x000F_FFFF_FFFF_F000;
            let cap = own_caps(after)[r as int];
            &&& e & 0x1 != 0
            &&& e & 0x2 != 0 <==> flags & 0x1 != 0
            &&& e & 0x4 != 0
            &&& entries::open_to_users(after.mem@.ram, before.current_pml4(), vaddr)
            &&& laws::spare(before.mem@, f)
            &&& forall|i: int| 0 <= i < 4096 ==> #[trigger] after.mem@.ram.byte(f + i) == 0
            &&& cap.kind == CapKind::Memory
            &&& cap.rights == 0x07
            &&& f / 4096 <= u32::MAX ==> cap.object_id * 4096 == f
        }),
        before.scheduling(),
        own_caps(before)[r as int].kind is Empty,
        one_page_more(before.sched(), after.sched(), before),
{
    let root = before.current_pml4();
    let me = before.current();
    let pte = mapping::mapping_flags(flags & 1 != 0, true);
    call_laws::lemma_mapping_flags(flags & 1 != 0, true);
    let (p, m) = mapping::user_frame(before.mem@)->0;
    let cleared = m.cleared(p);
    lemma_cleared_frame(before.mem@, root);
    call_laws::lemma_user_frame(before.mem@, root);
    crate::elf_laws::lemma_aligned_frame(p);
    entries::law_mapped_page_has_its_flags(cleared, root, vaddr, p, pte, vaddr);
    contents::law_mapping_keeps_contents(cleared, root, vaddr, p, pte, p);
    assert forall|i: int| 0 <= i < 4096 implies #[trigger] after.mem@.ram.byte(p + i) == 0 by {
        assert(contents::frame_bytes(after.mem@.ram, p)[i] == after.mem@.ram.byte(p + i));
        assert(contents::frame_bytes(cleared.ram, p)[i] == cleared.ram.byte(p + i));
    }
    let (middle, slot) = choose|middle: Scheduler, slot: Option<usize>|
        {
            &&& mapping::page_charged(before, middle)
            &&& #[trigger] round_robin::cap_placed(
                middle,
                after.sched(),
                me,
                mapping::frame_cap(p),
                slot,
            )
            &&& r == syscall::slot_or(slot, syscall::EINVAL)
        };
    lemma_charged(before, middle);
    if !before.sched().has(me) {
        assert(middle == before.sched());
    }
    assert(0x01u8 | 0x02 | 0x04 == 0x07) by (bit_vector);
}

/// Taking a frame for a user and clearing it keeps the address space sound.
proof fn lemma_cleared_frame(s: KernelSpace, root: u64)
    requires
        laws::kernel_ok(s, root),
        mapping::user_frame(s) is Some,
    ensures
        ({
            let (p, m) = mapping::user_frame(s)->0;
            &&& laws::kernel_ok(m.cleared(p), root)
            &&& contents::in_use(m.cleared(p), root, p)
            &&& forall|i: int| 0 <= i < 4096 ==> #[trigger] m.cleared(p).ram.byte(p + i) == 0
        }),
{
    let (p, m) = mapping::user_frame(s)->0;
    let taken = (s.take_frame()->0).1;
    let none = Seq::<u8>::empty();
    laws::lemma_take_frame(s);
    assert(taken.frames.tagged(p, FrameKind::UserOwned).tags.len() == taken.frames.tags.len());
    assert(m.cleared(p).ram.with_data(p + 0, none).bytes =~= m.cleared(p).ram.bytes);
    crate::elf_laws::lemma_filled(s, root, m.cleared(p), 0, none);
    assert forall|i: int| 0 <= i < 4096 implies #[trigger] m.cleared(p).ram.byte(p + i) == 0 by {
        assert(contents::frame_bytes(m.cleared(p).ram, p)[i] == m.cleared(p).ram.byte(p + i));
        assert(crate::elf_laws::page_with(0, none)[i] == 0);
    }
}

/// A page that is mapped with a capability is for users, and may be written to if
/// and only if bit 0 of the flags was set and the capability carries the right to
/// write. The capability must be one for memory with the right to read, and the
/// page is at the frame it stands for. Nothing is counted for the caller.
pub proof fn law_cap_call_grants_what_the_capability_permits(
    before: Kernel,
    after: Kernel,
    vaddr: u64,
    slot: u64,
    flags: u64,
)
    requires
        laws::kernel_ok(before.mem@, before.current_pml4()),
        mapping::cap_mapped(before, after, vaddr, slot, flags, 0),
    ensures
        before.scheduling(),
        before.sched().has(before.current()),
        slot < 64,
        own_leaf(before, after, vaddr) is Some,
        ({
            let e = own_leaf(before, after, vaddr)->0;
            let cap = own_caps(before)[slot as int];
            &&& cap.kind == CapKind::Memory
            &&& cap.rights & 0x01 != 0
            &&& e & 0x1 != 0
            &&& e & 0x2 != 0 <==> flags & 0x1 != 0 && cap.rights & 0x02 != 0
            &&& e & 0x4 != 0
            &&& e & 0x8000_0000_0000_0000 == 0
            &&& e & 0x000F_FFFF_FFFF_F000 == cap.object_id * 4096
            &&& entries::open_to_users(after.mem@.ram, before.current_pml4(), vaddr)
        }),
        after.global == before.global,
{
    let root = before.current_pml4();
    let cap = syscall::own_cap(before, slot)->0;
    let writable = flags & 1 != 0 && cap.rights & 0x02 != 0;
    let phys = (cap.object_id * 4096) as u64;
    call_laws::lemma_mapping_flags(writable, true);
    crate::elf_laws::lemma_aligned_frame(phys);
    entries::law_mapped_page_has_its_flags(
        before.mem@,
        root,
        vaddr,
        phys,
        mapping::mapping_flags(writable, true),
        vaddr,
    );
}

/// Mapping with a capability is refused with the permission error, and changes
/// nothing, exactly if the slot holds none for memory with the right to read.
pub proof fn law_cap_call_needs_a_readable_capability(
    before: Kernel,
    after: Kernel,
    vaddr: u64,
    slot: u64,
    flags: u64,
    r: u64,
)
    requires
        before.scheduling(),
        before.sched().has(before.current()),
        vaddr != 0 && vaddr % 4096 == 0 && vaddr < 0x0000_8000_0000_0000,
        slot < 64,
        mapping::cap_mapped(before, after, vaddr, slot, flags, r),
    ensures
        ({
            let cap = own_caps(before)[slot as int];
            r == 0xFFFF_FFFF_FFFF_FFFD <==> cap.kind != CapKind::Memory || cap.rights & 0x01 == 0
        }),
        r == 0xFFFF_FFFF_FFFF_FFFD ==> after == before,
{
}

/// A process that has used up its quota maps no page: the calls that take a new
/// page give the error for exhausted memory and change nothing.
pub proof fn law_exhausted_quota_refuses_pages(
    before: Kernel,
    after: Kernel,
    shared: Kernel,
    vaddr: u64,
    paddr: u64,
    flags: u64,
    r: u64,
    s: u64,
)
    requires
        before.scheduling(),
        before.sched().has(before.current()),
        before.sched().pcb(before.current()).memory_quota_pages > 0,
        before.sched().pcb(before.current()).memory_pages_used >= before.sched().pcb(
            before.current(),
        ).memory_quota_pages,
        vaddr != 0 && vaddr % 4096 == 0 && vaddr < 0x0000_8000_0000_0000,
        paddr % 4096 == 0,
        mapping::page_mapped(before, after, vaddr, paddr, flags, r),
        mapping::page_shared(before, shared, vaddr, flags, s),
    ensures
        r == 0xFFFF_FFFF_FFFF_FFFC,
        after == before,
        s == 0xFFFF_FFFF_FFFF_FFFC,
        shared == before,
{
}

/// Pages are mapped at whole pages of user space only: any other address gives the
/// argument error and changes nothing.
pub proof fn law_only_user_pages_are_mapped(
    before: Kernel,
    after: Kernel,
    vaddr: u64,
    paddr: u64,
    slot: u64,
    flags: u64,
    r: u64,
)
    requires
        vaddr == 0 || vaddr % 4096 != 0 || vaddr >= 0x0000_8000_0000_0000,
        mapping::page_mapped(before, after, vaddr, paddr, flags, r) || mapping::page_shared(
            before,
            after,
            vaddr,
            flags,
            r,
        ) || mapping::cap_mapped(before, after, vaddr, slot, flags, r),
    ensures
        r == 0xFFFF_FFFF_FFFF_FFFE,
        after == before,
{
}

/// A frame that is taken for a page of the caller belongs to the user, and is no
/// longer free.
pub proof fn law_taken_page_is_the_users(k: KernelSpace)
    requires
        laws::spares_distinct(k),
        mapping::user_frame(k) is Some,
    ensures
        ({
            let (p, t) = mapping::user_frame(k)->0;
            let at = (p - k.frames.base) / 4096;
            &&& laws::spare(k, p)
            &&& t.frames.tags[at] == FrameKind::UserOwned
            &&& !t.frames.free[at]
            &&& t.ram == k.ram
            &&& t.pool == k.pool
        }),
{
    laws::lemma_take_frame(k);
    let f = k.frames;
    crate::memory::physical::lemma_lowest_free(f.free, 0);
    let at = crate::memory::physical::lowest_free(f.free, 0);
    assert((f.addr(at) - f.base) / 4096 == at);
}

} // verus!
