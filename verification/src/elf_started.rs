//! What a program that was started finds in its address space.

use vstd::prelude::*;

use crate::elf::{self, Loading};
use crate::elf_laws;
use crate::elf_spawn::{self, ServerImages, SpawnHooks};
use crate::kernel::Kernel;
use crate::memory::contents;
use crate::memory::entries;
use crate::memory::laws::{self, Node};
use crate::memory::paging::{self, KernelSpace};
use crate::memory::preparing;
use crate::process::table;
use crate::process::ProcessId;
use crate::scheduler::round_robin::{self, Scheduler};

verus! {

/// The frames that the allocator and the pool can hand out lie in memory and are
/// distinct.
pub open spec fn frames_sound(s: KernelSpace) -> bool {
    &&& laws::spares_distinct(s)
    &&& forall|f: u64| #[trigger] laws::spare(s, f) ==> laws::sound_frame(s.ram, f)
}

/// The memory in which a program was prepared, once its stack was there.
pub open spec fn stacked(before: Kernel, data: Seq<u8>) -> (Loading, bool) {
    let (loaded, program) = elf::program_loaded(before.mem@, data, None);
    let (_entry, root, frames) = program->0;
    elf::stack_loaded(Loading { space: loaded, frames }, root, 32)
}

/// A page outside the crash log's survives the last steps of preparing: it is
/// mapped to the same frame with the same permissions, and holds the same bytes.
proof fn lemma_page_survives(
    k: KernelSpace,
    kernel: u64,
    root: u64,
    flags: u64,
    virt: u64,
    f: u64,
    asked: u32,
    bytes: Seq<u8>,
)
    requires
        laws::kernel_ok(k, root),
        elf_laws::page_in_frame(k, root, virt, f, asked, bytes),
        !laws::same_page(virt, 0x4000),
        flags & 0x4 == 0,
    ensures
        ({
            let k2 = k.merged(kernel, root, true).mapped(root, 0x4000, 0x4000, flags).0;
            &&& elf_laws::permitted(k2.ram, root, virt, f, asked)
            &&& contents::frame_bytes(k2.ram, f) == bytes
        }),
{
    let m = k.ram;
    let k2 = k.merged(kernel, root, true).mapped(root, 0x4000, 0x4000, flags).0;
    let a = paging::pml4_index(virt);
    let b = paging::pdpt_index(virt);
    let c = paging::pd_index(virt);
    let d = paging::pt_index(virt);
    entries::lemma_walk(m, root, virt);
    let t3 = laws::table(m, root, Node::Pdpt(a))->0;
    let t2 = laws::table(m, root, Node::Pd(a, b))->0;
    let t1 = laws::table(m, root, laws::path(virt))->0;
    reveal(laws::tree);
    assert(laws::table(m, root, Node::Pml4) == Some(root));
    lemma_low_page();
    preparing::lemma_apart(k, root, root, a, f);
    preparing::lemma_apart(k, root, t3, b, f);
    preparing::lemma_apart(k, root, t2, c, f);
    preparing::lemma_apart(k, root, t1, d, f);
    preparing::lemma_prepared(k, kernel, root, true, flags, root, a, f);
    preparing::lemma_prepared(k, kernel, root, true, flags, t3, b, f);
    preparing::lemma_prepared(k, kernel, root, true, flags, t2, c, f);
    preparing::lemma_prepared(k, kernel, root, true, flags, t1, d, f);
    assert(entries::walk(k2.ram, root, virt) == entries::walk(m, root, virt));
}

/// Where the page of the crash log is found.
proof fn lemma_low_page()
    ensures
        laws::path(0x4000) == Node::Pt(0, 0, 0),
        paging::pt_index(0x4000) == 4,
{
}

/// The address space of a program is sound once its stack is there.
proof fn lemma_stacked(before: Kernel, data: Seq<u8>, idx: int)
    requires
        frames_sound(before.mem@),
        elf::program_loaded(before.mem@, data, None).1 is Some,
        stacked(before, data).1,
        0 <= idx < 32,
    ensures
        ({
            let (_entry, root, _frames) = elf::program_loaded(before.mem@, data, None).1->0;
            let k = stacked(before, data).0.space;
            &&& laws::kernel_ok(k, root)
            &&& elf_laws::page_in_memory(
                k,
                root,
                elf_laws::stack_address(idx),
                0x2,
                elf_laws::blank_page(),
            )
        }),
{
    let (loaded, program) = elf::program_loaded(before.mem@, data, None);
    let (_entry, root, frames) = program->0;
    let h = elf::header(data)->0;
    let start = (elf::address_space(before.mem@, None)->0).1;
    elf_laws::lemma_new_space(before.mem@);
    elf_laws::lemma_segments_loaded(start, root, data, h, h.phnum as nat, -1, 0);
    let l = Loading { space: loaded, frames };
    elf_laws::lemma_stack_loaded(l, root, 32, idx, 0, 0, Seq::empty());
}

/// The process of a started program has the address space that was prepared.
pub proof fn lemma_started_space(
    before: Kernel,
    after: Kernel,
    data: Seq<u8>,
    priority: u8,
    trampoline: u64,
    pid: ProcessId,
)
    requires
        after.wf(),
        elf::elf_spawned(before, after, data, priority, trampoline, Some(pid)),
    ensures
        before.scheduling(),
        elf::program_loaded(before.mem@, data, None).1 is Some,
        stacked(before, data).1,
        after.sched().has(pid),
        ({
            let (entry, root, frames) = elf::program_loaded(before.mem@, data, None).1->0;
            let q = after.sched().pcb(pid);
            &&& q.page_table_base == root
            &&& q.context.rip == trampoline
            &&& q.context.r12 == entry
            &&& q.context.r13 == 0x0000_7FFF_FFFF_F000
            &&& q.state is Ready
            &&& q.priority == if priority > 0 {
                priority
            } else {
                128
            }
            &&& after.mem@ == stacked(before, data).0.space.merged(
                before.global.kernel_pml4,
                root,
                true,
            ).mapped(root, 0x4000, 0x4000, 0x1u64 | 0x2).0
        }),
{
    let (entry, root, frames) = elf::program_prepared(
        before.mem@,
        before.global.kernel_pml4,
        data,
        before.scheduling(),
    ).1->0;
    let middle = choose|middle: Scheduler|
        {
            &&& #[trigger] round_robin::ring3_added(
                before.sched(),
                middle,
                entry,
                elf::USER_STACK_TOP,
                root,
                trampoline,
                Some(pid),
            )
            &&& after.sched().replaces(&middle, pid, after.sched().pcb(pid))
            &&& after.sched().pcb(pid) == crate::process::pcb::ProcessControlBlock {
                priority: if priority > 0 {
                    priority
                } else {
                    middle.pcb(pid).priority
                },
                user_frames: after.sched().pcb(pid).user_frames,
                ..middle.pcb(pid)
            }
        };
    let t = table::slot_of(middle.slots(), pid);
    assert(table::holds(middle.slots(), t, pid));
    assert(table::holds(after.sched().slots(), t, pid));
}

/// A program that was started has a stack that it can use: in its address space,
/// every address from 0x7FFF_FFFD_F000 up to 0x7FFF_FFFF_F000 is mapped by a word
/// that says present (1), writable (2), for users (4) and, by its top bit, not
/// executable. The frame that the word names is all zero. Users are let through to
/// it on every level.
pub proof fn law_started_program_has_a_stack(
    before: Kernel,
    after: Kernel,
    data: Seq<u8>,
    priority: u8,
    trampoline: u64,
    pid: ProcessId,
    v: u64,
)
    requires
        after.wf(),
        frames_sound(before.mem@),
        elf::elf_spawned(before, after, data, priority, trampoline, Some(pid)),
        0x0000_7FFF_FFFD_F000 <= v < 0x0000_7FFF_FFFF_F000,
    ensures
        after.sched().has(pid),
        ({
            let root = after.sched().pcb(pid).page_table_base;
            let m = after.mem@.ram;
            let e = entries::leaf(m, root, v)->0;
            &&& entries::leaf(m, root, v) is Some
            &&& e & 0x1 != 0
            &&& e & 0x2 != 0
            &&& e & 0x4 != 0
            &&& e & 0x8000_0000_0000_0000 != 0
            &&& forall|i: int| 0 <= i < 4096 ==> #[trigger] m.byte((e & 0x000F_FFFF_FFFF_F000) + i) == 0
            &&& entries::open_to_users(m, root, v)
        }),
{
    let root = after.sched().pcb(pid).page_table_base;
    let m = after.mem@.ram;
    let idx = (v - 0x0000_7FFF_FFFD_F000) / 4096;
    let at = elf_laws::stack_address(idx);
    lemma_started_space(before, after, data, priority, trampoline, pid);
    lemma_stacked(before, data, idx);
    let k = stacked(before, data).0.space;
    let f = choose|f: u64| #[trigger]
        elf_laws::page_in_frame(k, root, at, f, 0x2, elf_laws::blank_page());
    assert(0x2u32 & 0x2 != 0 && 0x2u32 & 0x1 == 0 && (0x1u64 | 0x2) & 0x4 == 0) by (bit_vector);
    lemma_stack_index(v);
    lemma_low_page();
    lemma_page_survives(
        k,
        before.global.kernel_pml4,
        root,
        0x1u64 | 0x2,
        at,
        f,
        0x2,
        elf_laws::blank_page(),
    );
    assert(entries::walk(m, root, v) == entries::walk(m, root, at));
    assert forall|i: int| 0 <= i < 4096 implies #[trigger] m.byte(f + i) == 0 by {
        assert(contents::frame_bytes(m, f)[i] == m.byte(f + i));
        assert(elf_laws::blank_page()[i] == 0);
    }
}

/// An address of the stack and the page it lies on share their indices, which are
/// not those of the first pages.
proof fn lemma_stack_index(v: u64)
    requires
        0x0000_7FFF_FFFD_F000 <= v < 0x0000_7FFF_FFFF_F000,
    ensures
        ({
            let at = elf_laws::stack_address((v - 0x0000_7FFF_FFFD_F000) / 4096);
            &&& at <= v < at + 4096
            &&& v / 0x80_0000_0000 == at / 0x80_0000_0000
            &&& v / 0x4000_0000 == at / 0x4000_0000
            &&& v / 0x20_0000 == at / 0x20_0000
            &&& v / 0x1000 == at / 0x1000
            &&& paging::pml4_index(at) == 255
        }),
{
    let at = elf_laws::stack_address((v - 0x0000_7FFF_FFFD_F000) / 4096);
    assert(at % 4096 == 0);
    assert(v / 0x1000 == at / 0x1000);
    assert(v / 0x20_0000 == v / 0x1000 / 512 && at / 0x20_0000 == at / 0x1000 / 512);
    assert(v / 0x4000_0000 == v / 0x20_0000 / 512 && at / 0x4000_0000 == at / 0x20_0000 / 512);
    assert(v / 0x80_0000_0000 == v / 0x4000_0000 / 512 && at / 0x80_0000_0000 == at / 0x4000_0000
        / 512);
}

/// A program that was started is ready, and begins with the trampoline, which
/// finds the entry point of the image and the top of the stack in two registers. It
/// has the priority that was asked for, and the middle one if none was.
pub proof fn law_started_program_begins_at_its_entry(
    before: Kernel,
    after: Kernel,
    data: Seq<u8>,
    priority: u8,
    trampoline: u64,
    pid: ProcessId,
)
    requires
        after.wf(),
        elf::elf_spawned(before, after, data, priority, trampoline, Some(pid)),
    ensures
        after.sched().has(pid),
        ({
            let q = after.sched().pcb(pid);
            &&& q.state is Ready
            &&& q.context.rip == trampoline
            &&& data.len() >= 64
            &&& q.context.r12 == crate::bytes::le64(data, 24)
            &&& q.context.r13 == 0x0000_7FFF_FFFF_F000
            &&& q.priority == if priority > 0 {
                priority
            } else {
                128
            }
        }),
{
    lemma_started_space(before, after, data, priority, trampoline, pid);
}

/// A program that was started finds its segments in memory: every page that some
/// program header loads, that no later one and no page of the stack overlays, and
/// that is not the page of the crash log, holds what the header means it to hold
/// and permits what it says.
pub proof fn law_started_program_is_in_memory(
    before: Kernel,
    after: Kernel,
    data: Seq<u8>,
    priority: u8,
    trampoline: u64,
    pid: ProcessId,
    i: int,
    idx: int,
)
    requires
        after.wf(),
        frames_sound(before.mem@),
        elf::elf_spawned(before, after, data, priority, trampoline, Some(pid)),
        elf::header(data) is Some,
        0 <= i < elf::header(data)->0.phnum,
        elf_laws::page_is_loaded(
            data,
            elf::header(data)->0,
            elf::header(data)->0.phnum as int,
            i,
            idx,
        ),
        ({
            let at = elf_laws::page_address(
                elf::segment(data, elf::header(data)->0, i)->0,
                idx,
            );
            &&& !laws::same_page(at, 0x4000)
            &&& forall|x: int|
                0 <= x < 32 ==> !laws::same_page(at, #[trigger] elf_laws::stack_address(x))
        }),
    ensures
        after.sched().has(pid),
        ({
            let seg = elf::segment(data, elf::header(data)->0, i)->0;
            let root = after.sched().pcb(pid).page_table_base;
            let at = elf_laws::page_address(seg, idx);
            let m = after.mem@.ram;
            let e = entries::leaf(m, root, at)->0;
            let f = e & 0x000F_FFFF_FFFF_F000;
            &&& elf_laws::permitted(m, root, at, f, seg.flags)
            &&& contents::frame_bytes(m, f) == elf_laws::page_image(seg, data, idx)
        }),
{
    let h = elf::header(data)->0;
    let seg = elf::segment(data, h, i)->0;
    let at = elf_laws::page_address(seg, idx);
    let bytes = elf_laws::page_image(seg, data, idx);
    lemma_started_space(before, after, data, priority, trampoline, pid);
    let (loaded, program) = elf::program_loaded(before.mem@, data, None);
    let (_entry, root, frames) = program->0;
    let start = (elf::address_space(before.mem@, None)->0).1;
    elf_laws::lemma_new_space(before.mem@);
    elf_laws::lemma_segments_loaded(start, root, data, h, h.phnum as nat, i, idx);
    elf_laws::law_loaded_program_is_in_memory(before.mem@, data, i, idx);
    let l = Loading { space: loaded, frames };
    elf_laws::lemma_stack_loaded(l, root, 32, 0, at, seg.flags, bytes);
    let k = stacked(before, data).0.space;
    let f = choose|f: u64| #[trigger]
        elf_laws::page_in_frame(k, root, at, f, seg.flags, bytes);
    assert((0x1u64 | 0x2) & 0x4 == 0) by (bit_vector);
    lemma_page_survives(
        k,
        before.global.kernel_pml4,
        root,
        0x1u64 | 0x2,
        at,
        f,
        seg.flags,
        bytes,
    );
}

// ── Servers ──────────────────────────────────────────────────────────────────
/// A server that is started anew runs its own image: the name decides which, and
/// an unknown name or a service that is off starts nothing. The network server has
/// priority 48, the others 64.
pub proof fn law_restarted_server_runs_its_image(
    h: SpawnHooks,
    before: Kernel,
    after: Kernel,
    images: ServerImages,
    name: Seq<u8>,
    trampoline: u64,
    r: Option<u32>,
)
    requires
        after.wf(),
        elf_spawn::restart_served(h, before, after, images, name, trampoline, r),
    ensures
        ({
            let key = crate::service_registry::trimmed(name);
            let uart = key == seq![117u8, 97, 114, 116, 45, 100, 114, 118];
            let vfs = key == seq![114u8, 111, 115, 116, 45, 118, 102, 115];
            let shell = key == seq![114u8, 111, 115, 116, 45, 115, 104, 101, 108, 108];
            let net = key == seq![114u8, 111, 115, 116, 45, 110, 101, 116];
            &&& !h.restart_server || !(uart || vfs || shell || net) ==> r is None && after == before
            &&& r matches Some(pid) ==> {
                let q = after.sched().pcb(ProcessId(pid));
                &&& after.sched().has(ProcessId(pid))
                &&& q.context.rip == trampoline
                &&& uart ==> q.context.r12 == crate::bytes::le64(images.uart_drv@, 24) && q.priority
                    == 64
                &&& vfs ==> q.context.r12 == crate::bytes::le64(images.vfs@, 24) && q.priority == 64
                &&& shell ==> q.context.r12 == crate::bytes::le64(images.shell@, 24) && q.priority
                    == 64
                &&& net ==> q.context.r12 == crate::bytes::le64(images.net@, 24) && q.priority == 48
            }
        }),
{
    let key = crate::service_registry::trimmed(name);
    lemma_server_names(key);
    if r is Some {
        let server = elf_spawn::server_of(name)->0;
        let data = elf_spawn::server_image(images, server);
        let priority = elf_spawn::server_priority(server);
        let made = choose|made: Option<ProcessId>|
            #[trigger] elf::elf_spawned(before, after, data, priority, trampoline, made) && r
                == match made {
                Some(pid) => Some(pid.0),
                None => None,
            };
        law_started_program_begins_at_its_entry(
            before,
            after,
            data,
            priority,
            trampoline,
            made->0,
        );
    }
}

/// The names of the servers, and that they differ.
proof fn lemma_server_names(key: Seq<u8>)
    ensures
        key == elf_spawn::NAME_UART_DRV@ <==> key == seq![117u8, 97, 114, 116, 45, 100, 114, 118],
        key == elf_spawn::NAME_VFS@ <==> key == seq![114u8, 111, 115, 116, 45, 118, 102, 115],
        key == elf_spawn::NAME_SHELL@ <==> key
            == seq![114u8, 111, 115, 116, 45, 115, 104, 101, 108, 108],
        key == elf_spawn::NAME_NET@ <==> key == seq![114u8, 111, 115, 116, 45, 110, 101, 116],
        elf_spawn::NAME_UART_DRV@[0] != elf_spawn::NAME_VFS@[0],
        elf_spawn::NAME_UART_DRV@[0] != elf_spawn::NAME_NET@[0],
        elf_spawn::NAME_VFS@[5] != elf_spawn::NAME_NET@[5],
        elf_spawn::NAME_SHELL@.len() == 10,
        elf_spawn::NAME_VFS@.len() == 8,
        elf_spawn::NAME_NET@.len() == 8,
        elf_spawn::NAME_UART_DRV@.len() == 8,
{
    assert(elf_spawn::NAME_UART_DRV@ =~= seq![117u8, 97, 114, 116, 45, 100, 114, 118]);
    assert(elf_spawn::NAME_VFS@ =~= seq![114u8, 111, 115, 116, 45, 118, 102, 115]);
    assert(elf_spawn::NAME_SHELL@ =~= seq![114u8, 111, 115, 116, 45, 115, 104, 101, 108, 108]);
    assert(elf_spawn::NAME_NET@ =~= seq![114u8, 111, 115, 116, 45, 110, 101, 116]);
}

/// A program that a process asks for is started only if that service is on, and
/// runs the image it was given with the priority it asked for.
pub proof fn law_requested_program_runs_its_image(
    h: SpawnHooks,
    before: Kernel,
    after: Kernel,
    data: Seq<u8>,
    priority: u8,
    trampoline: u64,
    r: Option<u32>,
)
    requires
        after.wf(),
        elf_spawn::spawn_served(h, before, after, data, priority, trampoline, r),
    ensures
        !h.elf_spawn ==> r is None && after == before,
        r matches Some(pid) ==> {
            let q = after.sched().pcb(ProcessId(pid));
            &&& after.sched().has(ProcessId(pid))
            &&& q.context.rip == trampoline
            &&& q.context.r12 == crate::bytes::le64(data, 24)
            &&& q.priority == if priority > 0 {
                priority
            } else {
                128
            }
        },
{
    if r is Some {
        let made = choose|made: Option<ProcessId>|
            #[trigger] elf::elf_spawned(before, after, data, priority, trampoline, made) && r
                == match made {
                Some(pid) => Some(pid.0),
                None => None,
            };
        law_started_program_begins_at_its_entry(
            before,
            after,
            data,
            priority,
            trampoline,
            made->0,
        );
    }
}

} // verus!
