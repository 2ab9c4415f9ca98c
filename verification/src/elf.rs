//! ELF64 loader for user programs.

use vstd::prelude::*;
use vstd::slice::slice_subrange;

use crate::bytes::{get_u16, get_u32, get_u64};
use crate::kernel::Kernel;
use crate::memory::paging::KernelSpace;
use crate::memory::{
    frame_tag, global_alloc_4k, map_crash_log_page, map_page_global, merge_hidden_kernel,
    FrameKind, KernelMemory, PTE_NO_EXECUTE, PTE_PRESENT, PTE_USER, PTE_WRITABLE,
};
use crate::process::pcb::ProcessControlBlock;
use crate::process::ProcessId;
use crate::scheduler::global::get_global;
use crate::scheduler::round_robin::Scheduler;

verus! {

/// Bytes of the file header.
pub const EHDR_SIZE: usize = 64;

/// Bytes of a program header.
pub const PHDR_SIZE: usize = 56;

/// 64-bit image.
pub const ELFCLASS64: u8 = 2;

/// Little-endian image.
pub const ELFDATA2LSB: u8 = 1;

/// x86-64 machine.
pub const EM_X86_64: u16 = 0x3E;

/// Loadable segment.
pub const PT_LOAD: u32 = 1;

/// Executable segment.
pub const PF_EXEC: u32 = 0x1;

/// Writable segment.
pub const PF_WRITE: u32 = 0x2;

/// Frames a load takes note of.
pub const LOAD_FRAMES_MAX: usize = 64;

/// Pages of a user stack.
pub const USER_STACK_PAGES: u64 = 32;

/// Lowest address of the user stack.
pub const USER_STACK_BASE: u64 = 0x0000_7FFF_FFFD_F000;

/// Address just above the user stack.
pub const USER_STACK_TOP: u64 = 0x0000_7FFF_FFFF_F000;

/// A program that was loaded.
#[derive(Debug)]
pub struct LoadedElf {
    /// Virtual address of the entry point.
    pub entry: u64,
    /// Physical address of the top-level page table.
    pub pml4_phys: u64,
    /// The first frames that were allocated for the program.
    pub frames: [u64; LOAD_FRAMES_MAX],
    pub frame_count: usize,
}

// ── File format ──────────────────────────────────────────────────────────────
/// The fields of the file header that the loader uses.
pub struct Header {
    pub entry: u64,
    pub phoff: u64,
    pub phnum: u16,
}

/// The fields of a program header that the loader uses.
#[derive(Copy, Clone, Debug)]
pub struct Segment {
    pub kind: u32,
    pub flags: u32,
    pub offset: u64,
    pub vaddr: u64,
    pub filesz: u64,
    pub memsz: u64,
}

/// The file header of an image that can be loaded.
pub open spec fn header(data: Seq<u8>) -> Option<Header> {
    if data.len() < EHDR_SIZE {
        None
    } else if data[0] != 0x7F || data[1] != 0x45 || data[2] != 0x4C || data[3] != 0x46 {
        None
    } else if data[4] != ELFCLASS64 || data[5] != ELFDATA2LSB {
        None
    } else if crate::bytes::le16(data, 18) != EM_X86_64 {
        None
    } else if crate::bytes::le16(data, 54) != PHDR_SIZE || crate::bytes::le16(data, 56) == 0 {
        None
    } else {
        Some(
            Header {
                entry: crate::bytes::le64(data, 24),
                phoff: crate::bytes::le64(data, 32),
                phnum: crate::bytes::le16(data, 56),
            },
        )
    }
}

/// Program header `i`; `None` if it does not lie in the image.
pub open spec fn segment(data: Seq<u8>, h: Header, i: int) -> Option<Segment> {
    let off = h.phoff + i * 56;
    if off + 56 > data.len() {
        None
    } else {
        Some(
            Segment {
                kind: crate::bytes::le32(data, off),
                flags: crate::bytes::le32(data, off + 4),
                offset: crate::bytes::le64(data, off + 8),
                vaddr: crate::bytes::le64(data, off + 16),
                filesz: crate::bytes::le64(data, off + 32),
                memsz: crate::bytes::le64(data, off + 40),
            },
        )
    }
}

fn parse_header(data: &[u8]) -> (r: Option<Header>)
    ensures
        r == header(data@),
{
    if data.len() < EHDR_SIZE {
        return None;
    }
    if data[0] != 0x7F || data[1] != 0x45 || data[2] != 0x4C || data[3] != 0x46 {
        return None;
    }
    if data[4] != ELFCLASS64 || data[5] != ELFDATA2LSB {
        return None;
    }
    if get_u16(data, 18) != EM_X86_64 {
        return None;
    }
    let phnum: u16 = get_u16(data, 56);
    if get_u16(data, 54) != PHDR_SIZE as u16 || phnum == 0 {
        return None;
    }
    Some(Header { entry: get_u64(data, 24), phoff: get_u64(data, 32), phnum })
}

fn parse_segment(data: &[u8], h: &Header, i: u16) -> (r: Option<Segment>)
    ensures
        r == segment(data@, *h, i as int),
{
    assert(data.len() == data@.len());
    let off: u128 = h.phoff as u128 + i as u128 * 56;
    if off + 56 > data.len() as u128 {
        return None;
    }
    let off: usize = off as usize;
    Some(
        Segment {
            kind: get_u32(data, off),
            flags: get_u32(data, off + 4),
            offset: get_u64(data, off + 8),
            vaddr: get_u64(data, off + 16),
            filesz: get_u64(data, off + 32),
            memsz: get_u64(data, off + 40),
        },
    )
}

// ── Loading ──────────────────────────────────────────────────────────────────
/// Memory and noted frames while a program is loaded.
#[verifier::ext_equal]
pub struct Loading {
    pub space: KernelSpace,
    pub frames: Seq<u64>,
}

/// The noted frames after `p` is added, if there is room.
pub open spec fn noted(frames: Seq<u64>, p: u64) -> Seq<u64> {
    if frames.len() < LOAD_FRAMES_MAX {
        frames.push(p)
    } else {
        frames
    }
}

/// Page-table flags of a segment.
pub open spec fn segment_flags(flags: u32) -> u64 {
    let base = if flags & PF_WRITE != 0 {
        PTE_PRESENT | PTE_USER | PTE_WRITABLE
    } else {
        PTE_PRESENT | PTE_USER
    };
    if flags & PF_EXEC == 0 {
        base | PTE_NO_EXECUTE
    } else {
        base
    }
}

impl Segment {
    /// Offset of the segment in its first page.
    pub open spec fn skew(self) -> int {
        self.vaddr as int % 4096
    }

    /// Address of the segment's first page.
    pub open spec fn page_base(self) -> int {
        self.vaddr - self.skew()
    }

    /// Pages the segment extends over.
    pub open spec fn pages(self) -> int {
        (self.skew() + self.memsz + 4095) / 4096
    }

    /// Offset in page `idx` at which file contents start.
    pub open spec fn page_offset(self, idx: int) -> int {
        if idx == 0 {
            self.skew()
        } else {
            0
        }
    }

    /// Offset in the segment's file contents that page `idx` starts with.
    pub open spec fn file_start(self, idx: int) -> int {
        if idx == 0 {
            0
        } else {
            idx * 4096 - self.skew()
        }
    }

    /// The file contents that go to page `idx`.
    pub open spec fn page_data(self, data: Seq<u8>, idx: int) -> Seq<u8> {
        let contents = data.subrange(self.offset as int, self.offset + self.filesz);
        let start = self.file_start(idx);
        let room = 4096 - self.page_offset(idx);
        if start >= contents.len() {
            Seq::empty()
        } else if contents.len() - start < room {
            contents.subrange(start, contents.len() as int)
        } else {
            contents.subrange(start, start + room)
        }
    }

    /// The segment's file contents lie in the image, and its pages in the
    /// address space.
    pub open spec fn fits(self, data: Seq<u8>) -> bool {
        &&& self.offset + self.filesz <= data.len()
        &&& self.memsz > 0 ==> self.page_base() + self.pages() * 4096 <= u64::MAX + 1
    }
}

/// A frame for a page of the program, tagged, noted and cleared.
pub open spec fn frame_taken(l: Loading) -> Option<(u64, Loading)> {
    match l.space.take_frame() {
        Some((p, s)) => Some(
            (
                p,
                Loading {
                    space: KernelSpace {
                        frames: s.frames.tagged(p, FrameKind::UserOwned),
                        ..s
                    }.cleared(p),
                    frames: noted(l.frames, p),
                },
            ),
        ),
        None => None,
    }
}

/// The state after page `idx` of a segment is loaded, and whether it could be.
pub open spec fn page_loaded(l: Loading, pml4: u64, data: Seq<u8>, seg: Segment, idx: int) -> (
    Loading,
    bool,
) {
    match frame_taken(l) {
        None => (l, false),
        Some((p, t)) => {
            let filled = KernelSpace {
                ram: t.space.ram.with_data(p + seg.page_offset(idx), seg.page_data(data, idx)),
                ..t.space
            };
            let (mapped, ok) = filled.mapped(
                pml4,
                (seg.page_base() + idx * 4096) as u64,
                p,
                segment_flags(seg.flags),
            );
            (Loading { space: mapped, ..t }, ok)
        },
    }
}

/// The state after the first `n` pages of a segment are loaded, and whether
/// they all could be.
pub open spec fn pages_loaded(l: Loading, pml4: u64, data: Seq<u8>, seg: Segment, n: nat) -> (
    Loading,
    bool,
)
    decreases n,
{
    if n == 0 {
        (l, true)
    } else {
        let (before, ok) = pages_loaded(l, pml4, data, seg, (n - 1) as nat);
        if ok {
            page_loaded(before, pml4, data, seg, n - 1)
        } else {
            (before, false)
        }
    }
}

/// The state after a program header is processed, and whether it could be.
/// Headers of other kinds and empty segments load nothing.
pub open spec fn segment_loaded(l: Loading, pml4: u64, data: Seq<u8>, seg: Segment) -> (
    Loading,
    bool,
) {
    if seg.kind != PT_LOAD {
        (l, true)
    } else if !seg.fits(data) {
        (l, false)
    } else if seg.memsz == 0 {
        (l, true)
    } else {
        pages_loaded(l, pml4, data, seg, seg.pages() as nat)
    }
}

/// The state after the first `n` program headers are processed, and whether
/// they all could be.
pub open spec fn segments_loaded(l: Loading, pml4: u64, data: Seq<u8>, h: Header, n: nat) -> (
    Loading,
    bool,
)
    decreases n,
{
    if n == 0 {
        (l, true)
    } else {
        let (before, ok) = segments_loaded(l, pml4, data, h, (n - 1) as nat);
        if !ok {
            (before, false)
        } else {
            match segment(data, h, n - 1) {
                Some(seg) => segment_loaded(before, pml4, data, seg),
                None => (before, false),
            }
        }
    }
}

/// The top-level page table for a program and the state to load it in: the
/// given table, or a new and empty one.
pub open spec fn address_space(s: KernelSpace, pml4: Option<u64>) -> Option<(u64, Loading)> {
    match pml4 {
        Some(t) => Some((t, Loading { space: s, frames: Seq::empty() })),
        None => match s.take_frame() {
            Some((p, after)) => Some(
                (p, Loading { space: after.cleared(p), frames: seq![p] }),
            ),
            None => None,
        },
    }
}

/// The memory after a program is loaded, and the program, if it could be loaded.
pub open spec fn program_loaded(s: KernelSpace, data: Seq<u8>, pml4: Option<u64>) -> (
    KernelSpace,
    Option<(u64, u64, Seq<u64>)>,
) {
    match header(data) {
        None => (s, None),
        Some(h) => match address_space(s, pml4) {
            None => (s, None),
            Some((root, start)) => {
                let (l, ok) = segments_loaded(start, root, data, h, h.phnum as nat);
                (
                    l.space,
                    if ok {
                        Some((h.entry, root, l.frames))
                    } else {
                        None
                    },
                )
            },
        },
    }
}

/// Frames noted during a load.
struct FrameList {
    frames: [u64; LOAD_FRAMES_MAX],
    count: usize,
}

impl FrameList {
    spec fn wf(&self) -> bool {
        self.count <= LOAD_FRAMES_MAX
    }

    spec fn view(&self) -> Seq<u64> {
        self.frames@.take(self.count as int)
    }

    fn note(&mut self, p: u64)
        requires
            old(self).wf(),
        ensures
            final(self).wf(),
            final(self)@ == noted(old(self)@, p),
    {
        if self.count < LOAD_FRAMES_MAX {
            let i: usize = self.count;
            self.frames[i] = p;
            self.count = i + 1;
            assert(self@ =~= old(self)@.push(p));
        }
    }
}

impl LoadedElf {
    pub open spec fn wf(&self) -> bool {
        self.frame_count <= LOAD_FRAMES_MAX
    }

    /// The frames that were noted.
    pub open spec fn noted(&self) -> Seq<u64> {
        self.frames@.take(self.frame_count as int)
    }
}

/// Flags for the pages of a segment.
fn flags_of(flags: u32) -> (r: u64)
    ensures
        r == segment_flags(flags),
{
    let base: u64 = if flags & PF_WRITE != 0 {
        PTE_PRESENT | PTE_USER | PTE_WRITABLE
    } else {
        PTE_PRESENT | PTE_USER
    };
    if flags & PF_EXEC == 0 {
        base | PTE_NO_EXECUTE
    } else {
        base
    }
}

/// Copies the file contents of page `idx` to the frame at `p`.
fn fill_page(mem: &mut KernelMemory, p: u64, data: &[u8], seg: &Segment, idx: u64)
    requires
        old(mem).wf(),
        seg.fits(data@),
        idx < seg.pages(),
        p + 4096 <= u64::MAX,
        seg.memsz > 0,
    ensures
        final(mem).wf(),
        final(mem)@ == (KernelSpace {
            ram: old(mem)@.ram.with_data(
                p + seg.page_offset(idx as int),
                seg.page_data(data@, idx as int),
            ),
            ..old(mem)@
        }),
{
    assert(data.len() == data@.len());
    let skew: u64 = seg.vaddr % 4096;
    let file_start: u128 = if idx == 0 {
        0
    } else {
        idx as u128 * 4096 - skew as u128
    };
    let page_offset: u64 = if idx == 0 {
        skew
    } else {
        0
    };
    let ghost contents = data@.subrange(seg.offset as int, seg.offset + seg.filesz);
    if file_start < seg.filesz as u128 {
        let start: usize = file_start as usize;
        let left: usize = seg.filesz as usize - start;
        let room: usize = 4096 - page_offset as usize;
        let n: usize = if left < room {
            left
        } else {
            room
        };
        mem.ram.copy_in(p + page_offset, data, seg.offset as usize + start, n);
        assert(data@.subrange(seg.offset + start, seg.offset + start + n)
            =~= contents.subrange(start as int, start + n));
    } else {
        assert(seg.page_data(data@, idx as int) =~= Seq::<u8>::empty());
        assert(mem@.ram.with_data(p + page_offset, Seq::<u8>::empty()) =~= mem@.ram);
    }
}

/// Loads page `idx` of a segment; `false` if memory runs out.
fn load_page(
    mem: &mut KernelMemory,
    list: &mut FrameList,
    pml4: u64,
    data: &[u8],
    seg: &Segment,
    idx: u64,
) -> (r: bool)
    requires
        old(mem).wf(),
        old(list).wf(),
        crate::memory::paging::table_addr(pml4),
        seg.fits(data@),
        seg.memsz > 0,
        idx < seg.pages(),
    ensures
        final(mem).wf(),
        final(list).wf(),
        (Loading { space: final(mem)@, frames: final(list)@ }, r) == page_loaded(
            Loading { space: old(mem)@, frames: old(list)@ },
            pml4,
            data@,
            *seg,
            idx as int,
        ),
{
    let p: u64 = match global_alloc_4k(&mut mem.frames) {
        Some(p) => p,
        None => return false,
    };
    frame_tag(&mut mem.frames, p, FrameKind::UserOwned);
    list.note(p);
    mem.ram.zero(p, 4096);
    fill_page(mem, p, data, seg, idx);
    let virt: u64 = seg.vaddr - seg.vaddr % 4096 + idx * 4096;
    map_page_global(mem, pml4, virt, p, flags_of(seg.flags))
}

/// Loads a segment; `false` if it does not fit or memory runs out.
fn load_segment(
    mem: &mut KernelMemory,
    list: &mut FrameList,
    pml4: u64,
    data: &[u8],
    seg: &Segment,
) -> (r: bool)
    requires
        old(mem).wf(),
        old(list).wf(),
        crate::memory::paging::table_addr(pml4),
    ensures
        final(mem).wf(),
        final(list).wf(),
        (Loading { space: final(mem)@, frames: final(list)@ }, r) == segment_loaded(
            Loading { space: old(mem)@, frames: old(list)@ },
            pml4,
            data@,
            *seg,
        ),
{
    if seg.kind != PT_LOAD {
        return true;
    }
    assert(data.len() == data@.len());
    if seg.offset as u128 + seg.filesz as u128 > data.len() as u128 {
        return false;
    }
    if seg.memsz == 0 {
        return true;
    }
    let skew: u128 = (seg.vaddr % 4096) as u128;
    let pages: u128 = (skew + seg.memsz as u128 + 4095) / 4096;
    let page_base: u128 = (seg.vaddr - seg.vaddr % 4096) as u128;
    if page_base + pages * 4096 > u64::MAX as u128 + 1 {
        return false;
    }
    let pages: u64 = pages as u64;
    let ghost start = Loading { space: mem@, frames: list@ };
    let mut idx: u64 = 0;
    while idx < pages
        invariant
            mem.wf(),
            list.wf(),
            crate::memory::paging::table_addr(pml4),
            seg.fits(data@),
            seg.memsz > 0,
            seg.kind == PT_LOAD,
            start == (Loading { space: old(mem)@, frames: old(list)@ }),
            pages == seg.pages(),
            idx <= pages,
            (Loading { space: mem@, frames: list@ }, true) == pages_loaded(
                start,
                pml4,
                data@,
                *seg,
                idx as nat,
            ),
        decreases pages - idx,
    {
        if !load_page(mem, list, pml4, data, seg, idx) {
            proof {
                lemma_pages_stop(start, pml4, data@, *seg, (idx + 1) as nat, pages as nat);
            }
            return false;
        }
        idx = idx + 1;
    }
    true
}

/// Once a page cannot be loaded, nothing more happens.
proof fn lemma_pages_stop(l: Loading, pml4: u64, data: Seq<u8>, seg: Segment, n: nat, m: nat)
    requires
        n <= m,
        !pages_loaded(l, pml4, data, seg, n).1,
    ensures
        pages_loaded(l, pml4, data, seg, m) == pages_loaded(l, pml4, data, seg, n),
    decreases m,
{
    if m > n {
        lemma_pages_stop(l, pml4, data, seg, n, (m - 1) as nat);
    }
}

/// Once a program header cannot be processed, nothing more happens.
proof fn lemma_segments_stop(l: Loading, pml4: u64, data: Seq<u8>, h: Header, n: nat, m: nat)
    requires
        n <= m,
        !segments_loaded(l, pml4, data, h, n).1,
    ensures
        segments_loaded(l, pml4, data, h, m) == segments_loaded(l, pml4, data, h, n),
    decreases m,
{
    if m > n {
        lemma_segments_stop(l, pml4, data, h, n, (m - 1) as nat);
    }
}

/// Loads the program in `data`: maps each loadable segment at the address it
/// asks for, with new frames that hold its file contents and otherwise zeros.
/// Without a `pml4` it gets a new, empty address space.
///
/// `None` if the image is malformed or memory runs out.
pub fn load(mem: &mut KernelMemory, data: &[u8], pml4: Option<u64>) -> (r: Option<LoadedElf>)
    requires
        old(mem).wf(),
        pml4 matches Some(t) ==> crate::memory::paging::table_addr(t),
    ensures
        final(mem).wf(),
        ({
            let (after, program) = program_loaded(old(mem)@, data@, pml4);
            &&& final(mem)@ == after
            &&& match program {
                Some((entry, root, frames)) => {
                    &&& r is Some
                    &&& r->0.wf()
                    &&& r->0.entry == entry
                    &&& r->0.pml4_phys == root
                    &&& r->0.noted() == frames
                    &&& crate::memory::paging::table_addr(root)
                },
                None => r is None,
            }
        }),
{
    let h = match parse_header(data) {
        Some(h) => h,
        None => return None,
    };
    let mut list = FrameList { frames: [0;LOAD_FRAMES_MAX], count: 0 };
    let root: u64 = match pml4 {
        Some(t) => t,
        None => {
            let p: u64 = match global_alloc_4k(&mut mem.frames) {
                Some(p) => p,
                None => return None,
            };
            mem.ram.zero(p, 4096);
            list.note(p);
            p
        },
    };
    let ghost start = Loading { space: mem@, frames: list@ };
    proof {
        if pml4 is None {
            assert(start.frames =~= seq![root]);
        } else {
            assert(start.frames =~= Seq::<u64>::empty());
        }
        assert(address_space(old(mem)@, pml4) == Some((root, start)));
    }
    let mut i: u16 = 0;
    while i < h.phnum
        invariant
            mem.wf(),
            list.wf(),
            crate::memory::paging::table_addr(root),
            i <= h.phnum,
            header(data@) == Some(h),
            address_space(old(mem)@, pml4) == Some((root, start)),
            (Loading { space: mem@, frames: list@ }, true) == segments_loaded(
                start,
                root,
                data@,
                h,
                i as nat,
            ),
        decreases h.phnum - i,
    {
        let ghost all = h.phnum as nat;
        let seg = match parse_segment(data, &h, i) {
            Some(seg) => seg,
            None => {
                proof {
                    lemma_segments_stop(start, root, data@, h, (i + 1) as nat, all);
                }
                return None;
            },
        };
        if !load_segment(mem, &mut list, root, data, &seg) {
            proof {
                lemma_segments_stop(start, root, data@, h, (i + 1) as nat, all);
            }
            return None;
        }
        i = i + 1;
    }
    Some(
        LoadedElf { entry: h.entry, pml4_phys: root, frames: list.frames, frame_count: list.count },
    )
}

// ── Spawning ─────────────────────────────────────────────────────────────────
/// Page-table flags of the user stack.
pub open spec fn stack_flags() -> u64 {
    PTE_PRESENT | PTE_WRITABLE | PTE_USER | PTE_NO_EXECUTE
}

/// The state after a page of the user stack is mapped, and whether it could be.
pub open spec fn stack_page_loaded(l: Loading, pml4: u64, idx: int) -> (Loading, bool) {
    match l.space.take_frame() {
        None => (l, false),
        Some((p, s)) => {
            let (mapped, ok) = s.cleared(p).mapped(
                pml4,
                (USER_STACK_BASE + idx * 4096) as u64,
                p,
                stack_flags(),
            );
            (Loading { space: mapped, frames: noted(l.frames, p) }, ok)
        },
    }
}

/// The state after the lowest `n` pages of the user stack are mapped, and
/// whether they all could be.
pub open spec fn stack_loaded(l: Loading, pml4: u64, n: nat) -> (Loading, bool)
    decreases n,
{
    if n == 0 {
        (l, true)
    } else {
        let (before, ok) = stack_loaded(l, pml4, (n - 1) as nat);
        if ok {
            stack_page_loaded(before, pml4, n - 1)
        } else {
            (before, false)
        }
    }
}

proof fn lemma_stack_stops(l: Loading, pml4: u64, n: nat, m: nat)
    requires
        n <= m,
        !stack_loaded(l, pml4, n).1,
    ensures
        stack_loaded(l, pml4, m) == stack_loaded(l, pml4, n),
    decreases m,
{
    if m > n {
        lemma_stack_stops(l, pml4, n, (m - 1) as nat);
    }
}

/// The memory after a program is loaded with a stack and the kernel's mappings,
/// and its entry point, top-level page table and noted frames, if all of that
/// succeeds.
pub open spec fn program_prepared(
    s: KernelSpace,
    kernel_pml4: u64,
    data: Seq<u8>,
    scheduling: bool,
) -> (KernelSpace, Option<(u64, u64, Seq<u64>)>) {
    let (loaded, program) = program_loaded(s, data, None);
    if program is None || !scheduling {
        (loaded, None)
    } else {
        let (entry, root, frames) = program->0;
        let (stacked, ok) = stack_loaded(Loading { space: loaded, frames }, root, USER_STACK_PAGES as nat);
        if !ok {
            (stacked.space, None)
        } else {
            (
                stacked.space.merged(kernel_pml4, root, true).mapped(
                    root,
                    crate::crash_log::CRASH_LOG_PHYS,
                    crate::crash_log::CRASH_LOG_PHYS,
                    PTE_PRESENT | PTE_WRITABLE,
                ).0,
                Some((entry, root, stacked.frames)),
            )
        }
    }
}

/// Outcome of registering a prepared program as a process, to which the frames
/// that were noted belong from now on.
pub open spec fn process_started(
    before: Scheduler,
    after: Scheduler,
    entry: u64,
    root: u64,
    frames: Seq<u64>,
    priority: u8,
    trampoline: u64,
    r: Option<ProcessId>,
) -> bool {
    exists|middle: Scheduler|
        {
            &&& #[trigger] crate::scheduler::round_robin::ring3_added(
                before,
                middle,
                entry,
                USER_STACK_TOP,
                root,
                trampoline,
                r,
            )
            &&& match r {
                None => after == middle,
                Some(pid) => {
                    let p = middle.pcb(pid);
                    let q = after.pcb(pid);
                    &&& after.replaces(&middle, pid, q)
                    &&& q == ProcessControlBlock {
                        priority: if priority > 0 {
                            priority
                        } else {
                            p.priority
                        },
                        user_frames: q.user_frames,
                        ..p
                    }
                    &&& q.user_frames@ == frames
                },
            }
        }
}

/// Outcome of loading a program and starting it as a process.
pub open spec fn elf_spawned(
    before: Kernel,
    after: Kernel,
    data: Seq<u8>,
    priority: u8,
    trampoline: u64,
    r: Option<ProcessId>,
) -> bool {
    let (space, program) = program_prepared(
        before.mem@,
        before.global.kernel_pml4,
        data,
        before.scheduling(),
    );
    &&& after.mem@ == space
    &&& match program {
        None => r is None && after.differs_in_mem(&before),
        Some((entry, root, frames)) => {
            &&& after.differs_in_sched_and_mem(&before)
            &&& process_started(
                before.sched(),
                after.sched(),
                entry,
                root,
                frames,
                priority,
                trampoline,
                r,
            )
        },
    }
}

/// Maps the user stack; `false` if memory runs out.
fn load_stack(mem: &mut KernelMemory, list: &mut FrameList, pml4: u64) -> (r: bool)
    requires
        old(mem).wf(),
        old(list).wf(),
        crate::memory::paging::table_addr(pml4),
    ensures
        final(mem).wf(),
        final(list).wf(),
        (Loading { space: final(mem)@, frames: final(list)@ }, r) == stack_loaded(
            Loading { space: old(mem)@, frames: old(list)@ },
            pml4,
            USER_STACK_PAGES as nat,
        ),
{
    let ghost start = Loading { space: mem@, frames: list@ };
    let mut i: u64 = 0;
    while i < USER_STACK_PAGES
        invariant
            mem.wf(),
            list.wf(),
            crate::memory::paging::table_addr(pml4),
            i <= USER_STACK_PAGES,
            start == (Loading { space: old(mem)@, frames: old(list)@ }),
            (Loading { space: mem@, frames: list@ }, true) == stack_loaded(start, pml4, i as nat),
        decreases USER_STACK_PAGES - i,
    {
        let p: u64 = match global_alloc_4k(&mut mem.frames) {
            Some(p) => p,
            None => {
                proof {
                    lemma_stack_stops(start, pml4, (i + 1) as nat, USER_STACK_PAGES as nat);
                }
                return false;
            },
        };
        mem.ram.zero(p, 4096);
        list.note(p);
        let virt: u64 = USER_STACK_BASE + i * 4096;
        let flags: u64 = PTE_PRESENT | PTE_WRITABLE | PTE_USER | PTE_NO_EXECUTE;
        if !map_page_global(mem, pml4, virt, p, flags) {
            proof {
                lemma_stack_stops(start, pml4, (i + 1) as nat, USER_STACK_PAGES as nat);
            }
            return false;
        }
        i = i + 1;
    }
    true
}

/// Loads the program in `data`, gives it a stack and makes it a ring-3 process
/// that first runs the trampoline at `trampoline`. A `priority` of 0 leaves the
/// default. The frames that were noted are given back when the process ends.
/// `None` if any step fails.
pub fn spawn_elf(k: &mut Kernel, data: &[u8], priority: u8, trampoline: u64) -> (r: Option<
    ProcessId,
>)
    requires
        old(k).wf(),
        crate::memory::paging::table_addr(old(k).global.kernel_pml4),
        old(k).scheduling() ==> old(k).sched().process_table.next_pid < u32::MAX,
    ensures
        final(k).wf(),
        elf_spawned(*old(k), *final(k), data@, priority, trampoline, r),
{
    let loaded = match load(&mut k.mem, data, None) {
        Some(l) => l,
        None => return None,
    };
    if k.global.scheduler.is_none() {
        return None;
    }
    let root: u64 = loaded.pml4_phys;
    let mut list = FrameList { frames: loaded.frames, count: loaded.frame_count };
    assert(list@ == loaded.noted());
    if !load_stack(&mut k.mem, &mut list, root) {
        return None;
    }
    merge_hidden_kernel(&mut k.mem, k.global.kernel_pml4, root);
    map_crash_log_page(&mut k.mem, root);
    let mut made: Option<ProcessId> = None;
    let ghost mut middle = arbitrary();
    if let Some(sched) = get_global(&mut k.global) {
        made = sched.add_ring3_process(loaded.entry, USER_STACK_TOP, root, trampoline);
        proof {
            middle = *sched;
        }
        if let Some(pid) = made {
            if priority > 0 {
                sched.set_priority(pid, priority);
            }
            let ghost set = *sched;
            sched.register_user_frames(pid, slice_subrange(&list.frames, 0, list.count));
            proof {
                let t = crate::process::table::slot_of(middle.slots(), pid);
                assert(crate::process::table::holds(middle.slots(), t, pid));
                crate::process::table::lemma_slot_unique(
                    middle.slots(),
                    middle.process_table.next_pid,
                    t,
                    pid,
                );
                assert(crate::process::table::holds(set.slots(), t, pid));
                crate::process::table::lemma_slot_unique(
                    set.slots(),
                    set.process_table.next_pid,
                    t,
                    pid,
                );
                assert(sched.slots() =~= crate::process::table::with_process(
                    middle.slots(),
                    pid,
                    sched.pcb(pid),
                ));
                assert(sched.pcb(pid).user_frames@ =~= list@);
            }
        }
    }
    assert(crate::scheduler::round_robin::ring3_added(
        old(k).sched(),
        middle,
        loaded.entry,
        USER_STACK_TOP,
        root,
        trampoline,
        made,
    ));
    made
}

} // verus!
