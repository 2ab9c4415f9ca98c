//! What a loaded program finds in its memory.

use vstd::prelude::*;

use crate::elf::{self, Header, Loading, Segment, PT_LOAD};
use crate::kernel::Kernel;
use crate::memory::contents;
use crate::memory::entries;
use crate::memory::laws::{self, Node};
use crate::memory::paging::{self, KernelSpace, PTE_ADDR_MASK, PTE_PRESENT};
use crate::memory::ram::Ram;
use crate::memory::FrameKind;
use crate::process::table;
use crate::process::ProcessId;
use crate::scheduler::round_robin::{self, Scheduler};

verus! {

/// Address of page `idx` of a segment.
pub open spec fn page_address(seg: Segment, idx: int) -> u64 {
    (seg.page_base() + idx * 4096) as u64
}

/// A page that holds `d` from offset `off` on, and zeros elsewhere.
pub open spec fn page_with(off: int, d: Seq<u8>) -> Seq<u8> {
    Seq::new(
        4096,
        |i: int|
            if off <= i < off + d.len() {
                d[i - off]
            } else {
                0u8
            },
    )
}

/// What page `idx` of a segment is meant to hold: its file contents, and zeros
/// where there are none.
pub open spec fn page_image(seg: Segment, data: Seq<u8>, idx: int) -> Seq<u8> {
    page_with(seg.page_offset(idx), seg.page_data(data, idx))
}

/// In the address space, the page of `virt` is mapped as a segment with the given
/// flags asks for, and holds `bytes`, in a frame that is used for nothing else.
pub open spec fn page_in_memory(
    k: KernelSpace,
    root: u64,
    virt: u64,
    flags: u32,
    bytes: Seq<u8>,
) -> bool {
    exists|f: u64| #[trigger] page_in_frame(k, root, virt, f, flags, bytes)
}

/// The page of `virt` is mapped to the frame at `f`, as a segment with the given
/// flags asks for, and the frame holds `bytes`.
pub open spec fn page_in_frame(
    k: KernelSpace,
    root: u64,
    virt: u64,
    f: u64,
    flags: u32,
    bytes: Seq<u8>,
) -> bool {
    &&& paging::translated(k.ram, root, virt) == Some(f)
    &&& permitted(k.ram, root, virt, f, flags)
    &&& contents::in_use(k, root, f)
    &&& contents::frame_bytes(k.ram, f) == bytes
}

/// The word that maps the page of `virt` names the frame at `f`, and permits
/// what a segment with the given flags asks for: users may read it, write to it if
/// bit 1 is set and execute it if bit 0 is set.
pub open spec fn permitted(m: Ram, root: u64, virt: u64, f: u64, flags: u32) -> bool {
    let e = entries::leaf(m, root, virt)->0;
    &&& entries::leaf(m, root, virt) is Some
    &&& e & 0x000F_FFFF_FFFF_F000 == f
    &&& e & 0x1 != 0
    &&& e & 0x2 != 0 <==> flags & 0x2 != 0
    &&& e & 0x4 != 0
    &&& e & 0x80 == 0
    &&& e & 0x8000_0000_0000_0000 == 0 <==> flags & 0x1 != 0
    &&& entries::open_to_users(m, root, virt)
}

/// The flags of segments say present and hold no address bits; pages are for
/// users, writable and executable as the segment says.
proof fn lemma_segment_flags(flags: u32)
    ensures
        elf::segment_flags(flags) & PTE_PRESENT != 0,
        elf::segment_flags(flags) & PTE_ADDR_MASK == 0,
        elf::segment_flags(flags) & 0x2 != 0 <==> flags & 0x2 != 0,
        elf::segment_flags(flags) & 0x4 != 0,
        elf::segment_flags(flags) & 0x8000_0000_0000_0000 == 0 <==> flags & 0x1 != 0,
{
    lemma_flag_bits(0x7);
    lemma_flag_bits(0x5);
    lemma_flag_bits(0x8000_0000_0000_0007);
    lemma_flag_bits(0x8000_0000_0000_0005);
    assert(0x1u64 | 0x4 | 0x2 == 0x7 && 0x1u64 | 0x4 == 0x5 && 0x1u64 | 0x4 | 0x2
        | 0x8000_0000_0000_0000 == 0x8000_0000_0000_0007 && 0x1u64 | 0x4 | 0x8000_0000_0000_0000
        == 0x8000_0000_0000_0005) by (bit_vector);
}

/// The bits of flags for users.
proof fn lemma_flag_bits(v: u64)
    requires
        v == 0x7 || v == 0x5 || v == 0x8000_0000_0000_0007 || v == 0x8000_0000_0000_0005,
    ensures
        v & 0x1 != 0,
        v & 0x4 != 0,
        v & 0x000F_FFFF_FFFF_F000 == 0,
        v & 0x2 != 0 <==> v == 0x7 || v == 0x8000_0000_0000_0007,
        v & 0x8000_0000_0000_0000 == 0 <==> v == 0x7 || v == 0x5,
{
    assert((v == 0x7 || v == 0x5 || v == 0x8000_0000_0000_0007 || v == 0x8000_0000_0000_0005) ==> v
        & 0x1 != 0 && v & 0x4 != 0 && v & 0x000F_FFFF_FFFF_F000 == 0 && (v & 0x2 != 0 <==> v == 0x7
        || v == 0x8000_0000_0000_0007) && (v & 0x8000_0000_0000_0000 == 0 <==> v == 0x7 || v == 0x5))
        by (bit_vector);
}

/// Words outside the data that is stored are unaffected.
proof fn lemma_word_with_data(m: Ram, addr: int, data: Seq<u8>, other: int)
    requires
        other + 8 <= addr || addr + data.len() <= other,
    ensures
        m.with_data(addr, data).word(other) == m.word(other),
{
    reveal(crate::bytes::le64);
}

/// Taking a frame and filling it changes no translation and nothing that the
/// frames in use hold.
pub proof fn lemma_filled(k: KernelSpace, root: u64, k2: KernelSpace, off: int, d: Seq<u8>)
    requires
        laws::kernel_ok(k, root),
        k.take_frame() is Some,
        0 <= off,
        off + d.len() <= 4096,
        ({
            let (p, s) = k.take_frame()->0;
            &&& k2.pool == s.pool
            &&& k2.frames.free == s.frames.free
            &&& k2.frames.base == s.frames.base
            &&& k2.frames.end == s.frames.end
            &&& k2.frames.tags.len() == s.frames.tags.len()
            &&& k2.ram == k.ram.zeroed(p as int, 4096).with_data(p + off, d)
        }),
    ensures
        ({
            let p = (k.take_frame()->0).0;
            &&& laws::kernel_ok(k2, root)
            &&& contents::in_use(k2, root, p)
            &&& contents::frame_bytes(k2.ram, p) == page_with(off, d)
            &&& forall|virt: u64| #[trigger]
                paging::translated(k2.ram, root, virt) == paging::translated(k.ram, root, virt)
            &&& forall|virt: u64| #[trigger]
                entries::walk(k2.ram, root, virt) == entries::walk(k.ram, root, virt)
            &&& forall|f: u64| #[trigger]
                contents::in_use(k, root, f) ==> contents::in_use(k2, root, f)
                    && contents::frame_bytes(k2.ram, f) == contents::frame_bytes(k.ram, f)
        }),
{
    let (p, s) = k.take_frame()->0;
    let m = k.ram;
    let z = m.zeroed(p as int, 4096);
    laws::lemma_take_frame(k);
    assert(laws::fresh(m, root, p));
    assert forall|n: Node, j: int|
        n.valid() && 0 <= j < 512 && laws::table(m, root, n) is Some implies (
    #[trigger] paging::entry(k2.ram, laws::table(m, root, n)->0, j)) == paging::entry(
        m,
        laws::table(m, root, n)->0,
        j,
    ) by {
        let t = laws::table(m, root, n)->0;
        reveal(laws::tree);
        laws::lemma_frames_disjoint(t, p);
        crate::memory::ram::lemma_word_zeroed(m, p as int, 4096, t + 8 * j);
        lemma_word_with_data(z, p + off, d, t + 8 * j);
    }
    laws::lemma_same_entries(m, k2.ram, root);
    assert forall|virt: u64| #[trigger]
        entries::walk(k2.ram, root, virt) == entries::walk(m, root, virt) by {
        entries::lemma_walk(m, root, virt);
        entries::lemma_walk(k2.ram, root, virt);
        assert(laws::table(m, root, Node::Pml4) == Some(root));
    }
    assert forall|f: u64| #[trigger] laws::in_free(k2.frames, f) implies laws::in_free(
        s.frames,
        f,
    ) by {
        let j = choose|j: int|
            0 <= j < k2.frames.free.len() && #[trigger] k2.frames.free[j] && k2.frames.addr(j) == f
                && f < k2.frames.end;
        assert(s.frames.free[j]);
    }
    assert forall|f: u64| #[trigger] laws::spare(k2, f) implies laws::spare(s, f) && laws::spare(
        k,
        f,
    ) && laws::fresh(k2.ram, root, f) by {
        assert(laws::spare(s, f));
        assert(laws::fresh(m, root, f));
    }
    assert(contents::frame_bytes(k2.ram, p) =~= page_with(off, d));
    assert forall|f: u64| #[trigger] contents::in_use(k, root, f) implies contents::in_use(
        k2,
        root,
        f,
    ) && contents::frame_bytes(k2.ram, f) == contents::frame_bytes(m, f) by {
        assert(f != p);
        contents::lemma_cleared_bytes(m, p, f);
        contents::lemma_data_bytes(z, p, off, d, f);
    }
}

/// The flags of a page table entry permit what a segment with the given flags
/// asks for.
spec fn permits(pte: u64, flags: u32) -> bool {
    &&& pte & PTE_PRESENT != 0
    &&& pte & PTE_ADDR_MASK == 0
    &&& pte & 0x2 != 0 <==> flags & 0x2 != 0
    &&& pte & 0x4 != 0
    &&& pte & 0x8000_0000_0000_0000 == 0 <==> flags & 0x1 != 0
}

/// A frame that was filled and mapped is in memory, and pages at other addresses
/// still are.
proof fn lemma_placed(
    k: KernelSpace,
    root: u64,
    filled: KernelSpace,
    off: int,
    d: Seq<u8>,
    at: u64,
    pte: u64,
    asked: u32,
    virt: u64,
    flags: u32,
    bytes: Seq<u8>,
)
    requires
        laws::kernel_ok(k, root),
        k.take_frame() is Some,
        0 <= off,
        off + d.len() <= 4096,
        ({
            let (p, s) = k.take_frame()->0;
            &&& filled.pool == s.pool
            &&& filled.frames.free == s.frames.free
            &&& filled.frames.base == s.frames.base
            &&& filled.frames.end == s.frames.end
            &&& filled.frames.tags.len() == s.frames.tags.len()
            &&& filled.ram == k.ram.zeroed(p as int, 4096).with_data(p + off, d)
            &&& filled.mapped(root, at, p, pte).1
        }),
        at % 4096 == 0,
        permits(pte, asked),
    ensures
        ({
            let p = (k.take_frame()->0).0;
            let after = filled.mapped(root, at, p, pte).0;
            &&& laws::kernel_ok(after, root)
            &&& page_in_memory(after, root, at, asked, page_with(off, d))
            &&& !laws::same_page(virt, at) && page_in_memory(k, root, virt, flags, bytes)
                ==> page_in_memory(after, root, virt, flags, bytes)
        }),
{
    let p = (k.take_frame()->0).0;
    let after = filled.mapped(root, at, p, pte).0;
    laws::lemma_take_frame(k);
    assert(laws::fresh(k.ram, root, p));
    lemma_filled(k, root, filled, off, d);
    laws::lemma_page_target(p, at);
    laws::law_map_page_global_translates(filled, root, at, p, pte, at);
    contents::law_mapping_keeps_contents(filled, root, at, p, pte, p);
    entries::law_mapped_page_has_its_flags(filled, root, at, p, pte, at);
    lemma_aligned_frame(p);
    assert(page_in_frame(after, root, at, p, asked, page_with(off, d)));
    if !laws::same_page(virt, at) && page_in_memory(k, root, virt, flags, bytes) {
        let f = choose|f: u64| #[trigger] page_in_frame(k, root, virt, f, flags, bytes);
        assert(contents::in_use(k, root, f));
        assert(entries::walk(filled.ram, root, virt) == entries::walk(k.ram, root, virt));
        laws::law_map_page_global_translates(filled, root, at, p, pte, virt);
        contents::law_mapping_keeps_contents(filled, root, at, p, pte, f);
        entries::law_mapped_page_has_its_flags(filled, root, at, p, pte, virt);
        assert(page_in_frame(after, root, virt, f, flags, bytes));
    }
}

/// A loaded page is in memory, and pages at other addresses still are.
proof fn lemma_page_loaded(
    l: Loading,
    root: u64,
    data: Seq<u8>,
    seg: Segment,
    idx: int,
    virt: u64,
    flags: u32,
    bytes: Seq<u8>,
)
    requires
        laws::kernel_ok(l.space, root),
        seg.fits(data),
        seg.memsz > 0,
        0 <= idx < seg.pages(),
        elf::page_loaded(l, root, data, seg, idx).1,
    ensures
        ({
            let after = elf::page_loaded(l, root, data, seg, idx).0.space;
            let at = page_address(seg, idx);
            &&& laws::kernel_ok(after, root)
            &&& page_in_memory(after, root, at, seg.flags, page_image(seg, data, idx))
            &&& !laws::same_page(virt, at) && page_in_memory(l.space, root, virt, flags, bytes)
                ==> page_in_memory(after, root, virt, flags, bytes)
        }),
{
    let (p, t) = elf::frame_taken(l)->0;
    let off = seg.page_offset(idx);
    let d = seg.page_data(data, idx);
    let at = page_address(seg, idx);
    let pte = elf::segment_flags(seg.flags);
    let filled = KernelSpace { ram: t.space.ram.with_data(p + off, d), ..t.space };
    lemma_page_data(seg, data, idx);
    let taken = (l.space.take_frame()->0).1;
    assert(taken.frames.tagged(p, FrameKind::UserOwned).tags.len() == taken.frames.tags.len()) by {
        laws::lemma_take_frame(l.space);
    }
    lemma_segment_flags(seg.flags);
    lemma_placed(l.space, root, filled, off, d, at, pte, seg.flags, virt, flags, bytes);
}

/// The address bits of a frame are all of its address.
pub proof fn lemma_aligned_frame(p: u64)
    requires
        p % 4096 == 0,
        p <= PTE_ADDR_MASK,
    ensures
        p & 0x000F_FFFF_FFFF_F000 == p,
{
    assert(p & 0x000F_FFFF_FFFF_F000 == p) by (bit_vector)
        requires
            p % 4096 == 0,
            p <= 0x000F_FFFF_FFFF_F000,
    ;
}

/// File contents of a page fit on it, and its address is aligned.
proof fn lemma_page_data(seg: Segment, data: Seq<u8>, idx: int)
    requires
        seg.fits(data),
        seg.memsz > 0,
        0 <= idx < seg.pages(),
    ensures
        0 <= seg.page_offset(idx),
        seg.page_offset(idx) + seg.page_data(data, idx).len() <= 4096,
        page_address(seg, idx) % 4096 == 0,
        page_address(seg, idx) == seg.page_base() + idx * 4096,
{
}

/// Pages of a segment that is not larger than the address space are distinct.
proof fn lemma_distinct_pages(seg: Segment, data: Seq<u8>, i: int, j: int)
    requires
        seg.fits(data),
        seg.memsz > 0,
        0 <= i < j < seg.pages(),
        seg.pages() <= 0x10_0000_0000,
    ensures
        !laws::same_page(page_address(seg, i), page_address(seg, j)),
{
    lemma_page_data(seg, data, i);
    lemma_page_data(seg, data, j);
    lemma_pages_apart(page_address(seg, i), page_address(seg, j), j - i);
}

/// Addresses that lie a number of pages apart are on different pages.
proof fn lemma_pages_apart(a: u64, b: u64, n: int)
    requires
        b == a + n * 4096,
        0 < n < 0x10_0000_0000,
    ensures
        !laws::same_page(a, b),
{
    assert(b / 4096 == a / 4096 + n);
    if laws::same_page(a, b) {
        lemma_page_number(a);
        lemma_page_number(b);
    }
}

/// The indices of an address tell its page among 2^36.
pub proof fn lemma_page_number(v: u64)
    ensures
        v / 4096 % 0x10_0000_0000 == paging::pt_index(v) + 512 * (paging::pd_index(v) + 512 * (
        paging::pdpt_index(v) + 512 * paging::pml4_index(v))),
{
    let n = (v / 4096) as int;
    assert(v / 0x20_0000 == n / 512);
    assert(v / 0x4000_0000 == n / 0x4_0000);
    assert(v / 0x80_0000_0000 == n / 0x800_0000);
    assert(n / 0x4_0000 == n / 512 / 512);
    assert(n / 0x800_0000 == n / 0x4_0000 / 512);
    assert(n / 0x10_0000_0000 == n / 0x800_0000 / 512);
}

/// The first `n` pages of a segment are in memory once they are loaded, and
/// pages at other addresses still are.
proof fn lemma_pages_loaded(
    l: Loading,
    root: u64,
    data: Seq<u8>,
    seg: Segment,
    n: nat,
    idx: int,
    virt: u64,
    flags: u32,
    bytes: Seq<u8>,
)
    requires
        laws::kernel_ok(l.space, root),
        seg.fits(data),
        seg.memsz > 0,
        n <= seg.pages(),
        elf::pages_loaded(l, root, data, seg, n).1,
    ensures
        ({
            let after = elf::pages_loaded(l, root, data, seg, n).0.space;
            &&& laws::kernel_ok(after, root)
            &&& 0 <= idx < n && seg.pages() <= 0x10_0000_0000 ==> page_in_memory(
                after,
                root,
                page_address(seg, idx),
                seg.flags,
                page_image(seg, data, idx),
            )
            &&& page_in_memory(l.space, root, virt, flags, bytes) && (forall|x: int|
                0 <= x < n ==> !laws::same_page(virt, #[trigger] page_address(seg, x)))
                ==> page_in_memory(after, root, virt, flags, bytes)
        }),
    decreases n,
{
    if n > 0 {
        let (before, ok) = elf::pages_loaded(l, root, data, seg, (n - 1) as nat);
        assert(ok);
        lemma_pages_loaded(l, root, data, seg, (n - 1) as nat, idx, virt, flags, bytes);
        lemma_page_loaded(before, root, data, seg, n - 1, virt, flags, bytes);
        if 0 <= idx < n - 1 && seg.pages() <= 0x10_0000_0000 {
            lemma_distinct_pages(seg, data, idx, n - 1);
            lemma_page_loaded(
                before,
                root,
                data,
                seg,
                n - 1,
                page_address(seg, idx),
                seg.flags,
                page_image(seg, data, idx),
            );
        }
        assert(!laws::same_page(virt, page_address(seg, n - 1)) || laws::same_page(
            virt,
            page_address(seg, n - 1),
        ));
    }
}

/// The segment loads nothing onto the page of `virt`.
pub open spec fn spares_page(seg: Segment, virt: u64) -> bool {
    seg.kind == PT_LOAD && seg.memsz > 0 ==> forall|x: int|
        0 <= x < seg.pages() ==> !laws::same_page(virt, #[trigger] page_address(seg, x))
}

/// After a segment is loaded, each of its pages is in memory with the file
/// contents meant for it and zeros elsewhere, and users may write to it and
/// execute it if and only if the segment says so. Pages that it loads nothing onto
/// hold what they held and permit what they permitted.
pub proof fn law_loaded_segment_is_in_memory(
    l: Loading,
    root: u64,
    data: Seq<u8>,
    seg: Segment,
    idx: int,
    virt: u64,
    flags: u32,
    bytes: Seq<u8>,
)
    requires
        laws::kernel_ok(l.space, root),
        elf::segment_loaded(l, root, data, seg).1,
    ensures
        ({
            let after = elf::segment_loaded(l, root, data, seg).0.space;
            &&& laws::kernel_ok(after, root)
            &&& seg.kind == PT_LOAD && seg.memsz > 0 && 0 <= idx < seg.pages() <= 0x10_0000_0000
                ==> page_in_memory(
                after,
                root,
                page_address(seg, idx),
                seg.flags,
                page_image(seg, data, idx),
            )
            &&& page_in_memory(l.space, root, virt, flags, bytes) && spares_page(seg, virt)
                ==> page_in_memory(after, root, virt, flags, bytes)
        }),
{
    if seg.kind == PT_LOAD && seg.memsz > 0 {
        lemma_pages_loaded(l, root, data, seg, seg.pages() as nat, idx, virt, flags, bytes);
    }
}

/// A new top-level table that is empty is a sound address space.
pub proof fn lemma_new_space(s: KernelSpace)
    requires
        laws::spares_distinct(s),
        forall|f: u64| #[trigger] laws::spare(s, f) ==> laws::sound_frame(s.ram, f),
        s.take_frame() is Some,
    ensures
        laws::kernel_ok(
            (s.take_frame()->0).1.cleared((s.take_frame()->0).0),
            (s.take_frame()->0).0,
        ),
{
    let (p, t) = s.take_frame()->0;
    let k = t.cleared(p);
    laws::lemma_take_frame(s);
    assert(laws::sound_frame(s.ram, p));
    assert forall|i: int| 0 <= i < 512 implies #[trigger] paging::entry(k.ram, p, i) == 0 by {
        crate::memory::ram::lemma_word_zeroed(s.ram, p as int, 4096, p + 8 * i);
    }
    laws::lemma_empty_tree(k.ram, p);
    assert forall|f: u64| #[trigger] laws::spare(k, f) implies laws::fresh(k.ram, p, f) by {
        assert(laws::spare(t, f));
        assert(laws::spare(s, f));
    }
}

/// Pages of segment `i` while the first `n` program headers are processed.
pub proof fn lemma_segments_loaded(
    l: Loading,
    root: u64,
    data: Seq<u8>,
    h: Header,
    n: nat,
    i: int,
    idx: int,
)
    requires
        laws::kernel_ok(l.space, root),
        elf::segments_loaded(l, root, data, h, n).1,
    ensures
        ({
            let after = elf::segments_loaded(l, root, data, h, n).0.space;
            &&& laws::kernel_ok(after, root)
            &&& 0 <= i < n && page_is_loaded(data, h, n as int, i, idx) ==> page_in_memory(
                after,
                root,
                page_address(elf::segment(data, h, i)->0, idx),
                elf::segment(data, h, i)->0.flags,
                page_image(elf::segment(data, h, i)->0, data, idx),
            )
        }),
    decreases n,
{
    if n > 0 {
        let (before, ok) = elf::segments_loaded(l, root, data, h, (n - 1) as nat);
        assert(ok);
        let seg = elf::segment(data, h, n - 1)->0;
        let g = elf::segment(data, h, i)->0;
        lemma_segments_loaded(l, root, data, h, (n - 1) as nat, i, idx);
        law_loaded_segment_is_in_memory(
            before,
            root,
            data,
            seg,
            idx,
            page_address(g, idx),
            g.flags,
            page_image(g, data, idx),
        );
        if 0 <= i < n - 1 && page_is_loaded(data, h, n as int, i, idx) {
            assert(page_is_loaded(data, h, n - 1, i, idx));
            assert(header_spares_page(data, h, n - 1, page_address(g, idx)));
        }
    }
}

/// Program header `j`, if it is one, loads nothing onto the page of `virt`.
pub open spec fn header_spares_page(data: Seq<u8>, h: Header, j: int, virt: u64) -> bool {
    elf::segment(data, h, j) matches Some(seg) ==> spares_page(seg, virt)
}

/// Program header `i` loads page `idx`, and no later one among the first `n`
/// loads anything onto it.
pub open spec fn page_is_loaded(data: Seq<u8>, h: Header, n: int, i: int, idx: int) -> bool {
    &&& elf::segment(data, h, i) is Some
    &&& ({
        let seg = elf::segment(data, h, i)->0;
        &&& seg.kind == PT_LOAD
        &&& seg.memsz > 0
        &&& 0 <= idx < seg.pages() <= 0x10_0000_0000
        &&& forall|j: int|
            i < j < n ==> #[trigger] header_spares_page(data, h, j, page_address(seg, idx))
    })
}

/// A program that was loaded into a new address space finds its segments in
/// memory: every page that some program header loads holds what the last such
/// header means it to hold, and permits what that header says.
pub proof fn law_loaded_program_is_in_memory(s: KernelSpace, data: Seq<u8>, i: int, idx: int)
    requires
        laws::spares_distinct(s),
        forall|f: u64| #[trigger] laws::spare(s, f) ==> laws::sound_frame(s.ram, f),
        elf::program_loaded(s, data, None).1 is Some,
        elf::header(data) is Some,
        0 <= i < elf::header(data)->0.phnum,
        page_is_loaded(
            data,
            elf::header(data)->0,
            elf::header(data)->0.phnum as int,
            i,
            idx,
        ),
    ensures
        ({
            let h = elf::header(data)->0;
            let (after, program) = elf::program_loaded(s, data, None);
            let (entry, root, frames) = program->0;
            let seg = elf::segment(data, h, i)->0;
            page_in_memory(
                after,
                root,
                page_address(seg, idx),
                seg.flags,
                page_image(seg, data, idx),
            )
        }),
{
    let h = elf::header(data)->0;
    let (root, start) = elf::address_space(s, None)->0;
    lemma_new_space(s);
    lemma_segments_loaded(start, root, data, h, h.phnum as nat, i, idx);
}

// ── The stack ────────────────────────────────────────────────────────────────
/// Address of page `idx` of the user stack.
pub open spec fn stack_address(idx: int) -> u64 {
    (0x0000_7FFF_FFFD_F000 + idx * 4096) as u64
}

/// A page of zeros.
pub open spec fn blank_page() -> Seq<u8> {
    Seq::new(4096, |i: int| 0u8)
}

/// The flags of the stack say present and hold no address bits; its pages are for
/// users, may be written to and not be executed.
proof fn lemma_stack_flags()
    ensures
        elf::stack_flags() & PTE_PRESENT != 0,
        elf::stack_flags() & PTE_ADDR_MASK == 0,
        elf::stack_flags() & 0x2 != 0,
        elf::stack_flags() & 0x4 != 0,
        elf::stack_flags() & 0x8000_0000_0000_0000 != 0,
{
    lemma_flag_bits(0x8000_0000_0000_0007);
    assert(0x1u64 | 0x2 | 0x4 | 0x8000_0000_0000_0000 == 0x8000_0000_0000_0007) by (bit_vector);
}

/// A page of the stack is in memory once it is mapped, and pages at other
/// addresses still are.
proof fn lemma_stack_page(
    l: Loading,
    root: u64,
    idx: int,
    virt: u64,
    flags: u32,
    bytes: Seq<u8>,
)
    requires
        laws::kernel_ok(l.space, root),
        0 <= idx < 32,
        elf::stack_page_loaded(l, root, idx).1,
    ensures
        ({
            let after = elf::stack_page_loaded(l, root, idx).0.space;
            let at = stack_address(idx);
            &&& laws::kernel_ok(after, root)
            &&& page_in_memory(after, root, at, 0x2, blank_page())
            &&& !laws::same_page(virt, at) && page_in_memory(l.space, root, virt, flags, bytes)
                ==> page_in_memory(after, root, virt, flags, bytes)
        }),
{
    let (p, s) = l.space.take_frame()->0;
    let at = stack_address(idx);
    let pte = elf::stack_flags();
    let filled = s.cleared(p);
    let none = Seq::<u8>::empty();
    assert(filled.ram.with_data(p + 0, none).bytes =~= filled.ram.bytes);
    assert(page_with(0, none) =~= blank_page());
    lemma_stack_flags();
    assert(0x2u32 & 0x2 != 0 && 0x2u32 & 0x1 == 0) by (bit_vector);
    lemma_placed(l.space, root, filled, 0, none, at, pte, 0x2, virt, flags, bytes);
}

/// Pages of the stack are distinct.
proof fn lemma_distinct_stack_pages(i: int, j: int)
    requires
        0 <= i < j < 32,
    ensures
        !laws::same_page(stack_address(i), stack_address(j)),
{
    lemma_pages_apart(stack_address(i), stack_address(j), j - i);
}

/// The first `n` pages of the stack are in memory once they are mapped, and pages
/// at other addresses still are.
pub proof fn lemma_stack_loaded(
    l: Loading,
    root: u64,
    n: nat,
    idx: int,
    virt: u64,
    flags: u32,
    bytes: Seq<u8>,
)
    requires
        laws::kernel_ok(l.space, root),
        n <= 32,
        elf::stack_loaded(l, root, n).1,
    ensures
        ({
            let after = elf::stack_loaded(l, root, n).0.space;
            &&& laws::kernel_ok(after, root)
            &&& 0 <= idx < n ==> page_in_memory(
                after,
                root,
                stack_address(idx),
                0x2,
                blank_page(),
            )
            &&& page_in_memory(l.space, root, virt, flags, bytes) && (forall|x: int|
                0 <= x < n ==> !laws::same_page(virt, #[trigger] stack_address(x)))
                ==> page_in_memory(after, root, virt, flags, bytes)
        }),
    decreases n,
{
    if n > 0 {
        let (before, ok) = elf::stack_loaded(l, root, (n - 1) as nat);
        assert(ok);
        lemma_stack_loaded(l, root, (n - 1) as nat, idx, virt, flags, bytes);
        lemma_stack_page(before, root, n - 1, virt, flags, bytes);
        if 0 <= idx < n - 1 {
            lemma_distinct_stack_pages(idx, n - 1);
            lemma_stack_page(before, root, n - 1, stack_address(idx), 0x2, blank_page());
        }
        assert(!laws::same_page(virt, stack_address(n - 1)) || laws::same_page(
            virt,
            stack_address(n - 1),
        ));
    }
}

/// A program that was started owns the frames that were noted while it was
/// loaded.
pub proof fn law_started_program_owns_its_frames(
    before: Kernel,
    after: Kernel,
    data: Seq<u8>,
    priority: u8,
    trampoline: u64,
    pid: ProcessId,
)
    requires
        after.wf(),
        elf::elf_spawned(before, after, data, priority, trampoline, Some(pid)),
    ensures
        after.sched().has(pid),
        ({
            let program = elf::program_prepared(
                before.mem@,
                before.global.kernel_pml4,
                data,
                before.scheduling(),
            ).1;
            &&& program is Some
            &&& round_robin::frames_of(after.sched(), pid) == (program->0).2
        }),
{
    let (entry, root, frames) = elf::program_prepared(
        before.mem@,
        before.global.kernel_pml4,
        data,
        before.scheduling(),
    ).1->0;
    let middle = choose|middle: Scheduler|
        {
            &&& #[trigger] round_robin::ring3_added(
                before.sched(),
                middle,
                entry,
                elf::USER_STACK_TOP,
                root,
                trampoline,
                Some(pid),
            )
            &&& after.sched().replaces(&middle, pid, after.sched().pcb(pid))
            &&& after.sched().pcb(pid).user_frames@ == frames
            &&& after.sched().pcb(pid).pid == middle.pcb(pid).pid
        };
    let t = table::slot_of(middle.slots(), pid);
    assert(table::holds(middle.slots(), t, pid));
    assert(table::holds(after.sched().slots(), t, pid));
}

// ── The file ─────────────────────────────────────────────────────────────────
/// An image is accepted only if it starts with 0x7F and `ELF`, is 64-bit and
/// little-endian, and is made for x86-64. The entry point is the word at offset 24,
/// and the program headers, 56 bytes each, start where the word at offset 32 says.
pub proof fn law_accepted_image_is_for_this_machine(data: Seq<u8>, i: int)
    requires
        elf::header(data) is Some,
        0 <= i < elf::header(data)->0.phnum,
    ensures
        data.len() >= 64,
        data[0] == 127 && data[1] == 69 && data[2] == 76 && data[3] == 70,
        data[4] == 2 && data[5] == 1,
        crate::bytes::le16(data, 18) == 62,
        crate::bytes::le16(data, 54) == 56,
        elf::header(data)->0.phnum == crate::bytes::le16(data, 56),
        elf::header(data)->0.entry == crate::bytes::le64(data, 24),
        ({
            let at = crate::bytes::le64(data, 32) + 56 * i;
            elf::segment(data, elf::header(data)->0, i) matches Some(seg) ==> {
                &&& at + 56 <= data.len()
                &&& seg.kind == crate::bytes::le32(data, at)
                &&& seg.flags == crate::bytes::le32(data, at + 4)
                &&& seg.offset == crate::bytes::le64(data, at + 8)
                &&& seg.vaddr == crate::bytes::le64(data, at + 16)
                &&& seg.filesz == crate::bytes::le64(data, at + 32)
                &&& seg.memsz == crate::bytes::le64(data, at + 40)
            }
        }),
        crate::bytes::le64(data, 32) + 56 * (i + 1) <= data.len() ==> elf::segment(
            data,
            elf::header(data)->0,
            i,
        ) is Some,
{
}

/// A frame that is taken for a program belongs to the user, is no longer free and is
/// all zero. The first 64 frames of a program are noted, in the order in which they
/// were taken.
pub proof fn law_program_frames_are_the_users(l: Loading, k: int)
    requires
        laws::spares_distinct(l.space),
        elf::frame_taken(l) is Some,
    ensures
        ({
            let (p, t) = elf::frame_taken(l)->0;
            let at = (p - l.space.frames.base) / 4096;
            &&& t.space.frames.tags[at] == FrameKind::UserOwned
            &&& !t.space.frames.free[at]
            &&& laws::spare(l.space, p)
            &&& p <= k < p + 4096 ==> t.space.ram.byte(k) == 0
            &&& l.frames.len() < 64 ==> t.frames == l.frames.push(p)
            &&& l.frames.len() >= 64 ==> t.frames == l.frames
        }),
{
    laws::lemma_take_frame(l.space);
    let f = l.space.frames;
    crate::memory::physical::lemma_lowest_free(f.free, 0);
    let at = crate::memory::physical::lowest_free(f.free, 0);
    assert((f.addr(at) - f.base) / 4096 == at);
}

/// A segment can be loaded exactly if its contents lie in the image, up to its very
/// end, and its pages in the address space.
pub proof fn law_segment_fits_up_to_the_end(seg: Segment, data: Seq<u8>)
    ensures
        seg.memsz == 0 ==> (seg.fits(data) <==> seg.offset + seg.filesz <= data.len()),
        seg.fits(data) ==> seg.offset + seg.filesz <= data.len() && seg.vaddr + seg.memsz
            <= 0x1_0000_0000_0000_0000,
        seg.offset + seg.filesz <= data.len() && seg.vaddr + seg.memsz <= 0xFFFF_FFFF_FFFF_F000
            ==> seg.fits(data),
        seg.memsz > 0 ==> seg.page_base() <= seg.vaddr < seg.page_base() + 4096,
        seg.memsz > 0 ==> seg.vaddr + seg.memsz <= seg.page_base() + seg.pages() * 4096 < seg.vaddr
            + seg.memsz + 4096,
        seg.page_base() % 4096 == 0,
{
}

/// A program that is given no address space gets a new and empty one, whose table is
/// the first frame that is noted for it, so that it is given back with the others. A
/// program that is given one is loaded there, and nothing is noted for it yet.
pub proof fn law_new_space_is_noted(s: KernelSpace, given: u64, k: int)
    ensures
        elf::address_space(s, None) matches Some((root, l)) ==> {
            &&& l.frames == seq![root]
            &&& root <= k < root + 4096 ==> l.space.ram.byte(k) == 0
            &&& s.take_frame() is Some && root == (s.take_frame()->0).0
        },
        elf::address_space(s, None) is None ==> s.take_frame() is None,
        elf::address_space(s, Some(given)) matches Some((root, l)) && root == given && l.space == s
            && l.frames.len() == 0,
{
}

} // verus!
