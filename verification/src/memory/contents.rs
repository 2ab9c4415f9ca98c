//! What memory holds while pages are mapped.
//!
//! A frame is in use if it is neither a page table nor set aside for one.
//! Mapping pages never changes what such a frame holds.

use vstd::prelude::*;

use crate::memory::laws::{self, Node};
use crate::memory::paging::{self, KernelSpace, PTE_ADDR_MASK, PTE_PRESENT, PTE_USER};
use crate::memory::ram::Ram;

verus! {

/// The bytes of the frame at `f`.
pub open spec fn frame_bytes(m: Ram, f: u64) -> Seq<u8> {
    Seq::new(4096, |i: int| m.byte(f + i))
}

/// The frame at `f` lies in memory, is no table of the address space and cannot
/// become one.
pub open spec fn in_use(k: KernelSpace, root: u64, f: u64) -> bool {
    &&& laws::fresh(k.ram, root, f)
    &&& !laws::spare(k, f)
}

/// Writing a word to another frame keeps the bytes of the frame.
pub proof fn lemma_entry_bytes(m: Ram, t: u64, i: int, v: u64, f: u64)
    requires
        t % 4096 == 0,
        f % 4096 == 0,
        t != f,
        0 <= i < 512,
    ensures
        frame_bytes(paging::set_entry(m, t, i, v), f) == frame_bytes(m, f),
        paging::set_entry(m, t, i, v).base == m.base,
        paging::set_entry(m, t, i, v).bytes.len() == m.bytes.len(),
{
    laws::lemma_frames_disjoint(t, f);
    assert(frame_bytes(paging::set_entry(m, t, i, v), f) =~= frame_bytes(m, f));
}

/// Clearing another frame keeps the bytes of the frame.
pub proof fn lemma_cleared_bytes(m: Ram, t: u64, f: u64)
    requires
        t % 4096 == 0,
        f % 4096 == 0,
        t != f,
    ensures
        frame_bytes(m.zeroed(t as int, 4096), f) == frame_bytes(m, f),
{
    laws::lemma_frames_disjoint(t, f);
    assert(frame_bytes(m.zeroed(t as int, 4096), f) =~= frame_bytes(m, f));
}

/// Storing data in another frame keeps the bytes of the frame.
pub proof fn lemma_data_bytes(m: Ram, t: u64, off: int, data: Seq<u8>, f: u64)
    requires
        t % 4096 == 0,
        f % 4096 == 0,
        t != f,
        0 <= off,
        off + data.len() <= 4096,
    ensures
        frame_bytes(m.with_data(t + off, data), f) == frame_bytes(m, f),
{
    laws::lemma_frames_disjoint(t, f);
    assert(frame_bytes(m.with_data(t + off, data), f) =~= frame_bytes(m, f));
}

/// Filling another frame with entries keeps the bytes of the frame.
pub proof fn lemma_entries_bytes(m: Ram, t: u64, g: spec_fn(int) -> u64, n: nat, f: u64)
    requires
        t % 4096 == 0,
        f % 4096 == 0,
        t != f,
        n <= 512,
    ensures
        frame_bytes(paging::set_entries(m, t, g, n), f) == frame_bytes(m, f),
    decreases n,
{
    if n > 0 {
        lemma_entries_bytes(m, t, g, (n - 1) as nat, f);
        lemma_entry_bytes(paging::set_entries(m, t, g, (n - 1) as nat), t, n - 1, g(n - 1), f);
    }
}

/// The frame at `f` is a table on the way to `virt`.
pub open spec fn on_path(m: Ram, root: u64, virt: u64, f: u64) -> bool {
    let a = paging::pml4_index(virt);
    let b = paging::pdpt_index(virt);
    ||| root == f
    ||| laws::table(m, root, Node::Pdpt(a)) == Some(f)
    ||| laws::table(m, root, Node::Pd(a, b)) == Some(f)
    ||| laws::table(m, root, laws::path(virt)) == Some(f)
}

/// Going from `k` to `k2`, the frame at `f` holds what it held and is not set
/// aside for a table, and nothing that was not a table before has become one.
#[verifier::opaque]
spec fn untouched(k: KernelSpace, k2: KernelSpace, root: u64, f: u64) -> bool {
    &&& frame_bytes(k2.ram, f) == frame_bytes(k.ram, f)
    &&& !laws::spare(k2, f)
    &&& k2.ram.base == k.ram.base
    &&& k2.ram.bytes.len() == k.ram.bytes.len()
    &&& forall|g: u64| #[trigger] laws::spare(k2, g) ==> laws::spare(k, g)
    &&& forall|n: Node|
        n.valid() && #[trigger] laws::table(k2.ram, root, n) == Some(f) ==> laws::table(
            k.ram,
            root,
            n,
        ) == Some(f)
}

/// Making a table usable changes no frame but that table and a spare one.
proof fn lemma_ensure_bytes(k: KernelSpace, root: u64, n: Node, i: int, user: u64, f: u64)
    requires
        laws::kernel_ok(k, root),
        n.valid(),
        !(n is Pt),
        laws::table(k.ram, root, n) is Some,
        0 <= i < 512,
        user == 0 || user == PTE_USER,
        f % 4096 == 0,
        laws::table(k.ram, root, n) != Some(f),
        !laws::spare(k, f),
    ensures
        untouched(k, k.ensure(laws::table(k.ram, root, n)->0, i, user).0, root, f),
{
    let t = laws::table(k.ram, root, n)->0;
    let e = paging::entry(k.ram, t, i);
    let (k2, r) = k.ensure(t, i, user);
    assert(t % 4096 == 0) by {
        reveal(laws::tree);
    }
    laws::lemma_ensured_tables(k, root, n, i, user);
    if (!paging::present(e) || paging::huge(e)) && k.take_pt() is Some {
        let (p, s) = k.take_pt()->0;
        laws::lemma_take_pt(k);
        assert(laws::fresh(k.ram, root, p));
        lemma_cleared_bytes(k.ram, p, f);
        let z = k.ram.zeroed(p as int, 4096);
        let v = paging::table_entry(p, user);
        if paging::present(e) {
            let g = |j: int| paging::split_entry(e, j);
            lemma_entries_bytes(z, p, g, 512, f);
            lemma_entry_bytes(paging::set_entries(z, p, g, 512), t, i, v, f);
        } else {
            lemma_entry_bytes(z, t, i, v, f);
        }
    } else if user != 0 && e & PTE_USER == 0 {
        lemma_entry_bytes(k.ram, t, i, e | PTE_USER, f);
    }
    reveal(untouched);
}

/// A frame that is left alone twice is left alone.
proof fn lemma_untouched_twice(
    k: KernelSpace,
    k2: KernelSpace,
    k3: KernelSpace,
    root: u64,
    f: u64,
    n: Node,
)
    requires
        untouched(k, k2, root, f),
        untouched(k2, k3, root, f),
        n.valid(),
    ensures
        untouched(k, k3, root, f),
        !laws::spare(k3, f),
        laws::table(k3.ram, root, n) == Some(f) ==> laws::table(k.ram, root, n) == Some(f),
{
    reveal(untouched);
}

/// Mapping a page changes no frame but the tables on the way to it and spare
/// ones.
proof fn lemma_mapping_untouched(
    k: KernelSpace,
    root: u64,
    virt: u64,
    phys: u64,
    flags: u64,
    f: u64,
)
    requires
        laws::kernel_ok(k, root),
        flags & PTE_PRESENT != 0,
        flags & PTE_ADDR_MASK == 0,
        f % 4096 == 0,
        !on_path(k.ram, root, virt, f),
        !laws::spare(k, f),
    ensures
        untouched(k, k.mapped(root, virt, phys, flags).0, root, f),
{
    let a = paging::pml4_index(virt);
    let b = paging::pdpt_index(virt);
    let c = paging::pd_index(virt);
    let d = paging::pt_index(virt);
    let user = flags & PTE_USER;
    laws::lemma_user_access(flags);
    assert(laws::table(k.ram, root, Node::Pml4) == Some(root));
    assert(untouched(k, k, root, f)) by {
        reveal(untouched);
    }
    let (k3, t3) = k.ensure(root, a, user);
    laws::lemma_kernel_ensure(k, root, Node::Pml4, a, user);
    lemma_ensure_bytes(k, root, Node::Pml4, a, user, f);
    lemma_untouched_twice(k, k, k3, root, f, Node::Pdpt(a));
    if t3 is Some {
        let (k2, t2) = k3.ensure(t3->0, b, user);
        laws::lemma_kernel_ensure(k3, root, Node::Pdpt(a), b, user);
        lemma_ensure_bytes(k3, root, Node::Pdpt(a), b, user, f);
        lemma_untouched_twice(k, k3, k2, root, f, Node::Pd(a, b));
        if t2 is Some {
            let (k1, t1) = k2.ensure(t2->0, c, user);
            laws::lemma_kernel_ensure(k2, root, Node::Pd(a, b), c, user);
            lemma_ensure_bytes(k2, root, Node::Pd(a, b), c, user, f);
            lemma_untouched_twice(k, k2, k1, root, f, laws::path(virt));
            if t1 is Some {
                let v = paging::page_entry(phys, flags);
                let k0 = k.mapped(root, virt, phys, flags).0;
                let pt = t1->0;
                assert(laws::table(k1.ram, root, laws::path(virt)) == Some(pt));
                assert(pt % 4096 == 0 && pt != f) by {
                    reveal(laws::tree);
                }
                lemma_entry_bytes(k1.ram, pt, d, v, f);
                assert forall|n: Node| n.valid() implies #[trigger] laws::table(k0.ram, root, n)
                    == laws::table(k1.ram, root, n) by {
                    laws::lemma_leaf_write_tables(k1.ram, root, laws::path(virt), d, v, n);
                }
                assert(untouched(k1, k0, root, f)) by {
                    reveal(untouched);
                    assert forall|g: u64| #[trigger] laws::spare(k0, g) implies laws::spare(k1, g) by {
                        assert(k0.pool == k1.pool && k0.frames == k1.frames);
                    }
                    assert(!laws::spare(k0, f));
                }
                lemma_untouched_twice(k, k1, k0, root, f, Node::Pml4);
            }
        }
    }
}

/// Mapping a page keeps what every frame in use holds, and all of them stay in
/// use.
pub proof fn law_mapping_keeps_contents(
    k: KernelSpace,
    root: u64,
    virt: u64,
    phys: u64,
    flags: u64,
    f: u64,
)
    requires
        laws::kernel_ok(k, root),
        flags & PTE_PRESENT != 0,
        flags & PTE_ADDR_MASK == 0,
        in_use(k, root, f),
    ensures
        ({
            let k2 = k.mapped(root, virt, phys, flags).0;
            &&& frame_bytes(k2.ram, f) == frame_bytes(k.ram, f)
            &&& in_use(k2, root, f)
        }),
{
    let k2 = k.mapped(root, virt, phys, flags).0;
    assert(laws::table(k.ram, root, Node::Pml4) == Some(root));
    lemma_mapping_untouched(k, root, virt, phys, flags, f);
    reveal(untouched);
    assert forall|n: Node| n.valid() implies #[trigger] laws::table(k2.ram, root, n) != Some(f) by {
        assert(laws::table(k.ram, root, n) != Some(f));
    }
}

/// A frame with the same bytes has the same entries.
proof fn lemma_same_bytes(m: Ram, m2: Ram, f: u64, j: int)
    requires
        frame_bytes(m2, f) == frame_bytes(m, f),
        m2.base == m.base,
        m2.bytes.len() == m.bytes.len(),
        0 <= j < 512,
    ensures
        paging::entry(m2, f, j) == paging::entry(m, f, j),
{
    if m.covers(f + 8 * j, 8) {
        lemma_same_byte(m, m2, f, 8 * j);
        lemma_same_byte(m, m2, f, 8 * j + 1);
        lemma_same_byte(m, m2, f, 8 * j + 2);
        lemma_same_byte(m, m2, f, 8 * j + 3);
        lemma_same_byte(m, m2, f, 8 * j + 4);
        lemma_same_byte(m, m2, f, 8 * j + 5);
        lemma_same_byte(m, m2, f, 8 * j + 6);
        lemma_same_byte(m, m2, f, 8 * j + 7);
        reveal(crate::bytes::le64);
        let o = f + 8 * j - m.base;
        assert(o + 4 + 1 == f + (8 * j + 5) - m.base);
        assert(o + 4 + 2 == f + (8 * j + 6) - m.base);
        assert(o + 4 + 3 == f + (8 * j + 7) - m.base);
    }
}

/// Byte `x` of a frame in memory.
proof fn lemma_same_byte(m: Ram, m2: Ram, f: u64, x: int)
    requires
        frame_bytes(m2, f) == frame_bytes(m, f),
        m2.base == m.base,
        m2.bytes.len() == m.bytes.len(),
        0 <= x < 4096,
        m.covers(f + x, 1),
    ensures
        m2.bytes[f + x - m.base] == m.bytes[f + x - m.base],
{
    assert(frame_bytes(m2, f)[x] == m2.byte(f + x));
    assert(frame_bytes(m, f)[x] == m.byte(f + x));
}

/// Mapping a page in one address space changes no translation of another one
/// that does not share the tables on the way to the page.
pub proof fn law_other_spaces_are_unaffected(
    k: KernelSpace,
    root: u64,
    virt: u64,
    phys: u64,
    flags: u64,
    other: u64,
    at: u64,
)
    requires
        laws::kernel_ok(k, root),
        laws::kernel_ok(k, other),
        flags & PTE_PRESENT != 0,
        flags & PTE_ADDR_MASK == 0,
        forall|n: Node|
            n.valid() && #[trigger] laws::table(k.ram, other, n) is Some ==> !on_path(
                k.ram,
                root,
                virt,
                laws::table(k.ram, other, n)->0,
            ),
    ensures
        ({
            let k2 = k.mapped(root, virt, phys, flags).0;
            &&& laws::tree(k2.ram, other)
            &&& paging::translated(k2.ram, other, at) == paging::translated(k.ram, other, at)
        }),
{
    let k2 = k.mapped(root, virt, phys, flags).0;
    assert(laws::table(k.ram, other, Node::Pml4) == Some(other));
    assert forall|n: Node, j: int|
        n.valid() && 0 <= j < 512 && laws::table(k.ram, other, n) is Some implies (
    #[trigger] paging::entry(k2.ram, laws::table(k.ram, other, n)->0, j)) == paging::entry(
        k.ram,
        laws::table(k.ram, other, n)->0,
        j,
    ) by {
        let f = laws::table(k.ram, other, n)->0;
        lemma_table_in_use(k, other, n);
        lemma_mapping_untouched(k, root, virt, phys, flags, f);
        reveal(untouched);
        lemma_same_bytes(k.ram, k2.ram, f, j);
    }
    assert(k2.ram.base == k.ram.base && k2.ram.bytes.len() == k.ram.bytes.len()) by {
        lemma_table_in_use(k, other, Node::Pml4);
        lemma_mapping_untouched(k, root, virt, phys, flags, other);
        reveal(untouched);
    }
    laws::lemma_same_entries(k.ram, k2.ram, other);
}

/// A table is aligned and not spare.
proof fn lemma_table_in_use(k: KernelSpace, root: u64, n: Node)
    requires
        laws::kernel_ok(k, root),
        n.valid(),
        laws::table(k.ram, root, n) is Some,
    ensures
        laws::table(k.ram, root, n)->0 % 4096 == 0,
        !laws::spare(k, laws::table(k.ram, root, n)->0),
{
    reveal(laws::tree);
    let f = laws::table(k.ram, root, n)->0;
    if laws::spare(k, f) {
        assert(laws::fresh(k.ram, root, f));
    }
}

} // verus!
