//! What the last steps of preparing an address space leave alone.
//!
//! Once a program is loaded, the kernel's mappings are merged into its address
//! space and the crash log is mapped at its low address. Both work on the tables
//! that are reached over first entries, on empty entries of those, and on frames
//! set aside. An entry that is filled and a frame that is in use stay as they are.

use vstd::prelude::*;

use crate::memory::contents;
use crate::memory::laws;
use crate::memory::paging::{self, KernelSpace, PTE_PRESENT, PTE_USER, PTE_WRITABLE};
use crate::memory::ram::Ram;
use crate::memory::sharing;

verus! {

/// The table that the first entry of the table `t` leads to.
pub open spec fn first(m: Ram, t: Option<u64>) -> Option<u64> {
    match t {
        Some(t) => {
            let e = paging::entry(m, t, 0);
            if paging::present(e) && !paging::huge(e) {
                Some(paging::target(e))
            } else {
                None
            }
        },
        None => None,
    }
}

/// The table that is reached from the one at `root` over `n` first entries.
pub open spec fn low_table(m: Ram, root: u64, n: int) -> Option<u64> {
    if n == 0 {
        Some(root)
    } else if n == 1 {
        first(m, Some(root))
    } else if n == 2 {
        first(m, first(m, Some(root)))
    } else {
        first(m, first(m, first(m, Some(root))))
    }
}

/// The entry leads to a huge page.
spec fn leads_to_huge(m: Ram, t: Option<u64>) -> bool {
    t is Some && paging::present(paging::entry(m, t->0, 0)) && paging::huge(
        paging::entry(m, t->0, 0),
    )
}

/// The table lies in memory, is not set aside, and is not the frame at `f`.
spec fn usable(k: KernelSpace, t: Option<u64>, f: u64) -> bool {
    t matches Some(t) ==> laws::sound_frame(k.ram, t) && !laws::spare(k, t) && t != f
}

/// Entry `j` of the table at `u` is filled and is not that of the crash log, and
/// the frame at `f` is none of the low tables; none of them is set aside.
#[verifier::opaque]
pub closed spec fn apart(k: KernelSpace, root: u64, u: u64, j: int, f: u64) -> bool {
    &&& laws::spares_distinct(k)
    &&& forall|g: u64| #[trigger] laws::spare(k, g) ==> laws::sound_frame(k.ram, g)
    &&& 0 <= j < 512
    &&& u % 4096 == 0
    &&& f % 4096 == 0
    &&& !laws::spare(k, u)
    &&& !laws::spare(k, f)
    &&& paging::present(paging::entry(k.ram, u, j))
    &&& !paging::huge(paging::entry(k.ram, u, j))
    &&& usable(k, Some(root), f)
    &&& usable(k, low_table(k.ram, root, 1), f)
    &&& usable(k, low_table(k.ram, root, 2), f)
    &&& usable(k, low_table(k.ram, root, 3), f)
    &&& low_table(k.ram, root, 3) != Some(u) || j != 4
    &&& !leads_to_huge(k.ram, Some(root))
    &&& !leads_to_huge(k.ram, low_table(k.ram, root, 1))
}

/// Going from `k` to `k2`, entry `j` of the table at `u` and the bytes of the frame
/// at `f` are the same.
pub open spec fn kept(k: KernelSpace, k2: KernelSpace, u: u64, j: int, f: u64) -> bool {
    &&& paging::entry(k2.ram, u, j) == paging::entry(k.ram, u, j)
    &&& contents::frame_bytes(k2.ram, f) == contents::frame_bytes(k.ram, f)
}

/// When an entry and a frame are apart from the low tables of a sound address
/// space.
pub proof fn lemma_apart(k: KernelSpace, root: u64, u: u64, j: int, f: u64)
    requires
        laws::kernel_ok(k, root),
        contents::in_use(k, root, f),
        exists|n: laws::Node|
            n.valid() && #[trigger] laws::table(k.ram, root, n) == Some(u) && (n != laws::Node::Pt(
                0,
                0,
                0,
            ) || j != 4),
        0 <= j < 512,
        paging::present(paging::entry(k.ram, u, j)),
        !paging::huge(paging::entry(k.ram, u, j)),
    ensures
        apart(k, root, u, j, f),
{
    reveal(apart);
    reveal(laws::tree);
    let m = k.ram;
    let n = choose|n: laws::Node|
        n.valid() && #[trigger] laws::table(k.ram, root, n) == Some(u) && (n != laws::Node::Pt(
            0,
            0,
            0,
        ) || j != 4);
    assert(laws::table(m, root, laws::Node::Pml4) == Some(root));
    assert(low_table(m, root, 1) is Some ==> laws::table(m, root, laws::Node::Pdpt(0))
        == low_table(m, root, 1));
    assert(low_table(m, root, 2) is Some ==> laws::table(m, root, laws::Node::Pd(0, 0))
        == low_table(m, root, 2));
    assert(low_table(m, root, 3) is Some ==> laws::table(m, root, laws::Node::Pt(0, 0, 0))
        == low_table(m, root, 3));
    assert forall|x: laws::Node|
        x.valid() && #[trigger] laws::table(m, root, x) is Some implies !laws::spare(
        k,
        laws::table(m, root, x)->0,
    ) by {
        if laws::spare(k, laws::table(m, root, x)->0) {
            assert(laws::fresh(m, root, laws::table(m, root, x)->0));
        }
    }
    assert forall|g: u64| #[trigger] laws::spare(k, g) implies laws::sound_frame(m, g) by {
        assert(laws::fresh(m, root, g));
    }
    if low_table(m, root, 3) == Some(u) {
        assert(laws::table(m, root, laws::Node::Pt(0, 0, 0)) == laws::table(m, root, n));
    }
}

// ── Sharing entries ──────────────────────────────────────────────────────────
/// Sharing entries changes no first entry, no entry that is filled, and no frame
/// but that of the table.
proof fn lemma_shared_entry(
    m: Ram,
    kern: u64,
    t: u64,
    hidden: bool,
    n: nat,
    x: u64,
    i: int,
    f: u64,
)
    requires
        laws::sound_frame(m, t),
        n <= 511,
        x % 4096 == 0,
        0 <= i < 512,
        f % 4096 == 0,
    ensures
        ({
            let m2 = sharing::entries_shared(m, kern, t, hidden, n);
            &&& m2.base == m.base
            &&& m2.bytes.len() == m.bytes.len()
            &&& i == 0 || x != t || paging::entry(m, x, i) != 0 ==> paging::entry(m2, x, i)
                == paging::entry(m, x, i)
            &&& f != t ==> contents::frame_bytes(m2, f) == contents::frame_bytes(m, f)
        }),
    decreases n,
{
    if n > 0 {
        let before = sharing::entries_shared(m, kern, t, hidden, (n - 1) as nat);
        lemma_shared_entry(m, kern, t, hidden, (n - 1) as nat, x, i, f);
        let v = sharing::copied(paging::entry(before, kern, n as int), hidden);
        if x != t || i != n {
            laws::lemma_entry_frame(before, t, n as int, v, x, i);
        }
        if f != t {
            contents::lemma_entry_bytes(before, t, n as int, v, f);
        }
        let z: u64 = if t == 0 {
            4096
        } else {
            0
        };
        contents::lemma_entry_bytes(before, t, n as int, v, z);
    }
}

/// Sharing entries with a low table.
proof fn lemma_shared(
    k: KernelSpace,
    root: u64,
    kern: u64,
    n: int,
    hidden: bool,
    u: u64,
    j: int,
    f: u64,
)
    requires
        apart(k, root, u, j, f),
        0 <= n <= 2,
        low_table(k.ram, root, n) is Some,
    ensures
        ({
            let k2 = k.shared(kern, low_table(k.ram, root, n)->0, hidden);
            &&& apart(k2, root, u, j, f)
            &&& kept(k, k2, u, j, f)
            &&& forall|i: int| #[trigger] low_table(k2.ram, root, i) == low_table(k.ram, root, i)
        }),
{
    reveal(apart);
    let m = k.ram;
    let t = low_table(m, root, n)->0;
    let k2 = k.shared(kern, t, hidden);
    laws::lemma_zero_entry();
    lemma_shared_entry(m, kern, t, hidden, 511, u, j, f);
    lemma_shared_entry(m, kern, t, hidden, 511, root, 0, f);
    if low_table(m, root, 1) is Some {
        lemma_shared_entry(m, kern, t, hidden, 511, low_table(m, root, 1)->0, 0, f);
    }
    if low_table(m, root, 2) is Some {
        lemma_shared_entry(m, kern, t, hidden, 511, low_table(m, root, 2)->0, 0, f);
    }
    assert forall|g: u64| #[trigger] laws::spare(k2, g) implies laws::spare(k, g) by {}
    assert forall|g: u64| laws::spare(k2, g) == #[trigger] laws::spare(k, g) by {
        assert(k2.pool == k.pool && k2.frames == k.frames);
    }
}

// ── Adding tables ────────────────────────────────────────────────────────────
/// A frame that was set aside becomes the table below the last low table.
proof fn lemma_added(
    k: KernelSpace,
    s: KernelSpace,
    k2: KernelSpace,
    root: u64,
    n: int,
    p: u64,
    v: u64,
    u: u64,
    j: int,
    f: u64,
)
    requires
        apart(k, root, u, j, f),
        0 <= n <= 2,
        low_table(k.ram, root, n) is Some,
        low_table(k.ram, root, n + 1) is None,
        laws::spare(k, p),
        !laws::spare(s, p),
        laws::spares_distinct(s),
        forall|g: u64| #[trigger] laws::spare(s, g) ==> laws::spare(k, g),
        k2.frames == s.frames,
        k2.pool == s.pool,
        k2.ram.base == k.ram.base,
        k2.ram.bytes.len() == k.ram.bytes.len(),
        laws::points_to(v, p),
        ({
            let t = low_table(k.ram, root, n)->0;
            &&& paging::entry(k2.ram, t, 0) == v
            &&& forall|x: u64, i: int|
                #![trigger paging::entry(k2.ram, x, i)]
                x % 4096 == 0 && 0 <= i < 512 && x != p && (x != t || i != 0) ==> paging::entry(
                    k2.ram,
                    x,
                    i,
                ) == paging::entry(k.ram, x, i)
            &&& n < 2 ==> paging::entry(k2.ram, p, 0) == 0
        }),
        contents::frame_bytes(k2.ram, f) == contents::frame_bytes(k.ram, f),
    ensures
        apart(k2, root, u, j, f),
        kept(k, k2, u, j, f),
        low_table(k2.ram, root, n + 1) == Some(p),
        n >= 1 ==> low_table(k2.ram, root, 1) == low_table(k.ram, root, 1),
        n >= 2 ==> low_table(k2.ram, root, 2) == low_table(k.ram, root, 2),
{
    reveal(apart);
    laws::lemma_zero_entry();
    let m = k.ram;
    let t = low_table(m, root, n)->0;
    assert forall|g: u64| #[trigger] laws::spare(k2, g) implies laws::spare(s, g) by {
        assert(k2.pool == s.pool && k2.frames == s.frames);
    }
    assert forall|g: u64| #[trigger] laws::spare(k2, g) implies laws::spare(k, g) by {
        assert(laws::spare(s, g));
    }
    assert(!laws::spare(k2, p));
    assert(paging::entry(k2.ram, root, 0) == if n == 0 {
        v
    } else {
        paging::entry(m, root, 0)
    });
    if n >= 1 {
        let t1 = low_table(m, root, 1)->0;
        assert(t1 != p);
        assert(paging::entry(k2.ram, t1, 0) == if n == 1 {
            v
        } else {
            paging::entry(m, t1, 0)
        });
    }
    assert(paging::entry(k2.ram, u, j) == paging::entry(m, u, j));
}

/// Giving the first entry of a low table a table, as the merge does.
proof fn lemma_first_ensured(k: KernelSpace, root: u64, n: int, u: u64, j: int, f: u64)
    requires
        apart(k, root, u, j, f),
        0 <= n <= 1,
        low_table(k.ram, root, n) is Some,
    ensures
        ({
            let t = low_table(k.ram, root, n)->0;
            let (k2, ok) = k.first_ensured(t);
            &&& apart(k2, root, u, j, f)
            &&& kept(k, k2, u, j, f)
            &&& ok ==> low_table(k2.ram, root, n + 1) == Some(
                paging::target(paging::entry(k2.ram, t, 0)),
            )
        }),
{
    reveal(apart);
    let m = k.ram;
    let t = low_table(m, root, n)->0;
    let (k2, ok) = k.first_ensured(t);
    if !paging::present(paging::entry(m, t, 0)) && k.take_frame() is Some {
        let (p, s) = k.take_frame()->0;
        laws::lemma_take_frame(k);
        let e = p | PTE_PRESENT | PTE_WRITABLE | PTE_USER;
        assert((p | 0x1 | 0x2 | 0x4) & 0x000F_FFFF_FFFF_F000 == p && (p | 0x1 | 0x2 | 0x4) & 0x1 != 0
            && (p | 0x1 | 0x2 | 0x4) & 0x80 == 0) by (bit_vector)
            requires
                p % 4096 == 0,
                p <= 0x000F_FFFF_FFFF_F000,
        ;
        assert(k2.ram == laws::linked(m, t, 0, p, e));
        lemma_linked_low(k, s, k2, root, n, p, e, u, j, f);
    }
}

/// Linking a cleared frame below the last low table.
proof fn lemma_linked_low(
    k: KernelSpace,
    s: KernelSpace,
    k2: KernelSpace,
    root: u64,
    n: int,
    p: u64,
    e: u64,
    u: u64,
    j: int,
    f: u64,
)
    requires
        apart(k, root, u, j, f),
        0 <= n <= 2,
        low_table(k.ram, root, n) is Some,
        low_table(k.ram, root, n + 1) is None,
        laws::spare(k, p),
        !laws::spare(s, p),
        laws::spares_distinct(s),
        forall|g: u64| #[trigger] laws::spare(s, g) ==> laws::spare(k, g),
        k2.frames == s.frames,
        k2.pool == s.pool,
        laws::points_to(e, p),
        k2.ram == laws::linked(k.ram, low_table(k.ram, root, n)->0, 0, p, e),
    ensures
        apart(k2, root, u, j, f),
        kept(k, k2, u, j, f),
        low_table(k2.ram, root, n + 1) == Some(p),
        n >= 1 ==> low_table(k2.ram, root, 1) == low_table(k.ram, root, 1),
        n >= 2 ==> low_table(k2.ram, root, 2) == low_table(k.ram, root, 2),
{
    let m = k.ram;
    let t = low_table(m, root, n)->0;
    assert(laws::sound_frame(m, t) && laws::sound_frame(m, p) && t != p && f != p && f != t && f
        % 4096 == 0) by {
        reveal(apart);
    }
    assert forall|x: u64, i: int|
        #![trigger paging::entry(k2.ram, x, i)]
        x % 4096 == 0 && 0 <= i < 512 && x != p && (x != t || i != 0) implies paging::entry(
        k2.ram,
        x,
        i,
    ) == paging::entry(m, x, i) by {
        laws::lemma_linked_entries(m, t, 0, p, e, x, i);
    }
    laws::lemma_linked_entries(m, t, 0, p, e, t, 0);
    laws::lemma_linked_entries(m, t, 0, p, e, p, 0);
    contents::lemma_cleared_bytes(m, p, f);
    contents::lemma_entry_bytes(m.zeroed(p as int, 4096), t, 0, e, f);
    lemma_added(k, s, k2, root, n, p, e, u, j, f);
}

/// Giving the first entry of a low table a table, as mapping a page does.
proof fn lemma_ensured(k: KernelSpace, root: u64, n: int, u: u64, j: int, f: u64)
    requires
        apart(k, root, u, j, f),
        0 <= n <= 2,
        low_table(k.ram, root, n) is Some,
    ensures
        ({
            let (k2, r) = k.ensure(low_table(k.ram, root, n)->0, 0, 0);
            &&& apart(k2, root, u, j, f)
            &&& kept(k, k2, u, j, f)
            &&& r is Some ==> low_table(k2.ram, root, n + 1) == r
        }),
{
    let m = k.ram;
    let t = low_table(m, root, n)->0;
    let e = paging::entry(m, t, 0);
    let (k2, r) = k.ensure(t, 0, 0);
    if (!paging::present(e) || paging::huge(e)) && k.take_pt() is Some {
        let (p, s) = k.take_pt()->0;
        assert(laws::spares_distinct(k)) by {
            reveal(apart);
        }
        laws::lemma_take_pt(k);
        assert(laws::sound_frame(m, t) && laws::sound_frame(m, p) && t != p && f != p && f != t && f
            % 4096 == 0) by {
            reveal(apart);
        }
        let v = paging::table_entry(p, 0);
        laws::lemma_table_entry(p, 0);
        if !paging::present(e) {
            assert(k2.ram == laws::linked(m, t, 0, p, v));
            lemma_linked_low(k, s, k2, root, n, p, v, u, j, f);
        } else {
            assert(n == 2) by {
                reveal(apart);
            }
            let g = |i: int| paging::split_entry(e, i);
            let z = m.zeroed(p as int, 4096);
            assert(k2.ram == laws::split_linked(m, t, 0, p, e, v));
            assert forall|x: u64, i: int|
                #![trigger paging::entry(k2.ram, x, i)]
                x % 4096 == 0 && 0 <= i < 512 && x != p && (x != t || i != 0) implies paging::entry(
                k2.ram,
                x,
                i,
            ) == paging::entry(m, x, i) by {
                laws::lemma_split_entries(m, t, 0, p, e, v, x, i);
            }
            laws::lemma_split_entries(m, t, 0, p, e, v, t, 0);
            contents::lemma_cleared_bytes(m, p, f);
            contents::lemma_entries_bytes(z, p, g, 512, f);
            contents::lemma_entry_bytes(paging::set_entries(z, p, g, 512), t, 0, v, f);
            lemma_added(k, s, k2, root, n, p, v, u, j, f);
        }
    } else {
        assert(kept(k, k2, u, j, f));
    }
}

// ── The steps ────────────────────────────────────────────────────────────────
/// One level of the merge.
proof fn lemma_level(
    k: KernelSpace,
    root: u64,
    kern: u64,
    n: int,
    hidden: bool,
    u: u64,
    j: int,
    f: u64,
)
    requires
        apart(k, root, u, j, f),
        0 <= n <= 1,
        low_table(k.ram, root, n) is Some,
    ensures
        ({
            let (k2, t) = k.level_shared(kern, low_table(k.ram, root, n)->0, hidden);
            &&& apart(k2, root, u, j, f)
            &&& kept(k, k2, u, j, f)
            &&& t matches Some((_kk, uu)) ==> low_table(k2.ram, root, n + 1) == Some(uu)
        }),
{
    let t = low_table(k.ram, root, n)->0;
    let s = k.shared(kern, t, hidden);
    lemma_shared(k, root, kern, n, hidden, u, j, f);
    assert(low_table(s.ram, root, n) == Some(t));
    lemma_first_ensured(s, root, n, u, j, f);
}

/// Merging the kernel's mappings keeps filled entries and frames in use.
proof fn lemma_merged(
    k: KernelSpace,
    kernel: u64,
    root: u64,
    hidden: bool,
    u: u64,
    j: int,
    f: u64,
)
    requires
        apart(k, root, u, j, f),
    ensures
        apart(k.merged(kernel, root, hidden), root, u, j, f),
        kept(k, k.merged(kernel, root, hidden), u, j, f),
{
    if kernel != 0 {
        let (s3, t3) = k.level_shared(kernel, root, hidden);
        lemma_level(k, root, kernel, 0, hidden, u, j, f);
        if t3 is Some {
            let (kern_pdpt, user_pdpt) = t3->0;
            let (s2, t2) = s3.level_shared(kern_pdpt, user_pdpt, hidden);
            lemma_level(s3, root, kern_pdpt, 1, hidden, u, j, f);
            if t2 is Some {
                let (kern_pd, user_pd) = t2->0;
                lemma_shared(s2, root, kern_pd, 2, hidden, u, j, f);
            }
        }
    }
}

/// Mapping the crash log keeps filled entries and frames in use.
proof fn lemma_log_mapped(k: KernelSpace, root: u64, flags: u64, u: u64, j: int, f: u64)
    requires
        apart(k, root, u, j, f),
        flags & PTE_USER == 0,
    ensures
        kept(k, k.mapped(root, 0x4000, 0x4000, flags).0, u, j, f),
{
    let (k3, t3) = k.ensure(root, 0, 0);
    lemma_ensured(k, root, 0, u, j, f);
    if t3 is Some {
        let (k2, t2) = k3.ensure(t3->0, 0, 0);
        lemma_ensured(k3, root, 1, u, j, f);
        if t2 is Some {
            let (k1, t1) = k2.ensure(t2->0, 0, 0);
            lemma_ensured(k2, root, 2, u, j, f);
            if t1 is Some {
                let v = paging::page_entry(0x4000, flags);
                assert(laws::sound_frame(k1.ram, t1->0) && t1->0 != f && (t1->0 != u || j != 4) && u
                    % 4096 == 0 && f % 4096 == 0 && 0 <= j < 512) by {
                    reveal(apart);
                }
                laws::lemma_entry_frame(k1.ram, t1->0, 4, v, u, j);
                contents::lemma_entry_bytes(k1.ram, t1->0, 4, v, f);
            }
        }
    }
}

/// The last steps of preparing an address space keep what is there: entry `j` of
/// the table at `u` if it is filled, other than that of the crash log, and the
/// bytes of a frame in use.
pub proof fn lemma_prepared(
    k: KernelSpace,
    kernel: u64,
    root: u64,
    hidden: bool,
    flags: u64,
    u: u64,
    j: int,
    f: u64,
)
    requires
        apart(k, root, u, j, f),
        flags & PTE_USER == 0,
    ensures
        kept(
            k,
            k.merged(kernel, root, hidden).mapped(root, 0x4000, 0x4000, flags).0,
            u,
            j,
            f,
        ),
{
    lemma_merged(k, kernel, root, hidden, u, j, f);
    lemma_log_mapped(k.merged(kernel, root, hidden), root, flags, u, j, f);
}

} // verus!
