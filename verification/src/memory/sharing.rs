//! The kernel's mappings in the address spaces of users.
//!
//! System calls and interrupts run in the address space of the process they
//! interrupt, so that the kernel has to be mapped there too.

use vstd::prelude::*;

use crate::memory::laws::{self, Node};
use crate::memory::paging::{
    self, read_entry, write_entry, KernelMemory, KernelSpace, PTE_ADDR_MASK, PTE_HUGE_ADDR_MASK,
    PTE_PRESENT, PTE_USER, PTE_WRITABLE,
};
use crate::memory::physical::global_alloc_4k;
use crate::memory::ram::Ram;

verus! {

/// An entry as it is copied: as it is, or closed to users.
pub open spec fn copied(e: u64, hidden: bool) -> u64 {
    if hidden {
        e & !PTE_USER
    } else {
        e
    }
}

/// Memory after entries 1 to `n` of the table at `user` that are zero take over
/// the present entries of the table at `kern`.
pub open spec fn entries_shared(m: Ram, kern: u64, user: u64, hidden: bool, n: nat) -> Ram
    decreases n,
{
    if n == 0 {
        m
    } else {
        let before = entries_shared(m, kern, user, hidden, (n - 1) as nat);
        let k = paging::entry(before, kern, n as int);
        if paging::present(k) && paging::entry(before, user, n as int)
            == 0 {
            paging::set_entry(before, user, n as int, copied(k, hidden))
        } else {
            before
        }
    }
}

impl KernelSpace {
    /// The space after all entries but the first are shared.
    pub open spec fn shared(self, kern: u64, user: u64, hidden: bool) -> KernelSpace {
        KernelSpace { ram: entries_shared(self.ram, kern, user, hidden, 511), ..self }
    }

    /// The space after the first entry of the table at `table` is given a
    /// table, and whether it has one.
    pub open spec fn first_ensured(self, table: u64) -> (KernelSpace, bool) {
        if paging::present(paging::entry(self.ram, table, 0)) {
            (self, true)
        } else {
            match self.take_frame() {
                Some((p, s)) => (
                    s.cleared(p).set_entry(
                        table,
                        0,
                        p | PTE_PRESENT | PTE_WRITABLE | PTE_USER,
                    ),
                    true,
                ),
                None => (self, false),
            }
        }
    }

    /// The space after one level of the kernel's tables is shared with the
    /// user's, and the tables of the next level if both exist.
    pub open spec fn level_shared(self, kern: u64, user: u64, hidden: bool) -> (
        KernelSpace,
        Option<(u64, u64)>,
    ) {
        let s = self.shared(kern, user, hidden);
        let k = paging::entry(s.ram, kern, 0);
        if !paging::present(k) {
            (s, None)
        } else {
            let (t, ok) = s.first_ensured(user);
            if ok {
                let u = paging::entry(t.ram, user, 0);
                (t, Some((paging::target(k), paging::target(u))))
            } else {
                (t, None)
            }
        }
    }

    /// The space after the kernel's mappings are merged into a user's tables.
    pub open spec fn merged(self, kernel_pml4: u64, user_pml4: u64, hidden: bool) -> KernelSpace {
        if kernel_pml4 == 0 {
            self
        } else {
            let (s3, t3) = self.level_shared(kernel_pml4, user_pml4, hidden);
            match t3 {
                None => s3,
                Some((kern_pdpt, user_pdpt)) => {
                    let (s2, t2) = s3.level_shared(kern_pdpt, user_pdpt, hidden);
                    match t2 {
                        None => s2,
                        Some((kern_pd, user_pd)) => s2.shared(kern_pd, user_pd, hidden),
                    }
                },
            }
        }
    }
}

/// Shares all entries but the first of the table at `kern` with the table at `user`.
fn share_entries(mem: &mut KernelMemory, kern: u64, user: u64, hidden: bool)
    requires
        old(mem).wf(),
        paging::table_addr(kern),
        paging::table_addr(user),
    ensures
        final(mem).wf(),
        final(mem)@ == old(mem)@.shared(kern, user, hidden),
{
    let mut n: u64 = 0;
    while n < 511
        invariant
            n <= 511,
            mem.wf(),
            paging::table_addr(kern),
            paging::table_addr(user),
            mem@ == (KernelSpace {
                ram: entries_shared(old(mem)@.ram, kern, user, hidden, n as nat),
                ..old(mem)@
            }),
        decreases 511 - n,
    {
        let k: u64 = read_entry(&mem.ram, kern, n + 1);
        if k & PTE_PRESENT != 0 && read_entry(&mem.ram, user, n + 1) == 0 {
            let copy: u64 = if hidden {
                k & !PTE_USER
            } else {
                k
            };
            write_entry(&mut mem.ram, user, n + 1, copy);
        }
        n = n + 1;
    }
}

/// Shares one level of the kernel's tables with the user's and gives the tables
/// of the next level, if both exist.
fn share_level(mem: &mut KernelMemory, kern: u64, user: u64, hidden: bool) -> (r: Option<
    (u64, u64),
>)
    requires
        old(mem).wf(),
        paging::table_addr(kern),
        paging::table_addr(user),
    ensures
        final(mem).wf(),
        (final(mem)@, r) == old(mem)@.level_shared(kern, user, hidden),
        r matches Some((a, b)) ==> paging::table_addr(a)
            && paging::table_addr(b),
{
    share_entries(mem, kern, user, hidden);
    let k: u64 = read_entry(&mem.ram, kern, 0);
    if k & PTE_PRESENT == 0 {
        return None;
    }
    if read_entry(&mem.ram, user, 0) & PTE_PRESENT == 0 {
        let p: u64 = match global_alloc_4k(&mut mem.frames) {
            Some(p) => p,
            None => return None,
        };
        mem.ram.zero(p, 4096);
        write_entry(&mut mem.ram, user, 0, p | PTE_PRESENT | PTE_WRITABLE | PTE_USER);
    }
    let u: u64 = read_entry(&mem.ram, user, 0);
    proof {
        paging::lemma_target_bound(k);
        paging::lemma_target_bound(u);
    }
    Some((k & PTE_ADDR_MASK, u & PTE_ADDR_MASK))
}

fn merge(mem: &mut KernelMemory, kernel_pml4: u64, user_pml4: u64, hidden: bool)
    requires
        old(mem).wf(),
        paging::table_addr(kernel_pml4),
        paging::table_addr(user_pml4),
    ensures
        final(mem).wf(),
        final(mem)@ == old(mem)@.merged(kernel_pml4, user_pml4, hidden),
{
    if kernel_pml4 == 0 {
        return ;
    }
    let (kern_pdpt, user_pdpt) = match share_level(mem, kernel_pml4, user_pml4, hidden) {
        Some(t) => t,
        None => return ,
    };
    let (kern_pd, user_pd) = match share_level(mem, kern_pdpt, user_pdpt, hidden) {
        Some(t) => t,
        None => return ,
    };
    share_entries(mem, kern_pd, user_pd, hidden);
}

/// Copies the kernel's mappings into a user's tables, except for the first 2 MB
/// and for entries the user already has, so that the kernel stays reachable while
/// the user's address space is active. Without kernel tables (address 0)
/// nothing happens; missing user tables on the way are created.
pub fn merge_kernel_into_user_pml4(mem: &mut KernelMemory, kernel_pml4: u64, user_pml4: u64)
    requires
        old(mem).wf(),
        paging::table_addr(kernel_pml4),
        paging::table_addr(user_pml4),
    ensures
        final(mem).wf(),
        final(mem)@ == old(mem)@.merged(kernel_pml4, user_pml4, false),
{
    merge(mem, kernel_pml4, user_pml4, false);
}

/// Copies the kernel's mappings as `merge_kernel_into_user_pml4` does, but
/// closes the copies to users.
pub fn merge_hidden_kernel(mem: &mut KernelMemory, kernel_pml4: u64, user_pml4: u64)
    requires
        old(mem).wf(),
        paging::table_addr(kernel_pml4),
        paging::table_addr(user_pml4),
    ensures
        final(mem).wf(),
        final(mem)@ == old(mem)@.merged(kernel_pml4, user_pml4, true),
{
    merge(mem, kernel_pml4, user_pml4, true);
}

// ── What holds of merged address spaces ──────────────────────────────────────
/// A copied entry points where the entry does.
proof fn lemma_copied(e: u64, hidden: bool)
    ensures
        paging::present(copied(e, hidden)) == paging::present(e),
        paging::huge(copied(e, hidden)) == paging::huge(e),
        paging::target(copied(e, hidden)) == paging::target(e),
        copied(e, hidden) & PTE_HUGE_ADDR_MASK == e & PTE_HUGE_ADDR_MASK,
        hidden ==> copied(e, hidden) & PTE_USER == 0,
{
    assert((e & !0x4u64) & 0x1 == e & 0x1 && (e & !0x4u64) & 0x80 == e & 0x80 && (e & !0x4u64)
        & 0x000F_FFFF_FFFF_F000 == e & 0x000F_FFFF_FFFF_F000 && (e & !0x4u64)
        & 0x000F_FFFF_FFE0_0000 == e & 0x000F_FFFF_FFE0_0000 && (e & !0x4u64) & 0x4 == 0)
        by (bit_vector);
}

/// Entries after the entries of one table are shared with another: present
/// ones of the kernel where the user had none, and all others as they were.
pub proof fn law_entries_are_shared(
    m: Ram,
    kern: u64,
    user: u64,
    hidden: bool,
    n: nat,
    t: u64,
    j: int,
)
    requires
        laws::sound_frame(m, user),
        kern % 4096 == 0,
        kern != user,
        n <= 511,
        t % 4096 == 0,
        0 <= j < 512,
    ensures
        ({
            let m2 = entries_shared(m, kern, user, hidden, n);
            let k = paging::entry(m, kern, j);
            &&& m2.base == m.base
            &&& m2.bytes.len() == m.bytes.len()
            &&& paging::entry(m2, t, j) == if t == user && 1 <= j <= n
                && paging::present(k) && paging::entry(m, user, j)
                == 0 {
                copied(k, hidden)
            } else {
                paging::entry(m, t, j)
            }
        }),
    decreases n,
{
    if n > 0 {
        let before = entries_shared(m, kern, user, hidden, (n - 1) as nat);
        law_entries_are_shared(m, kern, user, hidden, (n - 1) as nat, t, j);
        law_entries_are_shared(m, kern, user, hidden, (n - 1) as nat, kern, n as int);
        law_entries_are_shared(m, kern, user, hidden, (n - 1) as nat, user, n as int);
        let v = copied(paging::entry(before, kern, n as int), hidden);
        if t == user && j == n {
            laws::lemma_entry_same(before, user, n as int, v);
        } else {
            laws::lemma_entry_frame(before, user, n as int, v, t, j);
        }
    }
}

/// The frames the merge writes to: none is a table of the kernel.
pub open spec fn apart(m: Ram, kernel: u64, user: u64) -> bool {
    forall|n: Node|
        n.valid() && #[trigger] laws::table(m, user, n) is Some
            ==> laws::fresh(m, kernel, laws::table(m, user, n)->0)
}

/// Sharing entries with a table that is none of the kernel's leaves the kernel's
/// address space alone.
proof fn lemma_shared_kernel(m: Ram, kernel: u64, kern: u64, user: u64, hidden: bool)
    requires
        laws::tree(m, kernel),
        laws::fresh(m, kernel, user),
        kern % 4096 == 0,
        kern != user,
    ensures
        ({
            let m2 = entries_shared(m, kern, user, hidden, 511);
            &&& m2.base == m.base
            &&& m2.bytes.len() == m.bytes.len()
            &&& laws::tree(m2, kernel)
            &&& forall|n: Node|
                n.valid() ==> #[trigger] laws::table(m2, kernel, n)
                    == laws::table(m, kernel, n)
            &&& forall|x: Node, j: int|
                x.valid() && 0 <= j < 512 && laws::table(m, kernel, x) is Some ==> (
                #[trigger] paging::entry(
                    m2,
                    laws::table(m, kernel, x)->0,
                    j,
                )) == paging::entry(
                    m,
                    laws::table(m, kernel, x)->0,
                    j,
                )
            &&& forall|virt: u64| #[trigger]
                paging::translated(m2, kernel, virt)
                    == paging::translated(m, kernel, virt)
        }),
{
    let m2 = entries_shared(m, kern, user, hidden, 511);
    law_entries_are_shared(m, kern, user, hidden, 511, user, 0);
    assert forall|n: Node, j: int|
        n.valid() && 0 <= j < 512 && laws::table(m, kernel, n) is Some implies (
    #[trigger] paging::entry(m2, laws::table(m, kernel, n)->0, j))
        == paging::entry(m, laws::table(m, kernel, n)->0, j) by {
        reveal(laws::tree);
        let t = laws::table(m, kernel, n)->0;
        law_entries_are_shared(m, kern, user, hidden, 511, t, j);
    }
    laws::lemma_same_entries(m, m2, kernel);
}

/// Giving the first entry of a table that is none of the kernel's a new table.
proof fn lemma_first_ensured(s: KernelSpace, kernel: u64, t: u64)
    requires
        laws::kernel_ok(s, kernel),
        laws::fresh(s.ram, kernel, t),
        !laws::spare(s, t),
        s.first_ensured(t).1,
    ensures
        ({
            let s2 = s.first_ensured(t).0;
            let e = paging::entry(s2.ram, t, 0);
            let had = paging::present(paging::entry(s.ram, t, 0));
            &&& s2.ram.base == s.ram.base
            &&& s2.ram.bytes.len() == s.ram.bytes.len()
            &&& laws::kernel_ok(s2, kernel)
            &&& forall|f: u64| #[trigger]
                laws::spare(s2, f) ==> laws::spare(s, f)
            &&& forall|virt: u64| #[trigger]
                paging::translated(s2.ram, kernel, virt)
                    == paging::translated(s.ram, kernel, virt)
            &&& forall|n: Node|
                n.valid() ==> #[trigger] laws::table(s2.ram, kernel, n)
                    == laws::table(s.ram, kernel, n)
            &&& paging::present(e)
            &&& had ==> s2 == s
            &&& !had ==> {
                let p = paging::target(e);
                &&& laws::spare(s, p)
                &&& !laws::spare(s2, p)
                &&& !paging::huge(e)
                &&& forall|u: u64, j: int|
                    #![trigger paging::entry(s2.ram, u, j)]
                    u % 4096 == 0 && 0 <= j < 512 && (u != t || j != 0)
                        ==> paging::entry(s2.ram, u, j) == if u == p {
                        0
                    } else {
                        paging::entry(s.ram, u, j)
                    }
            }
        }),
{
    let had = paging::present(paging::entry(s.ram, t, 0));
    if !had {
        let (p, taken) = s.take_frame()->0;
        laws::lemma_take_frame(s);
        let e = p | PTE_PRESENT | PTE_WRITABLE | PTE_USER;
        let s2 = s.first_ensured(t).0;
        assert(laws::fresh(s.ram, kernel, p));
        assert(p & 0x000F_FFFF_FFFF_F000 == p && (p | 0x1 | 0x2 | 0x4) & 0x000F_FFFF_FFFF_F000 == p
            && (p | 0x1 | 0x2 | 0x4) & 0x1 != 0 && (p | 0x1 | 0x2 | 0x4) & 0x80 == 0)
            by (bit_vector)
            requires
                p % 4096 == 0,
                p <= 0x000F_FFFF_FFFF_F000,
        ;
        assert(s2.ram == laws::linked(s.ram, t, 0, p, e));
        assert forall|u: u64, j: int|
            #![trigger paging::entry(s2.ram, u, j)]
            u % 4096 == 0 && 0 <= j < 512 implies paging::entry(s2.ram, u, j) == if u
            == t && j == 0 {
            e
        } else if u == p {
            0
        } else {
            paging::entry(s.ram, u, j)
        } by {
            laws::lemma_linked_entries(s.ram, t, 0, p, e, u, j);
        }
        assert forall|n: Node, j: int|
            n.valid() && 0 <= j < 512 && laws::table(s.ram, kernel, n) is Some implies
        (#[trigger] paging::entry(
            s2.ram,
            laws::table(s.ram, kernel, n)->0,
            j,
        )) == paging::entry(
            s.ram,
            laws::table(s.ram, kernel, n)->0,
            j,
        ) by {
            reveal(laws::tree);
        }
        laws::lemma_same_entries(s.ram, s2.ram, kernel);
        assert forall|f: u64| #[trigger] laws::spare(s2, f) implies
            laws::spare(s, f) && laws::fresh(s2.ram, kernel, f) by {
            assert(laws::spare(taken, f));
        }
    }
}

/// Before one level of the merge: the kernel's address space is sound, and the
/// user's table is neither one of its tables nor spare.
#[verifier::opaque]
spec fn level_ok(s: KernelSpace, kernel: u64, user: u64) -> bool {
    &&& laws::kernel_ok(s, kernel)
    &&& laws::fresh(s.ram, kernel, user)
    &&& !laws::spare(s, user)
}

/// What one level of the merge does to entries: those that are shared, the
/// kernel's, and those of all other tables, which are left alone.
#[verifier::opaque]
spec fn level_done(
    s: KernelSpace,
    s2: KernelSpace,
    kernel: u64,
    kern: u64,
    user: u64,
    hidden: bool,
) -> bool {
    &&& laws::kernel_ok(s2, kernel)
    &&& s2.ram.base == s.ram.base
    &&& s2.ram.bytes.len() == s.ram.bytes.len()
    &&& forall|f: u64| #[trigger] laws::spare(s2, f) ==> laws::spare(s, f)
    &&& forall|virt: u64| #[trigger]
        paging::translated(s2.ram, kernel, virt) == paging::translated(s.ram, kernel, virt)
    &&& forall|x: Node|
        x.valid() ==> #[trigger] laws::table(s2.ram, kernel, x) == laws::table(s.ram, kernel, x)
    &&& forall|j: int|
        1 <= j < 512 ==> (#[trigger] paging::entry(s2.ram, user, j)) == if paging::present(
            paging::entry(s.ram, kern, j),
        ) && paging::entry(s.ram, user, j) == 0 {
            copied(paging::entry(s.ram, kern, j), hidden)
        } else {
            paging::entry(s.ram, user, j)
        }
    &&& forall|u: u64, j: int|
        #![trigger paging::entry(s2.ram, u, j)]
        u % 4096 == 0 && 0 <= j < 512 && u != user && !laws::spare(s, u) ==> paging::entry(
            s2.ram,
            u,
            j,
        ) == paging::entry(s.ram, u, j)
}

/// All entries of the table are zero.
#[verifier::opaque]
spec fn empty_table(m: Ram, t: u64) -> bool {
    forall|j: int| 0 <= j < 512 ==> #[trigger] paging::entry(m, t, j) == 0
}

/// One level of the merge, and the table of the next level.
proof fn lemma_level(s: KernelSpace, kernel: u64, n: Node, user: u64, hidden: bool)
    requires
        level_ok(s, kernel, user),
        n.valid(),
        laws::table(s.ram, kernel, n) is Some,
    ensures
        ({
            let kern = laws::table(s.ram, kernel, n)->0;
            let (s2, t) = s.level_shared(kern, user, hidden);
            let k0 = paging::entry(s.ram, kern, 0);
            let u0 = paging::entry(s.ram, user, 0);
            let v0 = paging::entry(s2.ram, user, 0);
            &&& level_done(s, s2, kernel, kern, user, hidden)
            &&& t is Some <==> paging::present(k0) && (paging::present(u0) || s.take_frame()
                is Some)
            &&& s2.frames == if t is Some && !paging::present(u0) {
                (s.take_frame()->0).1.frames
            } else {
                s.frames
            }
            &&& t matches Some((kk, uu)) ==> {
                &&& kk == paging::target(k0)
                &&& uu == paging::target(v0)
                &&& paging::present(v0)
                &&& paging::present(u0) ==> v0 == u0
                &&& !paging::present(u0) ==> laws::spare(s, uu) && !laws::spare(s2, uu)
                    && empty_table(s2.ram, uu)
            }
        }),
{
    reveal(level_ok);
    reveal(level_done);
    reveal(empty_table);
    let kern = laws::table(s.ram, kernel, n)->0;
    let s1 = s.shared(kern, user, hidden);
    assert(kern % 4096 == 0 && kern != user) by {
        reveal(laws::tree);
    }
    lemma_shared_kernel(s.ram, kernel, kern, user, hidden);
    assert forall|u: u64, j: int|
        #![trigger paging::entry(s1.ram, u, j)]
        u % 4096 == 0 && 0 <= j < 512 implies paging::entry(s1.ram, u, j) == if u == user && 1 <= j
        && paging::present(paging::entry(s.ram, kern, j)) && paging::entry(s.ram, user, j) == 0 {
        copied(paging::entry(s.ram, kern, j), hidden)
    } else {
        paging::entry(s.ram, u, j)
    } by {
        law_entries_are_shared(s.ram, kern, user, hidden, 511, u, j);
    }
    assert forall|f: u64| #[trigger] laws::spare(s1, f) implies laws::spare(s, f) && laws::fresh(
        s1.ram,
        kernel,
        f,
    ) by {
        assert(laws::spare(s, f));
    }
    let k0 = paging::entry(s1.ram, kern, 0);
    let (s2, t) = s.level_shared(kern, user, hidden);
    if paging::present(k0) && s1.first_ensured(user).1 {
        lemma_first_ensured(s1, kernel, user);
        if !paging::present(paging::entry(s1.ram, user, 0)) {
            let p = paging::target(paging::entry(s2.ram, user, 0));
            assert(laws::spare(s, p));
            assert(laws::fresh(s.ram, kernel, p));
        }
    }
}

/// What a done level holds at entry `j` of the user's table.
proof fn lemma_done_shared(
    s: KernelSpace,
    s2: KernelSpace,
    kernel: u64,
    kern: u64,
    user: u64,
    hidden: bool,
    j: int,
)
    requires
        level_done(s, s2, kernel, kern, user, hidden),
        1 <= j < 512,
        paging::present(paging::entry(s.ram, kern, j)),
        paging::entry(s.ram, user, j) == 0,
    ensures
        paging::entry(s2.ram, user, j) == copied(paging::entry(s.ram, kern, j), hidden),
{
    reveal(level_done);
}

/// A done level left entry `j` of another table alone.
proof fn lemma_done_other(
    s: KernelSpace,
    s2: KernelSpace,
    kernel: u64,
    kern: u64,
    user: u64,
    hidden: bool,
    u: u64,
    j: int,
)
    requires
        level_done(s, s2, kernel, kern, user, hidden),
        u % 4096 == 0,
        0 <= j < 512,
        u != user,
        !laws::spare(s, u),
    ensures
        paging::entry(s2.ram, u, j) == paging::entry(s.ram, u, j),
        !laws::spare(s2, u),
{
    reveal(level_done);
}

/// A done level left the kernel's address space alone.
proof fn lemma_done_kernel(
    s: KernelSpace,
    s2: KernelSpace,
    kernel: u64,
    kern: u64,
    user: u64,
    hidden: bool,
    virt: u64,
)
    requires
        level_ok(s, kernel, user),
        level_done(s, s2, kernel, kern, user, hidden),
    ensures
        paging::translated(s2.ram, kernel, virt) == paging::translated(s.ram, kernel, virt),
        laws::table(s2.ram, kernel, Node::Pdpt(0)) == laws::table(s.ram, kernel, Node::Pdpt(0)),
        laws::table(s2.ram, kernel, Node::Pd(0, 0)) == laws::table(s.ram, kernel, Node::Pd(0, 0)),
        same_path(s.ram, s2.ram, kernel, virt),
{
    reveal(level_ok);
    reveal(level_done);
    assert forall|x: Node, j: int|
        x.valid() && 0 <= j < 512 && laws::table(s.ram, kernel, x) is Some implies (
    #[trigger] paging::entry(s2.ram, laws::table(s.ram, kernel, x)->0, j)) == paging::entry(
        s.ram,
        laws::table(s.ram, kernel, x)->0,
        j,
    ) by {
        let f = laws::table(s.ram, kernel, x)->0;
        reveal(laws::tree);
        if laws::spare(s, f) {
            assert(laws::fresh(s.ram, kernel, f));
        }
    }
    laws::lemma_same_path(
        s.ram,
        s2.ram,
        kernel,
        paging::pml4_index(virt),
        paging::pdpt_index(virt),
        paging::pd_index(virt),
    );
}

/// The entries of the upper tables on the way to `virt` are the same.
spec fn same_path(m: Ram, m2: Ram, root: u64, virt: u64) -> bool {
    let e4 = paging::entry(m, root, paging::pml4_index(virt));
    let t3 = paging::target(e4);
    let e3 = paging::entry(m, t3, paging::pdpt_index(virt));
    let t2 = paging::target(e3);
    &&& paging::entry(m2, root, paging::pml4_index(virt)) == e4
    &&& paging::present(e4) ==> paging::entry(m2, t3, paging::pdpt_index(virt)) == e3
    &&& paging::present(e4) && paging::present(e3) ==> paging::entry(
        m2,
        t2,
        paging::pd_index(virt),
    ) == paging::entry(m, t2, paging::pd_index(virt))
}

/// The user has no mapping of its own where the kernel maps `virt`.
pub open spec fn unclaimed(m: Ram, user: u64, virt: u64) -> bool {
    let a = paging::pml4_index(virt);
    let b = paging::pdpt_index(virt);
    let c = paging::pd_index(virt);
    let pdpt = laws::table(m, user, Node::Pdpt(0));
    let pd = laws::table(m, user, Node::Pd(0, 0));
    if a != 0 {
        paging::entry(m, user, a) == 0
    } else if b != 0 {
        pdpt is Some ==> paging::entry(m, pdpt->0, b) == 0
    } else {
        c != 0 && (pd is Some ==> paging::entry(m, pd->0, c) == 0)
    }
}

/// There are frames for the user's tables that the kernel's mapping of `virt`
/// goes through.
pub open spec fn frames_suffice(k: KernelSpace, user: u64, virt: u64) -> bool {
    let a = paging::pml4_index(virt);
    let b = paging::pdpt_index(virt);
    let no_pdpt = laws::table(k.ram, user, Node::Pdpt(0)) is None;
    let no_pd = laws::table(k.ram, user, Node::Pd(0, 0)) is None;
    &&& a == 0 && (no_pdpt || b == 0 && no_pd) ==> k.take_frame() is Some
    &&& a == 0 && b == 0 && no_pdpt ==> (k.take_frame()->0).1.take_frame() is Some
}

/// The address spaces of a merge: both are sound, and no table of the user's is
/// one of the kernel's.
#[verifier::opaque]
pub open spec fn merge_ok(k: KernelSpace, kernel: u64, user: u64) -> bool {
    &&& kernel != 0
    &&& laws::kernel_ok(k, kernel)
    &&& laws::kernel_ok(k, user)
    &&& apart(k.ram, kernel, user)
}

/// A table of the user is neither spare nor one of the kernel's, and a spare
/// frame is no table.
proof fn lemma_user_table(k: KernelSpace, kernel: u64, user: u64, n: Node)
    requires
        merge_ok(k, kernel, user),
        n.valid(),
        laws::table(k.ram, user, n) is Some,
    ensures
        kernel != 0,
        level_ok(k, kernel, laws::table(k.ram, user, n)->0),
        !laws::spare(k, laws::table(k.ram, user, n)->0),
        laws::table(k.ram, user, n)->0 % 4096 == 0,
        n != Node::Pml4 ==> laws::table(k.ram, user, n) != Some(user),
        n != Node::Pdpt(0) ==> laws::table(k.ram, user, n) != laws::table(
            k.ram,
            user,
            Node::Pdpt(0),
        ),
{
    reveal(merge_ok);
    reveal(level_ok);
    reveal(laws::tree);
    let t = laws::table(k.ram, user, n)->0;
    if laws::spare(k, t) {
        assert(laws::fresh(k.ram, user, t));
    }
    assert(laws::table(k.ram, user, Node::Pml4) == Some(user));
    if n != Node::Pml4 {
        assert(laws::table(k.ram, user, n) != laws::table(k.ram, user, Node::Pml4));
    }
}

/// A spare frame that became a table of the user's.
proof fn lemma_spare_table(k: KernelSpace, kernel: u64, user: u64, f: u64)
    requires
        merge_ok(k, kernel, user),
        laws::spare(k, f),
    ensures
        f != user,
        f % 4096 == 0,
{
    reveal(merge_ok);
    assert(laws::fresh(k.ram, user, f));
    assert(laws::table(k.ram, user, Node::Pml4) == Some(user));
}

/// A table of the user's is still one the next level can work on.
proof fn lemma_level_next(
    s: KernelSpace,
    s2: KernelSpace,
    kernel: u64,
    kern: u64,
    user: u64,
    hidden: bool,
    next: u64,
)
    requires
        level_ok(s, kernel, user),
        level_done(s, s2, kernel, kern, user, hidden),
        level_ok(s, kernel, next) || laws::spare(s, next) && !laws::spare(s2, next),
    ensures
        level_ok(s2, kernel, next),
{
    reveal(level_ok);
    reveal(level_done);
    if laws::spare(s, next) {
        assert(laws::fresh(s.ram, kernel, next));
    }
    assert forall|n: Node| n.valid() implies #[trigger] laws::table(s2.ram, kernel, n) != Some(
        next,
    ) by {
        assert(laws::table(s.ram, kernel, n) != Some(next));
    }
}

/// The user's table on the second level of the merge.
proof fn lemma_second_level(k: KernelSpace, kernel: u64, user: u64, hidden: bool)
    requires
        merge_ok(k, kernel, user),
        k.level_shared(kernel, user, hidden).1 is Some,
    ensures
        ({
            let (s3, t) = k.level_shared(kernel, user, hidden);
            let (k2, u2) = t->0;
            let pdpt = laws::table(k.ram, user, Node::Pdpt(0));
            &&& level_ok(k, kernel, user)
            &&& level_done(k, s3, kernel, kernel, user, hidden)
            &&& laws::table(s3.ram, kernel, Node::Pdpt(0)) == Some(k2)
            &&& level_ok(s3, kernel, u2)
            &&& u2 != user
            &&& u2 % 4096 == 0
            &&& pdpt is Some ==> u2 == pdpt->0
            &&& pdpt is None ==> empty_table(s3.ram, u2)
            &&& !laws::spare(s3, user)
            &&& user % 4096 == 0
        }),
{
    let m = k.ram;
    let (s3, t) = k.level_shared(kernel, user, hidden);
    let (k2, u2) = t->0;
    let pdpt = laws::table(m, user, Node::Pdpt(0));
    assert(laws::table(m, user, Node::Pml4) == Some(user));
    assert(laws::table(m, kernel, Node::Pml4) == Some(kernel));
    lemma_user_table(k, kernel, user, Node::Pml4);
    lemma_level(k, kernel, Node::Pml4, user, hidden);
    lemma_done_kernel(k, s3, kernel, kernel, user, hidden, 0);
    assert(laws::table(m, kernel, Node::Pdpt(0)) == Some(k2));
    if pdpt is Some {
        lemma_user_table(k, kernel, user, Node::Pdpt(0));
    } else {
        lemma_spare_table(k, kernel, user, u2);
    }
    lemma_level_next(k, s3, kernel, kernel, user, hidden, u2);
    reveal(level_done);
}

/// Entry `j` of the user's table on the second level, before that level.
proof fn lemma_second_entry(k: KernelSpace, kernel: u64, user: u64, hidden: bool, j: int)
    requires
        merge_ok(k, kernel, user),
        k.level_shared(kernel, user, hidden).1 is Some,
        0 <= j < 512,
    ensures
        ({
            let (s3, t) = k.level_shared(kernel, user, hidden);
            let u2 = (t->0).1;
            paging::entry(s3.ram, u2, j) == if laws::table(k.ram, user, Node::Pdpt(0)) is Some {
                paging::entry(k.ram, u2, j)
            } else {
                0
            }
        }),
{
    let (s3, t) = k.level_shared(kernel, user, hidden);
    let u2 = (t->0).1;
    lemma_second_level(k, kernel, user, hidden);
    if laws::table(k.ram, user, Node::Pdpt(0)) is Some {
        lemma_user_table(k, kernel, user, Node::Pdpt(0));
        lemma_done_other(k, s3, kernel, kernel, user, hidden, u2, j);
    } else {
        reveal(empty_table);
    }
}

/// The user's table on the third level of the merge.
proof fn lemma_third_level(k: KernelSpace, kernel: u64, user: u64, hidden: bool, c: int)
    requires
        merge_ok(k, kernel, user),
        k.level_shared(kernel, user, hidden).1 is Some,
        ({
            let (s3, t) = k.level_shared(kernel, user, hidden);
            s3.level_shared((t->0).0, (t->0).1, hidden).1 is Some
        }),
        0 <= c < 512,
    ensures
        ({
            let (s3, t3) = k.level_shared(kernel, user, hidden);
            let (k2, u2) = t3->0;
            let (s2, t2) = s3.level_shared(k2, u2, hidden);
            let (k1, u1) = t2->0;
            let pd = laws::table(k.ram, user, Node::Pd(0, 0));
            &&& level_done(s3, s2, kernel, k2, u2, hidden)
            &&& laws::table(s2.ram, kernel, Node::Pd(0, 0)) == Some(k1)
            &&& level_ok(s2, kernel, u1)
            &&& u1 != user
            &&& u1 != u2
            &&& u1 % 4096 == 0
            &&& pd is Some ==> u1 == pd->0
            &&& paging::entry(s2.ram, u1, c) == if pd is Some {
                paging::entry(k.ram, u1, c)
            } else {
                0
            }
        }),
{
    let m = k.ram;
    let (s3, t3) = k.level_shared(kernel, user, hidden);
    let (k2, u2) = t3->0;
    let (s2, t2) = s3.level_shared(k2, u2, hidden);
    let (k1, u1) = t2->0;
    let pdpt = laws::table(m, user, Node::Pdpt(0));
    let pd = laws::table(m, user, Node::Pd(0, 0));
    lemma_second_level(k, kernel, user, hidden);
    lemma_second_entry(k, kernel, user, hidden, 0);
    lemma_level(s3, kernel, Node::Pdpt(0), u2, hidden);
    lemma_done_kernel(s3, s2, kernel, k2, u2, hidden, 0);
    laws::lemma_zero_entry();
    assert(paging::present(paging::entry(s3.ram, u2, 0)) == (pd is Some));
    assert(laws::table(s3.ram, kernel, Node::Pd(0, 0)) == Some(k1));
    if pd is Some {
        lemma_user_table(k, kernel, user, Node::Pd(0, 0));
        lemma_done_other(k, s3, kernel, kernel, user, hidden, u1, c);
        lemma_done_other(s3, s2, kernel, k2, u2, hidden, u1, c);
        lemma_level_next(k, s3, kernel, kernel, user, hidden, u1);
    } else {
        assert(laws::spare(k, u1)) by {
            reveal(level_done);
        }
        lemma_spare_table(k, kernel, user, u1);
        assert(u1 != u2) by {
            reveal(level_ok);
        }
        reveal(empty_table);
    }
    lemma_level_next(s3, s2, kernel, k2, u2, hidden, u1);
}

/// Sharing the last level: what it does to entries, and that it leaves the
/// kernel's address space alone.
proof fn lemma_last_level(
    s: KernelSpace,
    kernel: u64,
    n: Node,
    user: u64,
    hidden: bool,
    virt: u64,
)
    requires
        level_ok(s, kernel, user),
        n.valid(),
        laws::table(s.ram, kernel, n) is Some,
    ensures
        ({
            let kern = laws::table(s.ram, kernel, n)->0;
            let m2 = s.shared(kern, user, hidden).ram;
            &&& paging::translated(m2, kernel, virt) == paging::translated(s.ram, kernel, virt)
            &&& same_path(s.ram, m2, kernel, virt)
            &&& kern != user
            &&& kern % 4096 == 0
            &&& laws::sound_frame(s.ram, user)
        }),
{
    reveal(level_ok);
    let kern = laws::table(s.ram, kernel, n)->0;
    assert(kern % 4096 == 0 && kern != user) by {
        reveal(laws::tree);
    }
    lemma_shared_kernel(s.ram, kernel, kern, user, hidden);
    laws::lemma_same_path(
        s.ram,
        s.shared(kern, user, hidden).ram,
        kernel,
        paging::pml4_index(virt),
        paging::pdpt_index(virt),
        paging::pd_index(virt),
    );
}

/// The merge leaves the kernel's address space alone.
proof fn lemma_merged_kernel(k: KernelSpace, kernel: u64, user: u64, hidden: bool, virt: u64)
    requires
        merge_ok(k, kernel, user),
    ensures
        ({
            let mf = k.merged(kernel, user, hidden).ram;
            &&& paging::translated(mf, kernel, virt) == paging::translated(k.ram, kernel, virt)
            &&& same_path(k.ram, mf, kernel, virt)
        }),
{
    let (s3, t3) = k.level_shared(kernel, user, hidden);
    assert(laws::table(k.ram, user, Node::Pml4) == Some(user));
    assert(laws::table(k.ram, kernel, Node::Pml4) == Some(kernel));
    lemma_user_table(k, kernel, user, Node::Pml4);
    lemma_level(k, kernel, Node::Pml4, user, hidden);
    lemma_done_kernel(k, s3, kernel, kernel, user, hidden, virt);
    if t3 is Some {
        let (k2, u2) = t3->0;
        let (s2, t2) = s3.level_shared(k2, u2, hidden);
        lemma_second_level(k, kernel, user, hidden);
        lemma_level(s3, kernel, Node::Pdpt(0), u2, hidden);
        lemma_done_kernel(s3, s2, kernel, k2, u2, hidden, virt);
        if t2 is Some {
            lemma_third_level(k, kernel, user, hidden, 0);
            lemma_last_level(s2, kernel, Node::Pd(0, 0), (t2->0).1, hidden, virt);
        }
    }
}

/// Entry `j` of the user's top-level table after the merge is the one the first
/// level left.
proof fn lemma_merged_top(k: KernelSpace, kernel: u64, user: u64, hidden: bool, j: int)
    requires
        merge_ok(k, kernel, user),
        0 <= j < 512,
    ensures
        paging::entry(k.merged(kernel, user, hidden).ram, user, j) == paging::entry(
            k.level_shared(kernel, user, hidden).0.ram,
            user,
            j,
        ),
{
    let (s3, t3) = k.level_shared(kernel, user, hidden);
    assert(laws::table(k.ram, user, Node::Pml4) == Some(user));
    lemma_user_table(k, kernel, user, Node::Pml4);
    if t3 is Some {
        let (k2, u2) = t3->0;
        let (s2, t2) = s3.level_shared(k2, u2, hidden);
        lemma_second_level(k, kernel, user, hidden);
        lemma_level(s3, kernel, Node::Pdpt(0), u2, hidden);
        lemma_done_other(s3, s2, kernel, k2, u2, hidden, user, j);
        if t2 is Some {
            let (k1, u1) = t2->0;
            lemma_third_level(k, kernel, user, hidden, 0);
            lemma_last_level(s2, kernel, Node::Pd(0, 0), u1, hidden, 0);
            law_entries_are_shared(s2.ram, k1, u1, hidden, 511, user, j);
        }
    }
}

/// The entry of the user's tables through which the kernel's mapping of `virt`
/// is reached after the merge.
proof fn lemma_merged_path(k: KernelSpace, kernel: u64, user: u64, hidden: bool, virt: u64)
    requires
        merge_ok(k, kernel, user),
        unclaimed(k.ram, user, virt),
        frames_suffice(k, user, virt),
        paging::translated(k.ram, kernel, virt) is Some,
    ensures
        ({
            let a = paging::pml4_index(virt);
            let b = paging::pdpt_index(virt);
            let c = paging::pd_index(virt);
            let m = k.ram;
            let mf = k.merged(kernel, user, hidden).ram;
            let e4 = paging::entry(m, kernel, a);
            let e3 = paging::entry(m, paging::target(e4), b);
            let e2 = paging::entry(m, paging::target(e3), c);
            let u4 = paging::entry(mf, user, a);
            let u3 = paging::entry(mf, paging::target(u4), b);
            let u2 = paging::entry(mf, paging::target(u3), c);
            if a != 0 {
                u4 == copied(e4, hidden)
            } else if b != 0 {
                paging::present(u4) && u3 == copied(e3, hidden)
            } else {
                paging::present(u4) && paging::present(u3) && u2 == copied(e2, hidden)
            }
        }),
{
    let a = paging::pml4_index(virt);
    let b = paging::pdpt_index(virt);
    let c = paging::pd_index(virt);
    let m = k.ram;
    let (s3, t3) = k.level_shared(kernel, user, hidden);
    assert(laws::table(m, user, Node::Pml4) == Some(user));
    assert(laws::table(m, kernel, Node::Pml4) == Some(kernel));
    lemma_user_table(k, kernel, user, Node::Pml4);
    lemma_level(k, kernel, Node::Pml4, user, hidden);
    lemma_merged_top(k, kernel, user, hidden, a);
    if a != 0 {
        lemma_done_shared(k, s3, kernel, kernel, user, hidden, a);
    } else {
        assert(t3 is Some);
        let (k2, u2) = t3->0;
        let (s2, t2) = s3.level_shared(k2, u2, hidden);
        lemma_second_level(k, kernel, user, hidden);
        lemma_second_entry(k, kernel, user, hidden, b);
        lemma_level(s3, kernel, Node::Pdpt(0), u2, hidden);
        lemma_done_kernel(k, s3, kernel, kernel, user, hidden, virt);
        lemma_done_kernel(s3, s2, kernel, k2, u2, hidden, virt);
        if b != 0 {
            lemma_done_shared(s3, s2, kernel, k2, u2, hidden, b);
        } else {
            laws::lemma_zero_entry();
            assert(t2 is Some);
        }
        if t2 is Some {
            let (k1, u1) = t2->0;
            lemma_third_level(k, kernel, user, hidden, c);
            lemma_last_level(s2, kernel, Node::Pd(0, 0), u1, hidden, virt);
            law_entries_are_shared(s2.ram, k1, u1, hidden, 511, u2, b);
            if b == 0 {
                law_entries_are_shared(s2.ram, k1, u1, hidden, 511, u1, c);
            }
        }
    }
}

/// After the merge, the kernel's memory is reachable in the user's address
/// space as it is in the kernel's own, wherever the user has no mapping of its
/// own. The first 2 MB are the user's. The kernel's address space is unchanged.
pub proof fn law_merged_kernel_is_reachable(
    k: KernelSpace,
    kernel: u64,
    user: u64,
    hidden: bool,
    virt: u64,
)
    requires
        merge_ok(k, kernel, user),
        unclaimed(k.ram, user, virt),
        frames_suffice(k, user, virt),
        paging::translated(k.ram, kernel, virt) is Some,
    ensures
        ({
            let k2 = k.merged(kernel, user, hidden);
            &&& paging::translated(k2.ram, kernel, virt) == paging::translated(k.ram, kernel, virt)
            &&& paging::translated(k2.ram, user, virt) == paging::translated(k.ram, kernel, virt)
        }),
{
    let a = paging::pml4_index(virt);
    let b = paging::pdpt_index(virt);
    let c = paging::pd_index(virt);
    let e4 = paging::entry(k.ram, kernel, a);
    let e3 = paging::entry(k.ram, paging::target(e4), b);
    let e2 = paging::entry(k.ram, paging::target(e3), c);
    lemma_copied(e4, hidden);
    lemma_copied(e3, hidden);
    lemma_copied(e2, hidden);
    lemma_merged_kernel(k, kernel, user, hidden, virt);
    lemma_merged_path(k, kernel, user, hidden, virt);
}

/// Programs of the user may access `virt`: every entry on the way to it is open
/// to users.
pub open spec fn open_to_users(m: Ram, pml4: u64, virt: u64) -> bool {
    let e4 = paging::entry(m, pml4, paging::pml4_index(virt));
    let e3 = paging::entry(m, paging::target(e4), paging::pdpt_index(virt));
    let e2 = paging::entry(m, paging::target(e3), paging::pd_index(virt));
    let e1 = paging::entry(m, paging::target(e2), paging::pt_index(virt));
    &&& paging::translated(m, pml4, virt) is Some
    &&& e4 & PTE_USER != 0
    &&& e3 & PTE_USER != 0
    &&& e2 & PTE_USER != 0
    &&& !paging::huge(e2) ==> e1 & PTE_USER != 0
}

/// Programs of the user cannot access the kernel's memory through the entries
/// that a hidden merge copies.
pub proof fn law_hidden_kernel_is_closed(k: KernelSpace, kernel: u64, user: u64, virt: u64)
    requires
        merge_ok(k, kernel, user),
        unclaimed(k.ram, user, virt),
        frames_suffice(k, user, virt),
        paging::translated(k.ram, kernel, virt) is Some,
    ensures
        !open_to_users(k.merged(kernel, user, true).ram, user, virt),
{
    let a = paging::pml4_index(virt);
    let b = paging::pdpt_index(virt);
    let c = paging::pd_index(virt);
    let e4 = paging::entry(k.ram, kernel, a);
    let e3 = paging::entry(k.ram, paging::target(e4), b);
    let e2 = paging::entry(k.ram, paging::target(e3), c);
    lemma_copied(e4, true);
    lemma_copied(e3, true);
    lemma_copied(e2, true);
    lemma_merged_path(k, kernel, user, true, virt);
}

/// An entry is copied as it is, but for the bit that lets users through, which a
/// hidden copy never has.
pub proof fn law_copies_differ_in_the_user_bit(e: u64, hidden: bool)
    ensures
        copied(e, hidden) & 0xFFFF_FFFF_FFFF_FFFB == e & 0xFFFF_FFFF_FFFF_FFFB,
        hidden ==> copied(e, hidden) & 0x4 == 0,
        !hidden ==> copied(e, hidden) & 0x4 == e & 0x4,
{
    assert((e & !0x4u64) & 0xFFFF_FFFF_FFFF_FFFB == e & 0xFFFF_FFFF_FFFF_FFFB && (e & !0x4u64) & 0x4
        == 0) by (bit_vector);
}

} // verus!
