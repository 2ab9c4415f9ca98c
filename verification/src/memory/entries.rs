//! The entries that map pages, as the processor finds them.

use vstd::prelude::*;

use crate::memory::laws::{self, Node};
use crate::memory::paging::{self, BumpSpace, KernelSpace, PTE_ADDR_MASK, PTE_PRESENT, PTE_USER};
use crate::memory::ram::Ram;

verus! {

/// The word of the page table at `at` that stands for part `index` of an address.
pub open spec fn word_for(m: Ram, at: u64, index: u64) -> u64 {
    m.word(at + 8 * (index % 512))
}

/// The words that the processor reads on the way to the 4 KB page of `virt` in
/// the address space with the top-level table at `root`: one of each level, the
/// last of them being the entry of the page. `None` if an upper one does not lead
/// on to a table.
pub open spec fn walk(m: Ram, root: u64, virt: u64) -> Option<(u64, u64, u64, u64)> {
    let e4 = word_for(m, root, virt / 0x80_0000_0000);
    let e3 = word_for(m, e4 & 0x000F_FFFF_FFFF_F000, virt / 0x4000_0000);
    let e2 = word_for(m, e3 & 0x000F_FFFF_FFFF_F000, virt / 0x20_0000);
    let e1 = word_for(m, e2 & 0x000F_FFFF_FFFF_F000, virt / 0x1000);
    if e4 & 0x1 != 0 && e3 & 0x1 != 0 && e2 & 0x1 != 0 && e2 & 0x80 == 0 {
        Some((e4, e3, e2, e1))
    } else {
        None
    }
}

/// The word in memory that maps the 4 KB page of `virt`.
pub open spec fn leaf(m: Ram, root: u64, virt: u64) -> Option<u64> {
    match walk(m, root, virt) {
        Some((_e4, _e3, _e2, e1)) => Some(e1),
        None => None,
    }
}

/// Every word on the way to the page of `virt` lets users through.
pub open spec fn open_to_users(m: Ram, root: u64, virt: u64) -> bool {
    match walk(m, root, virt) {
        Some((e4, e3, e2, _e1)) => e4 & 0x4 != 0 && e3 & 0x4 != 0 && e2 & 0x4 != 0,
        None => false,
    }
}

/// The walk reads the entries of the tables on the path.
pub proof fn lemma_walk(m: Ram, root: u64, virt: u64)
    ensures
        ({
            let a = paging::pml4_index(virt);
            let b = paging::pdpt_index(virt);
            let c = paging::pd_index(virt);
            let t = laws::table(m, root, laws::path(virt));
            &&& walk(m, root, virt) is Some == t is Some
            &&& t is Some ==> {
                &&& laws::table(m, root, Node::Pdpt(a)) is Some
                &&& laws::table(m, root, Node::Pd(a, b)) is Some
                &&& walk(m, root, virt) == Some(
                    (
                        paging::entry(m, root, a),
                        paging::entry(m, laws::table(m, root, Node::Pdpt(a))->0, b),
                        paging::entry(m, laws::table(m, root, Node::Pd(a, b))->0, c),
                        paging::entry(m, t->0, paging::pt_index(virt)),
                    ),
                )
            }
        }),
{
}

/// Making a table usable keeps the entry of every page, and all of the way to a
/// page that is open to users.
proof fn lemma_ensure_keeps_leaf(
    k: KernelSpace,
    root: u64,
    n: Node,
    i: int,
    user: u64,
    other: u64,
)
    requires
        laws::kernel_ok(k, root),
        n.valid(),
        !(n is Pt),
        laws::table(k.ram, root, n) is Some,
        0 <= i < 512,
        user == 0 || user == PTE_USER,
        leaf(k.ram, root, other) is Some,
    ensures
        leaf(k.ensure(laws::table(k.ram, root, n)->0, i, user).0.ram, root, other) == leaf(
            k.ram,
            root,
            other,
        ),
        open_to_users(k.ram, root, other) ==> walk(
            k.ensure(laws::table(k.ram, root, n)->0, i, user).0.ram,
            root,
            other,
        ) == walk(k.ram, root, other),
{
    let k2 = k.ensure(laws::table(k.ram, root, n)->0, i, user).0;
    let a = paging::pml4_index(other);
    let b = paging::pdpt_index(other);
    laws::lemma_ensured_entries(k, root, n, i, user, Node::Pml4, a);
    if laws::table(k.ram, root, Node::Pdpt(a)) is Some {
        laws::lemma_ensured_entries(k, root, n, i, user, Node::Pdpt(a), b);
    }
    if laws::table(k.ram, root, Node::Pd(a, b)) is Some {
        laws::lemma_ensured_entries(
            k,
            root,
            n,
            i,
            user,
            Node::Pd(a, b),
            paging::pd_index(other),
        );
    }
    if open_to_users(k.ram, root, other) {
        reveal(laws::tree);
    }
    lemma_walk(k.ram, root, other);
    lemma_walk(k2.ram, root, other);
    laws::lemma_ensured_entries(
        k,
        root,
        n,
        i,
        user,
        laws::path(other),
        paging::pt_index(other),
    );
}

/// The flags of an entry are those that were asked for.
proof fn lemma_entry_flags(phys: u64, flags: u64)
    requires
        flags & PTE_ADDR_MASK == 0,
    ensures
        ({
            let e = paging::page_entry(phys, flags);
            &&& e & 0x000F_FFFF_FFFF_F000 == phys & 0x000F_FFFF_FFFF_F000
            &&& e & 0x1 == flags & 0x1
            &&& e & 0x2 == flags & 0x2
            &&& e & 0x4 == flags & 0x4
            &&& e & 0x80 == 0
            &&& e & 0x8000_0000_0000_0000 == flags & 0x8000_0000_0000_0000
        }),
{
    assert(flags & 0x000F_FFFF_FFFF_F000 == 0 ==> ({
        let e = (phys & 0x000F_FFFF_FFFF_F000) | (flags & !0x80u64);
        e & 0x000F_FFFF_FFFF_F000 == phys & 0x000F_FFFF_FFFF_F000 && e & 0x1 == flags & 0x1 && e & 0x2
            == flags & 0x2 && e & 0x4 == flags & 0x4 && e & 0x80 == 0 && e & 0x8000_0000_0000_0000 == flags
            & 0x8000_0000_0000_0000
    })) by (bit_vector);
}

/// After a page is mapped, the word that maps it names its frame, and says
/// present (1), writable (2), for users (4) and not executable (the top bit)
/// exactly as asked. A page for users is open to them on every level. The entry of
/// every other page that has one stays as it is, and so does all of the way to it
/// if that is open to users.
pub proof fn law_mapped_page_has_its_flags(
    k: KernelSpace,
    root: u64,
    virt: u64,
    phys: u64,
    flags: u64,
    other: u64,
)
    requires
        laws::kernel_ok(k, root),
        flags & PTE_PRESENT != 0,
        flags & PTE_ADDR_MASK == 0,
    ensures
        ({
            let (k2, ok) = k.mapped(root, virt, phys, flags);
            let e = leaf(k2.ram, root, other);
            &&& ok && laws::same_page(other, virt) ==> {
                &&& e is Some
                &&& e->0 & 0x000F_FFFF_FFFF_F000 == phys & 0x000F_FFFF_FFFF_F000
                &&& e->0 & 0x1 != 0
                &&& e->0 & 0x2 == flags & 0x2
                &&& e->0 & 0x4 == flags & 0x4
                &&& e->0 & 0x80 == 0
                &&& e->0 & 0x8000_0000_0000_0000 == flags & 0x8000_0000_0000_0000
                &&& flags & 0x4 != 0 ==> open_to_users(k2.ram, root, other)
            }
            &&& !(ok && laws::same_page(other, virt)) && leaf(k.ram, root, other) is Some ==> e
                == leaf(k.ram, root, other)
            &&& !(ok && laws::same_page(other, virt)) && open_to_users(k.ram, root, other) ==> walk(
                k2.ram,
                root,
                other,
            ) == walk(k.ram, root, other)
        }),
{
    let a = paging::pml4_index(virt);
    let b = paging::pdpt_index(virt);
    let c = paging::pd_index(virt);
    let d = paging::pt_index(virt);
    let user = flags & PTE_USER;
    laws::lemma_user_access(flags);
    let kept = leaf(k.ram, root, other) is Some;
    let (k3, t3) = k.ensure(root, a, user);
    laws::lemma_kernel_ensure(k, root, Node::Pml4, a, user);
    laws::lemma_ensured_entries(k, root, Node::Pml4, a, user, Node::Pml4, a);
    if kept {
        lemma_ensure_keeps_leaf(k, root, Node::Pml4, a, user, other);
    }
    if t3 is Some {
        let (k2, t2) = k3.ensure(t3->0, b, user);
        laws::lemma_kernel_ensure(k3, root, Node::Pdpt(a), b, user);
        laws::lemma_ensured_entries(k3, root, Node::Pdpt(a), b, user, Node::Pml4, a);
        laws::lemma_ensured_entries(k3, root, Node::Pdpt(a), b, user, Node::Pdpt(a), b);
        if kept {
            lemma_ensure_keeps_leaf(k3, root, Node::Pdpt(a), b, user, other);
        }
        if t2 is Some {
            let (k1, t1) = k2.ensure(t2->0, c, user);
            laws::lemma_kernel_ensure(k2, root, Node::Pd(a, b), c, user);
            laws::lemma_ensured_entries(k2, root, Node::Pd(a, b), c, user, Node::Pml4, a);
            laws::lemma_ensured_entries(k2, root, Node::Pd(a, b), c, user, Node::Pdpt(a), b);
            laws::lemma_ensured_entries(k2, root, Node::Pd(a, b), c, user, Node::Pd(a, b), c);
            if kept {
                lemma_ensure_keeps_leaf(k2, root, Node::Pd(a, b), c, user, other);
            }
            if t1 is Some {
                lemma_leaf_written(k1, root, virt, paging::page_entry(phys, flags), other);
                lemma_entry_flags(phys, flags);
                lemma_walk(k1.ram, root, virt);
            }
        }
    }
}

/// Writing the entry of a page: the walk to the page ends there, walks to others
/// are as they were.
proof fn lemma_leaf_written(k: KernelSpace, root: u64, virt: u64, v: u64, other: u64)
    requires
        laws::kernel_ok(k, root),
        laws::table(k.ram, root, laws::path(virt)) is Some,
    ensures
        ({
            let t = laws::table(k.ram, root, laws::path(virt))->0;
            let m2 = paging::set_entry(k.ram, t, paging::pt_index(virt), v);
            &&& laws::same_page(other, virt) ==> leaf(m2, root, other) == Some(v)
            &&& !laws::same_page(other, virt) ==> walk(m2, root, other) == walk(k.ram, root, other)
            &&& open_to_users(m2, root, other) == open_to_users(k.ram, root, other)
        }),
{
    let m = k.ram;
    let path = laws::path(virt);
    let i = paging::pt_index(virt);
    let t = laws::table(m, root, path)->0;
    let m2 = paging::set_entry(m, t, i, v);
    let a = paging::pml4_index(other);
    let b = paging::pdpt_index(other);
    lemma_walk(m, root, other);
    lemma_walk(m2, root, other);
    laws::lemma_leaf_write_tables(m, root, path, i, v, laws::path(other));
    laws::lemma_leaf_write_tables(m, root, path, i, v, Node::Pdpt(a));
    laws::lemma_leaf_write_tables(m, root, path, i, v, Node::Pd(a, b));
    if laws::table(m, root, laws::path(other)) is Some {
        let u = laws::table(m, root, laws::path(other))->0;
        reveal(laws::tree);
        assert(laws::table(m, root, Node::Pml4) == Some(root));
        assert(laws::table(m, root, Node::Pml4) != laws::table(m, root, path));
        assert(laws::table(m, root, Node::Pdpt(a)) != laws::table(m, root, path));
        assert(laws::table(m, root, Node::Pd(a, b)) != laws::table(m, root, path));
        laws::lemma_entry_frame(m, t, i, v, root, a);
        laws::lemma_entry_frame(m, t, i, v, laws::table(m, root, Node::Pdpt(a))->0, b);
        laws::lemma_entry_frame(
            m,
            t,
            i,
            v,
            laws::table(m, root, Node::Pd(a, b))->0,
            paging::pd_index(other),
        );
        if laws::same_page(other, virt) {
            laws::lemma_entry_same(m, t, i, v);
        } else {
            if laws::path(other) != path {
                assert(laws::table(m, root, laws::path(other)) != laws::table(m, root, path));
            }
            laws::lemma_entry_frame(m, t, i, v, u, paging::pt_index(other));
        }
    }
}

// ── Tables, huge pages and splitting ─────────────────────────────────────────
/// An entry that leads to a table permits all that the entries below it permit: it
/// says present and writable, and lets users through if and only if asked. It
/// names the table.
pub proof fn law_table_entry_permits_all(p: u64, user: u64)
    requires
        p % 4096 == 0,
        p <= PTE_ADDR_MASK,
        user == 0 || user == 0x4,
    ensures
        ({
            let e = paging::table_entry(p, user);
            &&& e & 0x000F_FFFF_FFFF_F000 == p
            &&& e & 0x1 != 0
            &&& e & 0x2 != 0
            &&& e & 0x4 == user
            &&& e & 0x80 == 0
            &&& e & 0x8000_0000_0000_0000 == 0
        }),
{
    assert(({
        let e = (p & 0x000F_FFFF_FFFF_F000) | 0x1 | 0x2 | user;
        e & 0x000F_FFFF_FFFF_F000 == p && e & 0x1 != 0 && e & 0x2 != 0 && e & 0x4 == user && e & 0x80
            == 0 && e & 0x8000_0000_0000_0000 == 0
    })) by (bit_vector)
        requires
            p % 4096 == 0,
            p <= 0x000F_FFFF_FFFF_F000,
            user == 0 || user == 0x4,
    ;
}

/// The pages that replace a huge page permit what the huge page permitted, and lie
/// one after the other where it lay.
pub proof fn law_split_keeps_permissions(e: u64, i: int)
    requires
        0 <= i < 512,
        e & 0x1F_F000 == 0,
    ensures
        ({
            let s = paging::split_entry(e, i);
            &&& s & 0x7 == e & 0x7
            &&& s & 0x80 == 0
            &&& s & 0x8000_0000_0000_0000 == e & 0x8000_0000_0000_0000
            &&& s & 0x000F_FFFF_FFFF_F000 == (e & 0x000F_FFFF_FFE0_0000) + i * 4096
        }),
{
    let k = i as u64;
    assert(e & 0x000F_FFFF_FFE0_0000 <= 0x000F_FFFF_FFE0_0000) by (bit_vector);
    let a = ((e & 0x000F_FFFF_FFE0_0000) + i * 4096) as u64;
    assert(a == (e & 0x000F_FFFF_FFE0_0000) + k * 4096);
    assert(({
        let s = a | (e & !0x000F_FFFF_FFE0_0000u64 & !0x80u64);
        s & 0x7 == e & 0x7 && s & 0x80 == 0 && s & 0x8000_0000_0000_0000 == e & 0x8000_0000_0000_0000
            && s & 0x000F_FFFF_FFFF_F000 == a
    })) by (bit_vector)
        requires
            k < 512,
            e & 0x1F_F000 == 0,
            a == (e & 0x000F_FFFF_FFE0_0000) + k * 4096,
    ;
}

/// A page mapped with a bump allocator is mapped as asked: the word names its
/// frame, and says present (1), writable (2), for users (4) and not executable (the
/// top bit) as the flags do.
pub proof fn law_bump_mapped_page_has_its_flags(
    s: BumpSpace,
    root: u64,
    virt: u64,
    phys: u64,
    flags: u64,
)
    requires
        laws::bump_ok(s, root),
        !laws::covered_by_huge(s.ram, root, virt),
        flags & PTE_PRESENT != 0,
        flags & PTE_ADDR_MASK == 0,
        s.mapped(root, virt, phys, flags).1,
    ensures
        ({
            let e = leaf(s.mapped(root, virt, phys, flags).0.ram, root, virt);
            &&& e is Some
            &&& e->0 & 0x000F_FFFF_FFFF_F000 == phys & 0x000F_FFFF_FFFF_F000
            &&& e->0 & 0x1 != 0
            &&& e->0 & 0x2 == flags & 0x2
            &&& e->0 & 0x4 == flags & 0x4
            &&& e->0 & 0x8000_0000_0000_0000 == flags & 0x8000_0000_0000_0000
        }),
{
    let a = paging::pml4_index(virt);
    let b = paging::pdpt_index(virt);
    let c = paging::pd_index(virt);
    let d = paging::pt_index(virt);
    let pd = Node::Pd(a, b);
    let (s3, t3) = s.ensure(root, a);
    laws::lemma_pml4_not_huge(s.ram, root, Node::Pml4, a);
    laws::lemma_bump_ensure(s, root, Node::Pml4, a);
    laws::lemma_extended(s.ram, s3.ram, root, Node::Pml4, pd, c, virt);
    let (s2, t2) = s3.ensure(t3->0, b);
    laws::lemma_pml4_not_huge(s3.ram, root, Node::Pdpt(a), b);
    laws::lemma_bump_ensure(s3, root, Node::Pdpt(a), b);
    laws::lemma_extended(s3.ram, s2.ram, root, Node::Pdpt(a), pd, c, virt);
    laws::lemma_zero_entry();
    let (s1, t1) = s2.ensure(t2->0, c);
    laws::lemma_bump_ensure(s2, root, pd, c);
    let v = paging::page_entry(phys, flags);
    let m2 = paging::set_entry(s1.ram, t1->0, d, v);
    laws::lemma_leaf_write_tables(s1.ram, root, laws::path(virt), d, v, laws::path(virt));
    assert(laws::sound_frame(s1.ram, t1->0)) by {
        reveal(laws::tree);
    }
    laws::lemma_entry_same(s1.ram, t1->0, d, v);
    lemma_walk(m2, root, virt);
    lemma_entry_flags(phys, flags);
}

/// The word that maps a huge page of a region names the page and says present
/// (1), writable (2), for users (4) and not executable (the top bit) as the flags
/// do, and that it is a huge page (0x80).
pub proof fn law_huge_page_has_its_flags(s: BumpSpace, root: u64, addr: u64, flags: u64)
    requires
        laws::bump_ok(s, root),
        addr % 0x20_0000 == 0,
        addr <= 0x000F_FFFF_FFE0_0000,
        flags & PTE_PRESENT != 0,
        flags & PTE_ADDR_MASK == 0,
        laws::huge_page_free(s.ram, root, addr),
        s.huge_mapped(root, addr, flags).1,
    ensures
        ({
            let m = s.huge_mapped(root, addr, flags).0.ram;
            let pd = laws::table(
                m,
                root,
                Node::Pd(paging::pml4_index(addr), paging::pdpt_index(addr)),
            );
            let e = word_for(m, pd->0, addr / 0x20_0000);
            &&& pd is Some
            &&& e & 0x000F_FFFF_FFE0_0000 == addr
            &&& e & 0x1 != 0
            &&& e & 0x80 != 0
            &&& e & 0x2 == flags & 0x2
            &&& e & 0x4 == flags & 0x4
            &&& e & 0x8000_0000_0000_0000 == flags & 0x8000_0000_0000_0000
        }),
{
    let a = paging::pml4_index(addr);
    let b = paging::pdpt_index(addr);
    let c = paging::pd_index(addr);
    let pd = Node::Pd(a, b);
    laws::lemma_zero_entry();
    let (s3, t3) = s.ensure(root, a);
    laws::lemma_pml4_not_huge(s.ram, root, Node::Pml4, a);
    laws::lemma_bump_ensure(s, root, Node::Pml4, a);
    laws::lemma_extended(s.ram, s3.ram, root, Node::Pml4, pd, c, addr);
    let (s2, t2) = s3.ensure(t3->0, b);
    laws::lemma_pml4_not_huge(s3.ram, root, Node::Pdpt(a), b);
    laws::lemma_bump_ensure(s3, root, Node::Pdpt(a), b);
    laws::lemma_extended(s3.ram, s2.ram, root, Node::Pdpt(a), pd, c, addr);
    let v = addr & paging::PTE_HUGE_ADDR_MASK | flags | paging::PTE_HUGE_PAGE;
    laws::lemma_huge_entry(addr, flags);
    laws::lemma_huge_written(s2.ram, root, addr, v, addr);
    assert(laws::sound_frame(s2.ram, t2->0)) by {
        reveal(laws::tree);
    }
    laws::lemma_entry_same(s2.ram, t2->0, c, v);
    assert(addr % 0x20_0000 == 0 && addr <= 0x000F_FFFF_FFE0_0000 ==> ({
        let e = addr & 0x000F_FFFF_FFE0_0000 | flags | 0x80;
        e & 0x2 == flags & 0x2 && e & 0x4 == flags & 0x4 && e & 0x8000_0000_0000_0000 == flags
            & 0x8000_0000_0000_0000
    })) by (bit_vector);
}

/// An address is translated by the entry of its page: it leads to the frame that the
/// entry names, at the same offset in the page. Without a present entry there is no
/// translation. An address of a huge page keeps its offset in that page.
pub proof fn law_translation_follows_the_entry(m: Ram, root: u64, virt: u64)
    ensures
        leaf(m, root, virt) matches Some(e) ==> match paging::translated(m, root, virt) {
            Some(p) => e & 0x1 != 0 && p == (e & 0x000F_FFFF_FFFF_F000) + virt % 4096,
            None => e & 0x1 == 0,
        },
        paging::translated(m, root, virt) matches Some(p) ==> p % 4096 == virt % 4096,
        paging::translated(m, root, virt) is Some && leaf(m, root, virt) is None ==> paging::translated(
            m,
            root,
            virt,
        )->0 % 0x20_0000 == virt % 0x20_0000,
{
    let e4 = word_for(m, root, virt / 0x80_0000_0000);
    let e3 = word_for(m, e4 & 0x000F_FFFF_FFFF_F000, virt / 0x4000_0000);
    let e2 = word_for(m, e3 & 0x000F_FFFF_FFFF_F000, virt / 0x20_0000);
    let e1 = word_for(m, e2 & 0x000F_FFFF_FFFF_F000, virt / 0x1000);
    assert({
        &&& e1 & 0x000F_FFFF_FFFF_F000 | virt & 0xFFF == (e1 & 0x000F_FFFF_FFFF_F000) + virt % 4096
        &&& (e1 & 0x000F_FFFF_FFFF_F000 | virt & 0xFFF) % 4096 == virt % 4096
        &&& (e2 & 0x000F_FFFF_FFE0_0000 | virt & 0x1F_FFFF) % 4096 == virt % 4096
        &&& (e2 & 0x000F_FFFF_FFE0_0000 | virt & 0x1F_FFFF) % 0x20_0000 == virt % 0x20_0000
    }) by (bit_vector);
}

/// Removing a mapping and changing flags tell whether the 4 KB page was mapped, and
/// leave memory alone if no table covers the address.
pub proof fn law_changes_tell_whether_the_page_was_mapped(
    m: Ram,
    root: u64,
    virt: u64,
    flags: u64,
)
    ensures
        ({
            let mapped = leaf(m, root, virt) is Some && leaf(m, root, virt)->0 & 0x1 != 0;
            &&& paging::page_unmapped(m, root, virt).1 <==> mapped
            &&& paging::page_remapped(m, root, virt, flags).1 <==> mapped
            &&& leaf(m, root, virt) is None ==> paging::page_unmapped(m, root, virt).0 == m
            &&& !mapped ==> paging::page_remapped(m, root, virt, flags).0 == m
        }),
{
    lemma_walk(m, root, virt);
}

} // verus!
