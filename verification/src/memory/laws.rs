//! What holds of page tables as a whole.
//!
//! The tables of an address space form a tree: every table is reached over one
//! path only. On such a tree, mapping a page changes the translation of that
//! page and of no other.

use vstd::prelude::*;

use crate::memory::paging::{
    self, BumpSpace, KernelSpace, PTE_ADDR_MASK, PTE_HUGE_ADDR_MASK, PTE_HUGE_PAGE, PTE_PRESENT,
    PTE_USER,
};
use crate::memory::ram::Ram;

verus! {

/// A table of an address space, named by the indices on the path to it.
pub enum Node {
    Pml4,
    Pdpt(int),
    Pd(int, int),
    Pt(int, int, int),
}

impl Node {
    /// The indices on the path are those of table entries.
    pub open spec fn valid(self) -> bool {
        match self {
            Node::Pml4 => true,
            Node::Pdpt(a) => 0 <= a < 512,
            Node::Pd(a, b) => 0 <= a < 512 && 0 <= b < 512,
            Node::Pt(a, b, c) => 0 <= a < 512 && 0 <= b < 512 && 0 <= c < 512,
        }
    }

    /// The table that entry `i` of this table points to.
    pub open spec fn child(self, i: int) -> Node {
        match self {
            Node::Pml4 => Node::Pdpt(i),
            Node::Pdpt(a) => Node::Pd(a, i),
            Node::Pd(a, b) => Node::Pt(a, b, i),
            Node::Pt(_, _, _) => self,
        }
    }
}

/// Address of table `n` of the address space with top-level table `root`.
pub open spec fn table(m: Ram, root: u64, n: Node) -> Option<u64> {
    match n {
        Node::Pml4 => Some(root),
        Node::Pdpt(a) => pointed(m, Some(root), a),
        Node::Pd(a, b) => pointed(m, pointed(m, Some(root), a), b),
        Node::Pt(a, b, c) => {
            let t = pointed(m, pointed(m, Some(root), a), b);
            if t is Some && paging::huge(
                paging::entry(m, t->0, c),
            ) {
                None
            } else {
                pointed(m, t, c)
            }
        },
    }
}

/// The table that entry `i` of the table `t` points to.
pub open spec fn pointed(m: Ram, t: Option<u64>, i: int) -> Option<u64> {
    match t {
        Some(t) => {
            let e = paging::entry(m, t, i);
            if paging::present(e) {
                Some(paging::target(e))
            } else {
                None
            }
        },
        None => None,
    }
}

/// A frame at `t` lies in memory and can hold a table.
pub open spec fn sound_frame(m: Ram, t: u64) -> bool {
    &&& t % 4096 == 0
    &&& t <= PTE_ADDR_MASK
    &&& m.covers(t as int, 4096)
}

/// The tables of an address space lie in memory and form a tree; only entries
/// of a PD map huge pages, and those are aligned.
#[verifier::opaque]
pub open spec fn tree(m: Ram, root: u64) -> bool {
    &&& forall|n: Node|
        n.valid() && #[trigger] table(m, root, n) is Some ==> sound_frame(m, table(m, root, n)->0)
    &&& forall|n: Node, k: Node|
        n.valid() && k.valid() && n != k && #[trigger] table(m, root, n) is Some
            && #[trigger] table(m, root, k) is Some ==> table(m, root, n) != table(m, root, k)
    &&& forall|n: Node, i: int|
        n.valid() && 0 <= i < 512 && (n is Pml4 || n is Pdpt) && table(m, root, n) is Some
            ==> !paging::huge(
            #[trigger] paging::entry(m, table(m, root, n)->0, i),
        )
    &&& forall|n: Node, i: int|
        n.valid() && 0 <= i < 512 && n is Pd && table(m, root, n) is Some
            && paging::huge(
            #[trigger] paging::entry(m, table(m, root, n)->0, i),
        ) ==> paging::entry(m, table(m, root, n)->0, i) & 0x1F_F000 == 0
}

/// Distinct frames do not overlap.
pub proof fn lemma_frames_disjoint(a: u64, b: u64)
    requires
        a % 4096 == 0,
        b % 4096 == 0,
        a != b,
    ensures
        a + 4096 <= b || b + 4096 <= a,
{
}

/// Writing an entry of one table leaves the entries of every other table alone.
pub proof fn lemma_entry_frame(m: Ram, t: u64, i: int, v: u64, other: u64, j: int)
    requires
        sound_frame(m, t),
        other % 4096 == 0,
        0 <= i < 512,
        0 <= j < 512,
        other != t || i != j,
    ensures
        paging::entry(paging::set_entry(m, t, i, v), other, j)
            == paging::entry(m, other, j),
{
    if other != t {
        lemma_frames_disjoint(t, other);
    }
    crate::memory::ram::lemma_word_other(m, t + 8 * i, v, other + 8 * j);
}

/// An entry reads back as it was written.
pub proof fn lemma_entry_same(m: Ram, t: u64, i: int, v: u64)
    requires
        sound_frame(m, t),
        0 <= i < 512,
    ensures
        paging::entry(paging::set_entry(m, t, i, v), t, i) == v,
{
    crate::memory::ram::lemma_word_same(m, t + 8 * i, v);
}

/// Writing an entry of a last-level table changes no table of the tree.
pub proof fn lemma_leaf_write_tables(m: Ram, root: u64, leaf: Node, i: int, v: u64, n: Node)
    requires
        tree(m, root),
        leaf is Pt,
        leaf.valid(),
        table(m, root, leaf) is Some,
        0 <= i < 512,
        n.valid(),
    ensures
        table(
            paging::set_entry(m, table(m, root, leaf)->0, i, v),
            root,
            n,
        ) == table(m, root, n),
{
    reveal(tree);
    let t = table(m, root, leaf)->0;
    let m2 = paging::set_entry(m, t, i, v);
    match n {
        Node::Pml4 => {},
        Node::Pdpt(a) => {
            lemma_upper_entry(m, root, leaf, i, v, Node::Pml4, a);
        },
        Node::Pd(a, b) => {
            lemma_upper_entry(m, root, leaf, i, v, Node::Pml4, a);
            lemma_upper_entry(m, root, leaf, i, v, Node::Pdpt(a), b);
        },
        Node::Pt(a, b, c) => {
            lemma_upper_entry(m, root, leaf, i, v, Node::Pml4, a);
            lemma_upper_entry(m, root, leaf, i, v, Node::Pdpt(a), b);
            lemma_upper_entry(m, root, leaf, i, v, Node::Pd(a, b), c);
        },
    }
}

/// Writing an entry of a last-level table leaves the entries of the tables
/// above alone.
proof fn lemma_upper_entry(m: Ram, root: u64, leaf: Node, i: int, v: u64, n: Node, j: int)
    requires
        tree(m, root),
        leaf is Pt,
        leaf.valid(),
        table(m, root, leaf) is Some,
        0 <= i < 512,
        n.valid(),
        !(n is Pt),
        0 <= j < 512,
    ensures
        table(m, root, n) is Some ==> paging::entry(
            paging::set_entry(m, table(m, root, leaf)->0, i, v),
            table(m, root, n)->0,
            j,
        ) == paging::entry(m, table(m, root, n)->0, j),
{
    reveal(tree);
    if table(m, root, n) is Some {
        assert(n != leaf);
        assert(table(m, root, n) != table(m, root, leaf));
        lemma_entry_frame(m, table(m, root, leaf)->0, i, v, table(m, root, n)->0, j);
    }
}

/// Writing an entry of a last-level table keeps the tree a tree.
pub proof fn lemma_leaf_write_tree(m: Ram, root: u64, leaf: Node, i: int, v: u64)
    requires
        tree(m, root),
        leaf is Pt,
        leaf.valid(),
        table(m, root, leaf) is Some,
        0 <= i < 512,
    ensures
        tree(paging::set_entry(m, table(m, root, leaf)->0, i, v), root),
{
    reveal(tree);
    let m2 = paging::set_entry(m, table(m, root, leaf)->0, i, v);
    assert forall|n: Node| n.valid() implies #[trigger] table(m2, root, n) == table(m, root, n) by {
        lemma_leaf_write_tables(m, root, leaf, i, v, n);
    }
    assert forall|n: Node, k: Node|
        n.valid() && k.valid() && n != k && #[trigger] table(m2, root, n) is Some
            && #[trigger] table(m2, root, k) is Some implies table(m2, root, n) != table(
        m2,
        root,
        k,
    ) by {
        assert(table(m, root, n) != table(m, root, k));
    }
    assert forall|n: Node, j: int|
        n.valid() && 0 <= j < 512 && (n is Pml4 || n is Pdpt || n is Pd) && table(m2, root, n) is Some
        implies #[trigger] paging::entry(m2, table(m2, root, n)->0, j)
        == paging::entry(m, table(m, root, n)->0, j) by {
        lemma_upper_entry(m, root, leaf, i, v, n, j);
    }
}

/// The path of `virt` through the tables.
pub open spec fn path(virt: u64) -> Node {
    Node::Pt(
        paging::pml4_index(virt),
        paging::pdpt_index(virt),
        paging::pd_index(virt),
    )
}

/// `a` and `b` lie on the same 4 KB page of the 48-bit address space.
pub open spec fn same_page(a: u64, b: u64) -> bool {
    path(a) == path(b) && paging::pt_index(a) == paging::pt_index(b)
}

/// The translation of `virt` after an entry of a last-level table is written:
/// that of the entry for addresses on its page, unchanged for all others.
pub proof fn lemma_leaf_write_translation(m: Ram, root: u64, leaf: u64, v: u64, virt: u64)
    requires
        tree(m, root),
        table(m, root, path(leaf)) is Some,
    ensures
        ({
            let m2 = paging::set_entry(
                m,
                table(m, root, path(leaf))->0,
                paging::pt_index(leaf),
                v,
            );
            paging::translated(m2, root, virt) == if same_page(virt, leaf) {
                if paging::present(v) {
                    Some(paging::target(v) | virt & 0xFFF)
                } else {
                    None
                }
            } else {
                paging::translated(m, root, virt)
            }
        }),
{
    reveal(tree);
    let t = table(m, root, path(leaf))->0;
    let i = paging::pt_index(leaf);
    let a = paging::pml4_index(virt);
    let b = paging::pdpt_index(virt);
    let c = paging::pd_index(virt);
    lemma_upper_entry(m, root, path(leaf), i, v, Node::Pml4, a);
    lemma_upper_entry(m, root, path(leaf), i, v, Node::Pdpt(a), b);
    lemma_upper_entry(m, root, path(leaf), i, v, Node::Pd(a, b), c);
    lemma_entry_same(m, t, i, v);
    if table(m, root, path(virt)) is Some {
        let u = table(m, root, path(virt))->0;
        if path(virt) != path(leaf) {
            assert(table(m, root, path(virt)) != table(m, root, path(leaf)));
        }
        if !same_page(virt, leaf) {
            lemma_entry_frame(m, t, i, v, u, paging::pt_index(virt));
        }
    }
}

/// An address space depends on the entries of its tables alone.
pub proof fn lemma_same_entries(m: Ram, m2: Ram, root: u64)
    requires
        tree(m, root),
        m2.base == m.base,
        m2.bytes.len() == m.bytes.len(),
        forall|n: Node, j: int|
            n.valid() && 0 <= j < 512 && table(m, root, n) is Some ==> (
            #[trigger] paging::entry(m2, table(m, root, n)->0, j))
                == paging::entry(m, table(m, root, n)->0, j),
    ensures
        tree(m2, root),
        forall|n: Node| n.valid() ==> #[trigger] table(m2, root, n) == table(m, root, n),
        forall|virt: u64| #[trigger]
            paging::translated(m2, root, virt) == paging::translated(
                m,
                root,
                virt,
            ),
{
    assert forall|n: Node| n.valid() implies #[trigger] table(m2, root, n) == table(m, root, n) by {
        lemma_same_table(m, m2, root, n);
    }
    assert(tree(m2, root)) by {
        reveal(tree);
        assert forall|n: Node, k: Node|
            n.valid() && k.valid() && n != k && #[trigger] table(m2, root, n) is Some
                && #[trigger] table(m2, root, k) is Some implies table(m2, root, n) != table(
            m2,
            root,
            k,
        ) by {
            assert(table(m, root, n) != table(m, root, k));
        }
        assert forall|n: Node, j: int|
            n.valid() && 0 <= j < 512 && table(m2, root, n) is Some implies (
        #[trigger] paging::entry(m2, table(m2, root, n)->0, j))
            == paging::entry(m, table(m, root, n)->0, j) by {
            assert(table(m2, root, n) == table(m, root, n));
        }
    }
    assert forall|virt: u64| #[trigger]
        paging::translated(m2, root, virt) == paging::translated(
            m,
            root,
            virt,
        ) by {
        let a = paging::pml4_index(virt);
        let b = paging::pdpt_index(virt);
        let c = paging::pd_index(virt);
        lemma_same_table(m, m2, root, path(virt));
        assert(table(m, root, Node::Pml4) == Some(root));
        if table(m, root, path(virt)) is Some {
            let t = table(m, root, path(virt))->0;
            let d = paging::pt_index(virt);
            assert(paging::entry(m2, table(m, root, path(virt))->0, d)
                == paging::entry(m, t, d));
        }
        lemma_same_path(m, m2, root, a, b, c);
    }
}

/// The entries on one path, where all entries of the tables are the same.
pub proof fn lemma_same_path(m: Ram, m2: Ram, root: u64, a: int, b: int, c: int)
    requires
        0 <= a < 512,
        0 <= b < 512,
        0 <= c < 512,
        forall|n: Node, j: int|
            n.valid() && 0 <= j < 512 && table(m, root, n) is Some ==> (
            #[trigger] paging::entry(m2, table(m, root, n)->0, j))
                == paging::entry(m, table(m, root, n)->0, j),
    ensures
        ({
            let e4 = paging::entry(m, root, a);
            let t3 = paging::target(e4);
            let e3 = paging::entry(m, t3, b);
            let t2 = paging::target(e3);
            &&& paging::entry(m2, root, a) == e4
            &&& paging::present(e4) ==> paging::entry(m2, t3, b) == e3
            &&& paging::present(e4) && paging::present(e3)
                ==> paging::entry(m2, t2, c) == paging::entry(
                m,
                t2,
                c,
            )
        }),
{
    let e4 = paging::entry(m, root, a);
    assert(table(m, root, Node::Pml4) == Some(root));
    assert(paging::entry(m2, table(m, root, Node::Pml4)->0, a) == e4);
    if paging::present(e4) {
        let n3 = Node::Pdpt(a);
        let t3 = paging::target(e4);
        assert(table(m, root, n3) == Some(t3));
        let e3 = paging::entry(m, t3, b);
        assert(paging::entry(m2, table(m, root, n3)->0, b) == e3);
        if paging::present(e3) {
            let n2 = Node::Pd(a, b);
            let t2 = paging::target(e3);
            assert(table(m, root, n2) == Some(t2));
            assert(paging::entry(m2, table(m, root, n2)->0, c)
                == paging::entry(m, t2, c));
        }
    }
}

/// Where all entries of the tables are the same, so is every table.
proof fn lemma_same_table(m: Ram, m2: Ram, root: u64, n: Node)
    requires
        n.valid(),
        forall|n: Node, j: int|
            n.valid() && 0 <= j < 512 && table(m, root, n) is Some ==> (
            #[trigger] paging::entry(m2, table(m, root, n)->0, j))
                == paging::entry(m, table(m, root, n)->0, j),
    ensures
        table(m2, root, n) == table(m, root, n),
{
    match n {
        Node::Pml4 => {},
        Node::Pdpt(a) => {
            lemma_same_path(m, m2, root, a, 0, 0);
        },
        Node::Pd(a, b) => {
            lemma_same_path(m, m2, root, a, b, 0);
        },
        Node::Pt(a, b, c) => {
            lemma_same_path(m, m2, root, a, b, c);
        },
    }
}

/// A top-level table without entries is an address space that maps nothing.
pub proof fn lemma_empty_tree(m: Ram, root: u64)
    requires
        sound_frame(m, root),
        forall|i: int| 0 <= i < 512 ==> #[trigger] paging::entry(m, root, i) == 0,
    ensures
        tree(m, root),
        forall|n: Node|
            n.valid() && !(n is Pml4) ==> #[trigger] table(m, root, n) is None,
{
    lemma_zero_entry();
    assert forall|n: Node| n.valid() && !(n is Pml4) implies #[trigger] table(m, root, n) is None by {
        match n {
            Node::Pml4 => {},
            Node::Pdpt(a) => {
                assert(paging::entry(m, root, a) == 0);
            },
            Node::Pd(a, b) => {
                assert(paging::entry(m, root, a) == 0);
            },
            Node::Pt(a, b, c) => {
                assert(paging::entry(m, root, a) == 0);
            },
        }
    }
    assert(table(m, root, Node::Pml4) == Some(root));
    reveal(tree);
}

// ── Adding a table ───────────────────────────────────────────────────────────
/// `f` is a frame that can become a table of the address space.
pub open spec fn fresh(m: Ram, root: u64, f: u64) -> bool {
    &&& sound_frame(m, f)
    &&& forall|n: Node| n.valid() ==> #[trigger] table(m, root, n) != Some(f)
}

/// Memory after the frame at `f` is cleared and entry `i` of the table at `t` is set to `e`.
pub open spec fn linked(m: Ram, t: u64, i: int, f: u64, e: u64) -> Ram {
    paging::set_entry(m.zeroed(f as int, 4096), t, i, e)
}

/// Entries of a linked memory: the new one, those of the new table, which are
/// zero, and all others, which are unchanged.
pub proof fn lemma_linked_entries(m: Ram, t: u64, i: int, f: u64, e: u64, u: u64, j: int)
    requires
        sound_frame(m, t),
        sound_frame(m, f),
        t != f,
        u % 4096 == 0,
        0 <= i < 512,
        0 <= j < 512,
    ensures
        paging::entry(linked(m, t, i, f, e), u, j) == if u == t && j == i {
            e
        } else if u == f {
            0
        } else {
            paging::entry(m, u, j)
        },
{
    let z = m.zeroed(f as int, 4096);
    if u != f {
        lemma_frames_disjoint(u, f);
    }
    crate::memory::ram::lemma_word_zeroed(m, f as int, 4096, u + 8 * j);
    assert(sound_frame(z, t));
    if u == t && j == i {
        lemma_entry_same(z, t, i, e);
    } else {
        lemma_entry_frame(z, t, i, e, u, j);
    }
}

/// Entry `e` points to the frame at `f` as to a table.
pub open spec fn points_to(e: u64, f: u64) -> bool {
    &&& paging::present(e)
    &&& !paging::huge(e)
    &&& paging::target(e) == f
}

/// A cleared entry points nowhere.
pub proof fn lemma_zero_entry()
    ensures
        !paging::present(0),
        !paging::huge(0),
{
    assert(0u64 & 0x1u64 == 0u64 && 0u64 & 0x80u64 == 0u64) by (bit_vector);
}

/// Flags give access to users or not.
pub proof fn lemma_user_access(flags: u64)
    ensures
        flags & 0x4 == 0 || flags & 0x4 == 4,
{
    assert(flags & 0x4 == 0 || flags & 0x4 == 4) by (bit_vector);
}

/// Linking a fresh table below `n` adds exactly that table.
proof fn lemma_linked_tables(m: Ram, root: u64, n: Node, i: int, f: u64, e: u64, k: Node)
    requires
        tree(m, root),
        n.valid(),
        !(n is Pt),
        table(m, root, n) is Some,
        0 <= i < 512,
        table(m, root, n.child(i)) is None,
        !paging::present(
            paging::entry(m, table(m, root, n)->0, i),
        ),
        fresh(m, root, f),
        points_to(e, f),
        k.valid(),
    ensures
        table(linked(m, table(m, root, n)->0, i, f, e), root, k) == if k == n.child(i) {
            Some(f)
        } else {
            table(m, root, k)
        },
{
    reveal(tree);
    let t = table(m, root, n)->0;
    let m2 = linked(m, t, i, f, e);
    lemma_zero_entry();
    assert(table(m, root, Node::Pml4) == Some(root));
    assert(table(m, root, n) != Some(f));
    // Entries of the tables above `k`.
    match k {
        Node::Pml4 => {},
        Node::Pdpt(a) => {
            lemma_linked_step(m, root, n, i, f, e, Node::Pml4, a);
        },
        Node::Pd(a, b) => {
            lemma_linked_step(m, root, n, i, f, e, Node::Pml4, a);
            lemma_linked_step(m, root, n, i, f, e, Node::Pdpt(a), b);
            if n is Pml4 && a == i {
                lemma_linked_entries(m, t, i, f, e, f, b);
            }
        },
        Node::Pt(a, b, c) => {
            lemma_linked_step(m, root, n, i, f, e, Node::Pml4, a);
            lemma_linked_step(m, root, n, i, f, e, Node::Pdpt(a), b);
            lemma_linked_step(m, root, n, i, f, e, Node::Pd(a, b), c);
            if n is Pml4 && a == i {
                lemma_linked_entries(m, t, i, f, e, f, b);
            }
            if n == Node::Pdpt(a) && b == i {
                lemma_linked_entries(m, t, i, f, e, f, c);
            }
        },
    }
}

/// Entries of the existing tables after a fresh table is linked below `n`.
proof fn lemma_linked_step(m: Ram, root: u64, n: Node, i: int, f: u64, e: u64, k: Node, j: int)
    requires
        tree(m, root),
        n.valid(),
        !(n is Pt),
        table(m, root, n) is Some,
        0 <= i < 512,
        fresh(m, root, f),
        points_to(e, f),
        k.valid(),
        0 <= j < 512,
    ensures
        table(m, root, k) is Some ==> paging::entry(
            linked(m, table(m, root, n)->0, i, f, e),
            table(m, root, k)->0,
            j,
        ) == if k == n && j == i {
            e
        } else {
            paging::entry(m, table(m, root, k)->0, j)
        },
{
    reveal(tree);
    if table(m, root, k) is Some {
        let t = table(m, root, n)->0;
        let u = table(m, root, k)->0;
        assert(table(m, root, n) != Some(f));
        assert(table(m, root, k) != Some(f));
        if k != n {
            assert(table(m, root, n) != table(m, root, k));
        }
        lemma_linked_entries(m, t, i, f, e, u, j);
    }
}

/// Linking a fresh table keeps the tree a tree, and no translation changes.
proof fn lemma_linked_tree(m: Ram, root: u64, n: Node, i: int, f: u64, e: u64)
    requires
        tree(m, root),
        n.valid(),
        !(n is Pt),
        table(m, root, n) is Some,
        0 <= i < 512,
        table(m, root, n.child(i)) is None,
        !paging::present(
            paging::entry(m, table(m, root, n)->0, i),
        ),
        fresh(m, root, f),
        points_to(e, f),
    ensures
        tree(linked(m, table(m, root, n)->0, i, f, e), root),
        forall|virt: u64| #[trigger]
            paging::translated(
                linked(m, table(m, root, n)->0, i, f, e),
                root,
                virt,
            ) == paging::translated(m, root, virt),
{
    reveal(tree);
    let t = table(m, root, n)->0;
    let m2 = linked(m, t, i, f, e);
    lemma_zero_entry();
    assert forall|k: Node| k.valid() implies #[trigger] table(m2, root, k) == if k == n.child(i) {
        Some(f)
    } else {
        table(m, root, k)
    } by {
        lemma_linked_tables(m, root, n, i, f, e, k);
    }
    assert(n.child(i).valid());
    assert forall|k: Node| k.valid() && #[trigger] table(m2, root, k) is Some implies sound_frame(
        m2,
        table(m2, root, k)->0,
    ) by {}
    assert forall|k: Node, l: Node|
        k.valid() && l.valid() && k != l && #[trigger] table(m2, root, k) is Some
            && #[trigger] table(m2, root, l) is Some implies table(m2, root, k) != table(
        m2,
        root,
        l,
    ) by {
        if k == n.child(i) {
            assert(table(m, root, l) != Some(f));
        } else if l == n.child(i) {
            assert(table(m, root, k) != Some(f));
        } else {
            assert(table(m, root, k) != table(m, root, l));
        }
    }
    assert forall|k: Node, j: int|
        k.valid() && 0 <= j < 512 && table(m2, root, k) is Some implies (
    #[trigger] paging::entry(m2, table(m2, root, k)->0, j)) == if k == n && j == i {
        e
    } else if k == n.child(i) {
        0
    } else {
        paging::entry(m, table(m, root, k)->0, j)
    } by {
        if k == n.child(i) {
            assert(table(m, root, n) != Some(f));
            lemma_linked_entries(m, t, i, f, e, f, j);
        } else {
            lemma_linked_step(m, root, n, i, f, e, k, j);
        }
    }
    assert forall|virt: u64| #[trigger] paging::translated(m2, root, virt)
        == paging::translated(m, root, virt) by {
        lemma_linked_translation(m, root, n, i, f, e, virt);
    }
}

proof fn lemma_linked_translation(
    m: Ram,
    root: u64,
    n: Node,
    i: int,
    f: u64,
    e: u64,
    virt: u64,
)
    requires
        tree(m, root),
        n.valid(),
        !(n is Pt),
        table(m, root, n) is Some,
        0 <= i < 512,
        table(m, root, n.child(i)) is None,
        !paging::present(
            paging::entry(m, table(m, root, n)->0, i),
        ),
        fresh(m, root, f),
        points_to(e, f),
    ensures
        paging::translated(
            linked(m, table(m, root, n)->0, i, f, e),
            root,
            virt,
        ) == paging::translated(m, root, virt),
{
    reveal(tree);
    let t = table(m, root, n)->0;
    let a = paging::pml4_index(virt);
    let b = paging::pdpt_index(virt);
    let c = paging::pd_index(virt);
    let d = paging::pt_index(virt);
    lemma_zero_entry();
    assert(table(m, root, Node::Pml4) == Some(root));
    assert(table(m, root, n) != Some(f));
    lemma_linked_step(m, root, n, i, f, e, Node::Pml4, a);
    lemma_linked_step(m, root, n, i, f, e, Node::Pdpt(a), b);
    lemma_linked_step(m, root, n, i, f, e, Node::Pd(a, b), c);
    lemma_linked_step(m, root, n, i, f, e, Node::Pt(a, b, c), d);
    lemma_linked_entries(m, t, i, f, e, f, b);
    lemma_linked_entries(m, t, i, f, e, f, c);
    lemma_linked_entries(m, t, i, f, e, f, d);
}

// ── Mapping with a bump allocator ────────────────────────────────────────────
/// An entry made for the table at `p` points there.
pub proof fn lemma_table_entry(p: u64, user: u64)
    requires
        p % 4096 == 0,
        p <= PTE_ADDR_MASK,
        user == 0 || user == PTE_USER,
    ensures
        points_to(paging::table_entry(p, user), p),
{
    assert(p % 4096 == 0 && p <= 0x000F_FFFF_FFFF_F000 && (user == 0 || user == 4) ==> ((p
        & 0x000F_FFFF_FFFF_F000) | 0x1 | 0x2 | user) & 0x000F_FFFF_FFFF_F000 == p && ((p
        & 0x000F_FFFF_FFFF_F000) | 0x1 | 0x2 | user) & 0x1 != 0 && ((p & 0x000F_FFFF_FFFF_F000)
        | 0x1 | 0x2 | user) & 0x80 == 0) by (bit_vector);
}

/// An entry made for the page at `phys` maps it, if the flags say present and
/// hold no address bits.
pub proof fn lemma_page_entry(phys: u64, flags: u64)
    requires
        flags & PTE_PRESENT != 0,
        flags & PTE_ADDR_MASK == 0,
    ensures
        paging::present(paging::page_entry(phys, flags)),
        paging::target(paging::page_entry(phys, flags)) == phys
            & PTE_ADDR_MASK,
{
    assert(flags & 0x1 != 0 && flags & 0x000F_FFFF_FFFF_F000 == 0 ==> ((phys
        & 0x000F_FFFF_FFFF_F000) | (flags & !0x80u64)) & 0x1 != 0 && ((phys & 0x000F_FFFF_FFFF_F000)
        | (flags & !0x80u64)) & 0x000F_FFFF_FFFF_F000 == phys & 0x000F_FFFF_FFFF_F000)
        by (bit_vector);
}

/// An aligned page translates to the frame it is mapped to.
pub proof fn lemma_page_target(p: u64, virt: u64)
    requires
        p % 4096 == 0,
        p <= PTE_ADDR_MASK,
        virt % 4096 == 0,
    ensures
        p & PTE_ADDR_MASK | virt & 0xFFF == p,
{
    assert(p & 0x000F_FFFF_FFFF_F000 | virt & 0xFFF == p) by (bit_vector)
        requires
            p % 4096 == 0,
            p <= 0x000F_FFFF_FFFF_F000,
            virt % 4096 == 0,
    ;
}

/// The address space is a tree, and the allocator's region lies in memory and
/// holds none of its tables.
pub open spec fn bump_ok(s: BumpSpace, root: u64) -> bool {
    &&& tree(s.ram, root)
    &&& 0 <= s.start
    &&& 0 <= s.left
    &&& s.start % 4096 == 0
    &&& s.start + s.left <= PTE_ADDR_MASK
    &&& s.ram.covers(s.start, s.left)
    &&& forall|n: Node|
        n.valid() && #[trigger] table(s.ram, root, n) is Some ==> table(s.ram, root, n)->0 + 4096
            <= s.start || s.start + s.left <= table(s.ram, root, n)->0
}

/// A huge page covers `virt`.
pub open spec fn covered_by_huge(m: Ram, root: u64, virt: u64) -> bool {
    let pd = table(
        m,
        root,
        Node::Pd(
            paging::pml4_index(virt),
            paging::pdpt_index(virt),
        ),
    );
    let e = paging::entry(m, pd->0, paging::pd_index(virt));
    pd is Some && paging::present(e) && paging::huge(e)
}

/// Going from `m` to `m2`, every table stays where it is, entries of tables
/// other than `n` stay as they are, tables that are new are empty, and no
/// translation changes.
#[verifier::opaque]
pub open spec fn extended(m: Ram, m2: Ram, root: u64, n: Node) -> bool {
    &&& forall|k: Node|
        k.valid() && table(m, root, k) is Some ==> #[trigger] table(m2, root, k) == table(
            m,
            root,
            k,
        )
    &&& forall|k: Node, j: int|
        k.valid() && 0 <= j < 512 && table(m2, root, k) is Some && k != n ==> (
        #[trigger] paging::entry(m2, table(m2, root, k)->0, j)) == if table(
            m,
            root,
            k,
        ) is Some {
            paging::entry(m, table(m, root, k)->0, j)
        } else {
            0
        }
    &&& forall|virt: u64| #[trigger]
        paging::translated(m2, root, virt) == paging::translated(
            m,
            root,
            virt,
        )
}

/// Linking a fresh table extends the address space by that table.
proof fn lemma_linked_extended(m: Ram, root: u64, n: Node, i: int, f: u64, e: u64)
    requires
        tree(m, root),
        n.valid(),
        !(n is Pt),
        table(m, root, n) is Some,
        0 <= i < 512,
        table(m, root, n.child(i)) is None,
        !paging::present(
            paging::entry(m, table(m, root, n)->0, i),
        ),
        fresh(m, root, f),
        points_to(e, f),
    ensures
        tree(linked(m, table(m, root, n)->0, i, f, e), root),
        extended(m, linked(m, table(m, root, n)->0, i, f, e), root, n),
        forall|k: Node|
            k.valid() ==> #[trigger] table(linked(m, table(m, root, n)->0, i, f, e), root, k) == (
            if k == n.child(i) {
                Some(f)
            } else {
                table(m, root, k)
            }),
{
    let t = table(m, root, n)->0;
    let m2 = linked(m, t, i, f, e);
    lemma_linked_tree(m, root, n, i, f, e);
    assert forall|k: Node| k.valid() implies #[trigger] table(m2, root, k) == (if k == n.child(i) {
        Some(f)
    } else {
        table(m, root, k)
    }) by {
        lemma_linked_tables(m, root, n, i, f, e, k);
    }
    assert forall|k: Node, j: int|
        k.valid() && 0 <= j < 512 && table(m2, root, k) is Some && k != n implies (
    #[trigger] paging::entry(m2, table(m2, root, k)->0, j)) == if table(
        m,
        root,
        k,
    ) is Some {
        paging::entry(m, table(m, root, k)->0, j)
    } else {
        0
    } by {
        reveal(tree);
        if k == n.child(i) {
            assert(table(m, root, n) != Some(f));
            lemma_linked_entries(m, t, i, f, e, f, j);
        } else {
            lemma_linked_step(m, root, n, i, f, e, k, j);
        }
    }
    reveal(extended);
}

/// What `extended` says of one table entry, one table and one translation.
pub proof fn lemma_extended(m: Ram, m2: Ram, root: u64, n: Node, k: Node, j: int, virt: u64)
    requires
        extended(m, m2, root, n),
        k.valid(),
        0 <= j < 512,
    ensures
        table(m, root, k) is Some ==> table(m2, root, k) == table(m, root, k),
        table(m2, root, k) is Some && k != n ==> paging::entry(
            m2,
            table(m2, root, k)->0,
            j,
        ) == (if table(m, root, k) is Some {
            paging::entry(m, table(m, root, k)->0, j)
        } else {
            0
        }),
        paging::translated(m2, root, virt) == paging::translated(
            m,
            root,
            virt,
        ),
{
    reveal(extended);
}

/// The table below entry `i` of table `n`, as the entry tells.
proof fn lemma_child(m: Ram, root: u64, n: Node, i: int)
    requires
        n.valid(),
        !(n is Pt),
        table(m, root, n) is Some,
        0 <= i < 512,
        !(n is Pd) || !paging::huge(
            paging::entry(m, table(m, root, n)->0, i),
        ) || !paging::present(
            paging::entry(m, table(m, root, n)->0, i),
        ),
    ensures
        n.child(i).valid(),
        table(m, root, n.child(i)) == pointed(m, table(m, root, n), i),
{
}

/// Finding or creating the table below entry `i` of table `n`.
pub proof fn lemma_bump_ensure(s: BumpSpace, root: u64, n: Node, i: int)
    requires
        bump_ok(s, root),
        n.valid(),
        !(n is Pt),
        table(s.ram, root, n) is Some,
        0 <= i < 512,
        !(paging::present(
            paging::entry(s.ram, table(s.ram, root, n)->0, i),
        ) && paging::huge(
            paging::entry(s.ram, table(s.ram, root, n)->0, i),
        )),
    ensures
        bump_ok(s.ensure(table(s.ram, root, n)->0, i).0, root),
        extended(s.ram, s.ensure(table(s.ram, root, n)->0, i).0.ram, root, n),
        s.ensure(table(s.ram, root, n)->0, i).1 is Some ==> table(
            s.ensure(table(s.ram, root, n)->0, i).0.ram,
            root,
            n.child(i),
        ) == s.ensure(table(s.ram, root, n)->0, i).1,
{
    let t = table(s.ram, root, n)->0;
    let e = paging::entry(s.ram, t, i);
    let (s2, r) = s.ensure(t, i);
    lemma_child(s.ram, root, n, i);
    if !paging::present(e) && s.left >= 4096 {
        let f = s.start as u64;
        let e1 = paging::table_entry(f, 0);
        lemma_table_entry(f, 0);
        assert(fresh(s.ram, root, f));
        lemma_linked_extended(s.ram, root, n, i, f, e1);
        assert(s2.ram == linked(s.ram, t, i, f, e1));
    } else {
        reveal(extended);
    }
}

/// Mapping a page with a bump allocator changes the translation of that page
/// and of no other; if frames run out, no translation changes.
///
/// The page must not lie in a huge page, and the flags must say present and
/// hold no address bits.
pub proof fn law_map_page_translates(
    s: BumpSpace,
    root: u64,
    virt: u64,
    phys: u64,
    flags: u64,
    other: u64,
)
    requires
        bump_ok(s, root),
        !covered_by_huge(s.ram, root, virt),
        flags & PTE_PRESENT != 0,
        flags & PTE_ADDR_MASK == 0,
    ensures
        ({
            let (s2, ok) = s.mapped(root, virt, phys, flags);
            &&& bump_ok(s2, root)
            &&& paging::translated(s2.ram, root, other) == if ok && same_page(
                other,
                virt,
            ) {
                Some(phys & PTE_ADDR_MASK | other & 0xFFF)
            } else {
                paging::translated(s.ram, root, other)
            }
        }),
{
    let a = paging::pml4_index(virt);
    let b = paging::pdpt_index(virt);
    let c = paging::pd_index(virt);
    let d = paging::pt_index(virt);
    let pd = Node::Pd(a, b);
    let (s3, t3) = s.ensure(root, a);
    lemma_pml4_not_huge(s.ram, root, Node::Pml4, a);
    lemma_bump_ensure(s, root, Node::Pml4, a);
    lemma_extended(s.ram, s3.ram, root, Node::Pml4, pd, c, other);
    if t3 is Some {
        let (s2, t2) = s3.ensure(t3->0, b);
        lemma_pml4_not_huge(s3.ram, root, Node::Pdpt(a), b);
        lemma_bump_ensure(s3, root, Node::Pdpt(a), b);
        lemma_extended(s3.ram, s2.ram, root, Node::Pdpt(a), pd, c, other);
        if t2 is Some {
            lemma_zero_entry();
            let (s1, t1) = s2.ensure(t2->0, c);
            lemma_bump_ensure(s2, root, pd, c);
            lemma_extended(s2.ram, s1.ram, root, pd, pd, c, other);
            if t1 is Some {
                lemma_bump_leaf(s1, root, virt, phys, flags, other);
            }
        }
    }
}

/// Entries of the two upper levels never map huge pages.
pub proof fn lemma_pml4_not_huge(m: Ram, root: u64, n: Node, i: int)
    requires
        tree(m, root),
        n.valid(),
        n is Pml4 || n is Pdpt,
        table(m, root, n) is Some,
        0 <= i < 512,
    ensures
        !paging::huge(
            paging::entry(m, table(m, root, n)->0, i),
        ),
{
    reveal(tree);
}

/// Writing the entry of the page once its table exists.
proof fn lemma_bump_leaf(
    s1: BumpSpace,
    root: u64,
    virt: u64,
    phys: u64,
    flags: u64,
    other: u64,
)
    requires
        bump_ok(s1, root),
        table(s1.ram, root, path(virt)) is Some,
        flags & PTE_PRESENT != 0,
        flags & PTE_ADDR_MASK == 0,
    ensures
        ({
            let ram = paging::set_entry(
                s1.ram,
                table(s1.ram, root, path(virt))->0,
                paging::pt_index(virt),
                paging::page_entry(phys, flags),
            );
            &&& bump_ok(BumpSpace { ram, ..s1 }, root)
            &&& paging::translated(ram, root, other) == if same_page(other, virt) {
                Some(phys & PTE_ADDR_MASK | other & 0xFFF)
            } else {
                paging::translated(s1.ram, root, other)
            }
        }),
{
    let d = paging::pt_index(virt);
    let v = paging::page_entry(phys, flags);
    lemma_page_entry(phys, flags);
    lemma_leaf_write_translation(s1.ram, root, virt, v, other);
    lemma_leaf_write_tree(s1.ram, root, path(virt), d, v);
    let ram = paging::set_entry(s1.ram, table(s1.ram, root, path(virt))->0, d, v);
    assert forall|n: Node| n.valid() implies #[trigger] table(ram, root, n) == table(
        s1.ram,
        root,
        n,
    ) by {
        lemma_leaf_write_tables(s1.ram, root, path(virt), d, v, n);
    }
}

/// Removing the mapping of a page leaves that page without translation and
/// every other page as it was.
pub proof fn law_unmapped_page_is_gone(m: Ram, root: u64, virt: u64, other: u64)
    requires
        tree(m, root),
        paging::page_unmapped(m, root, virt).1,
    ensures
        ({
            let m2 = paging::page_unmapped(m, root, virt).0;
            &&& tree(m2, root)
            &&& paging::translated(m2, root, other) == if same_page(other, virt) {
                None
            } else {
                paging::translated(m, root, other)
            }
        }),
{
    lemma_zero_entry();
    assert(table(m, root, path(virt)) == paging::last_table(m, root, virt));
    lemma_leaf_write_translation(m, root, virt, 0, other);
    lemma_leaf_write_tree(m, root, path(virt), paging::pt_index(virt), 0);
}

/// Changing the flags of a page to flags that say present and hold no address
/// bits changes no translation.
pub proof fn law_remapped_page_keeps_its_address(
    m: Ram,
    root: u64,
    virt: u64,
    flags: u64,
    other: u64,
)
    requires
        tree(m, root),
        flags & PTE_PRESENT != 0,
        flags & PTE_ADDR_MASK == 0,
    ensures
        ({
            let m2 = paging::page_remapped(m, root, virt, flags).0;
            &&& tree(m2, root)
            &&& paging::translated(m2, root, other)
                == paging::translated(m, root, other)
        }),
{
    if paging::page_remapped(m, root, virt, flags).1 {
        let t = paging::last_table(m, root, virt)->0;
        let i = paging::pt_index(virt);
        let e = paging::entry(m, t, i);
        let v = paging::page_entry(e, flags);
        assert(table(m, root, path(virt)) == Some(t));
        lemma_page_entry(e, flags);
        lemma_leaf_write_translation(m, root, virt, v, other);
        lemma_leaf_write_tree(m, root, path(virt), i, v);
    }
}

// ── Splitting a huge page ────────────────────────────────────────────────────
/// Entries after the first `n` entries of the frame at `f` are set to `g`.
pub proof fn lemma_set_entries(m: Ram, f: u64, g: spec_fn(int) -> u64, n: nat, u: u64, j: int)
    requires
        sound_frame(m, f),
        u % 4096 == 0,
        n <= 512,
        0 <= j < 512,
    ensures
        sound_frame(paging::set_entries(m, f, g, n), f),
        paging::set_entries(m, f, g, n).base == m.base,
        paging::set_entries(m, f, g, n).bytes.len() == m.bytes.len(),
        paging::entry(paging::set_entries(m, f, g, n), u, j) == (
        if u == f && j < n {
            g(j)
        } else {
            paging::entry(m, u, j)
        }),
    decreases n,
{
    if n > 0 {
        let before = paging::set_entries(m, f, g, (n - 1) as nat);
        lemma_set_entries(m, f, g, (n - 1) as nat, u, j);
        if u == f && j == n - 1 {
            lemma_entry_same(before, f, n - 1, g(n - 1));
        } else {
            lemma_entry_frame(before, f, n - 1, g(n - 1), u, j);
        }
    }
}

/// Memory after the frame at `f` takes the 4 KB entries of the huge page `old`
/// and entry `i` of the table at `t` is set to `e`.
pub open spec fn split_linked(m: Ram, t: u64, i: int, f: u64, old_entry: u64, e: u64) -> Ram {
    paging::set_entry(
        paging::set_entries(
            m.zeroed(f as int, 4096),
            f,
            |k: int| paging::split_entry(old_entry, k),
            512,
        ),
        t,
        i,
        e,
    )
}

pub proof fn lemma_split_entries(
    m: Ram,
    t: u64,
    i: int,
    f: u64,
    old_entry: u64,
    e: u64,
    u: u64,
    j: int,
)
    requires
        sound_frame(m, t),
        sound_frame(m, f),
        t != f,
        u % 4096 == 0,
        0 <= i < 512,
        0 <= j < 512,
    ensures
        paging::entry(split_linked(m, t, i, f, old_entry, e), u, j) == (if u == t && j
            == i {
            e
        } else if u == f {
            paging::split_entry(old_entry, j)
        } else {
            paging::entry(m, u, j)
        }),
        split_linked(m, t, i, f, old_entry, e).base == m.base,
        split_linked(m, t, i, f, old_entry, e).bytes.len() == m.bytes.len(),
{
    let z = m.zeroed(f as int, 4096);
    let g = |k: int| paging::split_entry(old_entry, k);
    let w = paging::set_entries(z, f, g, 512);
    if u != f {
        lemma_frames_disjoint(u, f);
    }
    crate::memory::ram::lemma_word_zeroed(m, f as int, 4096, u + 8 * j);
    lemma_set_entries(z, f, g, 512, u, j);
    if u == t && j == i {
        lemma_entry_same(w, t, i, e);
    } else {
        lemma_entry_frame(w, t, i, e, u, j);
    }
}

/// The 4 KB entry for `virt` of an aligned huge page maps `virt` as the huge page did.
proof fn lemma_split_entry(e: u64, virt: u64)
    requires
        paging::present(e),
        e & 0x1F_F000 == 0,
    ensures
        ({
            let s = paging::split_entry(
                e,
                paging::pt_index(virt),
            );
            &&& paging::present(s)
            &&& paging::target(s) | virt & 0xFFF == e & PTE_HUGE_ADDR_MASK | virt
                & 0x1F_FFFF
        }),
{
    let i: u64 = virt / 0x1000 % 512;
    paging::lemma_target_bound(e);
    let page: u64 = ((e & PTE_HUGE_ADDR_MASK) + i * 4096) as u64;
    assert(page == (e & 0x000F_FFFF_FFE0_0000) + i * 4096);
    assert(e & 0x1 != 0 && e & 0x1F_F000 == 0 && i == virt / 0x1000 % 512 && page == (e
        & 0x000F_FFFF_FFE0_0000) + i * 4096 ==> (page | (e & !0x000F_FFFF_FFE0_0000u64 & !0x80u64))
        & 0x1 != 0 && ((page | (e & !0x000F_FFFF_FFE0_0000u64 & !0x80u64))
        & 0x000F_FFFF_FFFF_F000) | (virt & 0xFFF) == (e & 0x000F_FFFF_FFE0_0000) | (virt
        & 0x1F_FFFF)) by (bit_vector);
}

/// Tables after a huge page is split: the new one is added, all others stay.
pub proof fn lemma_split_tables(
    m: Ram,
    root: u64,
    a: int,
    b: int,
    c: int,
    f: u64,
    e: u64,
    k: Node,
)
    requires
        tree(m, root),
        Node::Pt(a, b, c).valid(),
        table(m, root, Node::Pd(a, b)) is Some,
        paging::present(
            paging::entry(m, table(m, root, Node::Pd(a, b))->0, c),
        ),
        paging::huge(
            paging::entry(m, table(m, root, Node::Pd(a, b))->0, c),
        ),
        fresh(m, root, f),
        points_to(e, f),
        k.valid(),
    ensures
        ({
            let t = table(m, root, Node::Pd(a, b))->0;
            let m2 = split_linked(m, t, c, f, paging::entry(m, t, c), e);
            table(m2, root, k) == if k == Node::Pt(a, b, c) {
                Some(f)
            } else {
                table(m, root, k)
            }
        }),
{
    match k {
        Node::Pml4 => {},
        Node::Pdpt(x) => {
            lemma_split_step(m, root, a, b, c, f, e, Node::Pml4, x);
        },
        Node::Pd(x, y) => {
            lemma_split_step(m, root, a, b, c, f, e, Node::Pml4, x);
            lemma_split_step(m, root, a, b, c, f, e, Node::Pdpt(x), y);
        },
        Node::Pt(x, y, z) => {
            lemma_split_step(m, root, a, b, c, f, e, Node::Pml4, x);
            lemma_split_step(m, root, a, b, c, f, e, Node::Pdpt(x), y);
            lemma_split_step(m, root, a, b, c, f, e, Node::Pd(x, y), z);
        },
    }
}

/// Entries of the existing tables after a huge page is split.
proof fn lemma_split_step(
    m: Ram,
    root: u64,
    a: int,
    b: int,
    c: int,
    f: u64,
    e: u64,
    k: Node,
    j: int,
)
    requires
        tree(m, root),
        Node::Pt(a, b, c).valid(),
        table(m, root, Node::Pd(a, b)) is Some,
        fresh(m, root, f),
        k.valid(),
        0 <= j < 512,
    ensures
        ({
            let t = table(m, root, Node::Pd(a, b))->0;
            let m2 = split_linked(m, t, c, f, paging::entry(m, t, c), e);
            table(m, root, k) is Some ==> paging::entry(
                m2,
                table(m, root, k)->0,
                j,
            ) == (if k == Node::Pd(a, b) && j == c {
                e
            } else {
                paging::entry(m, table(m, root, k)->0, j)
            })
        }),
{
    reveal(tree);
    let n = Node::Pd(a, b);
    if table(m, root, k) is Some {
        let t = table(m, root, n)->0;
        let u = table(m, root, k)->0;
        assert(table(m, root, n) != Some(f));
        assert(table(m, root, k) != Some(f));
        if k != n {
            assert(table(m, root, n) != table(m, root, k));
        }
        lemma_split_entries(m, t, c, f, paging::entry(m, t, c), e, u, j);
    }
}

/// Splitting a huge page changes no translation.
proof fn lemma_split_translation(
    m: Ram,
    root: u64,
    a: int,
    b: int,
    c: int,
    f: u64,
    e: u64,
    virt: u64,
)
    requires
        tree(m, root),
        Node::Pt(a, b, c).valid(),
        table(m, root, Node::Pd(a, b)) is Some,
        paging::present(
            paging::entry(m, table(m, root, Node::Pd(a, b))->0, c),
        ),
        paging::huge(
            paging::entry(m, table(m, root, Node::Pd(a, b))->0, c),
        ),
        fresh(m, root, f),
        points_to(e, f),
    ensures
        ({
            let t = table(m, root, Node::Pd(a, b))->0;
            let m2 = split_linked(m, t, c, f, paging::entry(m, t, c), e);
            paging::translated(m2, root, virt) == paging::translated(
                m,
                root,
                virt,
            )
        }),
{
    let n = Node::Pd(a, b);
    let t = table(m, root, n)->0;
    let big = paging::entry(m, t, c);
    let x = paging::pml4_index(virt);
    let y = paging::pdpt_index(virt);
    let z = paging::pd_index(virt);
    let d = paging::pt_index(virt);
    assert(table(m, root, Node::Pml4) == Some(root));
    lemma_split_step(m, root, a, b, c, f, e, Node::Pml4, x);
    lemma_split_step(m, root, a, b, c, f, e, Node::Pdpt(x), y);
    lemma_split_step(m, root, a, b, c, f, e, Node::Pd(x, y), z);
    lemma_split_step(m, root, a, b, c, f, e, Node::Pt(x, y, z), d);
    if x == a && y == b && z == c {
        assert(sound_frame(m, t) && t != f && big & 0x1F_F000 == 0) by {
            reveal(tree);
            assert(table(m, root, n) != Some(f));
        }
        lemma_split_entries(m, t, c, f, big, e, f, d);
        lemma_split_entry(big, virt);
    }
}

/// Splitting a huge page into a fresh table keeps the tree a tree.
proof fn lemma_split_tree(m: Ram, root: u64, a: int, b: int, c: int, f: u64, e: u64)
    requires
        tree(m, root),
        Node::Pt(a, b, c).valid(),
        table(m, root, Node::Pd(a, b)) is Some,
        paging::present(
            paging::entry(m, table(m, root, Node::Pd(a, b))->0, c),
        ),
        paging::huge(
            paging::entry(m, table(m, root, Node::Pd(a, b))->0, c),
        ),
        fresh(m, root, f),
        points_to(e, f),
    ensures
        ({
            let t = table(m, root, Node::Pd(a, b))->0;
            let m2 = split_linked(m, t, c, f, paging::entry(m, t, c), e);
            tree(m2, root)
        }),
{
    let n = Node::Pd(a, b);
    let t = table(m, root, n)->0;
    let m2 = split_linked(m, t, c, f, paging::entry(m, t, c), e);
    assert(sound_frame(m, t) && t != f) by {
        reveal(tree);
        assert(table(m, root, n) != Some(f));
    }
    lemma_split_entries(m, t, c, f, paging::entry(m, t, c), e, t, c);
    assert forall|k: Node| k.valid() implies #[trigger] table(m2, root, k) == (if k == Node::Pt(
        a,
        b,
        c,
    ) {
        Some(f)
    } else {
        table(m, root, k)
    }) by {
        lemma_split_tables(m, root, a, b, c, f, e, k);
    }
    assert forall|k: Node, j: int|
        k.valid() && 0 <= j < 512 && (k is Pml4 || k is Pdpt || k is Pd) && table(m2, root, k) is Some
        implies (#[trigger] paging::entry(m2, table(m2, root, k)->0, j)) == (if k == n
        && j == c {
        e
    } else {
        paging::entry(m, table(m, root, k)->0, j)
    }) by {
        lemma_split_step(m, root, a, b, c, f, e, k, j);
    }
    assert forall|k: Node, l: Node|
        k.valid() && l.valid() && k != l && #[trigger] table(m2, root, k) is Some
            && #[trigger] table(m2, root, l) is Some implies table(m2, root, k) != table(
        m2,
        root,
        l,
    ) by {
        reveal(tree);
        if k == Node::Pt(a, b, c) {
            assert(table(m, root, l) != Some(f));
        } else if l == Node::Pt(a, b, c) {
            assert(table(m, root, k) != Some(f));
        } else {
            assert(table(m, root, k) != table(m, root, l));
        }
    }
    reveal(tree);
}

// ── Opening a table to users ─────────────────────────────────────────────────
/// Setting the user bit changes nothing else that the translation depends on.
proof fn lemma_user_bit(e: u64)
    ensures
        paging::present(e | PTE_USER) == paging::present(e),
        paging::huge(e | PTE_USER) == paging::huge(e),
        paging::target(e | PTE_USER) == paging::target(e),
{
    assert((e | 0x4) & 0x1 == e & 0x1 && (e | 0x4) & 0x80 == e & 0x80 && (e | 0x4)
        & 0x000F_FFFF_FFFF_F000 == e & 0x000F_FFFF_FFFF_F000) by (bit_vector);
}

/// Entries after the entry `i` of table `n` is set to `v`.
proof fn lemma_updated_step(m: Ram, root: u64, n: Node, i: int, v: u64, k: Node, j: int)
    requires
        tree(m, root),
        n.valid(),
        table(m, root, n) is Some,
        0 <= i < 512,
        k.valid(),
        0 <= j < 512,
    ensures
        table(m, root, k) is Some ==> paging::entry(
            paging::set_entry(m, table(m, root, n)->0, i, v),
            table(m, root, k)->0,
            j,
        ) == (if k == n && j == i {
            v
        } else {
            paging::entry(m, table(m, root, k)->0, j)
        }),
{
    reveal(tree);
    if table(m, root, k) is Some {
        let t = table(m, root, n)->0;
        let u = table(m, root, k)->0;
        if k != n {
            assert(table(m, root, n) != table(m, root, k));
        }
        if k == n && j == i {
            lemma_entry_same(m, t, i, v);
        } else {
            lemma_entry_frame(m, t, i, v, u, j);
        }
    }
}

/// Opening the table below entry `i` of table `n` to users keeps every table
/// and every translation.
proof fn lemma_opened(m: Ram, root: u64, n: Node, i: int)
    requires
        tree(m, root),
        n.valid(),
        !(n is Pt),
        table(m, root, n) is Some,
        0 <= i < 512,
        paging::present(
            paging::entry(m, table(m, root, n)->0, i),
        ),
        !paging::huge(paging::entry(m, table(m, root, n)->0, i)),
    ensures
        ({
            let t = table(m, root, n)->0;
            let m2 = paging::set_entry(
                m,
                t,
                i,
                paging::entry(m, t, i) | PTE_USER,
            );
            &&& tree(m2, root)
            &&& extended(m, m2, root, n)
            &&& forall|k: Node| k.valid() ==> #[trigger] table(m2, root, k) == table(m, root, k)
        }),
{
    let t = table(m, root, n)->0;
    let e = paging::entry(m, t, i);
    let v = e | PTE_USER;
    let m2 = paging::set_entry(m, t, i, v);
    lemma_user_bit(e);
    assert forall|k: Node| k.valid() implies #[trigger] table(m2, root, k) == table(m, root, k) by {
        match k {
            Node::Pml4 => {},
            Node::Pdpt(a) => {
                lemma_updated_step(m, root, n, i, v, Node::Pml4, a);
            },
            Node::Pd(a, b) => {
                lemma_updated_step(m, root, n, i, v, Node::Pml4, a);
                lemma_updated_step(m, root, n, i, v, Node::Pdpt(a), b);
            },
            Node::Pt(a, b, c) => {
                lemma_updated_step(m, root, n, i, v, Node::Pml4, a);
                lemma_updated_step(m, root, n, i, v, Node::Pdpt(a), b);
                lemma_updated_step(m, root, n, i, v, Node::Pd(a, b), c);
            },
        }
    }
    assert forall|k: Node, j: int|
        k.valid() && 0 <= j < 512 && table(m2, root, k) is Some implies (
    #[trigger] paging::entry(m2, table(m2, root, k)->0, j)) == (if k == n && j == i {
        v
    } else {
        paging::entry(m, table(m, root, k)->0, j)
    }) by {
        lemma_updated_step(m, root, n, i, v, k, j);
    }
    assert forall|virt: u64| #[trigger] paging::translated(m2, root, virt)
        == paging::translated(m, root, virt) by {
        let a = paging::pml4_index(virt);
        let b = paging::pdpt_index(virt);
        let c = paging::pd_index(virt);
        let d = paging::pt_index(virt);
        assert(table(m, root, Node::Pml4) == Some(root));
        lemma_updated_step(m, root, n, i, v, Node::Pml4, a);
        lemma_updated_step(m, root, n, i, v, Node::Pdpt(a), b);
        lemma_updated_step(m, root, n, i, v, Node::Pd(a, b), c);
        lemma_updated_step(m, root, n, i, v, Node::Pt(a, b, c), d);
    }
    assert(tree(m2, root)) by {
        reveal(tree);
        assert forall|k: Node, l: Node|
            k.valid() && l.valid() && k != l && #[trigger] table(m2, root, k) is Some
                && #[trigger] table(m2, root, l) is Some implies table(m2, root, k) != table(
            m2,
            root,
            l,
        ) by {
            assert(table(m, root, k) != table(m, root, l));
        }
    }
    reveal(extended);
}

// ── Mapping with the kernel's frames ─────────────────────────────────────────
/// The allocator may hand out the frame at `f`.
pub open spec fn in_free(fr: crate::memory::physical::Frames, f: u64) -> bool {
    exists|i: int|
        0 <= i < fr.free.len() && #[trigger] fr.free[i] && fr.addr(i) == f && f < fr.end
}

/// The frame at `f` may become a page table.
pub open spec fn spare(k: KernelSpace, f: u64) -> bool {
    k.pool.contains(f) || in_free(k.frames, f)
}

/// No frame is set aside twice.
pub open spec fn spares_distinct(k: KernelSpace) -> bool {
    &&& k.frames.free.len() == crate::memory::physical::MAX_TRACKED_FRAMES
    &&& k.frames.tags.len() == crate::memory::physical::MAX_TRACKED_FRAMES
    &&& k.frames.base + crate::memory::physical::MAX_TRACKED_FRAMES * 4096 <= u64::MAX
    &&& k.pool.no_duplicates()
    &&& forall|i: int| 0 <= i < k.pool.len() ==> !in_free(k.frames, #[trigger] k.pool[i])
}

/// The address space is a tree, and the frames set aside for page tables lie in
/// memory, are distinct and are none of its tables.
pub open spec fn kernel_ok(k: KernelSpace, root: u64) -> bool {
    &&& tree(k.ram, root)
    &&& spares_distinct(k)
    &&& forall|f: u64| #[trigger] spare(k, f) ==> fresh(k.ram, root, f)
}

/// Taking a frame for a page table: it was spare and is not any more.
pub proof fn lemma_take_pt(k: KernelSpace)
    requires
        spares_distinct(k),
        k.take_pt() is Some,
    ensures
        ({
            let (p, s) = k.take_pt()->0;
            &&& spare(k, p)
            &&& !spare(s, p)
            &&& s.ram == k.ram
            &&& spares_distinct(s)
            &&& forall|f: u64| #[trigger] spare(s, f) ==> spare(k, f)
        }),
{
    let (p, s) = k.take_pt()->0;
    if k.pool.len() > 0 {
        assert(k.pool[k.pool.len() - 1] == p);
        assert(k.pool.contains(p));
        assert(!s.pool.contains(p)) by {
            if s.pool.contains(p) {
                let j = s.pool.index_of(p);
                assert(k.pool[j] == k.pool[k.pool.len() - 1]);
            }
        }
        assert forall|f: u64| #[trigger] spare(s, f) implies spare(k, f) by {
            if s.pool.contains(f) {
                let j = s.pool.index_of(f);
                assert(k.pool[j] == f);
            }
        }
        assert forall|i: int| 0 <= i < s.pool.len() implies !in_free(
            s.frames,
            #[trigger] s.pool[i],
        ) by {
            assert(s.pool[i] == k.pool[i]);
        }
    } else {
        lemma_take_frame(k);
    }
}

/// Taking a frame from the allocator: it was free and is not any more.
pub proof fn lemma_take_frame(k: KernelSpace)
    requires
        k.take_frame() is Some,
        spares_distinct(k),
    ensures
        ({
            let (p, s) = k.take_frame()->0;
            &&& spare(k, p)
            &&& !spare(s, p)
            &&& s.ram == k.ram
            &&& spares_distinct(s)
            &&& forall|f: u64| #[trigger] spare(s, f) ==> spare(k, f)
        }),
{
    let (p, s) = k.take_frame()->0;
    let i = crate::memory::physical::lowest_free(k.frames.free, 0);
    crate::memory::physical::lemma_lowest_free(k.frames.free, 0);
    assert(k.frames.free[i]);
    assert(in_free(k.frames, p));
    assert(!in_free(s.frames, p)) by {
        if in_free(s.frames, p) {
            let j = choose|j: int|
                0 <= j < s.frames.free.len() && #[trigger] s.frames.free[j] && s.frames.addr(j) == p
                    && p < s.frames.end;
            assert(j == i);
        }
    }
    assert forall|f: u64| #[trigger] in_free(s.frames, f) implies in_free(k.frames, f) by {
        let j = choose|j: int|
            0 <= j < s.frames.free.len() && #[trigger] s.frames.free[j] && s.frames.addr(j) == f
                && f < s.frames.end;
        assert(k.frames.free[j]);
    }
    assert(!s.pool.contains(p)) by {
        if s.pool.contains(p) {
            let j = s.pool.index_of(p);
            assert(!in_free(k.frames, k.pool[j]));
        }
    }
    assert forall|i: int| 0 <= i < s.pool.len() implies !in_free(s.frames, #[trigger] s.pool[i]) by {
        assert(!in_free(k.frames, k.pool[i]));
    }
}

/// The table below entry `i` of table `n` after the kernel made it usable.
pub proof fn lemma_kernel_ensure(k: KernelSpace, root: u64, n: Node, i: int, user: u64)
    requires
        kernel_ok(k, root),
        n.valid(),
        !(n is Pt),
        table(k.ram, root, n) is Some,
        0 <= i < 512,
        user == 0 || user == PTE_USER,
    ensures
        kernel_ok(k.ensure(table(k.ram, root, n)->0, i, user).0, root),
        forall|virt: u64| #[trigger]
            paging::translated(
                k.ensure(table(k.ram, root, n)->0, i, user).0.ram,
                root,
                virt,
            ) == paging::translated(k.ram, root, virt),
        k.ensure(table(k.ram, root, n)->0, i, user).1 is Some ==> table(
            k.ensure(table(k.ram, root, n)->0, i, user).0.ram,
            root,
            n.child(i),
        ) == k.ensure(table(k.ram, root, n)->0, i, user).1,
{
    let t = table(k.ram, root, n)->0;
    let e = paging::entry(k.ram, t, i);
    let (k2, r) = k.ensure(t, i, user);
    if !paging::present(e) {
        lemma_child(k.ram, root, n, i);
        if k.take_pt() is Some {
            let (p, s) = k.take_pt()->0;
            lemma_take_pt(k);
            assert(fresh(k.ram, root, p));
            let e1 = paging::table_entry(p, user);
            lemma_table_entry(p, user);
            lemma_linked_extended(k.ram, root, n, i, p, e1);
            assert(k2.ram == linked(k.ram, t, i, p, e1));
            lemma_kernel_grown(k, k2, s, root, n.child(i), p);
            assert forall|virt: u64| #[trigger]
                paging::translated(k2.ram, root, virt)
                    == paging::translated(k.ram, root, virt) by {
                lemma_extended(k.ram, k2.ram, root, n, n, 0, virt);
            }
        }
    } else if paging::huge(e) {
        assert(n is Pd) by {
            reveal(tree);
        }
        if k.take_pt() is Some {
            let (p, s) = k.take_pt()->0;
            lemma_take_pt(k);
            assert(fresh(k.ram, root, p));
            let e1 = paging::table_entry(p, user);
            lemma_table_entry(p, user);
            let a = n->Pd_0;
            let b = n->Pd_1;
            assert(n == Node::Pd(a, b));
            lemma_split_tree(k.ram, root, a, b, i, p, e1);
            assert(k2.ram == split_linked(k.ram, t, i, p, e, e1));
            assert forall|x: Node| x.valid() implies #[trigger] table(k2.ram, root, x) == (if x
                == n.child(i) {
                Some(p)
            } else {
                table(k.ram, root, x)
            }) by {
                lemma_split_tables(k.ram, root, a, b, i, p, e1, x);
            }
            assert(sound_frame(k.ram, t) && t != p) by {
                reveal(tree);
                assert(table(k.ram, root, n) != Some(p));
            }
            lemma_split_entries(k.ram, t, i, p, e, e1, t, i);
            lemma_kernel_grown(k, k2, s, root, n.child(i), p);
            assert forall|virt: u64| #[trigger]
                paging::translated(k2.ram, root, virt)
                    == paging::translated(k.ram, root, virt) by {
                lemma_split_translation(k.ram, root, a, b, i, p, e1, virt);
            }
        }
    } else {
        lemma_child(k.ram, root, n, i);
        if user != 0 && e & PTE_USER == 0 {
            lemma_user_bit(e);
            lemma_opened(k.ram, root, n, i);
            assert forall|f: u64| #[trigger] spare(k2, f) implies fresh(k2.ram, root, f) by {
                assert(spare(k, f));
            }
            assert forall|virt: u64| #[trigger]
                paging::translated(k2.ram, root, virt)
                    == paging::translated(k.ram, root, virt) by {
                lemma_extended(k.ram, k2.ram, root, n, n, 0, virt);
            }
        }
    }
}

/// Tables after the kernel made a table usable are the old ones, or were spare.
pub proof fn lemma_ensured_tables(k: KernelSpace, root: u64, n: Node, i: int, user: u64)
    requires
        kernel_ok(k, root),
        n.valid(),
        !(n is Pt),
        table(k.ram, root, n) is Some,
        0 <= i < 512,
        user == 0 || user == PTE_USER,
    ensures
        ({
            let k2 = k.ensure(table(k.ram, root, n)->0, i, user).0;
            &&& k2.ram.base == k.ram.base
            &&& k2.ram.bytes.len() == k.ram.bytes.len()
            &&& forall|f: u64| #[trigger] spare(k2, f) ==> spare(k, f)
            &&& forall|x: Node|
                x.valid() && #[trigger] table(k2.ram, root, x) is Some ==> table(k2.ram, root, x)
                    == table(k.ram, root, x) || spare(k, table(k2.ram, root, x)->0)
        }),
{
    let t = table(k.ram, root, n)->0;
    let e = paging::entry(k.ram, t, i);
    let (k2, r) = k.ensure(t, i, user);
    if !paging::present(e) {
        lemma_child(k.ram, root, n, i);
        if k.take_pt() is Some {
            let (p, s) = k.take_pt()->0;
            lemma_take_pt(k);
            assert(fresh(k.ram, root, p));
            let e1 = paging::table_entry(p, user);
            lemma_table_entry(p, user);
            lemma_linked_extended(k.ram, root, n, i, p, e1);
            assert(k2.ram == linked(k.ram, t, i, p, e1));
            assert forall|f: u64| #[trigger] spare(k2, f) implies spare(k, f) by {
                assert(spare(s, f));
            }
        }
    } else if paging::huge(e) {
        assert(n is Pd) by {
            reveal(tree);
        }
        if k.take_pt() is Some {
            let (p, s) = k.take_pt()->0;
            lemma_take_pt(k);
            assert(fresh(k.ram, root, p));
            let e1 = paging::table_entry(p, user);
            lemma_table_entry(p, user);
            let a = n->Pd_0;
            let b = n->Pd_1;
            assert(k2.ram == split_linked(k.ram, t, i, p, e, e1));
            assert forall|x: Node| x.valid() implies #[trigger] table(k2.ram, root, x) == (if x
                == n.child(i) {
                Some(p)
            } else {
                table(k.ram, root, x)
            }) by {
                lemma_split_tables(k.ram, root, a, b, i, p, e1, x);
            }
            assert(sound_frame(k.ram, t) && t != p) by {
                reveal(tree);
                assert(table(k.ram, root, n) != Some(p));
            }
            lemma_split_entries(k.ram, t, i, p, e, e1, t, i);
            assert forall|f: u64| #[trigger] spare(k2, f) implies spare(k, f) by {
                assert(spare(s, f));
            }
        }
    } else if user != 0 && e & PTE_USER == 0 {
        lemma_child(k.ram, root, n, i);
        lemma_user_bit(e);
        lemma_opened(k.ram, root, n, i);
        assert forall|f: u64| #[trigger] spare(k2, f) implies spare(k, f) by {
            assert(k2.pool == k.pool && k2.frames == k.frames);
        }
    }
}

/// The entry leads to a table and is open to users.
pub open spec fn open_entry(e: u64) -> bool {
    paging::present(e) && !paging::huge(e) && e & PTE_USER != 0
}

/// Making a table usable moves no table and changes no entry but the one that
/// leads to it, and not that one either if it is open to users already. If it is
/// made usable for users, that entry is open to them.
pub proof fn lemma_ensured_entries(
    k: KernelSpace,
    root: u64,
    n: Node,
    i: int,
    user: u64,
    x: Node,
    j: int,
)
    requires
        kernel_ok(k, root),
        n.valid(),
        !(n is Pt),
        table(k.ram, root, n) is Some,
        0 <= i < 512,
        user == 0 || user == PTE_USER,
        x.valid(),
        table(k.ram, root, x) is Some,
        0 <= j < 512,
    ensures
        ({
            let t = table(k.ram, root, n)->0;
            let u = table(k.ram, root, x)->0;
            let (k2, r) = k.ensure(t, i, user);
            &&& table(k2.ram, root, x) == Some(u)
            &&& x != n || j != i || open_entry(paging::entry(k.ram, u, j)) ==> paging::entry(
                k2.ram,
                u,
                j,
            ) == paging::entry(k.ram, u, j)
            &&& r is Some && user != 0 ==> paging::entry(k2.ram, t, i) & 0x4 != 0
        }),
{
    let m = k.ram;
    let t = table(m, root, n)->0;
    let u = table(m, root, x)->0;
    let e = paging::entry(m, t, i);
    let (k2, r) = k.ensure(t, i, user);
    assert(sound_frame(m, t) && sound_frame(m, u) && (x != n ==> u != t)) by {
        reveal(tree);
        if x != n {
            assert(table(m, root, x) != table(m, root, n));
        }
    }
    if (!paging::present(e) || paging::huge(e)) && k.take_pt() is Some {
        let (p, s) = k.take_pt()->0;
        lemma_take_pt(k);
        assert(fresh(m, root, p));
        assert(table(m, root, n) != Some(p) && table(m, root, x) != Some(p));
        let e1 = paging::table_entry(p, user);
        lemma_table_entry(p, user);
        assert(user == 4 ==> ((p & 0x000F_FFFF_FFFF_F000) | 0x1 | 0x2 | user) & 0x4 != 0)
            by (bit_vector);
        if !paging::present(e) {
            lemma_child(m, root, n, i);
            lemma_linked_extended(m, root, n, i, p, e1);
            assert(k2.ram == linked(m, t, i, p, e1));
            lemma_linked_entries(m, t, i, p, e1, u, j);
            lemma_linked_entries(m, t, i, p, e1, t, i);
        } else {
            assert(n is Pd) by {
                reveal(tree);
            }
            let a = n->Pd_0;
            let b = n->Pd_1;
            assert(k2.ram == split_linked(m, t, i, p, e, e1));
            lemma_split_tables(m, root, a, b, i, p, e1, x);
            lemma_split_entries(m, t, i, p, e, e1, u, j);
            lemma_split_entries(m, t, i, p, e, e1, t, i);
        }
    } else if paging::present(e) && !paging::huge(e) && user != 0 && e & PTE_USER == 0 {
        lemma_opened(m, root, n, i);
        assert((e | 0x4) & 0x4 != 0) by (bit_vector);
        lemma_entry_same(m, t, i, e | PTE_USER);
        if x != n || j != i {
            lemma_entry_frame(m, t, i, e | PTE_USER, u, j);
        }
    }
}

/// After a spare frame became a table, the other spare frames are still fresh.
proof fn lemma_kernel_grown(
    k: KernelSpace,
    k2: KernelSpace,
    s: KernelSpace,
    root: u64,
    child: Node,
    p: u64,
)
    requires
        kernel_ok(k, root),
        child.valid(),
        tree(k2.ram, root),
        k2.frames == s.frames,
        k2.pool == s.pool,
        k2.ram.base == k.ram.base,
        k2.ram.bytes.len() == k.ram.bytes.len(),
        spares_distinct(s),
        !spare(s, p),
        forall|f: u64| #[trigger] spare(s, f) ==> spare(k, f),
        forall|x: Node|
            x.valid() ==> #[trigger] table(k2.ram, root, x) == (if x == child {
                Some(p)
            } else {
                table(k.ram, root, x)
            }),
    ensures
        kernel_ok(k2, root),
{
    assert forall|f: u64| #[trigger] spare(k2, f) implies fresh(k2.ram, root, f) by {
        assert(spare(s, f));
        assert(spare(k, f));
        assert(fresh(k.ram, root, f));
        assert(f != p);
    }
}

/// Mapping a page with the kernel's frames changes the translation of that page
/// and of no other, also where a huge page has to be split for it; if frames
/// run out, no translation changes.
///
/// The flags must say present and hold no address bits.
pub proof fn law_map_page_global_translates(
    k: KernelSpace,
    root: u64,
    virt: u64,
    phys: u64,
    flags: u64,
    other: u64,
)
    requires
        kernel_ok(k, root),
        flags & PTE_PRESENT != 0,
        flags & PTE_ADDR_MASK == 0,
    ensures
        ({
            let (k2, ok) = k.mapped(root, virt, phys, flags);
            &&& kernel_ok(k2, root)
            &&& paging::translated(k2.ram, root, other) == if ok && same_page(
                other,
                virt,
            ) {
                Some(phys & PTE_ADDR_MASK | other & 0xFFF)
            } else {
                paging::translated(k.ram, root, other)
            }
        }),
{
    let a = paging::pml4_index(virt);
    let b = paging::pdpt_index(virt);
    let c = paging::pd_index(virt);
    let d = paging::pt_index(virt);
    let user = flags & PTE_USER;
    lemma_user_access(flags);
    let (k3, t3) = k.ensure(root, a, user);
    lemma_kernel_ensure(k, root, Node::Pml4, a, user);
    if t3 is Some {
        let (k2, t2) = k3.ensure(t3->0, b, user);
        lemma_kernel_ensure(k3, root, Node::Pdpt(a), b, user);
        if t2 is Some {
            let (k1, t1) = k2.ensure(t2->0, c, user);
            lemma_kernel_ensure(k2, root, Node::Pd(a, b), c, user);
            if t1 is Some {
                let v = paging::page_entry(phys, flags);
                lemma_page_entry(phys, flags);
                lemma_leaf_write_translation(k1.ram, root, virt, v, other);
                lemma_leaf_write_tree(k1.ram, root, path(virt), d, v);
                let k0 = k.mapped(root, virt, phys, flags).0;
                assert forall|n: Node| n.valid() implies #[trigger] table(k0.ram, root, n) == table(
                    k1.ram,
                    root,
                    n,
                ) by {
                    lemma_leaf_write_tables(k1.ram, root, path(virt), d, v, n);
                }
                assert forall|f: u64| #[trigger] spare(k0, f) implies fresh(k0.ram, root, f) by {
                    assert(spare(k1, f));
                }
            }
        }
    }
}

/// Splitting a huge page changes no translation.
pub proof fn law_split_keeps_translations(k: KernelSpace, root: u64, virt: u64, other: u64)
    requires
        kernel_ok(k, root),
    ensures
        kernel_ok(k.split(root, virt).0, root),
        paging::translated(k.split(root, virt).0.ram, root, other)
            == paging::translated(k.ram, root, other),
        k.split(root, virt).1 ==> paging::last_table(
            k.split(root, virt).0.ram,
            root,
            virt,
        ) is Some,
{
    let a = paging::pml4_index(virt);
    let b = paging::pdpt_index(virt);
    let c = paging::pd_index(virt);
    let n = Node::Pd(a, b);
    let (k2, ok) = k.split(root, virt);
    assert(table(k2.ram, root, path(virt)) is Some ==> paging::last_table(
        k2.ram,
        root,
        virt,
    ) is Some);
    if table(k.ram, root, n) is Some {
        let t = table(k.ram, root, n)->0;
        let e = paging::entry(k.ram, t, c);
        if paging::present(e) && paging::huge(e) {
            lemma_kernel_ensure(k, root, n, c, 0);
            assert(k.ensure(t, c, 0).0 == k2);
        }
    }
}

/// Splitting a huge page leaves every page that is already mapped as a 4 KB
/// page alone.
pub proof fn lemma_split_keeps_pages(k: KernelSpace, root: u64, virt: u64, other: u64)
    requires
        kernel_ok(k, root),
        paging::last_table(k.ram, root, other) is Some,
    ensures
        ({
            let m2 = k.split(root, virt).0.ram;
            let t = paging::last_table(k.ram, root, other);
            let d = paging::pt_index(other);
            &&& paging::last_table(m2, root, other) == t
            &&& paging::entry(m2, t->0, d) == paging::entry(
                k.ram,
                t->0,
                d,
            )
        }),
{
    let a = paging::pml4_index(virt);
    let b = paging::pdpt_index(virt);
    let c = paging::pd_index(virt);
    let m = k.ram;
    let m2 = k.split(root, virt).0.ram;
    let u = paging::last_table(m, root, other)->0;
    let n = Node::Pd(a, b);
    assert(table(m, root, path(other)) == Some(u));
    assert(table(m2, root, path(other)) == paging::last_table(m2, root, other));
    if table(m, root, n) is Some {
        let t = table(m, root, n)->0;
        let e = paging::entry(m, t, c);
        if paging::present(e) && paging::huge(e) && k.take_pt() is Some {
            let (p, s) = k.take_pt()->0;
            lemma_take_pt(k);
            assert(fresh(m, root, p));
            let e1 = paging::table_entry(p, 0);
            lemma_table_entry(p, 0);
            assert(m2 == split_linked(m, t, c, p, e, e1));
            lemma_split_tables(m, root, a, b, c, p, e1, path(other));
            reveal(tree);
            assert(table(m, root, n) != table(m, root, path(other)));
            assert(table(m, root, n) != Some(p));
            assert(table(m, root, path(other)) != Some(p));
            lemma_split_entries(m, t, c, p, e, e1, u, paging::pt_index(other));
        }
    }
}

// ── Identity-mapped regions ──────────────────────────────────────────────────
/// `a` and `b` lie on the same huge page of the 48-bit address space.
pub open spec fn same_huge_page(a: u64, b: u64) -> bool {
    path(a) == path(b)
}

/// The tables map nothing at all onto the huge page of `virt`.
pub open spec fn huge_page_free(m: Ram, root: u64, virt: u64) -> bool {
    let pd = table(m, root, Node::Pd(paging::pml4_index(virt), paging::pdpt_index(virt)));
    pd is Some ==> !paging::present(paging::entry(m, pd->0, paging::pd_index(virt)))
}

/// The entry for the huge page at `addr`.
pub proof fn lemma_huge_entry(addr: u64, flags: u64)
    requires
        addr % 0x20_0000 == 0,
        addr <= PTE_HUGE_ADDR_MASK,
        flags & PTE_PRESENT != 0,
        flags & PTE_ADDR_MASK == 0,
    ensures
        ({
            let v = addr & PTE_HUGE_ADDR_MASK | flags | PTE_HUGE_PAGE;
            &&& paging::present(v)
            &&& paging::huge(v)
            &&& v & 0x1F_F000 == 0
            &&& v & PTE_HUGE_ADDR_MASK == addr
        }),
{
    assert({
        let v = addr & 0x000F_FFFF_FFE0_0000 | flags | 0x80;
        v & 0x1 != 0 && v & 0x80 != 0 && v & 0x1F_F000 == 0 && v & 0x000F_FFFF_FFE0_0000 == addr
    }) by (bit_vector)
        requires
            addr % 0x20_0000 == 0,
            addr <= 0x000F_FFFF_FFE0_0000,
            flags & 0x1 != 0,
            flags & 0x000F_FFFF_FFFF_F000 == 0,
    ;
}

/// Writing an absent entry of a PD as a huge page keeps the tree and its tables,
/// and maps exactly the addresses of that huge page.
pub proof fn lemma_huge_written(m: Ram, root: u64, addr: u64, v: u64, virt: u64)
    requires
        tree(m, root),
        table(m, root, Node::Pd(paging::pml4_index(addr), paging::pdpt_index(addr))) is Some,
        huge_page_free(m, root, addr),
        paging::present(v),
        paging::huge(v),
        v & 0x1F_F000 == 0,
    ensures
        ({
            let n = Node::Pd(paging::pml4_index(addr), paging::pdpt_index(addr));
            let m2 = paging::set_entry(m, table(m, root, n)->0, paging::pd_index(addr), v);
            &&& tree(m2, root)
            &&& forall|k: Node| k.valid() ==> #[trigger] table(m2, root, k) == table(m, root, k)
            &&& paging::translated(m2, root, virt) == if same_huge_page(virt, addr) {
                Some(v & PTE_HUGE_ADDR_MASK | virt & 0x1F_FFFF)
            } else {
                paging::translated(m, root, virt)
            }
            &&& !same_huge_page(virt, addr) ==> huge_page_free(m2, root, virt) == huge_page_free(
                m,
                root,
                virt,
            )
        }),
{
    let n = Node::Pd(paging::pml4_index(addr), paging::pdpt_index(addr));
    let i = paging::pd_index(addr);
    let t = table(m, root, n)->0;
    let m2 = paging::set_entry(m, t, i, v);
    assert forall|k: Node| k.valid() implies #[trigger] table(m2, root, k) == table(m, root, k) by {
        match k {
            Node::Pml4 => {},
            Node::Pdpt(a) => {
                lemma_updated_step(m, root, n, i, v, Node::Pml4, a);
            },
            Node::Pd(a, b) => {
                lemma_updated_step(m, root, n, i, v, Node::Pml4, a);
                lemma_updated_step(m, root, n, i, v, Node::Pdpt(a), b);
            },
            Node::Pt(a, b, c) => {
                lemma_updated_step(m, root, n, i, v, Node::Pml4, a);
                lemma_updated_step(m, root, n, i, v, Node::Pdpt(a), b);
                lemma_updated_step(m, root, n, i, v, Node::Pd(a, b), c);
            },
        }
    }
    assert(tree(m2, root)) by {
        reveal(tree);
        assert forall|k: Node, l: Node|
            k.valid() && l.valid() && k != l && #[trigger] table(m2, root, k) is Some
                && #[trigger] table(m2, root, l) is Some implies table(m2, root, k) != table(
            m2,
            root,
            l,
        ) by {
            assert(table(m, root, k) != table(m, root, l));
        }
        assert forall|k: Node, j: int|
            k.valid() && 0 <= j < 512 && table(m2, root, k) is Some implies (
        #[trigger] paging::entry(m2, table(m2, root, k)->0, j)) == if k == n && j == i {
            v
        } else {
            paging::entry(m, table(m, root, k)->0, j)
        } by {
            lemma_updated_step(m, root, n, i, v, k, j);
        }
    }
    let a = paging::pml4_index(virt);
    let b = paging::pdpt_index(virt);
    let c = paging::pd_index(virt);
    lemma_updated_step(m, root, n, i, v, Node::Pml4, a);
    lemma_updated_step(m, root, n, i, v, Node::Pdpt(a), b);
    lemma_updated_step(m, root, n, i, v, Node::Pd(a, b), c);
    lemma_updated_step(m, root, n, i, v, path(virt), paging::pt_index(virt));
}

/// Mapping one huge page to itself: its addresses map to themselves if nothing
/// was mapped there, and every other address keeps its translation.
proof fn lemma_huge_mapped(s: BumpSpace, root: u64, addr: u64, flags: u64, virt: u64)
    requires
        bump_ok(s, root),
        addr % 0x20_0000 == 0,
        addr <= PTE_HUGE_ADDR_MASK,
        flags & PTE_PRESENT != 0,
        flags & PTE_ADDR_MASK == 0,
    ensures
        ({
            let (s2, ok) = s.huge_mapped(root, addr, flags);
            &&& bump_ok(s2, root)
            &&& paging::translated(s2.ram, root, virt) == if ok && same_huge_page(virt, addr)
                && huge_page_free(s.ram, root, virt) {
                Some(addr | virt & 0x1F_FFFF)
            } else {
                paging::translated(s.ram, root, virt)
            }
            &&& !ok || !same_huge_page(virt, addr) ==> huge_page_free(s2.ram, root, virt)
                == huge_page_free(s.ram, root, virt)
        }),
{
    let a = paging::pml4_index(addr);
    let b = paging::pdpt_index(addr);
    let c = paging::pd_index(addr);
    let va = paging::pml4_index(virt);
    let vb = paging::pdpt_index(virt);
    let vc = paging::pd_index(virt);
    let vpd = Node::Pd(va, vb);
    let pd = Node::Pd(a, b);
    let (s3, t3) = s.ensure(root, a);
    lemma_zero_entry();
    lemma_pml4_not_huge(s.ram, root, Node::Pml4, a);
    lemma_bump_ensure(s, root, Node::Pml4, a);
    lemma_extended(s.ram, s3.ram, root, Node::Pml4, vpd, vc, virt);
    lemma_extended(s.ram, s3.ram, root, Node::Pml4, pd, c, virt);
    assert(huge_page_free(s3.ram, root, virt) == huge_page_free(s.ram, root, virt));
    if t3 is Some {
        let (s2, t2) = s3.ensure(t3->0, b);
        lemma_pml4_not_huge(s3.ram, root, Node::Pdpt(a), b);
        lemma_bump_ensure(s3, root, Node::Pdpt(a), b);
        lemma_extended(s3.ram, s2.ram, root, Node::Pdpt(a), vpd, vc, virt);
        lemma_extended(s3.ram, s2.ram, root, Node::Pdpt(a), pd, c, virt);
        assert(huge_page_free(s2.ram, root, virt) == huge_page_free(s.ram, root, virt));
        if t2 is Some && !paging::present(paging::entry(s2.ram, t2->0, c)) {
            let v = addr & PTE_HUGE_ADDR_MASK | flags | PTE_HUGE_PAGE;
            lemma_huge_entry(addr, flags);
            lemma_huge_written(s2.ram, root, addr, v, virt);
        }
    }
}

/// Huge pages whose numbers differ within the 48-bit address space are distinct.
proof fn lemma_distinct_huge_pages(a: u64, b: u64)
    requires
        a < 0x1_0000_0000_0000,
        b < 0x1_0000_0000_0000,
    ensures
        same_huge_page(a, b) == (a / 0x20_0000 == b / 0x20_0000),
{
    let x = (a / 0x20_0000) as int;
    let y = (b / 0x20_0000) as int;
    assert(a / 0x4000_0000 == x / 512);
    assert(a / 0x80_0000_0000 == x / 512 / 512);
    assert(b / 0x4000_0000 == y / 512);
    assert(b / 0x80_0000_0000 == y / 512 / 512);
}

/// What mapping huge pages to themselves does to `virt`, which lies on one of
/// them if `inside` is set. `ok` tells whether all of them could be mapped.
#[verifier::opaque]
pub open spec fn region_done(
    s: BumpSpace,
    t: BumpSpace,
    root: u64,
    virt: u64,
    inside: bool,
    ok: bool,
) -> bool {
    let free = huge_page_free(s.ram, root, virt);
    let before = paging::translated(s.ram, root, virt);
    let after = paging::translated(t.ram, root, virt);
    &&& bump_ok(t, root)
    &&& ok && inside && free ==> after == Some(virt)
    &&& !inside || !free ==> after == before
    &&& !inside || !free ==> huge_page_free(t.ram, root, virt) == free
    &&& free && !huge_page_free(t.ram, root, virt) ==> after == Some(virt)
}

/// Mapping one more huge page to itself.
proof fn lemma_region_step(
    s: BumpSpace,
    t: BumpSpace,
    root: u64,
    page: u64,
    flags: u64,
    virt: u64,
    inside: bool,
)
    requires
        region_done(s, t, root, virt, inside, true),
        page % 0x20_0000 == 0,
        page < 0x1_0000_0000_0000,
        flags & PTE_PRESENT != 0,
        flags & PTE_ADDR_MASK == 0,
        virt < 0x1_0000_0000_0000,
        !(inside && page <= virt < page + 0x20_0000),
    ensures
        region_done(
            s,
            t.huge_mapped(root, page, flags).0,
            root,
            virt,
            inside || page <= virt < page + 0x20_0000,
            t.huge_mapped(root, page, flags).1,
        ),
{
    reveal(region_done);
    lemma_huge_mapped(t, root, page, flags, virt);
    lemma_distinct_huge_pages(virt, page);
    if !huge_page_free(t.ram, root, virt) {
        lemma_stays_taken(t, root, page, flags, virt);
    }
    if page <= virt < page + 0x20_0000 {
        assert(page | virt & 0x1F_FFFF == virt) by (bit_vector)
            requires
                page % 0x20_0000 == 0,
                page <= virt,
                virt - page < 0x20_0000,
        ;
    }
}

/// Mapping the first `n` huge pages from `addr` on to themselves.
pub proof fn lemma_region_mapped(s: BumpSpace, root: u64, addr: u64, n: nat, flags: u64, virt: u64)
    requires
        bump_ok(s, root),
        addr % 0x20_0000 == 0,
        addr + n * 0x20_0000 <= 0x1_0000_0000_0000,
        flags & PTE_PRESENT != 0,
        flags & PTE_ADDR_MASK == 0,
        virt < 0x1_0000_0000_0000,
    ensures
        ({
            let (s2, ok) = s.region_mapped(root, addr, n, flags);
            region_done(s, s2, root, virt, addr <= virt < addr + n * 0x20_0000, ok)
        }),
    decreases n,
{
    if n == 0 {
        reveal(region_done);
    } else {
        let (t, ok) = s.region_mapped(root, addr, (n - 1) as nat, flags);
        let page = (addr + (n - 1) * 0x20_0000) as u64;
        let inside = addr <= virt < addr + (n - 1) * 0x20_0000;
        lemma_region_mapped(s, root, addr, (n - 1) as nat, flags, virt);
        if ok {
            lemma_region_step(s, t, root, page, flags, virt, inside);
        } else {
            lemma_region_stopped(s, t, root, virt, inside, addr <= virt < addr + n * 0x20_0000);
        }
    }
}

/// Where frames ran out, nothing is claimed of the huge pages that follow.
proof fn lemma_region_stopped(
    s: BumpSpace,
    t: BumpSpace,
    root: u64,
    virt: u64,
    inside: bool,
    wider: bool,
)
    requires
        region_done(s, t, root, virt, inside, false),
        inside ==> wider,
    ensures
        region_done(s, t, root, virt, wider, false),
{
    reveal(region_done);
}

/// A huge page that something is mapped onto is not free afterwards either.
proof fn lemma_stays_taken(s: BumpSpace, root: u64, addr: u64, flags: u64, virt: u64)
    requires
        bump_ok(s, root),
        addr % 0x20_0000 == 0,
        addr <= PTE_HUGE_ADDR_MASK,
        flags & PTE_PRESENT != 0,
        flags & PTE_ADDR_MASK == 0,
        !huge_page_free(s.ram, root, virt),
    ensures
        !huge_page_free(s.huge_mapped(root, addr, flags).0.ram, root, virt),
{
    if !same_huge_page(virt, addr) {
        lemma_huge_mapped(s, root, addr, flags, virt);
    } else {
        let a = paging::pml4_index(addr);
        let b = paging::pdpt_index(addr);
        let c = paging::pd_index(addr);
        let pd = Node::Pd(a, b);
        let (s3, t3) = s.ensure(root, a);
        lemma_pml4_not_huge(s.ram, root, Node::Pml4, a);
        lemma_bump_ensure(s, root, Node::Pml4, a);
        lemma_extended(s.ram, s3.ram, root, Node::Pml4, pd, c, virt);
        if t3 is Some {
            let (s2, t2) = s3.ensure(t3->0, b);
            lemma_pml4_not_huge(s3.ram, root, Node::Pdpt(a), b);
            lemma_bump_ensure(s3, root, Node::Pdpt(a), b);
            lemma_extended(s3.ram, s2.ram, root, Node::Pdpt(a), pd, c, virt);
        }
    }
}

/// After a region is mapped to itself, every address of it that had no mapping
/// translates to itself, unless frames for tables ran out. Addresses that had a
/// mapping, or lie on none of the region's huge pages, translate as before.
///
/// The region lies in the 48-bit address space.
pub proof fn law_region_is_mapped_to_itself(
    s: BumpSpace,
    root: u64,
    phys_base: u64,
    size: u64,
    flags: u64,
    virt: u64,
)
    requires
        bump_ok(s, root),
        phys_base + size <= 0x1_0000_0000_0000,
        flags & PTE_PRESENT != 0,
        flags & PTE_ADDR_MASK == 0,
        virt < 0x1_0000_0000_0000,
    ensures
        ({
            let start = (phys_base - phys_base % 0x20_0000) as u64;
            let pages = paging::region_pages(phys_base, size);
            let (s2, ok) = s.region_mapped(root, start, pages as nat, flags);
            let free = huge_page_free(s.ram, root, virt);
            &&& bump_ok(s2, root)
            &&& ok && phys_base <= virt < phys_base + size && free ==> paging::translated(
                s2.ram,
                root,
                virt,
            ) == Some(virt)
            &&& !free || virt < start || start + pages * 0x20_0000 <= virt ==> paging::translated(
                s2.ram,
                root,
                virt,
            ) == paging::translated(s.ram, root, virt)
        }),
{
    let start = (phys_base - phys_base % 0x20_0000) as u64;
    let pages = paging::region_pages(phys_base, size);
    lemma_region_bounds(phys_base, size);
    lemma_region_mapped(s, root, start, pages as nat, flags, virt);
    reveal(region_done);
}

/// The huge pages of a region cover it and end in the 48-bit address space.
pub proof fn lemma_region_bounds(phys_base: u64, size: u64)
    requires
        phys_base + size <= 0x1_0000_0000_0000,
    ensures
        ({
            let start = phys_base - phys_base % 0x20_0000;
            let pages = paging::region_pages(phys_base, size);
            &&& 0 <= pages
            &&& start % 0x20_0000 == 0
            &&& phys_base + size <= start + pages * 0x20_0000 <= 0x1_0000_0000_0000
        }),
{
}

} // verus!
