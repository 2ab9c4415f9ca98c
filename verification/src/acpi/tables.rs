//! Root pointer, root tables and what all tables have in common.

use vstd::prelude::*;

use crate::memory::ram::{PhysMemory, Ram};

verus! {

/// Bytes of the header that all tables share.
pub const SDT_HEADER_LEN: u64 = 36;

/// Offset of the table length.
pub const SDT_OFF_LENGTH: u64 = 4;

pub const RSDP_OFF_REVISION: u64 = 15;

pub const RSDP_OFF_RSDT_ADDR: u64 = 16;

/// Bytes that the first checksum of the root pointer covers.
pub const RSDP_V1_LEN: u64 = 20;

pub const RSDP_OFF_XSDT_ADDR: u64 = 24;

/// Bytes that the extended checksum of the root pointer covers.
pub const RSDP_V2_LEN: u64 = 36;

// ── Fields and checksums ─────────────────────────────────────────────────────
/// Sum of the `n` bytes at `base`.
pub open spec fn byte_sum(m: Ram, base: int, n: nat) -> nat
    decreases n,
{
    if n == 0 {
        0
    } else {
        byte_sum(m, base, (n - 1) as nat) + m.byte(base + n - 1) as nat
    }
}

/// The `n` bytes at `base` sum up to zero modulo 256.
pub open spec fn checksum_ok(m: Ram, base: int, n: nat) -> bool {
    byte_sum(m, base, n) % 256 == 0
}

/// The four bytes at `base`.
pub open spec fn signature(m: Ram, base: int) -> Seq<u8> {
    seq![m.byte(base), m.byte(base + 1), m.byte(base + 2), m.byte(base + 3)]
}

/// A table of at least `min_len` bytes with signature `sig` and a valid
/// checksum is at `phys`.
pub open spec fn valid_table(m: Ram, phys: u64, sig: Seq<u8>, min_len: int) -> bool {
    &&& phys != 0
    &&& signature(m, phys as int) == sig
    &&& m.word32(phys + 4) >= min_len
    &&& checksum_ok(m, phys as int, m.word32(phys + 4) as nat)
}

/// Byte at offset `off` of the table at `base`.
pub fn byte_at(mem: &PhysMemory, base: u64, off: u64) -> (r: u8)
    requires
        mem.wf(),
    ensures
        r == mem@.byte(base + off),
{
    if off > u64::MAX - base {
        return 0;
    }
    mem.read_u8(base + off)
}

/// 16-bit word at offset `off` of the table at `base`.
pub fn u16_at(mem: &PhysMemory, base: u64, off: u64) -> (r: u16)
    requires
        mem.wf(),
    ensures
        r == mem@.word16(base + off),
{
    if off > u64::MAX - base {
        return 0;
    }
    mem.read_u16(base + off)
}

/// 32-bit word at offset `off` of the table at `base`.
pub fn u32_at(mem: &PhysMemory, base: u64, off: u64) -> (r: u32)
    requires
        mem.wf(),
    ensures
        r == mem@.word32(base + off),
{
    if off > u64::MAX - base {
        return 0;
    }
    mem.read_u32(base + off)
}

/// 64-bit word at offset `off` of the table at `base`.
pub fn u64_at(mem: &PhysMemory, base: u64, off: u64) -> (r: u64)
    requires
        mem.wf(),
    ensures
        r == mem@.word(base + off),
{
    if off > u64::MAX - base {
        return 0;
    }
    mem.read_u64(base + off)
}

/// Whether the `len` bytes at `base` sum up to zero modulo 256.
pub fn checksum_valid(mem: &PhysMemory, base: u64, len: u64) -> (r: bool)
    requires
        mem.wf(),
    ensures
        r == checksum_ok(mem@, base as int, len as nat),
{
    let mut sum: u8 = 0;
    let mut i: u64 = 0;
    while i < len
        invariant
            mem.wf(),
            i <= len,
            sum as nat == byte_sum(mem@, base as int, i as nat) % 256,
        decreases len - i,
    {
        sum = sum.wrapping_add(byte_at(mem, base, i));
        i = i + 1;
    }
    sum == 0
}

/// Whether the four bytes at `base` are `sig`.
pub fn has_signature(mem: &PhysMemory, base: u64, sig: &[u8; 4]) -> (r: bool)
    requires
        mem.wf(),
    ensures
        r == (signature(mem@, base as int) == sig@),
{
    let r: bool = byte_at(mem, base, 0) == sig[0] && byte_at(mem, base, 1) == sig[1] && byte_at(
        mem,
        base,
        2,
    ) == sig[2] && byte_at(mem, base, 3) == sig[3];
    proof {
        let s = signature(mem@, base as int);
        if r {
            assert(s =~= sig@);
        } else {
            assert(s[0] != sig@[0] || s[1] != sig@[1] || s[2] != sig@[2] || s[3] != sig@[3]);
        }
    }
    r
}

/// Length of the table at `phys` if `valid_table` holds of it.
pub fn table_len(mem: &PhysMemory, phys: u64, sig: &[u8; 4], min_len: u32) -> (r: Option<u32>)
    requires
        mem.wf(),
    ensures
        r == (if valid_table(mem@, phys, sig@, min_len as int) {
            Some(mem@.word32(phys + 4))
        } else {
            None
        }),
{
    if phys == 0 || !has_signature(mem, phys, sig) {
        return None;
    }
    let len: u32 = u32_at(mem, phys, SDT_OFF_LENGTH);
    if len < min_len || !checksum_valid(mem, phys, len as u64) {
        return None;
    }
    Some(len)
}

// ── Root tables ──────────────────────────────────────────────────────────────
/// Entry `i` of the root table at `root`, whose entries have `size` bytes.
pub open spec fn root_entry_at(m: Ram, root: u64, size: int, i: int) -> u64 {
    if size == 8 {
        m.word(root + SDT_HEADER_LEN + i * 8)
    } else {
        m.word32(root + SDT_HEADER_LEN + i * 4) as u64
    }
}

/// The first table from entry `i` on with signature `sig`.
pub open spec fn scan(m: Ram, root: u64, size: int, count: int, sig: Seq<u8>, i: int) -> Option<u64>
    decreases count - i,
{
    if i >= count {
        None
    } else {
        let child = root_entry_at(m, root, size, i);
        if child != 0 && signature(m, child as int) == sig {
            Some(child)
        } else {
            scan(m, root, size, count, sig, i + 1)
        }
    }
}

/// The first table with signature `sig` that the root table at `root` lists.
pub open spec fn listed(m: Ram, root: u64, size: int, sig: Seq<u8>) -> Option<u64> {
    let len = m.word32(root + 4);
    if len < SDT_HEADER_LEN || !checksum_ok(m, root as int, len as nat) {
        None
    } else {
        scan(m, root, size, (len - SDT_HEADER_LEN) / size, sig, 0)
    }
}

/// Bytes of the root pointer's signature.
pub open spec fn rsdp_signature() -> Seq<u8> {
    seq![0x52u8, 0x53u8, 0x44u8, 0x20u8, 0x50u8, 0x54u8, 0x52u8, 0x20u8]
}

/// The table with signature `sig` that the root pointer at `rsdp` leads to:
/// through the 64-bit root table if the pointer has a valid extension, else
/// through the 32-bit one.
pub open spec fn located(m: Ram, rsdp: u64, sig: Seq<u8>) -> Option<u64> {
    if rsdp == 0 || signature(m, rsdp as int) + signature(m, rsdp + 4) != rsdp_signature()
        || !checksum_ok(m, rsdp as int, 20) {
        None
    } else {
        let xsdt = m.word(rsdp + 24);
        let rsdt = m.word32(rsdp + 16) as u64;
        let extended = m.byte(rsdp + 15) >= 2 && checksum_ok(m, rsdp as int, 36) && xsdt != 0;
        if extended && listed(m, xsdt, 8, sig) is Some {
            listed(m, xsdt, 8, sig)
        } else if rsdt != 0 {
            listed(m, rsdt, 4, sig)
        } else {
            None
        }
    }
}

/// The first table with signature `sig` in the 64-bit root table at `xsdt_phys`.
fn find_table_via_xsdt(mem: &PhysMemory, xsdt_phys: u64, sig: &[u8; 4]) -> (r: Option<u64>)
    requires
        mem.wf(),
    ensures
        r == listed(mem@, xsdt_phys, 8, sig@),
{
    let len: u64 = u32_at(mem, xsdt_phys, SDT_OFF_LENGTH) as u64;
    if len < SDT_HEADER_LEN || !checksum_valid(mem, xsdt_phys, len) {
        return None;
    }
    let count: u64 = (len - SDT_HEADER_LEN) / 8;
    let mut i: u64 = 0;
    while i < count
        invariant
            mem.wf(),
            i <= count,
            count <= u32::MAX,
            listed(mem@, xsdt_phys, 8, sig@) == scan(
                mem@,
                xsdt_phys,
                8,
                count as int,
                sig@,
                i as int,
            ),
        decreases count - i,
    {
        let child: u64 = u64_at(mem, xsdt_phys, SDT_HEADER_LEN + i * 8);
        if child != 0 && has_signature(mem, child, sig) {
            return Some(child);
        }
        i = i + 1;
    }
    None
}

/// The first table with signature `sig` in the 32-bit root table at `rsdt_phys`.
fn find_table_via_rsdt(mem: &PhysMemory, rsdt_phys: u64, sig: &[u8; 4]) -> (r: Option<u64>)
    requires
        mem.wf(),
    ensures
        r == listed(mem@, rsdt_phys, 4, sig@),
{
    let len: u64 = u32_at(mem, rsdt_phys, SDT_OFF_LENGTH) as u64;
    if len < SDT_HEADER_LEN || !checksum_valid(mem, rsdt_phys, len) {
        return None;
    }
    let count: u64 = (len - SDT_HEADER_LEN) / 4;
    let mut i: u64 = 0;
    while i < count
        invariant
            mem.wf(),
            i <= count,
            count <= u32::MAX,
            listed(mem@, rsdt_phys, 4, sig@) == scan(
                mem@,
                rsdt_phys,
                4,
                count as int,
                sig@,
                i as int,
            ),
        decreases count - i,
    {
        let child: u64 = u32_at(mem, rsdt_phys, SDT_HEADER_LEN + i * 4) as u64;
        if child != 0 && has_signature(mem, child, sig) {
            return Some(child);
        }
        i = i + 1;
    }
    None
}

/// The table with signature `sig` that the root pointer at `rsdp_phys` leads to.
pub fn find_table(mem: &PhysMemory, rsdp_phys: u64, sig: &[u8; 4]) -> (r: Option<u64>)
    requires
        mem.wf(),
    ensures
        r == located(mem@, rsdp_phys, sig@),
{
    if rsdp_phys == 0 {
        return None;
    }
    let first: [u8; 4] = [0x52, 0x53, 0x44, 0x20];
    let second: [u8; 4] = [0x50, 0x54, 0x52, 0x20];
    let ghost head = signature(mem@, rsdp_phys as int);
    let ghost tail = signature(mem@, rsdp_phys + 4);
    proof {
        if head + tail == rsdp_signature() {
            assert(head =~= (head + tail).take(4));
            assert(tail =~= (head + tail).skip(4));
            assert(head =~= first@);
            assert(tail =~= second@);
        }
        if head == first@ && tail == second@ {
            assert(head + tail =~= rsdp_signature());
        }
    }
    if !has_signature(mem, rsdp_phys, &first) {
        return None;
    }
    if rsdp_phys > u64::MAX - 4 {
        proof {
            assert(tail[0] == 0);
        }
        return None;
    }
    if !has_signature(mem, rsdp_phys + 4, &second) || !checksum_valid(
        mem,
        rsdp_phys,
        RSDP_V1_LEN,
    ) {
        return None;
    }
    if byte_at(mem, rsdp_phys, RSDP_OFF_REVISION) >= 2 && checksum_valid(
        mem,
        rsdp_phys,
        RSDP_V2_LEN,
    ) {
        let xsdt: u64 = u64_at(mem, rsdp_phys, RSDP_OFF_XSDT_ADDR);
        if xsdt != 0 {
            let found = find_table_via_xsdt(mem, xsdt, sig);
            if found.is_some() {
                return found;
            }
        }
    }
    let rsdt: u64 = u32_at(mem, rsdp_phys, RSDP_OFF_RSDT_ADDR) as u64;
    if rsdt != 0 {
        return find_table_via_rsdt(mem, rsdt, sig);
    }
    None
}

/// Signature of the table of interrupt controllers (MADT): "APIC".
pub open spec fn sig_apic() -> Seq<u8> {
    seq![0x41u8, 0x50u8, 0x49u8, 0x43u8]
}

/// Signature of the fixed description table (FADT): "FACP".
pub open spec fn sig_facp() -> Seq<u8> {
    seq![0x46u8, 0x41u8, 0x43u8, 0x50u8]
}

/// Signature of the table of IOMMUs: "DMAR".
pub open spec fn sig_dmar() -> Seq<u8> {
    seq![0x44u8, 0x4Du8, 0x41u8, 0x52u8]
}

/// Signature of the timer table: "HPET".
pub open spec fn sig_hpet() -> Seq<u8> {
    seq![0x48u8, 0x50u8, 0x45u8, 0x54u8]
}

/// Address of the table of interrupt controllers.
pub fn find_madt(mem: &PhysMemory, rsdp_phys: u64) -> (r: Option<u64>)
    requires
        mem.wf(),
    ensures
        r == located(mem@, rsdp_phys, sig_apic()),
{
    let sig: [u8; 4] = [0x41, 0x50, 0x49, 0x43];
    assert(sig@ =~= sig_apic());
    find_table(mem, rsdp_phys, &sig)
}

/// Address of the fixed description table.
pub fn find_fadt(mem: &PhysMemory, rsdp_phys: u64) -> (r: Option<u64>)
    requires
        mem.wf(),
    ensures
        r == located(mem@, rsdp_phys, sig_facp()),
{
    let sig: [u8; 4] = [0x46, 0x41, 0x43, 0x50];
    assert(sig@ =~= sig_facp());
    find_table(mem, rsdp_phys, &sig)
}

/// Address of the table of IOMMUs.
pub fn find_dmar(mem: &PhysMemory, rsdp_phys: u64) -> (r: Option<u64>)
    requires
        mem.wf(),
    ensures
        r == located(mem@, rsdp_phys, sig_dmar()),
{
    let sig: [u8; 4] = [0x44, 0x4D, 0x41, 0x52];
    assert(sig@ =~= sig_dmar());
    find_table(mem, rsdp_phys, &sig)
}

/// The table of interrupt controllers that the 64-bit root table lists.
pub fn find_madt_via_xsdt(mem: &PhysMemory, xsdt_phys: u64) -> (r: Option<u64>)
    requires
        mem.wf(),
    ensures
        r == listed(mem@, xsdt_phys, 8, sig_apic()),
{
    let sig: [u8; 4] = [0x41, 0x50, 0x49, 0x43];
    assert(sig@ =~= sig_apic());
    find_table_via_xsdt(mem, xsdt_phys, &sig)
}

/// The table of interrupt controllers that the 32-bit root table lists.
pub fn find_madt_via_rsdt(mem: &PhysMemory, rsdt_phys: u64) -> (r: Option<u64>)
    requires
        mem.wf(),
    ensures
        r == listed(mem@, rsdt_phys, 4, sig_apic()),
{
    let sig: [u8; 4] = [0x41, 0x50, 0x49, 0x43];
    assert(sig@ =~= sig_apic());
    find_table_via_rsdt(mem, rsdt_phys, &sig)
}

/// A table that is found carries the signature that was looked for.
pub proof fn law_found_table_has_signature(m: Ram, rsdp: u64, sig: Seq<u8>)
    requires
        located(m, rsdp, sig) is Some,
    ensures
        located(m, rsdp, sig)->0 != 0,
        signature(m, located(m, rsdp, sig)->0 as int) == sig,
{
    let xsdt = m.word(rsdp + 24);
    let rsdt = m.word32(rsdp + 16) as u64;
    if listed(m, xsdt, 8, sig) is Some {
        lemma_scan(m, xsdt, 8, (m.word32(xsdt + 4) - SDT_HEADER_LEN) / 8, sig, 0);
    }
    if listed(m, rsdt, 4, sig) is Some {
        lemma_scan(m, rsdt, 4, (m.word32(rsdt + 4) - SDT_HEADER_LEN) / 4, sig, 0);
    }
}

proof fn lemma_scan(m: Ram, root: u64, size: int, count: int, sig: Seq<u8>, i: int)
    ensures
        scan(m, root, size, count, sig, i) matches Some(t) ==> t != 0 && signature(m, t as int)
            == sig,
    decreases count - i,
{
    if i < count {
        lemma_scan(m, root, size, count, sig, i + 1);
    }
}

/// Sums of bytes add up: a range in two parts sums up to what the parts sum up to,
/// and a single byte to itself.
pub proof fn law_byte_sums_add_up(m: Ram, base: int, a: nat, b: nat)
    ensures
        byte_sum(m, base, a + b) == byte_sum(m, base, a) + byte_sum(m, base + a, b),
        byte_sum(m, base, 1) == m.byte(base),
        byte_sum(m, base, 0) == 0,
    decreases b,
{
    reveal_with_fuel(byte_sum, 2);
    if b > 0 {
        law_byte_sums_add_up(m, base, a, (b - 1) as nat);
    }
}

/// A change of a single byte of a valid table is noticed.
pub proof fn law_changed_byte_spoils_the_checksum(m: Ram, m2: Ram, base: int, n: nat, at: nat)
    requires
        checksum_ok(m, base, n),
        at < n,
        m2.byte(base + at) != m.byte(base + at),
        forall|k: int| 0 <= k < n && k != at ==> m2.byte(base + k) == #[trigger] m.byte(base + k),
    ensures
        !checksum_ok(m2, base, n),
{
    let rest = (n - at - 1) as nat;
    lemma_same_sum(m, m2, base, at);
    assert forall|k: int| 0 <= k < rest implies m2.byte(base + at + 1 + k) == #[trigger] m.byte(
        base + at + 1 + k,
    ) by {
        let j = at + 1 + k;
        assert(m2.byte(base + j) == m.byte(base + j));
        assert(base + at + 1 + k == base + j);
    }
    lemma_same_sum(m, m2, base + at + 1, rest);
    law_byte_sums_add_up(m, base, at, 1);
    law_byte_sums_add_up(m2, base, at, 1);
    law_byte_sums_add_up(m, base + at, 1, rest);
    law_byte_sums_add_up(m2, base + at, 1, rest);
    law_byte_sums_add_up(m, base, at, (n - at) as nat);
    law_byte_sums_add_up(m2, base, at, (n - at) as nat);
    let others = byte_sum(m, base, at) + byte_sum(m, base + at + 1, rest);
    assert(byte_sum(m, base, n) == others + m.byte(base + at));
    assert(byte_sum(m2, base, n) == others + m2.byte(base + at));
}

proof fn lemma_same_sum(m: Ram, m2: Ram, base: int, n: nat)
    requires
        forall|k: int| 0 <= k < n ==> m2.byte(base + k) == #[trigger] m.byte(base + k),
    ensures
        byte_sum(m2, base, n) == byte_sum(m, base, n),
    decreases n,
{
    if n > 0 {
        lemma_same_sum(m, m2, base, (n - 1) as nat);
        assert(m2.byte(base + (n - 1)) == m.byte(base + (n - 1)));
    }
}

/// The table that a root table leads to is the first one it lists that has the
/// signature, and none is found only if it lists none.
pub proof fn law_first_listed_table_is_found(
    m: Ram,
    root: u64,
    size: int,
    count: int,
    sig: Seq<u8>,
    i: int,
)
    requires
        0 <= i,
    ensures
        match scan(m, root, size, count, sig, i) {
            Some(t) => exists|k: int|
                {
                    &&& i <= k < count
                    &&& #[trigger] root_entry_at(m, root, size, k) == t
                    &&& forall|j: int|
                        i <= j < k ==> root_entry_at(m, root, size, j) == 0 || signature(
                            m,
                            #[trigger] root_entry_at(m, root, size, j) as int,
                        ) != sig
                },
            None => forall|j: int|
                i <= j < count ==> root_entry_at(m, root, size, j) == 0 || signature(
                    m,
                    #[trigger] root_entry_at(m, root, size, j) as int,
                ) != sig,
        },
    decreases count - i,
{
    if i < count {
        let child = root_entry_at(m, root, size, i);
        if !(child != 0 && signature(m, child as int) == sig) {
            law_first_listed_table_is_found(m, root, size, count, sig, i + 1);
        }
    }
}

/// Nothing is found through a root pointer that does not carry its name, `RSD PTR`
/// and a blank, or whose first twenty bytes do not sum up to zero, and nothing
/// through one that leads nowhere. The 64-bit table is used only if the pointer
/// is of revision 2 or later and all its 36 bytes sum up to zero.
pub proof fn law_root_pointer_has_to_be_valid(m: Ram, rsdp: u64, sig: Seq<u8>)
    ensures
        m.byte(rsdp as int) != 82 || m.byte(rsdp + 1) != 83 || m.byte(rsdp + 2) != 68 || m.byte(
            rsdp + 3,
        ) != 32 || m.byte(rsdp + 4) != 80 || m.byte(rsdp + 5) != 84 || m.byte(rsdp + 6) != 82
            || m.byte(rsdp + 7) != 32 ==> located(m, rsdp, sig) is None,
        byte_sum(m, rsdp as int, 20) % 256 != 0 ==> located(m, rsdp, sig) is None,
        rsdp == 0 ==> located(m, rsdp, sig) is None,
        m.word(rsdp + 24) == 0 && m.word32(rsdp + 16) == 0 ==> located(m, rsdp, sig) is None,
        (m.byte(rsdp + 15) < 2 || byte_sum(m, rsdp as int, 36) % 256 != 0) && m.word32(rsdp + 16)
            == 0 ==> located(m, rsdp, sig) is None,
{
    let head = signature(m, rsdp as int) + signature(m, rsdp + 4);
    if head == rsdp_signature() {
        assert(head[0] == 82 && head[1] == 83 && head[2] == 68 && head[3] == 32);
        assert(head[4] == 80 && head[5] == 84 && head[6] == 82 && head[7] == 32);
    }
}

/// A table is valid exactly if it is there, starts with its signature, is at least as
/// long as it has to be, and all its bytes sum up to a multiple of 256.
pub proof fn law_valid_table_is_complete(m: Ram, phys: u64, sig: Seq<u8>, min_len: int)
    requires
        sig.len() == 4,
    ensures
        valid_table(m, phys, sig, min_len) <==> {
            &&& phys > 0
            &&& m.byte(phys as int) == sig[0] && m.byte(phys + 1) == sig[1] && m.byte(phys + 2)
                == sig[2] && m.byte(phys + 3) == sig[3]
            &&& min_len <= m.word32(phys + 4)
            &&& byte_sum(m, phys as int, m.word32(phys + 4) as nat) % 256 == 0
        },
{
    let s = signature(m, phys as int);
    if s[0] == sig[0] && s[1] == sig[1] && s[2] == sig[2] && s[3] == sig[3] {
        assert(s =~= sig);
    }
}

/// A root table is used exactly if it is long enough for its header and sums up to a
/// multiple of 256. It lists as many entries as fit behind its 36 bytes.
pub proof fn law_root_table_has_to_be_valid(m: Ram, root: u64, size: int, sig: Seq<u8>)
    requires
        size == 4 || size == 8,
    ensures
        m.word32(root + 4) < 36 || byte_sum(m, root as int, m.word32(root + 4) as nat) % 256 != 0
            ==> listed(m, root, size, sig) is None,
        m.word32(root + 4) >= 36 + size && byte_sum(m, root as int, m.word32(root + 4) as nat) % 256
            == 0 && root_entry_at(m, root, size, 0) != 0 && signature(
            m,
            root_entry_at(m, root, size, 0) as int,
        ) == sig ==> listed(m, root, size, sig) == Some(root_entry_at(m, root, size, 0)),
        root_entry_at(m, root, 8, 1) == m.word(root + 44),
        root_entry_at(m, root, 4, 1) == m.word32(root + 40),
{
}

} // verus!
