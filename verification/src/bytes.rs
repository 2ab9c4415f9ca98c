//! Little-endian encoding of machine words in byte sequences.

use vstd::prelude::*;

verus! {

/// The little-endian 16-bit word at `off`.
pub open spec fn le16(s: Seq<u8>, off: int) -> u16 {
    (s[off] + s[off + 1] * 0x100) as u16
}

/// The little-endian 32-bit word at `off`.
pub open spec fn le32(s: Seq<u8>, off: int) -> u32 {
    (s[off] + s[off + 1] * 0x100 + s[off + 2] * 0x1_0000 + s[off + 3] * 0x100_0000) as u32
}

/// The little-endian 64-bit word at `off`.
#[verifier::opaque]
pub open spec fn le64(s: Seq<u8>, off: int) -> u64 {
    (le32(s, off) + le32(s, off + 4) * 0x1_0000_0000) as u64
}

/// Byte `i` of the little-endian encoding of `v`.
pub open spec fn byte_of(v: u64, i: int) -> u8 {
    if i == 0 {
        (v % 0x100) as u8
    } else if i == 1 {
        (v / 0x100 % 0x100) as u8
    } else if i == 2 {
        (v / 0x1_0000 % 0x100) as u8
    } else if i == 3 {
        (v / 0x100_0000 % 0x100) as u8
    } else if i == 4 {
        (v / 0x1_0000_0000 % 0x100) as u8
    } else if i == 5 {
        (v / 0x100_0000_0000 % 0x100) as u8
    } else if i == 6 {
        (v / 0x1_0000_0000_0000 % 0x100) as u8
    } else {
        (v / 0x100_0000_0000_0000) as u8
    }
}

/// `s` with the eight bytes at `off` replaced by the encoding of `v`.
pub open spec fn with_le64(s: Seq<u8>, off: int, v: u64) -> Seq<u8> {
    Seq::new(
        s.len(),
        |k: int|
            if off <= k < off + 8 {
                byte_of(v, k - off)
            } else {
                s[k]
            },
    )
}

/// Reading back a word that was written gives the word.
#[verifier::spinoff_prover]
pub proof fn lemma_le64_roundtrip(s: Seq<u8>, off: int, v: u64)
    requires
        0 <= off,
        off + 8 <= s.len(),
    ensures
        le64(with_le64(s, off, v), off) == v,
{
    reveal(le64);
    let w = with_le64(s, off, v);
    assert(w[off] == byte_of(v, 0));
    assert(w[off + 1] == byte_of(v, 1));
    assert(w[off + 2] == byte_of(v, 2));
    assert(w[off + 3] == byte_of(v, 3));
    assert(w[off + 4] == byte_of(v, 4));
    assert(w[off + 4 + 1] == byte_of(v, 5));
    assert(w[off + 4 + 2] == byte_of(v, 6));
    assert(w[off + 4 + 3] == byte_of(v, 7));
    let x = v as int;
    vstd::arithmetic::div_mod::lemma_mod_breakdown(x, 0x100, 0x100);
    vstd::arithmetic::div_mod::lemma_mod_breakdown(x, 0x1_0000, 0x100);
    vstd::arithmetic::div_mod::lemma_mod_breakdown(x, 0x100_0000, 0x100);
    vstd::arithmetic::div_mod::lemma_mod_breakdown(x, 0x1_0000_0000, 0x100);
    vstd::arithmetic::div_mod::lemma_mod_breakdown(x, 0x100_0000_0000, 0x100);
    vstd::arithmetic::div_mod::lemma_mod_breakdown(x, 0x1_0000_0000_0000, 0x100);
    vstd::arithmetic::div_mod::lemma_mod_breakdown(x, 0x100_0000_0000_0000, 0x100);
    assert(le32(w, off) == x % 0x1_0000_0000);
    assert(x % 0x1_0000_0000_0000_0000 == x);
    assert(x / 0x100_0000_0000_0000 < 0x100);
}

/// Writing a word leaves every word that does not overlap it unchanged.
pub proof fn lemma_le64_frame(s: Seq<u8>, off: int, v: u64, other: int)
    requires
        0 <= off,
        off + 8 <= s.len(),
        0 <= other,
        other + 8 <= s.len(),
        other + 8 <= off || off + 8 <= other,
    ensures
        le64(with_le64(s, off, v), other) == le64(s, other),
{
    reveal(le64);
}

/// Reads the 16-bit word at `off`.
pub fn get_u16(s: &[u8], off: usize) -> (r: u16)
    requires
        off + 2 <= s@.len(),
    ensures
        r == le16(s@, off as int),
{
    s[off] as u16 + s[off + 1] as u16 * 0x100
}

/// Reads the 32-bit word at `off`.
pub fn get_u32(s: &[u8], off: usize) -> (r: u32)
    requires
        off + 4 <= s@.len(),
    ensures
        r == le32(s@, off as int),
{
    s[off] as u32 + s[off + 1] as u32 * 0x100 + s[off + 2] as u32 * 0x1_0000 + s[off + 3] as u32
        * 0x100_0000
}

/// Reads the 64-bit word at `off`.
pub fn get_u64(s: &[u8], off: usize) -> (r: u64)
    requires
        off + 8 <= s@.len(),
    ensures
        r == le64(s@, off as int),
{
    assert(s.len() == s@.len());
    proof {
        reveal(le64);
    }
    get_u32(s, off) as u64 + get_u32(s, off + 4) as u64 * 0x1_0000_0000
}

/// Writes `v` as the 64-bit word at `off`.
pub fn put_u64(s: &mut Vec<u8>, off: usize, v: u64)
    requires
        off + 8 <= old(s)@.len(),
    ensures
        final(s)@ == with_le64(old(s)@, off as int, v),
{
    assert(s.len() == s@.len());
    s[off] = (v % 0x100) as u8;
    s[off + 1] = (v / 0x100 % 0x100) as u8;
    s[off + 2] = (v / 0x1_0000 % 0x100) as u8;
    s[off + 3] = (v / 0x100_0000 % 0x100) as u8;
    s[off + 4] = (v / 0x1_0000_0000 % 0x100) as u8;
    s[off + 5] = (v / 0x100_0000_0000 % 0x100) as u8;
    s[off + 6] = (v / 0x1_0000_0000_0000 % 0x100) as u8;
    s[off + 7] = (v / 0x100_0000_0000_0000) as u8;
    assert(s@ =~= with_le64(old(s)@, off as int, v));
}

/// Sets the `n` bytes at `off` to zero.
pub fn zero_range(s: &mut Vec<u8>, off: usize, n: usize)
    requires
        off + n <= old(s)@.len(),
    ensures
        final(s)@ == zeroed(old(s)@, off as int, n as int),
{
    let mut i: usize = 0;
    while i < n
        invariant
            i <= n,
            off + n <= s@.len(),
            s@ =~= zeroed(old(s)@, off as int, i as int),
        decreases n - i,
    {
        assert(s.len() == s@.len());
        s[off + i] = 0;
        i = i + 1;
    }
}

/// `s` with the `n` bytes at `off` set to zero.
pub open spec fn zeroed(s: Seq<u8>, off: int, n: int) -> Seq<u8> {
    Seq::new(
        s.len(),
        |k: int|
            if off <= k < off + n {
                0u8
            } else {
                s[k]
            },
    )
}

} // verus!
