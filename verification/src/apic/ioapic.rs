//! I/O APIC.

use vstd::prelude::*;

verus! {

/// The register that holds the version and the number of entries.
pub const REG_VERSION: u8 = 0x01;

/// Masks an entry.
pub const ENTRY_MASKED: u32 = 0x1_0000;

/// A value to write to an indirect register.
#[derive(Copy, Clone, Debug, PartialEq, Eq, Structural)]
pub struct IndirectWrite {
    pub reg: u8,
    pub value: u32,
}

/// A redirection entry that delivers `vector` to the processor with `apic_id`:
/// edge triggered, active high and not masked.
pub fn redirect_entry(vector: u8, apic_id: u8) -> (r: u64)
    ensures
        r == apic_id * 0x100_0000_0000_0000 + vector,
{
    apic_id as u64 * 0x100_0000_0000_0000 + vector as u64
}

/// A masked redirection entry.
pub fn masked_entry() -> (r: u64)
    ensures
        r == 0x1_0000,
{
    0x1_0000
}

/// Number of the last entry, from the version register.
pub fn max_entry(version: u32) -> (r: u8)
    ensures
        r == version / 0x1_0000 % 0x100,
{
    (version / 0x1_0000 % 0x100) as u8
}

/// Register of the lower half of entry `n`.
pub open spec fn low_reg(n: int) -> u8 {
    ((0x10 + 2 * n) % 0x100) as u8
}

/// Register of the upper half of entry `n`.
pub open spec fn high_reg(n: int) -> u8 {
    ((0x11 + 2 * n) % 0x100) as u8
}

/// The writes that mask the first `n` entries.
pub open spec fn mask_writes(n: nat) -> Seq<IndirectWrite>
    decreases n,
{
    if n == 0 {
        Seq::empty()
    } else {
        mask_writes((n - 1) as nat).push(
            IndirectWrite { reg: low_reg(n - 1), value: ENTRY_MASKED },
        ).push(IndirectWrite { reg: high_reg(n - 1), value: 0 })
    }
}

/// The writes that mask every entry, given the version register. None if there
/// is no I/O APIC.
pub fn init(base: u64, version: u32) -> (r: Vec<IndirectWrite>)
    ensures
        r@ == if base == 0 {
            Seq::empty()
        } else {
            mask_writes((version / 0x1_0000 % 0x100 + 1) as nat)
        },
{
    let mut out: Vec<IndirectWrite> = Vec::new();
    if base == 0 {
        return out;
    }
    let count: u32 = max_entry(version) as u32 + 1;
    let mut n: u32 = 0;
    while n < count
        invariant
            n <= count <= 256,
            out@ == mask_writes(n as nat),
        decreases count - n,
    {
        out.push(IndirectWrite { reg: ((0x10 + 2 * n) % 0x100) as u8, value: ENTRY_MASKED });
        out.push(IndirectWrite { reg: ((0x11 + 2 * n) % 0x100) as u8, value: 0 });
        n = n + 1;
    }
    out
}

/// The writes that route pin `gsi` to `vector` on the processor with `apic_id`.
/// `None` if there is no I/O APIC.
pub fn route_irq(base: u64, gsi: u8, vector: u8, apic_id: u8) -> (r: Option<[IndirectWrite; 2]>)
    ensures
        base == 0 <==> r is None,
        r matches Some(w) ==> w@ == seq![
            IndirectWrite { reg: high_reg(gsi as int), value: (apic_id * 0x100_0000) as u32 },
            IndirectWrite { reg: low_reg(gsi as int), value: vector as u32 },
        ],
{
    if base == 0 {
        return None;
    }
    let entry: u64 = redirect_entry(vector, apic_id);
    let n: u32 = gsi as u32;
    let w = [
        IndirectWrite {
            reg: ((0x11 + 2 * n) % 0x100) as u8,
            value: (entry / 0x1_0000_0000) as u32,
        },
        IndirectWrite {
            reg: ((0x10 + 2 * n) % 0x100) as u8,
            value: (entry % 0x1_0000_0000) as u32,
        },
    ];
    assert(w@ =~= seq![
        IndirectWrite { reg: high_reg(gsi as int), value: (apic_id * 0x100_0000) as u32 },
        IndirectWrite { reg: low_reg(gsi as int), value: vector as u32 },
    ]);
    Some(w)
}

/// Each of the first entries is masked exactly by the pair of writes that is its
/// own: bit 16 is set in its lower half, and its upper half is 0. The registers
/// of different entries differ.
pub proof fn law_every_entry_is_masked(n: nat, i: int)
    requires
        0 <= i < n <= 120,
    ensures
        mask_writes(n).len() == 2 * n,
        mask_writes(n)[2 * i] == (IndirectWrite { reg: (0x10 + 2 * i) as u8, value: 0x1_0000 }),
        mask_writes(n)[2 * i + 1] == (IndirectWrite { reg: (0x11 + 2 * i) as u8, value: 0 }),
    decreases n,
{
    if i < n - 1 {
        law_every_entry_is_masked((n - 1) as nat, i);
    } else if n > 1 {
        law_every_entry_is_masked((n - 1) as nat, 0);
    }
}

/// An entry has two registers of its own: they follow each other, and those of
/// the first 120 entries are all different.
pub proof fn law_entries_have_their_own_registers(n: int, m: int)
    requires
        0 <= n < m < 120,
    ensures
        low_reg(n) == 0x10 + 2 * n,
        high_reg(n) == low_reg(n) + 1,
        low_reg(m) > high_reg(n),
{
}

} // verus!
