//! Sections of the kernel image.
//!
//! The kernel is a PE32+ image. Its section table tells which pages hold code,
//! constants and data.

use vstd::prelude::*;

use crate::memory::PhysMemory;

verus! {

/// `MZ`
pub const DOS_MAGIC: u16 = 0x5A4D;

/// `PE` and two NULs
pub const PE_SIGNATURE: u32 = 0x0000_4550;

/// Machine type of x86-64.
pub const MACHINE_AMD64: u16 = 0x8664;

/// Marks an optional header of the 64-bit format.
pub const PE32PLUS_MAGIC: u16 = 0x020B;

/// No field of the headers lies further from the image base, and no section
/// starts further from it.
pub const IMAGE_SPAN: u64 = 0x1_0100_0000;

/// `.text`
pub const NAME_TEXT: [u8; 5] = [46, 116, 101, 120, 116];

/// `.rdata`
pub const NAME_RDATA: [u8; 6] = [46, 114, 100, 97, 116, 97];

/// `.data`
pub const NAME_DATA: [u8; 5] = [46, 100, 97, 116, 97];

/// `.bss`
pub const NAME_BSS: [u8; 4] = [46, 98, 115, 115];

/// Address and size of a section.
#[derive(Copy, Clone, Debug, PartialEq, Eq, Structural)]
pub struct SectionInfo {
    pub virt_addr: u64,
    pub size: u64,
}

/// The sections of the kernel image; those that are missing are `None`.
#[derive(Copy, Clone, Debug, PartialEq, Eq, Structural)]
pub struct KernelSections {
    /// Code.
    pub text: Option<SectionInfo>,
    /// Constants.
    pub rodata: Option<SectionInfo>,
    /// Initialised data.
    pub data: Option<SectionInfo>,
    /// Zeroed data.
    pub bss: Option<SectionInfo>,
}

impl KernelSections {
    pub open spec fn none() -> Self {
        KernelSections { text: None, rodata: None, data: None, bss: None }
    }
}

/// Address and length of the section table of the image at `base`; `None` if
/// there is no valid image.
pub open spec fn section_table(m: crate::memory::ram::Ram, base: int) -> Option<(int, int)> {
    let pe = base + m.word32(base + 0x3C);
    let opt = pe + 24;
    if base == 0 || m.word16(base) != DOS_MAGIC || m.word32(pe) != PE_SIGNATURE {
        None
    } else if m.word16(pe + 4) != MACHINE_AMD64 {
        None
    } else if m.word16(pe + 20) < 2 || m.word16(opt) != PE32PLUS_MAGIC {
        None
    } else {
        Some((opt + m.word16(pe + 20), m.word16(pe + 6) as int))
    }
}

/// The section name at `s` is `name`: it continues with NUL or `$`, or all
/// eight bytes belong to it.
pub open spec fn name_is(m: crate::memory::ram::Ram, s: int, name: Seq<u8>) -> bool {
    &&& forall|k: int| 0 <= k < name.len() ==> m.byte(s + k) == #[trigger] name[k]
    &&& name.len() == 8 || m.byte(s + name.len()) == 0 || m.byte(s + name.len()) == 0x24
}

/// The section header at `s` describes a section with contents named `name`.
pub open spec fn describes(m: crate::memory::ram::Ram, s: int, name: Seq<u8>) -> bool {
    name_is(m, s, name) && m.word32(s + 8) != 0 && m.word32(s + 12) != 0
}

/// The last of the first `n` sections with contents that is named `name`.
pub open spec fn found(
    m: crate::memory::ram::Ram,
    base: int,
    table: int,
    n: int,
    name: Seq<u8>,
) -> Option<SectionInfo>
    decreases n,
{
    if n <= 0 {
        None
    } else {
        let s = table + (n - 1) * 40;
        if describes(m, s, name) {
            Some(
                SectionInfo {
                    virt_addr: (base + m.word32(s + 12)) as u64,
                    size: m.word32(s + 8) as u64,
                },
            )
        } else {
            found(m, base, table, n - 1, name)
        }
    }
}

/// The sections of the image at `base`.
pub open spec fn sections(m: crate::memory::ram::Ram, base: int) -> KernelSections {
    match section_table(m, base) {
        None => KernelSections::none(),
        Some((table, n)) => KernelSections {
            text: found(m, base, table, n, NAME_TEXT@),
            rodata: found(m, base, table, n, NAME_RDATA@),
            data: found(m, base, table, n, NAME_DATA@),
            bss: found(m, base, table, n, NAME_BSS@),
        },
    }
}

/// Whether the section name at `s` is `name`.
fn name_eq(mem: &PhysMemory, s: u64, name: &[u8]) -> (r: bool)
    requires
        mem.wf(),
        s + 8 <= u64::MAX,
        name@.len() <= 8,
    ensures
        r == name_is(mem@, s as int, name@),
{
    let mut k: usize = 0;
    while k < name.len()
        invariant
            mem.wf(),
            s + 8 <= u64::MAX,
            name@.len() <= 8,
            k <= name@.len(),
            forall|j: int| 0 <= j < k ==> mem@.byte(s + j) == #[trigger] name@[j],
        decreases name@.len() - k,
    {
        if mem.read_u8(s + k as u64) != name[k] {
            return false;
        }
        k = k + 1;
    }
    if name.len() == 8 {
        return true;
    }
    let next: u8 = mem.read_u8(s + name.len() as u64);
    next == 0 || next == 0x24
}

/// A name has one meaning.
proof fn lemma_names_differ(m: crate::memory::ram::Ram, s: int, a: Seq<u8>, b: Seq<u8>)
    requires
        a.len() > 1,
        b.len() > 1,
        a[1] != b[1],
        name_is(m, s, a),
    ensures
        !name_is(m, s, b),
{
    assert(m.byte(s + 1) == a[1]);
    if name_is(m, s, b) {
        assert(m.byte(s + 1) == b[1]);
    }
}

/// The sections of the image at `image_base`; none if there is no valid image.
pub fn parse_kernel_sections(mem: &PhysMemory, image_base: u64) -> (r: KernelSections)
    requires
        mem.wf(),
        image_base + IMAGE_SPAN <= u64::MAX,
    ensures
        r == sections(mem@, image_base as int),
{
    let mut out = KernelSections { text: None, rodata: None, data: None, bss: None };
    if image_base == 0 {
        return out;
    }
    if mem.read_u16(image_base) != DOS_MAGIC {
        return out;
    }
    let pe: u64 = image_base + mem.read_u32(image_base + 0x3C) as u64;
    if mem.read_u32(pe) != PE_SIGNATURE {
        return out;
    }
    if mem.read_u16(pe + 4) != MACHINE_AMD64 {
        return out;
    }
    let count: u16 = mem.read_u16(pe + 6);
    let opt_size: u16 = mem.read_u16(pe + 20);
    if opt_size < 2 {
        return out;
    }
    let opt: u64 = pe + 24;
    if mem.read_u16(opt) != PE32PLUS_MAGIC {
        return out;
    }
    let table: u64 = opt + opt_size as u64;
    let mut i: u16 = 0;
    while i < count
        invariant
            mem.wf(),
            i <= count,
            image_base + IMAGE_SPAN <= u64::MAX,
            table <= image_base + 0x1_0001_0017,
            section_table(mem@, image_base as int) == Some((table as int, count as int)),
            out.text == found(mem@, image_base as int, table as int, i as int, NAME_TEXT@),
            out.rodata == found(mem@, image_base as int, table as int, i as int, NAME_RDATA@),
            out.data == found(mem@, image_base as int, table as int, i as int, NAME_DATA@),
            out.bss == found(mem@, image_base as int, table as int, i as int, NAME_BSS@),
        decreases count - i,
    {
        let s: u64 = table + i as u64 * 40;
        let size: u64 = mem.read_u32(s + 8) as u64;
        let rva: u64 = mem.read_u32(s + 12) as u64;
        proof {
            let (t, r, d, b) = (NAME_TEXT@, NAME_RDATA@, NAME_DATA@, NAME_BSS@);
            assert(t[1] == 116 && r[1] == 114 && d[1] == 100 && b[1] == 98);
            if name_is(mem@, s as int, t) {
                lemma_names_differ(mem@, s as int, t, r);
                lemma_names_differ(mem@, s as int, t, d);
                lemma_names_differ(mem@, s as int, t, b);
            }
            if name_is(mem@, s as int, r) {
                lemma_names_differ(mem@, s as int, r, d);
                lemma_names_differ(mem@, s as int, r, b);
            }
            if name_is(mem@, s as int, d) {
                lemma_names_differ(mem@, s as int, d, b);
            }
        }
        if size != 0 && rva != 0 {
            let info = SectionInfo { virt_addr: image_base + rva, size };
            if name_eq(mem, s, &NAME_TEXT) {
                out.text = Some(info);
            } else if name_eq(mem, s, &NAME_RDATA) {
                out.rodata = Some(info);
            } else if name_eq(mem, s, &NAME_DATA) {
                out.data = Some(info);
            } else if name_eq(mem, s, &NAME_BSS) {
                out.bss = Some(info);
            }
        }
        i = i + 1;
    }
    out
}

/// A section that is found has a header of that name in the section table, which
/// gives its address in the image and its size, and no later header has that
/// name. None is found only if no header has that name.
pub proof fn law_found_section_has_a_header(
    m: crate::memory::ram::Ram,
    base: int,
    table: int,
    n: int,
    name: Seq<u8>,
)
    requires
        0 <= base,
        base + u32::MAX <= u64::MAX,
    ensures
        match found(m, base, table, n, name) {
            Some(section) => exists|k: int|
                {
                    &&& 0 <= k < n
                    &&& #[trigger] name_is(m, table + 40 * k, name)
                    &&& section.virt_addr == base + m.word32(table + 40 * k + 12)
                    &&& section.virt_addr > base
                    &&& section.size == m.word32(table + 40 * k + 8)
                    &&& section.size > 0
                    &&& forall|j: int|
                        k < j < n ==> !(#[trigger] describes(m, table + 40 * j, name))
                },
            None => forall|j: int| 0 <= j < n ==> !(#[trigger] describes(m, table + 40 * j, name)),
        },
    decreases n,
{
    if n > 0 {
        let s = table + (n - 1) * 40;
        assert(s == table + 40 * (n - 1));
        if describes(m, s, name) {
            assert(name_is(m, table + 40 * (n - 1), name));
        } else {
            law_found_section_has_a_header(m, base, table, n - 1, name);
            if let Some(section) = found(m, base, table, n - 1, name) {
                let k = choose|k: int|
                    {
                        &&& 0 <= k < n - 1
                        &&& #[trigger] name_is(m, table + 40 * k, name)
                        &&& section.virt_addr == base + m.word32(table + 40 * k + 12)
                        &&& section.virt_addr > base
                        &&& section.size == m.word32(table + 40 * k + 8)
                        &&& section.size > 0
                        &&& forall|j: int|
                            k < j < n - 1 ==> !(#[trigger] describes(m, table + 40 * j, name))
                    };
                assert forall|j: int| k < j < n implies !(#[trigger] describes(
                    m,
                    table + 40 * j,
                    name,
                )) by {
                    if j == n - 1 {
                        assert(table + 40 * j == s);
                    }
                }
            } else {
                assert forall|j: int| 0 <= j < n implies !(#[trigger] describes(
                    m,
                    table + 40 * j,
                    name,
                )) by {
                    if j == n - 1 {
                        assert(table + 40 * j == s);
                    }
                }
            }
        }
    }
}

/// No sections are found in what is not an image for this processor: one that
/// starts with `MZ`, has a header that starts with `PE`, and is made for 64-bit
/// x86.
pub proof fn law_other_images_have_no_sections(m: crate::memory::ram::Ram, base: int)
    ensures
        base == 0 || m.word16(base) != 0x5A4D || m.word32(base + m.word32(base + 0x3C)) != 0x4550
            || m.word16(base + m.word32(base + 0x3C) + 4) != 0x8664 || m.word16(
            base + m.word32(base + 0x3C) + 24,
        ) != 0x20B ==> sections(m, base) == (KernelSections {
            text: None,
            rodata: None,
            data: None,
            bss: None,
        }),
{
}

} // verus!
