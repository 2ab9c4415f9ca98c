//! Making sense of what the firmware and the processor report at boot.

use vstd::prelude::*;

use uefi::table::runtime::{Daylight, Time, TimeParams};

use crate::boot_info::{
    AcpiInfo, BootInfo, BootTime, CpuFeatures, CpuInfo, FirmwareInfo, FrameBufferFormat, LoadOptions,
    MemoryKind, MemoryMap, MemoryRegion, SecureBootState, SmbiosInfo, MAX_BRAND_LEN,
    MAX_VENDOR_LEN,
};

verus! {

// ── Firmware identity ────────────────────────────────────────────────────────
/// The ASCII characters of `codes`, without NULs.
pub open spec fn ascii_of(codes: Seq<u16>) -> Seq<u8>
    decreases codes.len(),
{
    if codes.len() == 0 {
        Seq::empty()
    } else {
        let rest = ascii_of(codes.drop_last());
        if 0 < codes.last() < 128 {
            rest.push(codes.last() as u8)
        } else {
            rest
        }
    }
}

/// The first `n` bytes of `s`, or all of them.
pub open spec fn at_most(s: Seq<u8>, n: int) -> Seq<u8> {
    if s.len() <= n {
        s
    } else {
        s.take(n)
    }
}

proof fn lemma_ascii_prefix(codes: Seq<u16>, n: int)
    requires
        0 <= n <= codes.len(),
    ensures
        ascii_of(codes.take(n)).len() <= ascii_of(codes).len(),
        ascii_of(codes).take(ascii_of(codes.take(n)).len() as int) == ascii_of(codes.take(n)),
    decreases codes.len(),
{
    if n == codes.len() {
        assert(codes.take(n) =~= codes);
        assert(ascii_of(codes).take(ascii_of(codes).len() as int) =~= ascii_of(codes));
    } else {
        let init = codes.drop_last();
        lemma_ascii_prefix(init, n);
        assert(init.take(n) =~= codes.take(n));
        let a = ascii_of(codes.take(n));
        assert(ascii_of(codes).take(a.len() as int) =~= ascii_of(init).take(a.len() as int));
    }
}

/// Fills in the identity of the firmware. The vendor name is reduced to ASCII
/// and cut off so that one byte of its buffer stays free.
pub fn collect_firmware(
    fw: &mut FirmwareInfo,
    vendor: &[u16],
    uefi_revision: u32,
    firmware_revision: u32,
)
    ensures
        final(fw).wf(),
        final(fw).vendor@.take(final(fw).vendor_len as int) == at_most(
            ascii_of(vendor@),
            MAX_VENDOR_LEN - 1,
        ),
        final(fw).uefi_revision == uefi_revision,
        final(fw).firmware_revision == firmware_revision,
{
    let mut len: usize = 0;
    let mut i: usize = 0;
    assert(vendor@.take(0) =~= Seq::<u16>::empty());
    assert(fw.vendor@.take(0) =~= Seq::<u8>::empty());
    while i < vendor.len() && len < MAX_VENDOR_LEN - 1
        invariant
            i <= vendor@.len(),
            len <= MAX_VENDOR_LEN - 1,
            fw.vendor@.take(len as int) == ascii_of(vendor@.take(i as int)),
        decreases vendor@.len() - i,
    {
        let code: u16 = vendor[i];
        let ghost before = fw.vendor@;
        proof {
            assert(vendor@.take(i + 1).drop_last() =~= vendor@.take(i as int));
        }
        if code > 0 && code < 128 {
            fw.vendor[len] = code as u8;
            assert(fw.vendor@.take(len + 1) =~= before.take(len as int).push(code as u8));
            len = len + 1;
        }
        i = i + 1;
    }
    proof {
        lemma_ascii_prefix(vendor@, i as int);
        if i == vendor@.len() {
            assert(vendor@.take(i as int) =~= vendor@);
        }
        let all = ascii_of(vendor@);
        let got = ascii_of(vendor@.take(i as int));
        assert(got.len() == len);
        assert(at_most(all, MAX_VENDOR_LEN - 1) =~= got);
    }
    fw.vendor_len = len;
    fw.uefi_revision = uefi_revision;
    fw.firmware_revision = firmware_revision;
}

// ── Processor ────────────────────────────────────────────────────────────────
/// Result of a CPUID instruction.
#[derive(Copy, Clone, Debug, PartialEq, Eq, Structural)]
pub struct CpuidRegs {
    pub eax: u32,
    pub ebx: u32,
    pub ecx: u32,
    pub edx: u32,
}

/// Results of the CPUID leaves the kernel looks at. Leaves that the processor
/// does not have are ignored.
#[derive(Copy, Clone, Debug)]
pub struct CpuidLeaves {
    /// Leaf 0.
    pub basic: CpuidRegs,
    /// Leaf 1.
    pub version: CpuidRegs,
    /// Leaf 7.
    pub extended: CpuidRegs,
    /// Leaf 0x8000_0000.
    pub ext_basic: CpuidRegs,
    /// Leaves 0x8000_0002 to 0x8000_0004.
    pub brand: [CpuidRegs; 3],
    /// Leaf 0x8000_0008.
    pub addresses: CpuidRegs,
}

/// Byte `i` of a word.
pub open spec fn word_byte(w: u32, i: int) -> u8 {
    if i == 0 {
        (w % 0x100) as u8
    } else if i == 1 {
        (w / 0x100 % 0x100) as u8
    } else if i == 2 {
        (w / 0x1_0000 % 0x100) as u8
    } else {
        (w / 0x100_0000) as u8
    }
}

/// Register `i` in the order EAX, EBX, ECX, EDX.
pub open spec fn reg(r: CpuidRegs, i: int) -> u32 {
    if i == 0 {
        r.eax
    } else if i == 1 {
        r.ebx
    } else if i == 2 {
        r.ecx
    } else {
        r.edx
    }
}

/// The twelve bytes of the vendor name: EBX, EDX, ECX.
pub open spec fn vendor_bytes(r: CpuidRegs) -> Seq<u8> {
    Seq::new(
        12,
        |i: int|
            word_byte(
                if i < 4 {
                    r.ebx
                } else if i < 8 {
                    r.edx
                } else {
                    r.ecx
                },
                i % 4,
            ),
    )
}

/// The forty-eight bytes of the brand string.
pub open spec fn brand_bytes(brand: Seq<CpuidRegs>) -> Seq<u8> {
    Seq::new(48, |i: int| word_byte(reg(brand[i / 16], i / 4 % 4), i % 4))
}

/// Length of `s` without the NULs at its end.
pub open spec fn trimmed_len(s: Seq<u8>) -> int
    decreases s.len(),
{
    if s.len() == 0 {
        0
    } else if s.last() != 0 {
        s.len() as int
    } else {
        trimmed_len(s.drop_last())
    }
}

/// The processor's family: the base family, extended if it is 15.
pub open spec fn cpu_family(eax: u32) -> u8 {
    let base = eax / 0x100 % 0x10;
    if base == 0xF {
        (eax / 0x10_0000 % 0x100 + 0xF) as u8
    } else {
        base as u8
    }
}

/// The processor's model: the base model, extended for families 6 and 15.
pub open spec fn cpu_model(eax: u32) -> u8 {
    let family = eax / 0x100 % 0x10;
    let base = eax / 0x10 % 0x10;
    if family == 0xF || family == 0x6 {
        (eax / 0x1_0000 % 0x10 * 0x10 + base) as u8
    } else {
        base as u8
    }
}

/// `cpu` is what the CPUID leaves say about a processor of which nothing was
/// known before.
pub open spec fn describes_cpu(leaves: CpuidLeaves, cpu: CpuInfo) -> bool {
    let max_basic = leaves.basic.eax;
    let max_ext = leaves.ext_basic.eax;
    let eax = leaves.version.eax;
    &&& cpu.vendor@ == vendor_bytes(leaves.basic)
    &&& cpu.family == if max_basic >= 1 {
        cpu_family(eax)
    } else {
        0
    }
    &&& cpu.model == if max_basic >= 1 {
        cpu_model(eax)
    } else {
        0
    }
    &&& cpu.stepping == if max_basic >= 1 {
        eax % 0x10
    } else {
        0
    }
    &&& cpu.max_logical_cpus == if max_basic >= 1 {
        leaves.version.ebx / 0x1_0000 % 0x100
    } else {
        0
    }
    &&& cpu.features == CpuFeatures {
        leaf1_ecx: if max_basic >= 1 {
            leaves.version.ecx
        } else {
            0
        },
        leaf1_edx: if max_basic >= 1 {
            leaves.version.edx
        } else {
            0
        },
        leaf7_ebx: if max_basic >= 7 {
            leaves.extended.ebx
        } else {
            0
        },
        leaf7_ecx: if max_basic >= 7 {
            leaves.extended.ecx
        } else {
            0
        },
    }
    &&& cpu.brand@.take(cpu.brand_len as int) == if max_ext >= 0x8000_0004 {
        brand_bytes(leaves.brand@).take(trimmed_len(brand_bytes(leaves.brand@)))
    } else {
        Seq::empty()
    }
    &&& cpu.physical_address_bits == if max_ext >= 0x8000_0008 {
        leaves.addresses.eax % 0x100
    } else {
        0
    }
    &&& cpu.virtual_address_bits == if max_ext >= 0x8000_0008 {
        leaves.addresses.eax / 0x100 % 0x100
    } else {
        0
    }
}

fn byte_of_word(w: u32, i: usize) -> (r: u8)
    requires
        i < 4,
    ensures
        r == word_byte(w, i as int),
{
    if i == 0 {
        (w % 0x100) as u8
    } else if i == 1 {
        (w / 0x100 % 0x100) as u8
    } else if i == 2 {
        (w / 0x1_0000 % 0x100) as u8
    } else {
        (w / 0x100_0000) as u8
    }
}

fn vendor_of(r: &CpuidRegs) -> (v: [u8; 12])
    ensures
        v@ == vendor_bytes(*r),
{
    let mut v: [u8; 12] = [0;12];
    let mut i: usize = 0;
    while i < 12
        invariant
            i <= 12,
            forall|k: int| 0 <= k < i ==> v@[k] == #[trigger] vendor_bytes(*r)[k],
        decreases 12 - i,
    {
        let w: u32 = if i < 4 {
            r.ebx
        } else if i < 8 {
            r.edx
        } else {
            r.ecx
        };
        v[i] = byte_of_word(w, i % 4);
        i = i + 1;
    }
    assert(v@ =~= vendor_bytes(*r));
    v
}

fn brand_of(brand: &[CpuidRegs; 3]) -> (v: [u8; MAX_BRAND_LEN])
    ensures
        v@ == brand_bytes(brand@),
{
    let mut v: [u8; MAX_BRAND_LEN] = [0;MAX_BRAND_LEN];
    let mut i: usize = 0;
    while i < 48
        invariant
            i <= 48,
            forall|k: int| 0 <= k < i ==> v@[k] == #[trigger] brand_bytes(brand@)[k],
        decreases 48 - i,
    {
        let r = brand[i / 16];
        let n: usize = i / 4 % 4;
        let w: u32 = if n == 0 {
            r.eax
        } else if n == 1 {
            r.ebx
        } else if n == 2 {
            r.ecx
        } else {
            r.edx
        };
        v[i] = byte_of_word(w, i % 4);
        i = i + 1;
    }
    assert(v@ =~= brand_bytes(brand@));
    v
}

fn length_without_nuls(s: &[u8; MAX_BRAND_LEN]) -> (r: usize)
    ensures
        r == trimmed_len(s@),
        r <= MAX_BRAND_LEN,
{
    let mut n: usize = MAX_BRAND_LEN;
    assert(s@.take(48) =~= s@);
    while n > 0 && s[n - 1] == 0
        invariant
            n <= MAX_BRAND_LEN,
            trimmed_len(s@) == trimmed_len(s@.take(n as int)),
        decreases n,
    {
        assert(s@.take(n as int).drop_last() =~= s@.take(n - 1));
        n = n - 1;
    }
    n
}

/// What the CPUID leaves say about the processor.
pub fn collect_cpu(leaves: &CpuidLeaves) -> (cpu: CpuInfo)
    ensures
        cpu.wf(),
        describes_cpu(*leaves, cpu),
{
    let mut cpu = CpuInfo::new();
    cpu.vendor = vendor_of(&leaves.basic);
    if leaves.basic.eax >= 1 {
        let eax: u32 = leaves.version.eax;
        let family: u32 = eax / 0x100 % 0x10;
        let model: u32 = eax / 0x10 % 0x10;
        cpu.family = if family == 0xF {
            (eax / 0x10_0000 % 0x100 + 0xF) as u8
        } else {
            family as u8
        };
        cpu.model = if family == 0xF || family == 0x6 {
            (eax / 0x1_0000 % 0x10 * 0x10 + model) as u8
        } else {
            model as u8
        };
        cpu.stepping = (eax % 0x10) as u8;
        cpu.max_logical_cpus = leaves.version.ebx / 0x1_0000 % 0x100;
        cpu.features.leaf1_ecx = leaves.version.ecx;
        cpu.features.leaf1_edx = leaves.version.edx;
    }
    if leaves.basic.eax >= 7 {
        cpu.features.leaf7_ebx = leaves.extended.ebx;
        cpu.features.leaf7_ecx = leaves.extended.ecx;
    }
    assert(cpu.brand@.take(0) =~= Seq::<u8>::empty());
    if leaves.ext_basic.eax >= 0x8000_0004 {
        cpu.brand = brand_of(&leaves.brand);
        cpu.brand_len = length_without_nuls(&cpu.brand);
    }
    if leaves.ext_basic.eax >= 0x8000_0008 {
        cpu.physical_address_bits = (leaves.addresses.eax % 0x100) as u8;
        cpu.virtual_address_bits = (leaves.addresses.eax / 0x100 % 0x100) as u8;
    }
    cpu
}

// ── Memory map ───────────────────────────────────────────────────────────────
/// What the kernel does with memory of firmware type `ty`.
pub open spec fn kind_of(ty: u32) -> MemoryKind {
    if ty == 0 {
        MemoryKind::Reserved
    } else if ty == 1 || ty == 2 {
        MemoryKind::KernelImage
    } else if ty == 3 || ty == 4 {
        MemoryKind::BootServices
    } else if ty == 5 || ty == 6 {
        MemoryKind::RuntimeServices
    } else if ty == 7 {
        MemoryKind::Usable
    } else if ty == 9 {
        MemoryKind::AcpiReclaimable
    } else if ty == 10 {
        MemoryKind::AcpiNvs
    } else if ty == 11 || ty == 12 {
        MemoryKind::Mmio
    } else {
        MemoryKind::Unknown
    }
}

/// What the kernel does with memory of firmware type `ty`: 0 is reserved, 1 and
/// 2 are the loader's, 3 and 4 the boot services', 5 and 6 the runtime
/// services', 7 is free, 9 and 10 are ACPI's, 11 and 12 are device registers.
pub fn uefi_memory_type_to_kind(ty: u32) -> (r: MemoryKind)
    ensures
        r == kind_of(ty),
{
    match ty {
        7 => MemoryKind::Usable,
        0 => MemoryKind::Reserved,
        9 => MemoryKind::AcpiReclaimable,
        10 => MemoryKind::AcpiNvs,
        11 => MemoryKind::Mmio,
        12 => MemoryKind::Mmio,
        3 => MemoryKind::BootServices,
        4 => MemoryKind::BootServices,
        5 => MemoryKind::RuntimeServices,
        6 => MemoryKind::RuntimeServices,
        1 => MemoryKind::KernelImage,
        2 => MemoryKind::KernelImage,
        _ => MemoryKind::Unknown,
    }
}

/// Appends a region of `pages` pages from `start` on.
pub fn collect_region(map: &mut MemoryMap, start: u64, pages: u64, ty: u32)
    requires
        old(map).wf(),
        pages * 4096 <= u64::MAX,
    ensures
        final(map).wf(),
        final(map)@ == if old(map)@.len() < crate::boot_info::MAX_MEMORY_REGIONS {
            old(map)@.push(
                MemoryRegion { base: start, size: (pages * 4096) as u64, kind: kind_of(ty) },
            )
        } else {
            old(map)@
        },
{
    map.push(
        MemoryRegion { base: start, size: pages * 4096, kind: uefi_memory_type_to_kind(ty) },
    );
}

// ── ACPI and SMBIOS ──────────────────────────────────────────────────────────
/// Kinds of firmware configuration tables.
#[derive(Copy, Clone, Debug, PartialEq, Eq, Structural)]
pub enum ConfigTable {
    /// ACPI 1.0.
    Acpi1,
    /// ACPI 2.0 or later.
    Acpi2,
    /// SMBIOS with 32-bit entry point.
    Smbios2,
    /// SMBIOS with 64-bit entry point.
    Smbios3,
    Other,
}

/// Address of the last table of kind `kind`.
pub open spec fn last_table(tables: Seq<(ConfigTable, u64)>, kind: ConfigTable) -> Option<u64>
    decreases tables.len(),
{
    if tables.len() == 0 {
        None
    } else if tables.last().0 == kind {
        Some(tables.last().1)
    } else {
        last_table(tables.drop_last(), kind)
    }
}

/// Address of the first table of kind `kind`.
pub open spec fn first_table(tables: Seq<(ConfigTable, u64)>, kind: ConfigTable) -> Option<u64>
    decreases tables.len(),
{
    if tables.len() == 0 {
        None
    } else {
        match first_table(tables.drop_last(), kind) {
            Some(a) => Some(a),
            None => if tables.last().0 == kind {
                Some(tables.last().1)
            } else {
                None
            },
        }
    }
}

/// The ACPI tables: those of the later version if there are any.
pub open spec fn acpi_of(tables: Seq<(ConfigTable, u64)>) -> Option<AcpiInfo> {
    match last_table(tables, ConfigTable::Acpi2) {
        Some(a) => Some(AcpiInfo { rsdp_address: a, version: 2 }),
        None => match last_table(tables, ConfigTable::Acpi1) {
            Some(a) => Some(AcpiInfo { rsdp_address: a, version: 1 }),
            None => None,
        },
    }
}

/// The SMBIOS tables: those with the 64-bit entry point if there are any.
pub open spec fn smbios_of(tables: Seq<(ConfigTable, u64)>) -> Option<SmbiosInfo> {
    match last_table(tables, ConfigTable::Smbios3) {
        Some(a) => Some(SmbiosInfo { address: a, version: 3 }),
        None => match first_table(tables, ConfigTable::Smbios2) {
            Some(a) => Some(SmbiosInfo { address: a, version: 2 }),
            None => None,
        },
    }
}

/// Picks the ACPI and SMBIOS tables from the configuration tables.
pub fn collect_acpi_and_smbios(tables: &[(ConfigTable, u64)]) -> (r: (
    Option<AcpiInfo>,
    Option<SmbiosInfo>,
))
    ensures
        r.0 == acpi_of(tables@),
        r.1 == smbios_of(tables@),
{
    let mut acpi: Option<AcpiInfo> = None;
    let mut smbios: Option<SmbiosInfo> = None;
    let mut acpi1: Option<u64> = None;
    let mut i: usize = 0;
    assert(tables@.take(0) =~= Seq::<(ConfigTable, u64)>::empty());
    while i < tables.len()
        invariant
            i <= tables@.len(),
            acpi == match last_table(tables@.take(i as int), ConfigTable::Acpi2) {
                Some(a) => Some(AcpiInfo { rsdp_address: a, version: 2 }),
                None => None,
            },
            acpi is None ==> acpi1 == last_table(tables@.take(i as int), ConfigTable::Acpi1),
            smbios == smbios_of(tables@.take(i as int)),
        decreases tables@.len() - i,
    {
        let (kind, address) = tables[i];
        assert(tables@.take(i + 1).drop_last() =~= tables@.take(i as int));
        match kind {
            ConfigTable::Acpi2 => {
                acpi = Some(AcpiInfo { rsdp_address: address, version: 2 });
            },
            ConfigTable::Acpi1 => {
                if acpi.is_none() {
                    acpi1 = Some(address);
                }
            },
            ConfigTable::Smbios3 => {
                smbios = Some(SmbiosInfo { address, version: 3 });
            },
            ConfigTable::Smbios2 => {
                if smbios.is_none() {
                    smbios = Some(SmbiosInfo { address, version: 2 });
                }
            },
            ConfigTable::Other => {},
        }
        i = i + 1;
    }
    assert(tables@.take(tables@.len() as int) =~= tables@);
    if acpi.is_none() {
        if let Some(address) = acpi1 {
            acpi = Some(AcpiInfo { rsdp_address: address, version: 1 });
        }
    }
    (acpi, smbios)
}

// ── Displays, Secure Boot and load options ───────────────────────────────────
/// Pixel formats the firmware reports.
#[derive(Copy, Clone, Debug)]
pub enum PixelFormat {
    Rgb,
    Bgr,
    BltOnly,
    /// With the masks for red, green, blue and reserved bits, if there are any.
    Bitmask(Option<(u32, u32, u32, u32)>),
}

/// The pixel encoding of a framebuffer. Missing masks are taken as the common
/// blue, green, red order.
pub fn framebuffer_format(format: PixelFormat) -> (r: FrameBufferFormat)
    ensures
        r == match format {
            PixelFormat::Rgb => FrameBufferFormat::Rgb32,
            PixelFormat::Bgr => FrameBufferFormat::Bgr32,
            PixelFormat::BltOnly => FrameBufferFormat::BltOnly,
            PixelFormat::Bitmask(Some((red, green, blue, reserved))) => FrameBufferFormat::Bitmask {
                red,
                green,
                blue,
                reserved,
            },
            PixelFormat::Bitmask(None) => FrameBufferFormat::Bgr32,
        },
{
    match format {
        PixelFormat::Rgb => FrameBufferFormat::Rgb32,
        PixelFormat::Bgr => FrameBufferFormat::Bgr32,
        PixelFormat::BltOnly => FrameBufferFormat::BltOnly,
        PixelFormat::Bitmask(masks) => match masks {
            Some((red, green, blue, reserved)) => FrameBufferFormat::Bitmask {
                red,
                green,
                blue,
                reserved,
            },
            None => FrameBufferFormat::Bgr32,
        },
    }
}

/// The state that the `SecureBoot` and `SetupMode` variables stand for.
pub fn collect_secure_boot(secure_boot: Option<u8>, setup_mode: Option<u8>) -> (r: SecureBootState)
    ensures
        r == if setup_mode == Some(1u8) {
            SecureBootState::SetupMode
        } else if secure_boot == Some(1u8) {
            SecureBootState::Enabled
        } else if secure_boot == Some(0u8) {
            SecureBootState::Disabled
        } else {
            SecureBootState::Unknown
        },
{
    if let Some(m) = setup_mode {
        if m == 1 {
            return SecureBootState::SetupMode;
        }
    }
    match secure_boot {
        Some(s) => {
            if s == 1 {
                SecureBootState::Enabled
            } else if s == 0 {
                SecureBootState::Disabled
            } else {
                SecureBootState::Unknown
            }
        },
        None => SecureBootState::Unknown,
    }
}

/// The ASCII characters of the 16-bit string in `raw` from character `from` to
/// its first NUL.
pub open spec fn ascii_from(raw: Seq<u8>, from: int) -> Seq<u8>
    decreases raw.len() - from,
{
    if from < 0 || from + 2 > raw.len() {
        Seq::empty()
    } else {
        let code = crate::bytes::le16(raw, from);
        if code == 0 {
            Seq::empty()
        } else if code < 128 {
            seq![code as u8] + ascii_from(raw, from + 2)
        } else {
            ascii_from(raw, from + 2)
        }
    }
}

/// The load options in `raw`: a 16-bit string reduced to ASCII, or the bytes
/// themselves if they cannot be such a string.
pub open spec fn options_of(raw: Seq<u8>) -> Seq<u8> {
    if raw.len() >= 2 && raw.len() % 2 == 0 {
        ascii_from(raw, 0)
    } else {
        raw
    }
}

/// Stores the load options in `raw`.
pub fn collect_load_options(options: &mut LoadOptions, raw: &[u8])
    requires
        old(options).wf(),
    ensures
        final(options).wf(),
        final(options)@ == crate::boot_info::kept_options(options_of(raw@)),
{
    if raw.len() >= 2 && raw.len() % 2 == 0 {
        let mut ascii: Vec<u8> = Vec::new();
        let mut i: usize = 0;
        assert(ascii@ + ascii_from(raw@, 0) =~= ascii_from(raw@, 0));
        while i + 1 < raw.len()
            invariant_except_break
                i <= raw@.len(),
                raw@.len() == raw.len(),
                raw@.len() % 2 == 0,
                i % 2 == 0,
                ascii@ + ascii_from(raw@, i as int) == ascii_from(raw@, 0),
            ensures
                ascii@ == ascii_from(raw@, 0),
            decreases raw@.len() - i,
        {
            let code: u16 = crate::bytes::get_u16(raw, i);
            if code == 0 {
                assert(ascii@ + Seq::<u8>::empty() =~= ascii@);
                break ;
            }
            let ghost before = ascii@;
            if code < 128 {
                ascii.push(code as u8);
            }
            proof {
                let rest = ascii_from(raw@, i + 2);
                if code < 128 {
                    assert(before + (seq![code as u8] + rest) =~= before.push(code as u8) + rest);
                }
            }
            i = i + 2;
            if i == raw.len() {
                assert(ascii@ + Seq::<u8>::empty() =~= ascii@);
            }
        }
        options.set(ascii.as_slice());
    } else {
        options.set(raw);
    }
}

// ── Boot time ────────────────────────────────────────────────────────────────
/// A date and time as the firmware gives it.
#[derive(Clone, Copy, Debug, PartialEq, Eq, Structural)]
pub struct ClockTime {
    pub year: u16,
    pub month: u8,
    pub day: u8,
    pub hour: u8,
    pub minute: u8,
    pub second: u8,
    pub nanosecond: u32,
    /// Minutes ahead of universal time; absent for local time.
    pub time_zone: Option<i16>,
}

/// Every field is in the range that the firmware interface allows. A time zone
/// of 2047 stands for local time too.
pub open spec fn clock_valid(t: ClockTime) -> bool {
    &&& 1900 <= t.year <= 9999
    &&& 1 <= t.month <= 12
    &&& 1 <= t.day <= 31
    &&& t.hour <= 23
    &&& t.minute <= 59
    &&& t.second <= 59
    &&& t.nanosecond <= 999_999_999
    &&& t.time_zone matches Some(z) ==> -1440 <= z <= 1440 || z == 2047
}

/// `uefi::table::runtime::Time::new`: makes a time of the fields if and only if
/// each of them is in its range. Daylight saving plays no part in that.
#[verifier::external_body]
fn time_accepted(t: &ClockTime) -> (r: bool)
    ensures
        r == clock_valid(*t),
{
    Time::new(TimeParams {
        year: t.year,
        month: t.month,
        day: t.day,
        hour: t.hour,
        minute: t.minute,
        second: t.second,
        nanosecond: t.nanosecond,
        time_zone: t.time_zone,
        daylight: Daylight::empty(),
    }).is_ok()
}

/// The time of boot, if the firmware gave a valid one.
pub fn collect_boot_time(time: Option<ClockTime>) -> (r: Option<BootTime>)
    ensures
        r == match time {
            Some(t) if clock_valid(t) => Some(
                BootTime {
                    year: t.year,
                    month: t.month,
                    day: t.day,
                    hour: t.hour,
                    minute: t.minute,
                    second: t.second,
                },
            ),
            _ => None,
        },
{
    let t = match time {
        Some(t) => t,
        None => return None,
    };
    if !time_accepted(&t) {
        return None;
    }
    Some(
        BootTime {
            year: t.year,
            month: t.month,
            day: t.day,
            hour: t.hour,
            minute: t.minute,
            second: t.second,
        },
    )
}

/// Adds up the usable memory.
pub fn finish(info: &mut BootInfo)
    requires
        old(info).wf(),
    ensures
        final(info).wf(),
        *final(info) == (BootInfo {
            total_memory_bytes: crate::boot_info::usable_bytes(old(info).memory_map@),
            ..*old(info)
        }),
{
    info.total_memory_bytes = info.memory_map.total_usable_bytes();
}

// ── Laws ─────────────────────────────────────────────────────────────────────
/// Reducing a text to ASCII keeps the order of its characters: a text in two parts
/// gives what the parts give.
pub proof fn law_ascii_is_reduced_part_by_part(a: Seq<u16>, b: Seq<u16>)
    ensures
        ascii_of(a + b) == ascii_of(a) + ascii_of(b),
    decreases b.len(),
{
    if b.len() == 0 {
        assert(a + b =~= a);
        assert(ascii_of(a) + ascii_of(b) =~= ascii_of(a));
    } else {
        law_ascii_is_reduced_part_by_part(a, b.drop_last());
        assert((a + b).drop_last() =~= a + b.drop_last());
        assert((a + b).last() == b.last());
        assert(ascii_of(a + b) =~= ascii_of(a) + ascii_of(b));
    }
}

/// Of the characters exactly those from 1 to 127 are kept, each as it is.
pub proof fn law_ascii_keeps_ascii(code: u16)
    ensures
        ascii_of(seq![code]) == if 1 <= code <= 127 {
            seq![code as u8]
        } else {
            Seq::<u8>::empty()
        },
{
    reveal_with_fuel(ascii_of, 2);
    assert(seq![code].drop_last() =~= Seq::<u16>::empty());
    assert(ascii_of(seq![code]) =~= if 1 <= code <= 127 {
        seq![code as u8]
    } else {
        Seq::<u8>::empty()
    });
}

proof fn lemma_word_bytes(w: u32)
    ensures
        word_byte(w, 0) + word_byte(w, 1) * 0x100 + word_byte(w, 2) * 0x1_0000 + word_byte(w, 3)
            * 0x100_0000 == w,
{
}

/// The vendor name is the three registers EBX, EDX and ECX written one after the
/// other in memory.
pub proof fn law_vendor_name_is_three_registers(r: CpuidRegs)
    ensures
        vendor_bytes(r).len() == 12,
        crate::bytes::le32(vendor_bytes(r), 0) == r.ebx,
        crate::bytes::le32(vendor_bytes(r), 4) == r.edx,
        crate::bytes::le32(vendor_bytes(r), 8) == r.ecx,
{
    lemma_word_bytes(r.ebx);
    lemma_word_bytes(r.edx);
    lemma_word_bytes(r.ecx);
}

/// The brand string is the four registers of each of its three leaves written one
/// after the other in memory.
pub proof fn law_brand_is_twelve_registers(brand: Seq<CpuidRegs>, i: int)
    requires
        brand.len() == 3,
        0 <= i < 3,
    ensures
        brand_bytes(brand).len() == 48,
        crate::bytes::le32(brand_bytes(brand), 16 * i) == brand[i].eax,
        crate::bytes::le32(brand_bytes(brand), 16 * i + 4) == brand[i].ebx,
        crate::bytes::le32(brand_bytes(brand), 16 * i + 8) == brand[i].ecx,
        crate::bytes::le32(brand_bytes(brand), 16 * i + 12) == brand[i].edx,
{
    lemma_brand_word(brand, i, 0);
    lemma_brand_word(brand, i, 1);
    lemma_brand_word(brand, i, 2);
    lemma_brand_word(brand, i, 3);
}

proof fn lemma_brand_word(brand: Seq<CpuidRegs>, i: int, j: int)
    requires
        brand.len() == 3,
        0 <= i < 3,
        0 <= j < 4,
    ensures
        crate::bytes::le32(brand_bytes(brand), 16 * i + 4 * j) == reg(brand[i], j),
{
    let off = 16 * i + 4 * j;
    assert forall|b: int| 0 <= b < 4 implies #[trigger] brand_bytes(brand)[off + b] == word_byte(
        reg(brand[i], j),
        b,
    ) by {
        assert((off + b) / 16 == i);
        assert((off + b) / 4 % 4 == j);
        assert((off + b) % 4 == b);
    }
    assert(brand_bytes(brand)[off + 0] == word_byte(reg(brand[i], j), 0));
    lemma_word_bytes(reg(brand[i], j));
}

/// Trimming takes away NULs at the end and nothing else, and leaves none there.
pub proof fn law_trimming_takes_only_nuls(s: Seq<u8>)
    ensures
        0 <= trimmed_len(s) <= s.len(),
        forall|k: int| trimmed_len(s) <= k < s.len() ==> s[k] == 0,
        trimmed_len(s) > 0 ==> s[trimmed_len(s) - 1] != 0,
    decreases s.len(),
{
    if s.len() > 0 && s.last() == 0 {
        let t = s.drop_last();
        law_trimming_takes_only_nuls(t);
        assert forall|k: int| trimmed_len(s) <= k < s.len() implies s[k] == 0 by {
            if k < t.len() {
                assert(t[k] == s[k]);
            }
        }
    }
}

/// Family and model can be read back from the version: a family below 15 is in
/// bits 8 to 11, one from 15 on exceeds 15 by bits 20 to 27. The low half of the
/// model is in bits 4 to 7, the high half, which families 6 and up to 15 have, in
/// bits 16 to 19.
pub proof fn law_version_tells_family_and_model(eax: u32)
    ensures
        eax / 256 % 16 < 15 ==> cpu_family(eax) == eax / 256 % 16,
        eax / 256 % 16 == 15 && eax / 0x10_0000 % 256 <= 240 ==> cpu_family(eax) - 15 == eax
            / 0x10_0000 % 256,
        cpu_model(eax) % 16 == eax / 16 % 16,
        eax / 256 % 16 == 6 || eax / 256 % 16 == 15 ==> cpu_model(eax) / 16 == eax / 0x1_0000 % 16,
        eax / 256 % 16 != 6 && eax / 256 % 16 != 15 ==> cpu_model(eax) < 16,
{
}

/// Only memory that the firmware calls conventional is free from the start. What
/// the loader holds is the kernel's image, and only runtime services, ACPI, device
/// registers and reserved memory stay as the firmware has them.
pub proof fn law_only_conventional_memory_is_free(ty: u32)
    ensures
        kind_of(ty) is Usable <==> ty == 7,
        kind_of(ty) is KernelImage <==> 1 <= ty <= 2,
        kind_of(ty) is BootServices <==> 3 <= ty <= 4,
        kind_of(ty) is RuntimeServices <==> 5 <= ty <= 6,
        kind_of(ty) is AcpiReclaimable <==> ty == 9,
        kind_of(ty) is AcpiNvs <==> ty == 10,
        kind_of(ty) is Mmio <==> 11 <= ty <= 12,
        kind_of(ty) is Reserved <==> ty == 0,
{
}

proof fn lemma_last_table(tables: Seq<(ConfigTable, u64)>, kind: ConfigTable)
    ensures
        last_table(tables, kind) is Some <==> exists|i: int|
            0 <= i < tables.len() && (#[trigger] tables[i]).0 == kind,
        last_table(tables, kind) matches Some(a) ==> tables.contains((kind, a)),
    decreases tables.len(),
{
    if tables.len() > 0 {
        let init = tables.drop_last();
        lemma_last_table(init, kind);
        assert(forall|i: int| 0 <= i < init.len() ==> init[i] == tables[i]);
        if tables.last().0 == kind {
            assert(tables[tables.len() - 1] == (kind, tables.last().1));
        }
        if exists|i: int| 0 <= i < init.len() && (#[trigger] init[i]).0 == kind {
            let i = choose|i: int| 0 <= i < init.len() && (#[trigger] init[i]).0 == kind;
            assert(tables[i].0 == kind);
        }
        if exists|i: int| 0 <= i < tables.len() && (#[trigger] tables[i]).0 == kind {
            let i = choose|i: int| 0 <= i < tables.len() && (#[trigger] tables[i]).0 == kind;
            if i < init.len() {
                assert(init[i].0 == kind);
            }
        }
    }
}

proof fn lemma_first_table(tables: Seq<(ConfigTable, u64)>, kind: ConfigTable)
    ensures
        first_table(tables, kind) is Some <==> exists|i: int|
            0 <= i < tables.len() && (#[trigger] tables[i]).0 == kind,
        first_table(tables, kind) matches Some(a) ==> tables.contains((kind, a)),
    decreases tables.len(),
{
    if tables.len() > 0 {
        let init = tables.drop_last();
        lemma_first_table(init, kind);
        assert(forall|i: int| 0 <= i < init.len() ==> init[i] == tables[i]);
        if tables.last().0 == kind {
            assert(tables[tables.len() - 1] == (kind, tables.last().1));
        }
        if exists|i: int| 0 <= i < init.len() && (#[trigger] init[i]).0 == kind {
            let i = choose|i: int| 0 <= i < init.len() && (#[trigger] init[i]).0 == kind;
            assert(tables[i].0 == kind);
        }
        if exists|i: int| 0 <= i < tables.len() && (#[trigger] tables[i]).0 == kind {
            let i = choose|i: int| 0 <= i < tables.len() && (#[trigger] tables[i]).0 == kind;
            if i < init.len() {
                assert(init[i].0 == kind);
            }
        }
    }
}

/// The firmware reports a table of the given kind.
pub open spec fn reported(tables: Seq<(ConfigTable, u64)>, kind: ConfigTable) -> bool {
    exists|i: int| 0 <= i < tables.len() && (#[trigger] tables[i]).0 == kind
}

/// The address that is used is one that the firmware reported for a table of that
/// version, and the later version is used whenever there is one.
pub proof fn law_later_tables_are_preferred(tables: Seq<(ConfigTable, u64)>)
    ensures
        match acpi_of(tables) {
            Some(a) => {
                &&& a.version == 2 <==> reported(tables, ConfigTable::Acpi2)
                &&& a.version == 2 ==> tables.contains((ConfigTable::Acpi2, a.rsdp_address))
                &&& a.version != 2 ==> a.version == 1 && tables.contains(
                    (ConfigTable::Acpi1, a.rsdp_address),
                )
            },
            None => !reported(tables, ConfigTable::Acpi1) && !reported(tables, ConfigTable::Acpi2),
        },
        match smbios_of(tables) {
            Some(a) => {
                &&& a.version == 3 <==> reported(tables, ConfigTable::Smbios3)
                &&& a.version == 3 ==> tables.contains((ConfigTable::Smbios3, a.address))
                &&& a.version != 3 ==> a.version == 2 && tables.contains(
                    (ConfigTable::Smbios2, a.address),
                )
            },
            None => !reported(tables, ConfigTable::Smbios2) && !reported(
                tables,
                ConfigTable::Smbios3,
            ),
        },
{
    lemma_last_table(tables, ConfigTable::Acpi1);
    lemma_last_table(tables, ConfigTable::Acpi2);
    lemma_last_table(tables, ConfigTable::Smbios3);
    lemma_first_table(tables, ConfigTable::Smbios2);
}

/// The 16-bit characters in `raw`.
pub open spec fn characters(raw: Seq<u8>) -> Seq<u16> {
    Seq::new(raw.len() / 2, |i: int| crate::bytes::le16(raw, 2 * i))
}

proof fn lemma_ascii_from(raw: Seq<u8>, i: int, n: int)
    requires
        0 <= i <= n <= characters(raw).len(),
        forall|k: int| i <= k < n ==> characters(raw)[k] != 0,
        n < characters(raw).len() ==> characters(raw)[n] == 0,
    ensures
        ascii_from(raw, 2 * i) == ascii_of(characters(raw).subrange(i, n)),
    decreases n - i,
{
    let c = characters(raw);
    if i < n {
        assert(c[i] != 0);
        lemma_ascii_from(raw, i + 1, n);
        let head = seq![c[i]];
        assert(c.subrange(i, n) =~= head + c.subrange(i + 1, n));
        law_ascii_is_reduced_part_by_part(head, c.subrange(i + 1, n));
        law_ascii_keeps_ascii(c[i]);
        assert(2 * i + 2 == 2 * (i + 1));
        assert(ascii_from(raw, 2 * i) =~= ascii_of(head) + ascii_of(c.subrange(i + 1, n)));
    } else {
        assert(c.subrange(i, n) =~= Seq::<u16>::empty());
        if n < c.len() {
            assert(crate::bytes::le16(raw, 2 * n) == c[n]);
        }
    }
}

/// Load options of even length are 16-bit characters up to the first NUL, reduced
/// to ASCII; others are taken as they are.
pub proof fn law_options_are_text_up_to_the_nul(raw: Seq<u8>, n: int)
    requires
        0 <= n <= characters(raw).len(),
        forall|k: int| 0 <= k < n ==> characters(raw)[k] != 0,
        n < characters(raw).len() ==> characters(raw)[n] == 0,
    ensures
        raw.len() % 2 == 0 ==> options_of(raw) == ascii_of(characters(raw).take(n)),
        raw.len() % 2 == 1 ==> options_of(raw) == raw,
{
    if raw.len() % 2 == 0 {
        if raw.len() == 0 {
            assert(characters(raw).take(n) =~= Seq::<u16>::empty());
            assert(options_of(raw) =~= Seq::<u8>::empty());
        } else {
            lemma_ascii_from(raw, 0, n);
        }
    }
}

/// What the processor is said to be able to do comes from leaves that it has: a
/// feature word of leaf 7 is 0 on a processor whose leaves end before it.
pub proof fn law_features_come_from_present_leaves(leaves: CpuidLeaves, cpu: CpuInfo)
    requires
        describes_cpu(leaves, cpu),
    ensures
        leaves.basic.eax >= 7 ==> cpu.features.leaf7_ebx == leaves.extended.ebx
            && cpu.features.leaf7_ecx == leaves.extended.ecx,
        leaves.basic.eax < 7 ==> cpu.features.leaf7_ebx == 0 && cpu.features.leaf7_ecx == 0,
        leaves.basic.eax >= 1 ==> cpu.features.leaf1_ecx == leaves.version.ecx
            && cpu.features.leaf1_edx == leaves.version.edx,
        leaves.basic.eax < 1 ==> cpu.features.leaf1_ecx == 0 && cpu.features.leaf1_edx == 0
            && cpu.max_logical_cpus == 0,
        leaves.ext_basic.eax < 0x8000_0008 ==> cpu.physical_address_bits == 0
            && cpu.virtual_address_bits == 0,
        leaves.ext_basic.eax >= 0x8000_0008 ==> cpu.virtual_address_bits * 256
            + cpu.physical_address_bits == leaves.addresses.eax % 0x1_0000,
{
}

/// Stepping, and the number of logical processors, are read from the version leaf.
pub proof fn law_version_tells_stepping(leaves: CpuidLeaves, cpu: CpuInfo)
    requires
        describes_cpu(leaves, cpu),
        leaves.basic.eax >= 1,
    ensures
        cpu.stepping < 16,
        (leaves.version.eax - cpu.stepping) % 16 == 0,
        cpu.max_logical_cpus < 256,
        cpu.max_logical_cpus * 0x1_0000 <= leaves.version.ebx % 0x100_0000,
        leaves.version.ebx % 0x100_0000 < (cpu.max_logical_cpus + 1) * 0x1_0000,
        cpu.family == cpu_family(leaves.version.eax),
        cpu.model == cpu_model(leaves.version.eax),
        cpu.vendor@ == vendor_bytes(leaves.basic),
{
}

/// A name is cut off only if it is too long, and then at its end.
pub proof fn law_names_are_cut_off_at_the_end(s: Seq<u8>, n: int)
    requires
        0 <= n,
    ensures
        at_most(s, n).is_prefix_of(s),
        s.len() <= n ==> at_most(s, n) == s,
        s.len() > n ==> at_most(s, n).len() == n,
{
}

/// The brand string is known only to processors that have all three of its leaves,
/// and is their registers without the NULs at its end.
pub proof fn law_brand_needs_its_leaves(leaves: CpuidLeaves, cpu: CpuInfo, k: int)
    requires
        cpu.wf(),
        describes_cpu(leaves, cpu),
    ensures
        leaves.ext_basic.eax < 0x8000_0004 ==> cpu.brand_len == 0,
        leaves.ext_basic.eax >= 0x8000_0004 ==> {
            &&& 0 <= k < cpu.brand_len ==> cpu.brand@[k] == brand_bytes(leaves.brand@)[k]
            &&& cpu.brand_len <= k < 48 ==> brand_bytes(leaves.brand@)[k] == 0
            &&& cpu.brand_len > 0 ==> brand_bytes(leaves.brand@)[cpu.brand_len - 1] != 0
        },
{
    let bytes = brand_bytes(leaves.brand@);
    law_trimming_takes_only_nuls(bytes);
    let kept = cpu.brand@.take(cpu.brand_len as int);
    assert(kept.len() == cpu.brand_len);
    if leaves.ext_basic.eax >= 0x8000_0004 {
        assert(kept.len() == trimmed_len(bytes));
        if 0 <= k < cpu.brand_len {
            assert(kept[k] == bytes[k]);
        }
    }
}

} // verus!
