//! What the firmware tells the kernel about the machine.

use vstd::prelude::*;
use vstd::slice::slice_subrange;

verus! {

/// Memory regions the map can hold.
pub const MAX_MEMORY_REGIONS: usize = 128;

/// Displays the list can hold.
pub const MAX_DISPLAYS: usize = 4;

/// Bytes of load options that are kept.
pub const MAX_LOAD_OPTIONS: usize = 256;

/// Bytes of the firmware vendor name that are kept.
pub const MAX_VENDOR_LEN: usize = 64;

/// Bytes of the processor brand string.
pub const MAX_BRAND_LEN: usize = 48;

// ── Memory ───────────────────────────────────────────────────────────────────
/// How a region of physical memory may be used.
#[derive(Clone, Copy, Debug, PartialEq, Eq, Structural)]
pub enum MemoryKind {
    /// Free for the kernel.
    Usable,
    /// Reserved by the firmware.
    Reserved,
    /// ACPI tables, free once they have been read.
    AcpiReclaimable,
    /// ACPI memory that must be preserved.
    AcpiNvs,
    /// Device registers.
    Mmio,
    /// Firmware boot services, free after they have ended.
    BootServices,
    /// Firmware runtime services.
    RuntimeServices,
    /// The kernel image.
    KernelImage,
    /// Not known to be usable.
    Unknown,
}

/// A contiguous region of physical memory.
#[derive(Clone, Copy, Debug, PartialEq, Eq, Structural)]
pub struct MemoryRegion {
    pub base: u64,
    pub size: u64,
    pub kind: MemoryKind,
}

/// List of memory regions.
#[derive(Debug)]
pub struct MemoryMap {
    pub regions: [MemoryRegion; MAX_MEMORY_REGIONS],
    pub count: usize,
}

/// Sum of the sizes of the usable regions, cut off at `u64::MAX`.
pub open spec fn usable_bytes(regions: Seq<MemoryRegion>) -> u64
    decreases regions.len(),
{
    if regions.len() == 0 {
        0
    } else {
        let rest = usable_bytes(regions.drop_last());
        if regions.last().kind is Usable {
            if rest + regions.last().size > u64::MAX {
                u64::MAX
            } else {
                (rest + regions.last().size) as u64
            }
        } else {
            rest
        }
    }
}

/// Number of usable regions.
pub open spec fn usable_regions(regions: Seq<MemoryRegion>) -> nat
    decreases regions.len(),
{
    if regions.len() == 0 {
        0
    } else {
        usable_regions(regions.drop_last()) + if regions.last().kind is Usable {
            1nat
        } else {
            0nat
        }
    }
}

/// No region is usable.
pub open spec fn none_usable(regions: Seq<MemoryRegion>) -> bool {
    forall|j: int| 0 <= j < regions.len() ==> !((#[trigger] regions[j]).kind is Usable)
}

/// Region `i` is usable, none is larger, and none after it is as large.
pub open spec fn largest_usable(regions: Seq<MemoryRegion>, i: int) -> bool {
    &&& 0 <= i < regions.len()
    &&& regions[i].kind is Usable
    &&& forall|j: int|
        0 <= j < regions.len() && (#[trigger] regions[j]).kind is Usable ==> regions[j].size
            <= regions[i].size && (j > i ==> regions[j].size < regions[i].size)
}

impl View for MemoryMap {
    type V = Seq<MemoryRegion>;

    open spec fn view(&self) -> Seq<MemoryRegion> {
        self.regions@.take(self.count as int)
    }
}

impl MemoryMap {
    pub open spec fn wf(&self) -> bool {
        self.count <= MAX_MEMORY_REGIONS
    }

    /// Nothing is stored, and every place is an empty region of unknown kind.
    pub open spec fn is_blank(&self) -> bool {
        &&& self.count == 0
        &&& forall|i: int|
            0 <= i < MAX_MEMORY_REGIONS ==> #[trigger] self.regions@[i] == (MemoryRegion {
                base: 0,
                size: 0,
                kind: MemoryKind::Unknown,
            })
    }

    pub fn new() -> (r: Self)
        ensures
            r.wf(),
            r.is_blank(),
            r@ == Seq::<MemoryRegion>::empty(),
    {
        let r = MemoryMap {
            regions: [MemoryRegion { base: 0, size: 0, kind: MemoryKind::Unknown };
                MAX_MEMORY_REGIONS],
            count: 0,
        };
        assert(r@ =~= Seq::<MemoryRegion>::empty());
        r
    }

    /// Appends a region; one that does not fit is dropped.
    pub fn push(&mut self, region: MemoryRegion)
        requires
            old(self).wf(),
        ensures
            final(self).wf(),
            final(self)@ == if old(self)@.len() < MAX_MEMORY_REGIONS {
                old(self)@.push(region)
            } else {
                old(self)@
            },
    {
        if self.count < MAX_MEMORY_REGIONS {
            let i: usize = self.count;
            self.regions[i] = region;
            self.count = i + 1;
            assert(self@ =~= old(self)@.push(region));
        }
    }

    /// The stored regions.
    pub fn regions(&self) -> (r: &[MemoryRegion])
        requires
            self.wf(),
        ensures
            r@ == self@,
    {
        slice_subrange(&self.regions, 0, self.count)
    }

    pub fn len(&self) -> (r: usize)
        requires
            self.wf(),
        ensures
            r == self@.len(),
    {
        self.count
    }

    pub fn is_empty(&self) -> (r: bool)
        requires
            self.wf(),
        ensures
            r == (self@.len() == 0),
    {
        self.count == 0
    }

    /// Sum of the sizes of the usable regions.
    pub fn total_usable_bytes(&self) -> (r: u64)
        requires
            self.wf(),
        ensures
            r == usable_bytes(self@),
    {
        let mut total: u64 = 0;
        let mut i: usize = 0;
        while i < self.count
            invariant
                self.wf(),
                i <= self.count,
                total == usable_bytes(self@.take(i as int)),
            decreases self.count - i,
        {
            assert(self@.take(i + 1).drop_last() =~= self@.take(i as int));
            assert(self@.take(i + 1).last() == self.regions@[i as int]);
            if matches!(self.regions[i].kind, MemoryKind::Usable) {
                total = total.saturating_add(self.regions[i].size);
            }
            i = i + 1;
        }
        assert(self@.take(self.count as int) =~= self@);
        total
    }

    /// Number of usable regions.
    pub fn usable_count(&self) -> (r: usize)
        requires
            self.wf(),
        ensures
            r == usable_regions(self@),
    {
        let mut n: usize = 0;
        let mut i: usize = 0;
        while i < self.count
            invariant
                self.wf(),
                i <= self.count,
                n <= i,
                n == usable_regions(self@.take(i as int)),
            decreases self.count - i,
        {
            assert(self@.take(i + 1).drop_last() =~= self@.take(i as int));
            assert(self@.take(i + 1).last() == self.regions@[i as int]);
            if matches!(self.regions[i].kind, MemoryKind::Usable) {
                n = n + 1;
            }
            i = i + 1;
        }
        assert(self@.take(self.count as int) =~= self@);
        n
    }

    /// The largest usable region, the last of them if there are several.
    pub fn largest_usable_region(&self) -> (r: Option<&MemoryRegion>)
        requires
            self.wf(),
        ensures
            match r {
                Some(region) => exists|i: int|
                    #[trigger] largest_usable(self@, i) && *region == self@[i],
                None => none_usable(self@),
            },
    {
        let mut best: Option<usize> = None;
        let mut i: usize = 0;
        while i < self.count
            invariant
                self.wf(),
                i <= self.count,
                match best {
                    Some(b) => b < i && largest_usable(self@.take(i as int), b as int),
                    None => none_usable(self@.take(i as int)),
                },
            decreases self.count - i,
        {
            let ghost now = self@.take(i as int);
            let ghost next = self@.take(i + 1);
            assert(next[i as int] == self.regions@[i as int]);
            assert(forall|j: int| 0 <= j < i ==> next[j] == now[j]);
            if matches!(self.regions[i].kind, MemoryKind::Usable) {
                match best {
                    Some(b) => {
                        assert(now[b as int] == self.regions@[b as int]);
                        if self.regions[i].size >= self.regions[b].size {
                            best = Some(i);
                        }
                    },
                    None => {
                        best = Some(i);
                    },
                }
            }
            i = i + 1;
        }
        assert(self@.take(self.count as int) =~= self@);
        match best {
            Some(b) => {
                assert(largest_usable(self@, b as int));
                Some(&self.regions[b])
            },
            None => None,
        }
    }
}

// ── Displays ─────────────────────────────────────────────────────────────────
/// Pixel encoding of a framebuffer.
#[derive(Clone, Copy, Debug, PartialEq, Eq, Structural)]
pub enum FrameBufferFormat {
    /// Red, green, blue, unused.
    Rgb32,
    /// Blue, green, red, unused.
    Bgr32,
    /// One mask per channel.
    Bitmask { red: u32, green: u32, blue: u32, reserved: u32 },
    /// No direct access.
    BltOnly,
}

/// A framebuffer.
#[derive(Clone, Copy, Debug, PartialEq, Eq, Structural)]
pub struct FrameBufferInfo {
    pub base: u64,
    pub size: usize,
    pub width: u32,
    pub height: u32,
    /// Pixels per scan line.
    pub stride: u32,
    pub format: FrameBufferFormat,
}

/// The displays found at boot, the firmware's console first.
#[derive(Debug)]
pub struct DisplayList {
    pub entries: [Option<FrameBufferInfo>; MAX_DISPLAYS],
    pub count: usize,
}

impl View for DisplayList {
    type V = Seq<FrameBufferInfo>;

    open spec fn view(&self) -> Seq<FrameBufferInfo> {
        Seq::new(self.count as nat, |i: int| self.entries@[i]->0)
    }
}

impl DisplayList {
    /// Exactly the first `count` entries are filled.
    pub open spec fn wf(&self) -> bool {
        &&& self.count <= MAX_DISPLAYS
        &&& forall|i: int|
            0 <= i < MAX_DISPLAYS ==> ((#[trigger] self.entries@[i]) is Some <==> i < self.count)
    }

    pub fn new() -> (r: Self)
        ensures
            r.wf(),
            r@ == Seq::<FrameBufferInfo>::empty(),
    {
        DisplayList { entries: [None;MAX_DISPLAYS], count: 0 }
    }

    /// Appends a display; one that does not fit is dropped.
    pub fn push(&mut self, fb: FrameBufferInfo)
        requires
            old(self).wf(),
        ensures
            final(self).wf(),
            final(self)@ == if old(self)@.len() < MAX_DISPLAYS {
                old(self)@.push(fb)
            } else {
                old(self)@
            },
    {
        if self.count < MAX_DISPLAYS {
            let i: usize = self.count;
            self.entries[i] = Some(fb);
            self.count = i + 1;
            assert(self@ =~= old(self)@.push(fb));
        }
    }

    /// Display `i`, counted from 0.
    pub fn get(&self, i: usize) -> (r: Option<&FrameBufferInfo>)
        requires
            self.wf(),
        ensures
            match r {
                Some(fb) => i < self@.len() && *fb == self@[i as int],
                None => i >= self@.len(),
            },
    {
        if i < MAX_DISPLAYS {
            match &self.entries[i] {
                Some(fb) => Some(fb),
                None => None,
            }
        } else {
            None
        }
    }

    /// The first display.
    pub fn primary(&self) -> (r: Option<&FrameBufferInfo>)
        requires
            self.wf(),
        ensures
            match r {
                Some(fb) => self@.len() > 0 && *fb == self@[0],
                None => self@.len() == 0,
            },
    {
        self.get(0)
    }

    pub fn len(&self) -> (r: usize)
        ensures
            r == self@.len(),
    {
        self.count
    }

    pub fn is_empty(&self) -> (r: bool)
        ensures
            r == (self@.len() == 0),
    {
        self.count == 0
    }
}

// ── Firmware ─────────────────────────────────────────────────────────────────
/// Where the ACPI tables start, and in which version.
#[derive(Clone, Copy, Debug, PartialEq, Eq, Structural)]
pub struct AcpiInfo {
    pub rsdp_address: u64,
    pub version: u8,
}

/// Where the SMBIOS tables start, and in which version.
#[derive(Clone, Copy, Debug, PartialEq, Eq, Structural)]
pub struct SmbiosInfo {
    pub address: u64,
    pub version: u8,
}

/// Identity of the firmware.
#[derive(Clone, Copy, Debug)]
pub struct FirmwareInfo {
    /// Vendor name in ASCII.
    pub vendor: [u8; MAX_VENDOR_LEN],
    /// Bytes of `vendor` in use.
    pub vendor_len: usize,
    /// Major version in the upper, minor version in the lower half.
    pub uefi_revision: u32,
    pub firmware_revision: u32,
}

impl FirmwareInfo {
    pub open spec fn wf(&self) -> bool {
        self.vendor_len <= MAX_VENDOR_LEN
    }

    pub fn new() -> (r: Self)
        ensures
            r.wf(),
            r.vendor_len == 0,
            r.uefi_revision == 0,
            r.firmware_revision == 0,
            forall|i: int| 0 <= i < MAX_VENDOR_LEN ==> r.vendor@[i] == 0,
    {
        FirmwareInfo {
            vendor: [0;MAX_VENDOR_LEN],
            vendor_len: 0,
            uefi_revision: 0,
            firmware_revision: 0,
        }
    }

    /// The vendor name.
    pub fn vendor_str(&self) -> (r: &[u8])
        requires
            self.wf(),
        ensures
            r@ == self.vendor@.take(self.vendor_len as int),
    {
        slice_subrange(&self.vendor, 0, self.vendor_len)
    }

    /// Major version of the firmware interface.
    pub fn uefi_major(&self) -> (r: u16)
        ensures
            r == self.uefi_revision / 0x1_0000,
    {
        (self.uefi_revision / 0x1_0000) as u16
    }

    /// Minor version of the firmware interface.
    pub fn uefi_minor(&self) -> (r: u16)
        ensures
            r == self.uefi_revision % 0x1_0000,
    {
        (self.uefi_revision % 0x1_0000) as u16
    }
}

// ── Processor ────────────────────────────────────────────────────────────────
/// Feature words of the CPUID instruction.
#[derive(Clone, Copy, Debug, PartialEq, Eq, Structural)]
pub struct CpuFeatures {
    pub leaf1_ecx: u32,
    pub leaf1_edx: u32,
    pub leaf7_ebx: u32,
    pub leaf7_ecx: u32,
}

impl CpuFeatures {
    pub fn new() -> (r: Self)
        ensures
            r == (CpuFeatures { leaf1_ecx: 0, leaf1_edx: 0, leaf7_ebx: 0, leaf7_ecx: 0 }),
    {
        CpuFeatures { leaf1_ecx: 0, leaf1_edx: 0, leaf7_ebx: 0, leaf7_ecx: 0 }
    }

    /// Floating-point unit on chip.
    pub fn has_fpu(&self) -> (r: bool)
        ensures
            r == (self.leaf1_edx & 0x1 != 0),
    {
        self.leaf1_edx & 0x1 != 0
    }

    /// Physical address extension.
    pub fn has_pae(&self) -> (r: bool)
        ensures
            r == (self.leaf1_edx & 0x40 != 0),
    {
        self.leaf1_edx & 0x40 != 0
    }

    /// Model-specific registers.
    pub fn has_msr(&self) -> (r: bool)
        ensures
            r == (self.leaf1_edx & 0x20 != 0),
    {
        self.leaf1_edx & 0x20 != 0
    }

    /// Interrupt controller on chip.
    pub fn has_apic(&self) -> (r: bool)
        ensures
            r == (self.leaf1_edx & 0x200 != 0),
    {
        self.leaf1_edx & 0x200 != 0
    }

    /// SSE instructions.
    pub fn has_sse(&self) -> (r: bool)
        ensures
            r == (self.leaf1_edx & 0x200_0000 != 0),
    {
        self.leaf1_edx & 0x200_0000 != 0
    }

    /// SSE2 instructions.
    pub fn has_sse2(&self) -> (r: bool)
        ensures
            r == (self.leaf1_edx & 0x400_0000 != 0),
    {
        self.leaf1_edx & 0x400_0000 != 0
    }

    /// More than one logical processor per package.
    pub fn has_htt(&self) -> (r: bool)
        ensures
            r == (self.leaf1_edx & 0x1000_0000 != 0),
    {
        self.leaf1_edx & 0x1000_0000 != 0
    }

    /// SSE3 instructions.
    pub fn has_sse3(&self) -> (r: bool)
        ensures
            r == (self.leaf1_ecx & 0x1 != 0),
    {
        self.leaf1_ecx & 0x1 != 0
    }

    /// Carry-less multiplication.
    pub fn has_pclmul(&self) -> (r: bool)
        ensures
            r == (self.leaf1_ecx & 0x2 != 0),
    {
        self.leaf1_ecx & 0x2 != 0
    }

    /// SSSE3 instructions.
    pub fn has_ssse3(&self) -> (r: bool)
        ensures
            r == (self.leaf1_ecx & 0x200 != 0),
    {
        self.leaf1_ecx & 0x200 != 0
    }

    /// SSE4.1 instructions.
    pub fn has_sse4_1(&self) -> (r: bool)
        ensures
            r == (self.leaf1_ecx & 0x8_0000 != 0),
    {
        self.leaf1_ecx & 0x8_0000 != 0
    }

    /// SSE4.2 instructions.
    pub fn has_sse4_2(&self) -> (r: bool)
        ensures
            r == (self.leaf1_ecx & 0x10_0000 != 0),
    {
        self.leaf1_ecx & 0x10_0000 != 0
    }

    /// AES instructions.
    pub fn has_aes(&self) -> (r: bool)
        ensures
            r == (self.leaf1_ecx & 0x200_0000 != 0),
    {
        self.leaf1_ecx & 0x200_0000 != 0
    }

    /// AVX instructions.
    pub fn has_avx(&self) -> (r: bool)
        ensures
            r == (self.leaf1_ecx & 0x1000_0000 != 0),
    {
        self.leaf1_ecx & 0x1000_0000 != 0
    }

    /// RDRAND instruction.
    pub fn has_rdrand(&self) -> (r: bool)
        ensures
            r == (self.leaf1_ecx & 0x4000_0000 != 0),
    {
        self.leaf1_ecx & 0x4000_0000 != 0
    }

    /// POPCNT instruction.
    pub fn has_popcnt(&self) -> (r: bool)
        ensures
            r == (self.leaf1_ecx & 0x80_0000 != 0),
    {
        self.leaf1_ecx & 0x80_0000 != 0
    }

    /// AVX2 instructions.
    pub fn has_avx2(&self) -> (r: bool)
        ensures
            r == (self.leaf7_ebx & 0x20 != 0),
    {
        self.leaf7_ebx & 0x20 != 0
    }

    /// First bit-manipulation group.
    pub fn has_bmi1(&self) -> (r: bool)
        ensures
            r == (self.leaf7_ebx & 0x8 != 0),
    {
        self.leaf7_ebx & 0x8 != 0
    }

    /// Second bit-manipulation group.
    pub fn has_bmi2(&self) -> (r: bool)
        ensures
            r == (self.leaf7_ebx & 0x100 != 0),
    {
        self.leaf7_ebx & 0x100 != 0
    }

    /// RDSEED instruction.
    pub fn has_rdseed(&self) -> (r: bool)
        ensures
            r == (self.leaf7_ebx & 0x4_0000 != 0),
    {
        self.leaf7_ebx & 0x4_0000 != 0
    }

    /// Multi-precision addition.
    pub fn has_adx(&self) -> (r: bool)
        ensures
            r == (self.leaf7_ebx & 0x8_0000 != 0),
    {
        self.leaf7_ebx & 0x8_0000 != 0
    }

    /// SHA instructions.
    pub fn has_sha(&self) -> (r: bool)
        ensures
            r == (self.leaf7_ebx & 0x2000_0000 != 0),
    {
        self.leaf7_ebx & 0x2000_0000 != 0
    }

    /// Supervisor-mode execution prevention.
    pub fn has_smep(&self) -> (r: bool)
        ensures
            r == (self.leaf7_ebx & 0x80 != 0),
    {
        self.leaf7_ebx & 0x80 != 0
    }

    /// Supervisor-mode access prevention.
    pub fn has_smap(&self) -> (r: bool)
        ensures
            r == (self.leaf7_ebx & 0x10_0000 != 0),
    {
        self.leaf7_ebx & 0x10_0000 != 0
    }
}

/// Identity and features of the processor.
#[derive(Clone, Copy, Debug)]
pub struct CpuInfo {
    pub vendor: [u8; 12],
    pub brand: [u8; MAX_BRAND_LEN],
    /// Bytes of `brand` in use.
    pub brand_len: usize,
    pub family: u8,
    pub model: u8,
    pub stepping: u8,
    pub physical_address_bits: u8,
    pub virtual_address_bits: u8,
    /// Logical processors per package.
    pub max_logical_cpus: u32,
    pub features: CpuFeatures,
}

/// Number of blanks at the start of `s`.
pub open spec fn leading_blanks(s: Seq<u8>) -> int
    decreases s.len(),
{
    if s.len() > 0 && s[0] == 0x20 {
        1 + leading_blanks(s.drop_first())
    } else {
        0
    }
}

impl CpuInfo {
    pub open spec fn wf(&self) -> bool {
        self.brand_len <= MAX_BRAND_LEN
    }

    /// Nothing is known.
    pub open spec fn is_blank(&self) -> bool {
        &&& forall|i: int| 0 <= i < 12 ==> self.vendor@[i] == 0
        &&& forall|i: int| 0 <= i < MAX_BRAND_LEN ==> self.brand@[i] == 0
        &&& self.brand_len == 0
        &&& self.family == 0
        &&& self.model == 0
        &&& self.stepping == 0
        &&& self.physical_address_bits == 0
        &&& self.virtual_address_bits == 0
        &&& self.max_logical_cpus == 0
        &&& self.features == CpuFeatures {
            leaf1_ecx: 0,
            leaf1_edx: 0,
            leaf7_ebx: 0,
            leaf7_ecx: 0,
        }
    }

    pub fn new() -> (r: Self)
        ensures
            r.wf(),
            r.is_blank(),
    {
        CpuInfo {
            vendor: [0;12],
            brand: [0;MAX_BRAND_LEN],
            brand_len: 0,
            family: 0,
            model: 0,
            stepping: 0,
            physical_address_bits: 0,
            virtual_address_bits: 0,
            max_logical_cpus: 0,
            features: CpuFeatures::new(),
        }
    }

    /// The twelve bytes of the vendor name.
    pub fn vendor_str(&self) -> (r: &[u8])
        ensures
            r@ == self.vendor@,
    {
        let r = slice_subrange(&self.vendor, 0, 12);
        assert(r@ =~= self.vendor@);
        r
    }

    /// The brand string without the blanks at its start; the whole string if
    /// it is blank.
    pub fn brand_text(&self) -> (r: &[u8])
        requires
            self.wf(),
        ensures
            ({
                let brand = self.brand@.take(self.brand_len as int);
                let n = leading_blanks(brand);
                r@ == brand.skip(if n < brand.len() {
                    n
                } else {
                    0
                })
            }),
    {
        let brand = self.brand_str();
        let mut i: usize = 0;
        assert(brand@.skip(0) =~= brand@);
        while i < brand.len() && brand[i] == 0x20
            invariant
                i <= brand@.len(),
                leading_blanks(brand@) == i + leading_blanks(brand@.skip(i as int)),
            decreases brand@.len() - i,
        {
            assert(brand@.skip(i as int).drop_first() =~= brand@.skip(i + 1));
            i = i + 1;
        }
        if i == brand.len() {
            return brand;
        }
        assert(brand@.skip(i as int) =~= brand@.subrange(i as int, brand@.len() as int));
        slice_subrange(brand, i, brand.len())
    }

    /// The brand string without the NULs at its end.
    pub fn brand_str(&self) -> (r: &[u8])
        requires
            self.wf(),
        ensures
            r@ == self.brand@.take(self.brand_len as int),
    {
        slice_subrange(&self.brand, 0, self.brand_len)
    }
}

// ── Boot environment ─────────────────────────────────────────────────────────
/// Whether the firmware checks signatures.
#[derive(Clone, Copy, Debug, PartialEq, Eq, Structural)]
pub enum SecureBootState {
    /// Could not be found out.
    Unknown,
    Disabled,
    Enabled,
    /// Keys can be enrolled without authentication.
    SetupMode,
}

/// The kernel's command line.
#[derive(Debug)]
pub struct LoadOptions {
    pub data: [u8; MAX_LOAD_OPTIONS],
    pub len: usize,
}

/// The first bytes of `bytes` that fit.
pub open spec fn kept_options(bytes: Seq<u8>) -> Seq<u8> {
    if bytes.len() <= MAX_LOAD_OPTIONS {
        bytes
    } else {
        bytes.take(MAX_LOAD_OPTIONS as int)
    }
}

impl View for LoadOptions {
    type V = Seq<u8>;

    open spec fn view(&self) -> Seq<u8> {
        self.data@.take(self.len as int)
    }
}

/// `core::str::from_utf8`: gives the bytes as a string if and only if they are
/// valid UTF-8.
#[verifier::external_body]
fn utf8_str(bytes: &[u8]) -> (r: Option<&str>)
    ensures
        match r {
            Some(s) => vstd::utf8::valid_utf8(bytes@) && vstd::utf8::encode_utf8(s@) == bytes@,
            None => !vstd::utf8::valid_utf8(bytes@),
        },
{
    core::str::from_utf8(bytes).ok()
}

impl LoadOptions {
    pub open spec fn wf(&self) -> bool {
        self.len <= MAX_LOAD_OPTIONS
    }

    /// Nothing is stored, and every place is zero.
    pub open spec fn is_blank(&self) -> bool {
        &&& self.len == 0
        &&& forall|i: int| 0 <= i < MAX_LOAD_OPTIONS ==> #[trigger] self.data@[i] == 0
    }

    pub fn new() -> (r: Self)
        ensures
            r.wf(),
            r.is_blank(),
            r@ == Seq::<u8>::empty(),
    {
        let r = LoadOptions { data: [0;MAX_LOAD_OPTIONS], len: 0 };
        assert(r@ =~= Seq::<u8>::empty());
        r
    }

    /// Stores `bytes`; what does not fit is cut off.
    pub fn set(&mut self, bytes: &[u8])
        requires
            old(self).wf(),
        ensures
            final(self).wf(),
            final(self)@ == kept_options(bytes@),
    {
        let n: usize = if bytes.len() < MAX_LOAD_OPTIONS {
            bytes.len()
        } else {
            MAX_LOAD_OPTIONS
        };
        let mut i: usize = 0;
        while i < n
            invariant
                i <= n,
                n <= MAX_LOAD_OPTIONS,
                n <= bytes@.len(),
                forall|k: int| 0 <= k < i ==> self.data@[k] == bytes@[k],
            decreases n - i,
        {
            self.data[i] = bytes[i];
            i = i + 1;
        }
        self.len = n;
        assert(self@ =~= kept_options(bytes@));
    }

    /// The stored bytes.
    pub fn as_bytes(&self) -> (r: &[u8])
        requires
            self.wf(),
        ensures
            r@ == self@,
    {
        slice_subrange(&self.data, 0, self.len)
    }

    /// The stored bytes as a string, if they are valid UTF-8.
    pub fn as_str(&self) -> (r: Option<&str>)
        requires
            self.wf(),
        ensures
            match r {
                Some(s) => vstd::utf8::valid_utf8(self@) && vstd::utf8::encode_utf8(s@) == self@,
                None => !vstd::utf8::valid_utf8(self@),
            },
    {
        utf8_str(self.as_bytes())
    }

    pub fn is_empty(&self) -> (r: bool)
        requires
            self.wf(),
        ensures
            r == (self@.len() == 0),
    {
        self.len == 0
    }
}

/// Wall-clock time.
#[derive(Clone, Copy, Debug, PartialEq, Eq, Structural)]
pub struct BootTime {
    pub year: u16,
    pub month: u8,
    pub day: u8,
    pub hour: u8,
    pub minute: u8,
    pub second: u8,
}

/// All that was found out about the machine at boot. What could not be found
/// out is empty, absent or unknown.
#[derive(Debug)]
pub struct BootInfo {
    pub memory_map: MemoryMap,
    /// Sum of the sizes of the usable regions.
    pub total_memory_bytes: u64,
    pub displays: DisplayList,
    pub acpi: Option<AcpiInfo>,
    pub smbios: Option<SmbiosInfo>,
    pub firmware: FirmwareInfo,
    pub cpu: CpuInfo,
    pub secure_boot: SecureBootState,
    pub load_options: LoadOptions,
    pub boot_time: Option<BootTime>,
}

impl BootInfo {
    pub open spec fn wf(&self) -> bool {
        &&& self.memory_map.wf()
        &&& self.displays.wf()
        &&& self.firmware.wf()
        &&& self.cpu.wf()
        &&& self.load_options.wf()
    }

    pub fn new() -> (r: Self)
        ensures
            r.wf(),
            r.memory_map.is_blank(),
            r.memory_map@ == Seq::<MemoryRegion>::empty(),
            r.total_memory_bytes == 0,
            r.displays@ == Seq::<FrameBufferInfo>::empty(),
            r.acpi is None,
            r.smbios is None,
            r.firmware.vendor_len == 0,
            forall|i: int| 0 <= i < MAX_VENDOR_LEN ==> r.firmware.vendor@[i] == 0,
            r.firmware.uefi_revision == 0,
            r.firmware.firmware_revision == 0,
            r.cpu.is_blank(),
            r.secure_boot is Unknown,
            r.load_options.is_blank(),
            r.load_options@ == Seq::<u8>::empty(),
            r.boot_time is None,
    {
        BootInfo {
            memory_map: MemoryMap::new(),
            total_memory_bytes: 0,
            displays: DisplayList::new(),
            acpi: None,
            smbios: None,
            firmware: FirmwareInfo::new(),
            cpu: CpuInfo::new(),
            secure_boot: SecureBootState::Unknown,
            load_options: LoadOptions::new(),
            boot_time: None,
        }
    }
}

// ── Laws ─────────────────────────────────────────────────────────────────────
/// Usable memory adds up: what two lists of regions hold together is the sum of
/// what each of them holds, cut off at `u64::MAX`.
pub proof fn law_usable_memory_adds_up(a: Seq<MemoryRegion>, b: Seq<MemoryRegion>)
    ensures
        usable_bytes(a + b) == if usable_bytes(a) + usable_bytes(b) > u64::MAX {
            u64::MAX as int
        } else {
            usable_bytes(a) + usable_bytes(b)
        },
        usable_regions(a + b) == usable_regions(a) + usable_regions(b),
    decreases b.len(),
{
    if b.len() == 0 {
        assert(a + b =~= a);
    } else {
        law_usable_memory_adds_up(a, b.drop_last());
        assert((a + b).drop_last() =~= a + b.drop_last());
        assert((a + b).last() == b.last());
    }
}

/// A region counts in full if it is usable, and not at all otherwise.
pub proof fn law_only_usable_regions_count(region: MemoryRegion)
    ensures
        usable_bytes(seq![region]) == if region.kind is Usable {
            region.size
        } else {
            0
        },
        usable_regions(seq![region]) == if region.kind is Usable {
            1nat
        } else {
            0nat
        },
{
    reveal_with_fuel(usable_bytes, 2);
    reveal_with_fuel(usable_regions, 2);
    assert(seq![region].drop_last() =~= Seq::<MemoryRegion>::empty());
}

/// Only blanks count as leading blanks, and all of them do.
pub proof fn law_leading_blanks_are_blanks(s: Seq<u8>)
    ensures
        0 <= leading_blanks(s) <= s.len(),
        forall|k: int| 0 <= k < leading_blanks(s) ==> s[k] == 32,
        leading_blanks(s) < s.len() ==> s[leading_blanks(s)] != 32,
    decreases s.len(),
{
    if s.len() > 0 && s[0] == 0x20 {
        let t = s.drop_first();
        law_leading_blanks_are_blanks(t);
        assert forall|k: int| 0 <= k < leading_blanks(s) implies s[k] == 32 by {
            if k > 0 {
                assert(t[k - 1] == s[k]);
            }
        }
    }
}

/// Load options are kept from their start on, up to 256 bytes.
pub proof fn law_options_are_kept_from_the_start(bytes: Seq<u8>)
    ensures
        kept_options(bytes).is_prefix_of(bytes),
        bytes.len() <= 256 ==> kept_options(bytes) == bytes,
        bytes.len() > 256 ==> kept_options(bytes).len() == 256,
{
}

/// Of several largest regions the last one counts as the largest.
pub proof fn law_last_of_the_largest_counts(regions: Seq<MemoryRegion>, i: int, j: int)
    requires
        largest_usable(regions, i),
        0 <= j < regions.len(),
        regions[j].kind is Usable,
    ensures
        regions[j].size <= regions[i].size,
        regions[j].size == regions[i].size ==> j <= i,
        regions[i].kind is Usable,
{
}

} // verus!
