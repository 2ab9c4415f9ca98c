//! DMA remapping units, set up so that every device passes through a table of
//! the kernel.

use vstd::prelude::*;

use crate::memory::paging::{KernelMemory, KernelSpace};
use crate::memory::physical::global_alloc_4k;
use crate::memory::ram::Ram;
use crate::memory::PhysMemory;
use crate::polling::{Poll, PollStep, POLL_LIMIT};

verus! {

/// Offset of the version register.
pub const OFF_VER: u64 = 0x00;

/// Offset of the extended capability register.
pub const OFF_ECAP: u64 = 0x10;

/// Offset of the command register.
pub const OFF_GCMD: u64 = 0x18;

/// Offset of the status register.
pub const OFF_GSTS: u64 = 0x1C;

/// Offset of the register with the address of the root table.
pub const OFF_RTADDR: u64 = 0x20;

/// Translation is to be enabled, or is enabled.
pub const TRANSLATION: u32 = 0x8000_0000;

/// The root table is to be taken over, or is taken over.
pub const ROOT_POINTER: u32 = 0x4000_0000;

/// Write buffers are to be flushed, or are being flushed.
pub const WRITE_BUFFER: u32 = 0x0800_0000;

/// The unit can let requests pass untranslated.
pub const ECAP_PT: u64 = 0x40;

/// Domain of all devices.
pub const DOMAIN: u16 = 1;

/// Both words of a root table entry that points to the context table at
/// `ctx_phys`.
pub open spec fn root_words(ctx_phys: u64) -> (u64, u64) {
    ((ctx_phys / 0x1000 * 0x1000 + 1) as u64, 0)
}

/// Both words of a context table entry that lets requests of `domain_id` pass.
pub open spec fn passthrough_words(domain_id: u16) -> (u64, u64) {
    (9, domain_id as u64)
}

/// Root table entry for the context table at `ctx_phys`: present, with the
/// address of the table.
pub fn root_entry(ctx_phys: u64) -> (r: (u64, u64))
    ensures
        r == root_words(ctx_phys),
{
    (ctx_phys / 0x1000 * 0x1000 + 1, 0)
}

/// Context table entry of `domain_id`: present, and requests pass untranslated.
pub fn passthrough_context_entry(domain_id: u16) -> (r: (u64, u64))
    ensures
        r == passthrough_words(domain_id),
{
    (9, domain_id as u64)
}

/// Major and minor number in the version register.
pub fn version(ver: u32) -> (r: (u32, u32))
    ensures
        r.0 == ver / 16 % 16,
        r.1 == ver % 16,
{
    (ver / 16 % 16, ver % 16)
}

/// Words of a table whose entries all are `pair`.
pub open spec fn repeated(pair: (u64, u64)) -> spec_fn(int) -> u64 {
    |i: int|
        if i % 2 == 0 {
            pair.0
        } else {
            pair.1
        }
}

/// Memory after all entries of the table at `table` are set to `pair`.
pub open spec fn filled(m: Ram, table: u64, pair: (u64, u64)) -> Ram {
    crate::memory::paging::set_entries(m, table, repeated(pair), 512)
}

/// Sets all entries of the table at `table` to `pair`.
fn fill(ram: &mut PhysMemory, table: u64, pair: (u64, u64))
    requires
        old(ram).wf(),
        crate::memory::physical::is_frame(table),
    ensures
        final(ram).wf(),
        final(ram)@ == filled(old(ram)@, table, pair),
{
    let mut i: u64 = 0;
    while i < 512
        invariant
            i <= 512,
            ram.wf(),
            crate::memory::physical::is_frame(table),
            ram@ == crate::memory::paging::set_entries(old(ram)@, table, repeated(pair), i as nat),
        decreases 512 - i,
    {
        let w: u64 = if i % 2 == 0 {
            pair.0
        } else {
            pair.1
        };
        assert(w == repeated(pair)(i as int));
        ram.write_u64(table + 8 * i, w);
        i = i + 1;
    }
}

/// Effect of making the tables of a unit: the root table and whether it was
/// made. A frame is used up even if there is none for the second table.
pub open spec fn tables_made(k: KernelSpace) -> (
    KernelSpace,
    Option<u64>,
) {
    match k.take_frame() {
        None => (k, None),
        Some((root, k1)) => {
            let k1 = k1.cleared(root);
            match k1.take_frame() {
                None => (k1, None),
                Some((ctx, k2)) => {
                    let ram = k2.cleared(ctx).ram;
                    let ram = filled(ram, ctx, passthrough_words(DOMAIN));
                    let ram = filled(ram, root, root_words(ctx));
                    (KernelSpace { ram, ..k2 }, Some(root))
                },
            }
        },
    }
}

/// Makes the tables of a unit: one context table that lets every device pass,
/// and a root table that uses it for every bus. Gives the root table.
fn make_tables(mem: &mut KernelMemory) -> (r: Option<u64>)
    requires
        old(mem).wf(),
    ensures
        final(mem).wf(),
        (final(mem)@, r) == tables_made(old(mem)@),
{
    let root: u64 = match global_alloc_4k(&mut mem.frames) {
        Some(p) => p,
        None => {
            return None;
        },
    };
    mem.ram.zero(root, 4096);
    let ctx: u64 = match global_alloc_4k(&mut mem.frames) {
        Some(p) => p,
        None => {
            return None;
        },
    };
    mem.ram.zero(ctx, 4096);
    fill(&mut mem.ram, ctx, passthrough_context_entry(DOMAIN));
    fill(&mut mem.ram, root, root_entry(ctx));
    Some(root)
}

/// What the hardware is asked to do.
#[derive(Copy, Clone, Debug, PartialEq, Eq, Structural)]
pub enum Stage {
    /// Take over the root table.
    RootPointer,
    /// Flush the write buffers.
    WriteBuffer,
    /// Enable translation.
    Translation,
}

/// A unit that is being enabled.
#[derive(Copy, Clone, Debug, PartialEq, Eq, Structural)]
pub struct UnitInit {
    /// Address of the unit's registers.
    pub base: u64,
    /// Address of the root table, for the root table register.
    pub root: u64,
    pub stage: Stage,
    pub poll: Poll,
}

/// What to do after a read of the status register.
#[derive(Copy, Clone, Debug, PartialEq, Eq, Structural)]
pub enum UnitStep {
    /// Read the status again.
    Again,
    /// Write the command and read the status.
    Command(u32),
    /// The unit is enabled.
    Enabled,
    /// The unit did not answer in time.
    TimedOut,
}

/// The command of a stage.
pub open spec fn command_of(stage: Stage) -> u32 {
    match stage {
        Stage::RootPointer => ROOT_POINTER,
        Stage::WriteBuffer => WRITE_BUFFER,
        Stage::Translation => TRANSLATION,
    }
}

/// The status shows that the command of the stage is carried out.
pub open spec fn acknowledged(stage: Stage, status: u32) -> bool {
    match stage {
        Stage::RootPointer => status & ROOT_POINTER != 0,
        Stage::WriteBuffer => status & WRITE_BUFFER == 0,
        Stage::Translation => status & TRANSLATION != 0,
    }
}

/// The stage after this one.
pub open spec fn next_stage(stage: Stage) -> Option<Stage> {
    match stage {
        Stage::RootPointer => Some(Stage::WriteBuffer),
        Stage::WriteBuffer => Some(Stage::Translation),
        Stage::Translation => None,
    }
}

/// The unit, and what to do, after a read of the status register.
pub open spec fn unit_stepped(u: UnitInit, status: u32) -> (UnitInit, UnitStep) {
    let (poll, step) = crate::polling::polled(u.poll, acknowledged(u.stage, status));
    match step {
        PollStep::Again => (UnitInit { poll, ..u }, UnitStep::Again),
        PollStep::TimedOut => (UnitInit { poll, ..u }, UnitStep::TimedOut),
        PollStep::Ready => match next_stage(u.stage) {
            Some(stage) => (
                UnitInit { stage, poll: Poll { left: POLL_LIMIT }, ..u },
                UnitStep::Command(command_of(stage)),
            ),
            None => (u, UnitStep::Enabled),
        },
    }
}

/// Prepares the unit at `base`, whose extended capability register reads `ecap`.
/// The caller then writes the root table's address to its register, writes the
/// first command and reads the status. `None` if there is no unit, it cannot
/// let requests pass or there is no memory for its tables.
pub fn init_unit(mem: &mut KernelMemory, base: u64, ecap: u64) -> (r: Option<UnitInit>)
    requires
        old(mem).wf(),
    ensures
        final(mem).wf(),
        if base == 0 || ecap & ECAP_PT == 0 {
            *final(mem) == *old(mem) && r is None
        } else {
            let (space, made) = tables_made(old(mem)@);
            &&& final(mem)@ == space
            &&& r == match made {
                Some(root) => Some(
                    UnitInit {
                        base,
                        root,
                        stage: Stage::RootPointer,
                        poll: Poll { left: POLL_LIMIT },
                    },
                ),
                None => None,
            }
        },
{
    if base == 0 || ecap & ECAP_PT == 0 {
        return None;
    }
    match make_tables(mem) {
        Some(root) => Some(
            UnitInit { base, root, stage: Stage::RootPointer, poll: Poll::new() },
        ),
        None => None,
    }
}

impl UnitInit {
    /// The command of the current stage.
    pub fn command(&self) -> (r: u32)
        ensures
            r == command_of(self.stage),
    {
        match self.stage {
            Stage::RootPointer => ROOT_POINTER,
            Stage::WriteBuffer => WRITE_BUFFER,
            Stage::Translation => TRANSLATION,
        }
    }

    /// Takes note of a read of the status register.
    pub fn step(&mut self, status: u32) -> (r: UnitStep)
        ensures
            (*final(self), r) == unit_stepped(*old(self), status),
    {
        let ready: bool = match self.stage {
            Stage::RootPointer => status & ROOT_POINTER != 0,
            Stage::WriteBuffer => status & WRITE_BUFFER == 0,
            Stage::Translation => status & TRANSLATION != 0,
        };
        match self.poll.step(ready) {
            PollStep::Again => UnitStep::Again,
            PollStep::TimedOut => UnitStep::TimedOut,
            PollStep::Ready => match self.stage {
                Stage::RootPointer => {
                    self.stage = Stage::WriteBuffer;
                    self.poll = Poll::new();
                    UnitStep::Command(WRITE_BUFFER)
                },
                Stage::WriteBuffer => {
                    self.stage = Stage::Translation;
                    self.poll = Poll::new();
                    UnitStep::Command(TRANSLATION)
                },
                Stage::Translation => UnitStep::Enabled,
            },
        }
    }
}

/// Number of the first `n` units that are there and were enabled.
pub open spec fn enabled_units(units: Seq<u64>, enabled: Seq<bool>, n: nat) -> nat
    decreases n,
{
    if n == 0 {
        0
    } else {
        enabled_units(units, enabled, (n - 1) as nat) + if units[n - 1] != 0 && enabled[n - 1] {
            1nat
        } else {
            0
        }
    }
}

/// Number of units that were enabled; `enabled` says so of each unit. An
/// address of 0 is no unit.
pub fn init(units: &[u64], enabled: &[bool]) -> (r: usize)
    requires
        units@.len() == enabled@.len(),
    ensures
        r == enabled_units(units@, enabled@, units@.len()),
{
    let mut count: usize = 0;
    let mut i: usize = 0;
    while i < units.len()
        invariant
            i <= units@.len(),
            units@.len() == enabled@.len(),
            count <= i,
            count == enabled_units(units@, enabled@, i as nat),
        decreases units@.len() - i,
    {
        if units[i] != 0 && enabled[i] {
            count = count + 1;
        }
        i = i + 1;
    }
    count
}

// ── Laws ─────────────────────────────────────────────────────────────────────
/// With the tables of a unit every bus uses the one context table, and in it
/// every device function is present and passes untranslated.
pub proof fn law_every_device_passes(
    m: Ram,
    root: u64,
    ctx: u64,
    bus: int,
    function: int,
)
    requires
        crate::memory::laws::sound_frame(m, root),
        crate::memory::laws::sound_frame(m, ctx),
        root != ctx,
        0 <= bus < 256,
        0 <= function < 256,
    ensures
        ({
            let after = filled(
                filled(m, ctx, passthrough_words(DOMAIN)),
                root,
                root_words(ctx),
            );
            &&& after.word(root + 16 * bus) == ctx + 1
            &&& after.word(root + 16 * bus + 8) == 0
            &&& after.word(ctx + 16 * function) == 9
            &&& after.word(ctx + 16 * function + 8) == DOMAIN
        }),
{
    let m1 = filled(m, ctx, passthrough_words(DOMAIN));
    let pass = repeated(passthrough_words(DOMAIN));
    let point = repeated(root_words(ctx));
    crate::memory::laws::lemma_set_entries(m, ctx, pass, 512, ctx, 2 * function);
    crate::memory::laws::lemma_set_entries(m, ctx, pass, 512, ctx, 2 * function + 1);
    crate::memory::laws::lemma_set_entries(m1, root, point, 512, root, 2 * bus);
    crate::memory::laws::lemma_set_entries(m1, root, point, 512, root, 2 * bus + 1);
    crate::memory::laws::lemma_set_entries(m1, root, point, 512, ctx, 2 * function);
    crate::memory::laws::lemma_set_entries(m1, root, point, 512, ctx, 2 * function + 1);
    assert(8 * (2 * bus) == 16 * bus && 8 * (2 * bus + 1) == 16 * bus + 8);
    assert(8 * (2 * function) == 16 * function && 8 * (2 * function + 1) == 16 * function + 8);
}

/// Stages that are left, this one included.
pub open spec fn stages_left(stage: Stage) -> int {
    match stage {
        Stage::RootPointer => 3,
        Stage::WriteBuffer => 2,
        Stage::Translation => 1,
    }
}

/// Reads of the status register that a unit may still take.
pub open spec fn reads_left(u: UnitInit) -> int {
    u.poll.left + (stages_left(u.stage) - 1) * POLL_LIMIT
}

/// Enabling a unit is bounded: each step uses up one of its reads, or ends.
pub proof fn law_enabling_is_bounded(u: UnitInit, status: u32)
    requires
        0 < u.poll.left <= POLL_LIMIT,
    ensures
        ({
            let (after, step) = unit_stepped(u, status);
            step is Again || step is Command ==> {
                &&& 0 < after.poll.left <= POLL_LIMIT
                &&& 0 < reads_left(after) < reads_left(u)
            }
        }),
{
}

/// The unit after the statuses in `reads` were read, as long as none of them
/// ended the attempt.
pub open spec fn after_reads(u: UnitInit, reads: Seq<u32>) -> UnitInit
    decreases reads.len(),
{
    if reads.len() == 0 {
        u
    } else {
        unit_stepped(after_reads(u, reads.drop_last()), reads.last()).0
    }
}

/// Translation is only asked for after the hardware acknowledged the root
/// table and after it had flushed its buffers.
pub proof fn law_translation_comes_last(u: UnitInit, reads: Seq<u32>)
    requires
        u.stage is RootPointer,
    ensures
        after_reads(u, reads).stage is WriteBuffer ==> exists|i: int|
            0 <= i < reads.len() && acknowledged(Stage::RootPointer, #[trigger] reads[i]),
        after_reads(u, reads).stage is Translation ==> exists|i: int, j: int|
            0 <= i < j < reads.len() && acknowledged(Stage::RootPointer, #[trigger] reads[i])
                && acknowledged(Stage::WriteBuffer, #[trigger] reads[j]),
    decreases reads.len(),
{
    if reads.len() > 0 {
        let before = reads.drop_last();
        let w = after_reads(u, before);
        law_translation_comes_last(u, before);
        assert(forall|i: int| 0 <= i < before.len() ==> before[i] == reads[i]);
        assert(reads[reads.len() - 1] == reads.last());
        if w.stage is WriteBuffer {
            let i = choose|i: int|
                0 <= i < before.len() && acknowledged(Stage::RootPointer, #[trigger] before[i]);
            assert(acknowledged(Stage::RootPointer, reads[i]));
        }
        if w.stage is Translation {
            let (i, j) = choose|i: int, j: int|
                0 <= i < j < before.len() && acknowledged(
                    Stage::RootPointer,
                    #[trigger] before[i],
                ) && acknowledged(Stage::WriteBuffer, #[trigger] before[j]);
            assert(acknowledged(Stage::RootPointer, reads[i]));
            assert(acknowledged(Stage::WriteBuffer, reads[j]));
        }
    }
}

/// A unit goes on from a stage only when its status says that the command was
/// carried out: the root table is taken over, the write buffers are no longer
/// being flushed, translation is on. The commands are those bits.
pub proof fn law_unit_goes_on_when_it_has_answered(u: UnitInit, status: u32)
    ensures
        unit_stepped(u, status).1 is Command || unit_stepped(u, status).1 is Enabled ==> match u.stage {
            Stage::RootPointer => status & 0x4000_0000 != 0,
            Stage::WriteBuffer => status & 0x0800_0000 == 0,
            Stage::Translation => status & 0x8000_0000 != 0,
        },
        unit_stepped(u, status).1 is Enabled ==> u.stage is Translation,
        unit_stepped(u, status).1 matches UnitStep::Command(c) ==> {
            &&& u.stage is RootPointer ==> c == 0x0800_0000 && unit_stepped(u, status).0.stage
                is WriteBuffer
            &&& u.stage is WriteBuffer ==> c == 0x8000_0000 && unit_stepped(u, status).0.stage
                is Translation
        },
        unit_stepped(u, status).1 is Again || unit_stepped(u, status).1 is TimedOut ==> unit_stepped(
            u,
            status,
        ).0.stage == u.stage,
{
}

/// Units that are not there or did not answer are not counted, and all others
/// are: adding one to a list adds one exactly if it is there and was enabled, and
/// no list counts more than it holds.
pub proof fn law_enabled_units_are_counted(units: Seq<u64>, enabled: Seq<bool>, n: nat)
    requires
        n <= units.len(),
        n <= enabled.len(),
    ensures
        enabled_units(units, enabled, n) <= n,
        (forall|i: int| 0 <= i < n ==> #[trigger] units[i] != 0 && enabled[i]) ==> enabled_units(
            units,
            enabled,
            n,
        ) == n,
        enabled_units(units, enabled, n) == n ==> forall|i: int|
            0 <= i < n ==> #[trigger] units[i] != 0 && enabled[i],
        (forall|i: int| 0 <= i < n ==> #[trigger] units[i] == 0 || !enabled[i]) ==> enabled_units(
            units,
            enabled,
            n,
        ) == 0,
        enabled_units(units, enabled, n) == 0 ==> forall|i: int|
            0 <= i < n ==> #[trigger] units[i] == 0 || !enabled[i],
    decreases n,
{
    if n > 0 {
        let m = (n - 1) as nat;
        law_enabled_units_are_counted(units, enabled, m);
        let here = units[m as int] != 0 && enabled[m as int];
        if forall|i: int| 0 <= i < n ==> #[trigger] units[i] != 0 && enabled[i] {
            assert(units[m as int] != 0);
            assert(here);
            assert forall|i: int| 0 <= i < m implies #[trigger] units[i] != 0 && enabled[i] by {}
        }
        if forall|i: int| 0 <= i < n ==> #[trigger] units[i] == 0 || !enabled[i] {
            assert(units[m as int] == 0 || !enabled[m as int]);
            assert(!here);
            assert forall|i: int| 0 <= i < m implies #[trigger] units[i] == 0 || !enabled[i] by {}
        }
        if enabled_units(units, enabled, n) == n {
            assert(here);
            assert forall|i: int| 0 <= i < n implies #[trigger] units[i] != 0 && enabled[i] by {
                if i < m {
                    assert(enabled_units(units, enabled, m) == m);
                }
            }
        }
        if enabled_units(units, enabled, n) == 0 {
            assert(!here);
            assert forall|i: int| 0 <= i < n implies #[trigger] units[i] == 0 || !enabled[i] by {
                if i < m {
                    assert(enabled_units(units, enabled, m) == 0);
                }
            }
        }
    }
}

/// The tables that are made for a unit lie in two frames that were free, and let
/// every function of every bus pass.
pub proof fn law_made_tables_let_devices_pass(k: KernelSpace, bus: int, function: int) -> (ctx: u64)
    requires
        crate::elf_started::frames_sound(k),
        tables_made(k).1 is Some,
        0 <= bus < 256,
        0 <= function < 256,
    ensures
        ({
            let (after, root) = tables_made(k);
            &&& crate::memory::laws::spare(k, root->0)
            &&& crate::memory::laws::spare(k, ctx)
            &&& ctx != root->0
            &&& after.ram.word(root->0 + 16 * bus) == ctx + 1
            &&& after.ram.word(root->0 + 16 * bus + 8) == 0
            &&& after.ram.word(ctx + 16 * function) == 9
            &&& after.ram.word(ctx + 16 * function + 8) == 1
        }),
{
    let (root, k1) = k.take_frame()->0;
    crate::memory::laws::lemma_take_frame(k);
    let c1 = k1.cleared(root);
    assert(crate::memory::laws::spares_distinct(c1));
    crate::memory::laws::lemma_take_frame(c1);
    let (ctx, k2) = c1.take_frame()->0;
    assert(crate::memory::laws::spare(c1, ctx));
    assert(crate::memory::laws::spare(k1, ctx));
    assert(crate::memory::laws::spare(k, ctx));
    law_every_device_passes(k2.cleared(ctx).ram, root, ctx, bus, function);
    ctx
}

} // verus!
