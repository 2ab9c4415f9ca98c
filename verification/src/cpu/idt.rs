//! Interrupt descriptor table.

use vstd::prelude::*;

verus! {

/// Size of a table in bytes.
pub const IDT_SIZE: u16 = 4096;

/// A gate of 16 bytes.
#[derive(Copy, Clone, Debug, PartialEq, Eq, Structural)]
pub struct IdtEntry {
    pub offset_low: u16,
    pub selector: u16,
    /// Number of the interrupt stack, 0 for none.
    pub ist: u8,
    pub type_attr: u8,
    pub offset_mid: u16,
    pub offset_high: u32,
    pub reserved: u32,
}

/// An interrupt gate of ring 0.
pub open spec fn gate(handler: u64, selector: u16, ist: u8) -> IdtEntry {
    IdtEntry {
        offset_low: (handler % 0x1_0000) as u16,
        selector,
        ist,
        type_attr: 0x8E,
        offset_mid: (handler / 0x1_0000 % 0x1_0000) as u16,
        offset_high: (handler / 0x1_0000_0000) as u32,
        reserved: 0,
    }
}

/// An entry that is not present.
pub open spec fn no_gate() -> IdtEntry {
    IdtEntry {
        offset_low: 0,
        selector: 0,
        ist: 0,
        type_attr: 0,
        offset_mid: 0,
        offset_high: 0,
        reserved: 0,
    }
}

impl IdtEntry {
    pub fn null() -> (r: Self)
        ensures
            r == no_gate(),
    {
        IdtEntry {
            offset_low: 0,
            selector: 0,
            ist: 0,
            type_attr: 0,
            offset_mid: 0,
            offset_high: 0,
            reserved: 0,
        }
    }

    /// Interrupt gate that keeps the current stack of the kernel.
    pub fn interrupt_gate(handler: u64, selector: u16) -> (r: Self)
        ensures
            r == gate(handler, selector, 0),
    {
        IdtEntry {
            offset_low: (handler % 0x1_0000) as u16,
            selector,
            ist: 0,
            type_attr: 0x8E,
            offset_mid: (handler / 0x1_0000 % 0x1_0000) as u16,
            offset_high: (handler / 0x1_0000_0000) as u32,
            reserved: 0,
        }
    }

    /// Interrupt gate that always switches to an interrupt stack. Only the
    /// lower three bits of `ist` count.
    pub fn interrupt_gate_ist(handler: u64, selector: u16, ist: u8) -> (r: Self)
        ensures
            r == gate(handler, selector, (ist % 8) as u8),
    {
        let mut entry = Self::interrupt_gate(handler, selector);
        entry.ist = ist % 8;
        entry
    }
}

/// Size, less 1, and address of a table, as the processor loads them.
#[derive(Copy, Clone, Debug, PartialEq, Eq, Structural)]
pub struct IdtDescriptor {
    pub size: u16,
    pub offset: u64,
}

/// Gates of all vectors.
#[derive(Debug)]
pub struct InterruptDescriptorTable {
    pub entries: [IdtEntry; 256],
}

impl InterruptDescriptorTable {
    /// A table without gates.
    pub fn new() -> (r: Self)
        ensures
            forall|v: int| 0 <= v < 256 ==> r.entries@[v] == no_gate(),
    {
        InterruptDescriptorTable { entries: [IdtEntry::null(); 256] }
    }

    pub fn set_entry(&mut self, index: u8, entry: IdtEntry)
        ensures
            final(self).entries@ == old(self).entries@.update(index as int, entry),
    {
        self.entries[index as usize] = entry;
    }

    pub fn set_entry_usize(&mut self, index: usize, entry: IdtEntry)
        requires
            index < 256,
        ensures
            final(self).entries@ == old(self).entries@.update(index as int, entry),
    {
        self.entries[index] = entry;
    }

    /// What the processor loads for this table at `offset`.
    pub fn descriptor(&self, offset: u64) -> (r: IdtDescriptor)
        ensures
            r == (IdtDescriptor { size: 4095, offset }),
    {
        IdtDescriptor { size: IDT_SIZE - 1, offset }
    }
}

/// A gate leads to its handler, in the given segment and on the given interrupt
/// stack. It is present, an interrupt gate, and cannot be raised by programs.
pub proof fn law_gate_holds_its_handler(handler: u64, selector: u16, ist: u8)
    ensures
        ({
            let g = gate(handler, selector, ist);
            &&& g.offset_low + g.offset_mid * 0x1_0000 + g.offset_high * 0x1_0000_0000 == handler
            &&& g.selector == selector
            &&& g.ist == ist
            &&& g.type_attr / 0x80 == 1
            &&& g.type_attr / 0x20 % 4 == 0
            &&& g.type_attr % 0x20 == 14
            &&& g.reserved == 0
        }),
        no_gate().type_attr / 0x80 == 0,
{
}

} // verus!
