//! Processes: identifiers, control blocks and the process table.

pub mod laws;
pub mod pcb;
pub mod table;

use vstd::prelude::*;

verus! {

/// Process identifier.
#[derive(Copy, Clone, Debug, PartialEq, Eq, Structural)]
pub struct ProcessId(pub u32);

impl ProcessId {
    pub fn new(id: u32) -> (r: Self)
        ensures
            r == ProcessId(id),
    {
        ProcessId(id)
    }

    pub fn as_u32(&self) -> (r: u32)
        ensures
            r == self.0,
    {
        self.0
    }
}

} // verus!
