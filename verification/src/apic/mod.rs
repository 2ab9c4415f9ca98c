//! Interrupt controllers.

pub mod ioapic;
pub mod lapic;
