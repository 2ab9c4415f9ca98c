//! ACPI tables: finding a table, and decoding the ones the kernel uses.
//!
//! Tables are read from physical memory. Every table is checked by signature,
//! length and checksum before its fields are used.

pub mod dmar;
pub mod fadt;
pub mod hpet;
pub mod madt;
pub mod tables;

pub use crate::acpi::dmar::{parse_dmar, DmarInfo, DrhUnit};
pub use crate::acpi::fadt::{parse_fadt, FadtInfo};
pub use crate::acpi::hpet::{find_hpet, hpet_mmio_base, parse_hpet, HpetInfo};
pub use crate::acpi::madt::{parse_madt, IoApic, IrqOverride, LocalApic, MadtInfo};
pub use crate::acpi::tables::{
    find_dmar, find_fadt, find_madt, find_madt_via_rsdt, find_madt_via_xsdt,
};
