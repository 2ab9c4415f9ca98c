//! System calls, scheduling ticks and the processor's tables.

pub mod control;
pub mod gdt;
pub mod idt;
pub mod laws;
pub mod mapped;
pub mod mapping;
pub mod numbers;
pub mod outcomes;
pub mod syscall;
pub mod tss;
pub mod user_memory;

pub use crate::cpu::control::{block_current, init_protection, tick_scheduler};
pub use crate::cpu::gdt::GlobalDescriptorTable;
pub use crate::cpu::idt::{IdtEntry, InterruptDescriptorTable};
pub use crate::cpu::tss::{init_tss, set_rsp0};
