//! Rost: the logic of a small x86-64 microkernel, verified.

pub mod acpi;
pub mod apic;
pub mod boot;
pub mod boot_collector;
pub mod boot_info;
pub mod bytes;
pub mod cpu;
pub mod crash_log;
pub mod elf;
pub mod elf_laws;
pub mod elf_spawn;
pub mod elf_started;
pub mod hpet;
pub mod interrupts;
pub mod iommu;
pub mod ipc;
pub mod irq_registry;
pub mod kernel;
pub mod memory;
pub mod pecoff;
pub mod polling;
pub mod process;
pub mod scheduler;
pub mod service_registry;
pub mod shell;
pub mod stack_guard;
pub mod timer;
pub mod uart;
pub mod uart_irq;
pub mod watchdog;
