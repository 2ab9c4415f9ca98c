# Rost

Rost is a small x86-64 microkernel that UEFI firmware starts. Its logic is a
Verus library: executable Rust whose behaviour is stated in contracts and proved.

| Part | What is there |
|------|---------------|
| `src/memory` | Physical memory, the frame allocators, four-level page tables, and what holds of address spaces |
| `src/process`, `src/scheduler`, `src/ipc` | Process table, kernel stacks, capabilities, scheduling policy, messages |
| `src/cpu` | System calls, user pointers, descriptor tables |
| `src/interrupts`, `src/crash_log.rs` | Exceptions, interrupt vectors, the log of faults |
| `src/elf.rs`, `src/pecoff.rs` | Loading programs, sections of the kernel image |
| `src/acpi`, `src/apic`, `src/timer`, `src/hpet.rs`, `src/iommu.rs`, `src/uart.rs`, `src/watchdog.rs` | Firmware tables and devices |
| `src/boot`, `src/boot_collector.rs`, `src/boot_info.rs` | What the kernel learns and does at boot |
| `src/shell` | The emergency console |
| `app` | The kernel image: entry point, assembly, port and memory-mapped I/O, UEFI calls |

Hardware is outside the library. Functions that drive a device return the writes
to be made and take what was read as arguments; loops that wait for a device are
steps of a state that `app` feeds. Physical memory is a window of bytes.

Functions whose names start with `law_` state what holds of several functions
together, such as that mapping a page moves no other page.
