//! Scheduling: policy, time accounting, IPC delivery and the audit log.

pub mod audit;
pub mod choices;
pub mod effects;
pub mod global;
pub mod laws;
pub mod policy;
pub mod round_robin;

pub use crate::scheduler::audit::{AuditEntry, AuditKind, AuditLog};
pub use crate::scheduler::global::{get_global, init_global, set_kernel_pml4, GlobalScheduler};
pub use crate::scheduler::round_robin::{ContextSwitch, Scheduler, SwitchTarget};
