//! Timers.

pub mod pit;
pub mod tsc;
