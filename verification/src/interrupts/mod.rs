//! Exceptions and hardware interrupts.

pub mod dump;
pub mod handlers;
pub mod laws;
pub mod vectors;

pub use crate::interrupts::vectors::init;
