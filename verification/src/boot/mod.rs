//! Bringing up the kernel.

pub mod laws;
pub mod protection;
pub mod setup;
