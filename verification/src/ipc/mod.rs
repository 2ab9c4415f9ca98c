//! Inter-process communication primitives.

pub mod message;

pub use crate::ipc::message::{Message, MessageQueue, Notification};
