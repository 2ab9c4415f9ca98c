//! The emergency console and line-editing tools.

pub mod commands;
pub mod console;
pub mod escape;
pub mod history;
pub mod line_editor;
