//! The verified core of ProcessObserver.

pub mod app_state;
pub mod command_line;
pub mod commands;
pub mod elevation;
pub mod monitor;
mod sequences;
pub mod session;
pub mod table;
pub mod text;
pub mod time;
pub mod utf16;
