//! Logic of a desktop dashboard overlay: human-readable memory figures and the
//! persistent configuration of shortcut canvas windows.

pub mod numfmt;
pub mod ram_monitor;
pub mod text;
pub mod config;
