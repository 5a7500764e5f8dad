//! Volume11: per-application volume management, the verified core.

pub mod audio;
pub mod autostart;
pub mod config;
pub mod keyed;
pub mod text;
pub mod tray;
pub mod ui;
