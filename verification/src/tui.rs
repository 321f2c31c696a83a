//! Interactive terminal UI.
//!
//! The parts of the full-screen view that decide and compute: the controls
//! and their editing, the state and its reaction to keys and results, the
//! Settings screen, and the styled lines that are drawn. The terminal, the
//! event loop and the task that owns the Modbus connection are left to the
//! program.

pub mod actor;
pub mod control;
pub mod keys;
pub mod settings;
pub mod settings_view;
pub mod state;
pub mod style;
pub mod view;
