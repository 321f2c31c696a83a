//! `gtc_control`: a Modbus TCP controller for GTC ventilation units.
//!
//! Layering (outer depends on inner, never the reverse):
//!
//! ```text
//! report      ─┐
//! tui         ─┴─▶  app  ─▶  modbus
//!                            config
//!                            domain
//! ```
//!
//! - [`domain`]: pure value types: register kind, value type, definitions,
//!   decoded values, snapshots.
//! - [`config`]: the bundled register catalogue merged with the user-editable
//!   settings for the Modbus endpoint, poll cadence, and UI visibility.
//! - [`modbus`]: the [`modbus::ModbusClient`] trait and an in-memory fake.
//! - [`app`]: operations: `poll_once`, `read_one`, `set_value`. The shared
//!   "command API" that the CLI and the TUI call uniformly.
//! - [`status`]: decoders that turn well-known register reads into the
//!   friendly view the TUI renders.
//! - [`tui`]: the state and the contents of the full-screen interactive view.
//! - [`report`]: [`format_snapshot`], [`format_reading`],
//!   [`format_single_entry`], and [`format_register_list`], the output of the
//!   CLI subcommands.
//!
//! [`text`], [`number`], [`binary32`], [`decimal`] and [`grouping`] hold what
//! these are built from: text and the numbers in it, single-precision
//! rounding, and sections in first-encounter order.

pub mod app;
pub mod binary32;
pub mod config;
pub mod decimal;
pub mod domain;
pub mod grouping;
pub mod modbus;
pub mod number;
pub mod report;
pub mod status;
pub mod text;
pub mod tui;

pub use crate::report::{
    format_reading, format_register_list, format_single_entry, format_snapshot,
};
