//! A verified cookie-store browser library: it reads and selectively
//! deletes cookie records from the two browser-local SQL schemas, and
//! drives a keyboard-driven, multi-level navigation model over them.
//!
//! - [`cookie`] holds the normalized record type and its field formatting;
//! - [`cookie_db`] holds the per-file store: schema mapping, timestamp
//!   normalization, loading and mutation;
//! - [`state`] and [`tui`] hold the navigation state and the interaction
//!   controller;
//! - [`config`] and [`util`] hold the configuration values, database-file
//!   classification and whitelist parsing;
//! - [`text`] holds the verified text utilities the rest builds on.

pub mod config;
pub mod cookie;
pub mod cookie_db;
pub mod state;
pub mod text;
pub mod tui;
pub mod util;
