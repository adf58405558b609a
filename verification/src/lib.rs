//! tpane: a tiling terminal multiplexer core.
//!
//! The library holds the pane layout tree, key chord parsing and lookup,
//! command parsing, text selection, key-to-byte encoding, cheatsheet layout,
//! colour and style encoding, event coalescing, configuration recording and
//! the application state machine.

pub mod text;
pub mod commands;
pub mod selection;
pub mod layout;
pub mod keys;
pub mod keymap;
pub mod encode;
pub mod cheatsheet;
pub mod traits;
pub mod app;
pub mod events;
pub mod style;
pub mod pane;
pub mod config;
pub mod live;
