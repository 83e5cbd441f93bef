//! Hawk: a shell in a terminal pane with a listing of its working directory above it.
//!
//! This library decides everything that Hawk shows and does. It performs no
//! input or output of its own: callers hand it bytes, keys and directory
//! scans, and carry out the actions that it returns.

pub mod app;
pub mod bytes;
pub mod keys;
pub mod launch;
pub mod layout;
pub mod listing;
pub mod osc7;
pub mod paths;
pub mod shell;
pub mod terminal;
pub mod text;
pub mod ui;
