//! Workspace manager for Ghostty: configuration, workspace scripts, the
//! managed shortcut file, the workspace list and the launcher's state machine.
pub mod text;
pub mod script;
pub mod script_laws;
pub mod error;
pub mod config;
pub mod ghostty;
pub mod env;
pub mod tui;
pub mod listing;
pub mod splits;
