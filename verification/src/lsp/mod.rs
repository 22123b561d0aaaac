//! Editor integration: positions, diagnostics, quick fixes, and the state
//! that the server keeps between requests.

pub mod backend;
pub mod code_actions;
pub mod config;
pub mod diagnostics;
pub mod document;
pub mod protocol;
pub mod utils;
