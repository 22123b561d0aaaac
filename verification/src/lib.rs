//! Incremental linting and edit reconciliation for Markdown documents.

pub mod engine;
pub mod fixes;
pub mod formatters;
pub mod helpers;
pub mod lines;
pub mod lsp;
pub mod patterns;
pub mod results;
pub mod rules;
pub mod table;
pub mod text;
pub mod types;
pub mod unicode;
