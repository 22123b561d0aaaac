//! Renderings of lint results.

pub mod text;
