//! Verified core of a language server for Cadence SKILL.
pub mod api;
pub mod diagnostics;
pub mod document;
pub mod pattern;
pub mod protocol;
pub mod symbols;
pub mod table;
pub mod text;
pub mod tables;
pub mod hover;
pub mod completion;
pub mod server;
pub mod laws;
pub mod extension;
