//! Workspace-aware analysis engine for a CMake-like build-description
//! language: a document cache, a command-invocation grammar, diagnostics,
//! a workspace scanner with an atomically replaced index, name resolution,
//! and completion.

pub mod buffer;
pub mod capability;
pub mod cli;
pub mod complete;
pub mod config;
pub mod diagnostics;
pub mod format;
pub mod grammar;
pub mod jump;
pub mod protocol;
pub mod resolver;
pub mod scan;
pub mod session;
pub mod store;
pub mod strutil;
pub mod utils;
