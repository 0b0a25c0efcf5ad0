//! License header compliance engine.
//!
//! Audits and normalizes license headers (SPDX identifier plus
//! copyright text) across the source files of a workspace: renders the
//! expected header from a license template, wraps it in the comment
//! style of each file, detects existing headers without disturbing
//! unrelated content, and applies idempotent insert/update operations
//! while reporting per-file outcomes.

pub mod bytes;
pub mod catalog;
pub mod config;
pub mod engine;
pub mod laws;
pub mod matcher;
pub mod run;
pub mod scanner;
pub mod style;
pub mod template;
