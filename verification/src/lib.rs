//! A verified core for changelogs: a document model with its parser,
//! validator and renderer for a small dialect of markdown, and the way from
//! commit messages to release notes that are grouped by section and free of
//! repetitions.
//!
//! Every function states what it returns over the mathematical values of
//! its arguments, and Verus proves that it does. Semantic versions, the
//! clock, regular expressions and the Unicode case mappings come from
//! outside; the few functions that reach them say so.

pub mod commands;
pub mod commit;
pub mod document;
pub mod error;
pub mod grammar;
pub mod grouping;
pub mod history;
pub mod merge;
pub mod notes;
pub mod render;
pub mod roundtrip;
pub mod sections;
pub mod tags;
pub mod text;
pub mod validate;
pub mod version;
