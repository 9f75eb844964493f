//! Builds an LLM prompt context from a directory listing: filters file paths
//! by extension and regex rules, renders an ASCII directory tree, truncates
//! file contents to a head-line budget, and assembles everything into one
//! text document.
//!
//! The crate holds the pure logic: path ordering and selection, the filter
//! rules, the tree construction and its rendering, content-block assembly,
//! and the final document layout. Directory walking and file reading are the
//! caller's job; the caller hands in plain path components and file lines.

pub mod content;
pub mod output;
pub mod filter;
pub mod paths;
pub mod select;
pub mod tree;
