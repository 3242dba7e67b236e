//! A canonicalising formatter for commonmark documents.
//!
//! The library reformats a parsed document tree into canonical text:
//! normalised headings, greedily wrapped paragraphs, indented list items,
//! fenced code blocks and inline links, governed by a small configuration
//! (maximum line width, indent width, list marker symbol). Parsing raw
//! markdown into a tree, reading files and command-line handling are the
//! caller's work: the library consumes a [`tree::Node`] and plain values.

pub mod config;
pub mod formatter;
pub mod tree;
pub mod wrap;

pub use config::Config;
pub use config::ListDelimiter;
pub use config::Opt;
pub use config::OptError;
pub use formatter::Formatter;
pub use tree::Node;
pub use tree::NodeKind;
