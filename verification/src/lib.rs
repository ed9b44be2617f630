//! The catalog of a plugin-bundle tree: which plugins a local checkout or a
//! remote listing holds, which of them the user selects, and the
//! configuration text that enables the selection.
//!
//! - [`astrocommunity`]: plugin entries and their labels, the local checkout
//!   and its scan.
//! - [`git_operations`]: the remote listing and the catalog of its paths.
//! - [`file_system`]: the lock file and the revision it pins.
//! - [`catalog`]: the order of entries, and catalogs as ordered sequences
//!   without duplicates.
//! - [`fzf`]: the candidates shown to the selector and the selection read
//!   from its output.
//! - [`render`]: import statements and unrolled source.
//! - [`opts`]: the options of a run and what they decide.
//! - [`error`]: the failures of a run.
//! - [`text`], [`path`]: texts and paths as character sequences.
//! - [`pattern`], [`json`]: what is taken from the `regex` and `serde_json`
//!   crates, and what is assumed of it.

pub mod astrocommunity;
pub mod catalog;
pub mod error;
pub mod file_system;
pub mod fzf;
pub mod git_operations;
pub mod json;
pub mod opts;
pub mod path;
pub mod pattern;
pub mod render;
pub mod text;
