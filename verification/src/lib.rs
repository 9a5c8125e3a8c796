//! Flattens a directory tree into one document: every file that a walk of the
//! tree takes in is written out under a header with its path, inside a fence
//! tagged with its language.
//!
//! The library decides; it does not touch the disk. A caller resolves paths,
//! walks the tree and reads the files, and hands in what it found:
//!
//! - `path` treats paths as text: components, normalisation, what is left of
//!   a path below a base;
//! - `types` makes the rules of a walk from the paths that a user excluded
//!   and included, with includes outranking excludes;
//! - `file_processing` sets up the walker for those rules, adds up the sizes
//!   of the files that a walk came upon, and writes them into the document;
//! - `cli` holds the options of a run, the name of its output and the
//!   question before a large run;
//! - `walker`, `syntax` and `text` hold what is taken on trust from the
//!   `ignore` crate, the `syntect` crate and the standard library.

pub mod cli;
pub mod file_processing;
pub mod path;
pub mod syntax;
pub mod text;
pub mod types;
pub mod walker;
