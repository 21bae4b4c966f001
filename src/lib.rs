//! Concatenate text files, optionally numbering their lines.
//!
//! `kinds` holds the run configuration and how it is read from the argument
//! list; `exec` holds the transform from a file's text to its display lines.

pub mod exec;
pub mod kinds;
