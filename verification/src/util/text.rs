//! Analyzers of text files.

pub mod code;
