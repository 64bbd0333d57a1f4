//! A single-pass markdown scanner: it turns text into a sequence of line-level
//! tokens (headers, list and quote markers, text runs and line breaks).
pub mod constants;
pub mod laws;
pub mod lex;
