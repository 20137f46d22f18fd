//! A recursive-descent JSON parser with verified parsing rules.
//!
//! The input is a finite sequence of Unicode scalar values; the output is
//! either a structured value tree or a position-annotated parse error.
//!
//! - [`cursor`] wraps the input and tracks how far it has been read;
//! - [`error`] is the closed taxonomy of parse errors;
//! - [`value`] is the value tree the engine produces;
//! - [`scan`] states, as specification functions over the input, what each
//!   textual construct means;
//! - [`unicode`] decodes hexadecimal digits and surrogate pairs;
//! - [`parser`] holds the parsing rules, proved against the scans, and the
//!   top-level entry point [`parser::parse`].

pub mod cursor;
pub mod error;
pub mod parser;
pub mod scan;
pub mod unicode;
pub mod value;
