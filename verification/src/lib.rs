//! A tokenizer for a schema interface-definition language.
//!
//! The input is one span of source text. The tokenizer classifies it, by
//! longest match over a fixed rule set, into symbols, keywords, identifiers,
//! numeric literals, comments and line breaks, and scans quoted text in a
//! mode of its own.
pub mod classes;
pub mod keywords;
pub mod lexer;
pub mod patterns;
pub mod raw;
pub mod render;
pub mod rules;
pub mod scan;
pub mod stream;
pub mod text;
pub mod token;
