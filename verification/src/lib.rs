//! Front end of a small expression and statement language: a tokenizer, a
//! recovering precedence-climbing parser, a shared diagnostics collector and a
//! renderer that points at the offending source text.

pub mod text;
pub mod diagnostics;
pub mod ast;
