//! The lexical front end of a small scripting language: a scanner that turns
//! source text into a stream of classified, position-tagged tokens.
//!
//! The scanner's behaviour is specified against a mathematical model of the
//! scan — `scanner::spec_advance` for one token, `scanner::token_stream` for
//! the whole stream — and every token-producing operation is verified to
//! follow that model exactly.

pub mod scanner;
pub mod token;
