//! Lexical analyzer for a small dynamically-typed scripting language.
//!
//! The scanner turns source text, given as a sequence of Unicode scalar
//! values, into an ordered sequence of tokens terminated by a single
//! end-of-input token, together with a list of lexical error reports.
//! Lexical errors never abort a scan: the offending characters are consumed
//! and scanning resumes.

pub mod model;
pub mod scanner;
pub mod token;
