//! A lexical scanner for a small expression-oriented language.
//!
//! The scanner turns a source string into a flat sequence of typed tokens,
//! terminated by exactly one end-of-input token. Lexical errors (an
//! unrecognized character, an unterminated string literal) are collected as
//! diagnostics alongside the token sequence; they never abort the scan by
//! panicking.

pub mod token_type;
pub mod token;
pub mod diagnostics;
pub mod scan_model;
pub mod scanner_struct;
pub mod helpers;
pub mod scan_token;
pub mod scan_tokens;
pub mod laws;
pub mod surrounding_box;
pub mod commands;
