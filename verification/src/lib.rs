//! A lexical analyzer for a small scripting language.
//!
//! The library turns raw source text into a flat, ordered sequence of
//! classified tokens: keywords, identifiers, string and number literals,
//! operators, and statement terminators. Whitespace and comments are
//! recognized internally but never appear in the output.
//!
//! The scanner is specified by a mathematical description of the lexical
//! grammar ([`grammar`]) and the executable entry point
//! [`scanner::str_to_token`] is proved to return exactly what that
//! description demands, for every input string.

pub mod cursor;
pub mod errors;
pub mod grammar;
pub mod laws;
pub mod reader;
pub mod scanner;
pub mod text;
pub mod tokens;

pub use errors::SyntaxError;
pub use scanner::str_to_token;
pub use tokens::Token;
