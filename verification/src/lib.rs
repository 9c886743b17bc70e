//! A streaming JSON-ish tokenizer and an incremental pretty-printer.
//!
//! The tokenizer scans a byte buffer one token at a time: structural
//! characters, string literals (with escape handling), numbers, booleans and
//! null. The pretty-printer is a small state machine that turns the token
//! stream into indented text, one token at a time. Neither component builds a
//! parse tree, and neither validates structural correctness of the input.

pub mod token;
pub mod tokenizer;
pub mod printer;
pub mod laws;

pub use token::Token;
pub use token::TokenType;
pub use tokenizer::Tokenizer;
pub use printer::Prettier;
pub use printer::prettify;
