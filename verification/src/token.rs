use vstd::prelude::*;

verus! {

/// The closed set of lexical units the tokenizer can produce. End of input is
/// signalled by the absence of a next token, not by a variant of its own.
#[derive(Debug, Clone, Copy, PartialEq, Eq, Structural)]
pub enum TokenType {
    CurlyOpen,
    CurlyClose,
    Colon,
    StringValue,
    Number,
    ArrayOpen,
    ArrayClose,
    Comma,
    Boolean,
    Null,
}

/// One lexical unit: its kind and the literal bytes as scanned, including the
/// delimiting quote characters for strings and the literal spelling for
/// numbers, booleans and null. String payload is carried byte-for-byte, so
/// multi-byte text survives a round trip untouched.
#[derive(Debug)]
pub struct Token {
    pub value: Vec<u8>,
    pub token_type: TokenType,
}

} // verus!
