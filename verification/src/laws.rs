use vstd::prelude::*;

use crate::token::TokenType;
use crate::tokenizer::lemma_token_at_advances;
use crate::tokenizer::num_chars;
use crate::tokenizer::run_end;
use crate::tokenizer::token_at;
use crate::tokenizer::token_seq;
use crate::tokenizer::ws_chars;

verus! {

/// The six single-character structural tokens.
pub open spec fn is_structural(b: u8) -> bool {
    ||| b == '{' as u8
    ||| b == '}' as u8
    ||| b == '[' as u8
    ||| b == ']' as u8
    ||| b == ':' as u8
    ||| b == ',' as u8
}

/// The token kind of a structural character.
pub open spec fn structural_kind(b: u8) -> TokenType {
    if b == '{' as u8 {
        TokenType::CurlyOpen
    } else if b == '}' as u8 {
        TokenType::CurlyClose
    } else if b == '[' as u8 {
        TokenType::ArrayOpen
    } else if b == ']' as u8 {
        TokenType::ArrayClose
    } else if b == ':' as u8 {
        TokenType::Colon
    } else {
        TokenType::Comma
    }
}

/// The non-whitespace characters of `s` from position `i` on, each as a
/// one-character token of its structural kind, in input order.
pub open spec fn structural_token_seq(s: Seq<u8>, i: int) -> Seq<(TokenType, Seq<u8>)>
    decreases s.len() - i,
{
    if !(0 <= i < s.len()) {
        Seq::empty()
    } else if ws_chars().contains(s[i]) {
        structural_token_seq(s, i + 1)
    } else {
        seq![(structural_kind(s[i]), seq![s[i]])] + structural_token_seq(s, i + 1)
    }
}

proof fn lemma_structural_suffix(s: Seq<u8>, i: int)
    requires
        0 <= i <= s.len(),
        forall|j: int| 0 <= j < s.len() ==> is_structural(s[j]) || ws_chars().contains(s[j]),
    ensures
        token_seq(s, i) == structural_token_seq(s, i),
    decreases s.len() - i,
{
    if i == s.len() {
        assert(run_end(s, i, ws_chars()) == i);
        assert(token_seq(s, i) =~= structural_token_seq(s, i));
    } else if ws_chars().contains(s[i]) {
        lemma_structural_suffix(s, i + 1);
        assert(run_end(s, i, ws_chars()) == run_end(s, i + 1, ws_chars()));
        assert(token_at(s, i) == token_at(s, i + 1));
        lemma_token_at_advances(s, i);
        lemma_token_at_advances(s, i + 1);
        assert(token_seq(s, i) == token_seq(s, i + 1));
    } else {
        lemma_structural_suffix(s, i + 1);
        let b = s[i];
        assert(is_structural(b));
        assert(run_end(s, i, ws_chars()) == i);
        assert(!num_chars().contains(b)) by {
            assert(forall|j: int| 0 <= j < num_chars().len() ==> num_chars()[j] != b);
        }
        assert(token_at(s, i) == Some((structural_kind(b), seq![b], i + 1)));
        assert(token_seq(s, i) == seq![(structural_kind(b), seq![b])] + token_seq(s, i + 1));
    }
}

/// For an input consisting solely of the six structural characters and
/// whitespace, the token stream is exactly the structural characters in
/// order, each as its own one-character token of the matching kind, with the
/// whitespace entirely absorbed.
pub proof fn lemma_structural_stream(s: Seq<u8>)
    requires
        forall|j: int| 0 <= j < s.len() ==> is_structural(s[j]) || ws_chars().contains(s[j]),
    ensures
        token_seq(s, 0) == structural_token_seq(s, 0),
{
    lemma_structural_suffix(s, 0);
}

} // verus!
