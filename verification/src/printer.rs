use vstd::prelude::*;

use crate::token::Token;
use crate::token::TokenType;
use crate::tokenizer::Tokenizer;
use crate::tokenizer::lemma_token_at_advances;
use crate::tokenizer::token_at;

verus! {

// ---------------------------------------------------------------------------
// Specification model of the formatting state machine.
// ---------------------------------------------------------------------------

/// `n` tab bytes: the indent for depth `n` (one tab per open object).
pub open spec fn tab_bytes(n: nat) -> Seq<u8> {
    Seq::new(n, |k: int| '\t' as u8)
}

/// An indent depth one less than `n`, saturating at zero: an object close
/// with no matching open leaves the depth at zero instead of failing.
pub open spec fn dec_depth(n: usize) -> usize {
    if n == 0 {
        0
    } else {
        (n - 1) as usize
    }
}

/// The bytes emitted for one token, given the formatter state it meets.
pub open spec fn printed(p: Prettier, tt: TokenType, text: Seq<u8>) -> Seq<u8> {
    match tt {
        TokenType::CurlyClose => seq!['\n' as u8] + tab_bytes(dec_depth(p.indents) as nat) + text,
        TokenType::CurlyOpen => text + seq!['\n' as u8],
        TokenType::Comma => if p.is_in_arr {
            text + seq![' ' as u8]
        } else {
            text + seq!['\n' as u8]
        },
        TokenType::ArrayOpen => text,
        TokenType::ArrayClose => text,
        _ => if p.is_nl {
            tab_bytes(p.indents as nat) + text
        } else {
            text
        },
    }
}

/// The formatter state after one token. Only the token's kind matters.
pub open spec fn next_state(p: Prettier, tt: TokenType) -> Prettier {
    match tt {
        TokenType::CurlyClose => Prettier {
            indents: dec_depth(p.indents),
            is_nl: p.is_nl,
            is_in_arr: p.is_in_arr,
        },
        TokenType::CurlyOpen => Prettier {
            indents: (p.indents + 1) as usize,
            is_nl: true,
            is_in_arr: p.is_in_arr,
        },
        TokenType::Comma => if p.is_in_arr {
            p
        } else {
            Prettier { indents: p.indents, is_nl: true, is_in_arr: p.is_in_arr }
        },
        TokenType::ArrayOpen => Prettier { indents: p.indents, is_nl: p.is_nl, is_in_arr: true },
        TokenType::ArrayClose => Prettier { indents: p.indents, is_nl: p.is_nl, is_in_arr: false },
        _ => Prettier { indents: p.indents, is_nl: false, is_in_arr: p.is_in_arr },
    }
}

/// Everything the pretty-printer emits for the token stream that starts at
/// cursor `pos` of source `s`, beginning in state `p`.
pub open spec fn pretty_from(s: Seq<u8>, pos: int, p: Prettier) -> Seq<u8>
    decreases s.len() - pos,
{
    match token_at(s, pos) {
        Some(t) => if pos < t.2 <= s.len() {
            printed(p, t.0, t.1) + pretty_from(s, t.2, next_state(p, t.0))
        } else {
            Seq::empty()
        },
        None => Seq::empty(),
    }
}

// ---------------------------------------------------------------------------
// The pretty-printer itself.
// ---------------------------------------------------------------------------

/// The incremental formatter: indent depth (open objects), whether the next
/// visible token begins a fresh line, and whether the scan is inside an
/// array. The array flag is a single boolean, not a stack: after any array
/// boundary the most recent one governs, a deliberate simplification of the
/// state machine.
pub struct Prettier {
    pub indents: usize,
    pub is_nl: bool,
    pub is_in_arr: bool,
}

impl Prettier {
    /// Formats one token and returns the bytes to emit for it: exactly
    /// `printed`, leaving the state at `next_state`. An object close at depth
    /// zero saturates instead of underflowing.
    pub fn print_token(&mut self, token: Token) -> (out: Vec<u8>)
        requires
            token.token_type == TokenType::CurlyOpen ==> old(self).indents < usize::MAX,
        ensures
            out@ == printed(*old(self), token.token_type, token.value@),
            *final(self) == next_state(*old(self), token.token_type),
    {
        let mut out: Vec<u8> = Vec::new();
        match token.token_type {
            TokenType::CurlyClose => {
                if self.indents > 0 {
                    self.indents = self.indents - 1;
                }
                out.push('\n' as u8);
                push_tabs(&mut out, self.indents);
                push_bytes(&mut out, &token.value);
                proof {
                    assert(out@ =~= printed(*old(self), token.token_type, token.value@));
                }
            },
            TokenType::CurlyOpen => {
                push_bytes(&mut out, &token.value);
                out.push('\n' as u8);
                self.indents = self.indents + 1;
                self.is_nl = true;
                proof {
                    assert(out@ =~= printed(*old(self), token.token_type, token.value@));
                }
            },
            TokenType::Comma => {
                if !self.is_in_arr {
                    push_bytes(&mut out, &token.value);
                    out.push('\n' as u8);
                    self.is_nl = true;
                } else {
                    push_bytes(&mut out, &token.value);
                    out.push(' ' as u8);
                }
                proof {
                    assert(out@ =~= printed(*old(self), token.token_type, token.value@));
                }
            },
            TokenType::ArrayOpen => {
                push_bytes(&mut out, &token.value);
                self.is_in_arr = true;
                proof {
                    assert(out@ =~= printed(*old(self), token.token_type, token.value@));
                }
            },
            TokenType::ArrayClose => {
                push_bytes(&mut out, &token.value);
                self.is_in_arr = false;
                proof {
                    assert(out@ =~= printed(*old(self), token.token_type, token.value@));
                }
            },
            _ => {
                if self.is_nl {
                    push_tabs(&mut out, self.indents);
                    push_bytes(&mut out, &token.value);
                    self.is_nl = false;
                } else {
                    push_bytes(&mut out, &token.value);
                }
                proof {
                    assert(out@ =~= printed(*old(self), token.token_type, token.value@));
                }
            },
        }
        out
    }
}

/// Drives a tokenizer to exhaustion, feeding each token to a fresh formatter
/// in the order produced, and returns everything the formatter emitted.
pub fn prettify(tokenizer: Tokenizer) -> (out: Vec<u8>)
    requires
        tokenizer.wf(),
    ensures
        out@ == pretty_from(
            tokenizer@,
            tokenizer.cursor(),
            (Prettier { indents: 0, is_nl: false, is_in_arr: false }),
        ),
{
    let mut tok = tokenizer;
    let mut pretty_printer = Prettier { indents: 0, is_nl: false, is_in_arr: false };
    let mut out: Vec<u8> = Vec::new();
    loop
        invariant
            tok.wf(),
            tok@ == tokenizer@,
            pretty_printer.indents <= tok.cursor(),
            out@ + pretty_from(tok@, tok.cursor(), pretty_printer) == pretty_from(
                tokenizer@,
                tokenizer.cursor(),
                (Prettier { indents: 0, is_nl: false, is_in_arr: false }),
            ),
        decreases tok@.len() - tok.cursor(),
    {
        let ghost pre_out = out@;
        let ghost pre_state = pretty_printer;
        let ghost p = tok.cursor();
        proof {
            lemma_token_at_advances(tok@, p);
        }
        match tok.get_token() {
            None => {
                proof {
                    assert(out@ + pretty_from(tok@, p, pretty_printer) =~= out@);
                }
                return out;
            },
            Some(t) => {
                let mut piece = pretty_printer.print_token(t);
                out.append(&mut piece);
                proof {
                    match token_at(tok@, p) {
                        Some(t0) => {
                            assert(pre_out + (printed(pre_state, t0.0, t0.1) + pretty_from(
                                tok@,
                                tok.cursor(),
                                pretty_printer,
                            )) =~= (pre_out + printed(pre_state, t0.0, t0.1)) + pretty_from(
                                tok@,
                                tok.cursor(),
                                pretty_printer,
                            ));
                        },
                        None => {},
                    }
                }
            },
        }
    }
}

/// Appends `n` tab bytes.
fn push_tabs(out: &mut Vec<u8>, n: usize)
    ensures
        final(out)@ == old(out)@ + tab_bytes(n as nat),
{
    proof {
        assert(out@ =~= out@ + tab_bytes(0));
    }
    let mut k: usize = 0;
    while k < n
        invariant
            k <= n,
            out@ == old(out)@ + tab_bytes(k as nat),
        decreases n - k,
    {
        out.push('\t' as u8);
        k = k + 1;
        proof {
            assert(out@ =~= old(out)@ + tab_bytes(k as nat));
        }
    }
}

/// Appends a copy of `src`.
fn push_bytes(out: &mut Vec<u8>, src: &Vec<u8>)
    ensures
        final(out)@ == old(out)@ + src@,
{
    proof {
        assert(out@ =~= out@ + src@.subrange(0, 0));
    }
    let mut k: usize = 0;
    while k < src.len()
        invariant
            k <= src@.len(),
            out@ == old(out)@ + src@.subrange(0, k as int),
        decreases src@.len() - k,
    {
        out.push(src[k]);
        k = k + 1;
        proof {
            assert(out@ =~= old(out)@ + src@.subrange(0, k as int));
        }
    }
    proof {
        assert(old(out)@ + src@.subrange(0, src@.len() as int) =~= old(out)@ + src@);
    }
}

} // verus!
