use vstd::prelude::*;

use crate::token::Token;
use crate::token::TokenType;

verus! {

// ---------------------------------------------------------------------------
// Specification model of the scan.
//
// The tokenizer works over a byte sequence with a cursor. The model below
// says, for any byte sequence and cursor position, which token starts there,
// what its literal text is, and where the cursor stands afterwards. The
// executable methods are verified against this model.
// ---------------------------------------------------------------------------

/// The bytes skipped between tokens. Tab is deliberately absent: on the
/// output side a tab is the indent unit, and re-tokenizing indented text must
/// not silently absorb it.
pub open spec fn ws_chars() -> Seq<u8> {
    seq![' ' as u8, '\n' as u8]
}

/// The bytes a numeric literal is greedily drawn from. No validation of sign
/// position or dot count: any run of these bytes is one Number token.
pub open spec fn num_chars() -> Seq<u8> {
    seq![
        '-' as u8,
        '.' as u8,
        '0' as u8,
        '1' as u8,
        '2' as u8,
        '3' as u8,
        '4' as u8,
        '5' as u8,
        '6' as u8,
        '7' as u8,
        '8' as u8,
        '9' as u8,
    ]
}

/// What a backslash-prefixed byte decodes to inside a string literal. Bytes
/// outside the table pass through unchanged (but keep their backslash when
/// the text is re-emitted).
pub open spec fn decode_escape(b: u8) -> u8 {
    if b == 'n' as u8 {
        '\n' as u8
    } else if b == 'r' as u8 {
        '\r' as u8
    } else if b == 't' as u8 {
        '\t' as u8
    } else if b == '0' as u8 {
        '\0' as u8
    } else {
        b
    }
}

/// First position at or after `i` whose byte is not in `cs` (or the end of
/// the sequence).
pub open spec fn run_end(s: Seq<u8>, i: int, cs: Seq<u8>) -> int
    decreases s.len() - i,
{
    if 0 <= i < s.len() && cs.contains(s[i]) {
        run_end(s, i + 1, cs)
    } else {
        i
    }
}

/// One logical character at position `i`: either a plain byte, or a
/// backslash-prefixed pair decoded as one escaped character. `None` when the
/// sequence is exhausted, including a backslash with nothing after it.
pub open spec fn logical_at(s: Seq<u8>, i: int) -> Option<(u8, bool, int)> {
    if i < 0 || i >= s.len() {
        None
    } else if s[i] == '\\' as u8 {
        if i + 1 < s.len() {
            Some((decode_escape(s[i + 1]), true, i + 2))
        } else {
            None
        }
    } else {
        Some((s[i], false, i + 1))
    }
}

/// Text accumulated by reading logical characters from `i` until the first
/// unescaped occurrence of a byte in `cs`, which is included in the text. An
/// escaped character contributes its backslash followed by its decoded byte
/// and never terminates the scan. `None` when the sequence runs out first.
pub open spec fn scan_until(s: Seq<u8>, i: int, cs: Seq<u8>) -> Option<(Seq<u8>, int)>
    decreases s.len() - i,
{
    if i < 0 || i >= s.len() {
        None
    } else if s[i] == '\\' as u8 {
        if i + 1 < s.len() {
            match scan_until(s, i + 2, cs) {
                Some(t) => Some((seq!['\\' as u8, decode_escape(s[i + 1])] + t.0, t.1)),
                None => None,
            }
        } else {
            None
        }
    } else if cs.contains(s[i]) {
        Some((seq![s[i]], i + 1))
    } else {
        match scan_until(s, i + 1, cs) {
            Some(t) => Some((seq![s[i]] + t.0, t.1)),
            None => None,
        }
    }
}

/// The token starting at cursor `pos`: its kind, its literal text, and the
/// cursor position after it. `None` on a clean end of input, on a truncated
/// literal, and on a byte that starts no token (a lone backslash among them):
/// all three surface alike, as the absence of a next token.
pub open spec fn token_at(s: Seq<u8>, pos: int) -> Option<(TokenType, Seq<u8>, int)> {
    let i = run_end(s, pos, ws_chars());
    if !(0 <= i < s.len()) {
        None
    } else {
        let b = s[i];
        if b == 't' as u8 {
            if i + 4 <= s.len() {
                Some((TokenType::Boolean, s.subrange(i, i + 4), i + 4))
            } else {
                None
            }
        } else if b == 'f' as u8 {
            if i + 5 <= s.len() {
                Some((TokenType::Boolean, s.subrange(i, i + 5), i + 5))
            } else {
                None
            }
        } else if b == 'n' as u8 {
            if i + 4 <= s.len() {
                Some((TokenType::Null, s.subrange(i, i + 4), i + 4))
            } else {
                None
            }
        } else if num_chars().contains(b) {
            let e = run_end(s, i + 1, num_chars());
            Some((TokenType::Number, s.subrange(i, e), e))
        } else if b == '"' as u8 || b == '\'' as u8 {
            match scan_until(s, i + 1, seq![b]) {
                Some(t) => Some((TokenType::StringValue, seq![b] + t.0, t.1)),
                None => None,
            }
        } else if b == '{' as u8 {
            Some((TokenType::CurlyOpen, seq![b], i + 1))
        } else if b == '}' as u8 {
            Some((TokenType::CurlyClose, seq![b], i + 1))
        } else if b == '[' as u8 {
            Some((TokenType::ArrayOpen, seq![b], i + 1))
        } else if b == ']' as u8 {
            Some((TokenType::ArrayClose, seq![b], i + 1))
        } else if b == ':' as u8 {
            Some((TokenType::Colon, seq![b], i + 1))
        } else if b == ',' as u8 {
            Some((TokenType::Comma, seq![b], i + 1))
        } else {
            None
        }
    }
}

/// Every token of the stream from cursor `pos` on, in order, each with its
/// literal text. The stream ends at the first position where no token starts.
pub open spec fn token_seq(s: Seq<u8>, pos: int) -> Seq<(TokenType, Seq<u8>)>
    decreases s.len() - pos,
{
    match token_at(s, pos) {
        Some(t) => if pos < t.2 <= s.len() {
            seq![(t.0, t.1)] + token_seq(s, t.2)
        } else {
            Seq::empty()
        },
        None => Seq::empty(),
    }
}

pub proof fn lemma_run_end_bounds(s: Seq<u8>, i: int, cs: Seq<u8>)
    requires
        0 <= i <= s.len(),
    ensures
        i <= run_end(s, i, cs) <= s.len(),
    decreases s.len() - i,
{
    if 0 <= i < s.len() && cs.contains(s[i]) {
        lemma_run_end_bounds(s, i + 1, cs);
    }
}

pub proof fn lemma_scan_until_bounds(s: Seq<u8>, i: int, cs: Seq<u8>)
    requires
        0 <= i <= s.len(),
    ensures
        scan_until(s, i, cs) matches Some(t) ==> i < t.1 <= s.len(),
    decreases s.len() - i,
{
    if i < s.len() {
        if s[i] == '\\' as u8 {
            if i + 1 < s.len() {
                lemma_scan_until_bounds(s, i + 2, cs);
            }
        } else if !cs.contains(s[i]) {
            lemma_scan_until_bounds(s, i + 1, cs);
        }
    }
}

/// A token never stands still: whenever one starts at `pos`, it ends strictly
/// past `pos` and within the sequence.
pub proof fn lemma_token_at_advances(s: Seq<u8>, pos: int)
    requires
        0 <= pos <= s.len(),
    ensures
        token_at(s, pos) matches Some(t) ==> pos < t.2 <= s.len(),
{
    lemma_run_end_bounds(s, pos, ws_chars());
    let i = run_end(s, pos, ws_chars());
    if 0 <= i < s.len() {
        let b = s[i];
        if num_chars().contains(b) {
            lemma_run_end_bounds(s, i + 1, num_chars());
        } else if b == '"' as u8 || b == '\'' as u8 {
            lemma_scan_until_bounds(s, i + 1, seq![b]);
        }
    }
}

// ---------------------------------------------------------------------------
// The tokenizer itself.
// ---------------------------------------------------------------------------

/// One logical character as read from the source: the (decoded) byte and
/// whether it came out of a backslash escape.
#[derive(Clone, Copy)]
struct Char {
    ch: u8,
    is_escaped: bool,
}

/// A forward-only scanner over a byte buffer. `get_token` classifies one
/// lexical unit per call; a `None` result means the stream has ended, whether
/// at a clean boundary, on a truncated literal, or on an unrecognized byte.
pub struct Tokenizer {
    input: Vec<u8>,
    pos: usize,
}

impl View for Tokenizer {
    type V = Seq<u8>;

    /// The byte source the tokenizer was built over.
    closed spec fn view(&self) -> Seq<u8> {
        self.input@
    }
}

impl Tokenizer {
    /// The scan cursor: how many bytes of the source have been consumed.
    pub closed spec fn cursor(&self) -> int {
        self.pos as int
    }

    pub open spec fn wf(&self) -> bool {
        &&& 0 <= self.cursor() <= self@.len()
        &&& self@.len() <= usize::MAX
    }

    pub fn new(input: Vec<u8>) -> (r: Tokenizer)
        ensures
            r@ == input@,
            r.cursor() == 0,
            r.wf(),
    {
        proof {
            assert(input.len() == input@.len());
        }
        Tokenizer { input, pos: 0 }
    }

    /// Reads one logical character: one byte, or a backslash-prefixed pair
    /// decoded to one escaped character. `None` once the source is exhausted;
    /// the cursor then stays put.
    fn read(&mut self) -> (r: Option<Char>)
        requires
            old(self).wf(),
        ensures
            final(self).wf(),
            final(self)@ == old(self)@,
            match logical_at(old(self)@, old(self).cursor()) {
                Some(t) => r matches Some(c) && c.ch == t.0 && c.is_escaped == t.1
                    && final(self).cursor() == t.2,
                None => r is None && final(self).cursor() == old(self).cursor(),
            },
    {
        if self.pos < self.input.len() {
            let b = self.input[self.pos];
            if b == '\\' as u8 {
                if self.pos + 1 < self.input.len() {
                    let e = self.input[self.pos + 1];
                    self.pos = self.pos + 2;
                    Some(Char { ch: decode(e), is_escaped: true })
                } else {
                    None
                }
            } else {
                self.pos = self.pos + 1;
                Some(Char { ch: b, is_escaped: false })
            }
        } else {
            None
        }
    }

    /// Reads exactly `n` raw bytes. `None` (with the cursor unmoved) when
    /// fewer than `n` remain: a literal cut short by the end of the source
    /// yields no bytes at all rather than a partial read.
    fn read_n(&mut self, n: usize) -> (r: Option<Vec<u8>>)
        requires
            old(self).wf(),
        ensures
            final(self).wf(),
            final(self)@ == old(self)@,
            if old(self).cursor() + n <= old(self)@.len() {
                r matches Some(v)
                    && v@ == old(self)@.subrange(old(self).cursor(), old(self).cursor() + n)
                    && final(self).cursor() == old(self).cursor() + n
            } else {
                r is None && final(self).cursor() == old(self).cursor()
            },
    {
        if n <= self.input.len() - self.pos {
            let mut v: Vec<u8> = Vec::new();
            let mut k: usize = 0;
            while k < n
                invariant
                    self.wf(),
                    self == old(self),
                    k <= n,
                    self.pos + n <= self.input.len(),
                    v@ == self@.subrange(self.cursor(), self.cursor() + k),
                decreases n - k,
            {
                v.push(self.input[self.pos + k]);
                k = k + 1;
                proof {
                    assert(v@ =~= self@.subrange(self.cursor(), self.cursor() + k));
                }
            }
            self.pos = self.pos + n;
            Some(v)
        } else {
            None
        }
    }

    /// Greedily consumes the run of bytes drawn from `chars` that starts at
    /// the cursor and returns it; the first byte outside the set is left
    /// unconsumed (one byte of lookahead, never more).
    pub fn read_while(&mut self, chars: &Vec<u8>) -> (r: Vec<u8>)
        requires
            old(self).wf(),
        ensures
            final(self).wf(),
            final(self)@ == old(self)@,
            final(self).cursor() == run_end(old(self)@, old(self).cursor(), chars@),
            r@ == old(self)@.subrange(old(self).cursor(), final(self).cursor()),
    {
        let mut ret: Vec<u8> = Vec::new();
        loop
            invariant
                self.wf(),
                self@ == old(self)@,
                old(self).cursor() <= self.cursor(),
                run_end(self@, old(self).cursor(), chars@) == run_end(
                    self@,
                    self.cursor(),
                    chars@,
                ),
                ret@ == self@.subrange(old(self).cursor(), self.cursor()),
            ensures
                self.wf(),
                self@ == old(self)@,
                old(self).cursor() <= self.cursor(),
                self.cursor() == run_end(self@, old(self).cursor(), chars@),
                ret@ == self@.subrange(old(self).cursor(), self.cursor()),
            decreases self@.len() - self.cursor(),
        {
            if self.pos >= self.input.len() {
                break;
            }
            let b = self.input[self.pos];
            if !contains_byte(chars, b) {
                break;
            }
            self.pos = self.pos + 1;
            ret.push(b);
            proof {
                assert(ret@ =~= self@.subrange(old(self).cursor(), self.cursor()));
            }
        }
        ret
    }

    /// Skips the run of whitespace (space and newline only) at the cursor.
    pub fn skip_whitespace(&mut self)
        requires
            old(self).wf(),
        ensures
            final(self).wf(),
            final(self)@ == old(self)@,
            final(self).cursor() == run_end(old(self)@, old(self).cursor(), ws_chars()),
    {
        let ws: Vec<u8> = vec![' ' as u8, '\n' as u8];
        proof {
            assert(ws@ =~= ws_chars());
        }
        self.read_while(&ws);
    }

    /// Reads logical characters, accumulating their text (a backslash before
    /// each escaped one), until the first unescaped byte in `chars`, which is
    /// included in the result. `None` when the source runs out first: a
    /// truncated literal yields nothing rather than a partial text.
    pub fn read_until(&mut self, chars: &Vec<u8>) -> (r: Option<Vec<u8>>)
        requires
            old(self).wf(),
        ensures
            final(self).wf(),
            final(self)@ == old(self)@,
            match scan_until(old(self)@, old(self).cursor(), chars@) {
                Some(t) => r matches Some(v) && v@ == t.0 && final(self).cursor() == t.1,
                None => r is None && old(self).cursor() <= final(self).cursor(),
            },
    {
        let mut ret: Vec<u8> = Vec::new();
        loop
            invariant
                self.wf(),
                self@ == old(self)@,
                old(self).cursor() <= self.cursor(),
                match scan_until(self@, self.cursor(), chars@) {
                    Some(t) => (scan_until(self@, old(self).cursor(), chars@) matches Some(t0)
                        && t0.0 == ret@ + t.0 && t0.1 == t.1),
                    None => scan_until(self@, old(self).cursor(), chars@) is None,
                },
            decreases self@.len() - self.cursor(),
        {
            let ghost p = self.cursor();
            let ghost pre = ret@;
            match self.read() {
                None => {
                    return None;
                },
                Some(c) => {
                    if c.is_escaped {
                        ret.push('\\' as u8);
                        ret.push(c.ch);
                        proof {
                            let s = self@;
                            let cs = chars@;
                            let d = decode_escape(s[p + 1]);
                            assert(ret@ =~= pre + seq!['\\' as u8, d]);
                            match scan_until(s, self.cursor(), cs) {
                                Some(t) => {
                                    assert(pre + (seq!['\\' as u8, d] + t.0) =~= (pre + seq![
                                        '\\' as u8,
                                        d,
                                    ]) + t.0);
                                },
                                None => {},
                            }
                        }
                    } else {
                        ret.push(c.ch);
                        if contains_byte(chars, c.ch) {
                            return Some(ret);
                        }
                        proof {
                            let s = self@;
                            let cs = chars@;
                            assert(ret@ =~= pre + seq![s[p]]);
                            match scan_until(s, self.cursor(), cs) {
                                Some(t) => {
                                    assert(pre + (seq![s[p]] + t.0) =~= (pre + seq![s[p]]) + t.0);
                                },
                                None => {},
                            }
                        }
                    }
                },
            }
        }
    }

    /// Produces the next token of the stream, or `None` when no token starts
    /// at the cursor: a clean end of input, a literal cut short by it, and an
    /// unrecognized byte all end the stream the same way.
    pub fn get_token(&mut self) -> (r: Option<Token>)
        requires
            old(self).wf(),
        ensures
            final(self).wf(),
            final(self)@ == old(self)@,
            match token_at(old(self)@, old(self).cursor()) {
                Some(t) => r matches Some(tok) && tok.token_type == t.0 && tok.value@ == t.1
                    && final(self).cursor() == t.2,
                None => r is None && old(self).cursor() <= final(self).cursor(),
            },
    {
        self.skip_whitespace();
        let ghost s = self@;
        let ghost i = self.cursor();
        proof {
            lemma_run_end_bounds(s, old(self).cursor(), ws_chars());
        }
        if self.pos >= self.input.len() {
            return None;
        }
        let b = self.input[self.pos];
        if b == 't' as u8 {
            self.pos = self.pos + 1;
            match self.read_n(3) {
                Some(v) => {
                    let value = prefixed(b, v);
                    proof {
                        assert(value@ =~= s.subrange(i, i + 4));
                    }
                    Some(Token { value, token_type: TokenType::Boolean })
                },
                None => None,
            }
        } else if b == 'f' as u8 {
            self.pos = self.pos + 1;
            match self.read_n(4) {
                Some(v) => {
                    let value = prefixed(b, v);
                    proof {
                        assert(value@ =~= s.subrange(i, i + 5));
                    }
                    Some(Token { value, token_type: TokenType::Boolean })
                },
                None => None,
            }
        } else if b == 'n' as u8 {
            self.pos = self.pos + 1;
            match self.read_n(3) {
                Some(v) => {
                    let value = prefixed(b, v);
                    proof {
                        assert(value@ =~= s.subrange(i, i + 4));
                    }
                    Some(Token { value, token_type: TokenType::Null })
                },
                None => None,
            }
        } else {
            let nums: Vec<u8> = vec![
                '-' as u8,
                '.' as u8,
                '0' as u8,
                '1' as u8,
                '2' as u8,
                '3' as u8,
                '4' as u8,
                '5' as u8,
                '6' as u8,
                '7' as u8,
                '8' as u8,
                '9' as u8,
            ];
            proof {
                assert(nums@ =~= num_chars());
            }
            if contains_byte(&nums, b) {
                self.pos = self.pos + 1;
                let v = self.read_while(&nums);
                let value = prefixed(b, v);
                proof {
                    lemma_run_end_bounds(s, i + 1, num_chars());
                    assert(value@ =~= s.subrange(i, run_end(s, i + 1, num_chars())));
                }
                Some(Token { value, token_type: TokenType::Number })
            } else if b == '"' as u8 || b == '\'' as u8 {
                self.pos = self.pos + 1;
                let quote: Vec<u8> = vec![b];
                proof {
                    assert(quote@ =~= seq![b]);
                }
                match self.read_until(&quote) {
                    Some(v) => {
                        let value = prefixed(b, v);
                        Some(Token { value, token_type: TokenType::StringValue })
                    },
                    None => None,
                }
            } else if b == '{' as u8 {
                self.pos = self.pos + 1;
                Some(Token { value: single(b), token_type: TokenType::CurlyOpen })
            } else if b == '}' as u8 {
                self.pos = self.pos + 1;
                Some(Token { value: single(b), token_type: TokenType::CurlyClose })
            } else if b == '[' as u8 {
                self.pos = self.pos + 1;
                Some(Token { value: single(b), token_type: TokenType::ArrayOpen })
            } else if b == ']' as u8 {
                self.pos = self.pos + 1;
                Some(Token { value: single(b), token_type: TokenType::ArrayClose })
            } else if b == ':' as u8 {
                self.pos = self.pos + 1;
                Some(Token { value: single(b), token_type: TokenType::Colon })
            } else if b == ',' as u8 {
                self.pos = self.pos + 1;
                Some(Token { value: single(b), token_type: TokenType::Comma })
            } else {
                self.pos = self.pos + 1;
                None
            }
        }
    }
}

/// Membership of a byte in a set given as a byte vector.
fn contains_byte(cs: &Vec<u8>, b: u8) -> (r: bool)
    ensures
        r == cs@.contains(b),
{
    let mut k: usize = 0;
    while k < cs.len()
        invariant
            k <= cs@.len(),
            forall|j: int| 0 <= j < k ==> cs@[j] != b,
        decreases cs@.len() - k,
    {
        if cs[k] == b {
            return true;
        }
        k = k + 1;
    }
    false
}

/// A one-byte vector.
fn single(b: u8) -> (r: Vec<u8>)
    ensures
        r@ == seq![b],
{
    let mut v: Vec<u8> = Vec::new();
    v.push(b);
    proof {
        assert(v@ =~= seq![b]);
    }
    v
}

/// `rest` with `b` put in front of it.
fn prefixed(b: u8, rest: Vec<u8>) -> (r: Vec<u8>)
    ensures
        r@ == seq![b] + rest@,
{
    let mut v: Vec<u8> = Vec::new();
    v.push(b);
    let mut tail = rest;
    v.append(&mut tail);
    proof {
        assert(v@ =~= seq![b] + rest@);
    }
    v
}

/// Decode table for the byte after a backslash.
fn decode(b: u8) -> (r: u8)
    ensures
        r == decode_escape(b),
{
    if b == 'n' as u8 {
        '\n' as u8
    } else if b == 'r' as u8 {
        '\r' as u8
    } else if b == 't' as u8 {
        '\t' as u8
    } else if b == '0' as u8 {
        '\0' as u8
    } else {
        b
    }
}

} // verus!
