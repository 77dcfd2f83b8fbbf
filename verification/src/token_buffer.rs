//! Cursor over a tokenized declaration stream.
//!
//! The parser walks the token sequence through this buffer: one token
//! at a time, with recovery by skipping forward to a chosen token kind.

use vstd::prelude::*;
use crate::tokenizer::{Token, TokenKind, TokenModel};

verus! {

/// A cursor over a vector of tokens.
pub struct ParserTokenBuffer {
    pos: usize,
    len: usize,
    tokens: Vec<Token>,
}

/// The first position at or after `pos` whose token has the wanted
/// kind, or the end of the stream when none has.
pub open spec fn spec_skip_until(toks: Seq<TokenModel>, pos: int, kind: TokenKind) -> int
    decreases toks.len() - pos,
{
    if !(0 <= pos < toks.len()) {
        pos
    } else if toks[pos].kind == kind {
        pos
    } else {
        spec_skip_until(toks, pos + 1, kind)
    }
}

/// A cursor position never sits below the stream start.
pub broadcast proof fn lemma_position_nonneg(b: &ParserTokenBuffer)
    ensures
        #[trigger] b.position() >= 0,
{
}

/// `spec_skip_until` never moves backwards and never passes the end.
pub proof fn lemma_skip_until_bounds(toks: Seq<TokenModel>, pos: int, kind: TokenKind)
    requires
        0 <= pos <= toks.len(),
    ensures
        pos <= spec_skip_until(toks, pos, kind) <= toks.len(),
    decreases toks.len() - pos,
{
    if pos < toks.len() && toks[pos].kind != kind {
        lemma_skip_until_bounds(toks, pos + 1, kind);
    }
}

impl ParserTokenBuffer {
    /// The recorded length matches the token vector and the cursor has
    /// not run past the end.
    pub closed spec fn wf(&self) -> bool {
        self.len == self.tokens@.len() && self.pos <= self.len
    }

    /// The models of the buffered tokens.
    pub closed spec fn toks(&self) -> Seq<TokenModel> {
        self.tokens@.map_values(|t: Token| t@)
    }

    /// The cursor position.
    pub closed spec fn position(&self) -> int {
        self.pos as int
    }

    /// Consumes and returns the next token.
    pub fn next(&mut self) -> (t: &Token)
        requires
            old(self).wf(),
            old(self).position() < old(self).toks().len(),
        ensures
            final(self).wf(),
            final(self).toks() == old(self).toks(),
            final(self).position() == old(self).position() + 1,
            t@ == old(self).toks()[old(self).position()],
    {
        self.pos += 1;
        let token = &self.tokens[self.pos - 1];
        token
    }

    /// Advances the cursor up to the next token of the given kind (not
    /// consuming it), or to the end of the stream when none follows.
    pub fn skip_until(&mut self, kind: TokenKind)
        requires
            old(self).wf(),
        ensures
            final(self).wf(),
            final(self).toks() == old(self).toks(),
            final(self).position() == spec_skip_until(
                old(self).toks(),
                old(self).position(),
                kind,
            ),
    {
        let ghost toks = self.toks();
        let ghost pos0 = self.position();
        while !self.is_out_of_bounds()
            invariant
                self.wf(),
                self.toks() == toks,
                0 <= pos0 <= self.position() <= toks.len(),
                spec_skip_until(toks, pos0, kind) == spec_skip_until(toks, self.position(), kind),
            ensures
                self.wf(),
                self.toks() == toks,
                self.position() == spec_skip_until(toks, pos0, kind),
            decreases toks.len() - self.position(),
        {
            let token = self.next();
            if token.kind == kind {
                self.pos -= 1;
                assert(spec_skip_until(toks, self.position(), kind) == self.position());
                break ;
            }
        }
    }

    /// Consumes the next token if any is left, reporting whether it had
    /// the expected kind; at the end of the stream nothing moves.
    pub fn expect(&mut self, kind: TokenKind) -> (r: Option<&Token>)
        requires
            old(self).wf(),
        ensures
            final(self).wf(),
            final(self).toks() == old(self).toks(),
            old(self).position() < old(self).toks().len() ==> {
                &&& final(self).position() == old(self).position() + 1
                &&& r matches Some(t) && t@ == old(self).toks()[old(self).position()]
            },
            old(self).position() >= old(self).toks().len() ==> {
                &&& final(self).position() == old(self).position()
                &&& r is None
            },
    {
        if self.is_out_of_bounds() {
            return None;
        }
        self.pos += 1;
        let tok = &self.tokens[self.pos - 1];
        Some(tok)
    }

    /// The token just consumed.
    pub fn current(&self) -> (t: &Token)
        requires
            self.wf(),
            1 <= self.position(),
        ensures
            t@ == self.toks()[self.position() - 1],
    {
        &self.tokens[self.pos - 1]
    }

    /// Whether the whole stream has been consumed.
    pub fn is_out_of_bounds(&self) -> (r: bool)
        requires
            self.wf(),
        ensures
            r == (self.position() >= self.toks().len()),
    {
        self.pos >= self.len
    }

    /// A cursor over the given tokens, positioned at their start.
    pub fn new(tokens: Vec<Token>) -> (b: ParserTokenBuffer)
        ensures
            b.wf(),
            b.toks() == tokens@.map_values(|t: Token| t@),
            b.position() == 0,
    {
        let n = tokens.len();
        ParserTokenBuffer { pos: 0, len: n, tokens: tokens }
    }

    /// A cursor over no tokens.
    pub fn default() -> (b: ParserTokenBuffer)
        ensures
            b.wf(),
            b.toks() == Seq::<TokenModel>::empty(),
            b.position() == 0,
    {
        let b = ParserTokenBuffer { pos: 0, len: 0, tokens: Vec::new() };
        assert(b.toks() =~= Seq::<TokenModel>::empty());
        b
    }
}

} // verus!
