//! The parser core: a cursor over a token sequence, with the lookahead
//! primitives that grammar rules are built from.
use vstd::prelude::*;
use crate::Span;
use crate::error::{Error, ErrorKind};
use crate::lexer::{Token, TokenKind};

verus! {

/// Each span is a well-formed range of a source of `len` bytes, and the
/// spans follow one another without overlapping.
pub open spec fn spans_in_order(toks: Seq<Token>, len: nat) -> bool {
    &&& forall|i: int|
        0 <= i < toks.len() ==> (#[trigger] toks[i]).span.start <= toks[i].span.end <= len
    &&& forall|i: int, j: int|
        0 <= i < j < toks.len() ==> (#[trigger] toks[i]).span.end <= (#[trigger] toks[j]).span.start
}

/// A token sequence and a cursor into it. `end` is the length of the source
/// buffer, where diagnostics about end of input point.
pub struct Parser {
    tokens: Vec<Token>,
    pos: usize,
    end: usize,
}

impl Parser {
    /// The tokens, in order.
    pub closed spec fn tokens(&self) -> Seq<Token> {
        self.tokens@
    }

    /// The index of the current token; equal to the number of tokens once
    /// the input is exhausted.
    pub closed spec fn pos(&self) -> nat {
        self.pos as nat
    }

    /// The length of the source buffer.
    pub closed spec fn end(&self) -> nat {
        self.end as nat
    }

    /// The cursor lies within the tokens, and their spans follow one another
    /// within the source.
    pub closed spec fn wf(&self) -> bool {
        &&& self.pos <= self.tokens@.len()
        &&& spans_in_order(self.tokens@, self.end as nat)
    }

    /// The length of the source buffer.
    pub fn source_len(&self) -> (r: usize)
        ensures
            r == self.end(),
    {
        self.end
    }

    /// The current token, if any is left.
    pub open spec fn current(&self) -> Option<Token> {
        if self.pos() < self.tokens().len() {
            Some(self.tokens()[self.pos() as int])
        } else {
            None
        }
    }

    /// Where a diagnostic about the current token points: at that token, or
    /// at the end of the source once the tokens are exhausted.
    pub open spec fn current_span(&self) -> Span {
        match self.current() {
            Some(t) => t.span,
            None => Span { start: self.end() as usize, end: self.end() as usize },
        }
    }

    /// The same parser with the cursor moved by one token.
    pub open spec fn advanced(self, other: Self) -> bool {
        &&& other.tokens() == self.tokens()
        &&& other.end() == self.end()
        &&& other.pos() == self.pos() + 1
    }

    pub fn new(tokens: Vec<Token>, end: usize) -> (r: Parser)
        requires
            spans_in_order(tokens@, end as nat),
        ensures
            r.wf(),
            r.tokens() == tokens@,
            r.pos() == 0,
            r.end() == end,
    {
        Parser { tokens, pos: 0, end }
    }

    /// Every token spans part of the source, in order.
    pub proof fn lemma_spans(&self)
        requires
            self.wf(),
        ensures
            spans_in_order(self.tokens(), self.end()),
            self.pos() <= self.tokens().len(),
    {
    }

    /// The current token, without consuming it.
    pub fn peek(&self) -> (r: Option<&Token>)
        requires
            self.wf(),
        ensures
            r matches Some(t) ==> self.current() == Some(*t),
            r is None ==> self.current() is None,
    {
        if self.pos < self.tokens.len() {
            Some(&self.tokens[self.pos])
        } else {
            None
        }
    }

    /// Whether every token has been consumed.
    pub fn at_end(&self) -> (r: bool)
        requires
            self.wf(),
        ensures
            r == (self.current() is None),
    {
        self.pos >= self.tokens.len()
    }

    /// The span a diagnostic about the current token should carry.
    pub fn current_span_of(&self) -> (r: Span)
        requires
            self.wf(),
        ensures
            r == self.current_span(),
    {
        if self.pos < self.tokens.len() {
            self.tokens[self.pos].span
        } else {
            Span { start: self.end, end: self.end }
        }
    }

    /// Consumes the current token and hands it back; at end of input nothing
    /// changes.
    pub fn advance(&mut self) -> (r: Option<Token>)
        requires
            old(self).wf(),
        ensures
            final(self).wf(),
            r == old(self).current(),
            r is Some ==> old(self).advanced(*final(self)),
            r is None ==> *final(self) == *old(self),
    {
        if self.pos < self.tokens.len() {
            let t = self.tokens[self.pos];
            self.pos = self.pos + 1;
            Some(t)
        } else {
            None
        }
    }

    /// Consumes the current token if it is of the given kind. Otherwise the
    /// cursor stays where it is and the diagnostic names the expected kind
    /// and what was found instead.
    pub fn expect(&mut self, kind: &TokenKind) -> (r: Result<Token, Error>)
        requires
            old(self).wf(),
        ensures
            final(self).wf(),
            r is Ok <==> (old(self).current() matches Some(t) && t.kind == *kind),
            r matches Ok(t) ==> old(self).current() == Some(t) && old(self).advanced(*final(self)),
            r matches Err(e) ==> {
                &&& *final(self) == *old(self)
                &&& e.span_of() == old(self).current_span()
                &&& e.label_of() is None
                &&& e.kind_of() matches ErrorKind::Unexpected { expected, found }
                    && expected@ == seq![*kind]
                    && found == (match old(self).current() {
                    Some(t) => Some(t.kind),
                    None => None,
                })
            },
    {
        let span = self.current_span_of();
        if self.pos < self.tokens.len() {
            let t = self.tokens[self.pos];
            if t.kind == *kind {
                self.pos = self.pos + 1;
                return Ok(t);
            }
            Err(Error::unexpected(span, vec![*kind], Some(t.kind), None))
        } else {
            Err(Error::unexpected(span, vec![*kind], None, None))
        }
    }

    /// Projects the current token through `f` and consumes it when `f`
    /// succeeds; when `f` fails its error comes back untouched and the cursor
    /// stays. At end of input the diagnostic is an `Unexpected` that expects
    /// nothing in particular and found nothing.
    pub fn expect_with<T, F: Fn(&Token) -> Result<T, Error>>(&mut self, f: F) -> (r: Result<T, Error>)
        requires
            old(self).wf(),
            forall|t: &Token| f.requires((t,)),
        ensures
            final(self).wf(),
            old(self).current() matches Some(t) ==> f.ensures((&t,), r),
            r is Ok ==> old(self).current() is Some && old(self).advanced(*final(self)),
            r is Err ==> *final(self) == *old(self),
            old(self).current() is None ==> (r matches Err(e) && {
                &&& e.span_of() == old(self).current_span()
                &&& e.label_of() is None
                &&& e.kind_of() matches ErrorKind::Unexpected { expected, found } && expected@.len()
                    == 0 && found is None
            }),
    {
        if self.pos < self.tokens.len() {
            let r = f(&self.tokens[self.pos]);
            if r.is_ok() {
                self.pos = self.pos + 1;
            }
            r
        } else {
            Err(Error::unexpected(Span { start: self.end, end: self.end }, Vec::new(), None, None))
        }
    }
}

} // verus!
