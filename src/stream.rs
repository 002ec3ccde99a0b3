//! The token cursor that parsers and recovery strategies move over.
use vstd::prelude::*;

verus! {

/// An input token, as the lexer hands it over.
pub type Token = u32;

/// A range of token indices, `start` inclusive and `end` exclusive.
#[derive(Copy, Clone, Debug, PartialEq, Eq, Structural)]
pub struct Span {
    pub start: usize,
    pub end: usize,
}

/// The span of the single token at index `i`.
pub open spec fn token_span(i: nat) -> Span {
    Span { start: i as usize, end: (i + 1) as usize }
}

/// The span of the end of input.
pub open spec fn eoi_span(len: nat) -> Span {
    Span { start: len as usize, end: len as usize }
}

/// A cursor over a fixed sequence of tokens.
pub struct Stream {
    tokens: Vec<Token>,
    offset: usize,
}

impl Stream {
    /// The tokens the stream reads.
    pub closed spec fn input(&self) -> Seq<Token> {
        self.tokens@
    }

    /// The index of the next token to be read.
    pub closed spec fn pos(&self) -> nat {
        self.offset as nat
    }

    /// The cursor stands within the input, and the input is no longer than
    /// an allocation can be.
    pub open spec fn wf(&self) -> bool {
        &&& self.pos() <= self.input().len()
        &&& self.input().len() <= isize::MAX
    }

    /// A stream positioned at the first of `tokens`.
    pub fn new(tokens: Vec<Token>) -> (s: Stream)
        requires
            tokens@.len() <= isize::MAX,
        ensures
            s.wf(),
            s.input() == tokens@,
            s.pos() == 0,
    {
        Stream { tokens, offset: 0 }
    }

    /// Reads one token. Returns its index, its span and the token; at the end
    /// of input, the input's length, the end-of-input span and `None`, and
    /// the cursor stays.
    pub fn next(&mut self) -> (r: (usize, Span, Option<Token>))
        requires
            old(self).wf(),
        ensures
            final(self).wf(),
            final(self).input() == old(self).input(),
            r.0 == old(self).pos(),
            old(self).pos() < old(self).input().len() ==> {
                &&& final(self).pos() == old(self).pos() + 1
                &&& r.1 == token_span(old(self).pos())
                &&& r.2 == Some(old(self).input()[old(self).pos() as int])
            },
            old(self).pos() == old(self).input().len() ==> {
                &&& final(self).pos() == old(self).pos()
                &&& r.1 == eoi_span(old(self).pos())
                &&& r.2 == None::<Token>
            },
    {
        if self.offset < self.tokens.len() {
            let t = self.tokens[self.offset];
            let at = self.offset;
            self.offset = self.offset + 1;
            (at, Span { start: at, end: at + 1 }, Some(t))
        } else {
            (self.offset, Span { start: self.offset, end: self.offset }, None)
        }
    }

    /// Reads the next token without moving the cursor.
    pub fn peek(&self) -> (r: Option<Token>)
        requires
            self.wf(),
        ensures
            self.pos() < self.input().len() ==> r == Some(self.input()[self.pos() as int]),
            self.pos() == self.input().len() ==> r == None::<Token>,
    {
        if self.offset < self.tokens.len() {
            Some(self.tokens[self.offset])
        } else {
            None
        }
    }

    /// A checkpoint: the cursor's position, to compare or to return to.
    pub fn save(&self) -> (r: usize)
        ensures
            r == self.pos(),
    {
        self.offset
    }

    /// Moves the cursor back (or on) to a saved checkpoint.
    pub fn revert(&mut self, checkpoint: usize)
        requires
            old(self).wf(),
            checkpoint <= old(self).input().len(),
        ensures
            final(self).wf(),
            final(self).input() == old(self).input(),
            final(self).pos() == checkpoint,
    {
        self.offset = checkpoint;
    }

    /// The span of what was read since `checkpoint`.
    pub fn span_since(&self, checkpoint: usize) -> (r: Span)
        ensures
            r == (Span { start: checkpoint, end: self.pos() as usize }),
    {
        Span { start: checkpoint, end: self.offset }
    }
}

} // verus!
