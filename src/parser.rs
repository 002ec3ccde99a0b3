//! Parsers, as far as recovery needs them: something that reads the stream
//! from its cursor and returns an outcome that depends on the input and the
//! starting position alone.
use vstd::prelude::*;

use crate::outcome::{
    ErrorView, Located, LocatedView, Outcome, Output, PResult, ParseError, diags, is_outcome,
};
use crate::stream::{Span, Stream, Token, eoi_span, token_span};

verus! {

/// A parser over a token stream.
pub trait Parser {
    /// What parsing `input` from index `pos` returns, and where it leaves the
    /// cursor.
    spec fn spec_parse(&self, input: Seq<Token>, pos: nat) -> Outcome;

    /// A parser never moves the cursor back, nor past the end of input.
    proof fn lemma_parse_bounds(&self, input: Seq<Token>, pos: nat)
        requires
            pos <= input.len(),
            input.len() <= isize::MAX,
        ensures
            pos <= self.spec_parse(input, pos).end <= input.len(),
    ;

    /// Parses from the stream's cursor.
    fn parse(&self, stream: &mut Stream) -> (r: PResult)
        requires
            old(stream).wf(),
        ensures
            final(stream).wf(),
            final(stream).input() == old(stream).input(),
            is_outcome(r, final(stream).pos(), self.spec_parse(old(stream).input(), old(stream).pos())),
    ;
}

/// A parser that accepts exactly the tokens `expected`, in order. On failure
/// it leaves the cursor where it began.
pub struct Just {
    pub expected: Vec<Token>,
}

/// A parser that accepts exactly `expected`, in order.
pub fn just(expected: Vec<Token>) -> (p: Just)
    ensures
        p.expected@ == expected@,
{
    Just { expected }
}

/// How many of `expected`, counted on from `k`, agree with `input` read from
/// `pos`.
pub open spec fn agreeing(expected: Seq<Token>, input: Seq<Token>, pos: nat, k: nat) -> nat
    decreases expected.len() - k,
{
    if k < expected.len() && pos + k < input.len() && input[pos + k as int] == expected[k as int] {
        agreeing(expected, input, pos, k + 1)
    } else {
        k
    }
}

proof fn lemma_agreeing(expected: Seq<Token>, input: Seq<Token>, pos: nat, k: nat)
    requires
        k <= expected.len(),
        pos + k <= input.len(),
    ensures
        k <= agreeing(expected, input, pos, k) <= expected.len(),
        pos + agreeing(expected, input, pos, k) <= input.len(),
    decreases expected.len() - k,
{
    if k < expected.len() && pos + k < input.len() && input[pos + k as int] == expected[k as int] {
        lemma_agreeing(expected, input, pos, k + 1);
    }
}

impl Parser for Just {
    open spec fn spec_parse(&self, input: Seq<Token>, pos: nat) -> Outcome {
        let e = self.expected@;
        let k = agreeing(e, input, pos, 0);
        let at = pos + k;
        if k >= e.len() {
            Outcome {
                errors: Seq::empty(),
                result: Ok(Output::Parsed(Span { start: pos as usize, end: at as usize })),
                end: at,
            }
        } else if at < input.len() {
            Outcome {
                errors: Seq::empty(),
                result: Err(
                    LocatedView {
                        at,
                        error: ErrorView::ExpectedInputFound {
                            span: token_span(at),
                            expected: seq![Some(e[k as int])],
                            found: Some(input[at as int]),
                        },
                    },
                ),
                end: pos,
            }
        } else {
            Outcome {
                errors: Seq::empty(),
                result: Err(
                    LocatedView {
                        at,
                        error: ErrorView::ExpectedInputFound {
                            span: eoi_span(at),
                            expected: seq![Some(e[k as int])],
                            found: None,
                        },
                    },
                ),
                end: pos,
            }
        }
    }

    proof fn lemma_parse_bounds(&self, input: Seq<Token>, pos: nat) {
        lemma_agreeing(self.expected@, input, pos, 0);
    }

    fn parse(&self, stream: &mut Stream) -> (r: PResult) {
        let ghost input = stream.input();
        let start = stream.save();
        let mut k: usize = 0;
        while k < self.expected.len()
            invariant
                stream.wf(),
                stream.input() == input,
                input == old(stream).input(),
                start == old(stream).pos(),
                stream.pos() == start + k,
                k <= self.expected@.len(),
                agreeing(self.expected@, input, start as nat, 0)
                    == agreeing(self.expected@, input, start as nat, k as nat),
            decreases self.expected@.len() - k,
        {
            let (at, span, tok) = stream.next();
            let want = self.expected[k];
            if tok == Some(want) {
                k = k + 1;
            } else {
                let mut expected = Vec::new();
                expected.push(Some(want));
                proof {
                    assert(expected@ =~= seq![Some(want)]);
                }
                let error = ParseError::ExpectedInputFound { span, expected, found: tok };
                stream.revert(start);
                let none: Vec<Located> = Vec::new();
                proof {
                    assert(diags(none@) =~= Seq::empty());
                }
                return (none, Err(Located { at, error }));
            }
        }
        let end = stream.save();
        let none: Vec<Located> = Vec::new();
        proof {
            assert(diags(none@) =~= Seq::empty());
        }
        (none, Ok(Output::Parsed(Span { start, end })))
    }
}

} // verus!
