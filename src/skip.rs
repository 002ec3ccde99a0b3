//! Recovery by skipping input up to a synchronisation token.
use vstd::prelude::*;

use crate::outcome::{
    ErrorView, Located, LocatedView, Outcome, Output, PResult, ParseError, append_diags, diags,
    push_diag,
};
use crate::parser::Parser;
use crate::strategy::Strategy;
use crate::stream::{Span, Stream, Token, eoi_span};

verus! {

/// Whether `t` is one of `tokens`.
fn contains(tokens: &Vec<Token>, t: Token) -> (r: bool)
    ensures
        r == tokens@.contains(t),
{
    let mut i: usize = 0;
    while i < tokens.len()
        invariant
            i <= tokens@.len(),
            forall|j: int| 0 <= j < i ==> tokens@[j] != t,
        decreases tokens@.len() - i,
    {
        if tokens[i] == t {
            proof {
                assert(tokens@[i as int] == t);
            }
            return true;
        }
        i = i + 1;
    }
    false
}

/// Each of `tokens` as an expected input.
pub open spec fn as_expected(tokens: Seq<Token>) -> Seq<Option<Token>> {
    tokens.map_values(|t: Token| Some(t))
}

fn expected_of(tokens: &Vec<Token>) -> (r: Vec<Option<Token>>)
    ensures
        r@ == as_expected(tokens@),
{
    let mut r: Vec<Option<Token>> = Vec::new();
    let mut i: usize = 0;
    while i < tokens.len()
        invariant
            i <= tokens@.len(),
            r@ == as_expected(tokens@.subrange(0, i as int)),
        decreases tokens@.len() - i,
    {
        r.push(Some(tokens[i]));
        proof {
            assert(tokens@.subrange(0, i + 1) =~= tokens@.subrange(0, i as int).push(tokens@[i as int]));
            assert(as_expected(tokens@.subrange(0, i + 1)) =~= as_expected(
                tokens@.subrange(0, i as int),
            ).push(Some(tokens@[i as int])));
        }
        i = i + 1;
    }
    proof {
        assert(tokens@.subrange(0, i as int) =~= tokens@);
    }
    r
}

/// Where skipping begins: one token on from `pos` when the first input is
/// skipped unconditionally and there is one, else `pos`.
pub open spec fn skip_from(skip_first: bool, input: Seq<Token>, pos: nat) -> nat {
    if skip_first && pos < input.len() {
        pos + 1
    } else {
        pos
    }
}

/// The index of the first of `until` in `input` from `i` on, or the input's
/// length when there is none.
pub open spec fn first_terminator(until: Seq<Token>, input: Seq<Token>, i: nat) -> nat
    decreases input.len() - i,
{
    if i < input.len() && !until.contains(input[i as int]) {
        first_terminator(until, input, i + 1)
    } else {
        i
    }
}

proof fn lemma_first_terminator(until: Seq<Token>, input: Seq<Token>, i: nat)
    requires
        i <= input.len(),
    ensures
        i <= first_terminator(until, input, i) <= input.len(),
    decreases input.len() - i,
{
    if i < input.len() && !until.contains(input[i as int]) {
        lemma_first_terminator(until, input, i + 1);
    }
}

/// A strategy that skips input one token at a time and tries the parser
/// again after each, until the parser succeeds, one of `until` comes or the
/// input ends.
#[derive(Clone, Debug)]
pub struct SkipThenRetryUntil {
    pub until: Vec<Token>,
    pub consume_terminator: bool,
    pub skip_first: bool,
}

impl SkipThenRetryUntil {
    /// The same strategy, skipping the first token unconditionally.
    pub fn skip_start(self) -> (r: Self)
        ensures
            r.until@ == self.until@,
            r.consume_terminator == self.consume_terminator,
            r.skip_first,
    {
        SkipThenRetryUntil { skip_first: true, ..self }
    }

    /// The same strategy, consuming the synchronisation token it stops at.
    pub fn consume_end(self) -> (r: Self)
        ensures
            r.until@ == self.until@,
            r.consume_terminator,
            r.skip_first == self.skip_first,
    {
        SkipThenRetryUntil { consume_terminator: true, ..self }
    }
}

/// A retrying strategy that stops at any of `until`, neither skipping the
/// first token unconditionally nor consuming the one it stops at.
pub fn skip_then_retry_until(until: Vec<Token>) -> (s: SkipThenRetryUntil)
    ensures
        s.until@ == until@,
        !s.consume_terminator,
        !s.skip_first,
{
    SkipThenRetryUntil { until, consume_terminator: false, skip_first: false }
}

/// Retrying from index `i`: a synchronisation token or the end of input hands
/// `fatal` back; otherwise one token is skipped and the parser runs again.
/// When it succeeds, its diagnostics and then `fatal` are added to `errors`.
pub open spec fn retry<P: Parser>(
    parser: P,
    until: Seq<Token>,
    consume: bool,
    errors: Seq<LocatedView>,
    fatal: LocatedView,
    input: Seq<Token>,
    i: nat,
) -> Outcome
    decreases input.len() - i,
{
    if i >= input.len() {
        Outcome { errors, result: Err(fatal), end: i }
    } else if until.contains(input[i as int]) {
        Outcome { errors, result: Err(fatal), end: if consume { i + 1 } else { i } }
    } else {
        let o = parser.spec_parse(input, i + 1);
        if o.result is Ok {
            Outcome { errors: errors + o.errors.push(fatal), result: o.result, end: o.end }
        } else if i < o.end <= input.len() {
            retry(parser, until, consume, errors, fatal, input, o.end)
        } else {
            // A parser never moves the cursor back: this is not reached.
            Outcome { errors, result: Err(fatal), end: i + 1 }
        }
    }
}

proof fn lemma_retry_bounds<P: Parser>(
    parser: P,
    until: Seq<Token>,
    consume: bool,
    errors: Seq<LocatedView>,
    fatal: LocatedView,
    input: Seq<Token>,
    i: nat,
)
    requires
        i <= input.len(),
        input.len() <= isize::MAX,
    ensures
        i <= retry(parser, until, consume, errors, fatal, input, i).end <= input.len(),
    decreases input.len() - i,
{
    if i < input.len() && !until.contains(input[i as int]) {
        parser.lemma_parse_bounds(input, i + 1);
        let o = parser.spec_parse(input, i + 1);
        if !(o.result is Ok) {
            lemma_retry_bounds(parser, until, consume, errors, fatal, input, o.end);
        }
    }
}

impl<P: Parser> Strategy<P> for SkipThenRetryUntil {
    open spec fn spec_recover(
        &self,
        parser: P,
        errors: Seq<LocatedView>,
        fatal: LocatedView,
        input: Seq<Token>,
        pos: nat,
    ) -> Outcome {
        retry(
            parser,
            self.until@,
            self.consume_terminator,
            errors,
            fatal,
            input,
            skip_from(self.skip_first, input, pos),
        )
    }

    proof fn lemma_recover_bounds(
        &self,
        parser: P,
        errors: Seq<LocatedView>,
        fatal: LocatedView,
        input: Seq<Token>,
        pos: nat,
    ) {
        lemma_retry_bounds(
            parser,
            self.until@,
            self.consume_terminator,
            errors,
            fatal,
            input,
            skip_from(self.skip_first, input, pos),
        );
    }

    fn recover(&self, errors: Vec<Located>, fatal: Located, parser: &P, stream: &mut Stream) -> (r:
        PResult) {
        let ghost input = stream.input();
        let ghost before = diags(errors@);
        if self.skip_first {
            let _ = stream.next();
        }
        let mut collected = errors;
        loop
            invariant
                stream.wf(),
                stream.input() == input,
                input == old(stream).input(),
                diags(collected@) == before,
                before == diags(errors@),
                retry(
                    *parser,
                    self.until@,
                    self.consume_terminator,
                    before,
                    fatal@,
                    input,
                    skip_from(self.skip_first, input, old(stream).pos()),
                ) == retry(
                    *parser,
                    self.until@,
                    self.consume_terminator,
                    before,
                    fatal@,
                    input,
                    stream.pos(),
                ),
            decreases input.len() - stream.pos(),
        {
            let checkpoint = stream.save();
            let (_, _, tok) = stream.next();
            match tok {
                None => {
                    return (collected, Err(fatal));
                },
                Some(t) => {
                    if contains(&self.until, t) {
                        if !self.consume_terminator {
                            stream.revert(checkpoint);
                        }
                        return (collected, Err(fatal));
                    }
                },
            }
            proof {
                parser.lemma_parse_bounds(input, stream.pos());
            }
            let (retry_errors, res) = parser.parse(stream);
            if let Ok(out) = res {
                append_diags(&mut collected, retry_errors);
                push_diag(&mut collected, fatal);
                proof {
                    assert(diags(collected@) =~= before + diags(retry_errors@).push(fatal@));
                }
                return (collected, Ok(out));
            }
        }
    }
}

/// A strategy that skips input up to one of `until` and stands a placeholder
/// of `fallback` kind in place of what it skipped, without trying the parser
/// again.
#[derive(Clone, Debug)]
pub struct SkipUntil {
    pub until: Vec<Token>,
    pub fallback: u32,
    pub consume_terminator: bool,
    pub skip_first: bool,
}

impl SkipUntil {
    /// The same strategy, skipping the first token unconditionally.
    pub fn skip_start(self) -> (r: Self)
        ensures
            r.until@ == self.until@,
            r.fallback == self.fallback,
            r.consume_terminator == self.consume_terminator,
            r.skip_first,
    {
        SkipUntil { skip_first: true, ..self }
    }

    /// The same strategy, consuming the synchronisation token it stops at.
    pub fn consume_end(self) -> (r: Self)
        ensures
            r.until@ == self.until@,
            r.fallback == self.fallback,
            r.consume_terminator,
            r.skip_first == self.skip_first,
    {
        SkipUntil { consume_terminator: true, ..self }
    }
}

/// A skipping strategy that stops at any of `until` and builds a placeholder
/// of `fallback` kind, neither skipping the first token unconditionally nor
/// consuming the one it stops at.
pub fn skip_until(until: Vec<Token>, fallback: u32) -> (s: SkipUntil)
    ensures
        s.until@ == until@,
        s.fallback == fallback,
        !s.consume_terminator,
        !s.skip_first,
{
    SkipUntil { until, fallback, consume_terminator: false, skip_first: false }
}

/// A placeholder of `kind` over the input from `start` to `end`.
pub open spec fn placeholder(kind: u32, start: nat, end: nat) -> Output {
    Output::Placeholder { kind, span: Span { start: start as usize, end: end as usize } }
}

impl<P: Parser> Strategy<P> for SkipUntil {
    open spec fn spec_recover(
        &self,
        parser: P,
        errors: Seq<LocatedView>,
        fatal: LocatedView,
        input: Seq<Token>,
        pos: nat,
    ) -> Outcome {
        let noted = errors.push(fatal);
        let k = first_terminator(self.until@, input, skip_from(self.skip_first, input, pos));
        if k < input.len() {
            let end = if self.consume_terminator {
                k + 1
            } else {
                k
            };
            Outcome { errors: noted, result: Ok(placeholder(self.fallback, pos, end)), end }
        } else if k > pos {
            Outcome { errors: noted, result: Ok(placeholder(self.fallback, pos, k)), end: k }
        } else {
            let error = ErrorView::ExpectedInputFound {
                span: eoi_span(k),
                expected: as_expected(self.until@),
                found: None,
            };
            Outcome { errors: noted, result: Err(LocatedView { at: k, error }), end: k }
        }
    }

    proof fn lemma_recover_bounds(
        &self,
        parser: P,
        errors: Seq<LocatedView>,
        fatal: LocatedView,
        input: Seq<Token>,
        pos: nat,
    ) {
        lemma_first_terminator(self.until@, input, skip_from(self.skip_first, input, pos));
    }

    fn recover(&self, errors: Vec<Located>, fatal: Located, parser: &P, stream: &mut Stream) -> (r:
        PResult) {
        let ghost input = stream.input();
        let pre = stream.save();
        if self.skip_first {
            let _ = stream.next();
        }
        let mut collected = errors;
        push_diag(&mut collected, fatal);
        loop
            invariant
                stream.wf(),
                diags(collected@) == diags(errors@).push(fatal@),
                stream.input() == input,
                input == old(stream).input(),
                pre == old(stream).pos(),
                pre <= stream.pos(),
                skip_from(self.skip_first, input, pre as nat) <= stream.pos(),
                first_terminator(self.until@, input, skip_from(self.skip_first, input, pre as nat))
                    == first_terminator(self.until@, input, stream.pos()),
            decreases input.len() - stream.pos(),
        {
            let checkpoint = stream.save();
            let (at, span, tok) = stream.next();
            match tok {
                Some(t) => {
                    if contains(&self.until, t) {
                        if !self.consume_terminator {
                            stream.revert(checkpoint);
                        }
                        let span = stream.span_since(pre);
                        return (collected, Ok(Output::Placeholder { kind: self.fallback, span }));
                    }
                },
                None => {
                    if stream.save() > pre {
                        let span = stream.span_since(pre);
                        return (collected, Ok(Output::Placeholder { kind: self.fallback, span }));
                    }
                    let error = ParseError::ExpectedInputFound {
                        span,
                        expected: expected_of(&self.until),
                        found: None,
                    };
                    return (collected, Err(Located { at, error }));
                },
            }
        }
    }
}

} // verus!
