//! Recovery by balancing a pair of delimiters.
use vstd::prelude::*;

use crate::outcome::{
    ErrorView, Located, LocatedView, Outcome, Output, PResult, ParseError, diags, push_diag,
};
use crate::parser::Parser;
use crate::strategy::Strategy;
use crate::stream::{Span, Stream, Token, token_span};

verus! {

/// A strategy that skips a region opened by `start` and closed by the
/// matching `end`, respecting nesting, and stands a placeholder of `fallback`
/// kind in its place. The pairs in `others` are not balanced; they only serve
/// to report a closing delimiter of the wrong kind inside the region.
#[derive(Clone, Debug)]
pub struct NestedDelimiters {
    pub start: Token,
    pub end: Token,
    pub others: Vec<(Token, Token)>,
    pub fallback: u32,
}

/// A nested-delimiter strategy. The two delimiters must differ.
pub fn nested_delimiters(
    start: Token,
    end: Token,
    others: Vec<(Token, Token)>,
    fallback: u32,
) -> (s: NestedDelimiters)
    requires
        start != end,
    ensures
        s.wf(),
        s.start == start,
        s.end == end,
        s.others@ == others@,
        s.fallback == fallback,
{
    NestedDelimiters { start, end, others, fallback }
}

/// The state of one recovery attempt: the balance of the primary pair, the
/// balance of each secondary pair, the spans of the primary openers still
/// tracked, and the first mismatch found.
pub struct DelimState {
    pub balance: int,
    pub others: Seq<int>,
    pub starts: Seq<Span>,
    pub error: Option<LocatedView>,
}

/// What token `t` does to the balance of the secondary pair `p`.
pub open spec fn other_delta(p: (Token, Token), t: Token) -> int {
    if t == p.0 {
        1
    } else if t == p.1 {
        -1
    } else {
        0
    }
}

/// Among the first `k` secondary pairs, `t` closes one whose balance was not
/// positive, driving it below zero.
pub open spec fn closes_below_zero(
    pairs: Seq<(Token, Token)>,
    counts: Seq<int>,
    t: Token,
    k: int,
) -> bool {
    exists|j: int| 0 <= j < k && t != pairs[j].0 && t == pairs[j].1 && #[trigger] counts[j] < 1
}

/// The optional error's view.
pub open spec fn error_view(e: Option<Located>) -> Option<LocatedView> {
    match e {
        Some(l) => Some(l@),
        None => None,
    }
}

impl NestedDelimiters {
    /// The opening and closing delimiters differ.
    pub open spec fn wf(&self) -> bool {
        self.start != self.end
    }

    /// The state before the first token.
    pub open spec fn initial(&self) -> DelimState {
        DelimState {
            balance: 0,
            others: Seq::new(self.others@.len(), |k: int| 0int),
            starts: Seq::empty(),
            error: None,
        }
    }

    /// The state after token `t` at index `i`, and whether `t` was one of the
    /// primary pair.
    pub open spec fn step(&self, st: DelimState, t: Token, i: nat) -> (DelimState, bool) {
        if t == self.start {
            (DelimState { balance: st.balance + 1, starts: st.starts.push(token_span(i)), ..st }, true)
        } else if t == self.end {
            let starts = if st.starts.len() > 0 {
                st.starts.drop_last()
            } else {
                st.starts
            };
            (DelimState { balance: st.balance - 1, starts, ..st }, true)
        } else {
            let pairs = self.others@;
            let others = Seq::new(pairs.len(), |k: int| st.others[k] + other_delta(pairs[k], t));
            if st.error is None && st.balance == 1 && closes_below_zero(
                pairs,
                st.others,
                t,
                pairs.len() as int,
            ) {
                let error = LocatedView {
                    at: i,
                    error: ErrorView::UnclosedDelimiter {
                        unclosed_span: st.starts.last(),
                        unclosed: self.start,
                        span: token_span(i),
                        expected: self.end,
                        found: Some(t),
                    },
                };
                (
                    DelimState {
                        others,
                        starts: st.starts.drop_last(),
                        error: Some(error),
                        ..st
                    },
                    false,
                )
            } else {
                (DelimState { others, ..st }, false)
            }
        }
    }

    /// Reads `input` from index `i` in state `st`: whether the region closed
    /// cleanly, where reading stopped, and the mismatch recorded.
    pub open spec fn run(&self, input: Seq<Token>, i: nat, st: DelimState) -> (
        bool,
        nat,
        Option<LocatedView>,
    )
        decreases input.len() - i,
    {
        if i >= input.len() {
            (false, i, st.error)
        } else {
            let (next, matched) = self.step(st, input[i as int], i);
            if matched && next.balance == 0 {
                (true, i + 1, next.error)
            } else if matched && next.balance < 0 {
                (false, i + 1, next.error)
            } else if !matched && next.balance == 0 {
                (false, i + 1, next.error)
            } else {
                self.run(input, i + 1, next)
            }
        }
    }

    proof fn lemma_run_bounds(&self, input: Seq<Token>, i: nat, st: DelimState)
        requires
            i <= input.len(),
        ensures
            i <= self.run(input, i, st).1 <= input.len(),
        decreases input.len() - i,
    {
        if i < input.len() {
            let (next, matched) = self.step(st, input[i as int], i);
            self.lemma_run_bounds(input, i + 1, next);
        }
    }
}

/// `errors` with `fatal` added where source order allows: it is appended
/// when the list is empty or its last entry lies after `fatal`, and dropped
/// otherwise.
pub open spec fn with_fatal_in_order(errors: Seq<LocatedView>, fatal: LocatedView) -> Seq<LocatedView> {
    if errors.len() == 0 || fatal.at < errors.last().at {
        errors.push(fatal)
    } else {
        errors
    }
}

impl<P: Parser> Strategy<P> for NestedDelimiters {
    open spec fn spec_recover(
        &self,
        parser: P,
        errors: Seq<LocatedView>,
        fatal: LocatedView,
        input: Seq<Token>,
        pos: nat,
    ) -> Outcome {
        let (recovered, end, error) = self.run(input, pos, self.initial());
        if recovered {
            let noted = match error {
                Some(e) => errors.push(e),
                None => errors,
            };
            Outcome {
                errors: with_fatal_in_order(noted, fatal),
                result: Ok(
                    Output::Placeholder {
                        kind: self.fallback,
                        span: Span { start: pos as usize, end: end as usize },
                    },
                ),
                end,
            }
        } else {
            // A failed attempt surfaces the fatal error alone: what it
            // recorded on the way, and the opener left unclosed at the end
            // of input, are dropped, and the cursor stays where reading
            // stopped.
            Outcome { errors, result: Err(fatal), end }
        }
    }

    proof fn lemma_recover_bounds(
        &self,
        parser: P,
        errors: Seq<LocatedView>,
        fatal: LocatedView,
        input: Seq<Token>,
        pos: nat,
    ) {
        self.lemma_run_bounds(input, pos, self.initial());
    }

    fn recover(
        &self,
        errors: Vec<Located>,
        fatal: Located,
        parser: &P,
        stream: &mut Stream,
    ) -> (r: PResult) {
        let ghost input = stream.input();
        let n = self.others.len();
        let pre = stream.save();
        let mut balance: isize = 0;
        let mut others: Vec<isize> = Vec::new();
        while others.len() < n
            invariant
                others.len() <= n,
                n == self.others@.len(),
                forall|k: int| 0 <= k < others@.len() ==> others@[k] == 0,
            decreases n - others.len(),
        {
            others.push(0);
        }
        let mut starts: Vec<Span> = Vec::new();
        let mut error: Option<Located> = None;
        proof {
            assert(others@.map_values(|v: isize| v as int) =~= self.initial().others);
            assert(starts@ =~= Seq::<Span>::empty());
        }
        let mut recovered = false;
        loop
            invariant_except_break
                0 <= balance <= stream.pos() - pre,
                forall|k: int|
                    0 <= k < n ==> -(stream.pos() - pre) <= #[trigger] others@[k] <= stream.pos()
                        - pre,
                error is None ==> starts@.len() == balance,
                !recovered,
                self.run(input, pre as nat, self.initial()) == self.run(
                    input,
                    stream.pos(),
                    DelimState {
                        balance: balance as int,
                        others: others@.map_values(|v: isize| v as int),
                        starts: starts@,
                        error: error_view(error),
                    },
                ),
            invariant
                stream.wf(),
                stream.input() == input,
                input == old(stream).input(),
                pre == old(stream).pos(),
                pre <= stream.pos(),
                n == self.others@.len(),
                others@.len() == n,
            ensures
                self.run(input, pre as nat, self.initial()) == (
                    recovered,
                    stream.pos(),
                    error_view(error),
                ),
            decreases input.len() - stream.pos(),
        {
            let ghost st = DelimState {
                balance: balance as int,
                others: others@.map_values(|v: isize| v as int),
                starts: starts@,
                error: error_view(error),
            };
            let ghost i = stream.pos();
            let (at, span, tok) = stream.next();
            let t = match tok {
                Some(t) => t,
                None => {
                    break ;
                },
            };
            let ghost next = self.step(st, t, i).0;
            let matched;
            if t == self.start {
                balance = balance + 1;
                starts.push(span);
                matched = true;
            } else if t == self.end {
                balance = balance - 1;
                let _ = starts.pop();
                matched = true;
            } else {
                let ghost counts = st.others;
                let mut closes = false;
                let mut k: usize = 0;
                while k < n
                    invariant
                        k <= n,
                        n == self.others@.len(),
                        others@.len() == n,
                        counts.len() == n,
                        stream.pos() == i + 1,
                        stream.pos() <= isize::MAX,
                        forall|j: int|
                            0 <= j < n ==> -(i - pre) <= #[trigger] counts[j] <= i - pre,
                        forall|j: int|
                            0 <= j < k ==> #[trigger] others@[j] == counts[j] + other_delta(
                                self.others@[j],
                                t,
                            ),
                        forall|j: int| k <= j < n ==> #[trigger] others@[j] == counts[j],
                        closes == closes_below_zero(self.others@, counts, t, k as int),
                    decreases n - k,
                {
                    let (open, close) = self.others[k];
                    if t == open {
                        let v = others[k] + 1;
                        others.set(k, v);
                    } else if t == close {
                        let v = others[k] - 1;
                        others.set(k, v);
                        if v < 0 {
                            closes = true;
                        }
                    }
                    proof {
                        if closes_below_zero(self.others@, counts, t, k as int + 1) {
                            let j = choose|j: int|
                                0 <= j < k as int + 1 && t != self.others@[j].0 && t
                                    == self.others@[j].1 && #[trigger] counts[j] < 1;
                            if j < k as int {
                                assert(closes_below_zero(self.others@, counts, t, k as int));
                            }
                        }
                        if closes_below_zero(self.others@, counts, t, k as int) {
                            let j = choose|j: int|
                                0 <= j < k as int && t != self.others@[j].0 && t
                                    == self.others@[j].1 && #[trigger] counts[j] < 1;
                            assert(0 <= j < k as int + 1 && counts[j] < 1);
                        }
                    }
                    k = k + 1;
                }
                if closes && balance == 1 && error.is_none() {
                    let open = starts.pop().unwrap();
                    error = Some(
                        Located {
                            at,
                            error: ParseError::UnclosedDelimiter {
                                unclosed_span: open,
                                unclosed: self.start,
                                span,
                                expected: self.end,
                                found: Some(t),
                            },
                        },
                    );
                }
                proof {
                    assert(others@.map_values(|v: isize| v as int) =~= next.others);
                }
                matched = false;
            }
            proof {
                assert(starts@ =~= next.starts);
            }
            if matched {
                if balance == 0 {
                    recovered = true;
                    break ;
                }
                if balance < 0 {
                    break ;
                }
            } else if balance == 0 {
                break ;
            }
        }
        let mut errors = errors;
        if recovered {
            if let Some(e) = error {
                push_diag(&mut errors, e);
            }
            let append = if errors.len() == 0 {
                true
            } else {
                fatal.at < errors[errors.len() - 1].at
            };
            if append {
                push_diag(&mut errors, fatal);
            }
            let span = stream.span_since(pre);
            (errors, Ok(Output::Placeholder { kind: self.fallback, span }))
        } else {
            (errors, Err(fatal))
        }
    }
}

} // verus!
