//! Properties that hold of every input, stated over the strategies' and
//! combinators' models.
use vstd::prelude::*;

use crate::combinator::{RecoverVia, Recovery};
use crate::nested::{DelimState, NestedDelimiters};
use crate::outcome::{LocatedView, Output};
use crate::parser::Parser;
use crate::skip::{SkipThenRetryUntil, SkipUntil, first_terminator, retry, skip_from};
use crate::strategy::Strategy;
use crate::stream::{Span, Stream, Token};

verus! {

proof fn lemma_run_success_advances(s: NestedDelimiters, input: Seq<Token>, i: nat, st: DelimState)
    ensures
        s.run(input, i, st).0 ==> s.run(input, i, st).1 > i,
    decreases input.len() - i,
{
    if i < input.len() {
        let (next, matched) = s.step(st, input[i as int], i);
        lemma_run_success_advances(s, input, i + 1, next);
    }
}

/// A successful nested-delimiter recovery spans at least one token: its
/// placeholder starts where recovery began and ends where the cursor was
/// left, strictly after it.
pub proof fn lemma_nested_progress<P: Parser>(
    s: NestedDelimiters,
    parser: P,
    errors: Seq<LocatedView>,
    fatal: LocatedView,
    input: Seq<Token>,
    pos: nat,
)
    requires
        pos <= input.len(),
        input.len() <= isize::MAX,
        Strategy::<P>::spec_recover(&s, parser, errors, fatal, input, pos).result is Ok,
    ensures
        ({
            let o = Strategy::<P>::spec_recover(&s, parser, errors, fatal, input, pos);
            &&& o.end > pos
            &&& o.result == Ok::<Output, LocatedView>(
                Output::Placeholder {
                    kind: s.fallback,
                    span: Span { start: pos as usize, end: o.end as usize },
                },
            )
        }),
{
    lemma_run_success_advances(s, input, pos, s.initial());
}

/// A successful skip-to-fallback recovery spans at least one token, unless
/// it stopped at once at a synchronisation token that it leaves in place:
/// its placeholder starts where recovery began and ends where the cursor was
/// left.
pub proof fn lemma_skip_until_progress<P: Parser>(
    s: SkipUntil,
    parser: P,
    errors: Seq<LocatedView>,
    fatal: LocatedView,
    input: Seq<Token>,
    pos: nat,
)
    requires
        pos <= input.len(),
        input.len() <= isize::MAX,
        Strategy::<P>::spec_recover(&s, parser, errors, fatal, input, pos).result is Ok,
        !(skip_from(s.skip_first, input, pos) == pos && pos < input.len() && s.until@.contains(
            input[pos as int],
        ) && !s.consume_terminator),
    ensures
        ({
            let o = Strategy::<P>::spec_recover(&s, parser, errors, fatal, input, pos);
            &&& o.end > pos
            &&& o.result == Ok::<Output, LocatedView>(
                Output::Placeholder {
                    kind: s.fallback,
                    span: Span { start: pos as usize, end: o.end as usize },
                },
            )
        }),
{
    let from = skip_from(s.skip_first, input, pos);
    if from < input.len() && !s.until@.contains(input[from as int]) {
        assert(first_terminator(s.until@, input, from) == first_terminator(
            s.until@,
            input,
            from + 1,
        ));
        lemma_first_terminator_from(s.until@, input, from + 1);
    }
}

proof fn lemma_first_terminator_from(until: Seq<Token>, input: Seq<Token>, i: nat)
    ensures
        first_terminator(until, input, i) >= i,
    decreases input.len() - i,
{
    if i < input.len() && !until.contains(input[i as int]) {
        lemma_first_terminator_from(until, input, i + 1);
    }
}

proof fn lemma_retry_advances<P: Parser>(
    parser: P,
    until: Seq<Token>,
    consume: bool,
    errors: Seq<LocatedView>,
    fatal: LocatedView,
    input: Seq<Token>,
    i: nat,
)
    requires
        i <= input.len(),
        input.len() <= isize::MAX,
    ensures
        retry(parser, until, consume, errors, fatal, input, i).result is Ok ==> retry(
            parser,
            until,
            consume,
            errors,
            fatal,
            input,
            i,
        ).end > i,
    decreases input.len() - i,
{
    if i < input.len() && !until.contains(input[i as int]) {
        parser.lemma_parse_bounds(input, i + 1);
        let o = parser.spec_parse(input, i + 1);
        if !(o.result is Ok) {
            lemma_retry_advances(parser, until, consume, errors, fatal, input, o.end);
        }
    }
}

/// A successful retry-after-skip recovery leaves the cursor strictly after
/// where recovery began: at least one token was skipped before the parser
/// succeeded.
pub proof fn lemma_retry_progress<P: Parser>(
    s: SkipThenRetryUntil,
    parser: P,
    errors: Seq<LocatedView>,
    fatal: LocatedView,
    input: Seq<Token>,
    pos: nat,
)
    requires
        pos <= input.len(),
        input.len() <= isize::MAX,
        Strategy::<P>::spec_recover(&s, parser, errors, fatal, input, pos).result is Ok,
    ensures
        Strategy::<P>::spec_recover(&s, parser, errors, fatal, input, pos).end > pos,
{
    lemma_retry_advances(
        parser,
        s.until@,
        s.consume_terminator,
        errors,
        fatal,
        input,
        skip_from(s.skip_first, input, pos),
    );
}

/// Running a recovering parser twice over the same input from the same
/// checkpoint gives the same diagnostics, the same output and the same final
/// cursor.
pub proof fn lemma_replay<A: Parser, S: Strategy<A>>(r: Recovery<A, S>, first: Stream, second: Stream)
    requires
        first.input() == second.input(),
        first.pos() == second.pos(),
    ensures
        r.spec_parse(first.input(), first.pos()) == r.spec_parse(second.input(), second.pos()),
{
}

/// When `.0` fails and `.1` succeeds, a `RecoverVia` returns `.0`'s
/// diagnostics, then `.0`'s fatal error, then `.1`'s diagnostics, in that
/// order, with `.1`'s output, and leaves the cursor where `.1` left it.
pub proof fn lemma_via_merge_order<A: Parser, B: Parser>(
    p: RecoverVia<A, B>,
    input: Seq<Token>,
    pos: nat,
)
    requires
        p.0.spec_parse(input, pos).result is Err,
        p.1.spec_parse(input, pos).result is Ok,
    ensures
        ({
            let a = p.0.spec_parse(input, pos);
            let b = p.1.spec_parse(input, pos);
            let o = p.spec_parse(input, pos);
            &&& o.errors == a.errors.push(a.result->Err_0) + b.errors
            &&& o.result == b.result
            &&& o.end == b.end
        }),
{
}

/// When both parsers of a `RecoverVia` fail, only `.0`'s diagnostics and
/// fatal error are returned, none of `.1`'s, and the cursor is back where
/// both began.
pub proof fn lemma_via_no_double_failure<A: Parser, B: Parser>(
    p: RecoverVia<A, B>,
    input: Seq<Token>,
    pos: nat,
)
    requires
        p.0.spec_parse(input, pos).result is Err,
        p.1.spec_parse(input, pos).result is Err,
    ensures
        ({
            let a = p.0.spec_parse(input, pos);
            let o = p.spec_parse(input, pos);
            &&& o.errors == a.errors
            &&& o.result == a.result
            &&& o.end == pos
        }),
{
}

proof fn lemma_retry_extends<P: Parser>(
    parser: P,
    until: Seq<Token>,
    consume: bool,
    errors: Seq<LocatedView>,
    fatal: LocatedView,
    input: Seq<Token>,
    i: nat,
)
    ensures
        errors.is_prefix_of(retry(parser, until, consume, errors, fatal, input, i).errors),
    decreases input.len() - i,
{
    if i < input.len() && !until.contains(input[i as int]) {
        let o = parser.spec_parse(input, i + 1);
        if o.result is Ok {
            assert(errors =~= (errors + o.errors.push(fatal)).subrange(0, errors.len() as int));
        } else if i < o.end <= input.len() {
            lemma_retry_extends(parser, until, consume, errors, fatal, input, o.end);
        }
    }
}

/// Strategies only append: the diagnostics handed to any of the three
/// strategies are a prefix of those it returns, whether it recovers or not.
pub proof fn lemma_strategies_only_append<P: Parser>(
    retrying: SkipThenRetryUntil,
    skipping: SkipUntil,
    nested: NestedDelimiters,
    parser: P,
    errors: Seq<LocatedView>,
    fatal: LocatedView,
    input: Seq<Token>,
    pos: nat,
)
    ensures
        errors.is_prefix_of(
            Strategy::<P>::spec_recover(&retrying, parser, errors, fatal, input, pos).errors,
        ),
        errors.is_prefix_of(
            Strategy::<P>::spec_recover(&skipping, parser, errors, fatal, input, pos).errors,
        ),
        errors.is_prefix_of(
            Strategy::<P>::spec_recover(&nested, parser, errors, fatal, input, pos).errors,
        ),
{
    lemma_retry_extends(
        parser,
        retrying.until@,
        retrying.consume_terminator,
        errors,
        fatal,
        input,
        skip_from(retrying.skip_first, input, pos),
    );
    assert(errors =~= errors.push(fatal).subrange(0, errors.len() as int));
    assert(errors =~= errors.subrange(0, errors.len() as int));
    let (recovered, end, error) = nested.run(input, pos, nested.initial());
    if let Some(e) = error {
        let noted = errors.push(e);
        assert(errors =~= noted.push(fatal).subrange(0, errors.len() as int));
    }
}

} // verus!
