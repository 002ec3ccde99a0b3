use parse_recovery::{
    Just, Located, Output, ParseError, Parser, RecoverVia, Recovery, Span, Stream, Token, just,
    nested_delimiters, skip_then_retry_until, skip_until,
};

const END: Token = 1000;

fn tok(word: &str) -> Token {
    if word == "END" {
        END
    } else {
        word.chars().next().unwrap() as Token
    }
}

fn toks(text: &str) -> Vec<Token> {
    text.split_whitespace().map(tok).collect()
}

fn stream(text: &str) -> Stream {
    Stream::new(toks(text))
}

fn never() -> Just {
    just(vec![tok("x")])
}

fn expected_at(at: usize, want: &str, found: Option<Token>, span: Span) -> Located {
    Located {
        at,
        error: ParseError::ExpectedInputFound { span, expected: vec![Some(tok(want))], found },
    }
}

fn span(start: usize, end: usize) -> Span {
    Span { start, end }
}

#[test]
fn just_matches_and_reports_mismatch() {
    let mut s = stream("a b c");
    let (errors, out) = just(toks("a b")).parse(&mut s);
    assert!(errors.is_empty());
    assert_eq!(out, Ok(Output::Parsed(span(0, 2))));
    assert_eq!(s.save(), 2);

    let mut s = stream("a b c");
    let (_, out) = just(toks("a x")).parse(&mut s);
    assert_eq!(out, Err(expected_at(1, "x", Some(tok("b")), span(1, 2))));
    assert_eq!(s.save(), 0);

    let mut s = stream("a");
    let (_, out) = just(toks("a b")).parse(&mut s);
    assert_eq!(out, Err(expected_at(1, "b", None, span(1, 1))));
}

#[test]
fn retry_aborts_at_terminator_without_consuming_it() {
    let mut s = stream("a b c END");
    let p = Recovery(never(), skip_then_retry_until(vec![END]));
    let (errors, out) = p.parse(&mut s);
    assert!(errors.is_empty());
    assert_eq!(out, Err(expected_at(0, "x", Some(tok("a")), span(0, 1))));
    assert_eq!(s.save(), 3);
}

#[test]
fn retry_consumes_terminator_when_asked() {
    let mut s = stream("a b c END");
    let p = Recovery(never(), skip_then_retry_until(vec![END]).consume_end());
    let (_, out) = p.parse(&mut s);
    assert!(out.is_err());
    assert_eq!(s.save(), 4);
}

#[test]
fn retry_aborts_at_end_of_input() {
    let mut s = stream("a b");
    let p = Recovery(never(), skip_then_retry_until(vec![END]));
    let (errors, out) = p.parse(&mut s);
    assert!(errors.is_empty());
    assert!(out.is_err());
    assert_eq!(s.save(), 2);
}

#[test]
fn retry_succeeds_after_skipping() {
    let mut s = stream("a x b");
    let p = Recovery(never(), skip_then_retry_until(vec![END]));
    let (errors, out) = p.parse(&mut s);
    assert_eq!(errors, vec![expected_at(0, "x", Some(tok("a")), span(0, 1))]);
    assert_eq!(out, Ok(Output::Parsed(span(1, 2))));
    assert_eq!(s.save(), 2);
}

#[test]
fn retry_skip_start_skips_a_leading_terminator() {
    let mut s = stream("END a x");
    let p = Recovery(never(), skip_then_retry_until(vec![END]).skip_start());
    let (errors, out) = p.parse(&mut s);
    assert_eq!(errors.len(), 1);
    assert_eq!(out, Ok(Output::Parsed(span(2, 3))));
}

#[test]
fn skip_until_builds_placeholder_before_terminator() {
    let mut s = stream("a b ; c");
    let p = Recovery(never(), skip_until(vec![tok(";")], 7));
    let (errors, out) = p.parse(&mut s);
    assert_eq!(errors, vec![expected_at(0, "x", Some(tok("a")), span(0, 1))]);
    assert_eq!(out, Ok(Output::Placeholder { kind: 7, span: span(0, 2) }));
    assert_eq!(s.save(), 2);
}

#[test]
fn skip_until_consume_end_takes_the_terminator() {
    let mut s = stream("a b ; c");
    let p = Recovery(never(), skip_until(vec![tok(";")], 7).consume_end());
    let (_, out) = p.parse(&mut s);
    assert_eq!(out, Ok(Output::Placeholder { kind: 7, span: span(0, 3) }));
    assert_eq!(s.save(), 3);
}

#[test]
fn skip_until_succeeds_at_end_of_input_after_progress() {
    let mut s = stream("a b");
    let p = Recovery(never(), skip_until(vec![tok(";")], 1));
    let (_, out) = p.parse(&mut s);
    assert_eq!(out, Ok(Output::Placeholder { kind: 1, span: span(0, 2) }));
}

#[test]
fn skip_until_fails_at_end_of_input_without_progress() {
    let mut s = stream("");
    let p = Recovery(never(), skip_until(vec![tok(";"), tok(",")], 1));
    let (errors, out) = p.parse(&mut s);
    assert_eq!(errors, vec![expected_at(0, "x", None, span(0, 0))]);
    let error = ParseError::ExpectedInputFound {
        span: span(0, 0),
        expected: vec![Some(tok(";")), Some(tok(","))],
        found: None,
    };
    assert_eq!(out, Err(Located { at: 0, error }));
    assert_eq!(s.save(), 0);
}

#[test]
fn skip_until_zero_width_at_leading_terminator() {
    let mut s = stream("; a");
    let p = Recovery(never(), skip_until(vec![tok(";")], 1));
    let (_, out) = p.parse(&mut s);
    assert_eq!(out, Ok(Output::Placeholder { kind: 1, span: span(0, 0) }));
    let mut s = stream("; a");
    let p = Recovery(never(), skip_until(vec![tok(";")], 1).skip_start());
    let (_, out) = p.parse(&mut s);
    assert_eq!(out, Ok(Output::Placeholder { kind: 1, span: span(0, 2) }));
}

fn parens(others: &str) -> parse_recovery::NestedDelimiters {
    let others = toks(others);
    let pairs = others.chunks(2).map(|p| (p[0], p[1])).collect();
    nested_delimiters(tok("("), tok(")"), pairs, 9)
}

#[test]
fn nested_balances_with_secondary_inside() {
    let mut s = stream("( a [ b ) c ]");
    let p = Recovery(never(), parens("[ ]"));
    let (errors, out) = p.parse(&mut s);
    assert_eq!(errors, vec![expected_at(0, "x", Some(tok("(")), span(0, 1))]);
    assert_eq!(out, Ok(Output::Placeholder { kind: 9, span: span(0, 5) }));
    assert_eq!(s.save(), 5);
}

#[test]
fn nested_reports_one_mismatched_closer() {
    let mut s = stream("( a ] b ] )");
    let p = Recovery(never(), parens("[ ] { }"));
    let (errors, out) = p.parse(&mut s);
    let unclosed = Located {
        at: 2,
        error: ParseError::UnclosedDelimiter {
            unclosed_span: span(0, 1),
            unclosed: tok("("),
            span: span(2, 3),
            expected: tok(")"),
            found: Some(tok("]")),
        },
    };
    assert_eq!(errors, vec![unclosed, expected_at(0, "x", Some(tok("(")), span(0, 1))]);
    assert_eq!(out, Ok(Output::Placeholder { kind: 9, span: span(0, 6) }));
}

#[test]
fn nested_handles_nesting() {
    let mut s = stream("( ( a ) b ) c");
    let p = Recovery(never(), parens(""));
    let (_, out) = p.parse(&mut s);
    assert_eq!(out, Ok(Output::Placeholder { kind: 9, span: span(0, 6) }));
    assert_eq!(s.save(), 6);
}

#[test]
fn nested_rejects_overshoot() {
    let mut s = stream(")");
    let p = Recovery(never(), parens("[ ]"));
    let (errors, out) = p.parse(&mut s);
    assert!(errors.is_empty());
    assert_eq!(out, Err(expected_at(0, "x", Some(tok(")")), span(0, 1))));
}

#[test]
fn nested_rejects_ordinary_first_token() {
    let mut s = stream("a ( )");
    let p = Recovery(never(), parens(""));
    let (_, out) = p.parse(&mut s);
    assert!(out.is_err());
    assert_eq!(s.save(), 1);
}

#[test]
fn nested_fails_on_unclosed_region() {
    let mut s = stream("( a ]");
    let p = Recovery(never(), parens("[ ]"));
    let (errors, out) = p.parse(&mut s);
    assert!(errors.is_empty());
    assert!(out.is_err());
    assert_eq!(s.save(), 3);
}

#[test]
fn recovery_passes_success_through() {
    let mut s = stream("x y");
    let p = Recovery(never(), parens(""));
    let (errors, out) = p.parse(&mut s);
    assert!(errors.is_empty());
    assert_eq!(out, Ok(Output::Parsed(span(0, 1))));
}

#[test]
fn via_merges_diagnostics_in_order() {
    let mut s = stream("a b c d e f g h ; z");
    let a = just(toks("a b c d e q"));
    let b = Recovery(never(), skip_until(vec![tok(";")], 3).consume_end());
    let (errors, out) = RecoverVia(a, b).parse(&mut s);
    assert_eq!(
        errors,
        vec![
            expected_at(5, "q", Some(tok("f")), span(5, 6)),
            expected_at(0, "x", Some(tok("a")), span(0, 1)),
        ]
    );
    assert_eq!(out, Ok(Output::Placeholder { kind: 3, span: span(0, 9) }));
    assert_eq!(s.save(), 9);
}

#[test]
fn via_reports_only_the_first_failure() {
    let mut s = stream("");
    let a = just(toks("a"));
    let b = Recovery(never(), skip_until(vec![tok(";")], 3));
    let (errors, out) = RecoverVia(a, b).parse(&mut s);
    assert!(errors.is_empty());
    assert_eq!(out, Err(expected_at(0, "a", None, span(0, 0))));
    assert_eq!(s.save(), 0);
}

#[test]
fn via_restores_cursor_after_both_fail() {
    let mut s = stream("a b ] c");
    let a = just(toks("a q"));
    let b = Recovery(never(), parens("[ ]"));
    let (errors, out) = RecoverVia(a, b).parse(&mut s);
    assert!(errors.is_empty());
    assert_eq!(out, Err(expected_at(1, "q", Some(tok("b")), span(1, 2))));
    assert_eq!(s.save(), 0);
}

#[test]
fn replay_gives_identical_results() {
    let mut s = stream("( a ] b ) c");
    let p = Recovery(never(), parens("[ ]"));
    let first = p.parse(&mut s);
    let end = s.save();
    s.revert(0);
    let second = p.parse(&mut s);
    assert_eq!(first, second);
    assert_eq!(end, s.save());
}

#[test]
fn stream_reads_and_reverts() {
    let mut s = stream("a b");
    assert_eq!(s.peek(), Some(tok("a")));
    assert_eq!(s.next(), (0, span(0, 1), Some(tok("a"))));
    let cp = s.save();
    assert_eq!(s.next(), (1, span(1, 2), Some(tok("b"))));
    assert_eq!(s.next(), (2, span(2, 2), None));
    assert_eq!(s.span_since(0), span(0, 2));
    s.revert(cp);
    assert_eq!(s.save(), 1);
}
