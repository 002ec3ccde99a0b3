//! What a parse attempt hands back: an output or a positioned error, together
//! with the diagnostics collected on the way.
use vstd::prelude::*;

use crate::stream::{Span, Token};

verus! {

/// The value a parser produces.
#[derive(Copy, Clone, Debug, PartialEq, Eq, Structural)]
pub enum Output {
    /// Input that was parsed, over its span.
    Parsed(Span),
    /// A placeholder that a recovery strategy built over the input it skipped.
    Placeholder { kind: u32, span: Span },
}

/// Why a parse failed.
#[allow(inconsistent_fields)]
#[derive(Clone, Debug, PartialEq, Eq)]
pub enum ParseError {
    /// At `span` one of `expected` was owed (`None`: the end of input), and
    /// `found` came (`None`: the end of input).
    ExpectedInputFound { span: Span, expected: Vec<Option<Token>>, found: Option<Token> },
    /// The delimiter `unclosed`, opened at `unclosed_span`, was not closed by
    /// `expected` before `span`, where `found` came.
    UnclosedDelimiter {
        unclosed_span: Span,
        unclosed: Token,
        span: Span,
        expected: Token,
        found: Option<Token>,
    },
}

/// The mathematical value of a [`ParseError`].
#[allow(inconsistent_fields)]
pub enum ErrorView {
    ExpectedInputFound { span: Span, expected: Seq<Option<Token>>, found: Option<Token> },
    UnclosedDelimiter {
        unclosed_span: Span,
        unclosed: Token,
        span: Span,
        expected: Token,
        found: Option<Token>,
    },
}

impl View for ParseError {
    type V = ErrorView;

    open spec fn view(&self) -> ErrorView {
        match self {
            ParseError::ExpectedInputFound { span, expected, found } => {
                ErrorView::ExpectedInputFound { span: *span, expected: expected@, found: *found }
            },
            ParseError::UnclosedDelimiter { unclosed_span, unclosed, span, expected, found } => {
                ErrorView::UnclosedDelimiter {
                    unclosed_span: *unclosed_span,
                    unclosed: *unclosed,
                    span: *span,
                    expected: *expected,
                    found: *found,
                }
            },
        }
    }
}

/// An error together with the input index where it arose.
#[derive(Clone, Debug, PartialEq, Eq)]
pub struct Located {
    pub at: usize,
    pub error: ParseError,
}

/// The mathematical value of a [`Located`].
pub struct LocatedView {
    pub at: nat,
    pub error: ErrorView,
}

impl View for Located {
    type V = LocatedView;

    open spec fn view(&self) -> LocatedView {
        LocatedView { at: self.at as nat, error: self.error@ }
    }
}

/// The views of a list of diagnostics.
pub open spec fn diags(v: Seq<Located>) -> Seq<LocatedView> {
    v.map_values(|l: Located| l@)
}

/// What a parse attempt returns: the diagnostics, and the output or the fatal
/// error.
pub type PResult = (Vec<Located>, Result<Output, Located>);

/// What a parse attempt does, in mathematical terms: the diagnostics, the
/// output or the fatal error, and where the cursor is left.
pub struct Outcome {
    pub errors: Seq<LocatedView>,
    pub result: Result<Output, LocatedView>,
    pub end: nat,
}

/// The view of an output-or-error.
pub open spec fn result_view(r: Result<Output, Located>) -> Result<Output, LocatedView> {
    match r {
        Ok(o) => Ok(o),
        Err(e) => Err(e@),
    }
}

/// `r`, with the cursor left at `end`, is the outcome `o`.
pub open spec fn is_outcome(r: PResult, end: nat, o: Outcome) -> bool {
    &&& diags(r.0@) == o.errors
    &&& result_view(r.1) == o.result
    &&& end == o.end
}

/// Appends `l` to `v`, with the views following.
pub fn push_diag(v: &mut Vec<Located>, l: Located)
    ensures
        diags(final(v)@) == diags(old(v)@).push(l@),
{
    v.push(l);
    proof {
        assert(diags(final(v)@) =~= diags(old(v)@).push(l@));
    }
}

/// Appends all of `w` to `v`, with the views following.
pub fn append_diags(v: &mut Vec<Located>, w: Vec<Located>)
    ensures
        diags(final(v)@) == diags(old(v)@) + diags(w@),
{
    let ghost w0 = w@;
    let mut w = w;
    v.append(&mut w);
    proof {
        assert(diags(final(v)@) =~= diags(old(v)@) + diags(w0));
    }
}

} // verus!
