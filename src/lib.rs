//! Error recovery for a backtracking parser: strategies that resynchronise a
//! token stream after a failed parse, and combinators that attach them.
use vstd::prelude::*;

pub mod combinator;
pub mod laws;
pub mod nested;
pub mod outcome;
pub mod parser;
pub mod skip;
pub mod strategy;
pub mod stream;

pub use combinator::{RecoverVia, Recovery};
pub use nested::{NestedDelimiters, nested_delimiters};
pub use outcome::{Located, Output, PResult, ParseError};
pub use parser::{Just, Parser, just};
pub use skip::{SkipThenRetryUntil, SkipUntil, skip_then_retry_until, skip_until};
pub use strategy::Strategy;
pub use stream::{Span, Stream, Token};

verus! {

} // verus!
