//! The interface that every recovery strategy offers.
use vstd::prelude::*;

use crate::outcome::{Located, LocatedView, Outcome, PResult, diags, is_outcome};
use crate::parser::Parser;
use crate::stream::{Stream, Token};

verus! {

/// A way to continue after `parser` failed: given the diagnostics collected
/// so far and the fatal error, it resynchronises the stream and either
/// produces an output or hands a fatal error back.
pub trait Strategy<P: Parser> {
    /// What recovering from `fatal` with the cursor at `pos` of `input`
    /// returns, and where it leaves the cursor.
    spec fn spec_recover(
        &self,
        parser: P,
        errors: Seq<LocatedView>,
        fatal: LocatedView,
        input: Seq<Token>,
        pos: nat,
    ) -> Outcome;

    /// Recovery never moves the cursor back, nor past the end of input.
    proof fn lemma_recover_bounds(
        &self,
        parser: P,
        errors: Seq<LocatedView>,
        fatal: LocatedView,
        input: Seq<Token>,
        pos: nat,
    )
        requires
            pos <= input.len(),
            input.len() <= isize::MAX,
        ensures
            pos <= self.spec_recover(parser, errors, fatal, input, pos).end <= input.len(),
    ;

    /// Recovers from a failure of `parser`, with the cursor where the failed
    /// attempt began.
    fn recover(
        &self,
        errors: Vec<Located>,
        fatal: Located,
        parser: &P,
        stream: &mut Stream,
    ) -> (r: PResult)
        requires
            old(stream).wf(),
        ensures
            final(stream).wf(),
            final(stream).input() == old(stream).input(),
            is_outcome(
                r,
                final(stream).pos(),
                self.spec_recover(*parser, diags(errors@), fatal@, old(stream).input(), old(stream).pos()),
            ),
    ;
}

} // verus!
