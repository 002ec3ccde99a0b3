//! Parsers that attach a fallback path to another parser.
use vstd::prelude::*;

use crate::outcome::{LocatedView, Outcome, PResult, append_diags, diags, push_diag};
use crate::parser::Parser;
use crate::strategy::Strategy;
use crate::stream::{Stream, Token};

verus! {

/// A parser that runs `.0` and, when it fails, recovers with the strategy
/// `.1` from where `.0` began.
#[derive(Copy, Clone, Debug)]
pub struct Recovery<A, S>(pub A, pub S);

impl<A: Parser, S: Strategy<A>> Parser for Recovery<A, S> {
    open spec fn spec_parse(&self, input: Seq<Token>, pos: nat) -> Outcome {
        let a = self.0.spec_parse(input, pos);
        match a.result {
            Ok(_) => a,
            Err(fatal) => self.1.spec_recover(self.0, a.errors, fatal, input, pos),
        }
    }

    proof fn lemma_parse_bounds(&self, input: Seq<Token>, pos: nat) {
        self.0.lemma_parse_bounds(input, pos);
        let a = self.0.spec_parse(input, pos);
        if let Err(fatal) = a.result {
            self.1.lemma_recover_bounds(self.0, a.errors, fatal, input, pos);
        }
    }

    fn parse(&self, stream: &mut Stream) -> (r: PResult) {
        let checkpoint = stream.save();
        proof {
            self.0.lemma_parse_bounds(stream.input(), stream.pos());
        }
        let (errors, res) = self.0.parse(stream);
        match res {
            Ok(out) => (errors, Ok(out)),
            Err(fatal) => {
                stream.revert(checkpoint);
                self.1.recover(errors, fatal, &self.0, stream)
            },
        }
    }
}

/// A parser that runs `.0` and, when it fails, runs `.1` from where `.0`
/// began.
#[derive(Copy, Clone, Debug)]
pub struct RecoverVia<A, B>(pub A, pub B);

/// The outcome of trying `b` after `a` failed with `a_fatal` at `pos`: when
/// `b` succeeds, `a`'s diagnostics, then `a_fatal`, then `b`'s diagnostics,
/// with `b`'s output and cursor; otherwise `a`'s diagnostics and `a_fatal`
/// alone, with the cursor back at `pos`.
pub open spec fn via_outcome(
    a_errors: Seq<LocatedView>,
    a_fatal: LocatedView,
    b: Outcome,
    pos: nat,
) -> Outcome {
    if b.result is Ok {
        Outcome { errors: a_errors.push(a_fatal) + b.errors, result: b.result, end: b.end }
    } else {
        Outcome { errors: a_errors, result: Err(a_fatal), end: pos }
    }
}

impl<A: Parser, B: Parser> Parser for RecoverVia<A, B> {
    open spec fn spec_parse(&self, input: Seq<Token>, pos: nat) -> Outcome {
        let a = self.0.spec_parse(input, pos);
        match a.result {
            Ok(_) => a,
            Err(fatal) => via_outcome(a.errors, fatal, self.1.spec_parse(input, pos), pos),
        }
    }

    proof fn lemma_parse_bounds(&self, input: Seq<Token>, pos: nat) {
        self.0.lemma_parse_bounds(input, pos);
        self.1.lemma_parse_bounds(input, pos);
    }

    fn parse(&self, stream: &mut Stream) -> (r: PResult) {
        let checkpoint = stream.save();
        proof {
            self.0.lemma_parse_bounds(stream.input(), stream.pos());
        }
        let (a_errors, a_out) = self.0.parse(stream);
        let a_fatal = match a_out {
            Ok(out) => {
                return (a_errors, Ok(out));
            },
            Err(e) => e,
        };
        stream.revert(checkpoint);
        let (b_errors, b_out) = self.1.parse(stream);
        if b_out.is_ok() {
            let ghost a_view = diags(a_errors@);
            let ghost b_view = diags(b_errors@);
            let ghost fatal_view = a_fatal@;
            let mut errors = a_errors;
            push_diag(&mut errors, a_fatal);
            append_diags(&mut errors, b_errors);
            proof {
                assert(diags(errors@) =~= a_view.push(fatal_view) + b_view);
            }
            return (errors, b_out);
        }
        stream.revert(checkpoint);
        (a_errors, Err(a_fatal))
    }
}

} // verus!
