//! Alternation: one parser, and another where the first fails.

use crate::errors::simple_error::ParsingErrorView;
use crate::inputs::{Input, InputView};
use crate::traits::{outcome_within, single_valued, stays_within, Parser};
use crate::type_alias::ParserRes;
use vstd::prelude::*;

verus! {

/// Tries `first_parse`, and `second_parse` on the same input where the first
/// fails. Where both fail, the failure that lies further into the input is
/// reported, and that of `first_parse` where neither does.
pub struct OrThenParser<A, B> where A: Parser, B: Parser {
    pub first_parse: A,
    pub second_parse: B,
}

impl<A, B> From<(A, B)> for OrThenParser<A, B> where A: Parser, B: Parser {
    fn from(pair: (A, B)) -> (either: Self) {
        Self { first_parse: pair.0, second_parse: pair.1 }
    }
}

impl<A, B> vstd::std_specs::convert::FromSpecImpl<(A, B)> for OrThenParser<A, B> where A: Parser, B: Parser {
    open spec fn obeys_from_spec() -> bool {
        true
    }

    open spec fn from_spec(pair: (A, B)) -> Self {
        OrThenParser { first_parse: pair.0, second_parse: pair.1 }
    }
}

impl<A, B, CommonOut> OrThenParser<A, B> where
    A: Parser<Output = CommonOut>,
    B: Parser<Output = CommonOut>,
 {
    /// Where both parsers fail, the failure that lies strictly further into
    /// the input is the one reported; where neither does, and so where the two
    /// lie at the same position, it is the failure of the first parser.
    pub proof fn lemma_reports_furthest(&self, input: InputView)
        requires
            self.first_parse.outcome(input) is Err,
            self.second_parse.outcome(input) is Err,
        ensures
            ({
                let first = self.first_parse.outcome(input)->Err_0;
                let second = self.second_parse.outcome(input)->Err_0;
                &&& second.further_than(first) ==> self.outcome(input) == Err::<nat, ParsingErrorView>(
                    second,
                )
                &&& !second.further_than(first) ==> self.outcome(input) == Err::<
                    nat,
                    ParsingErrorView,
                >(first)
                &&& first.line == second.line && first.col == second.col ==> self.outcome(input)
                    == Err::<nat, ParsingErrorView>(first)
            }),
    {
    }

    /// Where the first parser succeeds, the alternation is the first parser,
    /// whatever the second would do.
    pub proof fn lemma_first_success_wins(&self, input: InputView, out: CommonOut)
        requires
            self.first_parse.outcome(input) is Ok,
        ensures
            self.outcome(input) == self.first_parse.outcome(input),
            self.yields(input, out) == self.first_parse.yields(input, out),
    {
    }

    /// An alternation is single-valued where its two parts are.
    pub proof fn lemma_single_valued(&self) where CommonOut: DeepView
        requires
            single_valued(&self.first_parse),
            single_valued(&self.second_parse),
        ensures
            single_valued(self),
    {
    }

    /// An alternation never leaves the input where neither of its two parts does.
    pub proof fn lemma_stays_within(&self)
        requires
            stays_within(&self.first_parse),
            stays_within(&self.second_parse),
        ensures
            stays_within(self),
    {
        assert forall|input: InputView| outcome_within(#[trigger] self.outcome(input), input) by {
            assert(outcome_within(self.first_parse.outcome(input), input));
            assert(outcome_within(self.second_parse.outcome(input), input));
        }
    }
}

impl<A, B, CommonOut> Parser for OrThenParser<A, B> where
    A: Parser<Output = CommonOut>,
    B: Parser<Output = CommonOut>,
 {
    type Output = CommonOut;

    open spec fn wf(&self) -> bool {
        self.first_parse.wf() && self.second_parse.wf()
    }

    open spec fn outcome(&self, input: InputView) -> Result<nat, ParsingErrorView> {
        match self.first_parse.outcome(input) {
            Ok(taken) => Ok(taken),
            Err(first_error) => match self.second_parse.outcome(input) {
                Ok(taken) => Ok(taken),
                Err(second_error) => Err(first_error.furthest(second_error)),
            },
        }
    }

    open spec fn yields(&self, input: InputView, out: CommonOut) -> bool {
        if self.first_parse.outcome(input) is Ok {
            self.first_parse.yields(input, out)
        } else {
            self.second_parse.yields(input, out)
        }
    }

    /// Succeeds with the first parser wherever that one succeeds, and with
    /// the second wherever only that one does. Where both fail, reports the
    /// failure that lies strictly further into the input, and that of the
    /// first parser where neither does.
    fn parse(&self, input: &Input) -> (res: ParserRes<CommonOut>)
        ensures
            res is Ok <==> self.first_parse.outcome(input@) is Ok || self.second_parse.outcome(
                input@,
            ) is Ok,
            res matches Err(error) ==> error@ == (self.first_parse.outcome(input@)->Err_0).furthest(
                self.second_parse.outcome(input@)->Err_0,
            ),
    {
        let first_error = match self.first_parse.parse(input) {
            Ok(done) => {
                return Ok(done);
            },
            Err(error) => error,
        };
        let second_error = match self.second_parse.parse(input) {
            Ok(done) => {
                return Ok(done);
            },
            Err(error) => error,
        };
        Err(
            if second_error > first_error {
                second_error
            } else {
                first_error
            },
        )
    }
}

} // verus!
