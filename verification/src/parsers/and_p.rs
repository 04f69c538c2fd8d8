//! Sequencing: one parser, then another on what the first leaves.

use crate::errors::simple_error::ParsingErrorView;
use crate::inputs::{Input, InputView};
use crate::traits::{outcome_within, single_valued, stays_within, Parser};
use crate::type_alias::ParserRes;
use vstd::prelude::*;

verus! {

/// What `first` followed by `second` comes to on `input`: the first failure
/// of the two, or the sum of what they consume.
pub open spec fn sequence_outcome<A: Parser, B: Parser>(first: &A, second: &B, input: InputView) -> Result<
    nat,
    ParsingErrorView,
> {
    match first.outcome(input) {
        Ok(taken) => match second.outcome(input.advance(taken)) {
            Ok(more) => Ok(taken + more),
            Err(error) => Err(error),
        },
        Err(error) => Err(error),
    }
}

/// Whether `a` is a value of `first` on `input`, and `b` one of `second` on
/// what `first` leaves.
pub open spec fn sequence_yields<A: Parser, B: Parser>(
    first: &A,
    second: &B,
    input: InputView,
    a: A::Output,
    b: B::Output,
) -> bool {
    &&& first.yields(input, a)
    &&& first.outcome(input) matches Ok(taken) && second.yields(input.advance(taken), b)
}

/// A sequence never leaves the input where neither of its two parts does.
pub proof fn lemma_sequence_within<A: Parser, B: Parser>(first: &A, second: &B, input: InputView)
    requires
        stays_within(first),
        stays_within(second),
    ensures
        outcome_within(sequence_outcome(first, second, input), input),
{
    if let Ok(taken) = first.outcome(input) {
        assert(outcome_within(second.outcome(input.advance(taken)), input.advance(taken)));
    }
}

/// Runs `first`, then `second` on what is left. The first failure ends the
/// run and is returned as it is.
pub fn run_sequence<A: Parser, B: Parser>(first: &A, second: &B, input: &Input) -> (res: ParserRes<
    (A::Output, B::Output),
>)
    requires
        first.wf(),
        second.wf(),
        input.wf(),
    ensures
        match res {
            Ok((out, rest)) => {
                &&& sequence_outcome(first, second, input@) matches Ok(consumed)
                &&& rest@ == input@.advance(consumed)
                &&& sequence_yields(first, second, input@, out.0, out.1)
            },
            Err(error) => sequence_outcome(first, second, input@) == Err::<nat, ParsingErrorView>(
                error@,
            ),
        },
{
    match first.parse(input) {
        Ok((a, rest)) => {
            match second.parse(&rest) {
                Ok((b, last)) => {
                    proof {
                        input@.lemma_advance_twice(
                            first.outcome(input@)->Ok_0,
                            second.outcome(rest@)->Ok_0,
                        );
                    }
                    Ok(((a, b), last))
                },
                Err(error) => Err(error),
            }
        },
        Err(error) => Err(error),
    }
}

/// Runs `first`, then `second` on the rest, and returns both values.
pub struct AndThenParser<A, B> where A: Parser, B: Parser {
    pub first: A,
    pub second: B,
}

impl<A, B> Parser for AndThenParser<A, B> where A: Parser, B: Parser {
    type Output = (A::Output, B::Output);

    open spec fn wf(&self) -> bool {
        self.first.wf() && self.second.wf()
    }

    open spec fn outcome(&self, input: InputView) -> Result<nat, ParsingErrorView> {
        sequence_outcome(&self.first, &self.second, input)
    }

    open spec fn yields(&self, input: InputView, out: (A::Output, B::Output)) -> bool {
        sequence_yields(&self.first, &self.second, input, out.0, out.1)
    }

    fn parse(&self, input: &Input) -> (res: ParserRes<(A::Output, B::Output)>) {
        run_sequence(&self.first, &self.second, input)
    }
}

impl<A, B> AndThenParser<A, B> where A: Parser, B: Parser {
    /// A sequence is single-valued where its two parts are.
    pub proof fn lemma_single_valued(&self) where A::Output: DeepView, B::Output: DeepView
        requires
            single_valued(&self.first),
            single_valued(&self.second),
        ensures
            single_valued(self),
    {
    }

    /// A sequence never leaves the input where neither of its two parts does.
    pub proof fn lemma_stays_within(&self)
        requires
            stays_within(&self.first),
            stays_within(&self.second),
        ensures
            stays_within(self),
    {
        assert forall|input: InputView| outcome_within(#[trigger] self.outcome(input), input) by {
            lemma_sequence_within(&self.first, &self.second, input);
        }
    }

    /// The same sequence, returning what `policy` keeps of the two values.
    pub fn combine<C: OutputPolicy<A::Output, B::Output>>(self, policy: C) -> (combined:
        CombineParser<A, B, C>)
        ensures
            combined.first == self.first,
            combined.second == self.second,
            combined.policy == policy,
    {
        CombineParser { first: self.first, second: self.second, policy }
    }
}

/// A choice of what a sequence returns of its two values.
pub trait OutputPolicy<A, B> {
    type Kept;

    /// What is kept of `first` and `second`.
    open spec fn kept(first: A, second: B) -> Self::Kept {
        arbitrary()
    }

    fn keep(&self, first: A, second: B) -> (kept: Self::Kept)
        ensures
            kept == Self::kept(first, second),
    ;
}

/// Keeps the value of the first parser and drops that of the second.
#[derive(Debug, Clone, Copy)]
pub struct KeepFirstOutputOnly;

/// Keeps the value of the second parser and drops that of the first.
#[derive(Debug, Clone, Copy)]
pub struct KeepSecondOutputOnly;

/// Keeps both values, as a pair.
#[derive(Debug, Clone, Copy)]
pub struct KeepBothOutputs;

impl<A, B> OutputPolicy<A, B> for KeepFirstOutputOnly {
    type Kept = A;

    open spec fn kept(first: A, second: B) -> A {
        first
    }

    fn keep(&self, first: A, second: B) -> (kept: A) {
        first
    }
}

impl<A, B> OutputPolicy<A, B> for KeepSecondOutputOnly {
    type Kept = B;

    open spec fn kept(first: A, second: B) -> B {
        second
    }

    fn keep(&self, first: A, second: B) -> (kept: B) {
        second
    }
}

impl<A, B> OutputPolicy<A, B> for KeepBothOutputs {
    type Kept = (A, B);

    open spec fn kept(first: A, second: B) -> (A, B) {
        (first, second)
    }

    fn keep(&self, first: A, second: B) -> (kept: (A, B)) {
        (first, second)
    }
}

/// Whether what `C` keeps has the same content whenever the two values have.
pub open spec fn keeps_content<A: DeepView, B: DeepView, C: OutputPolicy<A, B>>() -> bool where
    C::Kept: DeepView,
 {
    forall|a: A, b: B, other_a: A, other_b: B|
        a.deep_view() == other_a.deep_view() && b.deep_view() == other_b.deep_view() ==> (
        #[trigger] C::kept(a, b)).deep_view() == (#[trigger] C::kept(other_a, other_b)).deep_view()
}

/// Runs `first`, then `second` on the rest, and returns what `policy` keeps.
pub struct CombineParser<A, B, C> where A: Parser, B: Parser, C: OutputPolicy<A::Output, B::Output> {
    pub first: A,
    pub second: B,
    pub policy: C,
}

impl<A, B, C> Parser for CombineParser<A, B, C> where
    A: Parser,
    B: Parser,
    C: OutputPolicy<A::Output, B::Output>,
 {
    type Output = C::Kept;

    open spec fn wf(&self) -> bool {
        self.first.wf() && self.second.wf()
    }

    open spec fn outcome(&self, input: InputView) -> Result<nat, ParsingErrorView> {
        sequence_outcome(&self.first, &self.second, input)
    }

    open spec fn yields(&self, input: InputView, out: C::Kept) -> bool {
        exists|a: A::Output, b: B::Output|
            {
                &&& #[trigger] sequence_yields(&self.first, &self.second, input, a, b)
                &&& out == C::kept(a, b)
            }
    }

    fn parse(&self, input: &Input) -> (res: ParserRes<C::Kept>) {
        match run_sequence(&self.first, &self.second, input) {
            Ok(((a, b), rest)) => {
                let out = self.policy.keep(a, b);
                assert(sequence_yields(&self.first, &self.second, input@, a, b));
                Ok((out, rest))
            },
            Err(error) => Err(error),
        }
    }
}

impl<A, B, C> CombineParser<A, B, C> where
    A: Parser,
    B: Parser,
    C: OutputPolicy<A::Output, B::Output>,
 {
    /// A sequence is single-valued where its two parts are and the policy
    /// keeps content.
    pub proof fn lemma_single_valued(&self) where
        A::Output: DeepView,
        B::Output: DeepView,
        C::Kept: DeepView,

        requires
            single_valued(&self.first),
            single_valued(&self.second),
            keeps_content::<A::Output, B::Output, C>(),
        ensures
            single_valued(self),
    {
        assert forall|input: InputView, x: C::Kept, y: C::Kept| #[trigger]
            self.yields(input, x) && #[trigger] self.yields(input, y) implies x.deep_view()
            == y.deep_view() by {
            let (a, b) = choose|a: A::Output, b: B::Output|
                #[trigger] sequence_yields(&self.first, &self.second, input, a, b) && x == C::kept(
                    a,
                    b,
                );
            let (c, d) = choose|c: A::Output, d: B::Output|
                #[trigger] sequence_yields(&self.first, &self.second, input, c, d) && y == C::kept(
                    c,
                    d,
                );
            assert(a.deep_view() == c.deep_view());
            assert(b.deep_view() == d.deep_view());
        }
    }

    /// A sequence never leaves the input where neither of its two parts does.
    pub proof fn lemma_stays_within(&self)
        requires
            stays_within(&self.first),
            stays_within(&self.second),
        ensures
            stays_within(self),
    {
        assert forall|input: InputView| outcome_within(#[trigger] self.outcome(input), input) by {
            lemma_sequence_within(&self.first, &self.second, input);
        }
    }
}

} // verus!
