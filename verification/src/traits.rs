//! The one capability that every parsing unit offers.

use crate::errors::simple_error::{ErrorParser, ParsingErrorView};
use crate::inputs::{Input, InputView};
use crate::parsers::and_p::AndThenParser;
use crate::parsers::map_p::{
    accepts_values, maps_parsed, maps_value, MapParser, Mapping, TryMapParser,
};
use crate::parsers::or_p::OrThenParser;
use crate::type_alias::ParserRes;
use vstd::prelude::*;

verus! {

/// Whether an outcome stays inside `input`: a success consumes no more than is
/// left, and a failure lies on the input's line, between its first column and
/// the column just behind its last character.
pub open spec fn outcome_within(outcome: Result<nat, ParsingErrorView>, input: InputView) -> bool {
    match outcome {
        Ok(consumed) => consumed <= input.source.len(),
        Err(error) => error.line == input.line && input.col <= error.col <= input.col
            + input.source.len(),
    }
}

/// Whether `parser` never leaves its input, whatever the input is.
pub open spec fn stays_within<P: Parser>(parser: &P) -> bool {
    forall|input: InputView| outcome_within(#[trigger] parser.outcome(input), input)
}

/// Whether `res` is what a parser with the given outcome and values returns on `input`.
pub open spec fn agrees<P: Parser + ?Sized>(parser: &P, input: InputView, res: ParserRes<P::Output>) -> bool {
    match res {
        Ok((out, rest)) => {
            &&& parser.outcome(input) matches Ok(consumed)
            &&& rest@ == input.advance(consumed)
            &&& parser.yields(input, out)
        },
        Err(error) => parser.outcome(input) == Err::<nat, ParsingErrorView>(error@),
    }
}

/// A description of a parsing strategy. Building one touches no input;
/// `parse` may be called on it any number of times.
pub trait Parser {
    type Output;

    /// Whether the description can be run: every function value in it accepts
    /// every argument and decides the same way whenever it is asked the same.
    /// A parser that does not say so cannot be run from verified code.
    open spec fn wf(&self) -> bool {
        false
    }

    /// What parsing `input` comes to: the number of characters that a success
    /// consumes, or the failure.
    open spec fn outcome(&self, input: InputView) -> Result<nat, ParsingErrorView> {
        arbitrary()
    }

    /// Whether `out` is a value that a successful parse of `input` returns.
    open spec fn yields(&self, input: InputView, out: Self::Output) -> bool {
        true
    }

    fn parse(&self, input: &Input) -> (res: ParserRes<Self::Output>)
        requires
            self.wf(),
            input.wf(),
        ensures
            match res {
                Ok((out, rest)) => {
                    &&& self.outcome(input@) matches Ok(consumed)
                    &&& rest@ == input@.advance(consumed)
                    &&& self.yields(input@, out)
                },
                Err(error) => self.outcome(input@) == Err::<nat, ParsingErrorView>(error@),
            },
    ;
}

/// The operators that build larger parsers from smaller ones. Every parser has them.
pub trait Combinators: Parser + Sized {
    /// This parser, then `next` on what it leaves; both values are returned.
    fn and_then<B: Parser>(self, next: B) -> (both: AndThenParser<Self, B>)
        ensures
            both.first == self,
            both.second == next,
    ;

    /// This parser, and `other` on the same input where this one fails.
    fn otherwise<B: Parser<Output = Self::Output>>(self, other: B) -> (either: OrThenParser<Self, B>)
        ensures
            either.first_parse == self,
            either.second_parse == other,
    ;

    /// This parser, with `mapping` applied to its value.
    fn with_mapping<F: Mapping<Self::Output>>(self, mapping: F) -> (mapped: MapParser<Self, F>)
        ensures
            mapped.parser == self,
            mapped.mapping == mapping,
    ;

    /// This parser, with `try_map` applied to its value; where that gives
    /// nothing, the parse fails.
    fn with_try_mapping<T, F: Mapping<Self::Output, Mapped = Option<T>>>(self, try_map: F) -> (mapped:
        TryMapParser<Self, F>)
        ensures
            mapped.parser == self,
            mapped.try_map == try_map,
    ;

    /// This parser, with `message` in place of the kind of its failures.
    fn with_error<'a>(self, message: &'a str) -> (wrapped: ErrorParser<'a, Self>)
        ensures
            wrapped.parser == self,
            wrapped.message == message,
    ;

    /// Runs this parser on `input` and applies `mapping` to its value.
    fn parse_and_then_map<F: Mapping<Self::Output>>(&self, input: &Input, mapping: &F) -> (res:
        ParserRes<F::Mapped>)
        requires
            self.wf(),
            input.wf(),
            accepts_values(self, mapping),
        ensures
            match res {
                Ok((out, rest)) => {
                    &&& self.outcome(input@) matches Ok(consumed)
                    &&& rest@ == input@.advance(consumed)
                    &&& maps_value(self, mapping, input@, out)
                },
                Err(error) => self.outcome(input@) == Err::<nat, ParsingErrorView>(error@),
            },
    ;
}

impl<P: Parser> Combinators for P {
    fn and_then<B: Parser>(self, next: B) -> (both: AndThenParser<Self, B>) {
        AndThenParser { first: self, second: next }
    }

    fn otherwise<B: Parser<Output = Self::Output>>(self, other: B) -> (either: OrThenParser<Self, B>) {
        OrThenParser { first_parse: self, second_parse: other }
    }

    fn with_mapping<F: Mapping<Self::Output>>(self, mapping: F) -> (mapped: MapParser<Self, F>) {
        MapParser { parser: self, mapping }
    }

    fn with_try_mapping<T, F: Mapping<Self::Output, Mapped = Option<T>>>(self, try_map: F) -> (mapped:
        TryMapParser<Self, F>) {
        TryMapParser { parser: self, try_map }
    }

    fn with_error<'a>(self, message: &'a str) -> (wrapped: ErrorParser<'a, Self>) {
        ErrorParser::new(self, message)
    }

    fn parse_and_then_map<F: Mapping<Self::Output>>(&self, input: &Input, mapping: &F) -> (res:
        ParserRes<F::Mapped>) {
        match self.parse(input) {
            Ok((inner, rest)) => {
                let out = mapping.apply(inner);
                assert(maps_parsed(self, mapping, input@, inner, out));
                Ok((out, rest))
            },
            Err(error) => Err(error),
        }
    }
}

/// Whether the values that `parser` returns on one input all have the same
/// content.
pub open spec fn single_valued<P: Parser>(parser: &P) -> bool where P::Output: DeepView {
    forall|input: InputView, a: P::Output, b: P::Output|
        #[trigger] parser.yields(input, a) && #[trigger] parser.yields(input, b) ==> a.deep_view()
            == b.deep_view()
}

/// Parsing is a function of the parser and the input. Two results that
/// `parse` may return for the same parser on the same input are both
/// successes or both failures; two successes leave the same input and return
/// values that the parser has on that input; two failures are the same
/// failure.
pub proof fn lemma_parse_twice<P: Parser>(
    parser: &P,
    input: &Input,
    once: ParserRes<P::Output>,
    again: ParserRes<P::Output>,
)
    requires
        call_ensures(P::parse, (parser, input), once),
        call_ensures(P::parse, (parser, input), again),
    ensures
        agrees(parser, input@, once),
        agrees(parser, input@, again),
        once is Ok <==> again is Ok,
        once matches Ok((out, rest)) ==> ({
            &&& again matches Ok((other, other_rest))
            &&& rest@ == other_rest@
            &&& parser.yields(input@, out)
            &&& parser.yields(input@, other)
        }),
        once matches Err(error) ==> again matches Err(other) && error@ == other@,
{
}

/// Two successes that `parse` may return for the same single-valued parser
/// on the same input return values of the same content.
pub proof fn lemma_parse_twice_same_value<P: Parser>(
    parser: &P,
    input: &Input,
    once: ParserRes<P::Output>,
    again: ParserRes<P::Output>,
) where P::Output: DeepView
    requires
        single_valued(parser),
        call_ensures(P::parse, (parser, input), once),
        call_ensures(P::parse, (parser, input), again),
    ensures
        once matches Ok((out, _)) ==> again matches Ok((other, _)) && out.deep_view()
            == other.deep_view(),
{
}

} // verus!
