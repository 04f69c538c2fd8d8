//! Mapping: a parser whose value is passed through a function.

use crate::errors::simple_error::{ParsingError, ParsingErrorView};
use crate::errors::{ErrorKindView, ParsingErrorKind};
use crate::inputs::{Input, InputView};
use crate::traits::{outcome_within, single_valued, stays_within, Combinators, Parser};
use crate::type_alias::ParserRes;
use vstd::prelude::*;

verus! {

/// A function on parsed values, as the mapping combinators take it. A
/// function value is one; so is any type that says in `maps` what its
/// `apply` returns.
pub trait Mapping<A> {
    type Mapped;

    /// Whether the function may be applied to `value`.
    open spec fn accepts(&self, value: A) -> bool {
        false
    }

    /// Whether `mapped` is what the function makes of `value`.
    open spec fn maps(&self, value: A, mapped: Self::Mapped) -> bool {
        true
    }

    fn apply(&self, value: A) -> (mapped: Self::Mapped)
        requires
            self.accepts(value),
        ensures
            self.maps(value, mapped),
    ;
}

impl<A, T, F: Fn(A) -> T> Mapping<A> for F {
    type Mapped = T;

    open spec fn accepts(&self, value: A) -> bool {
        self.requires((value,))
    }

    /// A function value maps as its contract lets it.
    open spec fn maps(&self, value: A, mapped: T) -> bool {
        self.ensures((value,), mapped)
    }

    fn apply(&self, value: A) -> (mapped: T) {
        (*self)(value)
    }
}

/// Whether `parser` has the value `out` on `input` and `function` makes
/// `mapped` of it.
pub open spec fn maps_parsed<P: Parser, F: Mapping<P::Output>>(
    parser: &P,
    function: &F,
    input: InputView,
    out: P::Output,
    mapped: F::Mapped,
) -> bool {
    parser.yields(input, out) && function.maps(out, mapped)
}

/// Whether `mapped` is what `function` makes of a value that `parser` has
/// on `input`.
pub open spec fn maps_value<P: Parser, F: Mapping<P::Output>>(
    parser: &P,
    function: &F,
    input: InputView,
    mapped: F::Mapped,
) -> bool {
    exists|out: P::Output| #[trigger] maps_parsed(parser, function, input, out, mapped)
}

/// Whether `function` may be applied to every value that `parser` returns.
pub open spec fn accepts_values<P: Parser, F: Mapping<P::Output>>(parser: &P, function: &F) -> bool {
    forall|input: InputView, out: P::Output| #[trigger]
        parser.yields(input, out) ==> function.accepts(out)
}

/// Runs `parser` and applies `mapping` to its value.
pub struct MapParser<P, F> where P: Parser {
    pub parser: P,
    pub mapping: F,
}

impl<P, F> Parser for MapParser<P, F> where P: Parser, F: Mapping<P::Output> {
    type Output = F::Mapped;

    open spec fn wf(&self) -> bool {
        self.parser.wf() && accepts_values(&self.parser, &self.mapping)
    }

    open spec fn outcome(&self, input: InputView) -> Result<nat, ParsingErrorView> {
        self.parser.outcome(input)
    }

    open spec fn yields(&self, input: InputView, out: F::Mapped) -> bool {
        maps_value(&self.parser, &self.mapping, input, out)
    }

    fn parse(&self, input: &Input) -> (res: ParserRes<F::Mapped>) {
        self.parser.parse_and_then_map(input, &self.mapping)
    }
}

/// Whether what `function` makes of two values of the same content has the
/// same content.
pub open spec fn maps_content<A: DeepView, F: Mapping<A>>(function: &F) -> bool where
    F::Mapped: DeepView,
 {
    forall|a: A, b: A, mapped: F::Mapped, other: F::Mapped|
        a.deep_view() == b.deep_view() && #[trigger] function.maps(a, mapped)
            && #[trigger] function.maps(b, other) ==> mapped.deep_view() == other.deep_view()
}

impl<P, F> MapParser<P, F> where P: Parser, F: Mapping<P::Output> {
    /// A mapped parser is single-valued where the parser is and the mapping
    /// goes by content.
    pub proof fn lemma_single_valued(&self) where P::Output: DeepView, F::Mapped: DeepView
        requires
            single_valued(&self.parser),
            maps_content(&self.mapping),
        ensures
            single_valued(self),
    {
        assert forall|input: InputView, x: F::Mapped, y: F::Mapped| #[trigger]
            self.yields(input, x) && #[trigger] self.yields(input, y) implies x.deep_view()
            == y.deep_view() by {
            let a = choose|a: P::Output| #[trigger]
                maps_parsed(&self.parser, &self.mapping, input, a, x);
            let b = choose|b: P::Output| #[trigger]
                maps_parsed(&self.parser, &self.mapping, input, b, y);
            assert(a.deep_view() == b.deep_view());
        }
    }

    /// A mapped parser never leaves the input where the parser does not.
    pub proof fn lemma_stays_within(&self)
        requires
            stays_within(&self.parser),
        ensures
            stays_within(self),
    {
        assert forall|input: InputView| outcome_within(#[trigger] self.outcome(input), input) by {
            assert(outcome_within(self.parser.outcome(input), input));
        }
    }
}

/// Whether `try_map` gives nothing for the value that `parser` has on `input`.
pub open spec fn maps_to_nothing<P: Parser, T, F: Mapping<P::Output, Mapped = Option<T>>>(
    parser: &P,
    try_map: &F,
    input: InputView,
) -> bool {
    maps_value(parser, try_map, input, None::<T>)
}

/// Whether `try_map` decides alike on all that `parser` may return on one
/// input: it gives nothing for every such value or for none of them.
pub open spec fn decides_alike<P: Parser, T, F: Mapping<P::Output, Mapped = Option<T>>>(
    parser: &P,
    try_map: &F,
) -> bool {
    forall|input: InputView, a: P::Output, b: P::Output, mapped: T|
        !(#[trigger] maps_parsed(parser, try_map, input, a, None::<T>) && #[trigger] maps_parsed(
            parser,
            try_map,
            input,
            b,
            Some(mapped),
        ))
}

/// The failure of a mapping behind a parse that ended at `rest`.
pub open spec fn mapping_failed_at(rest: InputView) -> ParsingErrorView {
    ParsingErrorView {
        kind: ErrorKindView::MappingError("Parsing worked, but mapping failed"@),
        line: rest.line,
        col: rest.col,
    }
}

/// Runs `parser` and applies `try_map` to its value; where that gives
/// nothing, fails at the position that `parser` had reached.
pub struct TryMapParser<P, F> where P: Parser {
    pub parser: P,
    pub try_map: F,
}

impl<P, T, F> Parser for TryMapParser<P, F> where P: Parser, F: Mapping<P::Output, Mapped = Option<T>> {
    type Output = T;

    open spec fn wf(&self) -> bool {
        &&& self.parser.wf()
        &&& accepts_values(&self.parser, &self.try_map)
        &&& decides_alike(&self.parser, &self.try_map)
    }

    open spec fn outcome(&self, input: InputView) -> Result<nat, ParsingErrorView> {
        match self.parser.outcome(input) {
            Ok(taken) => if maps_to_nothing(&self.parser, &self.try_map, input) {
                Err(mapping_failed_at(input.advance(taken)))
            } else {
                Ok(taken)
            },
            Err(error) => Err(error),
        }
    }

    open spec fn yields(&self, input: InputView, out: T) -> bool {
        maps_value(&self.parser, &self.try_map, input, Some(out))
    }

    fn parse(&self, input: &Input) -> (res: ParserRes<T>) {
        let (inner, rest) = match self.parser.parse(input) {
            Ok(done) => done,
            Err(error) => {
                return Err(error);
            },
        };
        match self.try_map.apply(inner) {
            None => {
                assert(maps_parsed(&self.parser, &self.try_map, input@, inner, None::<T>));
                let kind = ParsingErrorKind::MappingError(
                    "Parsing worked, but mapping failed".to_owned(),
                );
                Err(ParsingError::new(kind, rest.line, rest.col))
            },
            Some(mapped_val) => {
                assert(maps_parsed(&self.parser, &self.try_map, input@, inner, Some(mapped_val)));
                Ok((mapped_val, rest))
            },
        }
    }
}

impl<P, T, F> TryMapParser<P, F> where P: Parser, F: Mapping<P::Output, Mapped = Option<T>> {
    /// A mapped parser is single-valued where the parser is and the mapping
    /// goes by content.
    pub proof fn lemma_single_valued(&self) where P::Output: DeepView, T: DeepView
        requires
            single_valued(&self.parser),
            maps_content(&self.try_map),
        ensures
            single_valued(self),
    {
        assert forall|input: InputView, x: T, y: T| #[trigger]
            self.yields(input, x) && #[trigger] self.yields(input, y) implies x.deep_view()
            == y.deep_view() by {
            let a = choose|a: P::Output| #[trigger]
                maps_parsed(&self.parser, &self.try_map, input, a, Some(x));
            let b = choose|b: P::Output| #[trigger]
                maps_parsed(&self.parser, &self.try_map, input, b, Some(y));
            assert(a.deep_view() == b.deep_view());
            assert(Some(x).deep_view() == Some(y).deep_view());
        }
    }

    /// A mapped parser never leaves the input where the parser does not.
    pub proof fn lemma_stays_within(&self)
        requires
            stays_within(&self.parser),
        ensures
            stays_within(self),
    {
        assert forall|input: InputView| outcome_within(#[trigger] self.outcome(input), input) by {
            assert(outcome_within(self.parser.outcome(input), input));
        }
    }
}

} // verus!
