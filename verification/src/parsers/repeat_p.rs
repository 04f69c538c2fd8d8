//! Repetition: the same parser, run again and again.

use crate::errors::simple_error::{ParsingError, ParsingErrorView};
use crate::errors::ParsingErrorKind;
use crate::inputs::{Input, InputView};
use crate::parsers::not_found_at;
use crate::traits::{outcome_within, single_valued, stays_within, Parser};
use crate::type_alias::ParserRes;
use vstd::prelude::*;

verus! {

/// Whether a run that consumes `taken` characters of `input` leaves less
/// text than it found.
pub open spec fn shortens(input: InputView, taken: nat) -> bool {
    input.advance(taken).source.len() < input.source.len()
}

/// Whether a repetition that has made `done` runs and stands at `input` makes
/// no further run: the limit is reached, the parser fails, or, where there is
/// no limit, the parser succeeds without shortening the text, as it then
/// would for ever.
pub open spec fn repeat_stops<P: Parser>(
    parser: &P,
    upper: Option<usize>,
    input: InputView,
    done: nat,
) -> bool {
    ||| upper matches Some(limit) && done >= limit
    ||| match parser.outcome(input) {
        Ok(taken) => upper is None && !shortens(input, taken),
        Err(_) => true,
    }
}

/// What still bounds a repetition: the runs that the limit leaves, or, where
/// there is none, the characters that are left.
pub open spec fn repeat_measure(upper: Option<usize>, input: InputView, done: nat) -> int {
    match upper {
        Some(limit) => limit - done,
        None => input.source.len() as int,
    }
}

/// The input that the next run starts from.
pub open spec fn next_input<P: Parser>(parser: &P, input: InputView) -> InputView {
    match parser.outcome(input) {
        Ok(taken) => input.advance(taken),
        Err(_) => input,
    }
}

/// The number of runs that a repetition still makes from `input`, with
/// `done` runs behind it.
pub open spec fn repeat_count<P: Parser>(
    parser: &P,
    upper: Option<usize>,
    input: InputView,
    done: nat,
) -> nat
    decreases repeat_measure(upper, input, done),
{
    if repeat_stops(parser, upper, input, done) {
        0
    } else {
        1 + repeat_count(parser, upper, next_input(parser, input), done + 1)
    }
}

/// The number of characters that those runs consume.
pub open spec fn repeat_consumed<P: Parser>(
    parser: &P,
    upper: Option<usize>,
    input: InputView,
    done: nat,
) -> nat
    decreases repeat_measure(upper, input, done),
{
    if repeat_stops(parser, upper, input, done) {
        0
    } else {
        parser.outcome(input)->Ok_0 + repeat_consumed(
            parser,
            upper,
            next_input(parser, input),
            done + 1,
        )
    }
}

/// The input from which run number `runs` starts, counted from 0.
pub open spec fn input_after<P: Parser>(parser: &P, input: InputView, runs: nat) -> InputView
    decreases runs,
{
    if runs == 0 {
        input
    } else {
        next_input(parser, input_after(parser, input, (runs - 1) as nat))
    }
}

/// A repetition consumes no more than is left, where no run does.
pub proof fn lemma_repeat_consumed_within<P: Parser>(
    parser: &P,
    upper: Option<usize>,
    input: InputView,
    done: nat,
)
    requires
        stays_within(parser),
    ensures
        repeat_consumed(parser, upper, input, done) <= input.source.len(),
    decreases repeat_measure(upper, input, done),
{
    if !repeat_stops(parser, upper, input, done) {
        assert(outcome_within(parser.outcome(input), input));
        lemma_repeat_consumed_within(parser, upper, next_input(parser, input), done + 1);
    }
}

/// A repetition with a limit never makes more runs than the limit allows.
pub proof fn lemma_repeat_count_bounded<P: Parser>(
    parser: &P,
    limit: usize,
    input: InputView,
    done: nat,
)
    ensures
        done <= limit ==> done + repeat_count(parser, Some(limit), input, done) <= limit,
    decreases repeat_measure(Some(limit), input, done),
{
    if !repeat_stops(parser, Some(limit), input, done) {
        lemma_repeat_count_bounded(parser, limit, next_input(parser, input), done + 1);
    }
}

/// What a repetition says when it made too few runs.
pub open spec fn too_few_runs() -> Seq<char> {
    "Parser did not run the minum number of times"@
}

/// Runs `parser` again and again, each time on what the run before left, and
/// returns the values in order. The runs end at the first failure, which is
/// dropped, or when `upper_bound` runs are made. Without an upper bound they
/// also end when a run succeeds without shortening the text, since it would
/// then succeed for ever; that run's value is dropped. Fewer than
/// `lower_bound` runs are a failure, reported where the runs ended.
pub struct RepeatParser<P> where P: Parser {
    pub parser: P,
    pub lower_bound: usize,
    pub upper_bound: Option<usize>,
}

impl<P> RepeatParser<P> where P: Parser {
    /// At least one run, and no upper bound.
    pub fn new(p: P) -> (repeat: Self)
        ensures
            repeat.parser == p,
            repeat.lower_bound == 1,
            repeat.upper_bound == None::<usize>,
    {
        Self { parser: p, lower_bound: 1, upper_bound: None }
    }

    /// The same repetition with at least `l` runs.
    pub fn minm(self, l: usize) -> (repeat: Self)
        ensures
            repeat.parser == self.parser,
            repeat.lower_bound == l,
            repeat.upper_bound == self.upper_bound,
    {
        Self { parser: self.parser, lower_bound: l, upper_bound: self.upper_bound }
    }

    /// The same repetition with at most `l` runs.
    pub fn maxm(self, l: usize) -> (repeat: Self)
        ensures
            repeat.parser == self.parser,
            repeat.lower_bound == self.lower_bound,
            repeat.upper_bound == Some(l),
    {
        Self { parser: self.parser, lower_bound: self.lower_bound, upper_bound: Some(l) }
    }
}

impl<P> RepeatParser<P> where P: Parser {
    /// A repetition is single-valued where its parser is.
    pub proof fn lemma_single_valued(&self) where P::Output: DeepView
        requires
            single_valued(&self.parser),
        ensures
            single_valued(self),
    {
        assert forall|input: InputView, a: Vec<P::Output>, b: Vec<P::Output>| #[trigger]
            self.yields(input, a) && #[trigger] self.yields(input, b) implies a.deep_view()
            == b.deep_view() by {
            assert forall|i: int| 0 <= i < a@.len() implies a@[i].deep_view()
                == b@[i].deep_view() by {
                assert(self.parser.yields(input_after(&self.parser, input, i as nat), a@[i]));
                assert(self.parser.yields(input_after(&self.parser, input, i as nat), b@[i]));
            }
            assert(a.deep_view() =~= b.deep_view());
        }
    }

    /// A repetition never leaves the input where no run does.
    pub proof fn lemma_stays_within(&self)
        requires
            stays_within(&self.parser),
        ensures
            stays_within(self),
    {
        assert forall|input: InputView| outcome_within(#[trigger] self.outcome(input), input) by {
            lemma_repeat_consumed_within(&self.parser, self.upper_bound, input, 0);
        }
    }
}

impl<P> Parser for RepeatParser<P> where P: Parser {
    type Output = Vec<P::Output>;

    open spec fn wf(&self) -> bool {
        self.parser.wf()
    }

    open spec fn outcome(&self, input: InputView) -> Result<nat, ParsingErrorView> {
        let consumed = repeat_consumed(&self.parser, self.upper_bound, input, 0);
        if repeat_count(&self.parser, self.upper_bound, input, 0) < self.lower_bound {
            Err(not_found_at(input.advance(consumed), too_few_runs()))
        } else {
            Ok(consumed)
        }
    }

    open spec fn yields(&self, input: InputView, out: Vec<P::Output>) -> bool {
        &&& out@.len() == repeat_count(&self.parser, self.upper_bound, input, 0)
        &&& forall|i: int|
            0 <= i < out@.len() ==> self.parser.yields(
                input_after(&self.parser, input, i as nat),
                #[trigger] out@[i],
            )
    }

    /// Succeeds exactly where the runs are at least `lower_bound`, so always
    /// where `lower_bound` is 0; the values are never more than `upper_bound`.
    fn parse(&self, input: &Input) -> (res: ParserRes<Vec<P::Output>>)
        ensures
            res is Ok <==> repeat_count(&self.parser, self.upper_bound, input@, 0)
                >= self.lower_bound,
            self.lower_bound == 0 ==> res is Ok,
            res matches Ok((out, _)) ==> ({
                &&& out@.len() >= self.lower_bound
                &&& self.upper_bound matches Some(limit) ==> out@.len() <= limit
            }),
    {
        proof {
            if let Some(limit) = self.upper_bound {
                lemma_repeat_count_bounded(&self.parser, limit, input@, 0);
            }
        }
        let mut rest = input.clone();
        let mut acc: Vec<P::Output> = Vec::new();
        let ghost mut consumed: nat = 0;
        proof {
            input@.lemma_advance_none();
        }
        loop
            invariant
                self.parser.wf(),
                input.wf(),
                rest@ == input@.advance(consumed),
                rest@ == input_after(&self.parser, input@, acc@.len()),
                repeat_count(&self.parser, self.upper_bound, input@, 0) == acc@.len()
                    + repeat_count(&self.parser, self.upper_bound, rest@, acc@.len()),
                repeat_consumed(&self.parser, self.upper_bound, input@, 0) == consumed
                    + repeat_consumed(&self.parser, self.upper_bound, rest@, acc@.len()),
                forall|i: int|
                    0 <= i < acc@.len() ==> self.parser.yields(
                        input_after(&self.parser, input@, i as nat),
                        #[trigger] acc@[i],
                    ),
            ensures
                repeat_stops(&self.parser, self.upper_bound, rest@, acc@.len()),
            decreases repeat_measure(self.upper_bound, rest@, acc@.len()),
        {
            if let Some(limit) = self.upper_bound {
                if acc.len() >= limit {
                    break;
                }
            }
            let (p, r) = match self.parser.parse(&rest) {
                Ok(done) => done,
                Err(_) => {
                    break;
                },
            };
            if self.upper_bound.is_none() && (r.col == rest.col || rest.source.as_str().is_empty()) {
                break;
            }
            proof {
                let taken = self.parser.outcome(rest@)->Ok_0;
                input@.lemma_advance_twice(consumed, taken);
                consumed = consumed + taken;
            }
            rest = r;
            acc.push(p);
        }
        if acc.len() < self.lower_bound {
            let detail = "Parser did not run the minum number of times".to_owned();
            return Err(
                ParsingError::new(ParsingErrorKind::PatternNotFound(detail), rest.line, rest.col),
            );
        }
        Ok((acc, rest))
    }
}

} // verus!
