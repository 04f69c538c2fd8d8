//! A positioned failure, and the order by which two failures compete.

use crate::errors::{ErrorKindView, ParsingErrorKind};
use crate::inputs::{Input, InputView};
use crate::traits::{outcome_within, single_valued, stays_within, Parser};
use crate::type_alias::ParserRes;
use std::cmp::Ordering;
use vstd::prelude::*;

verus! {

/// What stopped a parser, and the position it had reached.
#[derive(Debug, PartialEq)]
pub struct ParsingError {
    pub kind: ParsingErrorKind,
    pub line: usize,
    pub col: usize,
}

/// The mathematical content of a [`ParsingError`].
pub struct ParsingErrorView {
    pub kind: ErrorKindView,
    pub line: nat,
    pub col: nat,
}

impl ParsingErrorView {
    /// Whether this failure lies strictly further into the input than `other`:
    /// on a later line, or on the same line at a later column.
    pub open spec fn further_than(self, other: ParsingErrorView) -> bool {
        self.line > other.line || (self.line == other.line && self.col > other.col)
    }

    /// Which of two competing failures is reported: the one that lies further
    /// into the input, and the first where neither does.
    pub open spec fn furthest(self, second: ParsingErrorView) -> ParsingErrorView {
        if second.further_than(self) {
            second
        } else {
            self
        }
    }
}

impl View for ParsingError {
    type V = ParsingErrorView;

    open spec fn view(&self) -> ParsingErrorView {
        ParsingErrorView { kind: self.kind@, line: self.line as nat, col: self.col as nat }
    }
}

/// How two positions compare, line first and column second.
pub open spec fn position_order(line: usize, col: usize, other_line: usize, other_col: usize) -> Ordering {
    if line > other_line {
        Ordering::Greater
    } else if line < other_line {
        Ordering::Less
    } else if col > other_col {
        Ordering::Greater
    } else if col < other_col {
        Ordering::Less
    } else {
        Ordering::Equal
    }
}

impl PartialOrd for ParsingError {
    /// Failures are ordered by position alone; the kind plays no part.
    fn partial_cmp(&self, other: &Self) -> (order: Option<Ordering>) {
        if self.line > other.line {
            Some(Ordering::Greater)
        } else if self.line < other.line {
            Some(Ordering::Less)
        } else if self.col > other.col {
            Some(Ordering::Greater)
        } else if self.col < other.col {
            Some(Ordering::Less)
        } else {
            Some(Ordering::Equal)
        }
    }
}

impl vstd::std_specs::cmp::PartialOrdSpecImpl for ParsingError {
    open spec fn obeys_partial_cmp_spec() -> bool {
        true
    }

    open spec fn partial_cmp_spec(&self, other: &Self) -> Option<Ordering> {
        Some(position_order(self.line, self.col, other.line, other.col))
    }
}

impl ParsingError {
    pub fn new(kind: ParsingErrorKind, line: usize, col: usize) -> (error: Self)
        ensures
            error.kind == kind,
            error.line == line,
            error.col == col,
    {
        ParsingError { kind, line, col }
    }
}

/// The failure `error` with its kind replaced by the message `text`.
pub open spec fn with_message(error: ParsingErrorView, text: Seq<char>) -> ParsingErrorView {
    ParsingErrorView { kind: ErrorKindView::CustomError(text), line: error.line, col: error.col }
}

/// Runs `parser` and, where it fails, reports `message` in place of the
/// failure's kind, at the failure's position.
pub struct ErrorParser<'a, P> where P: Parser {
    pub parser: P,
    pub message: &'a str,
}

impl<'a, P> ErrorParser<'a, P> where P: Parser {
    pub fn new(parser: P, message: &'a str) -> (wrapped: Self)
        ensures
            wrapped.parser == parser,
            wrapped.message == message,
    {
        ErrorParser { parser, message }
    }
}

impl<'a, P> ErrorParser<'a, P> where P: Parser {
    /// A parser with a message is single-valued where the parser is.
    pub proof fn lemma_single_valued(&self) where P::Output: DeepView
        requires
            single_valued(&self.parser),
        ensures
            single_valued(self),
    {
    }

    /// A parser with a message never leaves the input where the parser does not.
    pub proof fn lemma_stays_within(&self)
        requires
            stays_within(&self.parser),
        ensures
            stays_within(self),
    {
        assert forall|input: InputView| outcome_within(#[trigger] self.outcome(input), input) by {
            assert(outcome_within(self.parser.outcome(input), input));
        }
    }
}

impl<'a, P> Parser for ErrorParser<'a, P> where P: Parser {
    type Output = P::Output;

    open spec fn wf(&self) -> bool {
        self.parser.wf()
    }

    open spec fn outcome(&self, input: InputView) -> Result<nat, ParsingErrorView> {
        match self.parser.outcome(input) {
            Ok(taken) => Ok(taken),
            Err(error) => Err(with_message(error, self.message@)),
        }
    }

    open spec fn yields(&self, input: InputView, out: P::Output) -> bool {
        self.parser.yields(input, out)
    }

    fn parse(&self, input: &Input) -> (res: ParserRes<P::Output>) {
        match self.parser.parse(input) {
            Ok(done) => Ok(done),
            Err(err) => {
                let kind = ParsingErrorKind::CustomError(self.message.to_owned());
                Err(ParsingError::new(kind, err.line, err.col))
            },
        }
    }
}

} // verus!
