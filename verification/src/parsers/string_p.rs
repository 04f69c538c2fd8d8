//! The quoted-string literal.

use crate::errors::simple_error::{ParsingError, ParsingErrorView};
use crate::errors::ParsingErrorKind;
use crate::inputs::{characters, Input, InputView};
use crate::parsers::{not_found_at, starts_with, take_front, ParseMatch};
use crate::traits::{outcome_within, single_valued, stays_within, Parser};
use crate::type_alias::ParserRes;
use vstd::prelude::*;
use vstd::string::*;

verus! {

/// The place of the quote that closes a literal, looked for in `text` from
/// `from` on. A backslash and the character behind it are passed over
/// together, so that an escaped quote does not close the literal.
pub open spec fn closing_quote(text: Seq<char>, from: int) -> Option<int>
    decreases text.len() - from,
{
    if from < 0 || from >= text.len() {
        None
    } else if text[from] == '"' {
        Some(from)
    } else if text[from] == '\\' {
        if from + 1 < text.len() {
            closing_quote(text, from + 2)
        } else {
            None
        }
    } else {
        closing_quote(text, from + 1)
    }
}

/// The closing quote, where there is one, is a quote inside the text, at or
/// behind the place from which it was looked for.
pub proof fn lemma_closing_quote(text: Seq<char>, from: int)
    ensures
        closing_quote(text, from) matches Some(at) ==> from <= at < text.len() && text[at] == '"',
    decreases text.len() - from,
{
    if 0 <= from < text.len() && text[from] != '"' {
        if text[from] == '\\' {
            if from + 1 < text.len() {
                lemma_closing_quote(text, from + 2);
            }
        } else {
            lemma_closing_quote(text, from + 1);
        }
    }
}

/// What the literal parser says when the input ends inside the literal.
pub open spec fn no_closing_quote() -> Seq<char> {
    "Did not find closing quote \""@
}

/// Matches a literal in double quotes and returns the text between them, as
/// it stands. A backslash escapes the character behind it, and the two count
/// as two characters of the literal.
pub struct StringParser;

impl Parser for StringParser {
    type Output = String;

    open spec fn wf(&self) -> bool {
        true
    }

    open spec fn outcome(&self, input: InputView) -> Result<nat, ParsingErrorView> {
        match ParseMatch('"').outcome(input) {
            Ok(_) => match closing_quote(input.source, 1) {
                Some(at) => Ok((at + 1) as nat),
                None => Err(not_found_at(input.advance(1), no_closing_quote())),
            },
            Err(error) => Err(error),
        }
    }

    open spec fn yields(&self, input: InputView, out: String) -> bool {
        closing_quote(input.source, 1) matches Some(at) && out@ == input.source.subrange(1, at)
    }

    /// Succeeds exactly where the input begins with a quote that is closed
    /// further on; the text between the two is returned, and both quotes are
    /// consumed with it.
    fn parse(&self, input: &Input) -> (res: ParserRes<String>)
        ensures
            res is Ok <==> starts_with(input.source@, seq!['"']) && closing_quote(
                input.source@,
                1,
            ) is Some,
            res matches Ok((out, rest)) ==> ({
                let at = closing_quote(input.source@, 1)->Some_0;
                &&& out@ == input.source@.subrange(1, at)
                &&& rest@ == input@.advance((at + 1) as nat)
            }),
    {
        let rest = match ParseMatch('"').parse(input) {
            Ok((_, rest)) => rest,
            Err(error) => {
                return Err(error);
            },
        };
        let chars = characters(input.source.as_str());
        let mut at: usize = 1;
        loop
            invariant
                chars@ == input.source@,
                ParseMatch('"').outcome(input@) is Ok,
                rest@ == input@.advance(1),
                1 <= at <= chars.len(),
                closing_quote(chars@, 1) == closing_quote(chars@, at as int),
            ensures
                at < chars.len(),
                closing_quote(chars@, 1) == Some(at as int),
            decreases chars.len() - at,
        {
            if at >= chars.len() || (chars[at] == '\\' && at + 1 >= chars.len()) {
                let detail = "Did not find closing quote \"".to_owned();
                return Err(
                    ParsingError::new(
                        ParsingErrorKind::PatternNotFound(detail),
                        rest.line,
                        rest.col,
                    ),
                );
            }
            if chars[at] == '"' {
                break;
            }
            if chars[at] == '\\' {
                at += 2;
            } else {
                at += 1;
            }
        }
        let (quoted, last) = take_front(input, at + 1);
        let text = quoted.as_str().substring_char(1, at).to_owned();
        assert(text@ =~= input.source@.subrange(1, at as int));
        Ok((text, last))
    }
}

impl StringParser {
    /// The text returned is the text between the quotes and no other.
    pub proof fn lemma_single_valued(&self)
        ensures
            single_valued(self),
    {
    }

    /// A literal never leaves the input.
    pub proof fn lemma_stays_within(&self)
        ensures
            stays_within(self),
    {
        assert forall|input: InputView| outcome_within(#[trigger] self.outcome(input), input) by {
            lemma_closing_quote(input.source, 1);
        }
    }
}

/// The parser of quoted-string literals: it does what [`StringParser`] does.
pub fn string_parser() -> (parser: impl Parser<Output = String>)
    ensures
        parser.wf(),
        forall|input: InputView| #[trigger] parser.outcome(input) == StringParser.outcome(input),
        forall|input: InputView, out: String| #[trigger]
            parser.yields(input, out) == StringParser.yields(input, out),
{
    StringParser
}

} // verus!
