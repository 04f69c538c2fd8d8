//! The primitive parsers: the leaves of every grammar.

pub mod and_p;
pub mod map_p;
pub mod or_p;
pub mod repeat_p;
pub mod string_p;

use crate::errors::simple_error::{ParsingError, ParsingErrorView};
use crate::errors::{ErrorKindView, ParsingErrorKind};
use crate::inputs::{characters, Input, InputView};
use crate::traits::{outcome_within, single_valued, stays_within, Parser};
use crate::type_alias::ParserRes;
use vstd::prelude::*;
use vstd::string::*;

verus! {

/// A test on single characters, as the predicate-driven parsers take it.
/// A function value is one; so is any type that says in `holds` what its
/// `test` returns.
pub trait CharPredicate {
    /// Whether the predicate can be asked at all.
    open spec fn wf(&self) -> bool {
        false
    }

    /// Whether the predicate holds of `c`.
    open spec fn holds(&self, c: char) -> bool {
        false
    }

    fn test(&self, c: char) -> (held: bool)
        requires
            self.wf(),
        ensures
            held == self.holds(c),
    ;
}

/// Whether a function on characters accepts every character and never
/// answers both ways about one.
pub open spec fn decides<F: Fn(char) -> bool>(pred: F) -> bool {
    &&& forall|c: char| #[trigger] pred.requires((c,))
    &&& forall|c: char| !(#[trigger] pred.ensures((c,), true) && pred.ensures((c,), false))
}

impl<F: Fn(char) -> bool> CharPredicate for F {
    open spec fn wf(&self) -> bool {
        decides(*self)
    }

    /// A function value holds of `c` where its contract lets it answer `true`.
    open spec fn holds(&self, c: char) -> bool {
        self.ensures((c,), true)
    }

    fn test(&self, c: char) -> (held: bool) {
        (*self)(c)
    }
}

/// The number of characters at the front of `text` of which `pred` holds,
/// up to the first of which it does not.
pub open spec fn run_length<F: CharPredicate>(pred: &F, text: Seq<char>) -> nat
    decreases text.len(),
{
    if text.len() > 0 && pred.holds(text[0]) {
        1 + run_length(pred, text.drop_first())
    } else {
        0
    }
}

/// Whether the first `count` characters of `text` are its longest front of
/// which `pred` holds throughout.
pub open spec fn is_longest_run<F: CharPredicate>(pred: &F, text: Seq<char>, count: nat) -> bool {
    &&& count <= text.len()
    &&& forall|i: int| 0 <= i < count ==> pred.holds(#[trigger] text[i])
    &&& count < text.len() ==> !pred.holds(text[count as int])
}

/// `run_length` is the length of the longest run, and nothing else is.
pub proof fn lemma_run_length<F: CharPredicate>(pred: &F, text: Seq<char>, count: nat)
    ensures
        is_longest_run(pred, text, count) <==> count == run_length(pred, text),
    decreases text.len(),
{
    if text.len() > 0 && pred.holds(text[0]) {
        let tail = text.drop_first();
        if count > 0 {
            lemma_run_length(pred, tail, (count - 1) as nat);
            if is_longest_run(pred, text, count) {
                assert forall|i: int| 0 <= i < count - 1 implies pred.holds(#[trigger] tail[i]) by {
                    assert(tail[i] == text[i + 1]);
                }
                assert(count < text.len() ==> tail[count - 1] == text[count as int]);
            }
            if is_longest_run(pred, tail, (count - 1) as nat) {
                assert forall|i: int| 0 <= i < count implies pred.holds(#[trigger] text[i]) by {
                    if i > 0 {
                        assert(text[i] == tail[i - 1]);
                    }
                }
                assert(count < text.len() ==> tail[count - 1] == text[count as int]);
            }
        }
    }
}

/// The failure of a primitive at the cursor of `input`.
pub open spec fn not_found_at(input: InputView, detail: Seq<char>) -> ParsingErrorView {
    ParsingErrorView { kind: ErrorKindView::PatternNotFound(detail), line: input.line, col: input.col }
}

/// Splits `input` behind its first `count` characters.
pub fn take_front(input: &Input, count: usize) -> (parts: (String, Input))
    requires
        input.wf(),
        count <= input.source@.len(),
    ensures
        parts.0@ == input.source@.take(count as int),
        parts.1@ == input@.advance(count as nat),
{
    let front = input.source.as_str().substring_char(0, count).to_owned();
    (front, input.clone().char_offset(count))
}

/// A failure of kind `PatternNotFound` at the cursor of `input`.
fn not_found(input: &Input, detail: String) -> (error: ParsingError)
    ensures
        error@ == not_found_at(input@, detail@),
{
    ParsingError::new(ParsingErrorKind::PatternNotFound(detail), input.line, input.col)
}

/// Counts the characters at the front of `chars` of which `pred` holds.
fn count_run<F: CharPredicate>(pred: &F, chars: &Vec<char>) -> (count: usize)
    requires
        pred.wf(),
    ensures
        count == run_length(pred, chars@),
{
    let mut count: usize = 0;
    while count < chars.len()
        invariant
            pred.wf(),
            count <= chars.len(),
            forall|i: int| 0 <= i < count ==> pred.holds(#[trigger] chars@[i]),
        ensures
            is_longest_run(pred, chars@, count as nat),
        decreases chars.len() - count,
    {
        if !pred.test(chars[count]) {
            break;
        }
        count += 1;
    }
    proof {
        lemma_run_length(pred, chars@, count as nat);
    }
    count
}

/// Text that a literal parser can look for.
pub trait Pattern {
    /// The characters to be matched.
    open spec fn text(&self) -> Seq<char> {
        arbitrary()
    }

    fn to_text(&self) -> (text: String)
        ensures
            text@ == self.text(),
    ;
}

impl<'a> Pattern for &'a str {
    open spec fn text(&self) -> Seq<char> {
        self@
    }

    fn to_text(&self) -> (text: String) {
        (*self).to_owned()
    }
}

impl Pattern for String {
    open spec fn text(&self) -> Seq<char> {
        self@
    }

    fn to_text(&self) -> (text: String) {
        self.clone()
    }
}

/// `String::from` on a `char`: the string that holds this one character.
#[verifier::external_body]
fn string_of_char(c: char) -> (text: String)
    ensures
        text@ == seq![c],
{
    String::from(c)
}

impl Pattern for char {
    open spec fn text(&self) -> Seq<char> {
        seq![*self]
    }

    fn to_text(&self) -> (text: String) {
        string_of_char(*self)
    }
}

/// Whether `text` begins with `pattern`.
pub open spec fn starts_with(text: Seq<char>, pattern: Seq<char>) -> bool {
    pattern.len() <= text.len() && text.take(pattern.len() as int) == pattern
}

/// What a literal parser says when the input does not begin with its text.
pub open spec fn mismatch_detail(source: Seq<char>, pattern: Seq<char>) -> Seq<char> {
    source + " did not match pattern: "@ + pattern
}

/// Matches exactly the text it holds.
pub struct ParseMatch<A>(pub A) where A: Pattern;

impl<A> Parser for ParseMatch<A> where A: Pattern {
    type Output = String;

    open spec fn wf(&self) -> bool {
        true
    }

    open spec fn outcome(&self, input: InputView) -> Result<nat, ParsingErrorView> {
        if starts_with(input.source, self.0.text()) {
            Ok(self.0.text().len())
        } else {
            Err(not_found_at(input, mismatch_detail(input.source, self.0.text())))
        }
    }

    open spec fn yields(&self, input: InputView, out: String) -> bool {
        out@ == self.0.text()
    }

    /// On input that begins with the literal, returns the literal and consumes
    /// exactly its length; on any other input, fails with `PatternNotFound`.
    fn parse(&self, input: &Input) -> (res: ParserRes<String>)
        ensures
            starts_with(input.source@, self.0.text()) ==> ({
                &&& res matches Ok((out, rest))
                &&& out@ == self.0.text()
                &&& rest@ == input@.advance(self.0.text().len())
            }),
            !starts_with(input.source@, self.0.text()) ==> ({
                &&& res matches Err(error)
                &&& error@ == not_found_at(input@, mismatch_detail(input.source@, self.0.text()))
            }),
    {
        let pattern = self.0.to_text();
        let wanted: usize = pattern.as_str().unicode_len();
        let total: usize = input.source.as_str().unicode_len();
        if wanted <= total {
            let (front, rest) = take_front(input, wanted);
            if front == pattern {
                return Ok((pattern, rest));
            }
        }
        let mut detail = input.source.clone();
        detail.append(" did not match pattern: ");
        detail.append(pattern.as_str());
        Err(not_found(input, detail))
    }
}

impl<A> ParseMatch<A> where A: Pattern {
    /// A literal match never leaves the input.
    pub proof fn lemma_stays_within(&self)
        ensures
            stays_within(self),
    {
    }

    /// A literal match returns the literal and nothing else.
    pub proof fn lemma_single_valued(&self)
        ensures
            single_valued(self),
    {
    }
}

/// Takes the first character where the predicate holds of it.
pub struct ParseIf<F>(pub F) where F: CharPredicate;

impl<F> Parser for ParseIf<F> where F: CharPredicate {
    type Output = char;

    open spec fn wf(&self) -> bool {
        self.0.wf()
    }

    open spec fn outcome(&self, input: InputView) -> Result<nat, ParsingErrorView> {
        if input.source.len() > 0 && self.0.holds(input.source[0]) {
            Ok(1)
        } else {
            Err(not_found_at(input, "if predicate not met"@))
        }
    }

    open spec fn yields(&self, input: InputView, out: char) -> bool {
        input.source.len() > 0 && out == input.source[0]
    }

    /// Succeeds exactly where the input has a first character and the
    /// predicate holds of it; that character is returned and consumed.
    fn parse(&self, input: &Input) -> (res: ParserRes<char>)
        ensures
            res is Ok <==> input.source@.len() > 0 && self.0.holds(input.source@[0]),
            res matches Ok((out, rest)) ==> out == input.source@[0] && rest@ == input@.advance(1),
    {
        let total: usize = input.source.as_str().unicode_len();
        if total > 0 {
            let first = input.source.as_str().get_char(0);
            if self.0.test(first) {
                return Ok((first, input.clone().char_offset(1)));
            }
        }
        Err(not_found(input, "if predicate not met".to_owned()))
    }
}

impl<F> ParseIf<F> where F: CharPredicate {
    /// A single character never leaves the input.
    pub proof fn lemma_stays_within(&self)
        ensures
            stays_within(self),
    {
    }

    /// The character taken is the first of the input and no other.
    pub proof fn lemma_single_valued(&self)
        ensures
            single_valued(self),
    {
    }
}

/// Takes the longest front of the input of which the predicate holds
/// throughout. An empty front is a success: this parser never fails.
#[derive(Debug, Clone, Copy)]
pub struct ParseWhileOrNothing<F>(pub F) where F: CharPredicate;

impl<F> Parser for ParseWhileOrNothing<F> where F: CharPredicate {
    type Output = String;

    open spec fn wf(&self) -> bool {
        self.0.wf()
    }

    open spec fn outcome(&self, input: InputView) -> Result<nat, ParsingErrorView> {
        Ok(run_length(&self.0, input.source))
    }

    open spec fn yields(&self, input: InputView, out: String) -> bool {
        out@ == input.source.take(run_length(&self.0, input.source) as int)
    }

    /// Never fails. The text returned is the longest front of the input of
    /// which the predicate holds throughout, and it is what is consumed.
    fn parse(&self, input: &Input) -> (res: ParserRes<String>)
        ensures
            res matches Ok((out, rest)) && ({
                &&& is_longest_run(&self.0, input.source@, out@.len())
                &&& out@ == input.source@.take(out@.len() as int)
                &&& rest@ == input@.advance(out@.len())
            }),
    {
        let chars = characters(input.source.as_str());
        let count = count_run(&self.0, &chars);
        proof {
            lemma_run_length(&self.0, input.source@, count as nat);
        }
        Ok(take_front(input, count))
    }
}

impl<F> ParseWhileOrNothing<F> where F: CharPredicate {
    /// The run taken is the longest and no other.
    pub proof fn lemma_single_valued(&self)
        ensures
            single_valued(self),
    {
    }

    /// A run never leaves the input.
    pub proof fn lemma_stays_within(&self)
        ensures
            stays_within(self),
    {
        assert forall|input: InputView| outcome_within(#[trigger] self.outcome(input), input) by {
            lemma_run_length(&self.0, input.source, run_length(&self.0, input.source));
        }
    }
}

/// Takes the longest front of the input of which the predicate holds
/// throughout, and fails where that front is empty.
#[derive(Debug, Clone, Copy)]
pub struct ParseWhile<F>(pub F) where F: CharPredicate;

impl<F> Parser for ParseWhile<F> where F: CharPredicate {
    type Output = String;

    open spec fn wf(&self) -> bool {
        self.0.wf()
    }

    open spec fn outcome(&self, input: InputView) -> Result<nat, ParsingErrorView> {
        if run_length(&self.0, input.source) > 0 {
            Ok(run_length(&self.0, input.source))
        } else {
            Err(not_found_at(input, "no characters matched predicate"@))
        }
    }

    open spec fn yields(&self, input: InputView, out: String) -> bool {
        out@ == input.source.take(run_length(&self.0, input.source) as int)
    }

    /// Fails exactly where the predicate holds of no first character. The
    /// text returned is the longest front of the input of which the predicate
    /// holds throughout, and it is what is consumed.
    fn parse(&self, input: &Input) -> (res: ParserRes<String>)
        ensures
            res is Ok <==> input.source@.len() > 0 && self.0.holds(input.source@[0]),
            res matches Ok((out, rest)) ==> ({
                &&& out@.len() > 0
                &&& is_longest_run(&self.0, input.source@, out@.len())
                &&& out@ == input.source@.take(out@.len() as int)
                &&& rest@ == input@.advance(out@.len())
            }),
            res matches Err(error) ==> error@ == not_found_at(
                input@,
                "no characters matched predicate"@,
            ),
    {
        let chars = characters(input.source.as_str());
        let count = count_run(&self.0, &chars);
        proof {
            lemma_run_length(&self.0, input.source@, count as nat);
        }
        if count == 0 {
            return Err(not_found(input, "no characters matched predicate".to_owned()));
        }
        Ok(take_front(input, count))
    }
}

impl<F> ParseWhile<F> where F: CharPredicate {
    /// The run taken is the longest and no other.
    pub proof fn lemma_single_valued(&self)
        ensures
            single_valued(self),
    {
    }

    /// A run never leaves the input.
    pub proof fn lemma_stays_within(&self)
        ensures
            stays_within(self),
    {
        assert forall|input: InputView| outcome_within(#[trigger] self.outcome(input), input) by {
            lemma_run_length(&self.0, input.source, run_length(&self.0, input.source));
        }
    }
}

} // verus!
