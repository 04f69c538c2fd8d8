//! The cursor that every parser reads and advances.

use vstd::prelude::*;
use vstd::string::*;

verus! {

/// The mathematical content of an [`Input`]: a position and the text that is left.
pub struct InputView {
    pub line: nat,
    pub col: nat,
    pub source: Seq<char>,
}

impl InputView {
    /// The cursor after `count` characters have been taken from the front.
    /// Taking more than is left empties the text; the column still moves by `count`.
    pub open spec fn advance(self, count: nat) -> InputView {
        InputView {
            line: self.line,
            col: self.col + count,
            source: if count <= self.source.len() {
                self.source.skip(count as int)
            } else {
                Seq::empty()
            },
        }
    }

    /// Advancing in two steps is advancing by their sum.
    pub proof fn lemma_advance_twice(self, first: nat, second: nat)
        ensures
            self.advance(first).advance(second) == self.advance(first + second),
    {
        assert(self.advance(first).advance(second).source =~= self.advance(first + second).source);
    }

    /// Advancing by nothing changes nothing.
    pub proof fn lemma_advance_none(self)
        ensures
            self.advance(0) == self,
    {
        assert(self.advance(0).source =~= self.source);
    }
}

/// The text that is still to be parsed, with the position of its first character.
#[derive(Debug)]
pub struct Input {
    pub line: usize,
    pub col: usize,
    pub source: String,
}

impl View for Input {
    type V = InputView;

    open spec fn view(&self) -> InputView {
        InputView { line: self.line as nat, col: self.col as nat, source: self.source@ }
    }
}

impl Clone for Input {
    fn clone(&self) -> (copy: Self)
        ensures
            copy == *self,
    {
        Input { line: self.line, col: self.col, source: self.source.clone() }
    }
}

impl Input {
    /// Whether the column can be advanced over all of the remaining text
    /// without leaving the range of `usize`.
    pub open spec fn wf(&self) -> bool {
        self.col + self.source@.len() <= usize::MAX
    }

    /// The cursor at `line` and `col`, with `source` still to be parsed.
    pub fn new(line: usize, col: usize, source: String) -> (input: Self)
        ensures
            input.line == line,
            input.col == col,
            input.source == source,
    {
        Input { line, col, source }
    }

    /// Moves the cursor `count` characters forward: the column grows by
    /// `count`, and the first `count` characters leave the text, or all of
    /// them where there are fewer. The line is never changed: the text is
    /// read as one line.
    pub fn char_offset(self, count: usize) -> (moved: Self)
        requires
            self.col + count <= usize::MAX,
        ensures
            moved@ == self@.advance(count as nat),
    {
        let total: usize = self.source.as_str().unicode_len();
        let from: usize = if count <= total { count } else { total };
        let rest = self.source.as_str().substring_char(from, total);
        let moved = Input { line: self.line, col: self.col + count, source: rest.to_owned() };
        assert(moved.source@ =~= self@.advance(count as nat).source);
        moved
    }
}

/// The characters of `text`, one by one.
pub fn characters(text: &str) -> (chars: Vec<char>)
    ensures
        chars@ == text@,
{
    let mut chars: Vec<char> = Vec::new();
    for c in it: text.chars()
        invariant
            chars@ == it.seq().take(it.index()),
            it.seq() == text@,
    {
        chars.push(c);
    }
    chars
}

impl From<String> for Input {
    /// The whole of `source`, read from line 0 and column 0.
    fn from(source: String) -> (input: Input)
        ensures
            input@ == (InputView { line: 0, col: 0, source: source@ }),
            input.wf(),
    {
        // Counting the characters shows that a column can pass over all of them.
        let _ = source.as_str().unicode_len();
        Input { line: 0, col: 0, source }
    }
}

impl vstd::std_specs::convert::FromSpecImpl<String> for Input {
    open spec fn obeys_from_spec() -> bool {
        true
    }

    open spec fn from_spec(source: String) -> Input {
        Input { line: 0, col: 0, source }
    }
}

impl<'a> From<&'a str> for Input {
    /// The whole of `source`, read from line 0 and column 0.
    fn from(source: &'a str) -> (input: Input)
        ensures
            input@ == (InputView { line: 0, col: 0, source: source@ }),
            input.wf(),
    {
        // Counting the characters shows that a column can pass over all of them.
        let _ = source.unicode_len();
        Input { line: 0, col: 0, source: source.to_owned() }
    }
}

impl<'a> vstd::std_specs::convert::FromSpecImpl<&'a str> for Input {
    /// A spec function cannot make a `String`, so the contract of `from` says
    /// what the conversion returns.
    open spec fn obeys_from_spec() -> bool {
        false
    }

    open spec fn from_spec(source: &'a str) -> Input {
        arbitrary()
    }
}

} // verus!
