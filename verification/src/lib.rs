//! A small parser-combinator toolkit whose contracts are proved.
//!
//! A grammar is built from the primitives of [`parsers`] with the operators of
//! [`traits::Combinators`]; nothing is read until `parse` is called on it.

pub mod errors;
pub mod inputs;
pub mod parsers;
pub mod traits;
pub mod type_alias;

use crate::errors::pretty_error::PrettyError;
use crate::traits::Parser;
use vstd::prelude::*;

verus! {

/// The root of a grammar, bound to the whole source text.
pub struct MainParser<P> where P: Parser {
    pub src: String,
    pub parser: P,
}

impl<P> MainParser<P> where P: Parser {
    /// Runs the root parser on `input`. A success is returned as it is, with
    /// whatever input is left over. A failure is returned with the whole
    /// source text beside its position.
    pub fn parse(&self, input: &inputs::Input) -> (res: type_alias::ParserRes<P::Output, PrettyError>)
        requires
            self.parser.wf(),
            input.wf(),
        ensures
            match res {
                Ok((out, rest)) => {
                    &&& self.parser.outcome(input@) matches Ok(consumed)
                    &&& rest@ == input@.advance(consumed)
                    &&& self.parser.yields(input@, out)
                },
                Err(pretty) => {
                    &&& self.parser.outcome(input@) matches Err(error)
                    &&& pretty.src@ == self.src@
                    &&& pretty.position.0 == error.line
                    &&& pretty.position.1 == error.col
                },
            },
    {
        match self.parser.parse(input) {
            Ok(done) => Ok(done),
            Err(x) => Err(PrettyError::from((x, self))),
        }
    }
}

} // verus!
