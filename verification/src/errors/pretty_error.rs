//! The failure as the outermost caller gets it: with the whole source text.

use crate::errors::simple_error::ParsingError;
use crate::traits::Parser;
use crate::MainParser;
use vstd::prelude::*;

verus! {

/// A failure together with the full text in which it lies, so that the place
/// can be shown to a reader. Only the root of a grammar has the full text,
/// so only a [`MainParser`] makes one.
#[derive(Debug)]
pub struct PrettyError {
    /// The whole source text.
    pub src: String,
    /// The line and the column of the failure.
    pub position: (usize, usize),
}

impl<P: Parser> From<(ParsingError, &MainParser<P>)> for PrettyError {
    fn from(found: (ParsingError, &MainParser<P>)) -> (pretty: Self) {
        Self { src: found.1.src.clone(), position: (found.0.line, found.0.col) }
    }
}

impl<P: Parser> vstd::std_specs::convert::FromSpecImpl<(ParsingError, &MainParser<P>)> for PrettyError {
    open spec fn obeys_from_spec() -> bool {
        true
    }

    open spec fn from_spec(found: (ParsingError, &MainParser<P>)) -> Self {
        PrettyError { src: found.1.src, position: (found.0.line, found.0.col) }
    }
}

} // verus!
