//! The failure model: what went wrong, and where.

pub mod pretty_error;
pub mod simple_error;

pub use simple_error::ParsingError;

use vstd::prelude::*;

verus! {

/// Why a parser gave up.
#[derive(Debug, PartialEq)]
pub enum ParsingErrorKind {
    /// The expected text or pattern is not at the cursor.
    PatternNotFound(String),
    /// Content was required and the input was empty.
    CannotParseAnEmptyString,
    /// The text was matched, but its value could not be converted.
    MappingError(String),
    /// A message that the grammar's author attached to a parser.
    CustomError(String),
}

/// The mathematical content of a [`ParsingErrorKind`].
pub enum ErrorKindView {
    PatternNotFound(Seq<char>),
    CannotParseAnEmptyString,
    MappingError(Seq<char>),
    CustomError(Seq<char>),
}

impl View for ParsingErrorKind {
    type V = ErrorKindView;

    open spec fn view(&self) -> ErrorKindView {
        match self {
            ParsingErrorKind::PatternNotFound(detail) => ErrorKindView::PatternNotFound(detail@),
            ParsingErrorKind::CannotParseAnEmptyString => ErrorKindView::CannotParseAnEmptyString,
            ParsingErrorKind::MappingError(detail) => ErrorKindView::MappingError(detail@),
            ParsingErrorKind::CustomError(text) => ErrorKindView::CustomError(text@),
        }
    }
}

} // verus!
