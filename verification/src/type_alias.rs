//! Shorthand for what a parser returns.

use crate::errors::simple_error::ParsingError;
use crate::inputs::Input;
use vstd::prelude::*;

verus! {

/// The parsed value with the input that is left, or the failure.
pub type ParserRes<A, E = ParsingError> = std::result::Result<(A, Input), E>;

} // verus!
