//! The interface a source of program text presents to the runtime.

use vstd::prelude::*;

verus! {

use crate::errors::SyntaxError;

/// A collaborator that supplies source characters and consumes results:
/// the surrounding program implements it to feed the scanner and to be
/// told of the outcome.
pub trait SourceReader {
    /// Supplies the next character of the source.
    fn get_char() -> char;

    /// Marks the end of a statement.
    fn end_sentence();

    /// Receives a fatal lexical error.
    fn send_error(error: SyntaxError);
}

} // verus!
