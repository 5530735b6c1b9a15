//! The structured error a failed tokenize call reports.

use vstd::prelude::*;

verus! {

/// A fatal lexical error: a human-readable reason drawn from a fixed
/// vocabulary, plus a line indicator. The scanner aborts on the first
/// error and never returns partial results alongside one.
#[derive(Debug)]
pub struct SyntaxError {
    line: usize,
    reason: &'static str,
}

impl SyntaxError {
    /// The line indicator carried by the error.
    pub closed spec fn line_of(&self) -> usize {
        self.line
    }

    /// The reason text carried by the error, as a sequence of characters.
    pub closed spec fn reason_of(&self) -> Seq<char> {
        self.reason@
    }

    /// Constructs an error; purely a data constructor, no recovery logic.
    pub fn new(line: usize, reason: &'static str) -> (r: Self)
        ensures
            r.line_of() == line,
            r.reason_of() == reason@,
    {
        Self { line, reason }
    }

    /// The line indicator.
    pub fn line(&self) -> (r: usize)
        ensures
            r == self.line_of(),
    {
        self.line
    }

    /// The reason text.
    pub fn reason(&self) -> (r: &'static str)
        ensures
            r@ == self.reason_of(),
    {
        self.reason
    }
}

} // verus!
