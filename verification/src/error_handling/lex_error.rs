//! Errors of the scanner.

use crate::error_handling::{report_error_str, report_text, Error};
use vstd::prelude::*;

verus! {

/// A lexical error: what is wrong, and on which line.
#[derive(Debug)]
pub struct LexError {
    pub message: String,
    pub line: u32,
}

impl LexError {
    pub fn new(message: String, line: u32) -> (error: LexError)
        ensures
            error.message == message,
            error.line == line,
    {
        LexError { message, line }
    }

    /// The error as one line of a report.
    pub fn to_string(&self) -> (text: String)
        ensures
            text@ == report_text(self.line, self.message@),
    {
        report_error_str(self.line, self.message.clone())
    }
}

impl Error for LexError {
    open spec fn line_of(&self) -> u32 {
        self.line
    }

    open spec fn message_of(&self) -> Seq<char> {
        self.message@
    }

    fn line(&self) -> (line: u32) {
        self.line
    }

    fn message(&self) -> (message: String) {
        self.message.clone()
    }
}

} // verus!
