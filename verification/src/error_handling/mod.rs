//! The errors that reach the user, and how they are shown.

mod lex_error;

pub use lex_error::LexError;

use crate::text::{decimal, push_char, push_decimal};
use vstd::prelude::*;

verus! {

/// What every error can say of itself: the line, and what is wrong.
pub trait Error {
    /// The line that `line` returns.
    spec fn line_of(&self) -> u32;

    /// The text that `message` returns.
    spec fn message_of(&self) -> Seq<char>;

    fn line(&self) -> (line: u32)
        ensures
            line == self.line_of(),
    ;

    fn message(&self) -> (message: String)
        ensures
            message@ == self.message_of(),
    ;
}

/// How any error is shown: `[line 3] Error: what is wrong`.
pub open spec fn display_text(line: u32, message: Seq<char>) -> Seq<char> {
    "[line "@ + decimal(line as nat) + "] Error: "@ + message
}

/// Shows any error as `display_text` says.
pub fn display(error: &dyn Error) -> (text: String)
    ensures
        text@ == display_text(error.line_of(), error.message_of()),
{
    let mut text = String::from_str("[line ");
    push_decimal(&mut text, error.line());
    text.append("] Error: ");
    let message = error.message();
    text.append(message.as_str());
    assert(text@ =~= display_text(error.line_of(), error.message_of()));
    text
}

/// One line of a report: `[Line 3] Error: what is wrong`, closed by a line
/// feed.
pub open spec fn report_text(line: u32, message: Seq<char>) -> Seq<char> {
    "[Line "@ + decimal(line as nat) + "] Error: "@ + message + seq!['\n']
}

/// The line of a report for an error on `line`.
pub fn report_error_str(line: u32, message: String) -> (text: String)
    ensures
        text@ == report_text(line, message@),
{
    let mut text = String::from_str("[Line ");
    push_decimal(&mut text, line);
    text.append("] Error: ");
    text.append(message.as_str());
    push_char(&mut text, '\n');
    assert(text@ =~= report_text(line, message@));
    text
}

/// An error in the arguments of the command line.
#[derive(Debug)]
pub struct CLArgsError {
    pub line: u32,
    pub message: String,
}

impl CLArgsError {
    pub fn new(line: u32, message: String) -> (error: CLArgsError)
        ensures
            error.line == line,
            error.message == message,
    {
        CLArgsError { line, message }
    }

    /// The error as one line of a report.
    pub fn to_string(&self) -> (text: String)
        ensures
            text@ == report_text(self.line, self.message@),
    {
        report_error_str(self.line, self.message.clone())
    }
}

impl Error for CLArgsError {
    open spec fn line_of(&self) -> u32 {
        self.line
    }

    open spec fn message_of(&self) -> Seq<char> {
        self.message@
    }

    fn line(&self) -> (line: u32) {
        self.line
    }

    fn message(&self) -> (message: String) {
        self.message.clone()
    }
}

/// `std::io::Error`: an error of the operating system while reading or
/// writing. Nothing is known of what it holds.
#[verifier::external_type_specification]
#[verifier::external_body]
pub struct ExIoError(std::io::Error);

/// `std::io::Error`'s `to_string`: the text by which the error describes
/// itself. The text depends on the platform, so nothing is said of it.
#[verifier::external_body]
fn io_error_text(err: &std::io::Error) -> (text: String) {
    err.to_string()
}

/// An error while reading or writing.
#[derive(Debug)]
pub struct IOError {
    pub line: u32,
    pub message: String,
}

impl IOError {
    /// The error on `line` whose message is the text of `err`.
    pub fn new(line: u32, err: std::io::Error) -> (error: IOError)
        ensures
            error.line == line,
    {
        IOError::with_message(line, io_error_text(&err))
    }

    /// The error on `line` with `message`.
    pub fn with_message(line: u32, message: String) -> (error: IOError)
        ensures
            error.line == line,
            error.message == message,
    {
        IOError { line, message }
    }

    /// The error as one line of a report.
    pub fn to_string(&self) -> (text: String)
        ensures
            text@ == report_text(self.line, self.message@),
    {
        report_error_str(self.line, self.message.clone())
    }
}

impl Error for IOError {
    open spec fn line_of(&self) -> u32 {
        self.line
    }

    open spec fn message_of(&self) -> Seq<char> {
        self.message@
    }

    fn line(&self) -> (line: u32) {
        self.line
    }

    fn message(&self) -> (message: String) {
        self.message.clone()
    }
}

} // verus!
