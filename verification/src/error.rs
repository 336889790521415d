//! The failures the lexer reports. Each one carries a message and the line
//! and column of the character it blames.

use vstd::prelude::*;
use vstd::string::StringExecFns;
use crate::text::{decimal, push_decimal};

verus! {

/// What every lexing error carries.
pub struct Report {
    pub message: Seq<char>,
    /// Line of the blamed character; the first line is line 1.
    pub line: int,
    /// Column of the blamed character; the first column is column 0.
    pub column: int,
}

/// How an error reads when it is printed: its name, a colon and its
/// message on the first line, its line and column on the second.
pub open spec fn rendering(name: Seq<char>, report: Report) -> Seq<char> {
    name + ": "@ + report.message + "\nLine: "@ + decimal(report.line) + ", column: "@ + decimal(
        report.column,
    )
}

/// Writes an error out as [`rendering`] says.
fn render(name: &str, message: &str, line: i128, column: i128) -> (text: String)
    ensures
        text@ == rendering(
            name@,
            Report { message: message@, line: line as int, column: column as int },
        ),
{
    let mut text = name.to_owned();
    text.append(": ");
    text.append(message);
    text.append("\nLine: ");
    push_decimal(&mut text, line);
    text.append(", column: ");
    push_decimal(&mut text, column);
    text
}

/// A number or keyword that is not well formed, or a character that can
/// start no token.
#[derive(Debug)]
pub struct ParseError {
    message: String,
    line: i128,
    column: i128,
}

impl ParseError {
    /// What the error carries.
    pub closed spec fn report(&self) -> Report {
        Report { message: self.message@, line: self.line as int, column: self.column as int }
    }

    /// An error with the message `message` that blames the character at
    /// line `line` and column `column`.
    pub fn new(message: String, line: i128, column: i128) -> (error: Self)
        ensures
            error.report() == (Report {
                message: message@,
                line: line as int,
                column: column as int,
            }),
    {
        Self { message, line, column }
    }

    /// The message of the error.
    pub fn message(&self) -> (message: &str)
        ensures
            message@ == self.report().message,
    {
        self.message.as_str()
    }

    /// The line of the blamed character; the first line is line 1.
    pub fn line(&self) -> (line: i128)
        ensures
            line == self.report().line,
    {
        self.line
    }

    /// The column of the blamed character; the first column is column 0.
    pub fn column(&self) -> (column: i128)
        ensures
            column == self.report().column,
    {
        self.column
    }

    /// The error as it is printed.
    pub fn to_string(&self) -> (text: String)
        ensures
            text@ == rendering("ParseError"@, self.report()),
    {
        render("ParseError", self.message.as_str(), self.line, self.column)
    }
}

/// A string literal that is not well formed.
#[derive(Debug)]
pub struct InvalidStringError {
    message: &'static str,
    line: i128,
    column: i128,
}

impl InvalidStringError {
    /// What the error carries.
    pub closed spec fn report(&self) -> Report {
        Report { message: self.message@, line: self.line as int, column: self.column as int }
    }

    /// An error with the message `message` that blames the character at
    /// line `line` and column `column`.
    pub fn new(message: &'static str, line: i128, column: i128) -> (error: Self)
        ensures
            error.report() == (Report {
                message: message@,
                line: line as int,
                column: column as int,
            }),
    {
        Self { message, line, column }
    }

    /// The message of the error.
    pub fn message(&self) -> (message: &'static str)
        ensures
            message@ == self.report().message,
    {
        self.message
    }

    /// The line of the blamed character; the first line is line 1.
    pub fn line(&self) -> (line: i128)
        ensures
            line == self.report().line,
    {
        self.line
    }

    /// The column of the blamed character; the first column is column 0.
    pub fn column(&self) -> (column: i128)
        ensures
            column == self.report().column,
    {
        self.column
    }

    /// The error as it is printed.
    pub fn to_string(&self) -> (text: String)
        ensures
            text@ == rendering("InvalidStringError"@, self.report()),
    {
        render("InvalidStringError", self.message, self.line, self.column)
    }
}

/// The input ended in the middle of a token.
#[derive(Debug)]
pub struct EofError {
    message: &'static str,
    line: i128,
    column: i128,
}

impl EofError {
    /// What the error carries.
    pub closed spec fn report(&self) -> Report {
        Report { message: self.message@, line: self.line as int, column: self.column as int }
    }

    /// An error with the message `message` that blames the character at
    /// line `line` and column `column`.
    pub fn new(message: &'static str, line: i128, column: i128) -> (error: Self)
        ensures
            error.report() == (Report {
                message: message@,
                line: line as int,
                column: column as int,
            }),
    {
        Self { message, line, column }
    }

    /// The message of the error.
    pub fn message(&self) -> (message: &'static str)
        ensures
            message@ == self.report().message,
    {
        self.message
    }

    /// The line of the blamed character; the first line is line 1.
    pub fn line(&self) -> (line: i128)
        ensures
            line == self.report().line,
    {
        self.line
    }

    /// The column of the blamed character; the first column is column 0.
    pub fn column(&self) -> (column: i128)
        ensures
            column == self.report().column,
    {
        self.column
    }

    /// The error as it is printed.
    pub fn to_string(&self) -> (text: String)
        ensures
            text@ == rendering("EOFError"@, self.report()),
    {
        render("EOFError", self.message, self.line, self.column)
    }
}

/// The five ways in which lexing fails.
#[derive(Debug, Clone, Copy, PartialEq, Eq, Structural)]
pub enum LexErrorKind {
    /// A string with an unknown escape code or a raw newline in it.
    MalformedString,
    /// A number with a second decimal point, or with nothing behind its
    /// decimal point.
    MalformedNumber,
    /// Letters that spell none of `true`, `false` and `null`.
    MalformedKeyword,
    /// The input ended inside a string, a number or a keyword.
    UnexpectedEof,
    /// A character that can start no token where it stands.
    UnrecognizedCharacter,
}

/// A lexing failure: its kind, and the error that describes it.
#[derive(Debug)]
pub enum LexError {
    MalformedString(InvalidStringError),
    MalformedNumber(ParseError),
    MalformedKeyword(ParseError),
    UnexpectedEof(EofError),
    UnrecognizedCharacter(ParseError),
}

impl LexError {
    /// The kind of the failure.
    pub open spec fn spec_kind(&self) -> LexErrorKind {
        match self {
            LexError::MalformedString(_) => LexErrorKind::MalformedString,
            LexError::MalformedNumber(_) => LexErrorKind::MalformedNumber,
            LexError::MalformedKeyword(_) => LexErrorKind::MalformedKeyword,
            LexError::UnexpectedEof(_) => LexErrorKind::UnexpectedEof,
            LexError::UnrecognizedCharacter(_) => LexErrorKind::UnrecognizedCharacter,
        }
    }

    /// The name under which the error is printed.
    pub open spec fn name(&self) -> Seq<char> {
        match self {
            LexError::MalformedString(_) => "InvalidStringError"@,
            LexError::UnexpectedEof(_) => "EOFError"@,
            _ => "ParseError"@,
        }
    }

    /// What the error carries.
    pub open spec fn report(&self) -> Report {
        match self {
            LexError::MalformedString(error) => error.report(),
            LexError::MalformedNumber(error) => error.report(),
            LexError::MalformedKeyword(error) => error.report(),
            LexError::UnexpectedEof(error) => error.report(),
            LexError::UnrecognizedCharacter(error) => error.report(),
        }
    }

    /// The kind of the failure.
    #[verifier::when_used_as_spec(spec_kind)]
    pub fn kind(&self) -> (kind: LexErrorKind)
        ensures
            kind == self.spec_kind(),
    {
        match self {
            LexError::MalformedString(_) => LexErrorKind::MalformedString,
            LexError::MalformedNumber(_) => LexErrorKind::MalformedNumber,
            LexError::MalformedKeyword(_) => LexErrorKind::MalformedKeyword,
            LexError::UnexpectedEof(_) => LexErrorKind::UnexpectedEof,
            LexError::UnrecognizedCharacter(_) => LexErrorKind::UnrecognizedCharacter,
        }
    }

    /// The message of the error.
    pub fn message(&self) -> (message: &str)
        ensures
            message@ == self.report().message,
    {
        match self {
            LexError::MalformedString(error) => error.message(),
            LexError::MalformedNumber(error) => error.message(),
            LexError::MalformedKeyword(error) => error.message(),
            LexError::UnexpectedEof(error) => error.message(),
            LexError::UnrecognizedCharacter(error) => error.message(),
        }
    }

    /// The line of the blamed character; the first line is line 1.
    pub fn line(&self) -> (line: i128)
        ensures
            line == self.report().line,
    {
        match self {
            LexError::MalformedString(error) => error.line(),
            LexError::MalformedNumber(error) => error.line(),
            LexError::MalformedKeyword(error) => error.line(),
            LexError::UnexpectedEof(error) => error.line(),
            LexError::UnrecognizedCharacter(error) => error.line(),
        }
    }

    /// The column of the blamed character; the first column is column 0.
    pub fn column(&self) -> (column: i128)
        ensures
            column == self.report().column,
    {
        match self {
            LexError::MalformedString(error) => error.column(),
            LexError::MalformedNumber(error) => error.column(),
            LexError::MalformedKeyword(error) => error.column(),
            LexError::UnexpectedEof(error) => error.column(),
            LexError::UnrecognizedCharacter(error) => error.column(),
        }
    }

    /// The error as it is printed: under the name of the error it wraps.
    pub fn to_string(&self) -> (text: String)
        ensures
            text@ == rendering(self.name(), self.report()),
    {
        match self {
            LexError::MalformedString(error) => error.to_string(),
            LexError::MalformedNumber(error) => error.to_string(),
            LexError::MalformedKeyword(error) => error.to_string(),
            LexError::UnexpectedEof(error) => error.to_string(),
            LexError::UnrecognizedCharacter(error) => error.to_string(),
        }
    }
}

} // verus!
