//! Error variants.

use vstd::prelude::*;
use crate::text::push_decimal;

verus! {

/// Result type with [`Error`] variants.
pub type Result<T> = core::result::Result<T, Error>;

/// Error variants used in this crate.
#[derive(Debug, Clone, PartialEq)]
pub enum Error {
    /// Unknown error.
    UnknownError,
    /// Generic CLI error.
    CLIError(String),
    /// Indicates an invalid argument is provided.
    InvalidArgument(String),
    /// Indicates an unexpected duplicate is provided.
    UnexpectedDuplicate,
    /// File I/O error.
    FileIOError(String),
    /// Parsing error.
    ParsingError(String),
    /// Parsing error of an implementation, with its line.
    ImplParsingError(LineErr),
    /// Invalid target.
    InvalidTarget(String),
    /// Back-end error.
    BackEndError(String),
    /// Forbidden interface name.
    InterfaceError(String),
    /// Project error.
    ProjectError(String),
    /// Composer error.
    ComposerError(String),
    /// Library error.
    LibraryError(String),
}

/// Error of the implementation parser, located on a line.
#[derive(Debug, PartialEq, Clone)]
pub struct LineErr {
    pub line: usize,
    pub err: String,
}

impl LineErr {
    /// A new error on line `l` with message `s`.
    pub fn new(l: usize, s: String) -> (r: Self)
        ensures
            r.line == l,
            r.err@ == s@,
    {
        LineErr { line: l, err: s }
    }

    /// The same error, moved to line `n`.
    pub fn on_line(self, n: usize) -> (r: LineErr)
        ensures
            r.line == n,
            r.err@ == self.err@,
    {
        LineErr { line: n, err: self.err }
    }
}

/// The text shown for an error: a fixed prefix per variant, then its message.
pub open spec fn error_text(e: Error) -> Seq<char> {
    match e {
        Error::CLIError(m) => "CLI Error: "@ + m@,
        Error::InvalidArgument(m) => "Invalid argument: "@ + m@,
        Error::UnexpectedDuplicate => "Unexpected duplicate"@,
        Error::UnknownError => "Unknown error"@,
        Error::FileIOError(m) => "File I/O error: "@ + m@,
        Error::ParsingError(m) => "Parsing error: "@ + m@,
        Error::ImplParsingError(le) => "Implementation parsing error on line: "@
            + crate::text::decimal(le.line as nat) + ":"@ + le.err@,
        Error::InvalidTarget(m) => "Invalid target: "@ + m@,
        Error::BackEndError(m) => "Back-end error: "@ + m@,
        Error::InterfaceError(m) => "Interface error: "@ + m@,
        Error::ProjectError(m) => "Project error: "@ + m@,
        Error::ComposerError(m) => "Composer error: "@ + m@,
        Error::LibraryError(m) => "Library error: "@ + m@,
    }
}

fn prefixed(prefix: &str, m: &String) -> (s: String)
    ensures
        s@ == prefix@ + m@,
{
    let mut s = String::from_str(prefix);
    s.append(m.as_str());
    s
}

impl Error {
    /// The text of this error, as it is displayed.
    pub fn to_string(&self) -> (s: String)
        ensures
            s@ == error_text(*self),
    {
        match self {
            Error::CLIError(m) => prefixed("CLI Error: ", m),
            Error::InvalidArgument(m) => prefixed("Invalid argument: ", m),
            Error::UnexpectedDuplicate => String::from_str("Unexpected duplicate"),
            Error::UnknownError => String::from_str("Unknown error"),
            Error::FileIOError(m) => prefixed("File I/O error: ", m),
            Error::ParsingError(m) => prefixed("Parsing error: ", m),
            Error::ImplParsingError(le) => {
                let mut s = String::from_str("Implementation parsing error on line: ");
                push_decimal(&mut s, le.line);
                s.append(":");
                s.append(le.err.as_str());
                s
            },
            Error::InvalidTarget(m) => prefixed("Invalid target: ", m),
            Error::BackEndError(m) => prefixed("Back-end error: ", m),
            Error::InterfaceError(m) => prefixed("Interface error: ", m),
            Error::ProjectError(m) => prefixed("Project error: ", m),
            Error::ComposerError(m) => prefixed("Composer error: ", m),
            Error::LibraryError(m) => prefixed("Library error: ", m),
        }
    }
}

} // verus!
