//! The two ways in which an expansion fails, each with the message it
//! reports and the place it points at.

use vstd::prelude::*;
use crate::token::Location;

verus! {

/// What the grammar wanted to read where it stopped.
#[derive(Clone, Copy, Debug, PartialEq, Eq, Structural)]
pub enum Expected {
    StringLiteral,
    Comma,
    EndOfInput,
}

/// The invocation is not a string literal, a comma and a string literal.
#[derive(Clone, Copy, Debug, PartialEq, Eq, Structural)]
pub struct SyntaxError {
    /// What should have stood at `location`.
    pub expected: Expected,
    /// The token that is in the way, or `CallSite` where the tokens ran out.
    pub location: Location,
}

/// The subject does not contain the delimiter.
#[derive(Clone, Copy, Debug, PartialEq, Eq, Structural)]
pub struct ContainmentError {
    /// The delimiter argument.
    pub location: Location,
}

/// Why an invocation has no expansion.
#[derive(Clone, Copy, Debug, PartialEq, Eq, Structural)]
pub enum Error {
    Syntax(SyntaxError),
    Containment(ContainmentError),
}

impl SyntaxError {
    /// The words of the diagnostic.
    pub open spec fn message_text(self) -> Seq<char> {
        match self.expected {
            Expected::StringLiteral => match self.location {
                Location::CallSite => "unexpected end of input, expected string literal"@,
                Location::Token(_) => "expected string literal"@,
            },
            Expected::Comma => "expected `,`"@,
            Expected::EndOfInput => "unexpected token"@,
        }
    }

    /// The words of the diagnostic.
    pub fn message(&self) -> (text: String)
        ensures
            text@ == self.message_text(),
    {
        match self.expected {
            Expected::StringLiteral => match self.location {
                Location::CallSite => "unexpected end of input, expected string literal".to_owned(),
                Location::Token(_) => "expected string literal".to_owned(),
            },
            Expected::Comma => "expected `,`".to_owned(),
            Expected::EndOfInput => "unexpected token".to_owned(),
        }
    }
}

impl ContainmentError {
    /// The words of the diagnostic, the same for every subject and delimiter.
    pub open spec fn message_text(self) -> Seq<char> {
        "delimiter is not contained in the input string"@
    }

    /// The words of the diagnostic.
    pub fn message(&self) -> (text: String)
        ensures
            text@ == self.message_text(),
    {
        "delimiter is not contained in the input string".to_owned()
    }
}

impl Error {
    /// The words of the diagnostic.
    pub open spec fn message_text(self) -> Seq<char> {
        match self {
            Error::Syntax(error) => error.message_text(),
            Error::Containment(error) => error.message_text(),
        }
    }

    /// The place the diagnostic points at.
    pub open spec fn place(self) -> Location {
        match self {
            Error::Syntax(error) => error.location,
            Error::Containment(error) => error.location,
        }
    }

    /// The words of the diagnostic.
    pub fn message(&self) -> (text: String)
        ensures
            text@ == self.message_text(),
    {
        match self {
            Error::Syntax(error) => error.message(),
            Error::Containment(error) => error.message(),
        }
    }

    /// The place the diagnostic points at.
    pub fn location(&self) -> (location: Location)
        ensures
            location == self.place(),
    {
        match self {
            Error::Syntax(error) => error.location,
            Error::Containment(error) => error.location,
        }
    }
}

} // verus!
