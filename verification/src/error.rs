//! What a failed rule reports: the kind of failure and where it happened.

use vstd::prelude::*;

verus! {

/// The category of a parse failure.
#[derive(Debug, Clone, Copy, PartialEq, Eq, Structural)]
pub enum ErrorKind {
    /// The input at the reported position is not the literal that the rule
    /// expects there: it holds something else, or it ends.
    UnexpectedToken,
    /// A character class that must match at least one character (or a minimum
    /// number of them) found a character outside the class, or the end of
    /// the input, at the reported position.
    InvalidCharacterClass,
    /// A well-formed number is larger than its field allows; the reported
    /// position is the one just behind the number.
    OutOfRange,
}

/// A parse failure, with the byte offset into the text that was handed to
/// the failing function.
#[derive(Debug, Clone, Copy, PartialEq, Eq, Structural)]
pub struct ParseError {
    pub kind: ErrorKind,
    pub offset: usize,
}

/// The mathematical counterpart of [`ParseError`]: the offset is unbounded.
pub struct Failure {
    pub kind: ErrorKind,
    pub offset: nat,
}

impl ErrorKind {
    /// The name of the kind in words.
    pub open spec fn words(self) -> Seq<char> {
        match self {
            ErrorKind::UnexpectedToken => "unexpected token"@,
            ErrorKind::InvalidCharacterClass => "invalid character class"@,
            ErrorKind::OutOfRange => "out of range"@,
        }
    }

    /// The name of the kind in words, for messages.
    pub fn name(self) -> (r: &'static str)
        ensures
            r@ == self.words(),
    {
        match self {
            ErrorKind::UnexpectedToken => "unexpected token",
            ErrorKind::InvalidCharacterClass => "invalid character class",
            ErrorKind::OutOfRange => "out of range",
        }
    }
}

impl View for ParseError {
    type V = Failure;

    open spec fn view(&self) -> Failure {
        Failure { kind: self.kind, offset: self.offset as nat }
    }
}

impl Failure {
    /// The same failure, seen from a text that begins `by` bytes earlier.
    pub open spec fn shift(self, by: nat) -> Failure {
        Failure { kind: self.kind, offset: self.offset + by }
    }
}

impl ParseError {
    /// The same failure, seen from a text that begins `by` bytes earlier.
    pub fn shift(self, by: usize) -> (r: ParseError)
        requires
            self.offset + by <= usize::MAX,
        ensures
            r@ == self@.shift(by as nat),
    {
        ParseError { kind: self.kind, offset: self.offset + by }
    }
}

} // verus!
