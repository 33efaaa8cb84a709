//! What can go wrong while assembling. Every failure ends the whole
//! assembly and names the token that caused it.

use vstd::prelude::*;
use vstd::string::StringExecFns;

verus! {

/// The kinds of failure.
#[derive(Structural, Clone, Copy, Debug, PartialEq, Eq)]
pub enum ErrorKind {
    /// A literal that takes more than 32 bytes.
    OversizedLiteral,
    /// What follows `0t` is not a decimal number.
    InvalidDecimal,
    /// A token of none of the four categories.
    UnrecognizedToken,
    /// Hex text with a character that is no hex digit, or with an odd number
    /// of digits.
    MalformedHex,
}

/// A failure: its kind and the text of the offending token.
#[derive(Clone, Debug, PartialEq, Eq)]
pub struct AssembleError {
    pub kind: ErrorKind,
    pub token: String,
}

/// A failure as contracts speak of it.
pub struct Failure {
    pub kind: ErrorKind,
    pub token: Seq<char>,
}

impl View for AssembleError {
    type V = Failure;

    open spec fn view(&self) -> Failure {
        Failure { kind: self.kind, token: self.token@ }
    }
}

/// The result of an assembly as contracts speak of it.
pub open spec fn outcome(r: Result<Vec<u8>, AssembleError>) -> Result<Seq<u8>, Failure> {
    match r {
        Ok(bytes) => Ok(bytes@),
        Err(e) => Err(e@),
    }
}

/// The words that describe `kind` at the head of a message.
pub open spec fn kind_text(kind: ErrorKind) -> Seq<char> {
    match kind {
        ErrorKind::OversizedLiteral => "Literal exceeds 32 bytes -> "@,
        ErrorKind::InvalidDecimal => "Invalid decimal value -> "@,
        ErrorKind::UnrecognizedToken => "Unexpected token -> "@,
        ErrorKind::MalformedHex => "Malformed hex -> "@,
    }
}

impl AssembleError {
    /// The failure of `kind` on `token`.
    pub fn new(kind: ErrorKind, token: &str) -> (e: AssembleError)
        ensures
            e@ == (Failure { kind, token: token@ }),
    {
        AssembleError { kind, token: token.to_owned() }
    }

    /// A description for people: the kind in words, then the token.
    pub fn message(&self) -> (text: String)
        ensures
            text@ == kind_text(self.kind) + self.token@,
    {
        let head = match self.kind {
            ErrorKind::OversizedLiteral => "Literal exceeds 32 bytes -> ",
            ErrorKind::InvalidDecimal => "Invalid decimal value -> ",
            ErrorKind::UnrecognizedToken => "Unexpected token -> ",
            ErrorKind::MalformedHex => "Malformed hex -> ",
        };
        let mut text = head.to_owned();
        text.append(self.token.as_str());
        text
    }
}

} // verus!
