//! The error type of the library.

use vstd::prelude::*;
use vstd::string::StringExecFns;

use crate::base::text;
use crate::base::types::LogPos;

verus! {

/// What can go wrong in any layer.
#[derive(Debug)]
pub enum RelosError {
    Sealed(LogPos),
    Trimmed(LogPos),
    EndOfLog,
    VersionMismatch { expected: u64, actual: u64 },
    Serialization(String),
    Store(String),
    NotFound(String),
    InvalidOperation(String),
    Io(String),
    Internal(String),
}

/// An error with its text as a sequence of characters.
#[verifier::ext_equal]
pub enum ErrorView {
    Sealed(LogPos),
    Trimmed(LogPos),
    EndOfLog,
    VersionMismatch { expected: u64, actual: u64 },
    Serialization(Seq<char>),
    Store(Seq<char>),
    NotFound(Seq<char>),
    InvalidOperation(Seq<char>),
    Io(Seq<char>),
    Internal(Seq<char>),
}

impl ErrorView {
    /// The text in which the error is reported.
    pub open spec fn text(self) -> Seq<char> {
        match self {
            ErrorView::Sealed(pos) => "log sealed at position "@ + text::decimal_text(pos as nat),
            ErrorView::Trimmed(pos) => "position "@ + text::decimal_text(pos as nat)
                + " has been trimmed"@,
            ErrorView::EndOfLog => "end of log reached"@,
            ErrorView::VersionMismatch { expected, actual } => "version mismatch: expected "@
                + text::decimal_text(expected as nat) + ", got "@ + text::decimal_text(
                actual as nat,
            ),
            ErrorView::Serialization(m) => "serialization error: "@ + m,
            ErrorView::Store(m) => "store error: "@ + m,
            ErrorView::NotFound(m) => "not found: "@ + m,
            ErrorView::InvalidOperation(m) => "invalid operation: "@ + m,
            ErrorView::Io(m) => "io error: "@ + m,
            ErrorView::Internal(m) => "internal error: "@ + m,
        }
    }
}

impl View for RelosError {
    type V = ErrorView;

    open spec fn view(&self) -> ErrorView {
        match self {
            RelosError::Sealed(pos) => ErrorView::Sealed(*pos),
            RelosError::Trimmed(pos) => ErrorView::Trimmed(*pos),
            RelosError::EndOfLog => ErrorView::EndOfLog,
            RelosError::VersionMismatch { expected, actual } => ErrorView::VersionMismatch {
                expected: *expected,
                actual: *actual,
            },
            RelosError::Serialization(m) => ErrorView::Serialization(m@),
            RelosError::Store(m) => ErrorView::Store(m@),
            RelosError::NotFound(m) => ErrorView::NotFound(m@),
            RelosError::InvalidOperation(m) => ErrorView::InvalidOperation(m@),
            RelosError::Io(m) => ErrorView::Io(m@),
            RelosError::Internal(m) => ErrorView::Internal(m@),
        }
    }
}

impl Clone for RelosError {
    fn clone(&self) -> (copy: Self)
        ensures
            copy@ == self@,
    {
        match self {
            RelosError::Sealed(pos) => RelosError::Sealed(*pos),
            RelosError::Trimmed(pos) => RelosError::Trimmed(*pos),
            RelosError::EndOfLog => RelosError::EndOfLog,
            RelosError::VersionMismatch { expected, actual } => RelosError::VersionMismatch {
                expected: *expected,
                actual: *actual,
            },
            RelosError::Serialization(m) => RelosError::Serialization(m.clone()),
            RelosError::Store(m) => RelosError::Store(m.clone()),
            RelosError::NotFound(m) => RelosError::NotFound(m.clone()),
            RelosError::InvalidOperation(m) => RelosError::InvalidOperation(m.clone()),
            RelosError::Io(m) => RelosError::Io(m.clone()),
            RelosError::Internal(m) => RelosError::Internal(m.clone()),
        }
    }
}

impl RelosError {
    /// The text in which the error is reported.
    pub fn message(&self) -> (m: String)
        ensures
            m@ == self@.text(),
    {
        match self {
            RelosError::Sealed(pos) => "log sealed at position ".to_owned().concat(
                text::decimal(*pos).as_str(),
            ),
            RelosError::Trimmed(pos) => "position ".to_owned().concat(
                text::decimal(*pos).as_str(),
            ).concat(" has been trimmed"),
            RelosError::EndOfLog => "end of log reached".to_owned(),
            RelosError::VersionMismatch { expected, actual } => "version mismatch: expected ".to_owned().concat(
                text::decimal(*expected).as_str(),
            ).concat(", got ").concat(text::decimal(*actual).as_str()),
            RelosError::Serialization(m) => "serialization error: ".to_owned().concat(m.as_str()),
            RelosError::Store(m) => "store error: ".to_owned().concat(m.as_str()),
            RelosError::NotFound(m) => "not found: ".to_owned().concat(m.as_str()),
            RelosError::InvalidOperation(m) => "invalid operation: ".to_owned().concat(m.as_str()),
            RelosError::Io(m) => "io error: ".to_owned().concat(m.as_str()),
            RelosError::Internal(m) => "internal error: ".to_owned().concat(m.as_str()),
        }
    }
}

} // verus!
