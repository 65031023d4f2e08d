//! The error type of the library.
use vstd::prelude::*;

verus! {

/// What went wrong. Each variant carries the text that names the offending
/// input or the underlying failure.
#[derive(Debug)]
pub enum K7zError {
    Io(String),
    UnsupportedFormat(String),
    InvalidInput(String),
    PathTraversal(String),
    AlreadyExists(String),
    Other(String),
}

/// The variant of a [`K7zError`], without its text.
#[derive(Clone, Copy, Debug, PartialEq, Eq, Structural)]
pub enum ErrorKind {
    Io,
    UnsupportedFormat,
    InvalidInput,
    PathTraversal,
    AlreadyExists,
    Other,
}

impl View for K7zError {
    type V = (ErrorKind, Seq<char>);

    open spec fn view(&self) -> (ErrorKind, Seq<char>) {
        match self {
            K7zError::Io(s) => (ErrorKind::Io, s@),
            K7zError::UnsupportedFormat(s) => (ErrorKind::UnsupportedFormat, s@),
            K7zError::InvalidInput(s) => (ErrorKind::InvalidInput, s@),
            K7zError::PathTraversal(s) => (ErrorKind::PathTraversal, s@),
            K7zError::AlreadyExists(s) => (ErrorKind::AlreadyExists, s@),
            K7zError::Other(s) => (ErrorKind::Other, s@),
        }
    }
}

/// The message that an error shows: a fixed prefix per variant, then its text.
pub open spec fn error_message(e: K7zError) -> Seq<char> {
    match e {
        K7zError::Io(s) => "i/o error: "@ + s@,
        K7zError::UnsupportedFormat(s) => "unsupported format: "@ + s@,
        K7zError::InvalidInput(s) => "invalid input: "@ + s@,
        K7zError::PathTraversal(s) => "unsafe archive path: "@ + s@,
        K7zError::AlreadyExists(s) => "entry already exists: "@ + s@,
        K7zError::Other(s) => s@,
    }
}

impl K7zError {
    /// The message of this error, as it is shown to the user.
    pub fn message(&self) -> (m: String)
        ensures
            m@ == error_message(*self),
    {
        match self {
            K7zError::Io(s) => String::from_str("i/o error: ").concat(s.as_str()),
            K7zError::UnsupportedFormat(s) => String::from_str("unsupported format: ").concat(
                s.as_str(),
            ),
            K7zError::InvalidInput(s) => String::from_str("invalid input: ").concat(s.as_str()),
            K7zError::PathTraversal(s) => String::from_str("unsafe archive path: ").concat(
                s.as_str(),
            ),
            K7zError::AlreadyExists(s) => String::from_str("entry already exists: ").concat(
                s.as_str(),
            ),
            K7zError::Other(s) => s.clone(),
        }
    }
}

} // verus!
