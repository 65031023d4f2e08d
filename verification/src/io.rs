//! Errors of `std::io`, as the library sees them.
use vstd::prelude::*;

use crate::error::{ErrorKind, K7zError};

verus! {

#[verifier::external_type_specification]
#[verifier::external_body]
pub struct ExIoError(std::io::Error);

/// The message of an I/O error, as its `Display` writes it. Nothing is
/// claimed of the text.
#[verifier::external_body]
fn io_error_text(e: &std::io::Error) -> String {
    e.to_string()
}

/// An I/O error as the library's own error, carrying its message.
pub fn io_error(e: &std::io::Error) -> (r: K7zError)
    ensures
        r@.0 == ErrorKind::Io,
{
    K7zError::Io(io_error_text(e))
}

} // verus!
