//! Passwords kept in memory that is wiped when they are dropped.
use vstd::prelude::*;

use zeroize::Zeroizing;

verus! {

/// A secret, such as a password, held in a `zeroize::Zeroizing<String>` so
/// that its memory is wiped when it is dropped. The wrapper is private; what
/// the secret holds is `secret_text`.
#[verifier::external_body]
#[derive(Debug)]
pub struct SecretString {
    inner: Zeroizing<String>,
}

/// The text that a secret holds.
pub uninterp spec fn secret_text(s: SecretString) -> Seq<char>;

impl View for SecretString {
    type V = Seq<char>;

    open spec fn view(&self) -> Seq<char> {
        secret_text(*self)
    }
}

impl SecretString {
    /// A secret holding `raw`: `zeroize::Zeroizing::new` keeps the string it
    /// is given as it is.
    #[verifier::external_body]
    pub fn new(raw: &str) -> (s: SecretString)
        ensures
            secret_text(s) == raw@,
    {
        SecretString { inner: Zeroizing::new(raw.to_string()) }
    }

    /// The text of the secret, read through `Zeroizing`'s `Deref`, which
    /// hands out the string it holds.
    #[verifier::external_body]
    pub fn as_str(&self) -> (s: &str)
        ensures
            s@ == secret_text(*self),
    {
        self.inner.as_str()
    }
}

impl Clone for SecretString {
    /// A second secret holding the same text, in memory of its own.
    fn clone(&self) -> (s: SecretString)
        ensures
            secret_text(s) == secret_text(*self),
    {
        SecretString::new(self.as_str())
    }
}

impl From<String> for SecretString {
    /// A secret holding `value`.
    fn from(value: String) -> (s: SecretString)
        ensures
            secret_text(s) == value@,
    {
        SecretString::new(value.as_str())
    }
}

impl vstd::std_specs::convert::FromSpecImpl<String> for SecretString {
    /// Two secrets with the same text need not be the same value, so `from`
    /// is described by its own `ensures` alone.
    open spec fn obeys_from_spec() -> bool {
        false
    }

    open spec fn from_spec(v: String) -> SecretString {
        vstd::pervasive::arbitrary()
    }
}

} // verus!
