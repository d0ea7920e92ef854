//! Passwords are held in a container of the `zeroize` crate, which
//! overwrites its storage when it is released. What that container does is
//! taken on trust from the crate's source.

use vstd::prelude::*;
use zeroize::Zeroizing;

verus! {

/// A text that is wiped from memory when the value is dropped. Printing a
/// secret for debugging shows none of its text.
#[derive(Debug)]
#[verifier::external_body]
pub struct Secret {
    inner: Zeroizing<Box<str>>,
}

/// The characters that a secret holds.
pub uninterp spec fn secret_text(secret: Secret) -> Seq<char>;

impl View for Secret {
    type V = Seq<char>;

    open spec fn view(&self) -> Seq<char> {
        secret_text(*self)
    }
}

impl DeepView for Secret {
    type V = Seq<char>;

    open spec fn deep_view(&self) -> Seq<char> {
        secret_text(*self)
    }
}

/// `Zeroizing::new` on the boxed text: the container holds the text it was
/// given.
#[verifier::external_body]
fn wrap(text: String) -> (secret: Secret)
    ensures
        secret_text(secret) == text@,
{
    Secret { inner: Zeroizing::new(text.into_boxed_str()) }
}

/// `Deref` of `Zeroizing`: a look at the text inside, which stays where it
/// is.
#[verifier::external_body]
fn peek(secret: &Secret) -> (text: &str)
    ensures
        text@ == secret_text(*secret),
{
    &secret.inner
}

/// `Clone` of `Zeroizing`: a second container with the same text.
#[verifier::external_body]
fn copy(secret: &Secret) -> (twin: Secret)
    ensures
        secret_text(twin) == secret_text(*secret),
{
    Secret { inner: secret.inner.clone() }
}

impl Secret {
    /// Moves a text into a container that wipes it on release.
    pub fn new(text: String) -> (secret: Secret)
        ensures
            secret@ == text@,
    {
        wrap(text)
    }

    /// The text, for as long as the secret is borrowed.
    pub fn as_str(&self) -> (text: &str)
        ensures
            text@ == self@,
    {
        peek(self)
    }
}

impl Clone for Secret {
    fn clone(&self) -> (twin: Secret)
        ensures
            twin@ == self@,
    {
        copy(self)
    }
}

} // verus!
