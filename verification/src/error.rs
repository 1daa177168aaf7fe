//! The one way in which the adapter refuses a request.
use vstd::prelude::*;

verus! {

/// Why the adapter could not do what it was asked to.
#[derive(Debug, PartialEq, Eq)]
pub enum AdapterError {
    /// The platform does not support the request; the text says which part of it.
    NotSupported(String),
}

impl View for AdapterError {
    type V = Seq<char>;

    open spec fn view(&self) -> Seq<char> {
        self->NotSupported_0@
    }
}

impl AdapterError {
    /// An error that carries `text`.
    pub fn not_supported(text: &str) -> (error: AdapterError)
        ensures
            error@ == text@,
    {
        AdapterError::NotSupported(text.to_owned())
    }

    /// The text that the error carries.
    pub fn text(&self) -> (text: &str)
        ensures
            text@ == self@,
    {
        match self {
            AdapterError::NotSupported(text) => text.as_str(),
        }
    }
}

/// An error says the text that it was made from.
pub proof fn law_error_keeps_its_text(text: String)
    ensures
        AdapterError::NotSupported(text)@ == text@,
{
}

} // verus!
