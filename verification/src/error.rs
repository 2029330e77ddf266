//! Errors at the boundary where challenges are encoded and tokens decoded.
//!
//! Messages of the underlying codecs are carried as text, so that callers can match on the
//! variants without knowing those codecs.
use vstd::prelude::*;

verus! {

/// Errors of the challenge and token codecs.
#[derive(Debug)]
pub enum Error {
    /// The value is structurally invalid: a missing or unknown token prefix.
    InvalidHeader(String),
    /// The prefix is known but the payload does not decode.
    DecodeFailed(String),
    /// A payment request could not be encoded.
    EncodeFailed(String),
}

/// [`Error`] over sequences of characters.
pub enum ErrorView {
    InvalidHeader(Seq<char>),
    DecodeFailed(Seq<char>),
    EncodeFailed(Seq<char>),
}

impl View for Error {
    type V = ErrorView;

    open spec fn view(&self) -> ErrorView {
        match *self {
            Error::InvalidHeader(m) => ErrorView::InvalidHeader(m@),
            Error::DecodeFailed(m) => ErrorView::DecodeFailed(m@),
            Error::EncodeFailed(m) => ErrorView::EncodeFailed(m@),
        }
    }
}

impl ErrorView {
    /// The message for people.
    pub open spec fn message(self) -> Seq<char> {
        match self {
            ErrorView::InvalidHeader(m) => "invalid X-Cashu header: "@ + m,
            ErrorView::DecodeFailed(m) => "failed to decode token: "@ + m,
            ErrorView::EncodeFailed(m) => "failed to encode challenge: "@ + m,
        }
    }
}

impl Error {
    /// The message for people.
    pub fn to_string(&self) -> (r: String)
        ensures
            r@ == self@.message(),
    {
        match self {
            Error::InvalidHeader(m) => "invalid X-Cashu header: ".to_string().concat(m.as_str()),
            Error::DecodeFailed(m) => "failed to decode token: ".to_string().concat(m.as_str()),
            Error::EncodeFailed(m) => "failed to encode challenge: ".to_string().concat(m.as_str()),
        }
    }
}

} // verus!
