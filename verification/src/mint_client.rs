//! What a mint can answer instead of doing what it was asked.
//!
//! A mint is asked for its keysets and then for a swap. A successful swap proves that the proofs
//! are unexpired and unspent, and yields new proofs under the verifier's secrets.
use vstd::prelude::*;

verus! {

/// Errors of a mint client.
#[derive(Debug)]
pub enum MintClientError {
    /// The mint could not be reached (DNS, TCP, TLS, timeout).
    Unreachable(String),
    /// The mint refused: an expired credential, a spent proof, an invalid signature.
    RejectedSwap(String),
}

/// [`MintClientError`] over sequences of characters.
pub enum MintClientErrorView {
    Unreachable(Seq<char>),
    RejectedSwap(Seq<char>),
}

impl View for MintClientError {
    type V = MintClientErrorView;

    open spec fn view(&self) -> MintClientErrorView {
        match *self {
            MintClientError::Unreachable(m) => MintClientErrorView::Unreachable(m@),
            MintClientError::RejectedSwap(m) => MintClientErrorView::RejectedSwap(m@),
        }
    }
}

impl MintClientErrorView {
    /// The message for people.
    pub open spec fn message(self) -> Seq<char> {
        match self {
            MintClientErrorView::Unreachable(m) => "mint unreachable: "@ + m,
            MintClientErrorView::RejectedSwap(m) => "mint rejected swap: "@ + m,
        }
    }
}

impl MintClientError {
    /// The message for people.
    pub fn to_string(&self) -> (r: String)
        ensures
            r@ == self@.message(),
    {
        match self {
            MintClientError::Unreachable(m) => "mint unreachable: ".to_string().concat(m.as_str()),
            MintClientError::RejectedSwap(m) => "mint rejected swap: ".to_string().concat(
                m.as_str(),
            ),
        }
    }
}

} // verus!
