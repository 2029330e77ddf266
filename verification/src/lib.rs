//! Verifier for Proof-of-Power credentials: Cashu proofs in a unit `pop_<unix_ts>`, presented
//! over HTTP.
//!
//! A verifier challenges a holder with status 402 and
//! `WWW-Authenticate: Payment method="cashu", challenge="creqA…"`, and accepts the credential on
//! `Authorization: Payment method="cashu", token="cashuB…"`. The token is checked against the
//! [`PopRequirement`] and swapped at the mint that issued it; the verifier keeps the new proofs.
//!
//! - [`auth_header`] reads the credentials. [`grammar_laws`] says what is read from what is
//!   written, [`auth_laws`] and [`case_laws`] what that grammar keeps and what it does not
//!   distinguish.
//! - [`challenge`] writes the challenge and decodes the token that answers it; [`challenge_laws`]
//!   says what a challenge asks and which tokens are taken. [`envelope`] wraps a challenge in
//!   JSON, and [`envelope_laws`] says what is found in an envelope.
//! - [`validator`] takes a token from its structural checks through the two questions to the mint.
//!   [`validation_laws`] says which tokens pass each step, and [`amount_laws`] what they are worth.
//! - [`middleware`] decides what each request is answered. [`response_laws`] says what the answers
//!   are, and [`access_laws`] what holds of all of them.
//! - [`text_laws`] and [`view_laws`] are about texts and about the views that contracts use.
//!
//! Nothing here performs input or output: where a mint has to be asked, a function returns the
//! question and another takes the answer.
use vstd::prelude::*;

pub mod access_laws;
pub mod amount_laws;
pub mod auth_header;
pub mod auth_laws;
pub mod case_laws;
pub mod challenge;
pub mod challenge_laws;
pub mod codec;
pub mod currency;
pub mod envelope;
pub mod envelope_laws;
pub mod error;
pub mod grammar_laws;
pub mod middleware;
pub mod mint_client;
pub mod mint_url;
pub mod response_laws;
pub mod text;
pub mod text_laws;
pub mod token;
pub mod validation_laws;
pub mod validator;
pub mod view_laws;

pub use auth_header::{parse_payment_authorization, AuthParseError};
pub use challenge::{decode_token, encode_challenge, PopRequirement};
pub use currency::CurrencyUnit;
pub use envelope::{decode_request_envelope, encode_request_envelope};
pub use error::Error;
pub use middleware::{require_pop, PopMiddlewareState};
pub use mint_client::MintClientError;
pub use mint_url::MintUrl;
pub use token::{KeysetId, Proof, Token};
pub use validator::{PopValidator, ValidatedPop, ValidationError};

verus! {

/// Placeholder type retained for backwards compatibility.
#[derive(Debug)]
pub struct PopVerifier;

} // verus!
