//! Access to a protected route: what each request is answered, or what to ask the mint
//! before it is.
//!
//! ```text
//! HTTP/1.1 402 Payment Required
//! WWW-Authenticate: Payment method="cashu", challenge="creqA…"
//!
//! GET /resource
//! Authorization: Payment method="cashu", token="cashuB…"
//! ```
//!
//! 1. A request without an `Authorization: Payment` header is answered 402 with the challenge.
//! 2. A request with one is decoded and validated. Once the mint has swapped its proofs it is
//!    admitted, together with the [`ValidatedPop`]; whatever fails on the way is answered 400,
//!    or 503 where the mint could not be reached.
//!
//! There is no separate endpoint to pay at: the client retries the URL and method that were
//! answered 402.
use std::sync::Arc;
use vstd::prelude::*;
use vstd::utf8::{encode_utf8, is_ascii_chars, is_ascii_chars_encode_utf8};

use crate::auth_header::{
    latin1, parse_payment_authorization, payment_authorization, AuthParseError, AuthParseErrorView,
    CASHU_METHOD, CHALLENGE_PARAM, METHOD_PARAM, PAYMENT_SCHEME,
};
use crate::challenge::{
    cashu_request, cashu_request_text, decode_token, encode_challenge, is_request_text, presented,
    request_survives, PopRequirement, RequirementView,
};
use crate::codec::is_base64url_char;
use crate::error::{Error, ErrorView};
use crate::mint_client::{MintClientError, MintClientErrorView};
use crate::text::trimmed;
use crate::token::{cashu_token, KeysetId, Proof, ProofView};
use crate::validator::{
    after_keysets, after_swap, answerable, begun, keysets_reply, swap_reply, AwaitingKeysets,
    AwaitingKeysetsView, AwaitingSwap, AwaitingSwapView, PopValidator, ValidatedPop,
    ValidatedPopView, ValidationError, ValidationErrorView,
};

verus! {

/// Status 402 Payment Required.
pub const PAYMENT_REQUIRED: u16 = 402;

/// Status 400 Bad Request.
pub const BAD_REQUEST: u16 = 400;

/// Status 500 Internal Server Error.
pub const INTERNAL_SERVER_ERROR: u16 = 500;

/// Status 503 Service Unavailable.
pub const SERVICE_UNAVAILABLE: u16 = 503;

/// An HTTP response.
#[derive(Debug)]
pub struct Response {
    /// Status code.
    pub status: u16,
    /// Value of the `WWW-Authenticate` header, if the response has one.
    pub www_authenticate: Option<String>,
    /// Body, as plain text.
    pub body: String,
}

/// [`Response`] over sequences of characters.
pub struct ResponseView {
    pub status: u16,
    pub www_authenticate: Option<Seq<char>>,
    pub body: Seq<char>,
}

impl View for Response {
    type V = ResponseView;

    open spec fn view(&self) -> ResponseView {
        ResponseView {
            status: self.status,
            www_authenticate: match self.www_authenticate {
                Some(value) => Some(value@),
                None => None,
            },
            body: self.body@,
        }
    }
}

/// What the middleware needs at request time: the requirement to advertise and the validator for
/// the tokens that answer it.
#[derive(Debug)]
pub struct PopMiddlewareState<M> {
    /// What the verifier requires from the holder.
    pub requirement: PopRequirement,
    /// Validator of the tokens that are presented.
    pub validator: Arc<PopValidator<M>>,
}

impl<M> PopMiddlewareState<M> {
    /// Pairs a requirement with a validator.
    pub fn new(requirement: PopRequirement, validator: PopValidator<M>) -> (r: Self)
        ensures
            r.requirement == requirement,
            *r.validator == validator,
    {
        PopMiddlewareState { requirement, validator: Arc::new(validator) }
    }
}

/// A response with a status, and a message for a body.
pub open spec fn plain_response(status: u16, body: Seq<char>) -> ResponseView {
    ResponseView { status, www_authenticate: None, body }
}

/// A byte that a header value may hold.
pub open spec fn is_header_byte(b: u8) -> bool {
    b >= 32 && b != 127 || b == 9
}

/// A byte of a header value that reads as text: visible ASCII, a space or a tab.
pub open spec fn is_visible_byte(b: u8) -> bool {
    32 <= b < 127 || b == 9
}

/// Whether a header value with these bytes reads as text.
pub open spec fn is_visible(bytes: Seq<u8>) -> bool {
    forall|i: int| 0 <= i < bytes.len() ==> is_visible_byte(#[trigger] bytes[i])
}

/// `http::HeaderValue::from_str`: a text makes a header value if and only if none of its bytes is
/// a control character, tabs excepted.
#[verifier::external_body]
fn is_header_value(text: &str) -> (r: bool)
    ensures
        r == (forall|i: int|
            0 <= i < encode_utf8(text@).len() ==> is_header_byte(#[trigger] encode_utf8(text@)[i])),
{
    http::HeaderValue::from_str(text).is_ok()
}

/// `http::HeaderValue::to_str` of the header value with these bytes: the text, if every byte is
/// visible ASCII, a space or a tab. Bytes that make no header value have none.
#[verifier::external_body]
fn header_text(bytes: &[u8]) -> (r: Option<String>)
    ensures
        r is Some == is_visible(bytes@),
        r matches Some(text) ==> text@ == latin1(bytes@),
{
    match http::HeaderValue::from_bytes(bytes) {
        Ok(value) => value.to_str().ok().map(|text| text.to_string()),
        Err(_) => None,
    }
}

/// The challenge as a header value: `Payment method="cashu", challenge="…"`.
pub open spec fn challenge_header(text: Seq<char>) -> Seq<char> {
    PAYMENT_SCHEME@ + " "@ + METHOD_PARAM@ + "=\""@ + CASHU_METHOD@ + "\", "@ + CHALLENGE_PARAM@
        + "=\""@ + text + "\""@
}

/// The response that asks for payment.
pub open spec fn challenge_reply(req: RequirementView) -> ResponseView {
    ResponseView {
        status: PAYMENT_REQUIRED,
        www_authenticate: Some(challenge_header(cashu_request_text(req.payment_request()))),
        body: Seq::empty(),
    }
}

/// The response to a header that does not parse.
pub open spec fn auth_parse_reply(e: AuthParseErrorView) -> ResponseView {
    plain_response(BAD_REQUEST, "invalid Authorization: Payment header: "@ + e.message())
}

/// The response to a token that does not decode.
pub open spec fn decode_reply(e: ErrorView) -> ResponseView {
    plain_response(
        BAD_REQUEST,
        match e {
            ErrorView::InvalidHeader(_) => "invalid token value: "@,
            ErrorView::DecodeFailed(_) => "decode failed: "@,
            ErrorView::EncodeFailed(_) => "encode failed: "@,
        } + e.message(),
    )
}

/// The response to a token that is not accepted: 503 where the mint could not be reached, so that
/// the client may retry the same token, and 400 where it needs another.
pub open spec fn validation_reply(e: ValidationErrorView) -> ResponseView {
    plain_response(
        if e is MintUnreachable {
            SERVICE_UNAVAILABLE
        } else {
            BAD_REQUEST
        },
        e.message(),
    )
}

proof fn lemma_challenge_header_ascii(text: Seq<char>)
    requires
        is_request_text(text),
    ensures
        is_ascii_chars(challenge_header(text)),
        forall|i: int|
            0 <= i < challenge_header(text).len() ==> ' ' <= #[trigger] challenge_header(
                text,
            )[i] <= '~',
{
    reveal_strlit("creqA");
    lemma_challenge_header_literal(text);
    reveal_strlit("Payment method=\"cashu\", challenge=\"");
    let header = challenge_header(text);
    let start = "Payment method=\"cashu\", challenge=\""@;
    assert forall|i: int| 0 <= i < header.len() implies ' ' <= #[trigger] header[i]
        <= '~' by {
        if i < start.len() {
            assert(header[i] == start[i]);
        } else if i < header.len() - 1 {
            let j = i - start.len();
            assert(header[i] == text[j]);
            if j < 5 {
                assert(text.take(5)[j] == text[j]);
            } else {
                assert(is_base64url_char(text[j]) || text[j] == '=');
            }
        }
    }
}

/// The challenge header, with its fixed part in one piece.
pub(crate) proof fn lemma_challenge_header_literal(text: Seq<char>)
    ensures
        challenge_header(text) == "Payment method=\"cashu\", challenge=\""@ + text + seq!['"'],
{
    reveal_strlit("Payment method=\"cashu\", challenge=\"");
    reveal_strlit("Payment");
    reveal_strlit(" ");
    reveal_strlit("method");
    reveal_strlit("=\"");
    reveal_strlit("cashu");
    reveal_strlit("\", ");
    reveal_strlit("challenge");
    reveal_strlit("\"");
    assert(challenge_header(text) =~= "Payment method=\"cashu\", challenge=\""@ + text + seq!['"']);
}

/// The 402 response with the challenge for a requirement. Whoever reads the challenge finds the
/// requirement in it, wherever its unit and mints survive being written.
pub fn challenge_response(requirement: &PopRequirement) -> (r: Response)
    ensures
        r@ == challenge_reply(requirement@),
        r@.www_authenticate matches Some(header) && exists|text: Seq<char>| #[trigger]
            challenge_header(text) == header && is_request_text(text) && (request_survives(
                requirement@.payment_request(),
            ) ==> cashu_request(text) == Some(requirement@.payment_request())),
{
    let encoded = encode_challenge(requirement);
    let header = PAYMENT_SCHEME.to_string().concat(" ").concat(METHOD_PARAM).concat("=\"").concat(
        CASHU_METHOD,
    ).concat("\", ").concat(CHALLENGE_PARAM).concat("=\"").concat(encoded.as_str()).concat("\"");
    assert(header@ == challenge_header(encoded@));
    proof {
        lemma_challenge_header_ascii(encoded@);
        is_ascii_chars_encode_utf8(header@);
    }
    if is_header_value(header.as_str()) {
        let body = String::new();
        assert(body@ =~= Seq::empty());
        Response { status: PAYMENT_REQUIRED, www_authenticate: Some(header), body }
    } else {
        Response {
            status: INTERNAL_SERVER_ERROR,
            www_authenticate: None,
            body: "failed to encode WWW-Authenticate challenge header".to_string(),
        }
    }
}

/// The response to a header that uses the `Payment` scheme but does not parse.
pub fn auth_parse_error_to_response(e: AuthParseError) -> (r: Response)
    requires
        !(e is UnknownScheme),
    ensures
        r@ == auth_parse_reply(e@),
{
    Response {
        status: BAD_REQUEST,
        www_authenticate: None,
        body: "invalid Authorization: Payment header: ".to_string().concat(e.to_string().as_str()),
    }
}

/// The response to a token that does not decode.
pub fn decode_error_to_response(e: Error) -> (r: Response)
    ensures
        r@ == decode_reply(e@),
{
    let kind = match &e {
        Error::InvalidHeader(_) => "invalid token value: ",
        Error::DecodeFailed(_) => "decode failed: ",
        Error::EncodeFailed(_) => "encode failed: ",
    };
    Response {
        status: BAD_REQUEST,
        www_authenticate: None,
        body: kind.to_string().concat(e.to_string().as_str()),
    }
}

/// The response to a token that is not accepted.
pub fn validation_error_to_response(e: ValidationError) -> (r: Response)
    ensures
        r@ == validation_reply(e@),
{
    let status: u16 = match &e {
        ValidationError::MintUnreachable(_) => SERVICE_UNAVAILABLE,
        ValidationError::UnitMismatch { .. } => BAD_REQUEST,
        ValidationError::MintNotAllowed { .. } => BAD_REQUEST,
        ValidationError::AmountInsufficient { .. } => BAD_REQUEST,
        ValidationError::TokenEmpty => BAD_REQUEST,
        ValidationError::MalformedToken(_) => BAD_REQUEST,
        ValidationError::MintRejectedSwap(_) => BAD_REQUEST,
    };
    Response { status, www_authenticate: None, body: e.to_string() }
}

/// What to do with a request.
#[derive(Debug)]
pub enum Access {
    /// Answer it.
    Respond(Response),
    /// Ask the mint for its keysets, and go on with [`resume_keysets`].
    FetchKeysets(AwaitingKeysets),
    /// Ask the mint to swap proofs, and go on with [`resume_swap`].
    Swap(AwaitingSwap),
    /// Hand it on to the route, together with what was validated.
    Admit(ValidatedPop),
}

/// [`Access`] over sequences.
pub enum AccessView {
    Respond(ResponseView),
    FetchKeysets(AwaitingKeysetsView),
    Swap(AwaitingSwapView),
    Admit(ValidatedPopView),
}

impl View for Access {
    type V = AccessView;

    open spec fn view(&self) -> AccessView {
        match *self {
            Access::Respond(response) => AccessView::Respond(response@),
            Access::FetchKeysets(step) => AccessView::FetchKeysets(step@),
            Access::Swap(step) => AccessView::Swap(step@),
            Access::Admit(pop) => AccessView::Admit(pop@),
        }
    }
}

/// What to do with a request whose `Authorization` header, if it has one, holds these bytes.
pub open spec fn access(authorization: Option<Seq<u8>>, req: RequirementView) -> AccessView {
    match authorization {
        None => AccessView::Respond(challenge_reply(req)),
        Some(bytes) => if !is_visible(bytes) {
            AccessView::Respond(
                plain_response(BAD_REQUEST, "invalid Authorization header encoding"@),
            )
        } else {
            match payment_authorization(latin1(bytes)) {
                Ok(value) => access_for_token(presented(value, cashu_token(trimmed(value))), req),
                Err(AuthParseErrorView::UnknownScheme) => AccessView::Respond(challenge_reply(req)),
                Err(e) => AccessView::Respond(auth_parse_reply(e)),
            }
        },
    }
}

/// What to do with a request whose token decodes to this text, or fails to decode.
pub open spec fn access_for_token(
    token: Result<Seq<char>, ErrorView>,
    req: RequirementView,
) -> AccessView {
    match token {
        Err(e) => AccessView::Respond(decode_reply(e)),
        Ok(text) => match begun(text, req) {
            Err(e) => AccessView::Respond(validation_reply(e)),
            Ok(step) => AccessView::FetchKeysets(step),
        },
    }
}

/// What to do once the mint has answered with its keysets or failed.
pub open spec fn access_after_keysets(
    step: AwaitingKeysetsView,
    reply: Result<Seq<Seq<u8>>, MintClientErrorView>,
) -> AccessView {
    match after_keysets(step, reply) {
        Err(e) => AccessView::Respond(validation_reply(e)),
        Ok(step) => AccessView::Swap(step),
    }
}

/// What to do once the mint has swapped the proofs or failed.
pub open spec fn access_after_swap(
    step: AwaitingSwapView,
    reply: Result<Seq<ProofView>, MintClientErrorView>,
) -> AccessView {
    match after_swap(step, reply) {
        Err(e) => AccessView::Respond(validation_reply(e)),
        Ok(pop) => AccessView::Admit(pop),
    }
}

/// A header that may be missing, taken by view.
pub open spec fn optional_bytes(header: Option<&[u8]>) -> Option<Seq<u8>> {
    match header {
        Some(bytes) => Some(bytes@),
        None => None,
    }
}

/// Decides what to do with a request, given the bytes of its `Authorization` header if it has
/// one.
pub fn require_pop<M>(ctx: &PopMiddlewareState<M>, authorization: Option<&[u8]>) -> (r: Access)
    ensures
        r@ == access(optional_bytes(authorization), ctx.requirement@),
{
    let bytes = match authorization {
        Some(bytes) => bytes,
        None => return Access::Respond(challenge_response(&ctx.requirement)),
    };
    let header = match header_text(bytes) {
        Some(header) => header,
        None => return Access::Respond(
            Response {
                status: BAD_REQUEST,
                www_authenticate: None,
                body: "invalid Authorization header encoding".to_string(),
            },
        ),
    };
    let value = match parse_payment_authorization(header.as_str()) {
        Ok(value) => value,
        Err(e) => return Access::Respond(
            match e {
                AuthParseError::UnknownScheme => challenge_response(&ctx.requirement),
                e => auth_parse_error_to_response(e),
            },
        ),
    };
    let token = match decode_token(value.as_str()) {
        Ok(token) => token,
        Err(e) => return Access::Respond(decode_error_to_response(e)),
    };
    match ctx.validator.validate(&token, &ctx.requirement) {
        Ok(step) => Access::FetchKeysets(step),
        Err(e) => Access::Respond(validation_error_to_response(e)),
    }
}

/// Goes on with the mint's answer to the question for its keysets.
pub fn resume_keysets(step: AwaitingKeysets, reply: Result<Vec<KeysetId>, MintClientError>) -> (r:
    Access)
    requires
        answerable(step@, keysets_reply(reply)),
    ensures
        r@ == access_after_keysets(step@, keysets_reply(reply)),
{
    match step.resume(reply) {
        Ok(step) => Access::Swap(step),
        Err(e) => Access::Respond(validation_error_to_response(e)),
    }
}

/// As [`resume_keysets`], for any answer: `None` where a keyset id in it is shorter than the
/// short id that is looked up.
pub fn try_resume_keysets(
    step: AwaitingKeysets,
    reply: Result<Vec<KeysetId>, MintClientError>,
) -> (r: Option<Access>)
    ensures
        r is Some == answerable(step@, keysets_reply(reply)),
        r matches Some(access) ==> access@ == access_after_keysets(step@, keysets_reply(reply)),
{
    if !step.can_resume(&reply) {
        return None;
    }
    Some(resume_keysets(step, reply))
}

/// Goes on with the mint's answer to the request for a swap.
pub fn resume_swap(step: AwaitingSwap, reply: Result<Vec<Proof>, MintClientError>) -> (r: Access)
    ensures
        r@ == access_after_swap(step@, swap_reply(reply)),
{
    match step.resume(reply) {
        Ok(pop) => Access::Admit(pop),
        Err(e) => Access::Respond(validation_error_to_response(e)),
    }
}

} // verus!
