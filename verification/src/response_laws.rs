//! Laws of responses: the status and body that each outcome is answered with, and the message
//! that each error has.
use vstd::prelude::*;

use crate::auth_header::{payment_authorization, AuthParseErrorView};
use crate::challenge::{cashu_request_text, presented, RequirementView};
use crate::error::ErrorView;
use crate::grammar_laws::chars;
use crate::middleware::{
    access, access_after_keysets, access_after_swap, access_for_token, auth_parse_reply,
    challenge_header, challenge_reply, decode_reply, is_header_byte, is_visible, validation_reply,
    AccessView, ResponseView,
};
use crate::mint_client::MintClientErrorView;
use crate::mint_url::urls_debug;
use crate::text::{decimal, str_debug, trimmed};
use crate::token::{cashu_token, ProofView};
use crate::validator::{
    after_keysets, after_swap, begun, AwaitingKeysetsView, AwaitingSwapView, ValidationErrorView,
};
use crate::currency::UnitView;

verus! {

/// The messages of errors in the header say which it is, and repeat what was found.
pub proof fn header_errors_say_what_they_are(m: Seq<char>)
    ensures
        AuthParseErrorView::UnknownScheme.message() == "auth scheme is not 'Payment'"@,
        AuthParseErrorView::MissingMethod.message() == "Payment header missing 'method' parameter"@,
        AuthParseErrorView::WrongMethod(m).message()
            == "Payment header method must be 'cashu', got "@ + str_debug(m),
        AuthParseErrorView::MissingToken.message() == "Payment header missing 'token' parameter"@,
        AuthParseErrorView::MalformedParams(m).message() == "malformed Payment auth params: "@ + m,
{
}

/// The messages of codec and mint errors say which it is, and repeat the message they came with.
pub proof fn codec_and_mint_errors_say_what_they_are(m: Seq<char>)
    ensures
        ErrorView::InvalidHeader(m).message() == "invalid X-Cashu header: "@ + m,
        ErrorView::DecodeFailed(m).message() == "failed to decode token: "@ + m,
        ErrorView::EncodeFailed(m).message() == "failed to encode challenge: "@ + m,
        MintClientErrorView::Unreachable(m).message() == "mint unreachable: "@ + m,
        MintClientErrorView::RejectedSwap(m).message() == "mint rejected swap: "@ + m,
{
}

/// The messages of validation errors say which it is, what was found and what was required.
pub proof fn validation_errors_say_what_they_are(
    m: Seq<char>,
    expected: UnitView,
    unit: UnitView,
    mints: Seq<Seq<char>>,
    required: u64,
    amount: u64,
)
    ensures
        (ValidationErrorView::UnitMismatch { expected, got: unit }).message() == "token unit "@
            + unit.debug() + " does not match requirement unit "@ + expected.debug(),
        (ValidationErrorView::MintNotAllowed { got: m, allowed: mints }).message()
            == "token mint "@ + m + " is not in the requirement's allowed mints: "@ + urls_debug(
            mints,
        ),
        (ValidationErrorView::AmountInsufficient { required, got: amount }).message()
            == "token amount "@ + decimal(amount as nat) + " is below required "@ + decimal(
            required as nat,
        ),
        ValidationErrorView::MintRejectedSwap(m).message() == "mint rejected swap: "@ + m,
        ValidationErrorView::MintUnreachable(m).message() == "mint unreachable: "@ + m,
        ValidationErrorView::TokenEmpty.message() == "token contains no proofs"@,
        ValidationErrorView::MalformedToken(m).message() == "malformed token: "@ + m,
{
}

/// A response that says why a request is refused.
pub open spec fn refusal(status: u16, body: Seq<char>) -> ResponseView {
    ResponseView { status, www_authenticate: None, body }
}

/// Each error is answered with its status and its message, whatever the error carries: 503 for an
/// unreachable mint, and 400 for everything else.
pub proof fn errors_are_answered_with_their_message(
    header: AuthParseErrorView,
    m: Seq<char>,
    e: ValidationErrorView,
)
    ensures
        auth_parse_reply(header) == refusal(
            400,
            "invalid Authorization: Payment header: "@ + header.message(),
        ),
        decode_reply(ErrorView::InvalidHeader(m)) == refusal(
            400,
            "invalid token value: "@ + ("invalid X-Cashu header: "@ + m),
        ),
        decode_reply(ErrorView::DecodeFailed(m)) == refusal(
            400,
            "decode failed: "@ + ("failed to decode token: "@ + m),
        ),
        decode_reply(ErrorView::EncodeFailed(m)) == refusal(
            400,
            "encode failed: "@ + ("failed to encode challenge: "@ + m),
        ),
        e is MintUnreachable ==> validation_reply(e) == refusal(503, e.message()),
        !(e is MintUnreachable) ==> validation_reply(e) == refusal(400, e.message()),
{
}

/// The response that asks for payment has status 402, the challenge for the requirement, and no
/// body.
pub proof fn payment_is_asked_for_with_the_challenge(req: RequirementView)
    ensures
        challenge_reply(req).status == 402,
        challenge_reply(req).www_authenticate == Some(
            challenge_header(cashu_request_text(req.payment_request())),
        ),
        challenge_reply(req).body.len() == 0,
{
}

/// A header value reads as text where each of its bytes is visible ASCII, a space or a tab; other
/// bytes but control characters may stand in a header value too.
pub proof fn headers_are_visible_ascii(bytes: Seq<u8>, b: u8)
    ensures
        is_visible(bytes) <==> forall|i: int|
            0 <= i < bytes.len() ==> (0x20 <= #[trigger] bytes[i] <= 0x7e || bytes[i] == 0x09),
        is_header_byte(b) <==> b >= 0x20 && b != 0x7f || b == 0x09,
{
    if is_visible(bytes) {
        assert forall|i: int| 0 <= i < bytes.len() implies (0x20 <= #[trigger] bytes[i] <= 0x7e
            || bytes[i] == 0x09) by {
            assert(crate::middleware::is_visible_byte(bytes[i]));
        }
    }
}

/// A request without a header is asked for payment, and one whose header is no text is refused,
/// wherever in the header the byte stands.
pub proof fn headers_that_are_no_text_are_refused(bytes: Seq<u8>, i: int, req: RequirementView)
    requires
        0 <= i < bytes.len(),
        !(0x20 <= bytes[i] <= 0x7e || bytes[i] == 0x09),
    ensures
        access(None, req) == AccessView::Respond(challenge_reply(req)),
        access(Some(bytes), req) == AccessView::Respond(
            refusal(400, "invalid Authorization header encoding"@),
        ),
{
    headers_are_visible_ascii(bytes, 0);
}

/// A header that is text is answered by what it means: another scheme counts as no attempt, any
/// other error is refused as such, and a token goes on to be decoded and validated.
pub proof fn headers_are_answered_by_what_they_mean(
    bytes: Seq<u8>,
    req: RequirementView,
    value: Seq<char>,
    e: AuthParseErrorView,
)
    requires
        forall|i: int|
            0 <= i < bytes.len() ==> (0x20 <= #[trigger] bytes[i] <= 0x7e || bytes[i] == 0x09),
    ensures
        payment_authorization(chars(bytes)) == Ok::<_, AuthParseErrorView>(value) ==> access(
            Some(bytes),
            req,
        ) == access_for_token(presented(value, cashu_token(trimmed(value))), req),
        payment_authorization(chars(bytes)) == Err::<Seq<char>, _>(e) && e is UnknownScheme
            ==> access(Some(bytes), req) == access(None, req),
        payment_authorization(chars(bytes)) == Err::<Seq<char>, _>(e) && !(e is UnknownScheme)
            ==> access(Some(bytes), req) == AccessView::Respond(
            refusal(400, "invalid Authorization: Payment header: "@ + e.message()),
        ),
{
    headers_are_visible_ascii(bytes, 0);
    assert(crate::auth_header::latin1(bytes) =~= chars(bytes));
}

/// A token that does not decode is refused; one that does is answered by how its validation
/// begins: it is refused for what is wrong, or the mint is asked for its keysets.
pub proof fn tokens_are_answered_by_validation(
    token: Seq<char>,
    undecoded: ErrorView,
    req: RequirementView,
)
    ensures
        access_for_token(Err(undecoded), req) == AccessView::Respond(decode_reply(undecoded)),
        begun(token, req) matches Err(e) ==> access_for_token(Ok(token), req)
            == AccessView::Respond(validation_reply(e)),
        begun(token, req) matches Ok(step) ==> access_for_token(Ok(token), req)
            == AccessView::FetchKeysets(step),
{
}

/// The mint's answers lead on to the swap, to admission, or to a refusal with the reason, as
/// validation has it.
pub proof fn answers_of_the_mint_lead_on(
    step: AwaitingKeysetsView,
    keysets: Result<Seq<Seq<u8>>, MintClientErrorView>,
    swap: AwaitingSwapView,
    swapped: Result<Seq<ProofView>, MintClientErrorView>,
)
    ensures
        after_keysets(step, keysets) matches Ok(next) ==> access_after_keysets(step, keysets)
            == AccessView::Swap(next),
        after_keysets(step, keysets) matches Err(e) ==> access_after_keysets(step, keysets)
            == AccessView::Respond(validation_reply(e)),
        after_swap(swap, swapped) matches Ok(pop) ==> access_after_swap(swap, swapped)
            == AccessView::Admit(pop),
        after_swap(swap, swapped) matches Err(e) ==> access_after_swap(swap, swapped)
            == AccessView::Respond(validation_reply(e)),
{
}

} // verus!
