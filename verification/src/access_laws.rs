//! Laws of validation and of access: what holds of every request, whatever the mint says.
use vstd::prelude::*;
use vstd::utf8::{encode_utf8, is_ascii_chars};

use crate::auth_header::{
    after_scheme, latin1, params, scheme, value_of, ParamView, CASHU_METHOD, CHALLENGE_PARAM,
    COMMA, METHOD_PARAM, PAYMENT_SCHEME, SP,
};
use crate::auth_laws::{
    bytes_of, cashu_credentials, escaped, is_param, is_param_name, is_text_char,
    lemma_byte_char, lemma_credentials_visible, payment_header, payment_header_reads_back, presented_token_reads_back, rendered, rendered_param,
    trimming_ignores_padding,
};
use crate::challenge::{is_request_text, presented, RequirementView};
use crate::codec::is_base64url_char;
use crate::currency::{is_plain_unit_name, unit_survives, UnitView};
use crate::middleware::{
    challenge_header, challenge_reply, access, access_after_keysets, access_after_swap, access_for_token,
    is_visible, is_visible_byte, lemma_challenge_header_literal, validation_reply, AccessView,
    BAD_REQUEST, PAYMENT_REQUIRED, SERVICE_UNAVAILABLE,
};
use crate::mint_client::MintClientErrorView;
use crate::text::{is_white_space, same_ignoring_case, trimmed};
use crate::token::{
    all_amounts, amounts_of, cashu_token, cashu_token_groups, cashu_token_mint,
    cashu_token_proofs, cashu_token_unit, total, ProofView,
};
use crate::validator::{
    after_keysets, after_swap, allowed, begun, mint_failure, AwaitingKeysetsView,
    AwaitingSwapView, ValidatedPopView, ValidationErrorView,
};

verus! {

/// How the validation of a token ends, given what the mint says to each question it is asked.
pub open spec fn validation(
    token: Seq<char>,
    req: RequirementView,
    keysets: Result<Seq<Seq<u8>>, MintClientErrorView>,
    swapped: Result<Seq<ProofView>, MintClientErrorView>,
) -> Result<ValidatedPopView, ValidationErrorView> {
    match begun(token, req) {
        Err(e) => Err(e),
        Ok(step) => match after_keysets(step, keysets) {
            Err(e) => Err(e),
            Ok(step) => after_swap(step, swapped),
        },
    }
}

/// A token begins its validation if and only if it fits the requirement: it has the unit of the
/// requirement and one mint, which is allowed; it holds proofs, and they are worth at least the
/// required amount, in a total that can be counted.
pub proof fn validation_begins_for_what_fits(token: Seq<char>, req: RequirementView)
    ensures
        begun(token, req) is Ok <==> {
            let amounts = all_amounts(cashu_token_groups(token));
            &&& cashu_token_unit(token) == Some(req.unit)
            &&& cashu_token_mint(token) matches Ok(mint) && allowed(req.mints, mint)
            &&& amounts.len() > 0
            &&& req.amount <= total(amounts) <= u64::MAX
        },
{
}

/// A requirement without mints allows any mint.
pub proof fn no_mints_means_any_mint(token: Seq<char>, req: RequirementView)
    requires
        req.mints.len() == 0,
    ensures
        !(begun(token, req) matches Err(ValidationErrorView::MintNotAllowed { .. })),
{
}

/// A token that does not fit fails for that reason, whatever the mint would say; and the reason
/// is never the mint's.
pub proof fn structural_failures_do_not_involve_the_mint(
    token: Seq<char>,
    req: RequirementView,
    keysets: Result<Seq<Seq<u8>>, MintClientErrorView>,
    swapped: Result<Seq<ProofView>, MintClientErrorView>,
)
    ensures
        begun(token, req) matches Err(e) ==> validation(token, req, keysets, swapped) == Err::<
            ValidatedPopView,
            _,
        >(e) && !(e is MintUnreachable) && !(e is MintRejectedSwap),
{
}

/// Where the mint does not hand out its keysets, or the proofs cannot be worked out from them, no
/// swap is attempted: what the mint would say to one does not matter.
pub proof fn no_swap_without_proofs(
    token: Seq<char>,
    req: RequirementView,
    keysets: Result<Seq<Seq<u8>>, MintClientErrorView>,
    one: Result<Seq<ProofView>, MintClientErrorView>,
    other: Result<Seq<ProofView>, MintClientErrorView>,
)
    requires
        keysets matches Ok(ids) ==> cashu_token_proofs(token, ids) is Err,
    ensures
        validation(token, req, keysets, one) == validation(token, req, keysets, other),
        validation(token, req, keysets, one) is Err,
{
}

/// What the mint says surfaces as it was said: an unreachable mint as `MintUnreachable` and a
/// refusal as `MintRejectedSwap`, each with the mint's message, at either question; and neither
/// of the two arises in any other way.
pub proof fn mint_failures_surface(
    token: Seq<char>,
    req: RequirementView,
    keysets: Result<Seq<Seq<u8>>, MintClientErrorView>,
    swapped: Result<Seq<ProofView>, MintClientErrorView>,
    failure: MintClientErrorView,
)
    ensures
        validation(token, req, keysets, swapped) == Err::<ValidatedPopView, _>(
            mint_failure(failure),
        ) <==> begun(token, req) is Ok && match keysets {
            Err(e) => e == failure,
            Ok(ids) => cashu_token_proofs(token, ids) is Ok && swapped == Err::<Seq<ProofView>, _>(
                failure,
            ),
        },
{
}

/// What is validated is what was required: the unit of the requirement, an allowed mint, the one
/// that the token names; with the proofs that the mint handed out and their total.
pub proof fn validated_pop_matches_the_requirement(
    token: Seq<char>,
    req: RequirementView,
    keysets: Result<Seq<Seq<u8>>, MintClientErrorView>,
    swapped: Result<Seq<ProofView>, MintClientErrorView>,
)
    ensures
        validation(token, req, keysets, swapped) matches Ok(pop) ==> {
            &&& pop.unit == req.unit
            &&& cashu_token_unit(token) == Some(pop.unit)
            &&& cashu_token_mint(token) == Ok::<_, Seq<char>>(pop.mint_url)
            &&& allowed(req.mints, pop.mint_url)
            &&& keysets is Ok
            &&& swapped == Ok::<_, MintClientErrorView>(pop.new_proofs)
            &&& pop.amount == total(amounts_of(pop.new_proofs))
        },
{
}

/// The proofs that go to the mint are worth what was required, given that working them out kept
/// the amounts of the token; and a mint that hands out proofs of the same amounts leaves the
/// verifier with no less.
pub proof fn swapped_proofs_are_worth_enough(
    token: Seq<char>,
    req: RequirementView,
    step: AwaitingSwapView,
    new_proofs: Seq<ProofView>,
)
    requires
        begun(token, req) is Ok,
        amounts_of(step.proofs) == all_amounts(cashu_token_groups(token)),
    ensures
        step.proofs.len() > 0,
        total(amounts_of(step.proofs)) >= req.amount,
        amounts_of(new_proofs) == amounts_of(step.proofs) ==> (after_swap(
            step,
            Ok(new_proofs),
        ) matches Ok(pop) && pop.amount == total(amounts_of(step.proofs)) && pop.amount
            >= req.amount),
{
    assert(amounts_of(step.proofs).len() == step.proofs.len());
}

/// A header of another scheme counts as no attempt: the request is answered as if it had no
/// `Authorization` header.
pub proof fn other_schemes_count_as_no_attempt(bytes: Seq<u8>, req: RequirementView)
    requires
        is_visible(bytes),
        !same_ignoring_case(scheme(latin1(bytes)), PAYMENT_SCHEME@),
    ensures
        access(Some(bytes), req) == access(None, req),
        access(None, req) == AccessView::Respond(challenge_reply(req)),
{
}

/// Payment is asked for, with status 402 and the challenge, if and only if it was not attempted:
/// there is no `Authorization` header, or one of another scheme.
pub proof fn payment_is_asked_for_without_an_attempt(
    authorization: Option<Seq<u8>>,
    req: RequirementView,
)
    ensures
        (access(authorization, req) matches AccessView::Respond(response) && response.status
            == PAYMENT_REQUIRED) <==> (authorization matches Some(bytes) ==> is_visible(bytes)
            && !same_ignoring_case(scheme(latin1(bytes)), PAYMENT_SCHEME@)),
        access(authorization, req) matches AccessView::Respond(response) ==> (response.status
            == PAYMENT_REQUIRED ==> response == challenge_reply(req)),
{
}

/// Every response is a 402 with a challenge, or a 400 or 503 without one. Before the mint is
/// asked anything there is no 503.
pub proof fn responses_are_402_400_or_503(
    authorization: Option<Seq<u8>>,
    req: RequirementView,
    keysets_step: AwaitingKeysetsView,
    keysets: Result<Seq<Seq<u8>>, MintClientErrorView>,
    swap_step: AwaitingSwapView,
    swapped: Result<Seq<ProofView>, MintClientErrorView>,
)
    ensures
        access(authorization, req) matches AccessView::Respond(r) ==> (r.status == PAYMENT_REQUIRED
            && r.www_authenticate is Some) || (r.status == BAD_REQUEST && r.www_authenticate
            is None),
        access_after_keysets(keysets_step, keysets) matches AccessView::Respond(r) ==> (r.status
            == BAD_REQUEST || r.status == SERVICE_UNAVAILABLE) && r.www_authenticate is None,
        access_after_swap(swap_step, swapped) matches AccessView::Respond(r) ==> (r.status == BAD_REQUEST
            || r.status == SERVICE_UNAVAILABLE) && r.www_authenticate is None,
{
}

/// A request is answered 503 if and only if the mint could not be reached.
pub proof fn service_is_unavailable_iff_the_mint_is_unreachable(
    keysets_step: AwaitingKeysetsView,
    keysets: Result<Seq<Seq<u8>>, MintClientErrorView>,
    swap_step: AwaitingSwapView,
    swapped: Result<Seq<ProofView>, MintClientErrorView>,
)
    ensures
        (access_after_keysets(keysets_step, keysets) matches AccessView::Respond(r) && r.status
            == SERVICE_UNAVAILABLE) <==> keysets matches Err(MintClientErrorView::Unreachable(_)),
        (access_after_swap(swap_step, swapped) matches AccessView::Respond(r) && r.status
            == SERVICE_UNAVAILABLE) <==> swapped matches Err(MintClientErrorView::Unreachable(_)),
{
}

/// A request is admitted if and only if the validation of its token succeeds, and with what was
/// validated; otherwise it is answered with the reason.
pub proof fn admission_is_validation(
    token: Seq<char>,
    req: RequirementView,
    keysets: Result<Seq<Seq<u8>>, MintClientErrorView>,
    swapped: Result<Seq<ProofView>, MintClientErrorView>,
)
    ensures
        (match access_for_token(Ok(token), req) {
            AccessView::FetchKeysets(step) => match access_after_keysets(step, keysets) {
                AccessView::Swap(step) => access_after_swap(step, swapped),
                access => access,
            },
            access => access,
        }) == (match validation(token, req, keysets, swapped) {
            Ok(pop) => AccessView::Admit(pop),
            Err(e) => AccessView::Respond(validation_reply(e)),
        }),
{
}

proof fn lemma_escaped_plain(value: Seq<char>)
    requires
        is_request_text(value) || value == CASHU_METHOD@,
    ensures
        is_ascii_chars(value),
        escaped(value) == bytes_of(value),
        latin1(bytes_of(value)) == value,
{
    reveal_strlit("creqA");
    reveal_strlit("cashu");
    assert forall|i: int| 0 <= i < value.len() implies '-' <= #[trigger] value[i] <= 'z' && value[i]
        != '\\' by {
        if is_request_text(value) {
            if i < 5 {
                assert(value.take(5)[i] == value[i]);
            } else {
                assert(is_base64url_char(value[i]) || value[i] == '=');
            }
        }
    }
    lemma_escaped_is_bytes(value);
}

proof fn lemma_escaped_is_bytes(value: Seq<char>)
    requires
        forall|i: int|
            0 <= i < value.len() ==> '-' <= #[trigger] value[i] <= 'z' && value[i] != '\\',
    ensures
        escaped(value) == bytes_of(value),
        latin1(bytes_of(value)) == value,
    decreases value.len(),
{
    if value.len() > 0 {
        let tail = value.skip(1);
        assert forall|i: int| 0 <= i < tail.len() implies '-' <= #[trigger] tail[i] <= 'z'
            && tail[i] != '\\' by {
            assert(tail[i] == value[i + 1]);
        }
        lemma_escaped_is_bytes(tail);
        lemma_byte_char(value[0]);
        assert(bytes_of(value) =~= seq![value[0] as u8] + bytes_of(tail));
        assert(value =~= seq![value[0]] + tail);
        assert forall|i: int| 0 <= i < value.len() implies latin1(bytes_of(value))[i]
            == #[trigger] value[i] by {
            lemma_byte_char(value[i]);
        }
        assert(latin1(bytes_of(value)) =~= value);
    } else {
        assert(escaped(value) =~= bytes_of(value));
        assert(latin1(bytes_of(value)) =~= value);
    }
}

/// The parameters of the challenge: method `cashu` and the payment request.
pub open spec fn challenge_params(text: Seq<char>) -> Seq<ParamView> {
    seq![(METHOD_PARAM@, CASHU_METHOD@), (CHALLENGE_PARAM@, text)]
}

/// The challenge header is a `Payment` header in the grammar of the credentials that answer it: a
/// reader finds the scheme, the method and the payment request in it, and nothing else.
pub proof fn challenge_reads_back(text: Seq<char>)
    requires
        is_request_text(text),
    ensures
        challenge_header(text) == payment_header(challenge_params(text)),
        scheme(challenge_header(text)) == PAYMENT_SCHEME@,
        params(encode_utf8(after_scheme(challenge_header(text)))) == Ok::<_, Seq<char>>(
            challenge_params(text),
        ),
        value_of(challenge_params(text), METHOD_PARAM@) == Some(CASHU_METHOD@),
        value_of(challenge_params(text), CHALLENGE_PARAM@) == Some(text),
{
    reveal_strlit("Payment");
    reveal_strlit("method");
    reveal_strlit("cashu");
    reveal_strlit("challenge");
    reveal_strlit("!#$%&'*+-.^_`|~");
    reveal_strlit("Payment method=\"cashu\", challenge=\"");
    reveal_with_fuel(value_of, 3);
    reveal_with_fuel(rendered, 3);
    let ps = challenge_params(text);
    assert(is_param_name(METHOD_PARAM@));
    assert(is_param_name(CHALLENGE_PARAM@));
    lemma_escaped_plain(text);
    lemma_escaped_plain(CASHU_METHOD@);
    assert(is_param(ps[0]) && is_param(ps[1]));
    payment_header_reads_back(ps);
    assert(!same_ignoring_case(METHOD_PARAM@, CHALLENGE_PARAM@));
    assert(!same_ignoring_case(CHALLENGE_PARAM@, METHOD_PARAM@));
    assert(ps.skip(1)[0] == ps[1]);
    lemma_challenge_header_literal(text);
    lemma_rendered_challenge(text);
}

proof fn lemma_rendered_challenge(text: Seq<char>)
    requires
        is_request_text(text),
        escaped(text) == bytes_of(text),
        latin1(bytes_of(text)) == text,
    ensures
        challenge_header(text) == payment_header(challenge_params(text)),
{
    reveal_strlit("Payment");
    reveal_strlit("method");
    reveal_strlit("cashu");
    reveal_strlit("challenge");
    reveal_strlit("Payment method=\"cashu\", challenge=\"");
    reveal_with_fuel(rendered, 3);
    lemma_escaped_plain(CASHU_METHOD@);
    lemma_challenge_header_literal(text);
    let ps = challenge_params(text);
    assert(ps.skip(1)[0] == ps[1]);
    assert(ps.skip(1).len() == 1);
    let list = rendered(ps);
    let first = rendered_param(ps[0]);
    let second = rendered_param(ps[1]);
    assert(list == first + seq![COMMA, SP] + second);
    let a = challenge_header(text);
    let b = payment_header(ps);
    assert(first.len() == 14);
    assert(second.len() == 12 + text.len());
    assert(a.len() == b.len());
    assert forall|i: int| 0 <= i < a.len() implies a[i] == b[i] by {
        if 35 <= i < 35 + text.len() {
            assert(a[i] == text[i - 35]);
            assert(b[i] == list[i - 8] as char);
            assert(list[i - 8] == second[i - 24]);
            assert(second[i - 24] == bytes_of(text)[i - 35]);
            assert(latin1(bytes_of(text))[i - 35] == text[i - 35]);
        }
    }
    assert(a =~= b);
}

/// A token presented as `Payment method="cashu", token="…"` is the token that is decoded and
/// validated, in whichever order the parameters stand.
pub proof fn presented_token_is_validated(token: Seq<char>, req: RequirementView)
    requires
        forall|i: int| 0 <= i < token.len() ==> is_text_char(#[trigger] token[i]),
    ensures
        access(Some(bytes_of(payment_header(cashu_credentials(token)))), req) == access_for_token(
            presented(token, cashu_token(trimmed(token))),
            req,
        ),
        access(Some(bytes_of(payment_header(cashu_credentials(token).reverse()))), req)
            == access_for_token(presented(token, cashu_token(trimmed(token))), req),
{
    assert(is_ascii_chars(token));
    presented_token_reads_back(token);
    let ps = cashu_credentials(token);
    lemma_credentials_visible(token, ps);
    lemma_credentials_visible(token, ps.reverse());
    lemma_visible_text(payment_header(ps));
    lemma_visible_text(payment_header(ps.reverse()));
}

proof fn lemma_visible_text(s: Seq<char>)
    requires
        forall|i: int| 0 <= i < s.len() ==> is_text_char(#[trigger] s[i]),
    ensures
        is_visible(bytes_of(s)),
        latin1(bytes_of(s)) == s,
{
    let b = bytes_of(s);
    assert forall|i: int| 0 <= i < b.len() implies is_visible_byte(#[trigger] b[i]) && b[i] as char
        == s[i] by {
        lemma_byte_char(s[i]);
    }
    assert(latin1(b) =~= s);
}

/// Whitespace around a presented token does not matter.
pub proof fn whitespace_around_a_token_does_not_matter(
    before: Seq<char>,
    value: Seq<char>,
    after: Seq<char>,
    decoded: Result<(), Seq<char>>,
)
    requires
        forall|i: int| 0 <= i < before.len() ==> is_white_space(#[trigger] before[i]),
        forall|i: int| 0 <= i < after.len() ==> is_white_space(#[trigger] after[i]),
    ensures
        presented(before + value + after, decoded) == presented(value, decoded),
{
    trimming_ignores_padding(before, value, after);
}

/// A credential's unit, `pop_` and the digits of its expiry, is the same again after it has been
/// written and read.
pub proof fn pop_units_survive(expiry: Seq<char>)
    requires
        forall|i: int| 0 <= i < expiry.len() ==> '0' <= #[trigger] expiry[i] <= '9',
    ensures
        unit_survives(UnitView::Custom("pop_"@ + expiry)),
{
    reveal_strlit("pop_");
    reveal_strlit("sat");
    reveal_strlit("msat");
    reveal_strlit("usd");
    reveal_strlit("eur");
    reveal_strlit("auth");
    let name = "pop_"@ + expiry;
    assert(name[0] == 'p');
    assert forall|i: int| 0 <= i < name.len() implies ('a' <= #[trigger] name[i] <= 'z' || '0'
        <= name[i] <= '9' || name[i] == '_') by {
        if i >= 4 {
            assert(name[i] == expiry[i - 4]);
        }
    }
    assert(is_plain_unit_name(name));
}

} // verus!
