//! Laws of the challenge and of the token that answers it.
use vstd::prelude::*;

use crate::challenge::{
    cashu_request, presented, request_survives, PaymentRequestView,
    RequirementView,
};
use crate::currency::{cashu_unit, cashu_unit_text, unit_survives, UnitView};
use crate::error::ErrorView;
use crate::middleware::challenge_header;
use crate::mint_url::cashu_mint_url;
use crate::text::{is_white_space, str_debug};
use crate::text_laws::{is_blank_text, trimming_leaves_the_middle};

verus! {

/// The payment request of a requirement carries each of its fields as it is, however many mints
/// there are; it has no transports and no spending condition.
pub proof fn requests_carry_the_requirement(req: RequirementView)
    ensures
        req.payment_request().mints == req.mints,
        req.payment_request().mints.len() == req.mints.len(),
        req.payment_request().amount == Some(req.amount),
        req.payment_request().unit == Some(req.unit),
        req.payment_request().single_use == Some(req.single_use),
        req.payment_request().payment_id == req.payment_id,
        req.payment_request().description == req.description,
        req.payment_request().transports.len() == 0,
        req.payment_request().nut10 is None,
{
}

/// Whoever reads a challenge that reads back finds in it the mints, the amount, the unit and all
/// else that is required.
pub proof fn challenges_carry_the_requirement(req: RequirementView, text: Seq<char>)
    requires
        cashu_request(text) == Some(req.payment_request()),
    ensures
        cashu_request(text) matches Some(read) && read.mints == req.mints && read.amount == Some(
            req.amount,
        ) && read.unit == Some(req.unit) && read.single_use == Some(req.single_use)
            && read.payment_id == req.payment_id && read.description == req.description
            && read.transports.len() == 0 && read.nut10 is None,
{
}

/// Requirements that differ in anything ask with different payment requests.
pub proof fn different_requirements_ask_differently(one: RequirementView, other: RequirementView)
    ensures
        one.payment_request() == other.payment_request() ==> one.mints == other.mints && one.amount
            == other.amount && one.unit == other.unit && one.single_use == other.single_use
            && one.payment_id == other.payment_id && one.description == other.description,
{
}

/// A request survives being written if its unit does and each of its mints is normalised to
/// itself, and not otherwise: nothing else about it matters.
pub proof fn requests_survive_with_unit_and_mints(request: PaymentRequestView)
    ensures
        request_survives(request) <==> (request.unit matches Some(unit) ==> unit_survives(unit))
            && forall|i: int|
            0 <= i < request.mints.len() ==> cashu_mint_url(#[trigger] request.mints[i]) == Ok::<
                _,
                Seq<char>,
            >(request.mints[i]),
{
}

/// Built-in units survive being written; so do custom ones whose name is made of small letters,
/// digits and underscores and is not that of a built-in unit. Any other survives if and only if
/// the codec reads from what it writes what was written.
pub proof fn units_survive(name: Seq<char>)
    ensures
        unit_survives(UnitView::Sat) && unit_survives(UnitView::Msat) && unit_survives(
            UnitView::Usd,
        ) && unit_survives(UnitView::Eur) && unit_survives(UnitView::Auth),
        (forall|i: int|
            0 <= i < name.len() ==> ('a' <= #[trigger] name[i] <= 'z' || '0' <= name[i] <= '9'
                || name[i] == '_')) && name != "sat"@ && name != "msat"@ && name != "usd"@ && name
            != "eur"@ && name != "auth"@ ==> unit_survives(UnitView::Custom(name)),
        cashu_unit(cashu_unit_text(UnitView::Custom(name))) == Ok::<_, Seq<char>>(
            UnitView::Custom(name),
        ) ==> unit_survives(UnitView::Custom(name)),
{
}

/// The challenge header is the payment request between quotes, behind scheme and method.
pub proof fn the_challenge_header_quotes_the_request(text: Seq<char>)
    ensures
        challenge_header(text) == "Payment method=\"cashu\", challenge=\""@ + text + "\""@,
{
    reveal_strlit("\"");
    crate::middleware::lemma_challenge_header_literal(text);
    assert("\""@ =~= seq!['"']);
}

/// A text that starts with `cashuA` or `cashuB` and decodes is the token that was presented, and
/// one that does not decode is refused with the codec's message, whatever its length and whatever
/// whitespace stands around it.
pub proof fn tokens_with_a_known_prefix_are_decoded(
    before: Seq<char>,
    version: char,
    payload: Seq<char>,
    after: Seq<char>,
    message: Seq<char>,
)
    requires
        is_blank_text(before),
        is_blank_text(after),
        version == 'A' || version == 'B',
        payload.len() > 0 ==> !is_white_space(payload.last()),
    ensures
        presented(
            before + (seq!['c', 'a', 's', 'h', 'u', version] + payload) + after,
            Ok(()),
        ) == Ok::<_, ErrorView>(seq!['c', 'a', 's', 'h', 'u', version] + payload),
        presented(
            before + (seq!['c', 'a', 's', 'h', 'u', version] + payload) + after,
            Err(message),
        ) == Err::<Seq<char>, _>(ErrorView::DecodeFailed(message)),
{
    reveal_strlit("cashuA");
    reveal_strlit("cashuB");
    let text = seq!['c', 'a', 's', 'h', 'u', version] + payload;
    trimming_leaves_the_middle(before, text, after);
    assert(text.take(6) =~= seq!['c', 'a', 's', 'h', 'u', version]);
    if version == 'A' {
        assert(text.take(6) =~= "cashuA"@);
    } else {
        assert(text.take(6) =~= "cashuB"@);
    }
}

/// A text that starts with neither `cashuA` nor `cashuB` is refused for that, with its first eight
/// characters, whether or not it would decode.
pub proof fn tokens_without_a_known_prefix_are_refused(
    before: Seq<char>,
    text: Seq<char>,
    after: Seq<char>,
    decoded: Result<(), Seq<char>>,
)
    requires
        is_blank_text(before),
        is_blank_text(after),
        text.len() > 0 ==> !is_white_space(text[0]) && !is_white_space(text.last()),
        !(text.len() >= 6 && text[0] == 'c' && text[1] == 'a' && text[2] == 's' && text[3] == 'h'
            && text[4] == 'u' && (text[5] == 'A' || text[5] == 'B')),
    ensures
        presented(before + text + after, decoded) == Err::<Seq<char>, _>(
            ErrorView::InvalidHeader(
                "expected cashuA/cashuB prefix, got "@ + str_debug(
                    text.take(
                        if text.len() < 8 {
                            text.len() as int
                        } else {
                            8
                        },
                    ),
                ),
            ),
        ),
{
    reveal_strlit("cashuA");
    reveal_strlit("cashuB");
    trimming_leaves_the_middle(before, text, after);
    if text.len() >= 6 {
        let start = text.take(6);
        assert(start[0] == text[0] && start[1] == text[1] && start[2] == text[2] && start[3]
            == text[3] && start[4] == text[4] && start[5] == text[5]);
        assert("cashuA"@[0] == 'c' && "cashuB"@[0] == 'c');
    }
    if text.len() <= 8 {
        assert(text.take(text.len() as int) =~= text);
    }
}

} // verus!
