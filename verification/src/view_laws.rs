//! Laws of the views: what a contract says of a view, it says of the value. No field is left out,
//! no list is cut short, and no two values that differ are taken for one.
use vstd::prelude::*;

use crate::auth_header::{
    authorization_view, latin1, params_view, AuthParseError, AuthParseErrorView,
};
use crate::challenge::{decoded_view, PaymentRequest, PopRequirement};
use crate::codec::{bytes_result, done_result, position_result};
use crate::currency::{unit_result, CurrencyUnit, UnitView};
use crate::envelope::{opened_view, spans_view};
use crate::error::{Error, ErrorView};
use crate::middleware::{optional_bytes, Access, AccessView, Response};
use crate::mint_client::{MintClientError, MintClientErrorView};
use crate::mint_url::{text_result, texts_view, url_result, urls_view, MintUrl};
use crate::text::{is_white_space, optional_text};
use crate::token::{
    amounts_of, bytes_view, groups_view, ids_view, number_result, proofs_result, proofs_view,
    token_result, unit_or_message, KeysetId, Proof, ProofView, Token, TokenGroup,
};
use crate::validator::{
    begun_view, keysets_reply, mint_view, optional_unit, swap_reply, swap_view, validated_view,
    AwaitingKeysets, AwaitingSwap, ValidatedPop, ValidationError, ValidationErrorView,
};

verus! {

/// An optional value is there if its view is.
pub proof fn optional_views(text: String, unit: CurrencyUnit, bytes: &[u8])
    ensures
        optional_text(Some(text)) == Some(text@),
        optional_text(None) is None,
        optional_unit(Some(unit)) == Some(unit@),
        optional_unit(None) is None,
        optional_bytes(Some(bytes)) == Some(bytes@),
        optional_bytes(None) is None,
{
}

/// A list is viewed item by item, all of it and in order.
pub proof fn list_views(
    urls: Seq<MintUrl>,
    texts: Seq<String>,
    ids: Seq<KeysetId>,
    proofs: Seq<Proof>,
    groups: Seq<TokenGroup>,
    bytes: Seq<Vec<u8>>,
    params: Seq<(String, String)>,
    spans: Seq<(usize, usize)>,
)
    ensures
        urls_view(urls).len() == urls.len(),
        forall|i: int| 0 <= i < urls.len() ==> #[trigger] urls_view(urls)[i] == urls[i]@,
        texts_view(texts).len() == texts.len(),
        forall|i: int| 0 <= i < texts.len() ==> #[trigger] texts_view(texts)[i] == texts[i]@,
        ids_view(ids).len() == ids.len(),
        forall|i: int| 0 <= i < ids.len() ==> #[trigger] ids_view(ids)[i] == ids[i]@,
        proofs_view(proofs).len() == proofs.len(),
        forall|i: int| 0 <= i < proofs.len() ==> #[trigger] proofs_view(proofs)[i] == proofs[i]@,
        groups_view(groups).len() == groups.len(),
        forall|i: int| 0 <= i < groups.len() ==> #[trigger] groups_view(groups)[i] == groups[i]@,
        bytes_view(bytes).len() == bytes.len(),
        forall|i: int| 0 <= i < bytes.len() ==> #[trigger] bytes_view(bytes)[i] == bytes[i]@,
        params_view(params).len() == params.len(),
        forall|i: int|
            0 <= i < params.len() ==> #[trigger] params_view(params)[i] == (
                params[i].0@,
                params[i].1@,
            ),
        spans_view(spans).len() == spans.len(),
        forall|i: int|
            0 <= i < spans.len() ==> #[trigger] spans_view(spans)[i] == (
                spans[i].0 as int,
                spans[i].1 as int,
            ),
{
}

/// A proof, a group and a keyset id are viewed whole.
pub proof fn token_views(p: Proof, proofs: Seq<ProofView>, group: TokenGroup, i: int)
    requires
        0 <= i < proofs.len(),
    ensures
        p@.amount == p.amount,
        p@.wire == p.wire@,
        group@.short_id == group.short_id@,
        group@.amounts == group.amounts@,
        amounts_of(proofs).len() == proofs.len(),
        amounts_of(proofs)[i] == proofs[i].amount,
{
}

/// A keyset id is its version and its bytes.
pub proof fn keyset_id_views(id: KeysetId)
    ensures
        id matches KeysetId::V1(bytes) ==> id@ == seq![0u8] + bytes@,
        id matches KeysetId::V2(bytes) ==> id@ == seq![1u8] + bytes@,
{
}

/// Units are told apart, custom ones by their name.
pub proof fn unit_views(unit: CurrencyUnit, other: CurrencyUnit)
    ensures
        unit is Sat <==> unit@ is Sat,
        unit is Msat <==> unit@ is Msat,
        unit is Usd <==> unit@ is Usd,
        unit is Eur <==> unit@ is Eur,
        unit is Auth <==> unit@ is Auth,
        unit matches CurrencyUnit::Custom(name) ==> unit@ == UnitView::Custom(name@),
        unit@ == other@ <==> match (unit, other) {
            (CurrencyUnit::Custom(a), CurrencyUnit::Custom(b)) => a@ == b@,
            (CurrencyUnit::Sat, CurrencyUnit::Sat) => true,
            (CurrencyUnit::Msat, CurrencyUnit::Msat) => true,
            (CurrencyUnit::Usd, CurrencyUnit::Usd) => true,
            (CurrencyUnit::Eur, CurrencyUnit::Eur) => true,
            (CurrencyUnit::Auth, CurrencyUnit::Auth) => true,
            _ => false,
        },
{
}

/// A requirement is viewed field by field.
pub proof fn requirement_views(req: PopRequirement)
    ensures
        req@.unit == req.unit@,
        req@.mints.len() == req.mints@.len(),
        forall|i: int| 0 <= i < req.mints@.len() ==> #[trigger] req@.mints[i] == req.mints@[i]@,
        req@.amount == req.amount,
        req@.single_use == req.single_use,
        req.payment_id is None <==> req@.payment_id is None,
        req.payment_id matches Some(s) ==> req@.payment_id == Some(s@),
        req.description is None <==> req@.description is None,
        req.description matches Some(s) ==> req@.description == Some(s@),
{
}

/// A payment request is viewed field by field.
pub proof fn payment_request_views(r: PaymentRequest)
    ensures
        r.payment_id is None <==> r@.payment_id is None,
        r.payment_id matches Some(s) ==> r@.payment_id == Some(s@),
        r@.amount == r.amount,
        r.unit is None <==> r@.unit is None,
        r.unit matches Some(unit) ==> r@.unit == Some(unit@),
        r@.single_use == r.single_use,
        r@.mints.len() == r.mints@.len(),
        forall|i: int| 0 <= i < r.mints@.len() ==> #[trigger] r@.mints[i] == r.mints@[i]@,
        r.description is None <==> r@.description is None,
        r.description matches Some(s) ==> r@.description == Some(s@),
        r@.transports.len() == r.transports@.len(),
        forall|i: int|
            0 <= i < r.transports@.len() ==> #[trigger] r@.transports[i] == r.transports@[i]@,
        r.nut10 is None <==> r@.nut10 is None,
        r.nut10 matches Some(s) ==> r@.nut10 == Some(s@),
{
}

/// A validated credential is viewed field by field.
pub proof fn validated_views(pop: ValidatedPop)
    ensures
        pop@.new_proofs.len() == pop.new_proofs@.len(),
        forall|i: int|
            0 <= i < pop.new_proofs@.len() ==> #[trigger] pop@.new_proofs[i]
                == pop.new_proofs@[i]@,
        pop@.mint_url == pop.mint_url@,
        pop@.unit == pop.unit@,
        pop@.amount == pop.amount,
{
}

/// A response is viewed field by field, and what is to be done with a request by what it is and
/// what it holds.
pub proof fn response_views(r: Response, access: Access)
    ensures
        r@.status == r.status,
        r@.body == r.body@,
        r.www_authenticate is None <==> r@.www_authenticate is None,
        r.www_authenticate matches Some(value) ==> r@.www_authenticate == Some(value@),
        match access {
            Access::Respond(response) => access@ == AccessView::Respond(response@),
            Access::FetchKeysets(step) => access@ == AccessView::FetchKeysets(step@),
            Access::Swap(step) => access@ == AccessView::Swap(step@),
            Access::Admit(pop) => access@ == AccessView::Admit(pop@),
        },
{
}

/// An error is viewed as what it is, with its message.
pub proof fn error_views(e: Error, m: MintClientError, a: AuthParseError)
    ensures
        match e {
            Error::InvalidHeader(s) => e@ == ErrorView::InvalidHeader(s@),
            Error::DecodeFailed(s) => e@ == ErrorView::DecodeFailed(s@),
            Error::EncodeFailed(s) => e@ == ErrorView::EncodeFailed(s@),
        },
        match m {
            MintClientError::Unreachable(s) => m@ == MintClientErrorView::Unreachable(s@),
            MintClientError::RejectedSwap(s) => m@ == MintClientErrorView::RejectedSwap(s@),
        },
        match a {
            AuthParseError::UnknownScheme => a@ is UnknownScheme,
            AuthParseError::MissingMethod => a@ is MissingMethod,
            AuthParseError::WrongMethod(s) => a@ == AuthParseErrorView::WrongMethod(s@),
            AuthParseError::MissingToken => a@ is MissingToken,
            AuthParseError::MalformedParams(s) => a@ == AuthParseErrorView::MalformedParams(s@),
        },
{
}

/// A validation error is viewed as what it is, with all that it names.
pub proof fn validation_error_views(e: ValidationError)
    ensures
        match e {
            ValidationError::UnitMismatch { expected, got } => e@
                == (ValidationErrorView::UnitMismatch { expected: expected@, got: got@ }),
            ValidationError::MintNotAllowed { got, allowed } => e@
                == (ValidationErrorView::MintNotAllowed { got: got@, allowed: urls_view(allowed@) }),
            ValidationError::AmountInsufficient { required, got } => e@
                == (ValidationErrorView::AmountInsufficient { required, got }),
            ValidationError::MintRejectedSwap(m) => e@ == ValidationErrorView::MintRejectedSwap(
                m@,
            ),
            ValidationError::MintUnreachable(m) => e@ == ValidationErrorView::MintUnreachable(m@),
            ValidationError::TokenEmpty => e@ is TokenEmpty,
            ValidationError::MalformedToken(m) => e@ == ValidationErrorView::MalformedToken(m@),
        },
{
}

/// A success is viewed as a success with its value.
pub proof fn success_views(
    text: String,
    token: Token,
    url: MintUrl,
    unit: CurrencyUnit,
    n: u64,
    position: usize,
    bytes: Vec<u8>,
    proofs: Vec<Proof>,
    ids: Vec<KeysetId>,
)
    ensures
        authorization_view(Ok(text)) == Ok::<_, AuthParseErrorView>(text@),
        decoded_view(Ok(token)) == Ok::<_, ErrorView>(token@),
        opened_view(Ok(text)) == Ok::<_, ErrorView>(text@),
        text_result(Ok(text)) == Ok::<_, Seq<char>>(text@),
        url_result(Ok(url)) == Ok::<_, Seq<char>>(url@),
        unit_result(Ok(unit)) == Ok::<_, Seq<char>>(unit@),
        token_result(Ok(token)) == Ok::<_, Seq<char>>(token@),
        number_result(Ok(n)) == Ok::<_, Seq<char>>(n),
        position_result(Ok(position)) == Ok::<_, Seq<char>>(position as nat),
        bytes_result(Ok(bytes)) == Ok::<_, Seq<char>>(bytes@),
        done_result(Ok(())) is Ok,
        unit_or_message(Ok(())) is Ok,
        proofs_result(Ok(proofs)) == Ok::<_, Seq<char>>(proofs_view(proofs@)),
        keysets_reply(Ok(ids)) == Ok::<_, MintClientErrorView>(ids_view(ids@)),
        swap_reply(Ok(proofs)) == Ok::<_, MintClientErrorView>(proofs_view(proofs@)),
        mint_view(Ok(url)) == Ok::<_, ValidationErrorView>(url@),
{
}

/// A step of a validation, or its end, is viewed as such.
pub proof fn step_views(
    keysets: AwaitingKeysets,
    swap: AwaitingSwap,
    pop: ValidatedPop,
    e: ValidationError,
)
    ensures
        begun_view(Ok(keysets)) == Ok::<_, ValidationErrorView>(keysets@),
        swap_view(Ok(swap)) == Ok::<_, ValidationErrorView>(swap@),
        validated_view(Ok(pop)) == Ok::<_, ValidationErrorView>(pop@),
        begun_view(Err(e)) is Err && begun_view(Err(e))->Err_0 == e@,
        swap_view(Err(e)) is Err && swap_view(Err(e))->Err_0 == e@,
        validated_view(Err(e)) is Err && validated_view(Err(e))->Err_0 == e@,
        mint_view(Err(e)) is Err && mint_view(Err(e))->Err_0 == e@,
{
}

/// A failure is viewed as a failure with its error or its message.
pub proof fn failure_views(m: String, e: Error, a: AuthParseError, c: MintClientError)
    ensures
        authorization_view(Err(a)) == Err::<Seq<char>, _>(a@),
        decoded_view(Err(e)) == Err::<Seq<char>, _>(e@),
        opened_view(Err(e)) == Err::<Seq<char>, _>(e@),
        text_result(Err(m)) == Err::<Seq<char>, _>(m@),
        url_result(Err(m)) == Err::<Seq<char>, _>(m@),
        unit_result(Err(m)) == Err::<UnitView, _>(m@),
        token_result(Err(m)) == Err::<Seq<char>, _>(m@),
        number_result(Err(m)) == Err::<u64, _>(m@),
        position_result(Err(m)) == Err::<nat, _>(m@),
        bytes_result(Err(m)) == Err::<Seq<u8>, _>(m@),
        done_result(Err(m)) == Err::<(), _>(m@),
        unit_or_message(Err(m)) == Err::<(), _>(m@),
        proofs_result(Err(m)) == Err::<Seq<ProofView>, _>(m@),
        keysets_reply(Err(c)) == Err::<Seq<Seq<u8>>, _>(c@),
        swap_reply(Err(c)) == Err::<Seq<ProofView>, _>(c@),
{
}

/// The bytes of a header are read as the characters with their code points.
pub proof fn bytes_are_read_as_characters(b: Seq<u8>, i: int)
    requires
        0 <= i < b.len(),
    ensures
        latin1(b).len() == b.len(),
        latin1(b)[i] == b[i] as char,
{
}

/// The characters that are whitespace, in order.
pub proof fn white_space_is_listed(c: char)
    ensures
        is_white_space(c) <==> seq![
            0x09u32,
            0x0a,
            0x0b,
            0x0c,
            0x0d,
            0x20,
            0x85,
            0xa0,
            0x1680,
            0x2000,
            0x2001,
            0x2002,
            0x2003,
            0x2004,
            0x2005,
            0x2006,
            0x2007,
            0x2008,
            0x2009,
            0x200a,
            0x2028,
            0x2029,
            0x202f,
            0x205f,
            0x3000,
        ].contains(c as u32),
{
    let s = seq![
        0x09u32,
        0x0a,
        0x0b,
        0x0c,
        0x0d,
        0x20,
        0x85,
        0xa0,
        0x1680,
        0x2000,
        0x2001,
        0x2002,
        0x2003,
        0x2004,
        0x2005,
        0x2006,
        0x2007,
        0x2008,
        0x2009,
        0x200a,
        0x2028,
        0x2029,
        0x202f,
        0x205f,
        0x3000,
    ];
    let n = c as u32;
    if is_white_space(c) {
        let i = if n <= 0x0d {
            n - 0x09
        } else if n == 0x20 {
            5
        } else if n == 0x85 {
            6
        } else if n == 0xa0 {
            7
        } else if n == 0x1680 {
            8
        } else if n <= 0x200a {
            9 + (n - 0x2000)
        } else if n == 0x2028 {
            20
        } else if n == 0x2029 {
            21
        } else if n == 0x202f {
            22
        } else if n == 0x205f {
            23
        } else {
            24
        };
        assert(s[i] == n);
    }
}

} // verus!
