//! What a verifier requires, the challenge that says so, and the token that answers it.
//!
//! A [`PopRequirement`] describes what a holder must present. [`encode_challenge`] turns it into
//! the `creqA…` text of a payment request, and [`decode_token`] accepts the `cashuB…` token that
//! comes back. Transports are left empty, since the exchange stays in band over HTTP, and there
//! is no spending condition: a credential is a bearer one.
use std::str::FromStr;
use vstd::prelude::*;

use crate::codec::is_base64url_char;
use crate::currency::{unit_survives, CurrencyUnit, UnitView};
use crate::error::{Error, ErrorView};
use crate::mint_url::{
    cashu_mint_url, clone_urls, is_mint_url, texts_view, url_texts, urls_view, MintUrl,
};
use crate::text::{chars_of, debug_str, optional_text, str_debug, string_of, trim, trimmed};
use crate::token::{cashu_token, Token};

verus! {

/// What the verifier requires from a holder for a single challenge.
#[derive(Debug, PartialEq, Eq)]
pub struct PopRequirement {
    /// Unit the proofs must carry. For Proof-of-Power credentials this is
    /// `Custom("pop_<unix_ts>")`, where `<unix_ts>` is the expiry of the credential.
    pub unit: CurrencyUnit,
    /// Mints the verifier accepts; none means any mint.
    pub mints: Vec<MintUrl>,
    /// Amount of proofs required. A token worth more is accepted too, and the verifier keeps all
    /// of it: only one worth less is refused.
    pub amount: u64,
    /// Payment correlation id.
    pub payment_id: Option<String>,
    /// Description for people.
    pub description: Option<String>,
    /// Whether the challenge is one-shot.
    pub single_use: bool,
}

/// [`PopRequirement`] over sequences.
pub struct RequirementView {
    pub unit: UnitView,
    pub mints: Seq<Seq<char>>,
    pub amount: u64,
    pub payment_id: Option<Seq<char>>,
    pub description: Option<Seq<char>>,
    pub single_use: bool,
}

impl View for PopRequirement {
    type V = RequirementView;

    open spec fn view(&self) -> RequirementView {
        RequirementView {
            unit: self.unit@,
            mints: urls_view(self.mints@),
            amount: self.amount,
            payment_id: optional_text(self.payment_id),
            description: optional_text(self.description),
            single_use: self.single_use,
        }
    }
}

/// A payment request.
#[derive(Debug)]
pub struct PaymentRequest {
    /// Payment correlation id.
    pub payment_id: Option<String>,
    /// Amount.
    pub amount: Option<u64>,
    /// Unit.
    pub unit: Option<CurrencyUnit>,
    /// Whether the request is one-shot.
    pub single_use: Option<bool>,
    /// Accepted mints.
    pub mints: Vec<MintUrl>,
    /// Description for people.
    pub description: Option<String>,
    /// Targets of the transports over which the payment may be delivered.
    pub transports: Vec<String>,
    /// Spending condition that the proofs must be locked to.
    pub nut10: Option<String>,
}

/// [`PaymentRequest`] over sequences.
pub struct PaymentRequestView {
    pub payment_id: Option<Seq<char>>,
    pub amount: Option<u64>,
    pub unit: Option<UnitView>,
    pub single_use: Option<bool>,
    pub mints: Seq<Seq<char>>,
    pub description: Option<Seq<char>>,
    pub transports: Seq<Seq<char>>,
    pub nut10: Option<Seq<char>>,
}

impl View for PaymentRequest {
    type V = PaymentRequestView;

    open spec fn view(&self) -> PaymentRequestView {
        PaymentRequestView {
            payment_id: optional_text(self.payment_id),
            amount: self.amount,
            unit: match self.unit {
                Some(unit) => Some(unit@),
                None => None,
            },
            single_use: self.single_use,
            mints: urls_view(self.mints@),
            description: optional_text(self.description),
            transports: texts_view(self.transports@),
            nut10: optional_text(self.nut10),
        }
    }
}

impl RequirementView {
    /// The payment request of a requirement: in band, so without transports, and for a bearer
    /// credential, so without a spending condition.
    pub open spec fn payment_request(self) -> PaymentRequestView {
        PaymentRequestView {
            payment_id: self.payment_id,
            amount: Some(self.amount),
            unit: Some(self.unit),
            single_use: Some(self.single_use),
            mints: self.mints,
            description: self.description,
            transports: Seq::empty(),
            nut10: None,
        }
    }
}

/// The `creqA…` text that `cashu::PaymentRequest`'s `Display` writes.
pub uninterp spec fn cashu_request_text(request: PaymentRequestView) -> Seq<char>;

/// The payment request that `cashu::PaymentRequest::from_str` reads from a text, transports by
/// their targets.
pub uninterp spec fn cashu_request(text: Seq<char>) -> Option<PaymentRequestView>;

/// Whether a text is `creqA` followed by characters of the base64url alphabet or padding.
pub open spec fn is_request_text(text: Seq<char>) -> bool {
    &&& text.len() >= 5
    &&& text.take(5) == "creqA"@
    &&& forall|i: int|
        5 <= i < text.len() ==> is_base64url_char(#[trigger] text[i]) || text[i] == '='
}

/// Whether a request is the same again after it has been written and read: its unit is, and each
/// of its mints is normalised to itself.
pub open spec fn request_survives(request: PaymentRequestView) -> bool {
    &&& request.unit matches Some(unit) ==> unit_survives(unit)
    &&& forall|i: int|
        0 <= i < request.mints.len() ==> cashu_mint_url(#[trigger] request.mints[i]) == Ok::<
            _,
            Seq<char>,
        >(request.mints[i])
}

/// `to_string` of `cashu::PaymentRequest`, for a request without transports and spending
/// condition whose mints, given as text, are normalised addresses. The text is named by
/// [`cashu_request_text`]: it is a function of the request alone. It is `creqA` and padded
/// base64url, and `cashu::PaymentRequest::from_str` reads it back wherever unit and mints
/// survive being written. A mint is rebuilt from its text behind a second `://`, where
/// `cashu::MintUrl::from_str` cuts an address off, so that the text itself is kept.
#[verifier::external_body]
fn request_to_string(request: &PaymentRequest, mints: &Vec<String>) -> (r: String)
    requires
        request.transports@.len() == 0,
        request.nut10 is None,
        texts_view(mints@) == urls_view(request.mints@),
        forall|i: int| 0 <= i < mints@.len() ==> is_mint_url((#[trigger] mints@[i])@),
    ensures
        r@ == cashu_request_text(request@),
        is_request_text(r@),
        request_survives(request@) ==> cashu_request(r@) == Some(request@),
{
    let unit = request.unit.as_ref().map(|u| match u {
        CurrencyUnit::Sat => cashu::CurrencyUnit::Sat,
        CurrencyUnit::Msat => cashu::CurrencyUnit::Msat,
        CurrencyUnit::Usd => cashu::CurrencyUnit::Usd,
        CurrencyUnit::Eur => cashu::CurrencyUnit::Eur,
        CurrencyUnit::Auth => cashu::CurrencyUnit::Auth,
        CurrencyUnit::Custom(name) => cashu::CurrencyUnit::Custom(name.clone()),
    });
    let url = |m| cashu::MintUrl::from_str(&format!("{m}://_")).expect("mint url");
    cashu::PaymentRequest {
        payment_id: request.payment_id.clone(), amount: request.amount.map(cashu::Amount::from),
        unit, single_use: request.single_use, mints: mints.iter().map(url).collect(),
        description: request.description.clone(), transports: vec![], nut10: None,
    }.to_string()
}

/// Copies an optional text.
fn clone_text(s: &Option<String>) -> (r: Option<String>)
    ensures
        optional_text(r) == optional_text(*s),
{
    match s {
        Some(s) => Some(s.clone()),
        None => None,
    }
}

impl Clone for PopRequirement {
    fn clone(&self) -> (r: Self)
        ensures
            r@ == self@,
    {
        PopRequirement {
            unit: self.unit.clone(),
            mints: clone_urls(&self.mints),
            amount: self.amount,
            payment_id: clone_text(&self.payment_id),
            description: clone_text(&self.description),
            single_use: self.single_use,
        }
    }
}

impl PopRequirement {
    /// The payment request of the requirement.
    pub fn to_payment_request(&self) -> (r: PaymentRequest)
        ensures
            r@ == self@.payment_request(),
            r.mints@.len() == self.mints@.len(),
            forall|i: int| 0 <= i < r.mints@.len() ==> (#[trigger] r.mints@[i])@ == self.mints@[i]@,
            r.amount == Some(self.amount),
            r.unit matches Some(unit) && unit@ == self.unit@,
            r.single_use == Some(self.single_use),
            optional_text(r.payment_id) == optional_text(self.payment_id),
            optional_text(r.description) == optional_text(self.description),
            r.transports@.len() == 0,
            r.nut10 is None,
    {
        let r = PaymentRequest {
            payment_id: clone_text(&self.payment_id),
            amount: Some(self.amount),
            unit: Some(self.unit.clone()),
            single_use: Some(self.single_use),
            mints: clone_urls(&self.mints),
            description: clone_text(&self.description),
            transports: Vec::new(),
            nut10: None,
        };
        assert(r@.transports =~= Seq::empty());
        assert(urls_view(r.mints@).len() == urls_view(self.mints@).len());
        assert forall|i: int| 0 <= i < r.mints@.len() implies (#[trigger] r.mints@[i])@
            == self.mints@[i]@ by {
            assert(urls_view(r.mints@)[i] == urls_view(self.mints@)[i]);
        }
        r
    }
}

/// Encodes a requirement as the `creqA…` text of its payment request. Whoever reads that text
/// finds the requirement in it, wherever its unit and mints survive being written.
pub fn encode_challenge(req: &PopRequirement) -> (r: String)
    ensures
        r@ == cashu_request_text(req@.payment_request()),
        is_request_text(r@),
        request_survives(req@.payment_request()) ==> cashu_request(r@) == Some(
            req@.payment_request(),
        ),
        r@ == cashu_request_text(
            (PaymentRequestView {
                payment_id: optional_text(req.payment_id),
                amount: Some(req.amount),
                unit: Some(req.unit@),
                single_use: Some(req.single_use),
                mints: Seq::new(req.mints@.len(), |i: int| req.mints@[i]@),
                description: optional_text(req.description),
                transports: Seq::empty(),
                nut10: None,
            }),
        ),
{
    let request = req.to_payment_request();
    assert(request@.transports.len() == 0);
    assert(urls_view(req.mints@) =~= Seq::new(req.mints@.len(), |i: int| req.mints@[i]@));
    let mints = url_texts(&request.mints);
    request_to_string(&request, &mints)
}

/// Prefix of a version 3 token.
pub const TOKEN_V3_PREFIX: &'static str = "cashuA";

/// Prefix of a version 4 token.
pub const TOKEN_V4_PREFIX: &'static str = "cashuB";

/// Whether a text starts with a prefix.
pub open spec fn starts_with(s: Seq<char>, prefix: Seq<char>) -> bool {
    s.len() >= prefix.len() && s.take(prefix.len() as int) == prefix
}

/// The first `n` characters, or all if there are fewer.
pub open spec fn up_to(s: Seq<char>, n: int) -> Seq<char> {
    if s.len() <= n {
        s
    } else {
        s.take(n)
    }
}

/// The token text that a presented value holds, given whether the codec decodes it; or what is
/// wrong with it.
pub open spec fn presented(value: Seq<char>, decoded: Result<(), Seq<char>>) -> Result<
    Seq<char>,
    ErrorView,
> {
    let text = trimmed(value);
    if !(starts_with(text, TOKEN_V3_PREFIX@) || starts_with(text, TOKEN_V4_PREFIX@)) {
        Err(
            ErrorView::InvalidHeader(
                "expected cashuA/cashuB prefix, got "@ + str_debug(up_to(text, 8)),
            ),
        )
    } else {
        match decoded {
            Ok(()) => Ok(text),
            Err(m) => Err(ErrorView::DecodeFailed(m)),
        }
    }
}

/// A token or an error, taken by view.
pub open spec fn decoded_view(r: Result<Token, Error>) -> Result<Seq<char>, ErrorView> {
    match r {
        Ok(token) => Ok(token@),
        Err(e) => Err(e@),
    }
}

/// Whether the characters start with a prefix.
fn has_prefix(chars: &Vec<char>, prefix: &str) -> (r: bool)
    ensures
        r == starts_with(chars@, prefix@),
{
    let p = chars_of(prefix);
    let n: usize = p.len();
    if chars.len() < n {
        return false;
    }
    let mut i: usize = 0;
    while i < n
        invariant
            i <= n == p@.len() <= chars@.len(),
            p@ == prefix@,
            forall|j: int| 0 <= j < i ==> chars@[j] == p@[j],
        decreases n - i,
    {
        if chars[i] != p[i] {
            assert(chars@.take(n as int)[i as int] != p@[i as int]);
            return false;
        }
        i += 1;
    }
    assert(chars@.take(n as int) =~= prefix@);
    true
}

/// Decodes the token that a client presents, a `cashuA…` or `cashuB…` text. Whitespace around it
/// is ignored.
///
/// - Another prefix, or none: [`Error::InvalidHeader`].
/// - A payload that does not decode: [`Error::DecodeFailed`].
pub fn decode_token(x_cashu_header: &str) -> (r: Result<Token, Error>)
    ensures
        decoded_view(r) == presented(x_cashu_header@, cashu_token(trimmed(x_cashu_header@))),
{
    let text = trim(x_cashu_header);
    let chars = chars_of(text.as_str());
    if !(has_prefix(&chars, TOKEN_V3_PREFIX) || has_prefix(&chars, TOKEN_V4_PREFIX)) {
        let n: usize = if chars.len() <= 8 {
            chars.len()
        } else {
            8
        };
        let start = string_of(&chars, 0, n);
        assert(start@ =~= up_to(text@, 8));
        return Err(
            Error::InvalidHeader(
                "expected cashuA/cashuB prefix, got ".to_string().concat(
                    debug_str(start.as_str()).as_str(),
                ),
            ),
        );
    }
    match Token::from_str(text.as_str()) {
        Ok(token) => Ok(token),
        Err(m) => Err(Error::DecodeFailed(m)),
    }
}

} // verus!
