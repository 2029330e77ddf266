//! Validation of a presented token against a requirement, by a swap at the mint that issued it.
//!
//! 1. [`PopValidator::validate`] confirms the structural fit: unit, mint and amount. A token that
//!    does not fit never reaches the mint.
//! 2. The mint is asked for its keysets, and [`AwaitingKeysets`] takes its answer: the proofs of
//!    the token are then known in full.
//! 3. The mint is asked to swap those proofs, and [`AwaitingSwap`] takes its answer. A successful
//!    swap shows that the proofs were unspent and unexpired.
//! 4. The result is a [`ValidatedPop`]. A credential is transferred on use: the verifier keeps
//!    the new proofs.
//!
//! The steps hold no connection: whoever drives them talks to the mint in between.
use vstd::prelude::*;

use crate::challenge::{PopRequirement, RequirementView};
use crate::currency::{CurrencyUnit, UnitView};
use crate::mint_client::{MintClientError, MintClientErrorView};
use crate::mint_url::{
    clone_urls, contains_url, debug_urls, url_result, urls_debug, urls_view, MintUrl,
};
use crate::text::{decimal, to_decimal};
use crate::token::{
    all_amounts, amounts_of, cashu_token_groups, cashu_token_mint, cashu_token_proofs,
    cashu_token_unit, checked_total, ids_view, proofs_view, resolvable, sum_amounts, total_amount,
    KeysetId, Proof, ProofView, Token,
};

verus! {

/// Result of a successful validation.
#[derive(Debug)]
pub struct ValidatedPop {
    /// Proofs that the mint returned, now under the verifier's secrets.
    pub new_proofs: Vec<Proof>,
    /// Mint that signed both the presented and the new proofs.
    pub mint_url: MintUrl,
    /// Unit of the swapped value: that of the requirement.
    pub unit: CurrencyUnit,
    /// Total of the new proofs.
    pub amount: u64,
}

/// [`ValidatedPop`] over sequences.
pub struct ValidatedPopView {
    pub new_proofs: Seq<ProofView>,
    pub mint_url: Seq<char>,
    pub unit: UnitView,
    pub amount: u64,
}

impl View for ValidatedPop {
    type V = ValidatedPopView;

    open spec fn view(&self) -> ValidatedPopView {
        ValidatedPopView {
            new_proofs: proofs_view(self.new_proofs@),
            mint_url: self.mint_url@,
            unit: self.unit@,
            amount: self.amount,
        }
    }
}

impl Clone for ValidatedPop {
    fn clone(&self) -> (r: Self)
        ensures
            r@ == self@,
    {
        let mut new_proofs: Vec<Proof> = Vec::new();
        let mut i: usize = 0;
        while i < self.new_proofs.len()
            invariant
                i == new_proofs@.len() <= self.new_proofs@.len(),
                forall|j: int|
                    0 <= j < i ==> (#[trigger] new_proofs@[j])@ == self.new_proofs@[j]@,
            decreases self.new_proofs@.len() - i,
        {
            new_proofs.push(self.new_proofs[i].clone());
            i += 1;
        }
        assert(proofs_view(new_proofs@) =~= proofs_view(self.new_proofs@));
        ValidatedPop {
            new_proofs,
            mint_url: self.mint_url.clone(),
            unit: self.unit.clone(),
            amount: self.amount,
        }
    }
}

/// Why a token was not accepted: structural reasons, found before the mint is asked anything
/// (`UnitMismatch`, `MintNotAllowed`, `TokenEmpty`, `AmountInsufficient`), and what the mint says
/// (`MintRejectedSwap`, `MintUnreachable`).
#[derive(Debug)]
#[allow(inconsistent_fields)]
pub enum ValidationError {
    /// The unit is not that of the requirement.
    UnitMismatch {
        /// Unit of the requirement.
        expected: CurrencyUnit,
        /// Unit of the token; a token without one counts as the custom unit without a name.
        got: CurrencyUnit,
    },
    /// The mint is not one of those allowed.
    MintNotAllowed {
        /// Mint of the token.
        got: MintUrl,
        /// Mints of the requirement.
        allowed: Vec<MintUrl>,
    },
    /// The proofs are worth less than required.
    AmountInsufficient {
        /// Amount of the requirement.
        required: u64,
        /// Total of the proofs in the token.
        got: u64,
    },
    /// The mint refused: an expired credential, a spent proof, an invalid signature.
    MintRejectedSwap(String),
    /// The mint could not be reached.
    MintUnreachable(String),
    /// The token holds no proofs.
    TokenEmpty,
    /// The mint, the proofs or their total could not be made out.
    MalformedToken(String),
}

/// [`ValidationError`] over sequences.
#[allow(inconsistent_fields)]
pub enum ValidationErrorView {
    UnitMismatch { expected: UnitView, got: UnitView },
    MintNotAllowed { got: Seq<char>, allowed: Seq<Seq<char>> },
    AmountInsufficient { required: u64, got: u64 },
    MintRejectedSwap(Seq<char>),
    MintUnreachable(Seq<char>),
    TokenEmpty,
    MalformedToken(Seq<char>),
}

impl View for ValidationError {
    type V = ValidationErrorView;

    open spec fn view(&self) -> ValidationErrorView {
        match *self {
            ValidationError::UnitMismatch { expected, got } => ValidationErrorView::UnitMismatch {
                expected: expected@,
                got: got@,
            },
            ValidationError::MintNotAllowed {
                got,
                allowed,
            } => ValidationErrorView::MintNotAllowed { got: got@, allowed: urls_view(allowed@) },
            ValidationError::AmountInsufficient {
                required,
                got,
            } => ValidationErrorView::AmountInsufficient { required, got },
            ValidationError::MintRejectedSwap(m) => ValidationErrorView::MintRejectedSwap(m@),
            ValidationError::MintUnreachable(m) => ValidationErrorView::MintUnreachable(m@),
            ValidationError::TokenEmpty => ValidationErrorView::TokenEmpty,
            ValidationError::MalformedToken(m) => ValidationErrorView::MalformedToken(m@),
        }
    }
}

impl ValidationErrorView {
    /// The message for people.
    pub open spec fn message(self) -> Seq<char> {
        match self {
            ValidationErrorView::UnitMismatch { expected, got } => "token unit "@ + got.debug()
                + " does not match requirement unit "@ + expected.debug(),
            ValidationErrorView::MintNotAllowed { got, allowed } => "token mint "@ + got
                + " is not in the requirement's allowed mints: "@ + urls_debug(allowed),
            ValidationErrorView::AmountInsufficient { required, got } => "token amount "@
                + decimal(got as nat) + " is below required "@ + decimal(required as nat),
            ValidationErrorView::MintRejectedSwap(m) => "mint rejected swap: "@ + m,
            ValidationErrorView::MintUnreachable(m) => "mint unreachable: "@ + m,
            ValidationErrorView::TokenEmpty => "token contains no proofs"@,
            ValidationErrorView::MalformedToken(m) => "malformed token: "@ + m,
        }
    }
}

impl ValidationError {
    /// The message for people.
    pub fn to_string(&self) -> (r: String)
        ensures
            r@ == self@.message(),
    {
        match self {
            ValidationError::UnitMismatch { expected, got } => "token unit ".to_string().concat(
                got.to_debug().as_str(),
            ).concat(" does not match requirement unit ").concat(expected.to_debug().as_str()),
            ValidationError::MintNotAllowed { got, allowed } => "token mint ".to_string().concat(
                got.as_str(),
            ).concat(" is not in the requirement's allowed mints: ").concat(
                debug_urls(allowed).as_str(),
            ),
            ValidationError::AmountInsufficient {
                required,
                got,
            } => "token amount ".to_string().concat(to_decimal(*got as u128).as_str()).concat(
                " is below required ",
            ).concat(to_decimal(*required as u128).as_str()),
            ValidationError::MintRejectedSwap(m) => "mint rejected swap: ".to_string().concat(
                m.as_str(),
            ),
            ValidationError::MintUnreachable(m) => "mint unreachable: ".to_string().concat(
                m.as_str(),
            ),
            ValidationError::TokenEmpty => "token contains no proofs".to_string(),
            ValidationError::MalformedToken(m) => "malformed token: ".to_string().concat(
                m.as_str(),
            ),
        }
    }
}

/// Whether a mint is one of those allowed; an empty list allows any.
pub open spec fn allowed(mints: Seq<Seq<char>>, mint: Seq<char>) -> bool {
    mints.len() == 0 || mints.contains(mint)
}

/// The mint to ask about a token with this unit, mint and these amounts; or why the token does
/// not fit the requirement. A token may be worth more than is required.
pub open spec fn structural(
    unit: Option<UnitView>,
    mint: Result<Seq<char>, Seq<char>>,
    amounts: Seq<u64>,
    req: RequirementView,
) -> Result<Seq<char>, ValidationErrorView> {
    match unit {
        None => Err(
            ValidationErrorView::UnitMismatch {
                expected: req.unit,
                got: UnitView::Custom(Seq::empty()),
            },
        ),
        Some(unit) => if unit != req.unit {
            Err(ValidationErrorView::UnitMismatch { expected: req.unit, got: unit })
        } else {
            match mint {
                Err(m) => Err(ValidationErrorView::MalformedToken(m)),
                Ok(mint) => if !allowed(req.mints, mint) {
                    Err(ValidationErrorView::MintNotAllowed { got: mint, allowed: req.mints })
                } else if amounts.len() == 0 {
                    Err(ValidationErrorView::TokenEmpty)
                } else {
                    match checked_total(amounts) {
                        Err(m) => Err(ValidationErrorView::MalformedToken(m)),
                        Ok(sum) => if sum < req.amount {
                            Err(
                                ValidationErrorView::AmountInsufficient {
                                    required: req.amount,
                                    got: sum,
                                },
                            )
                        } else {
                            Ok(mint)
                        },
                    }
                },
            }
        },
    }
}

/// A mint or an error, taken by view.
pub open spec fn mint_view(r: Result<MintUrl, ValidationError>) -> Result<
    Seq<char>,
    ValidationErrorView,
> {
    match r {
        Ok(mint) => Ok(mint@),
        Err(e) => Err(e@),
    }
}

/// A unit that may be missing, taken by view.
pub open spec fn optional_unit(unit: Option<CurrencyUnit>) -> Option<UnitView> {
    match unit {
        Some(unit) => Some(unit@),
        None => None,
    }
}

/// Checks the unit, the mint and the amounts of a token against a requirement. Yields the mint.
pub fn check_structure(
    unit: Option<CurrencyUnit>,
    mint: Result<MintUrl, String>,
    amounts: &Vec<u64>,
    requirement: &PopRequirement,
) -> (r: Result<MintUrl, ValidationError>)
    ensures
        mint_view(r) == structural(optional_unit(unit), url_result(mint), amounts@, requirement@),
{
    let unit = match unit {
        Some(unit) => unit,
        None => {
            let got = CurrencyUnit::Custom(String::new());
            assert(got@->Custom_0 =~= Seq::empty());
            return Err(
                ValidationError::UnitMismatch { expected: requirement.unit.clone(), got },
            );
        },
    };
    if !unit.same_as(&requirement.unit) {
        return Err(
            ValidationError::UnitMismatch { expected: requirement.unit.clone(), got: unit },
        );
    }
    let mint = match mint {
        Ok(mint) => mint,
        Err(m) => return Err(ValidationError::MalformedToken(m)),
    };
    if requirement.mints.len() != 0 && !contains_url(&requirement.mints, &mint) {
        return Err(
            ValidationError::MintNotAllowed { got: mint, allowed: clone_urls(&requirement.mints) },
        );
    }
    if amounts.len() == 0 {
        return Err(ValidationError::TokenEmpty);
    }
    match sum_amounts(amounts) {
        Err(m) => Err(ValidationError::MalformedToken(m)),
        Ok(sum) => if sum < requirement.amount {
            Err(ValidationError::AmountInsufficient { required: requirement.amount, got: sum })
        } else {
            Ok(mint)
        },
    }
}

/// What a failure of the mint means for the validation.
pub open spec fn mint_failure(e: MintClientErrorView) -> ValidationErrorView {
    match e {
        MintClientErrorView::Unreachable(m) => ValidationErrorView::MintUnreachable(m),
        MintClientErrorView::RejectedSwap(m) => ValidationErrorView::MintRejectedSwap(m),
    }
}

/// Turns a failure of the mint into a failure of the validation.
fn mint_error(e: MintClientError) -> (r: ValidationError)
    ensures
        r@ == mint_failure(e@),
{
    match e {
        MintClientError::Unreachable(m) => ValidationError::MintUnreachable(m),
        MintClientError::RejectedSwap(m) => ValidationError::MintRejectedSwap(m),
    }
}

/// A token that fits the requirement, while the mint is asked for its keysets.
#[derive(Debug)]
pub struct AwaitingKeysets {
    token: Token,
    mint_url: MintUrl,
    unit: CurrencyUnit,
}

/// [`AwaitingKeysets`] over sequences.
pub struct AwaitingKeysetsView {
    pub token: Seq<char>,
    pub mint_url: Seq<char>,
    pub unit: UnitView,
}

impl View for AwaitingKeysets {
    type V = AwaitingKeysetsView;

    closed spec fn view(&self) -> AwaitingKeysetsView {
        AwaitingKeysetsView { token: self.token@, mint_url: self.mint_url@, unit: self.unit@ }
    }
}

/// The proofs of a token, while the mint is asked to swap them.
#[derive(Debug)]
pub struct AwaitingSwap {
    mint_url: MintUrl,
    unit: CurrencyUnit,
    proofs: Vec<Proof>,
}

/// [`AwaitingSwap`] over sequences.
pub struct AwaitingSwapView {
    pub mint_url: Seq<char>,
    pub unit: UnitView,
    pub proofs: Seq<ProofView>,
}

impl View for AwaitingSwap {
    type V = AwaitingSwapView;

    closed spec fn view(&self) -> AwaitingSwapView {
        AwaitingSwapView {
            mint_url: self.mint_url@,
            unit: self.unit@,
            proofs: proofs_view(self.proofs@),
        }
    }
}

/// What the mint says to the request for its keysets, taken by view.
pub open spec fn keysets_reply(r: Result<Vec<KeysetId>, MintClientError>) -> Result<
    Seq<Seq<u8>>,
    MintClientErrorView,
> {
    match r {
        Ok(ids) => Ok(ids_view(ids@)),
        Err(e) => Err(e@),
    }
}

/// What the mint says to the request for a swap, taken by view.
pub open spec fn swap_reply(r: Result<Vec<Proof>, MintClientError>) -> Result<
    Seq<ProofView>,
    MintClientErrorView,
> {
    match r {
        Ok(ps) => Ok(proofs_view(ps@)),
        Err(e) => Err(e@),
    }
}

/// Where validation starts: at the question for keysets, or with a structural failure.
pub open spec fn begun(token: Seq<char>, req: RequirementView) -> Result<
    AwaitingKeysetsView,
    ValidationErrorView,
> {
    match structural(
        cashu_token_unit(token),
        cashu_token_mint(token),
        all_amounts(cashu_token_groups(token)),
        req,
    ) {
        Ok(mint_url) => Ok(AwaitingKeysetsView { token, mint_url, unit: req.unit }),
        Err(e) => Err(e),
    }
}

/// Where validation goes once the mint has answered with its keysets or failed.
pub open spec fn after_keysets(
    step: AwaitingKeysetsView,
    reply: Result<Seq<Seq<u8>>, MintClientErrorView>,
) -> Result<AwaitingSwapView, ValidationErrorView> {
    match reply {
        Err(e) => Err(mint_failure(e)),
        Ok(ids) => match cashu_token_proofs(step.token, ids) {
            Err(m) => Err(ValidationErrorView::MalformedToken(m)),
            Ok(proofs) => Ok(
                AwaitingSwapView { mint_url: step.mint_url, unit: step.unit, proofs },
            ),
        },
    }
}

/// How validation ends once the mint has swapped the proofs or failed.
pub open spec fn after_swap(
    step: AwaitingSwapView,
    reply: Result<Seq<ProofView>, MintClientErrorView>,
) -> Result<ValidatedPopView, ValidationErrorView> {
    match reply {
        Err(e) => Err(mint_failure(e)),
        Ok(new_proofs) => match checked_total(amounts_of(new_proofs)) {
            Err(m) => Err(ValidationErrorView::MalformedToken(m)),
            Ok(amount) => Ok(
                ValidatedPopView {
                    new_proofs,
                    mint_url: step.mint_url,
                    unit: step.unit,
                    amount,
                },
            ),
        },
    }
}

/// Whether the keyset ids in a step's token can be looked up in the mint's answer.
pub open spec fn answerable(
    step: AwaitingKeysetsView,
    reply: Result<Seq<Seq<u8>>, MintClientErrorView>,
) -> bool {
    reply matches Ok(ids) ==> resolvable(cashu_token_groups(step.token), ids)
}

/// The first step or an error, taken by view.
pub open spec fn begun_view(r: Result<AwaitingKeysets, ValidationError>) -> Result<
    AwaitingKeysetsView,
    ValidationErrorView,
> {
    match r {
        Ok(step) => Ok(step@),
        Err(e) => Err(e@),
    }
}

/// The second step or an error, taken by view.
pub open spec fn swap_view(r: Result<AwaitingSwap, ValidationError>) -> Result<
    AwaitingSwapView,
    ValidationErrorView,
> {
    match r {
        Ok(step) => Ok(step@),
        Err(e) => Err(e@),
    }
}

/// The end of a validation, taken by view.
pub open spec fn validated_view(r: Result<ValidatedPop, ValidationError>) -> Result<
    ValidatedPopView,
    ValidationErrorView,
> {
    match r {
        Ok(pop) => Ok(pop@),
        Err(e) => Err(e@),
    }
}

impl AwaitingKeysets {
    /// The mint to ask.
    pub fn mint_url(&self) -> (r: &MintUrl)
        ensures
            r@ == self@.mint_url,
    {
        &self.mint_url
    }

    /// Whether the keyset ids in the token can be looked up in the mint's answer.
    pub fn can_resume(&self, reply: &Result<Vec<KeysetId>, MintClientError>) -> (r: bool)
        ensures
            r == answerable(self@, keysets_reply(*reply)),
    {
        match reply {
            Ok(ids) => self.token.is_resolvable(ids),
            Err(_) => true,
        }
    }

    /// Takes the mint's answer and works out the proofs to swap. Their amounts are those of the
    /// token.
    pub fn resume(self, reply: Result<Vec<KeysetId>, MintClientError>) -> (r: Result<
        AwaitingSwap,
        ValidationError,
    >)
        requires
            answerable(self@, keysets_reply(reply)),
        ensures
            swap_view(r) == after_keysets(self@, keysets_reply(reply)),
            r matches Ok(step) ==> amounts_of(step@.proofs) == all_amounts(
                cashu_token_groups(self@.token),
            ),
    {
        let ids = match reply {
            Ok(ids) => ids,
            Err(e) => return Err(mint_error(e)),
        };
        match self.token.proofs(&ids) {
            Ok(proofs) => Ok(AwaitingSwap { mint_url: self.mint_url, unit: self.unit, proofs }),
            Err(m) => Err(ValidationError::MalformedToken(m)),
        }
    }

    /// As [`AwaitingKeysets::resume`], for any answer: `None` where a keyset id in it is shorter
    /// than the short id that is looked up.
    pub fn try_resume(self, reply: Result<Vec<KeysetId>, MintClientError>) -> (r: Option<
        Result<AwaitingSwap, ValidationError>,
    >)
        ensures
            r is Some == answerable(self@, keysets_reply(reply)),
            r matches Some(r) ==> swap_view(r) == after_keysets(self@, keysets_reply(reply)) && (
            r matches Ok(step) ==> amounts_of(step@.proofs) == all_amounts(
                cashu_token_groups(self@.token),
            )),
    {
        if !self.can_resume(&reply) {
            return None;
        }
        Some(self.resume(reply))
    }
}

impl AwaitingSwap {
    /// The mint to ask.
    pub fn mint_url(&self) -> (r: &MintUrl)
        ensures
            r@ == self@.mint_url,
    {
        &self.mint_url
    }

    /// The proofs to swap.
    pub fn proofs(&self) -> (r: &Vec<Proof>)
        ensures
            proofs_view(r@) == self@.proofs,
    {
        &self.proofs
    }

    /// Takes the mint's answer and ends the validation.
    pub fn resume(self, reply: Result<Vec<Proof>, MintClientError>) -> (r: Result<
        ValidatedPop,
        ValidationError,
    >)
        ensures
            validated_view(r) == after_swap(self@, swap_reply(reply)),
    {
        let new_proofs = match reply {
            Ok(new_proofs) => new_proofs,
            Err(e) => return Err(mint_error(e)),
        };
        match total_amount(&new_proofs) {
            Ok(amount) => Ok(
                ValidatedPop { new_proofs, mint_url: self.mint_url, unit: self.unit, amount },
            ),
            Err(m) => Err(ValidationError::MalformedToken(m)),
        }
    }
}

/// Validates tokens against a requirement. Holds the client for the mints, and nothing about any
/// one request.
#[derive(Debug)]
pub struct PopValidator<M> {
    mint_client: M,
}

impl<M> PopValidator<M> {
    /// The client it was made with.
    pub closed spec fn client(&self) -> M {
        self.mint_client
    }

    /// A validator backed by a mint client.
    pub fn new(mint_client: M) -> (r: Self)
        ensures
            r.client() == mint_client,
    {
        PopValidator { mint_client }
    }

    /// The client for the mints.
    pub fn mint_client(&self) -> (r: &M)
        ensures
            *r == self.client(),
    {
        &self.mint_client
    }

    /// Begins the validation of a token: all structural checks, and then the first question to
    /// the mint.
    pub fn validate(&self, token: &Token, requirement: &PopRequirement) -> (r: Result<
        AwaitingKeysets,
        ValidationError,
    >)
        ensures
            begun_view(r) == begun(token@, requirement@),
    {
        let amounts = token.amounts();
        match check_structure(token.unit(), token.mint_url(), &amounts, requirement) {
            Ok(mint_url) => Ok(
                AwaitingKeysets {
                    token: token.clone(),
                    mint_url,
                    unit: requirement.unit.clone(),
                },
            ),
            Err(e) => Err(e),
        }
    }
}

} // verus!
