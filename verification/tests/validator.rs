use std::cell::Cell;
use std::str::FromStr;

use cashu::dhke::hash_to_curve;
use cashu::nuts::nut02::Id;
use cashu::secret::Secret;
use cdk_pop_verifier::token::{sum_amounts, total_amount};
use cdk_pop_verifier::validator::check_structure;
use cdk_pop_verifier::{
    CurrencyUnit, KeysetId, MintClientError, MintUrl, PopRequirement, PopValidator, Proof, Token,
    ValidatedPop, ValidationError,
};

enum SwapResponse {
    Echo,
    Unreachable,
    RejectedSwap,
}

enum KeysetsResponse {
    Ids(Vec<KeysetId>),
    Unreachable,
}

struct MockMintClient {
    swap_response: SwapResponse,
    keysets_response: KeysetsResponse,
    swap_calls: Cell<usize>,
    keysets_calls: Cell<usize>,
}

impl MockMintClient {
    fn new(swap_response: SwapResponse, keysets_response: KeysetsResponse) -> Self {
        MockMintClient {
            swap_response,
            keysets_response,
            swap_calls: Cell::new(0),
            keysets_calls: Cell::new(0),
        }
    }

    fn with_swap(swap_response: SwapResponse) -> Self {
        Self::new(swap_response, KeysetsResponse::Ids(Vec::new()))
    }

    fn keysets(&self, _mint_url: &MintUrl) -> Result<Vec<KeysetId>, MintClientError> {
        self.keysets_calls.set(self.keysets_calls.get() + 1);
        match &self.keysets_response {
            KeysetsResponse::Ids(ids) => Ok(ids.clone()),
            KeysetsResponse::Unreachable => {
                Err(MintClientError::Unreachable("mock keysets unreachable".into()))
            }
        }
    }

    fn swap(&self, _mint_url: &MintUrl, proofs: &Vec<Proof>) -> Result<Vec<Proof>, MintClientError> {
        self.swap_calls.set(self.swap_calls.get() + 1);
        match self.swap_response {
            SwapResponse::Echo => Ok(proofs.clone()),
            SwapResponse::Unreachable => {
                Err(MintClientError::Unreachable("mock unreachable".into()))
            }
            SwapResponse::RejectedSwap => {
                Err(MintClientError::RejectedSwap("mock rejected".into()))
            }
        }
    }
}

fn run(
    validator: &PopValidator<MockMintClient>,
    token: &Token,
    req: &PopRequirement,
) -> Result<ValidatedPop, ValidationError> {
    let step = validator.validate(token, req)?;
    let keysets = validator.mint_client().keysets(step.mint_url());
    let step = step.try_resume(keysets).expect("keyset ids can be looked up")?;
    let swapped = validator.mint_client().swap(step.mint_url(), step.proofs());
    step.resume(swapped)
}

fn pop_name() -> String {
    "pop_1700000000".to_string()
}

fn pop_unit() -> CurrencyUnit {
    CurrencyUnit::Custom(pop_name())
}

fn mint_a() -> &'static str {
    "https://mint-a.example.com"
}

fn mint_b() -> &'static str {
    "https://mint-b.example.com"
}

fn url(s: &str) -> MintUrl {
    MintUrl::from_str(s).expect("valid mint url")
}

fn make_proof(amount: u64, index: u8) -> cashu::Proof {
    let keyset_id = Id::from_str("009a1f293253e41e").expect("valid v0 keyset id");
    proof_with_keyset(amount, index, keyset_id)
}

fn proof_with_keyset(amount: u64, index: u8, keyset_id: Id) -> cashu::Proof {
    let mut preimage = [0u8; 33];
    preimage[0] = 1;
    preimage[1] = index;
    let c = hash_to_curve(&preimage).expect("hash_to_curve");
    cashu::Proof::new(cashu::Amount::from(amount), keyset_id, Secret::generate(), c)
}

fn v1_keyset_id() -> Id {
    Id::from_str(
        "01aabbccddeeff001122334455667788\
          99aabbccddeeff00112233445566778899",
    )
    .expect("valid v1 keyset id")
}

fn keyset_id(id: Id) -> KeysetId {
    let bytes = id.to_bytes();
    match bytes[0] {
        0 => KeysetId::V1(bytes[1..].try_into().unwrap()),
        _ => KeysetId::V2(bytes[1..].try_into().unwrap()),
    }
}

fn make_token(mint: &str, unit: cashu::CurrencyUnit, proofs: Vec<cashu::Proof>) -> Token {
    let mint = cashu::MintUrl::from_str(mint).expect("valid mint url");
    let text = cashu::Token::new(mint, proofs, None, unit).to_string();
    Token::from_str(&text).expect("token decodes")
}

fn pop_token(mint: &str, proofs: Vec<cashu::Proof>) -> Token {
    make_token(mint, cashu::CurrencyUnit::Custom(pop_name()), proofs)
}

fn requirement(unit: CurrencyUnit, mints: Vec<MintUrl>, amount: u64) -> PopRequirement {
    PopRequirement {
        unit,
        mints,
        amount,
        payment_id: None,
        description: None,
        single_use: true,
    }
}

#[test]
fn validate_happy_path() {
    let token = pop_token(mint_a(), vec![make_proof(8, 0), make_proof(2, 1)]);
    let req = requirement(pop_unit(), vec![url(mint_a())], 10);
    let validator = PopValidator::new(MockMintClient::with_swap(SwapResponse::Echo));

    let ValidatedPop { new_proofs, mint_url, unit, amount } =
        run(&validator, &token, &req).expect("happy-path validation succeeds");

    assert_eq!(
        validator.mint_client().keysets_calls.get(),
        1,
        "keysets endpoint must be called once"
    );
    assert_eq!(
        validator.mint_client().swap_calls.get(),
        1,
        "swap endpoint must be called once"
    );
    assert_eq!(mint_url, url(mint_a()));
    assert_eq!(unit, pop_unit());
    assert_eq!(amount, 10);
    assert_eq!(new_proofs.len(), 2);
}

#[test]
fn validate_rejects_unit_mismatch() {
    let token = make_token(mint_a(), cashu::CurrencyUnit::Sat, vec![make_proof(10, 0)]);
    let req = requirement(pop_unit(), vec![url(mint_a())], 10);
    let validator = PopValidator::new(MockMintClient::with_swap(SwapResponse::Echo));

    let err = run(&validator, &token, &req).expect_err("unit mismatch must fail");
    assert!(
        matches!(err, ValidationError::UnitMismatch { .. }),
        "expected UnitMismatch, got {err:?}"
    );
    assert_eq!(
        err.to_string(),
        "token unit Sat does not match requirement unit Custom(\"pop_1700000000\")"
    );
    assert_eq!(
        validator.mint_client().swap_calls.get(),
        0,
        "swap must NOT be called on unit mismatch"
    );
    assert_eq!(
        validator.mint_client().keysets_calls.get(),
        0,
        "keysets must NOT be called on unit mismatch"
    );
}

#[test]
fn validate_rejects_disallowed_mint() {
    let token = pop_token(mint_b(), vec![make_proof(10, 0)]);
    let req = requirement(pop_unit(), vec![url(mint_a())], 10);
    let validator = PopValidator::new(MockMintClient::with_swap(SwapResponse::Echo));

    let err = run(&validator, &token, &req).expect_err("disallowed mint must fail");
    assert!(
        matches!(err, ValidationError::MintNotAllowed { .. }),
        "expected MintNotAllowed, got {err:?}"
    );
    assert_eq!(
        err.to_string(),
        "token mint https://mint-b.example.com is not in the requirement's allowed mints: \
         [MintUrl(\"https://mint-a.example.com\")]"
    );
    assert_eq!(
        validator.mint_client().swap_calls.get(),
        0,
        "swap must NOT be called on mint-allowlist failure"
    );
    assert_eq!(
        validator.mint_client().keysets_calls.get(),
        0,
        "keysets must NOT be called on mint-allowlist failure"
    );
}

#[test]
fn validate_rejects_insufficient_amount() {
    let token = pop_token(mint_a(), vec![make_proof(2, 0), make_proof(3, 1)]);
    let req = requirement(pop_unit(), vec![url(mint_a())], 10);
    let validator = PopValidator::new(MockMintClient::with_swap(SwapResponse::Echo));

    let err = run(&validator, &token, &req).expect_err("insufficient amount must fail");
    assert!(
        matches!(err, ValidationError::AmountInsufficient { .. }),
        "expected AmountInsufficient, got {err:?}"
    );
    assert_eq!(err.to_string(), "token amount 5 is below required 10");
    assert_eq!(
        validator.mint_client().swap_calls.get(),
        0,
        "swap must NOT be called on insufficient amount"
    );
    assert_eq!(validator.mint_client().keysets_calls.get(), 0);
}

#[test]
fn validate_rejects_empty_token() {
    let token = pop_token(mint_a(), vec![]);
    let req = requirement(pop_unit(), vec![url(mint_a())], 1);
    let validator = PopValidator::new(MockMintClient::with_swap(SwapResponse::Echo));

    let err = run(&validator, &token, &req).expect_err("empty token must fail");
    assert!(
        matches!(err, ValidationError::TokenEmpty),
        "expected TokenEmpty, got {err:?}"
    );
    assert_eq!(err.to_string(), "token contains no proofs");
    assert_eq!(
        validator.mint_client().swap_calls.get(),
        0,
        "swap must NOT be called on empty token"
    );
    assert_eq!(validator.mint_client().keysets_calls.get(), 0);
}

#[test]
fn validate_propagates_mint_unreachable() {
    let token = pop_token(mint_a(), vec![make_proof(10, 0)]);
    let req = requirement(pop_unit(), vec![url(mint_a())], 10);
    let validator = PopValidator::new(MockMintClient::with_swap(SwapResponse::Unreachable));

    let err = run(&validator, &token, &req).expect_err("unreachable mint must fail");
    assert!(
        matches!(err, ValidationError::MintUnreachable(_)),
        "expected MintUnreachable, got {err:?}"
    );
    assert_eq!(err.to_string(), "mint unreachable: mock unreachable");
    assert_eq!(
        validator.mint_client().swap_calls.get(),
        1,
        "swap must be called once before unreachable surfaces"
    );
}

#[test]
fn validate_propagates_mint_rejected_swap() {
    let token = pop_token(mint_a(), vec![make_proof(10, 0)]);
    let req = requirement(pop_unit(), vec![url(mint_a())], 10);
    let validator = PopValidator::new(MockMintClient::with_swap(SwapResponse::RejectedSwap));

    let err = run(&validator, &token, &req).expect_err("rejected swap must fail");
    assert!(
        matches!(err, ValidationError::MintRejectedSwap(_)),
        "expected MintRejectedSwap, got {err:?}"
    );
    assert_eq!(err.to_string(), "mint rejected swap: mock rejected");
    assert_eq!(
        validator.mint_client().swap_calls.get(),
        1,
        "swap must be called once before rejection surfaces"
    );
}

#[test]
fn validate_happy_path_v1_keyset() {
    let v1_id = v1_keyset_id();
    let proofs = vec![proof_with_keyset(7, 0, v1_id), proof_with_keyset(3, 1, v1_id)];
    let token = pop_token(mint_a(), proofs.clone());
    let req = requirement(pop_unit(), vec![url(mint_a())], 10);
    let validator = PopValidator::new(MockMintClient::new(
        SwapResponse::Echo,
        KeysetsResponse::Ids(vec![keyset_id(v1_id)]),
    ));

    let ValidatedPop { amount, new_proofs, .. } =
        run(&validator, &token, &req).expect("v1 happy path validates");
    assert_eq!(amount, 10);
    assert_eq!(validator.mint_client().keysets_calls.get(), 1);
    assert_eq!(validator.mint_client().swap_calls.get(), 1);
    let sent: Vec<cashu::Proof> = new_proofs
        .iter()
        .map(|p| serde_json::from_str(&p.wire).expect("proof is JSON"))
        .collect();
    assert_eq!(sent, proofs);
}

#[test]
fn validate_propagates_keysets_unreachable() {
    let token = pop_token(mint_a(), vec![make_proof(10, 0)]);
    let req = requirement(pop_unit(), vec![url(mint_a())], 10);
    let validator =
        PopValidator::new(MockMintClient::new(SwapResponse::Echo, KeysetsResponse::Unreachable));

    let err = run(&validator, &token, &req).expect_err("keysets-unreachable must fail");
    assert!(
        matches!(err, ValidationError::MintUnreachable(_)),
        "expected MintUnreachable, got {err:?}"
    );
    assert_eq!(
        validator.mint_client().keysets_calls.get(),
        1,
        "keysets must be called once before unreachable surfaces"
    );
    assert_eq!(
        validator.mint_client().swap_calls.get(),
        0,
        "swap must NOT be called when keysets() failed"
    );
}

#[test]
fn validate_rejects_v1_token_with_no_matching_keyset() {
    let v1_id = v1_keyset_id();
    let token = pop_token(mint_a(), vec![proof_with_keyset(10, 0, v1_id)]);
    let req = requirement(pop_unit(), vec![url(mint_a())], 10);
    let validator =
        PopValidator::new(MockMintClient::new(SwapResponse::Echo, KeysetsResponse::Ids(Vec::new())));

    let err = run(&validator, &token, &req).expect_err("no-matching-keyset must fail");
    assert!(
        matches!(err, ValidationError::MalformedToken(_)),
        "expected MalformedToken, got {err:?}"
    );
    assert_eq!(
        validator.mint_client().keysets_calls.get(),
        1,
        "keysets must be called"
    );
    assert_eq!(
        validator.mint_client().swap_calls.get(),
        0,
        "swap must NOT be called when no proofs can be extracted"
    );
}

#[test]
fn any_mint_will_do_without_a_list() {
    let token = pop_token(mint_b(), vec![make_proof(10, 0)]);
    let req = requirement(pop_unit(), vec![], 10);
    let validator = PopValidator::new(MockMintClient::with_swap(SwapResponse::Echo));
    let pop = run(&validator, &token, &req).expect("any mint");
    assert_eq!(pop.mint_url, url(mint_b()));
}

#[test]
fn more_than_required_is_accepted() {
    let token = pop_token(mint_a(), vec![make_proof(8, 0), make_proof(4, 1)]);
    let req = requirement(pop_unit(), vec![url(mint_b()), url(mint_a())], 10);
    let validator = PopValidator::new(MockMintClient::with_swap(SwapResponse::Echo));
    let pop = run(&validator, &token, &req).expect("more than enough");
    assert_eq!(pop.amount, 12);
    assert_eq!(pop.clone().new_proofs, pop.new_proofs);
}

#[test]
fn token_amounts_that_overflow_are_malformed() {
    let token = pop_token(mint_a(), vec![make_proof(u64::MAX, 0), make_proof(1, 1)]);
    let req = requirement(pop_unit(), vec![], 10);
    let validator = PopValidator::new(MockMintClient::with_swap(SwapResponse::Echo));
    let err = run(&validator, &token, &req).expect_err("total does not fit");
    assert_eq!(err.to_string(), "malformed token: Amount Overflow");
    let cashu_err = cashu::Amount::try_sum(vec![
        cashu::Amount::from(u64::MAX),
        cashu::Amount::from(1),
    ])
    .unwrap_err();
    assert_eq!(cashu_err.to_string(), "Amount Overflow");
}

#[test]
fn new_amounts_that_overflow_are_malformed() {
    let token = pop_token(mint_a(), vec![make_proof(10, 0)]);
    let req = requirement(pop_unit(), vec![], 10);
    let validator = PopValidator::new(());
    let step = validator.validate(&token, &req).expect("fits");
    let step = step.try_resume(Ok(vec![])).expect("looked up").expect("proofs");
    let new = vec![
        Proof { amount: u64::MAX, wire: String::new() },
        Proof { amount: 1, wire: String::new() },
    ];
    let err = step.resume(Ok(new)).expect_err("total does not fit");
    assert_eq!(err.to_string(), "malformed token: Amount Overflow");
}

#[test]
fn refusal_of_keysets_is_a_refusal() {
    let token = pop_token(mint_a(), vec![make_proof(10, 0)]);
    let req = requirement(pop_unit(), vec![], 10);
    let step = PopValidator::new(()).validate(&token, &req).expect("fits");
    let err = step
        .try_resume(Err(MintClientError::RejectedSwap("no".into())))
        .expect("looked up")
        .expect_err("refused");
    assert_eq!(err.to_string(), "mint rejected swap: no");
}

#[test]
fn structure_is_checked_in_order() {
    let req = requirement(pop_unit(), vec![url(mint_a())], 10);
    let none = check_structure(None, Ok(url(mint_a())), &vec![10], &req).unwrap_err();
    assert_eq!(
        none.to_string(),
        "token unit Custom(\"\") does not match requirement unit Custom(\"pop_1700000000\")"
    );
    let many = check_structure(Some(pop_unit()), Err("two mints".into()), &vec![10], &req);
    assert_eq!(many.unwrap_err().to_string(), "malformed token: two mints");
    let empty = check_structure(Some(pop_unit()), Ok(url(mint_a())), &vec![], &req);
    assert!(matches!(empty, Err(ValidationError::TokenEmpty)));
    let other = check_structure(Some(pop_unit()), Ok(url(mint_b())), &vec![], &req);
    assert!(matches!(other, Err(ValidationError::MintNotAllowed { .. })));
    let fits = check_structure(Some(pop_unit()), Ok(url(mint_a())), &vec![4, 6], &req);
    assert_eq!(fits.unwrap(), url(mint_a()));
}

#[test]
fn a_long_short_id_does_not_meet_a_short_id_list() {
    // A version 4 token whose keyset id is written out with nine bytes.
    let v1_id = v1_keyset_id();
    let text = cashu::Token::new(
        cashu::MintUrl::from_str(mint_a()).unwrap(),
        vec![proof_with_keyset(10, 0, v1_id)],
        None,
        cashu::CurrencyUnit::Custom(pop_name()),
    );
    let token = match text {
        cashu::Token::TokenV4(mut t) => {
            let long = cashu::nuts::nut02::ShortKeysetId::from_bytes(&v1_id.to_bytes()[..9]);
            t.token[0].keyset_id = long.unwrap();
            Token::from_str(&t.to_string()).expect("decodes")
        }
        other => panic!("unexpected {other:?}"),
    };
    let v0 = KeysetId::V1([0x9a, 0x1f, 0x29, 0x32, 0x53, 0xe4, 0x1e]);
    let ids = vec![v0, keyset_id(v1_id)];
    assert!(!token.is_resolvable(&ids));
    assert!(token.is_resolvable(&vec![keyset_id(v1_id), v0]));
    assert!(token.is_resolvable(&vec![]));
    let req = requirement(pop_unit(), vec![], 10);
    let step = PopValidator::new(()).validate(&token, &req).expect("fits");
    assert!(step.try_resume(Ok(ids)).is_none());
    let step = PopValidator::new(()).validate(&token, &req).expect("fits");
    let step = step.try_resume(Ok(vec![keyset_id(v1_id), v0])).expect("found").expect("proofs");
    assert_eq!(step.proofs()[0].amount, 10);
}

#[test]
fn keyset_ids_have_a_version_byte() {
    assert_eq!(keyset_id(v1_keyset_id()).to_bytes(), v1_keyset_id().to_bytes());
    assert_eq!(KeysetId::V1([1, 2, 3, 4, 5, 6, 7]).to_bytes(), vec![0, 1, 2, 3, 4, 5, 6, 7]);
}

#[test]
fn sums_are_checked() {
    assert_eq!(sum_amounts(&vec![]), Ok(0));
    assert_eq!(sum_amounts(&vec![1, 2, 4]), Ok(7));
    assert_eq!(sum_amounts(&vec![u64::MAX, 0]), Ok(u64::MAX));
    assert_eq!(sum_amounts(&vec![u64::MAX, 1]), Err("Amount Overflow".to_string()));
    let proof = Proof { amount: 3, wire: "{}".to_string() };
    assert_eq!(total_amount(&vec![proof.clone(), proof]), Ok(6));
}
