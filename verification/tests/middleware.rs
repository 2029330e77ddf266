use std::str::FromStr;

use cashu::dhke::hash_to_curve;
use cashu::nuts::nut02::Id;
use cashu::secret::Secret;
use cdk_pop_verifier::auth_header::{parse_payment_authorization, AuthParseError};
use cdk_pop_verifier::middleware::{
    auth_parse_error_to_response, challenge_response, decode_error_to_response, require_pop,
    resume_keysets, resume_swap, try_resume_keysets, validation_error_to_response, Access,
    PopMiddlewareState, Response,
};
use cdk_pop_verifier::{
    encode_challenge, CurrencyUnit, Error, KeysetId, MintClientError, MintUrl, PopRequirement,
    PopValidator, Proof, ValidatedPop, ValidationError,
};

enum SwapResponse {
    Echo,
    Unreachable,
    RejectedSwap,
}

struct MockMintClient {
    swap_response: SwapResponse,
}

impl MockMintClient {
    fn keysets(&self, _mint_url: &MintUrl) -> Result<Vec<KeysetId>, MintClientError> {
        Ok(Vec::new())
    }

    fn swap(&self, _mint_url: &MintUrl, proofs: &Vec<Proof>) -> Result<Vec<Proof>, MintClientError> {
        match self.swap_response {
            SwapResponse::Echo => Ok(proofs.clone()),
            SwapResponse::Unreachable => {
                Err(MintClientError::Unreachable("mock unreachable".into()))
            }
            SwapResponse::RejectedSwap => {
                Err(MintClientError::RejectedSwap("mock rejected".into()))
            }
        }
    }
}

fn pop_unit() -> CurrencyUnit {
    CurrencyUnit::Custom("pop_1700000000".to_string())
}

fn mint_a() -> MintUrl {
    MintUrl::from_str("https://mint-a.example.com").expect("valid mint url")
}

fn make_proof(amount: u64, index: u8) -> cashu::Proof {
    let keyset_id = Id::from_str("009a1f293253e41e").expect("valid v0 keyset id");
    let mut preimage = [0u8; 33];
    preimage[0] = 1;
    preimage[1] = index;
    let c = hash_to_curve(&preimage).expect("hash_to_curve");
    cashu::Proof::new(cashu::Amount::from(amount), keyset_id, Secret::generate(), c)
}

fn make_token(unit: cashu::CurrencyUnit, proofs: Vec<cashu::Proof>) -> String {
    let mint = cashu::MintUrl::from_str("https://mint-a.example.com").expect("valid mint url");
    cashu::Token::new(mint, proofs, None, unit).to_string()
}

fn pop_token(proofs: Vec<cashu::Proof>) -> String {
    make_token(cashu::CurrencyUnit::Custom("pop_1700000000".to_string()), proofs)
}

fn requirement(unit: CurrencyUnit, mints: Vec<MintUrl>, amount: u64) -> PopRequirement {
    PopRequirement {
        unit,
        mints,
        amount,
        payment_id: None,
        description: None,
        single_use: true,
    }
}

fn state_with(swap_response: SwapResponse) -> PopMiddlewareState<MockMintClient> {
    PopMiddlewareState::new(
        requirement(pop_unit(), vec![mint_a()], 10),
        PopValidator::new(MockMintClient { swap_response }),
    )
}

fn run(
    state: &PopMiddlewareState<MockMintClient>,
    authorization: Option<&[u8]>,
) -> Result<ValidatedPop, Response> {
    let client = state.validator.mint_client();
    let mut access = require_pop(state, authorization);
    loop {
        access = match access {
            Access::Respond(response) => return Err(response),
            Access::Admit(pop) => return Ok(pop),
            Access::FetchKeysets(step) => {
                let reply = client.keysets(step.mint_url());
                try_resume_keysets(step, reply).expect("keyset ids can be looked up")
            }
            Access::Swap(step) => {
                let reply = client.swap(step.mint_url(), step.proofs());
                resume_swap(step, reply)
            }
        };
    }
}

fn payment_header_with_token(token: &str) -> String {
    format!(r#"Payment method="cashu", token="{token}""#)
}

fn refused(swap: SwapResponse, authorization: &str) -> Response {
    match run(&state_with(swap), Some(authorization.as_bytes())) {
        Err(response) => response,
        Ok(pop) => panic!("admitted {pop:?}"),
    }
}

#[test]
fn no_authorization_header_returns_402_with_www_authenticate() {
    let state = state_with(SwapResponse::Echo);
    let response = run(&state, None).expect_err("challenged");
    assert_eq!(response.status, 402);
    let header_str = response.www_authenticate.expect("WWW-Authenticate header present on 402");
    assert!(
        header_str.starts_with(r#"Payment method="cashu", challenge="creqA"#),
        "expected MPP-Cashu envelope, got {header_str}"
    );
    assert!(
        header_str.ends_with('"'),
        "challenge value must be quoted-string-terminated, got {header_str}"
    );
    assert_eq!(
        header_str,
        format!(
            r#"Payment method="cashu", challenge="{}""#,
            encode_challenge(&state.requirement)
        )
    );
    assert_eq!(response.body, "");
}

#[test]
fn valid_token_passes_through_to_handler() {
    let encoded = pop_token(vec![make_proof(8, 0), make_proof(2, 1)]);
    let header = payment_header_with_token(&encoded);
    let pop = run(&state_with(SwapResponse::Echo), Some(header.as_bytes())).expect("admitted");
    assert_eq!(format!("ok:{}", pop.amount), "ok:10");
}

#[test]
fn invalid_header_encoding_returns_400() {
    let response = run(&state_with(SwapResponse::Echo), Some(&[0xFFu8, 0xFE, 0xFD]))
        .expect_err("not text");
    assert_eq!(response.status, 400);
    assert!(
        response.body.contains("invalid Authorization header encoding"),
        "unexpected body: {}",
        response.body
    );
}

#[test]
fn malformed_token_returns_400() {
    let response =
        refused(SwapResponse::Echo, &payment_header_with_token("cashuB!!!notbase64!!!"));
    assert_eq!(response.status, 400);
    assert!(
        response.body.contains("decode failed"),
        "expected decode-failed message, got: {}",
        response.body
    );
}

#[test]
fn unit_mismatch_returns_400() {
    let encoded = make_token(cashu::CurrencyUnit::Sat, vec![make_proof(10, 0)]);
    let response = refused(SwapResponse::Echo, &payment_header_with_token(&encoded));
    assert_eq!(response.status, 400);
    assert!(
        response.body.contains("does not match requirement unit"),
        "expected unit-mismatch message, got: {}",
        response.body
    );
}

#[test]
fn mint_unreachable_returns_503() {
    let encoded = pop_token(vec![make_proof(10, 0)]);
    let response = refused(SwapResponse::Unreachable, &payment_header_with_token(&encoded));
    assert_eq!(response.status, 503);
    assert!(
        response.body.contains("mint unreachable"),
        "expected mint-unreachable message, got: {}",
        response.body
    );
}

#[test]
fn mint_rejected_returns_400() {
    let encoded = pop_token(vec![make_proof(10, 0)]);
    let response = refused(SwapResponse::RejectedSwap, &payment_header_with_token(&encoded));
    assert_eq!(response.status, 400);
    assert!(
        response.body.contains("mint rejected swap"),
        "expected mint-rejected-swap message, got: {}",
        response.body
    );
}

#[test]
fn non_payment_scheme_returns_402() {
    let response = refused(SwapResponse::Echo, "Bearer abcdef");
    assert_eq!(response.status, 402);
    let header = response.www_authenticate.expect("challenge re-issued on non-Payment scheme");
    assert!(header.starts_with(r#"Payment method="cashu""#));
}

#[test]
fn payment_with_wrong_method_returns_400() {
    let response = refused(SwapResponse::Echo, r#"Payment method="tempo", token="cashuBabc""#);
    assert_eq!(response.status, 400);
    assert!(
        response.body.contains("method must be 'cashu'"),
        "expected wrong-method message, got: {}",
        response.body
    );
}

#[test]
fn payment_with_missing_token_returns_400() {
    let response = refused(SwapResponse::Echo, r#"Payment method="cashu""#);
    assert_eq!(response.status, 400);
    assert!(
        response.body.contains("missing 'token'"),
        "expected missing-token message, got: {}",
        response.body
    );
}

#[test]
fn payment_with_missing_method_returns_400() {
    let response = refused(SwapResponse::Echo, r#"Payment token="cashuBabc""#);
    assert_eq!(response.status, 400);
    assert!(
        response.body.contains("missing 'method'"),
        "expected missing-method message, got: {}",
        response.body
    );
}

#[test]
fn malformed_params_return_400() {
    let response = refused(SwapResponse::Echo, "Payment method=cashu");
    assert_eq!(response.status, 400);
    assert!(
        response.body.starts_with(
            "invalid Authorization: Payment header: malformed Payment auth params: "
        ),
        "{}",
        response.body
    );
}

#[test]
fn unknown_token_prefix_returns_400() {
    let response = refused(SwapResponse::Echo, &payment_header_with_token("nope"));
    assert_eq!(response.status, 400);
    assert_eq!(
        response.body,
        "invalid token value: invalid X-Cashu header: expected cashuA/cashuB prefix, got \"nope\""
    );
}

#[test]
fn insufficient_amount_never_asks_the_mint() {
    let encoded = pop_token(vec![make_proof(9, 0)]);
    let header = payment_header_with_token(&encoded);
    match require_pop(&state_with(SwapResponse::Echo), Some(header.as_bytes())) {
        Access::Respond(response) => {
            assert_eq!(response.status, 400);
            assert_eq!(response.body, "token amount 9 is below required 10");
            assert!(response.www_authenticate.is_none());
        }
        access => panic!("unexpected {access:?}"),
    }
}

#[test]
fn params_in_any_order_and_case_are_admitted() {
    let encoded = pop_token(vec![make_proof(10, 0)]);
    let header = format!("PAYMENT TOKEN=\"{encoded}\",\tMethod=\"cashu\"");
    let pop = run(&state_with(SwapResponse::Echo), Some(header.as_bytes())).expect("admitted");
    assert_eq!(pop.amount, 10);
    assert_eq!(pop.unit, pop_unit());
    assert_eq!(pop.mint_url, mint_a());
}

#[test]
fn header_bytes_decide_on_encoding() {
    let state = state_with(SwapResponse::Echo);
    for bytes in [&b"Payment \x7f"[..], b"Payment \n", b"caf\xc3\xa9", b"\0"] {
        let response = run(&state, Some(bytes)).expect_err("not text");
        assert_eq!(response.status, 400);
        assert_eq!(response.body, "invalid Authorization header encoding");
    }
    let response = run(&state, Some(b"\tBasic x ~")).expect_err("challenged");
    assert_eq!(response.status, 402);
    let response = run(&state, Some(b"")).expect_err("challenged");
    assert_eq!(response.status, 402);
}

#[test]
fn unreachable_keysets_return_503() {
    let encoded = pop_token(vec![make_proof(10, 0)]);
    let header = payment_header_with_token(&encoded);
    match require_pop(&state_with(SwapResponse::Echo), Some(header.as_bytes())) {
        Access::FetchKeysets(step) => {
            assert_eq!(step.mint_url(), &mint_a());
            match resume_keysets(step, Err(MintClientError::Unreachable("dns".into()))) {
                Access::Respond(response) => {
                    assert_eq!(response.status, 503);
                    assert_eq!(response.body, "mint unreachable: dns");
                }
                access => panic!("unexpected {access:?}"),
            }
        }
        access => panic!("unexpected {access:?}"),
    }
}

#[test]
fn each_error_has_its_response() {
    let response = auth_parse_error_to_response(AuthParseError::WrongMethod("a\"b".into()));
    assert_eq!(response.status, 400);
    assert_eq!(
        response.body,
        "invalid Authorization: Payment header: Payment header method must be 'cashu', got \"a\\\"b\""
    );
    assert_eq!(AuthParseError::UnknownScheme.to_string(), "auth scheme is not 'Payment'");
    let response = auth_parse_error_to_response(AuthParseError::MissingMethod);
    assert_eq!(
        response.body,
        "invalid Authorization: Payment header: Payment header missing 'method' parameter"
    );
    let response = decode_error_to_response(Error::EncodeFailed("x".into()));
    assert_eq!(response.status, 400);
    assert_eq!(response.body, "encode failed: failed to encode challenge: x");
    let response = decode_error_to_response(Error::DecodeFailed("x".into()));
    assert_eq!(response.body, "decode failed: failed to decode token: x");
    let response = validation_error_to_response(ValidationError::TokenEmpty);
    assert_eq!(response.status, 400);
    assert_eq!(response.body, "token contains no proofs");
    let response = validation_error_to_response(ValidationError::MintUnreachable("x".into()));
    assert_eq!(response.status, 503);
    let response = validation_error_to_response(ValidationError::MalformedToken("x".into()));
    assert_eq!(response.status, 400);
}

#[test]
fn another_scheme_is_answered_like_no_header() {
    let state = state_with(SwapResponse::Echo);
    let missing = run(&state, None).expect_err("challenged");
    let bearer = run(&state, Some(b"Bearer abcdef")).expect_err("challenged");
    assert_eq!(missing.status, bearer.status);
    assert_eq!(missing.www_authenticate, bearer.www_authenticate);
    assert_eq!(missing.body, bearer.body);
}

#[test]
fn challenge_header_is_a_payment_header_without_a_token() {
    let response = run(&state_with(SwapResponse::Echo), None).expect_err("challenged");
    let header = response.www_authenticate.expect("challenge");
    assert_eq!(parse_payment_authorization(&header), Err(AuthParseError::MissingToken));
    let renamed = header.replacen("challenge", "token", 1);
    let challenge = parse_payment_authorization(&renamed).expect("reads");
    assert!(cashu::PaymentRequest::from_str(&challenge).is_ok());
}

#[test]
fn a_quoted_token_is_the_token_that_is_decoded() {
    let response = refused(SwapResponse::Echo, r#"Payment method="cashu", token="\"\\\a""#);
    assert_eq!(
        response.body,
        "invalid token value: invalid X-Cashu header: expected cashuA/cashuB prefix, got \"\\\"\\\\a\""
    );
}

#[test]
fn challenge_response_is_a_402() {
    let req = requirement(pop_unit(), vec![], 1);
    let response = challenge_response(&req);
    assert_eq!(response.status, 402);
    assert!(response.www_authenticate.unwrap().contains(&encode_challenge(&req)));
}
