use std::str::FromStr;

use base64::engine::general_purpose::URL_SAFE_NO_PAD;
use base64::Engine;
use cashu::nuts::nut18::PaymentRequest;
use cdk_pop_verifier::{
    decode_request_envelope, decode_token, encode_challenge, encode_request_envelope,
    CurrencyUnit, Error, MintUrl, PopRequirement,
};

fn mint(url: &str) -> MintUrl {
    MintUrl::from_str(url).expect("valid mint url")
}

fn sample_requirement() -> PopRequirement {
    PopRequirement {
        unit: CurrencyUnit::Custom("pop_1700000000".to_string()),
        mints: vec![mint("https://mint1.example.com"), mint("https://mint2.example.com")],
        amount: 42,
        payment_id: Some("pop-test-id".to_string()),
        description: Some("test challenge".to_string()),
        single_use: true,
    }
}

#[test]
fn encode_challenge_has_creqa_prefix() {
    let req = sample_requirement();
    let encoded = encode_challenge(&req);
    assert!(
        encoded.starts_with("creqA"),
        "expected creqA prefix, got {}",
        &encoded[..encoded.len().min(16)]
    );
}

#[test]
fn encode_challenge_roundtrips_through_payment_request() {
    let req = sample_requirement();
    let encoded = encode_challenge(&req);

    let parsed = PaymentRequest::from_str(&encoded).expect("decodes as PaymentRequest");

    assert_eq!(parsed.payment_id, req.payment_id);
    assert_eq!(parsed.amount, Some(cashu::Amount::from(req.amount)));
    assert_eq!(
        parsed.unit,
        Some(cashu::CurrencyUnit::Custom("pop_1700000000".to_string()))
    );
    assert_eq!(parsed.single_use, Some(req.single_use));
    assert_eq!(
        parsed.mints,
        vec![
            cashu::MintUrl::from_str("https://mint1.example.com").expect("valid mint url"),
            cashu::MintUrl::from_str("https://mint2.example.com").expect("valid mint url"),
        ]
    );
    assert_eq!(parsed.description, req.description);
    assert!(
        parsed.transports.is_empty(),
        "NUT-24 in-band: transports must be empty"
    );
    assert!(parsed.nut10.is_none(), "PoP v1 bearer: nut10 must be None");
}

#[test]
fn encode_challenge_preserves_pop_custom_unit() {
    let req = PopRequirement {
        unit: CurrencyUnit::Custom("pop_1700000000".to_string()),
        mints: vec![],
        amount: 1,
        payment_id: None,
        description: None,
        single_use: false,
    };
    let parsed = PaymentRequest::from_str(&encode_challenge(&req)).unwrap();
    assert_eq!(
        parsed.unit,
        Some(cashu::CurrencyUnit::Custom("pop_1700000000".to_string()))
    );
}

const VALID_CASHU_B: &str = "cashuBpGF0gaJhaUgArSaMTR9YJmFwgaNhYQFhc3hAOWE2ZGJiODQ3YmQyMzJiYTc2ZGIwZGYxOTcyMTZiMjlkM2I4Y2MxNDU1M2NkMjc4MjdmYzFjYzk0MmZlZGI0ZWFjWCEDhhhUP_trhpXfStS6vN6So0qWvc2X3O4NfM-Y1HISZ5JhZGlUaGFuayB5b3VhbXVodHRwOi8vbG9jYWxob3N0OjMzMzhhdWNzYXQ=";

#[test]
fn decode_token_accepts_valid_cashub() {
    let token = decode_token(VALID_CASHU_B).expect("decodes valid cashuB token");
    assert_eq!(token.as_str(), VALID_CASHU_B);
    let reencoded = cashu::Token::from_str(token.as_str()).expect("decodes").to_string();
    assert!(
        reencoded.starts_with("cashuB"),
        "expected cashuB roundtrip, got {}",
        &reencoded[..reencoded.len().min(8)]
    );
}

#[test]
fn decode_token_trims_whitespace() {
    let padded = format!("  {VALID_CASHU_B}\n");
    let token = decode_token(&padded).expect("trimmed whitespace decodes");
    assert_eq!(token.as_str(), VALID_CASHU_B);
}

#[test]
fn decode_token_rejects_unknown_prefix() {
    let err = decode_token("notatoken").expect_err("should reject unknown prefix");
    assert!(
        matches!(err, Error::InvalidHeader(_)),
        "expected InvalidHeader, got {err:?}"
    );
    assert_eq!(
        err.to_string(),
        "invalid X-Cashu header: expected cashuA/cashuB prefix, got \"notatoke\""
    );
}

#[test]
fn decode_token_rejects_empty_input() {
    let err = decode_token("").expect_err("should reject empty input");
    assert!(matches!(err, Error::InvalidHeader(_)));
    assert_eq!(
        err.to_string(),
        "invalid X-Cashu header: expected cashuA/cashuB prefix, got \"\""
    );
}

#[test]
fn decode_token_rejects_malformed_cashub_payload() {
    let err = decode_token("cashuB!!!notbase64!!!")
        .expect_err("malformed payload should fail to decode");
    assert!(
        matches!(err, Error::DecodeFailed(_)),
        "expected DecodeFailed, got {err:?}"
    );
    let message = cashu::Token::from_str("cashuB!!!notbase64!!!").unwrap_err().to_string();
    assert_eq!(err.to_string(), format!("failed to decode token: {message}"));
}

#[test]
fn request_envelope_roundtrips() {
    let req = sample_requirement();
    let creq = encode_challenge(&req);
    let envelope = encode_request_envelope(&creq);
    let unwrapped = decode_request_envelope(&envelope).expect("request envelope round-trips");
    assert_eq!(unwrapped, creq);
}

#[test]
fn request_envelope_is_base64url_nopad() {
    let envelope = encode_request_envelope("creqAdummy");
    for c in envelope.chars() {
        assert!(
            c.is_ascii_alphanumeric() || c == '-' || c == '_',
            "envelope contains non-base64url char {c:?}: {envelope}"
        );
    }
}

#[test]
fn decode_request_envelope_rejects_bad_base64() {
    let err = decode_request_envelope("!!!notbase64!!!").expect_err("bad base64");
    assert!(matches!(err, Error::DecodeFailed(_)));
}

#[test]
fn decode_request_envelope_rejects_missing_field() {
    let bad = URL_SAFE_NO_PAD.encode(br#"{"other":"x"}"#);
    let err = decode_request_envelope(&bad).expect_err("missing cashu_request");
    assert!(matches!(err, Error::DecodeFailed(_)));
    assert_eq!(
        err.to_string(),
        "failed to decode token: request envelope json: missing field `cashu_request` \
         at line 1 column 13"
    );
}

fn open(json: &[u8]) -> Result<String, String> {
    decode_request_envelope(&URL_SAFE_NO_PAD.encode(json)).map_err(|e| match e {
        Error::DecodeFailed(m) => m,
        other => panic!("expected DecodeFailed, got {other:?}"),
    })
}

#[test]
fn request_envelope_is_this_json() {
    let envelope = encode_request_envelope("a\"b\\c\n\u{e9}");
    let json = URL_SAFE_NO_PAD.decode(&envelope).expect("base64url");
    assert_eq!(json, "{\"cashu_request\":\"a\\\"b\\\\c\\n\u{e9}\"}".as_bytes());
    assert_eq!(decode_request_envelope(&envelope).unwrap(), "a\"b\\c\n\u{e9}");
    assert_eq!(
        encode_request_envelope("creqAdummy"),
        "eyJjYXNodV9yZXF1ZXN0IjoiY3JlcUFkdW1teSJ9"
    );
}

#[test]
fn envelope_ignores_whitespace_and_other_members() {
    let json = br#" { "z" : {"cashu_request": ["x"]} , "cashu_request" : "creqA", "n": 1e999 } "#;
    assert_eq!(open(json).unwrap(), "creqA");
    let padded = format!(" \t{}\n", URL_SAFE_NO_PAD.encode(json));
    assert_eq!(decode_request_envelope(&padded).unwrap(), "creqA");
}

#[test]
fn envelope_reads_escaped_keys_and_values() {
    assert_eq!(open(br#"{"cashu_request":"ab"}"#).unwrap(), "ab");
    assert_eq!(open(br#"{"k":"\"cashu_request\":","cashu_request":"c"}"#).unwrap(), "c");
}

#[test]
fn envelope_may_be_an_array_of_one_string() {
    assert_eq!(open(br#"["creqA"]"#).unwrap(), "creqA");
    assert!(open(br#"["creqA","creqB"]"#).is_err());
    assert!(open(br#"[]"#).is_err());
}

#[test]
fn envelope_member_must_occur_once() {
    assert_eq!(
        open(br#"{"cashu_request":"a","cashu_request":"b"}"#).unwrap_err(),
        "request envelope json: duplicate field `cashu_request` at line 1 column 36"
    );
    assert_eq!(
        open(b"{\"cashu_request\":\"a\",\n\"cashu_request\" :\"a\"}").unwrap_err(),
        "request envelope json: duplicate field `cashu_request` at line 2 column 16"
    );
    assert_eq!(open(br#"{"x":1,"x":2,"cashu_request":"a"}"#).unwrap(), "a");
}

#[test]
fn envelope_member_must_be_a_string() {
    let err = open(br#"{"cashu_request":5}"#).unwrap_err();
    assert_eq!(
        err,
        "request envelope json: invalid type: integer `5`, expected a string at line 1 column 18"
    );
}

#[test]
fn envelope_must_be_json_in_utf8() {
    assert!(open(b"{\"cashu_request\":\"a\"").is_err());
    assert!(open(b"{\"cashu_request\":\"a\"} x").is_err());
    assert!(open(b"{\"other\":\"\xff\",\"cashu_request\":\"a\"}").is_err());
    assert!(open(b"\"creqA\"").is_err());
    assert!(open(b"").is_err());
}

#[test]
fn bad_base64_is_named() {
    match decode_request_envelope("!!!notbase64!!!") {
        Err(Error::DecodeFailed(m)) => assert_eq!(
            m,
            "request envelope base64: Invalid symbol 33, offset 0."
        ),
        other => panic!("unexpected {other:?}"),
    }
}

#[test]
fn challenge_keeps_odd_mints_and_built_in_units() {
    let odd = mint("http://H///://x");
    assert_eq!(odd.as_str(), "http://h///");
    let req = PopRequirement {
        unit: CurrencyUnit::Sat,
        mints: vec![odd, mint("HTTPS://Mint.Example.com/Path/")],
        amount: u64::MAX,
        payment_id: None,
        description: Some(String::new()),
        single_use: false,
    };
    let same = cashu::PaymentRequest {
        payment_id: None,
        amount: Some(cashu::Amount::from(u64::MAX)),
        unit: Some(cashu::CurrencyUnit::Sat),
        single_use: Some(false),
        mints: vec![
            cashu::MintUrl::from_str("http://h///://x").unwrap(),
            cashu::MintUrl::from_str("https://mint.example.com/Path").unwrap(),
        ],
        description: Some(String::new()),
        transports: vec![],
        nut10: None,
    };
    assert_eq!(encode_challenge(&req), same.to_string());
}

#[test]
fn payment_request_is_in_band_and_unlocked() {
    let request = sample_requirement().to_payment_request();
    assert_eq!(request.amount, Some(42));
    assert_eq!(request.single_use, Some(true));
    assert_eq!(request.unit, Some(CurrencyUnit::Custom("pop_1700000000".to_string())));
    assert_eq!(request.mints, sample_requirement().mints);
    assert_eq!(request.payment_id, Some("pop-test-id".to_string()));
    assert_eq!(request.description, Some("test challenge".to_string()));
    assert!(request.transports.is_empty());
    assert!(request.nut10.is_none());
}

#[test]
fn requirements_can_be_cloned() {
    assert_eq!(sample_requirement().clone(), sample_requirement());
}

#[test]
fn version_3_tokens_decode() {
    let v4 = cashu::Token::from_str(VALID_CASHU_B).unwrap();
    let v3 = match v4 {
        cashu::Token::TokenV4(t) => cashu::nuts::nut00::token::TokenV3::try_from(t).unwrap(),
        cashu::Token::TokenV3(t) => t,
    };
    let text = v3.to_string();
    assert!(text.starts_with("cashuA"));
    let token = decode_token(&text).expect("decodes");
    assert_eq!(token.amounts(), vec![1]);
    assert_eq!(token.unit(), Some(CurrencyUnit::Sat));
    assert_eq!(token.mint_url().unwrap().as_str(), "http://localhost:3338");
}
