use std::str::FromStr;

use cdk_pop_verifier::currency::parse_unit;
use cdk_pop_verifier::mint_url::parse_mint_url;
use cdk_pop_verifier::{
    parse_payment_authorization, AuthParseError, CurrencyUnit, Error, MintClientError, MintUrl,
    PopVerifier,
};

#[test]
fn units_are_read_as_the_codec_reads_them() {
    assert_eq!(parse_unit("SAT"), Ok(CurrencyUnit::Sat));
    assert_eq!(parse_unit("msat"), Ok(CurrencyUnit::Msat));
    assert_eq!(parse_unit("Usd"), Ok(CurrencyUnit::Usd));
    assert_eq!(parse_unit("eur"), Ok(CurrencyUnit::Eur));
    assert_eq!(parse_unit("auth"), Ok(CurrencyUnit::Auth));
    assert_eq!(
        parse_unit(" pop_1700000000\n"),
        Ok(CurrencyUnit::Custom("pop_1700000000".to_string()))
    );
    assert_eq!(parse_unit("Pop_1"), Ok(CurrencyUnit::Custom("Pop_1".to_string())));
}

#[test]
fn units_are_written_in_small_letters() {
    assert_eq!(CurrencyUnit::Sat.to_string(), "sat");
    assert_eq!(CurrencyUnit::Msat.to_string(), "msat");
    assert_eq!(CurrencyUnit::Usd.to_string(), "usd");
    assert_eq!(CurrencyUnit::Eur.to_string(), "eur");
    assert_eq!(CurrencyUnit::Auth.to_string(), "auth");
    assert_eq!(CurrencyUnit::Custom("pop_17".to_string()).to_string(), "pop_17");
    assert_eq!(CurrencyUnit::Custom("Pop_17".to_string()).to_string(), "pop_17");
}

#[test]
fn units_are_shown_as_their_variants() {
    for (unit, same) in [
        (CurrencyUnit::Sat, cashu::CurrencyUnit::Sat),
        (CurrencyUnit::Auth, cashu::CurrencyUnit::Auth),
        (CurrencyUnit::Custom("a\"\u{1}".into()), cashu::CurrencyUnit::Custom("a\"\u{1}".into())),
    ] {
        assert_eq!(unit.to_debug(), format!("{same:?}"));
        assert!(unit.same_as(&unit.clone()));
    }
    assert!(!CurrencyUnit::Sat.same_as(&CurrencyUnit::Custom("sat".into())));
    assert!(!CurrencyUnit::Custom("a".into()).same_as(&CurrencyUnit::Custom("b".into())));
}

#[test]
fn mint_urls_are_normalised() {
    let url = parse_mint_url("HTTPS://Mint.Example.com/Path//").unwrap();
    assert_eq!(url.as_str(), "https://mint.example.com/Path");
    assert_eq!(url, url.clone());
    assert!(url.same_as(&MintUrl::from_str("https://mint.example.com/Path").unwrap()));
    assert!(!url.same_as(&MintUrl::from_str("https://mint.example.com").unwrap()));
    let same = cashu::MintUrl::from_str("https://mint.example.com/Path").unwrap();
    assert_eq!(url.to_debug(), format!("{same:?}"));
}

#[test]
fn a_text_without_a_protocol_is_no_mint_url() {
    assert_eq!(
        parse_mint_url("no\"url"),
        Err("invalid mint url \"no\\\"url\": Invalid URL".to_string())
    );
    assert!(MintUrl::from_str("").is_err());
}

#[test]
fn errors_have_messages() {
    assert_eq!(Error::InvalidHeader("x".into()).to_string(), "invalid X-Cashu header: x");
    assert_eq!(Error::DecodeFailed("x".into()).to_string(), "failed to decode token: x");
    assert_eq!(Error::EncodeFailed("x".into()).to_string(), "failed to encode challenge: x");
    assert_eq!(MintClientError::Unreachable("x".into()).to_string(), "mint unreachable: x");
    assert_eq!(MintClientError::RejectedSwap("x".into()).to_string(), "mint rejected swap: x");
    assert_eq!(
        AuthParseError::MissingToken.to_string(),
        "Payment header missing 'token' parameter"
    );
    assert_eq!(
        AuthParseError::MalformedParams("x".into()).to_string(),
        "malformed Payment auth params: x"
    );
    assert_eq!(format!("{:?}", PopVerifier), "PopVerifier");
}

#[test]
fn malformed_params_say_what_is_wrong() {
    let message = |header: &str| match parse_payment_authorization(header) {
        Err(AuthParseError::MalformedParams(m)) => m,
        other => panic!("unexpected {other:?}"),
    };
    assert_eq!(message("Payment method=\"cashu"), "unterminated quoted-string");
    assert_eq!(message("Payment method=\"\\"), "trailing backslash inside quoted-string");
    assert_eq!(message("Payment =\"cashu\""), "expected param name");
    assert_eq!(message("Payment method \"cashu\""), "expected '=' after param name");
    assert_eq!(message("Payment method="), "missing value after '='");
    assert_eq!(
        message("Payment method=cashu"),
        "value must be a quoted-string (v1 requires \"\u{2026}\")"
    );
    assert_eq!(
        message("Payment method=\"cashu\"x"),
        "expected ',' or end after value, got 'x'"
    );
    assert_eq!(
        message("Payment method=\"cashu\"'"),
        "expected ',' or end after value, got '\\''"
    );
}

#[test]
fn values_outside_ascii_are_read_byte_by_byte() {
    assert_eq!(
        parse_payment_authorization("Payment method=\"cashu\", token=\"\u{e9}\""),
        Ok("\u{c3}\u{a9}".to_string())
    );
}

#[test]
fn unicode_whitespace_around_a_header_is_trimmed() {
    assert_eq!(
        parse_payment_authorization("\u{2003}Payment method=\"cashu\", token=\"t\"\u{85}"),
        Ok("t".to_string())
    );
    assert_eq!(
        parse_payment_authorization("Payment\u{a0}method=\"cashu\", token=\"t\""),
        Err(AuthParseError::UnknownScheme)
    );
}

#[test]
fn lists_joined_by_a_comma_carry_both_lists() {
    let one = "method=\"cashu\" ,";
    let other = " , token=\"t\"";
    assert_eq!(
        parse_payment_authorization(&format!("Payment {one},{other}")),
        Ok("t".to_string())
    );
    assert_eq!(
        parse_payment_authorization(&format!("Payment {other},{one}")),
        Ok("t".to_string())
    );
    assert_eq!(
        parse_payment_authorization("Payment method=\"cashu\", token=\"a\", token=\"b\""),
        Ok("a".to_string())
    );
}

#[test]
fn case_matters_in_values_only() {
    assert_eq!(
        parse_payment_authorization("Payment method=\"cashu\", token=\"A\\\"method=\""),
        Ok("A\"method=".to_string())
    );
    assert_eq!(
        parse_payment_authorization(" \tpAYMENT mEtHoD=\"cashu\", TOKEN=\"A\\\"method=\"\r\n"),
        Ok("A\"method=".to_string())
    );
    assert_eq!(
        parse_payment_authorization("Payment method=\"Cashu\", token=\"t\""),
        Err(AuthParseError::WrongMethod("Cashu".to_string()))
    );
    assert_eq!(
        parse_payment_authorization("PAYMENT METHOD=\"cashu\""),
        Err(AuthParseError::MissingToken)
    );
}
