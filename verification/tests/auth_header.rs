use cdk_pop_verifier::auth_header::{parse_payment_authorization, AuthParseError};

#[test]
fn happy_path_returns_token() {
    let token = parse_payment_authorization(
        r#"Payment method="cashu", token="cashuBabcdef==""#,
    )
    .expect("parses");
    assert_eq!(token, "cashuBabcdef==");
}

#[test]
fn happy_path_params_in_any_order() {
    let token = parse_payment_authorization(
        r#"Payment token="cashuBxyz", method="cashu""#,
    )
    .expect("parses");
    assert_eq!(token, "cashuBxyz");
}

#[test]
fn scheme_is_case_insensitive() {
    let token = parse_payment_authorization(
        r#"PAYMENT method="cashu", token="cashuBabc""#,
    )
    .expect("parses");
    assert_eq!(token, "cashuBabc");
    let token = parse_payment_authorization(
        r#"payment method="cashu", token="cashuBabc""#,
    )
    .expect("parses");
    assert_eq!(token, "cashuBabc");
}

#[test]
fn param_keys_are_case_insensitive() {
    let token = parse_payment_authorization(
        r#"Payment Method="cashu", TOKEN="cashuBabc""#,
    )
    .expect("parses");
    assert_eq!(token, "cashuBabc");
}

#[test]
fn missing_scheme_returns_unknown_scheme() {
    let err = parse_payment_authorization("").expect_err("empty header");
    assert_eq!(err, AuthParseError::UnknownScheme);
    let err = parse_payment_authorization("   ").expect_err("whitespace only");
    assert_eq!(err, AuthParseError::UnknownScheme);
    // A non-Payment bare token has no params either, but we
    // surface UnknownScheme because the scheme name itself fails
    // the equality check.
    let err =
        parse_payment_authorization("Bearer").expect_err("non-Payment bare scheme");
    assert_eq!(err, AuthParseError::UnknownScheme);
}

#[test]
fn bearer_scheme_returns_unknown_scheme() {
    let err = parse_payment_authorization("Bearer abc123").expect_err("not Payment");
    assert_eq!(err, AuthParseError::UnknownScheme);
}

#[test]
fn wrong_method_returns_wrong_method() {
    let err = parse_payment_authorization(
        r#"Payment method="tempo", token="abc""#,
    )
    .expect_err("method=tempo");
    assert_eq!(err, AuthParseError::WrongMethod("tempo".into()));
}

#[test]
fn missing_method_returns_missing_method() {
    let err = parse_payment_authorization(r#"Payment token="cashuBabc""#)
        .expect_err("no method");
    assert_eq!(err, AuthParseError::MissingMethod);
    // Trailing whitespace after scheme, then nothing else.
    let err = parse_payment_authorization("Payment  ").expect_err("scheme only");
    assert_eq!(err, AuthParseError::MissingMethod);
}

#[test]
fn missing_token_returns_missing_token() {
    let err = parse_payment_authorization(r#"Payment method="cashu""#)
        .expect_err("no token");
    assert_eq!(err, AuthParseError::MissingToken);
}

#[test]
fn token_style_value_returns_malformed() {
    // Bare value (no quotes) — we explicitly require quoted-string
    // in v1 (see module docs).
    let err = parse_payment_authorization(r#"Payment method=cashu, token=cashuBabc"#)
        .expect_err("bare values rejected");
    assert!(
        matches!(err, AuthParseError::MalformedParams(_)),
        "expected MalformedParams, got {err:?}"
    );
}

#[test]
fn missing_equals_returns_malformed() {
    let err = parse_payment_authorization(r#"Payment method "cashu""#)
        .expect_err("missing =");
    assert!(
        matches!(err, AuthParseError::MalformedParams(_)),
        "expected MalformedParams, got {err:?}"
    );
}

#[test]
fn unterminated_quoted_string_returns_malformed() {
    let err = parse_payment_authorization(r#"Payment method="cashu"#)
        .expect_err("unterminated quote");
    assert!(
        matches!(err, AuthParseError::MalformedParams(_)),
        "expected MalformedParams, got {err:?}"
    );
}

#[test]
fn escaped_quotes_inside_value_are_unescaped() {
    // `\"` inside the value should yield a literal `"` in the
    // returned string — and not terminate the quoted-string.
    let token = parse_payment_authorization(
        r#"Payment method="cashu", token="ca\"sh\"uBabc""#,
    )
    .expect("parses");
    assert_eq!(token, r#"ca"sh"uBabc"#);
}

#[test]
fn extra_whitespace_around_separators_ok() {
    let token = parse_payment_authorization(
        "Payment   method = \"cashu\"  ,   token = \"cashuBxyz\"   ",
    )
    .expect("parses with BWS");
    assert_eq!(token, "cashuBxyz");
}

#[test]
fn empty_list_elements_ok() {
    // RFC 7230 §7 list-rule allows `, ,` between elements.
    let token = parse_payment_authorization(
        r#"Payment method="cashu", , token="cashuBabc""#,
    )
    .expect("parses with empty list element");
    assert_eq!(token, "cashuBabc");
}
