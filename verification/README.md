# cdk-pop-verifier

Verifier for Proof-of-Power credentials: Cashu proofs in a unit `pop_<unix_ts>`, where `<unix_ts>`
is the expiry of the credential, presented over HTTP.

A request without a credential is answered

```text
HTTP/1.1 402 Payment Required
WWW-Authenticate: Payment method="cashu", challenge="creqA..."
```

and retried with

```text
Authorization: Payment method="cashu", token="cashuB..."
```

The token is checked against what is required (unit, mint, and at least the amount) and then
swapped at the mint that issued it. A successful swap shows that the proofs were unspent and unexpired; the verifier
keeps the new ones.

## Layout

- `src/` is the library, verified with Verus. It performs no input or output: where a mint has to
  be asked, a function returns the question and another takes the answer.
  - `auth_header.rs` reads the `Authorization: Payment` header; `auth_laws.rs` and `case_laws.rs`
    hold the laws of its grammar.
  - `challenge.rs` writes the challenge and decodes tokens.
  - `envelope.rs` wraps a challenge in the JSON request envelope, and unwraps it.
  - `validator.rs` takes a token through validation, step by step.
  - `middleware.rs` decides what each request is answered; `access_laws.rs` holds the laws of
    validation and access.
  - `token.rs`, `currency.rs`, `mint_url.rs`, `codec.rs` and `text.rs` hold the values these work
    on, and the calls into `cashu`, `base64` and `serde_json`.
- `app/` is a small HTTP service behind the verifier: axum middleware, a mint client, and
  `GET /random-number`.
- `tests/` runs the library.

## Status codes

| status | when |
| ------ | ---- |
| 402 | no `Authorization` header, or one of another scheme |
| 400 | the header or the token is malformed, the token does not fit, or the mint refuses it |
| 503 | the mint could not be reached; the same token may be tried again |
