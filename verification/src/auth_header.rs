//! Parser for the `Authorization: Payment` request header.
//!
//! The 402 challenge (`WWW-Authenticate: Payment method="cashu", challenge="creqA…"`) and the
//! retry credentials (`Authorization: Payment method="cashu", token="cashuB…"`) both ride the
//! RFC 7235 envelope: an auth-scheme, then auth-params. This module reads the credentials side.
//!
//! - Values are quoted-strings only: Cashu tokens carry `=` padding, which the RFC 7230 `token`
//!   production does not allow.
//! - The scheme and the parameter names are case-insensitive; values are not.
//! - The `token68` short form is not read: it cannot carry both `method` and `token`.
//! - A scheme other than `Payment` is [`AuthParseError::UnknownScheme`], so that a caller can
//!   treat it as "no attempt" and not as a client error.
use vstd::prelude::*;
use vstd::slice::slice_subrange;
use vstd::utf8::encode_utf8;

use crate::text::{
    char_debug, chars_of, debug_char, debug_str, eq_ignore_ascii_case, same_ignoring_case,
    str_debug, string_of, trim, trim_start, trimmed, trimmed_start,
};

verus! {

/// HTTP auth-scheme of the envelope. Case-insensitive per RFC 7235 §2.1.
pub const PAYMENT_SCHEME: &'static str = "Payment";

/// Required value of the `method` parameter. Case-sensitive.
pub const CASHU_METHOD: &'static str = "cashu";

/// Parameter that carries the `cashuB…` token on the retry request.
pub const TOKEN_PARAM: &'static str = "token";

/// Parameter that carries the method on the challenge and on the retry request.
pub const METHOD_PARAM: &'static str = "method";

/// Parameter that carries the `creqA…` payment request on the challenge.
pub const CHALLENGE_PARAM: &'static str = "challenge";

/// Space.
pub const SP: u8 = 0x20;

/// Horizontal tab.
pub const HTAB: u8 = 0x09;

/// Comma.
pub const COMMA: u8 = 0x2c;

/// Equals sign.
pub const EQUALS: u8 = 0x3d;

/// Double quote.
pub const DQUOTE: u8 = 0x22;

/// Backslash.
pub const BACKSLASH: u8 = 0x5c;

/// Why an `Authorization: Payment …` header failed to parse.
#[derive(Debug, PartialEq, Eq)]
pub enum AuthParseError {
    /// The first word is not `Payment`, or there is none.
    UnknownScheme,
    /// No `method` parameter.
    MissingMethod,
    /// A `method` parameter whose value is not `cashu`.
    WrongMethod(String),
    /// `method="cashu"` but no `token` parameter.
    MissingToken,
    /// The parameters do not parse: a missing `=`, an unterminated quoted-string, a bare value.
    MalformedParams(String),
}

/// [`AuthParseError`] over sequences of characters.
pub enum AuthParseErrorView {
    UnknownScheme,
    MissingMethod,
    WrongMethod(Seq<char>),
    MissingToken,
    MalformedParams(Seq<char>),
}

impl View for AuthParseError {
    type V = AuthParseErrorView;

    open spec fn view(&self) -> AuthParseErrorView {
        match *self {
            AuthParseError::UnknownScheme => AuthParseErrorView::UnknownScheme,
            AuthParseError::MissingMethod => AuthParseErrorView::MissingMethod,
            AuthParseError::WrongMethod(m) => AuthParseErrorView::WrongMethod(m@),
            AuthParseError::MissingToken => AuthParseErrorView::MissingToken,
            AuthParseError::MalformedParams(m) => AuthParseErrorView::MalformedParams(m@),
        }
    }
}

impl AuthParseErrorView {
    /// The message for people.
    pub open spec fn message(self) -> Seq<char> {
        match self {
            AuthParseErrorView::UnknownScheme => "auth scheme is not 'Payment'"@,
            AuthParseErrorView::MissingMethod => "Payment header missing 'method' parameter"@,
            AuthParseErrorView::WrongMethod(m) => "Payment header method must be 'cashu', got "@
                + str_debug(m),
            AuthParseErrorView::MissingToken => "Payment header missing 'token' parameter"@,
            AuthParseErrorView::MalformedParams(m) => "malformed Payment auth params: "@ + m,
        }
    }
}

impl AuthParseError {
    /// The message for people.
    pub fn to_string(&self) -> (r: String)
        ensures
            r@ == self@.message(),
    {
        match self {
            AuthParseError::UnknownScheme => "auth scheme is not 'Payment'".to_string(),
            AuthParseError::MissingMethod =>
                "Payment header missing 'method' parameter".to_string(),
            AuthParseError::WrongMethod(m) =>
                "Payment header method must be 'cashu', got ".to_string().concat(
                debug_str(m.as_str()).as_str(),
            ),
            AuthParseError::MissingToken => "Payment header missing 'token' parameter".to_string(),
            AuthParseError::MalformedParams(m) =>
                "malformed Payment auth params: ".to_string().concat(m.as_str()),
        }
    }
}

/// A name and value pair of an auth-param.
pub type ParamView = (Seq<char>, Seq<char>);

/// Optional whitespace of RFC 7230: space or tab.
pub open spec fn is_ows(b: u8) -> bool {
    b == SP || b == HTAB
}

/// What may stand between list elements: optional whitespace and commas.
pub open spec fn is_list_filler(b: u8) -> bool {
    is_ows(b) || b == COMMA
}

/// The `tchar` set of RFC 7230 §3.2.6.
pub open spec fn tchar(b: u8) -> bool {
    ||| 'a' <= b as char <= 'z'
    ||| 'A' <= b as char <= 'Z'
    ||| '0' <= b as char <= '9'
    ||| "!#$%&'*+-.^_`|~"@.contains(b as char)
}

/// How many of the first bytes of `b` satisfy `f`.
pub open spec fn span(b: Seq<u8>, f: spec_fn(u8) -> bool) -> nat
    decreases b.len(),
{
    if b.len() > 0 && f(b[0]) {
        1 + span(b.skip(1), f)
    } else {
        0
    }
}

/// `b` after its leading optional whitespace.
pub open spec fn after_ows(b: Seq<u8>) -> Seq<u8> {
    b.skip(span(b, |c: u8| is_ows(c)) as int)
}

/// `b` after its leading optional whitespace and commas.
pub open spec fn after_filler(b: Seq<u8>) -> Seq<u8> {
    b.skip(span(b, |c: u8| is_list_filler(c)) as int)
}

/// The characters whose code points are the bytes.
pub open spec fn latin1(b: Seq<u8>) -> Seq<char> {
    Seq::new(b.len(), |i: int| b[i] as char)
}

pub(crate) proof fn lemma_span_bound(b: Seq<u8>, f: spec_fn(u8) -> bool)
    ensures
        span(b, f) <= b.len(),
    decreases b.len(),
{
    if b.len() > 0 && f(b[0]) {
        lemma_span_bound(b.skip(1), f);
    }
}

/// Eats optional whitespace.
fn skip_ows(bytes: &[u8]) -> (r: &[u8])
    ensures
        r@ == after_ows(bytes@),
{
    let ghost f = |c: u8| is_ows(c);
    let mut i: usize = 0;
    assert(bytes@.skip(0) =~= bytes@);
    while i < bytes.len() && (bytes[i] == SP || bytes[i] == HTAB)
        invariant
            i <= bytes@.len(),
            f == (|c: u8| is_ows(c)),
            span(bytes@, f) == i + span(bytes@.skip(i as int), f),
        decreases bytes@.len() - i,
    {
        assert(bytes@.skip(i as int).skip(1) =~= bytes@.skip(i + 1));
        i += 1;
    }
    slice_subrange(bytes, i, bytes.len())
}

/// Eats any run of optional whitespace and commas. RFC 7230 §7 allows empty list elements.
fn skip_ows_and_commas(bytes: &[u8]) -> (r: &[u8])
    ensures
        r@ == after_filler(bytes@),
{
    let ghost f = |c: u8| is_list_filler(c);
    let mut i: usize = 0;
    assert(bytes@.skip(0) =~= bytes@);
    while i < bytes.len() && (bytes[i] == SP || bytes[i] == HTAB || bytes[i] == COMMA)
        invariant
            i <= bytes@.len(),
            f == (|c: u8| is_list_filler(c)),
            span(bytes@, f) == i + span(bytes@.skip(i as int), f),
        decreases bytes@.len() - i,
    {
        assert(bytes@.skip(i as int).skip(1) =~= bytes@.skip(i + 1));
        i += 1;
    }
    slice_subrange(bytes, i, bytes.len())
}

/// Whether `b` is an RFC 7230 `tchar`.
fn is_tchar(b: u8) -> (r: bool)
    ensures
        r == tchar(b),
{
    proof {
        reveal_strlit("!#$%&'*+-.^_`|~");
        let s = "!#$%&'*+-.^_`|~"@;
        assert(s.contains(b as char) ==> exists|i: int| 0 <= i < 15 && s[i] == b as char);
        assert(s[0] == '!' && s[1] == '#' && s[2] == '$' && s[3] == '%' && s[4] == '&' && s[5]
            == '\'' && s[6] == '*' && s[7] == '+' && s[8] == '-' && s[9] == '.' && s[10] == '^'
            && s[11] == '_' && s[12] == '`' && s[13] == '|' && s[14] == '~');
    }
    matches!(
        b as char,
        '!' | '#' | '$' | '%' | '&' | '\'' | '*' |
        '+' | '-' | '.' | '^' | '_' | '`' | '|' | '~' |
        '0'..='9' | 'A'..='Z' | 'a'..='z'
    )
}

/// How many of the first bytes of `b` make up an RFC 7230 `token`.
pub open spec fn token_len(b: Seq<u8>) -> nat {
    span(b, |c: u8| tchar(c))
}

/// Peels an RFC 7230 `token` off the front of `bytes`; `None` if the first byte is no `tchar`.
fn take_token(bytes: &[u8]) -> (r: Option<(String, &[u8])>)
    ensures
        match r {
            None => token_len(bytes@) == 0,
            Some((name, rest)) => {
                let n = token_len(bytes@) as int;
                &&& n > 0
                &&& name@ == latin1(bytes@.take(n))
                &&& rest@ == bytes@.skip(n)
            },
        },
{
    let ghost f = |c: u8| tchar(c);
    let mut name = String::new();
    let mut end: usize = 0;
    assert(bytes@.skip(0) =~= bytes@);
    while end < bytes.len() && is_tchar(bytes[end])
        invariant
            end <= bytes@.len(),
            f == (|c: u8| tchar(c)),
            span(bytes@, f) == end + span(bytes@.skip(end as int), f),
            name@ == latin1(bytes@.take(end as int)),
        decreases bytes@.len() - end,
    {
        name.push(bytes[end] as char);
        assert(bytes@.skip(end as int).skip(1) =~= bytes@.skip(end + 1));
        end += 1;
        assert(latin1(bytes@.take(end as int)) =~= latin1(bytes@.take(end - 1)).push(
            bytes@[end - 1] as char,
        ));
    }
    if end == 0 {
        return None;
    }
    Some((name, slice_subrange(bytes, end, bytes.len())))
}

/// The value of a quoted-string whose opening quote stands just before `b`, with escapes
/// resolved, and what follows its closing quote; or why there is none.
pub open spec fn quoted(b: Seq<u8>) -> Result<(Seq<char>, Seq<u8>), Seq<char>>
    decreases b.len(),
{
    if b.len() == 0 {
        Err("unterminated quoted-string"@)
    } else if b[0] == DQUOTE {
        Ok((Seq::empty(), b.skip(1)))
    } else if b[0] != BACKSLASH {
        prepended(seq![b[0] as char], quoted(b.skip(1)))
    } else if b.len() == 1 {
        Err("trailing backslash inside quoted-string"@)
    } else {
        prepended(seq![b[1] as char], quoted(b.skip(2)))
    }
}

/// A quoted-string result with `start` put before the value.
pub open spec fn prepended(
    start: Seq<char>,
    r: Result<(Seq<char>, Seq<u8>), Seq<char>>,
) -> Result<(Seq<char>, Seq<u8>), Seq<char>> {
    match r {
        Ok((value, rest)) => Ok((start + value, rest)),
        Err(m) => Err(m),
    }
}

/// Parses a quoted-string that starts at the opening quote `bytes[0]`. Any byte may follow a
/// backslash.
fn take_quoted_string(bytes: &[u8]) -> (r: Result<(String, &[u8]), AuthParseError>)
    requires
        bytes@.len() > 0,
        bytes@[0] == DQUOTE,
    ensures
        match r {
            Ok((value, rest)) => quoted(bytes@.skip(1)) == Ok::<_, Seq<char>>((value@, rest@)),
            Err(e) => e matches AuthParseError::MalformedParams(m) && quoted(bytes@.skip(1))
                == Err::<(Seq<char>, Seq<u8>), _>(m@),
        },
{
    let mut out = String::new();
    let mut i: usize = 1;
    let ghost goal = quoted(bytes@.skip(1));
    proof {
        if let Ok((v, rest)) = goal {
            assert(Seq::<char>::empty() + v =~= v);
        }
    }
    while i < bytes.len()
        invariant
            1 <= i <= bytes@.len(),
            goal == quoted(bytes@.skip(1)),
            goal == prepended(out@, quoted(bytes@.skip(i as int))),
        decreases bytes@.len() - i,
    {
        let ghost b = bytes@.skip(i as int);
        let c: u8 = bytes[i];
        if c == DQUOTE {
            assert(out@ + Seq::<char>::empty() =~= out@);
            assert(b.skip(1) =~= bytes@.skip(i + 1));
            return Ok((out, slice_subrange(bytes, i + 1, bytes.len())));
        } else if c == BACKSLASH {
            if i + 1 >= bytes.len() {
                return Err(
                    AuthParseError::MalformedParams(
                        "trailing backslash inside quoted-string".to_string(),
                    ),
                );
            }
            let ghost before = out@;
            out.push(bytes[i + 1] as char);
            proof {
                assert(b.skip(2) =~= bytes@.skip(i + 2));
                if let Ok((v, rest)) = quoted(bytes@.skip(i + 2)) {
                    assert(before + (seq![b[1] as char] + v) =~= out@ + v);
                }
            }
            i += 2;
        } else {
            let ghost before = out@;
            out.push(c as char);
            proof {
                assert(b.skip(1) =~= bytes@.skip(i + 1));
                if let Ok((v, rest)) = quoted(bytes@.skip(i + 1)) {
                    assert(before + (seq![b[0] as char] + v) =~= out@ + v);
                }
            }
            i += 1;
        }
    }
    Err(AuthParseError::MalformedParams("unterminated quoted-string".to_string()))
}

proof fn lemma_quoted_shrinks(b: Seq<u8>)
    ensures
        quoted(b) matches Ok((value, rest)) ==> rest.len() < b.len(),
    decreases b.len(),
{
    if b.len() > 0 && b[0] != DQUOTE {
        if b[0] != BACKSLASH {
            lemma_quoted_shrinks(b.skip(1));
        } else if b.len() > 1 {
            lemma_quoted_shrinks(b.skip(2));
        }
    }
}

/// The auth-param at the front of `b`, as name, value and what follows; or why there is none.
pub open spec fn param(b: Seq<u8>) -> Result<(Seq<char>, Seq<char>, Seq<u8>), Seq<char>> {
    let n = token_len(b) as int;
    let after_name = after_ows(b.skip(n));
    let after_equals = after_ows(after_name.skip(1));
    if n == 0 {
        Err("expected param name"@)
    } else if after_name.len() == 0 || after_name[0] != EQUALS {
        Err("expected '=' after param name"@)
    } else if after_equals.len() == 0 {
        Err("missing value after '='"@)
    } else if after_equals[0] != DQUOTE {
        Err("value must be a quoted-string (v1 requires \"…\")"@)
    } else {
        match quoted(after_equals.skip(1)) {
            Ok((value, rest)) => Ok((latin1(b.take(n)), value, rest)),
            Err(m) => Err(m),
        }
    }
}

proof fn lemma_param_shrinks(b: Seq<u8>)
    ensures
        param(b) matches Ok((name, value, rest)) ==> rest.len() < b.len(),
{
    let n = token_len(b) as int;
    lemma_span_bound(b, |c: u8| tchar(c));
    lemma_span_bound(b.skip(n), |c: u8| is_ows(c));
    let after_name = after_ows(b.skip(n));
    if after_name.len() > 0 {
        lemma_span_bound(after_name.skip(1), |c: u8| is_ows(c));
        let after_equals = after_ows(after_name.skip(1));
        if after_equals.len() > 0 {
            lemma_quoted_shrinks(after_equals.skip(1));
        }
    }
}

/// The auth-params listed in `b`, in order; or what is wrong with the first ill-formed one.
///
/// Elements are separated by commas; empty elements and surrounding whitespace are skipped.
pub open spec fn params(b: Seq<u8>) -> Result<Seq<ParamView>, Seq<char>>
    decreases b.len(),
    via params_decreases
{
    let start = after_filler(b);
    if start.len() == 0 {
        Ok(Seq::empty())
    } else {
        match param(start) {
            Err(m) => Err(m),
            Ok((name, value, rest)) => {
                let next = after_ows(rest);
                if next.len() == 0 {
                    Ok(seq![(name, value)])
                } else if next[0] != COMMA {
                    Err("expected ',' or end after value, got "@ + char_debug(next[0] as char))
                } else {
                    match params(next.skip(1)) {
                        Err(m) => Err(m),
                        Ok(others) => Ok(seq![(name, value)] + others),
                    }
                }
            },
        }
    }
}

#[via_fn]
proof fn params_decreases(b: Seq<u8>) {
    lemma_params_shrink(b);
}

pub(crate) proof fn lemma_params_shrink(b: Seq<u8>)
    ensures
        param(after_filler(b)) matches Ok((name, value, rest)) ==> after_ows(rest).len() < b.len(),
{
    let start = after_filler(b);
    lemma_span_bound(b, |c: u8| is_list_filler(c));
    lemma_param_shrinks(start);
    if let Ok((name, value, rest)) = param(start) {
        lemma_span_bound(rest, |c: u8| is_ows(c));
    }
}

/// The names and values of parsed parameters.
pub open spec fn params_view(ps: Seq<(String, String)>) -> Seq<ParamView> {
    ps.map_values(|p: (String, String)| (p.0@, p.1@))
}

/// Parses the auth-param section of an `Authorization: Payment …` header.
fn parse_params(input: &str) -> (r: Result<Vec<(String, String)>, AuthParseError>)
    ensures
        match r {
            Ok(ps) => params(encode_utf8(input@)) == Ok::<_, Seq<char>>(params_view(ps@)),
            Err(e) => e matches AuthParseError::MalformedParams(m) && params(encode_utf8(input@))
                == Err::<Seq<ParamView>, _>(m@),
        },
{
    let mut out: Vec<(String, String)> = Vec::new();
    let mut bytes: &[u8] = input.as_bytes();
    let ghost goal = params(bytes@);
    proof {
        if let Ok(others) = goal {
            assert(params_view(out@) + others =~= others);
        }
    }
    loop
        invariant
            goal == params(encode_utf8(input@)),
            goal == listed(params_view(out@), params(bytes@)),
        decreases bytes@.len(),
    {
        let ghost all = bytes@;
        proof {
            lemma_params_shrink(all);
        }
        bytes = skip_ows_and_commas(bytes);
        if bytes.is_empty() {
            assert(params_view(out@) + Seq::<ParamView>::empty() =~= params_view(out@));
            return Ok(out);
        }
        let (name, rest) = match take_token(bytes) {
            Some(taken) => taken,
            None => {
                return Err(AuthParseError::MalformedParams("expected param name".to_string()));
            },
        };
        let rest = skip_ows(rest);
        if rest.is_empty() || rest[0] != EQUALS {
            return Err(
                AuthParseError::MalformedParams("expected '=' after param name".to_string()),
            );
        }
        let rest = skip_ows(slice_subrange(rest, 1, rest.len()));
        if rest.is_empty() {
            return Err(AuthParseError::MalformedParams("missing value after '='".to_string()));
        }
        if rest[0] != DQUOTE {
            return Err(
                AuthParseError::MalformedParams(
                    "value must be a quoted-string (v1 requires \"…\")".to_string(),
                ),
            );
        }
        let (value, rest) = take_quoted_string(rest)?;
        let ghost before = params_view(out@);
        let ghost pair = (name@, value@);
        out.push((name, value));
        assert(params_view(out@) =~= before.push(pair));
        let lookahead = skip_ows(rest);
        if lookahead.is_empty() {
            assert(before + seq![pair] =~= params_view(out@));
            return Ok(out);
        }
        if lookahead[0] != COMMA {
            let got = debug_char(lookahead[0] as char);
            return Err(
                AuthParseError::MalformedParams(
                    "expected ',' or end after value, got ".to_string().concat(got.as_str()),
                ),
            );
        }
        bytes = slice_subrange(lookahead, 1, lookahead.len());
        proof {
            if let Ok(others) = params(bytes@) {
                assert(before + (seq![pair] + others) =~= params_view(out@) + others);
            }
        }
    }
}

/// A parameter list result with the parameters of `start` put before it.
pub open spec fn listed(
    start: Seq<ParamView>,
    r: Result<Seq<ParamView>, Seq<char>>,
) -> Result<Seq<ParamView>, Seq<char>> {
    match r {
        Ok(others) => Ok(start + others),
        Err(m) => Err(m),
    }
}

/// ASCII whitespace: space, tab, line feed, form feed, carriage return.
pub open spec fn is_ascii_white_space(c: char) -> bool {
    c == ' ' || c == '\t' || c == '\n' || c as u32 == 0x0c || c == '\r'
}

/// How many characters of `s` stand before the first ASCII whitespace, or the end.
pub open spec fn word_len(s: Seq<char>) -> nat
    decreases s.len(),
{
    if s.len() == 0 || is_ascii_white_space(s[0]) {
        0
    } else {
        1 + word_len(s.skip(1))
    }
}

/// The auth-scheme of a header value: its first word.
pub open spec fn scheme(header: Seq<char>) -> Seq<char> {
    let s = trimmed(header);
    s.take(word_len(s) as int)
}

/// What follows the auth-scheme and the whitespace after it.
pub open spec fn after_scheme(header: Seq<char>) -> Seq<char> {
    let s = trimmed(header);
    let n = word_len(s) as int;
    if n < s.len() {
        trimmed_start(s.skip(n + 1))
    } else {
        Seq::empty()
    }
}

/// The value of the first parameter with this name, which is compared without regard to case.
pub open spec fn value_of(ps: Seq<ParamView>, name: Seq<char>) -> Option<Seq<char>>
    decreases ps.len(),
{
    if ps.len() == 0 {
        None
    } else if same_ignoring_case(ps[0].0, name) {
        Some(ps[0].1)
    } else {
        value_of(ps.skip(1), name)
    }
}

/// The token in a parameter list, or which parameter is missing or wrong.
pub open spec fn credentials(ps: Seq<ParamView>) -> Result<Seq<char>, AuthParseErrorView> {
    match value_of(ps, METHOD_PARAM@) {
        None => Err(AuthParseErrorView::MissingMethod),
        Some(method) => if method != CASHU_METHOD@ {
            Err(AuthParseErrorView::WrongMethod(method))
        } else {
            match value_of(ps, TOKEN_PARAM@) {
                None => Err(AuthParseErrorView::MissingToken),
                Some(token) => Ok(token),
            }
        },
    }
}

/// The token that an `Authorization` header value carries, or why it carries none.
pub open spec fn payment_authorization(header: Seq<char>) -> Result<
    Seq<char>,
    AuthParseErrorView,
> {
    if !same_ignoring_case(scheme(header), PAYMENT_SCHEME@) {
        Err(AuthParseErrorView::UnknownScheme)
    } else if after_scheme(header).len() == 0 {
        Err(AuthParseErrorView::MissingMethod)
    } else {
        match params(encode_utf8(after_scheme(header))) {
            Err(m) => Err(AuthParseErrorView::MalformedParams(m)),
            Ok(ps) => credentials(ps),
        }
    }
}

/// A result with its payload taken by view.
pub open spec fn authorization_view(r: Result<String, AuthParseError>) -> Result<
    Seq<char>,
    AuthParseErrorView,
> {
    match r {
        Ok(token) => Ok(token@),
        Err(e) => Err(e@),
    }
}

/// The position of the first parameter with this name.
fn find_param(ps: &Vec<(String, String)>, name: &str) -> (r: Option<usize>)
    ensures
        match r {
            Some(i) => i < ps@.len() && value_of(params_view(ps@), name@) == Some(ps@[i as int].1@),
            None => value_of(params_view(ps@), name@) is None,
        },
{
    let ghost all = params_view(ps@);
    let mut i: usize = 0;
    assert(all.skip(0) =~= all);
    while i < ps.len()
        invariant
            i <= ps@.len(),
            all == params_view(ps@),
            value_of(all, name@) == value_of(all.skip(i as int), name@),
        decreases ps@.len() - i,
    {
        if eq_ignore_ascii_case(ps[i].0.as_str(), name) {
            return Some(i);
        }
        assert(all.skip(i as int).skip(1) =~= all.skip(i + 1));
        i += 1;
    }
    None
}

/// Parses an `Authorization: Payment method="cashu", token="cashuB…"` header value and returns
/// the token, with backslash escapes resolved.
///
/// - No scheme or one other than `Payment`: [`AuthParseError::UnknownScheme`].
/// - No `method`: [`AuthParseError::MissingMethod`], also where `Payment` stands alone.
/// - A `method` other than `cashu`: [`AuthParseError::WrongMethod`].
/// - `method="cashu"` and no `token`: [`AuthParseError::MissingToken`].
/// - Parameters that do not parse: [`AuthParseError::MalformedParams`].
pub fn parse_payment_authorization(header_value: &str) -> (r: Result<String, AuthParseError>)
    ensures
        authorization_view(r) == payment_authorization(header_value@),
{
    let header = trim(header_value);
    let chars = chars_of(header.as_str());
    let n: usize = chars.len();
    let mut end: usize = 0;
    assert(header@.skip(0) =~= header@);
    while end < n && !is_ascii_whitespace(chars[end])
        invariant
            end <= n == chars@.len(),
            chars@ == header@,
            word_len(header@) == end + word_len(header@.skip(end as int)),
        decreases n - end,
    {
        assert(header@.skip(end as int).skip(1) =~= header@.skip(end + 1));
        end += 1;
    }
    assert(chars@.subrange(0, end as int) =~= scheme(header_value@));
    if !eq_ignore_ascii_case(string_of(&chars, 0, end).as_str(), PAYMENT_SCHEME) {
        return Err(AuthParseError::UnknownScheme);
    }
    if end == n {
        return Err(AuthParseError::MissingMethod);
    }
    assert(chars@.subrange(end + 1, n as int) =~= header@.skip(end + 1));
    let rest = trim_start(string_of(&chars, end + 1, n).as_str());
    if rest.as_str().is_empty() {
        return Err(AuthParseError::MissingMethod);
    }
    let ps = parse_params(rest.as_str())?;
    let method: usize = match find_param(&ps, METHOD_PARAM) {
        Some(i) => i,
        None => return Err(AuthParseError::MissingMethod),
    };
    if !(ps[method].1 == CASHU_METHOD.to_string()) {
        return Err(AuthParseError::WrongMethod(ps[method].1.clone()));
    }
    match find_param(&ps, TOKEN_PARAM) {
        Some(i) => Ok(ps[i].1.clone()),
        None => Err(AuthParseError::MissingToken),
    }
}

/// Whether `c` is ASCII whitespace.
fn is_ascii_whitespace(c: char) -> (r: bool)
    ensures
        r == is_ascii_white_space(c),
{
    c == ' ' || c == '\t' || c == '\n' || c as u32 == 0x0c || c == '\r'
}

} // verus!
