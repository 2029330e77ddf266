//! Laws of the `Authorization: Payment` grammar: what is written in it reads back, and what it
//! does not distinguish.
use vstd::prelude::*;
use vstd::utf8::{encode_utf8, is_ascii_chars, is_ascii_chars_encode_utf8};

use crate::auth_header::{
    after_filler, after_ows, after_scheme, credentials, is_ascii_white_space, is_list_filler,
    is_ows, latin1, lemma_params_shrink, lemma_span_bound, param, params, payment_authorization, quoted, scheme, span,
    tchar, token_len, value_of, word_len, AuthParseErrorView, ParamView, BACKSLASH, CASHU_METHOD,
    COMMA, DQUOTE, EQUALS, METHOD_PARAM, PAYMENT_SCHEME, SP, TOKEN_PARAM,
};
use crate::text::{
    ascii_folded, is_white_space, same_ignoring_case, trimmed, trimmed_end, trimmed_start,
};

verus! {

/// The bytes of a quoted-string between its quotes: `"` and `\` are escaped by a backslash.
pub open spec fn escaped(value: Seq<char>) -> Seq<u8>
    decreases value.len(),
{
    if value.len() == 0 {
        Seq::empty()
    } else {
        let b = value[0] as u8;
        if b == DQUOTE || b == BACKSLASH {
            seq![BACKSLASH, b] + escaped(value.skip(1))
        } else {
            seq![b] + escaped(value.skip(1))
        }
    }
}

/// The bytes whose values are the code points of `s`.
pub open spec fn bytes_of(s: Seq<char>) -> Seq<u8> {
    Seq::new(s.len(), |i: int| s[i] as u8)
}

/// `name="value"`.
pub open spec fn rendered_param(p: ParamView) -> Seq<u8> {
    bytes_of(p.0) + seq![EQUALS, DQUOTE] + escaped(p.1) + seq![DQUOTE]
}

/// The parameters in order, separated by a comma and a space.
pub open spec fn rendered(ps: Seq<ParamView>) -> Seq<u8>
    decreases ps.len(),
{
    if ps.len() == 0 {
        Seq::empty()
    } else if ps.len() == 1 {
        rendered_param(ps[0])
    } else {
        rendered_param(ps[0]) + seq![COMMA, SP] + rendered(ps.skip(1))
    }
}

/// Whether every code point of `s` fits in a byte.
pub open spec fn is_latin1(s: Seq<char>) -> bool {
    forall|i: int| 0 <= i < s.len() ==> (#[trigger] s[i]) as u32 <= 0xff
}

/// A parameter name: one or more `tchar`s.
pub open spec fn is_param_name(s: Seq<char>) -> bool {
    &&& s.len() > 0
    &&& is_latin1(s)
    &&& forall|i: int| 0 <= i < s.len() ==> tchar(#[trigger] s[i] as u8)
}

/// Whether the parameter can be written at all: a token for a name, one byte per character of the
/// value.
pub open spec fn is_param(p: ParamView) -> bool {
    is_param_name(p.0) && is_latin1(p.1)
}

pub(crate) proof fn lemma_byte_char(c: char)
    requires
        c as u32 <= 0xff,
    ensures
        (c as u8) as char == c,
        c as u8 == c as u32,
{
    let n = c as u32;
    assert(n as u8 as u32 == n) by (bit_vector)
        requires
            n <= 0xff,
    ;
}

proof fn lemma_quoted_reads_escaped(value: Seq<char>, rest: Seq<u8>)
    requires
        is_latin1(value),
    ensures
        quoted(escaped(value) + seq![DQUOTE] + rest) == Ok::<_, Seq<char>>((value, rest)),
    decreases value.len(),
{
    let b = escaped(value) + seq![DQUOTE] + rest;
    if value.len() == 0 {
        assert(b.skip(1) =~= rest);
        assert(value =~= Seq::empty());
    } else {
        let tail = value.skip(1);
        let c = value[0] as u8;
        let next = escaped(tail) + seq![DQUOTE] + rest;
        lemma_quoted_reads_escaped(tail, rest);
        assert(seq![value[0]] + tail =~= value);
        lemma_byte_char(value[0]);
        if c == DQUOTE || c == BACKSLASH {
            assert(b.skip(2) =~= next);
            assert(b[0] == BACKSLASH && b[1] == c);
        } else {
            assert(b.skip(1) =~= next);
            assert(b[0] == c);
        }
    }
}

pub(crate) proof fn lemma_span_exact(head: Seq<u8>, rest: Seq<u8>, f: spec_fn(u8) -> bool)
    requires
        forall|i: int| 0 <= i < head.len() ==> f(#[trigger] head[i]),
        rest.len() == 0 || !f(rest[0]),
    ensures
        span(head + rest, f) == head.len(),
    decreases head.len(),
{
    if head.len() == 0 {
        assert(head + rest =~= rest);
    } else {
        assert((head + rest).skip(1) =~= head.skip(1) + rest);
        assert((head + rest)[0] == head[0]);
        lemma_span_exact(head.skip(1), rest, f);
    }
}

/// A rendered parameter reads back with what follows it left over.
proof fn lemma_param_reads_rendered(p: ParamView, rest: Seq<u8>)
    requires
        is_param(p),
    ensures
        param(rendered_param(p) + rest) == Ok::<_, Seq<char>>((p.0, p.1, rest)),
{
    let b = rendered_param(p) + rest;
    let name = bytes_of(p.0);
    let value = escaped(p.1) + seq![DQUOTE] + rest;
    let after_name = seq![EQUALS, DQUOTE] + value;
    let n = name.len() as int;
    let f = |c: u8| tchar(c);
    let ows = |c: u8| is_ows(c);
    assert(b =~= name + after_name);
    assert(!tchar(EQUALS)) by {
        reveal_strlit("!#$%&'*+-.^_`|~");
        assert(!"!#$%&'*+-.^_`|~"@.contains('='));
    }
    lemma_span_exact(name, after_name, f);
    assert(token_len(b) == n);
    assert(b.skip(n) =~= after_name);
    assert(span(after_name, ows) == 0);
    assert(after_ows(after_name) =~= after_name);
    assert(after_name.skip(1) =~= seq![DQUOTE] + value);
    assert(span(after_name.skip(1), ows) == 0);
    assert(after_ows(after_name.skip(1)) =~= after_name.skip(1));
    assert(after_name.skip(1).skip(1) =~= value);
    lemma_quoted_reads_escaped(p.1, rest);
    assert(b.take(n) =~= name);
    assert forall|i: int| 0 <= i < p.0.len() implies #[trigger] latin1(name)[i] == p.0[i] by {
        lemma_byte_char(p.0[i]);
    }
    assert(latin1(name) =~= p.0);
}

/// Parameters written as a list read back as they were written: in order, with the same names
/// and with every value restored from its escapes.
pub proof fn rendered_params_read_back(ps: Seq<ParamView>)
    requires
        forall|i: int| 0 <= i < ps.len() ==> is_param(#[trigger] ps[i]),
    ensures
        params(rendered(ps)) == Ok::<_, Seq<char>>(ps),
    decreases ps.len(),
{
    let b = rendered(ps);
    let filler = |c: u8| is_list_filler(c);
    let ows = |c: u8| is_ows(c);
    if ps.len() == 0 {
        assert(b.skip(0) =~= b);
        assert(ps =~= Seq::empty());
    } else {
        let first = ps[0];
        assert(is_param(first));
        assert(tchar(first.0[0] as u8));
        assert(!is_list_filler(first.0[0] as u8)) by {
            reveal_strlit("!#$%&'*+-.^_`|~");
            assert(!"!#$%&'*+-.^_`|~"@.contains(' '));
            assert(!"!#$%&'*+-.^_`|~"@.contains('\t'));
            assert(!"!#$%&'*+-.^_`|~"@.contains(','));
        }
        assert(b[0] == first.0[0] as u8);
        assert(span(b, filler) == 0);
        assert(after_filler(b) =~= b);
        if ps.len() == 1 {
            lemma_param_reads_rendered(first, Seq::empty());
            assert(b =~= rendered_param(first) + Seq::empty());
            assert(after_ows(Seq::<u8>::empty()) =~= Seq::empty());
            assert(ps =~= seq![first]);
        } else {
            let others = ps.skip(1);
            let rest = seq![COMMA, SP] + rendered(others);
            assert(b =~= rendered_param(first) + rest);
            lemma_param_reads_rendered(first, rest);
            assert(span(rest, ows) == 0);
            assert(after_ows(rest) =~= rest);
            assert(rest.skip(1) =~= seq![SP] + rendered(others));
            assert forall|i: int| 0 <= i < others.len() implies is_param(#[trigger] others[i]) by {
                assert(others[i] == ps[i + 1]);
            }
            rendered_params_read_back(others);
            empty_list_elements_are_skipped(seq![SP], rendered(others));
            assert(seq![first] + others =~= ps);
        }
    }
}

/// Commas and whitespace before a parameter do not matter: empty list elements are skipped.
pub proof fn empty_list_elements_are_skipped(filler: Seq<u8>, b: Seq<u8>)
    requires
        forall|i: int| 0 <= i < filler.len() ==> is_list_filler(#[trigger] filler[i]),
    ensures
        params(filler + b) == params(b),
    decreases filler.len(),
{
    let f = |c: u8| is_list_filler(c);
    if filler.len() == 0 {
        assert(filler + b =~= b);
    } else {
        let all = filler + b;
        let tail = filler.skip(1) + b;
        assert(all.skip(1) =~= tail);
        assert(all[0] == filler[0]);
        empty_list_elements_are_skipped(filler.skip(1), b);
        assert(span(all, f) == 1 + span(tail, f));
        lemma_span_bound(tail, f);
        assert(after_filler(all) =~= after_filler(tail));
    }
}

/// What follows the closing quote of a value does not change the value: it is left over.
pub proof fn what_follows_a_value_does_not_change_it(b: Seq<u8>, more: Seq<u8>)
    ensures
        quoted(b) matches Ok((value, rest)) ==> quoted(b + more) == Ok::<_, Seq<char>>(
            (value, rest + more),
        ),
    decreases b.len(),
{
    let all = b + more;
    if b.len() == 0 {
    } else if b[0] == DQUOTE {
        assert(all.skip(1) =~= b.skip(1) + more);
    } else if b[0] != BACKSLASH {
        assert(all.skip(1) =~= b.skip(1) + more);
        what_follows_a_value_does_not_change_it(b.skip(1), more);
    } else if b.len() > 1 {
        assert(all.skip(2) =~= b.skip(2) + more);
        what_follows_a_value_does_not_change_it(b.skip(2), more);
    }
}

proof fn lemma_span_extends(b: Seq<u8>, more: Seq<u8>, f: spec_fn(u8) -> bool)
    requires
        span(b, f) < b.len(),
    ensures
        span(b + more, f) == span(b, f),
        (b + more).skip(span(b, f) as int) == b.skip(span(b, f) as int) + more,
    decreases b.len(),
{
    let all = b + more;
    assert(all[0] == b[0]);
    if f(b[0]) {
        assert(all.skip(1) =~= b.skip(1) + more);
        lemma_span_extends(b.skip(1), more, f);
    }
    lemma_span_bound(b, f);
    assert(all.skip(span(b, f) as int) =~= b.skip(span(b, f) as int) + more);
}

proof fn lemma_span_of_all(b: Seq<u8>, f: spec_fn(u8) -> bool)
    requires
        span(b, f) >= b.len(),
    ensures
        forall|i: int| 0 <= i < b.len() ==> f(#[trigger] b[i]),
    decreases b.len(),
{
    if b.len() > 0 {
        lemma_span_of_all(b.skip(1), f);
        assert forall|i: int| 0 <= i < b.len() implies f(#[trigger] b[i]) by {
            if i > 0 {
                assert(b.skip(1)[i - 1] == b[i]);
            }
        }
    }
}

pub(crate) proof fn lemma_param_extends(b: Seq<u8>, more: Seq<u8>)
    ensures
        param(b) matches Ok((name, value, rest)) ==> param(b + more) == Ok::<_, Seq<char>>(
            (name, value, rest + more),
        ),
{
    if param(b) is Ok {
        let all = b + more;
        let names = |c: u8| tchar(c);
        let ows = |c: u8| is_ows(c);
        let n = token_len(b) as int;
        lemma_span_bound(b, names);
        assert(n < b.len()) by {
            if n == b.len() {
                assert(b.skip(n) =~= Seq::empty());
            }
        }
        lemma_span_extends(b, more, names);
        assert(all.take(n) =~= b.take(n));
        let tail = b.skip(n);
        lemma_span_bound(tail, ows);
        assert(span(tail, ows) < tail.len());
        lemma_span_extends(tail, more, ows);
        let after_name = after_ows(tail);
        assert((after_name + more).skip(1) =~= after_name.skip(1) + more);
        let value = after_name.skip(1);
        lemma_span_bound(value, ows);
        assert(span(value, ows) < value.len());
        lemma_span_extends(value, more, ows);
        let after_equals = after_ows(value);
        assert((after_equals + more).skip(1) =~= after_equals.skip(1) + more);
        what_follows_a_value_does_not_change_it(after_equals.skip(1), more);
    }
}

/// Two parameter lists joined by a comma read as the parameters of the one and then those of the
/// other.
pub proof fn joined_lists_read_as_both(
    one: Seq<u8>,
    other: Seq<u8>,
    x: Seq<ParamView>,
    y: Seq<ParamView>,
)
    requires
        params(one) == Ok::<_, Seq<char>>(x),
        params(other) == Ok::<_, Seq<char>>(y),
    ensures
        params(one + seq![COMMA] + other) == Ok::<_, Seq<char>>(x + y),
    decreases one.len(),
{
    let more = seq![COMMA] + other;
    let all = one + more;
    let filler = |c: u8| is_list_filler(c);
    let ows = |c: u8| is_ows(c);
    assert(one + seq![COMMA] + other =~= all);
    lemma_span_bound(one, filler);
    let start = after_filler(one);
    if start.len() == 0 {
        lemma_span_of_all(one, filler);
        let skipped = one + seq![COMMA];
        assert forall|i: int| 0 <= i < skipped.len() implies is_list_filler(
            #[trigger] skipped[i],
        ) by {
            if i < one.len() {
                assert(filler(one[i]));
            }
        }
        assert(all =~= skipped + other);
        empty_list_elements_are_skipped(skipped, other);
        assert(x + y =~= y);
    } else {
        lemma_span_extends(one, more, filler);
        assert(after_filler(all) == start + more);
        lemma_param_extends(start, more);
        let (name, value, rest) = param(start)->Ok_0;
        let pair = (name, value);
        lemma_params_shrink(one);
        lemma_span_bound(rest, ows);
        let next = after_ows(rest);
        if next.len() == 0 {
            lemma_span_of_all(rest, ows);
            assert forall|i: int| 0 <= i < rest.len() implies ows(#[trigger] rest[i]) by {}
            lemma_span_exact(rest, more, ows);
            assert(after_ows(rest + more) =~= more);
            assert(more.skip(1) =~= other);
        } else {
            lemma_span_extends(rest, more, ows);
            assert(after_ows(rest + more) == next + more);
            assert((next + more).skip(1) =~= next.skip(1) + more);
            let others = params(next.skip(1))->Ok_0;
            joined_lists_read_as_both(next.skip(1), other, others, y);
            assert(next.skip(1) + seq![COMMA] + other =~= next.skip(1) + more);
            assert(seq![pair] + others + y =~= seq![pair] + (others + y));
        }
    }
}

proof fn lemma_word_len(word: Seq<char>, rest: Seq<char>)
    requires
        forall|i: int| 0 <= i < word.len() ==> !is_ascii_white_space(#[trigger] word[i]),
        rest.len() == 0 || is_ascii_white_space(rest[0]),
    ensures
        word_len(word + rest) == word.len(),
    decreases word.len(),
{
    if word.len() == 0 {
        assert(word + rest =~= rest);
    } else {
        assert((word + rest).skip(1) =~= word.skip(1) + rest);
        assert((word + rest)[0] == word[0]);
        lemma_word_len(word.skip(1), rest);
    }
}

pub(crate) proof fn lemma_tchar_is_plain(b: u8)
    requires
        tchar(b),
    ensures
        0x21 <= b <= 0x7e,
        !is_white_space(b as char),
{
    reveal_strlit("!#$%&'*+-.^_`|~");
    let s = "!#$%&'*+-.^_`|~"@;
    assert(forall|i: int| 0 <= i < s.len() ==> 0x21 <= (#[trigger] s[i]) as u32 <= 0x7e);
}

proof fn lemma_escaped_ascii(value: Seq<char>)
    requires
        is_ascii_chars(value),
    ensures
        forall|i: int| 0 <= i < escaped(value).len() ==> #[trigger] escaped(value)[i] <= 0x7f,
    decreases value.len(),
{
    if value.len() > 0 {
        lemma_escaped_ascii(value.skip(1));
        lemma_byte_char(value[0]);
        let c = value[0] as u8;
        let tail = escaped(value.skip(1));
        let n: int = if c == DQUOTE || c == BACKSLASH {
            2
        } else {
            1
        };
        assert forall|i: int| 0 <= i < escaped(value).len() implies #[trigger] escaped(value)[i]
            <= 0x7f by {
            if i >= n {
                assert(escaped(value)[i] == tail[i - n]);
            }
        }
    }
}

proof fn lemma_rendered_ascii(ps: Seq<ParamView>)
    requires
        forall|i: int| 0 <= i < ps.len() ==> is_param(#[trigger] ps[i]) && is_ascii_chars(ps[i].1),
    ensures
        forall|i: int| 0 <= i < rendered(ps).len() ==> #[trigger] rendered(ps)[i] <= 0x7f,
        ps.len() > 0 ==> rendered(ps).last() == DQUOTE,
    decreases ps.len(),
{
    if ps.len() > 0 {
        let p = ps[0];
        let b = rendered_param(p);
        assert(is_param(p));
        lemma_escaped_ascii(p.1);
        assert forall|i: int| 0 <= i < b.len() implies #[trigger] b[i] <= 0x7f by {
            if i < p.0.len() {
                lemma_tchar_is_plain(p.0[i] as u8);
            }
        }
        if ps.len() > 1 {
            let others = ps.skip(1);
            assert forall|i: int| 0 <= i < others.len() implies is_param(#[trigger] others[i])
                && is_ascii_chars(others[i].1) by {
                assert(others[i] == ps[i + 1]);
            }
            lemma_rendered_ascii(others);
        }
    }
}

/// The header value `Payment`, a space, and the parameters as a list.
pub open spec fn payment_header(ps: Seq<ParamView>) -> Seq<char> {
    PAYMENT_SCHEME@ + seq![' '] + latin1(rendered(ps))
}

/// What a `Payment` header says after its scheme is the parameters that were written there.
pub proof fn payment_header_reads_back(ps: Seq<ParamView>)
    requires
        ps.len() > 0,
        forall|i: int| 0 <= i < ps.len() ==> is_param(#[trigger] ps[i]) && is_ascii_chars(ps[i].1),
    ensures
        scheme(payment_header(ps)) == PAYMENT_SCHEME@,
        params(encode_utf8(after_scheme(payment_header(ps)))) == Ok::<_, Seq<char>>(ps),
        payment_authorization(payment_header(ps)) == credentials(ps),
{
    reveal_strlit("Payment");
    let word = PAYMENT_SCHEME@;
    let list = latin1(rendered(ps));
    let rest = seq![' '] + list;
    let header = payment_header(ps);
    lemma_rendered_ascii(ps);
    assert(header =~= word + rest);
    assert(is_param(ps[0]));
    lemma_tchar_is_plain(ps[0].0[0] as u8);
    assert(rendered(ps)[0] == ps[0].0[0] as u8);
    assert(header.last() == '"');
    assert(trimmed(header) == header);
    lemma_word_len(word, rest);
    assert(header.take(7) =~= word);
    assert(header.skip(8) =~= list);
    assert(trimmed_start(list) == list);
    assert(after_scheme(header) == list);
    assert(is_ascii_chars(list));
    is_ascii_chars_encode_utf8(list);
    assert forall|i: int| 0 <= i < list.len() implies list[i] as u8 == rendered(ps)[i] by {
        let b = rendered(ps)[i];
        assert(b as u32 as u8 == b) by (bit_vector);
    }
    assert(encode_utf8(list) =~= rendered(ps));
    rendered_params_read_back(ps);
}

/// The credentials of a client: method `cashu` and its token.
pub open spec fn cashu_credentials(token: Seq<char>) -> Seq<ParamView> {
    seq![(METHOD_PARAM@, CASHU_METHOD@), (TOKEN_PARAM@, token)]
}

/// A client that puts an ASCII token into the header, in either order of the parameters and with
/// `"` and `\` escaped, is understood: the parser hands back that very token.
///
/// A token with other characters does not come back: header bytes are read one by one.
pub proof fn presented_token_reads_back(token: Seq<char>)
    requires
        is_ascii_chars(token),
    ensures
        payment_authorization(payment_header(cashu_credentials(token))) == Ok::<
            _,
            AuthParseErrorView,
        >(token),
        payment_authorization(payment_header(cashu_credentials(token).reverse())) == Ok::<
            _,
            AuthParseErrorView,
        >(token),
{
    reveal_strlit("method");
    reveal_strlit("cashu");
    reveal_strlit("token");
    reveal_strlit("!#$%&'*+-.^_`|~");
    reveal_with_fuel(value_of, 3);
    let ps = cashu_credentials(token);
    let back = ps.reverse();
    assert(back[0] == ps[1] && back[1] == ps[0]);
    assert(is_param_name(METHOD_PARAM@));
    assert(is_param_name(TOKEN_PARAM@));
    assert(is_param(ps[0]) && is_param(ps[1]));
    payment_header_reads_back(ps);
    payment_header_reads_back(back);
    assert(!same_ignoring_case(METHOD_PARAM@, TOKEN_PARAM@));
    assert(!same_ignoring_case(TOKEN_PARAM@, METHOD_PARAM@));
    assert(ps.skip(1)[0] == ps[1] && back.skip(1)[0] == back[1]);
}

/// A character that can stand in a header as text: visible ASCII, a space or a tab.
pub open spec fn is_text_char(c: char) -> bool {
    ' ' <= c <= '~' || c == '\t'
}

spec fn is_text_byte(b: u8) -> bool {
    32 <= b <= 126 || b == 9
}

proof fn lemma_escaped_visible(value: Seq<char>)
    requires
        forall|i: int| 0 <= i < value.len() ==> is_text_char(#[trigger] value[i]),
    ensures
        forall|i: int|
            0 <= i < escaped(value).len() ==> is_text_byte(#[trigger] escaped(value)[i]),
    decreases value.len(),
{
    if value.len() > 0 {
        let tail = value.skip(1);
        assert forall|i: int| 0 <= i < tail.len() implies is_text_char(#[trigger] tail[i]) by {
            assert(tail[i] == value[i + 1]);
        }
        lemma_escaped_visible(tail);
        lemma_byte_char(value[0]);
        let c = value[0] as u8;
        let n: int = if c == DQUOTE || c == BACKSLASH {
            2
        } else {
            1
        };
        assert forall|i: int| 0 <= i < escaped(value).len() implies is_text_byte(
            #[trigger] escaped(value)[i]) by {
            if i >= n {
                assert(escaped(value)[i] == escaped(tail)[i - n]);
            }
        }
    }
}

proof fn lemma_rendered_param_visible(p: ParamView)
    requires
        is_param(p),
        forall|i: int| 0 <= i < p.1.len() ==> is_text_char(#[trigger] p.1[i]),
    ensures
        forall|i: int|
            0 <= i < rendered_param(p).len() ==> is_text_byte(#[trigger] rendered_param(p)[i]),
{
    let b = rendered_param(p);
    lemma_escaped_visible(p.1);
    assert forall|i: int| 0 <= i < b.len() implies is_text_byte(#[trigger] b[i]) by {
        if i < p.0.len() {
            lemma_tchar_is_plain(p.0[i] as u8);
        }
    }
}

/// Credentials with a visible token make a visible header, in whichever order they stand.
pub(crate) proof fn lemma_credentials_visible(token: Seq<char>, ps: Seq<ParamView>)
    requires
        forall|i: int| 0 <= i < token.len() ==> is_text_char(#[trigger] token[i]),
        ps == cashu_credentials(token) || ps == cashu_credentials(token).reverse(),
    ensures
        forall|i: int|
            0 <= i < payment_header(ps).len() ==> is_text_char(#[trigger] payment_header(ps)[i]),
{
    reveal_strlit("Payment");
    reveal_strlit("method");
    reveal_strlit("cashu");
    reveal_strlit("token");
    reveal_strlit("!#$%&'*+-.^_`|~");
    reveal_with_fuel(rendered, 3);
    assert(is_param_name(METHOD_PARAM@));
    assert(is_param_name(TOKEN_PARAM@));
    lemma_rendered_param_visible((METHOD_PARAM@, CASHU_METHOD@));
    lemma_rendered_param_visible((TOKEN_PARAM@, token));
    assert(ps.len() == 2);
    assert(ps.skip(1)[0] == ps[1]);
    let header = payment_header(ps);
    let first = rendered_param(ps[0]);
    let second = rendered_param(ps[1]);
    let list = rendered(ps);
    assert(list == first + seq![COMMA, SP] + second);
    assert forall|i: int| 0 <= i < list.len() implies is_text_byte(#[trigger] list[i]) by {
        if i < first.len() {
            assert(list[i] == first[i]);
        } else if i >= first.len() + 2 {
            assert(list[i] == second[i - first.len() - 2]);
        }
    }
    assert forall|i: int| 0 <= i < header.len() implies is_text_char(#[trigger] header[i]) by {
        if i >= 8 {
            assert(header[i] == list[i - 8] as char);
        }
    }
}

proof fn lemma_trimmed_end_keeps(head: Seq<char>, rest: Seq<char>)
    requires
        head.len() > 0,
        !is_white_space(head.last()),
    ensures
        trimmed_end(head + rest) == head + trimmed_end(rest),
    decreases rest.len(),
{
    if rest.len() == 0 {
        assert(head + rest =~= head);
    } else if is_white_space(rest.last()) {
        assert((head + rest).drop_last() =~= head + rest.drop_last());
        lemma_trimmed_end_keeps(head, rest.drop_last());
    }
}

pub(crate) proof fn lemma_trimmed_end_prefix(s: Seq<char>)
    ensures
        trimmed_end(s).len() <= s.len(),
        trimmed_end(s) == s.take(trimmed_end(s).len() as int),
    decreases s.len(),
{
    if s.len() > 0 && is_white_space(s.last()) {
        lemma_trimmed_end_prefix(s.drop_last());
        assert(s.drop_last().take(trimmed_end(s).len() as int) =~= s.take(
            trimmed_end(s).len() as int,
        ));
    } else {
        assert(s.take(s.len() as int) =~= s);
    }
}

/// A word: no character of it is whitespace.
pub open spec fn is_word(s: Seq<char>) -> bool {
    forall|i: int| 0 <= i < s.len() ==> !is_white_space(#[trigger] s[i])
}

/// The case of the scheme does not matter: two headers that differ only in it parse alike.
pub proof fn scheme_case_does_not_matter(one: Seq<char>, other: Seq<char>, rest: Seq<char>)
    requires
        is_word(one),
        is_word(other),
        same_ignoring_case(one, other),
        rest.len() == 0 || is_ascii_white_space(rest[0]),
    ensures
        payment_authorization(one + rest) == payment_authorization(other + rest),
{
    if one.len() == 0 {
        assert(one =~= other);
    } else {
        lemma_scheme_of_word(one, rest);
        lemma_scheme_of_word(other, rest);
        let p = PAYMENT_SCHEME@;
        if same_ignoring_case(one, p) {
            assert forall|i: int| 0 <= i < other.len() implies ascii_folded(#[trigger] other[i])
                == ascii_folded(p[i]) by {
                assert(ascii_folded(one[i]) == ascii_folded(other[i]));
            }
        }
        if same_ignoring_case(other, p) {
            assert forall|i: int| 0 <= i < one.len() implies ascii_folded(#[trigger] one[i])
                == ascii_folded(p[i]) by {
                assert(ascii_folded(other[i]) == ascii_folded(p[i]));
            }
        }
    }
}

pub(crate) proof fn lemma_scheme_of_word(word: Seq<char>, rest: Seq<char>)
    requires
        word.len() > 0,
        is_word(word),
        rest.len() == 0 || is_ascii_white_space(rest[0]),
    ensures
        scheme(word + rest) == word,
        after_scheme(word + rest) == (if trimmed_end(rest).len() == 0 {
            Seq::empty()
        } else {
            trimmed_start(trimmed_end(rest).skip(1))
        }),
{
    let end = trimmed_end(rest);
    assert((word + rest)[0] == word[0]);
    assert(trimmed_start(word + rest) == word + rest);
    lemma_trimmed_end_keeps(word, rest);
    lemma_trimmed_end_prefix(rest);
    let s = word + end;
    assert(trimmed(word + rest) == s);
    assert(end.len() == 0 || end[0] == rest[0]);
    lemma_word_len(word, end);
    assert(s.take(word.len() as int) =~= word);
    if end.len() > 0 {
        assert(s.skip(word.len() as int + 1) =~= end.skip(1));
    }
}

proof fn lemma_trimmed_start_drops(pad: Seq<char>, s: Seq<char>)
    requires
        forall|i: int| 0 <= i < pad.len() ==> is_white_space(#[trigger] pad[i]),
    ensures
        trimmed_start(pad + s) == trimmed_start(s),
    decreases pad.len(),
{
    if pad.len() == 0 {
        assert(pad + s =~= s);
    } else {
        assert((pad + s)[0] == pad[0]);
        assert((pad + s).skip(1) =~= pad.skip(1) + s);
        lemma_trimmed_start_drops(pad.skip(1), s);
    }
}

proof fn lemma_trimmed_end_drops(s: Seq<char>, pad: Seq<char>)
    requires
        forall|i: int| 0 <= i < pad.len() ==> is_white_space(#[trigger] pad[i]),
    ensures
        trimmed_end(s + pad) == trimmed_end(s),
    decreases pad.len(),
{
    if pad.len() == 0 {
        assert(s + pad =~= s);
    } else {
        assert((s + pad).last() == pad.last());
        assert((s + pad).drop_last() =~= s + pad.drop_last());
        lemma_trimmed_end_drops(s, pad.drop_last());
    }
}

proof fn lemma_trimmed_start_extends(s: Seq<char>, pad: Seq<char>)
    requires
        forall|i: int| 0 <= i < pad.len() ==> is_white_space(#[trigger] pad[i]),
    ensures
        trimmed_end(trimmed_start(s + pad)) == trimmed_end(trimmed_start(s)),
    decreases s.len(),
{
    if s.len() == 0 {
        lemma_trimmed_start_drops(pad, s);
        assert(pad + s =~= s + pad);
    } else if is_white_space(s[0]) {
        assert((s + pad).skip(1) =~= s.skip(1) + pad);
        lemma_trimmed_start_extends(s.skip(1), pad);
    } else {
        lemma_trimmed_end_drops(s, pad);
    }
}

/// Trimming a padded text is trimming the text.
pub proof fn trimming_ignores_padding(before: Seq<char>, s: Seq<char>, after: Seq<char>)
    requires
        forall|i: int| 0 <= i < before.len() ==> is_white_space(#[trigger] before[i]),
        forall|i: int| 0 <= i < after.len() ==> is_white_space(#[trigger] after[i]),
    ensures
        trimmed(before + s + after) == trimmed(s),
{
    assert(before + s + after =~= before + (s + after));
    lemma_trimmed_start_drops(before, s + after);
    lemma_trimmed_start_extends(s, after);
}

/// Whitespace around a header value does not matter.
pub proof fn surrounding_whitespace_does_not_matter(
    before: Seq<char>,
    header: Seq<char>,
    after: Seq<char>,
)
    requires
        forall|i: int| 0 <= i < before.len() ==> is_white_space(#[trigger] before[i]),
        forall|i: int| 0 <= i < after.len() ==> is_white_space(#[trigger] after[i]),
    ensures
        payment_authorization(before + header + after) == payment_authorization(header),
{
    trimming_ignores_padding(before, header, after);
}

/// The case of parameter names does not matter, that of values does: lists with the same values
/// under names that differ only in case carry the same credentials.
pub proof fn param_name_case_does_not_matter(one: Seq<ParamView>, other: Seq<ParamView>)
    requires
        one.len() == other.len(),
        forall|i: int| 0 <= i < one.len() ==> same_ignoring_case((#[trigger] one[i]).0, other[i].0),
        forall|i: int| 0 <= i < one.len() ==> (#[trigger] one[i]).1 == other[i].1,
    ensures
        credentials(one) == credentials(other),
{
    lemma_value_of_folds(one, other, METHOD_PARAM@);
    lemma_value_of_folds(one, other, TOKEN_PARAM@);
}

proof fn lemma_value_of_folds(one: Seq<ParamView>, other: Seq<ParamView>, name: Seq<char>)
    requires
        one.len() == other.len(),
        forall|i: int| 0 <= i < one.len() ==> same_ignoring_case((#[trigger] one[i]).0, other[i].0),
        forall|i: int| 0 <= i < one.len() ==> (#[trigger] one[i]).1 == other[i].1,
    ensures
        value_of(one, name) == value_of(other, name),
    decreases one.len(),
{
    if one.len() > 0 {
        let a = one[0].0;
        let b = other[0].0;
        if same_ignoring_case(a, name) {
            assert forall|i: int| 0 <= i < b.len() implies ascii_folded(#[trigger] b[i])
                == ascii_folded(name[i]) by {
                assert(ascii_folded(a[i]) == ascii_folded(b[i]));
            }
        }
        if same_ignoring_case(b, name) {
            assert forall|i: int| 0 <= i < a.len() implies ascii_folded(#[trigger] a[i])
                == ascii_folded(name[i]) by {
                assert(ascii_folded(b[i]) == ascii_folded(name[i]));
            }
        }
        lemma_value_of_folds(one.skip(1), other.skip(1), name);
    }
}

} // verus!
