//! The law of letter case in `Authorization: Payment` headers: outside quoted values it does not
//! matter.
use vstd::prelude::*;
use vstd::utf8::{
    encode_scalar, encode_utf8, last_continuation_byte, leading_byte_width_1,
    leading_byte_width_2, leading_byte_width_3, leading_byte_width_4,
    second_last_continuation_byte, third_last_continuation_byte,
};

use crate::auth_header::{
    after_filler, after_ows, after_scheme, is_ascii_white_space, is_list_filler, is_ows, latin1,
    lemma_params_shrink, lemma_span_bound, param, params, payment_authorization, quoted, scheme,
    span, tchar, token_len, word_len, AuthParseErrorView, ParamView, BACKSLASH, DQUOTE,
    PAYMENT_SCHEME,
};
use crate::auth_laws::{
    lemma_trimmed_end_prefix, param_name_case_does_not_matter,
    surrounding_whitespace_does_not_matter,
};
use crate::text::{
    ascii_folded, is_white_space, same_ignoring_case, trimmed, trimmed_end, trimmed_start,
};

verus! {

/// Where in a header a character stands.
pub enum Place {
    /// Outside quoted values.
    Outside,
    /// In a quoted value.
    Quoted,
    /// In a quoted value, behind the backslash that escapes it.
    Escaped,
}

/// Where the character after `c` stands.
pub open spec fn next_place(place: Place, c: char) -> Place {
    match place {
        Place::Outside => if c == '"' {
            Place::Quoted
        } else {
            Place::Outside
        },
        Place::Quoted => if c == '"' {
            Place::Outside
        } else if c == '\\' {
            Place::Escaped
        } else {
            Place::Quoted
        },
        Place::Escaped => Place::Quoted,
    }
}

/// Whether two characters are the same, but for the case of ASCII letters outside quoted values.
pub open spec fn alike(place: Place, c: char, d: char) -> bool {
    match place {
        Place::Outside => ascii_folded(c) == ascii_folded(d),
        _ => c == d,
    }
}

/// Whether two texts are the same, but for the case of ASCII letters outside quoted values, where
/// the first character stands at `place`.
pub open spec fn same_but_case(a: Seq<char>, b: Seq<char>, place: Place) -> bool
    decreases a.len(),
{
    if a.len() == 0 || b.len() == 0 {
        a.len() == b.len()
    } else {
        alike(place, a[0], b[0]) && same_but_case(a.skip(1), b.skip(1), next_place(place, a[0]))
    }
}

spec fn bytes_but_case(x: Seq<u8>, y: Seq<u8>, place: Place) -> bool
    decreases x.len(),
{
    if x.len() == 0 || y.len() == 0 {
        x.len() == y.len()
    } else {
        alike(place, x[0] as char, y[0] as char) && bytes_but_case(
            x.skip(1),
            y.skip(1),
            next_place(place, x[0] as char),
        )
    }
}

proof fn lemma_alike_bytes(c: u8, d: u8)
    requires
        ascii_folded(c as char) == ascii_folded(d as char),
    ensures
        c == d || (tchar(c) && tchar(d) && !is_list_filler(c) && !is_list_filler(d) && c != DQUOTE
            && d != DQUOTE),
{
}

proof fn lemma_alike_chars(c: char, d: char)
    requires
        ascii_folded(c) == ascii_folded(d),
    ensures
        c as u32 > 0x7f || d as u32 > 0x7f ==> c == d,
        is_white_space(c) == is_white_space(d),
        is_ascii_white_space(c) == is_ascii_white_space(d),
{
}

proof fn lemma_span_same(x: Seq<u8>, y: Seq<u8>, f: spec_fn(u8) -> bool)
    requires
        bytes_but_case(x, y, Place::Outside),
        !f(DQUOTE),
        forall|c: u8, d: u8|
            ascii_folded(c as char) == ascii_folded(d as char) ==> #[trigger] f(c) == #[trigger] f(
                d,
            ),
    ensures
        x.len() == y.len(),
        span(x, f) == span(y, f),
        bytes_but_case(x.skip(span(x, f) as int), y.skip(span(x, f) as int), Place::Outside),
        forall|i: int|
            0 <= i < span(x, f) ==> ascii_folded(#[trigger] x[i] as char) == ascii_folded(
                y[i] as char,
            ),
    decreases x.len(),
{
    let n = span(x, f) as int;
    if x.len() == 0 || y.len() == 0 {
        assert(x.skip(0) =~= x);
        assert(y.skip(0) =~= y);
    } else {
        assert(f(x[0]) == f(y[0]));
        if f(x[0]) {
            assert(x[0] as char != '"');
            lemma_span_same(x.skip(1), y.skip(1), f);
            lemma_span_bound(x.skip(1), f);
            assert(x.skip(1).skip(n - 1) =~= x.skip(n));
            assert(y.skip(1).skip(n - 1) =~= y.skip(n));
            assert forall|i: int| 0 <= i < n implies ascii_folded(#[trigger] x[i] as char)
                == ascii_folded(y[i] as char) by {
                if i > 0 {
                    assert(x.skip(1)[i - 1] == x[i]);
                    assert(y.skip(1)[i - 1] == y[i]);
                }
            }
        } else {
            assert(x.skip(0) =~= x);
            assert(y.skip(0) =~= y);
            lemma_bytes_same_len(x, y, Place::Outside);
        }
    }
}

proof fn lemma_bytes_same_len(x: Seq<u8>, y: Seq<u8>, place: Place)
    requires
        bytes_but_case(x, y, place),
    ensures
        x.len() == y.len(),
    decreases x.len(),
{
    if x.len() > 0 && y.len() > 0 {
        lemma_bytes_same_len(x.skip(1), y.skip(1), next_place(place, x[0] as char));
    }
}

proof fn lemma_quoted_same(x: Seq<u8>, y: Seq<u8>)
    requires
        bytes_but_case(x, y, Place::Quoted),
    ensures
        quoted(x) matches Ok((value, rest)) ==> (quoted(y) matches Ok((other, left)) && other
            == value && bytes_but_case(rest, left, Place::Outside)),
    decreases x.len(),
{
    lemma_bytes_same_len(x, y, Place::Quoted);
    if x.len() > 0 {
        assert(x[0] == y[0]);
        if x[0] == DQUOTE {
        } else if x[0] != BACKSLASH {
            lemma_quoted_same(x.skip(1), y.skip(1));
        } else if x.len() > 1 {
            assert(bytes_but_case(x.skip(1), y.skip(1), Place::Escaped));
            assert(x.skip(1)[0] == y.skip(1)[0]);
            assert(x.skip(1).skip(1) =~= x.skip(2));
            assert(y.skip(1).skip(1) =~= y.skip(2));
            lemma_quoted_same(x.skip(2), y.skip(2));
        }
    }
}

proof fn lemma_tokens_alike(x: Seq<u8>, y: Seq<u8>)
    requires
        bytes_but_case(x, y, Place::Outside),
    ensures
        token_len(x) == token_len(y),
        bytes_but_case(
            x.skip(token_len(x) as int),
            y.skip(token_len(x) as int),
            Place::Outside,
        ),
        same_ignoring_case(
            latin1(x.take(token_len(x) as int)),
            latin1(y.take(token_len(x) as int)),
        ),
{
    let f = |c: u8| tchar(c);
    assert(!tchar(DQUOTE)) by {
        reveal_strlit("!#$%&'*+-.^_`|~");
        assert(!"!#$%&'*+-.^_`|~"@.contains('"'));
    }
    assert forall|c: u8, d: u8|
        ascii_folded(c as char) == ascii_folded(d as char) implies #[trigger] f(c)
        == #[trigger] f(d) by {
        lemma_alike_bytes(c, d);
    }
    lemma_span_same(x, y, f);
    lemma_span_bound(x, f);
}

proof fn lemma_after_ows_alike(x: Seq<u8>, y: Seq<u8>)
    requires
        bytes_but_case(x, y, Place::Outside),
    ensures
        bytes_but_case(after_ows(x), after_ows(y), Place::Outside),
{
    let f = |c: u8| is_ows(c);
    assert forall|c: u8, d: u8|
        ascii_folded(c as char) == ascii_folded(d as char) implies #[trigger] f(c)
        == #[trigger] f(d) by {
        lemma_alike_bytes(c, d);
    }
    lemma_span_same(x, y, f);
}

proof fn lemma_after_filler_alike(x: Seq<u8>, y: Seq<u8>)
    requires
        bytes_but_case(x, y, Place::Outside),
    ensures
        bytes_but_case(after_filler(x), after_filler(y), Place::Outside),
{
    let f = |c: u8| is_list_filler(c);
    assert forall|c: u8, d: u8|
        ascii_folded(c as char) == ascii_folded(d as char) implies #[trigger] f(c)
        == #[trigger] f(d) by {
        lemma_alike_bytes(c, d);
    }
    lemma_span_same(x, y, f);
}

proof fn lemma_param_alike(x: Seq<u8>, y: Seq<u8>)
    requires
        bytes_but_case(x, y, Place::Outside),
    ensures
        param(x) matches Ok((name, value, rest)) ==> (param(y) matches Ok((other, same, left))
            && same_ignoring_case(name, other) && same == value && bytes_but_case(
            rest,
            left,
            Place::Outside,
        )),
{
    if param(x) is Ok {
        let n = token_len(x) as int;
        lemma_tokens_alike(x, y);
        lemma_after_ows_alike(x.skip(n), y.skip(n));
        let after_name = after_ows(x.skip(n));
        let after_other = after_ows(y.skip(n));
        lemma_bytes_same_len(after_name, after_other, Place::Outside);
        lemma_alike_bytes(after_name[0], after_other[0]);
        assert(!tchar(after_name[0])) by {
            reveal_strlit("!#$%&'*+-.^_`|~");
            assert(!"!#$%&'*+-.^_`|~"@.contains('='));
        }
        lemma_after_ows_alike(after_name.skip(1), after_other.skip(1));
        let value = after_ows(after_name.skip(1));
        let other = after_ows(after_other.skip(1));
        lemma_bytes_same_len(value, other, Place::Outside);
        lemma_alike_bytes(value[0], other[0]);
        lemma_quoted_same(value.skip(1), other.skip(1));
    }
}

spec fn params_alike(one: Seq<ParamView>, other: Seq<ParamView>) -> bool {
    &&& one.len() == other.len()
    &&& forall|i: int| 0 <= i < one.len() ==> same_ignoring_case((#[trigger] one[i]).0, other[i].0)
    &&& forall|i: int| 0 <= i < one.len() ==> (#[trigger] one[i]).1 == other[i].1
}

proof fn lemma_params_alike(x: Seq<u8>, y: Seq<u8>)
    requires
        bytes_but_case(x, y, Place::Outside),
    ensures
        params(x) matches Ok(one) ==> (params(y) matches Ok(other) && params_alike(one, other)),
    decreases x.len(),
{
    if params(x) is Ok {
        lemma_after_filler_alike(x, y);
        let start = after_filler(x);
        let other_start = after_filler(y);
        lemma_bytes_same_len(start, other_start, Place::Outside);
        if start.len() > 0 {
            lemma_param_alike(start, other_start);
            lemma_params_shrink(x);
            let (name, value, rest) = param(start)->Ok_0;
            let (other_name, other_value, left) = param(other_start)->Ok_0;
            lemma_after_ows_alike(rest, left);
            let next = after_ows(rest);
            let other_next = after_ows(left);
            lemma_bytes_same_len(next, other_next, Place::Outside);
            let one = seq![(name, value)];
            let other = seq![(other_name, other_value)];
            assert(params_alike(one, other));
            if next.len() > 0 {
                lemma_alike_bytes(next[0], other_next[0]);
                lemma_params_alike(next.skip(1), other_next.skip(1));
                let others = params(next.skip(1))->Ok_0;
                let rest_of_other = params(other_next.skip(1))->Ok_0;
                assert(params_alike(one + others, other + rest_of_other));
            }
        }
    }
}

proof fn lemma_high_bytes(u: Seq<u8>, x: Seq<u8>, y: Seq<u8>, place: Place)
    requires
        u.len() > 0,
        forall|i: int| 0 <= i < u.len() ==> #[trigger] u[i] >= 0x80,
        bytes_but_case(
            x,
            y,
            match place {
                Place::Outside => Place::Outside,
                _ => Place::Quoted,
            },
        ),
    ensures
        bytes_but_case(u + x, u + y, place),
    decreases u.len(),
{
    let tail = u.skip(1);
    assert((u + x).skip(1) =~= tail + x);
    assert((u + y).skip(1) =~= tail + y);
    assert((u + x)[0] == u[0] && (u + y)[0] == u[0]);
    let next = match place {
        Place::Outside => Place::Outside,
        _ => Place::Quoted,
    };
    assert(next_place(place, u[0] as char) == next);
    if tail.len() > 0 {
        assert forall|i: int| 0 <= i < tail.len() implies #[trigger] tail[i] >= 0x80 by {
            assert(tail[i] == u[i + 1]);
        }
        lemma_high_bytes(tail, x, y, next);
    } else {
        assert(tail + x =~= x);
        assert(tail + y =~= y);
    }
}

proof fn lemma_scalar_bytes(c: char)
    ensures
        c as u32 <= 0x7f ==> encode_scalar(c as u32) == seq![c as u8] && (c as u8) as char == c,
        c as u32 > 0x7f ==> encode_scalar(c as u32).len() > 0 && forall|i: int|
            0 <= i < encode_scalar(c as u32).len() ==> #[trigger] encode_scalar(c as u32)[i]
                >= 0x80,
{
    let n = c as u32;
    if n <= 0x7f {
        assert(n as u8 == leading_byte_width_1(n) && n as u8 as u32 == n) by (bit_vector)
            requires
                n <= 0x7f,
        ;
    } else {
        assert(leading_byte_width_2(n) >= 0x80) by (bit_vector);
        assert(leading_byte_width_3(n) >= 0x80) by (bit_vector);
        assert(leading_byte_width_4(n) >= 0x80) by (bit_vector);
        assert(last_continuation_byte(n) >= 0x80) by (bit_vector);
        assert(second_last_continuation_byte(n) >= 0x80) by (bit_vector);
        assert(third_last_continuation_byte(n) >= 0x80) by (bit_vector);
    }
}

proof fn lemma_encoded_alike(a: Seq<char>, b: Seq<char>, place: Place)
    requires
        same_but_case(a, b, place),
    ensures
        bytes_but_case(encode_utf8(a), encode_utf8(b), place),
    decreases a.len(),
{
    if a.len() > 0 && b.len() > 0 {
        let c = a[0];
        let d = b[0];
        let x = encode_utf8(a.skip(1));
        let y = encode_utf8(b.skip(1));
        assert(a.drop_first() =~= a.skip(1));
        assert(b.drop_first() =~= b.skip(1));
        lemma_encoded_alike(a.skip(1), b.skip(1), next_place(place, c));
        lemma_scalar_bytes(c);
        lemma_scalar_bytes(d);
        lemma_alike_chars(c, d);
        if c as u32 <= 0x7f {
            let u = seq![c as u8] + x;
            let v = seq![d as u8] + y;
            assert(u.skip(1) =~= x);
            assert(v.skip(1) =~= y);
            assert(encode_utf8(a) == u && encode_utf8(b) == v);
        } else {
            lemma_high_bytes(encode_scalar(c as u32), x, y, place);
        }
    }
}

proof fn lemma_folds(a: Seq<char>, b: Seq<char>, place: Place)
    requires
        same_but_case(a, b, place),
    ensures
        a.len() == b.len(),
        forall|i: int| 0 <= i < a.len() ==> ascii_folded(#[trigger] a[i]) == ascii_folded(b[i]),
    decreases a.len(),
{
    if a.len() > 0 && b.len() > 0 {
        lemma_folds(a.skip(1), b.skip(1), next_place(place, a[0]));
        assert forall|i: int| 0 <= i < a.len() implies ascii_folded(#[trigger] a[i])
            == ascii_folded(b[i]) by {
            if i > 0 {
                assert(a.skip(1)[i - 1] == a[i]);
                assert(b.skip(1)[i - 1] == b[i]);
            }
        }
    }
}

proof fn lemma_take_alike(a: Seq<char>, b: Seq<char>, place: Place, n: int)
    requires
        same_but_case(a, b, place),
        0 <= n <= a.len(),
    ensures
        same_but_case(a.take(n), b.take(n), place),
    decreases a.len(),
{
    lemma_folds(a, b, place);
    if n > 0 {
        lemma_take_alike(a.skip(1), b.skip(1), next_place(place, a[0]), n - 1);
        assert(a.take(n).skip(1) =~= a.skip(1).take(n - 1));
        assert(b.take(n).skip(1) =~= b.skip(1).take(n - 1));
    }
}

proof fn lemma_skip_alike(a: Seq<char>, b: Seq<char>, n: int)
    requires
        same_but_case(a, b, Place::Outside),
        0 <= n <= a.len(),
        forall|i: int| 0 <= i < n ==> #[trigger] a[i] != '"',
    ensures
        same_but_case(a.skip(n), b.skip(n), Place::Outside),
    decreases n,
{
    lemma_folds(a, b, Place::Outside);
    if n == 0 {
        assert(a.skip(0) =~= a);
        assert(b.skip(0) =~= b);
    } else {
        assert forall|i: int| 0 <= i < n - 1 implies #[trigger] a.skip(1)[i] != '"' by {
            assert(a.skip(1)[i] == a[i + 1]);
        }
        lemma_skip_alike(a.skip(1), b.skip(1), n - 1);
        assert(a.skip(1).skip(n - 1) =~= a.skip(n));
        assert(b.skip(1).skip(n - 1) =~= b.skip(n));
    }
}

proof fn lemma_trimmed_start_alike(a: Seq<char>, b: Seq<char>)
    requires
        same_but_case(a, b, Place::Outside),
    ensures
        same_but_case(trimmed_start(a), trimmed_start(b), Place::Outside),
    decreases a.len(),
{
    lemma_folds(a, b, Place::Outside);
    if a.len() > 0 {
        lemma_alike_chars(a[0], b[0]);
        if is_white_space(a[0]) {
            lemma_trimmed_start_alike(a.skip(1), b.skip(1));
        }
    }
}

proof fn lemma_trimmed_end_alike(a: Seq<char>, b: Seq<char>)
    requires
        a.len() == b.len(),
        forall|i: int| 0 <= i < a.len() ==> ascii_folded(#[trigger] a[i]) == ascii_folded(b[i]),
    ensures
        trimmed_end(a).len() == trimmed_end(b).len(),
    decreases a.len(),
{
    if a.len() > 0 {
        assert(ascii_folded(a[a.len() - 1]) == ascii_folded(b[a.len() - 1]));
        lemma_alike_chars(a.last(), b.last());
        if is_white_space(a.last()) {
            lemma_trimmed_end_alike(a.drop_last(), b.drop_last());
        }
    }
}

proof fn lemma_word_len_alike(a: Seq<char>, b: Seq<char>)
    requires
        a.len() == b.len(),
        forall|i: int| 0 <= i < a.len() ==> ascii_folded(#[trigger] a[i]) == ascii_folded(b[i]),
    ensures
        word_len(a) == word_len(b),
        word_len(a) <= a.len(),
        word_len(a) < a.len() ==> is_ascii_white_space(a[word_len(a) as int]),
    decreases a.len(),
{
    if a.len() > 0 {
        assert(ascii_folded(a[0]) == ascii_folded(b[0]));
        lemma_alike_chars(a[0], b[0]);
        if !is_ascii_white_space(a[0]) {
            assert forall|i: int| 0 <= i < a.len() - 1 implies ascii_folded(
                #[trigger] a.skip(1)[i],
            ) == ascii_folded(b.skip(1)[i]) by {
                assert(a.skip(1)[i] == a[i + 1]);
                assert(b.skip(1)[i] == b[i + 1]);
            }
            lemma_word_len_alike(a.skip(1), b.skip(1));
        }
    }
}

proof fn lemma_trimmed_alike(a: Seq<char>, b: Seq<char>)
    requires
        same_but_case(a, b, Place::Outside),
    ensures
        same_but_case(trimmed(a), trimmed(b), Place::Outside),
{
    let x = trimmed_start(a);
    let y = trimmed_start(b);
    lemma_trimmed_start_alike(a, b);
    lemma_folds(x, y, Place::Outside);
    lemma_trimmed_end_alike(x, y);
    lemma_trimmed_end_prefix(x);
    lemma_trimmed_end_prefix(y);
    lemma_take_alike(x, y, Place::Outside, trimmed_end(x).len() as int);
}

proof fn lemma_same_case_either_way(a: Seq<char>, b: Seq<char>, name: Seq<char>)
    requires
        a.len() == b.len(),
        forall|i: int| 0 <= i < a.len() ==> ascii_folded(#[trigger] a[i]) == ascii_folded(b[i]),
    ensures
        same_ignoring_case(a, name) == same_ignoring_case(b, name),
{
    if same_ignoring_case(a, name) {
        assert forall|i: int| 0 <= i < b.len() implies ascii_folded(#[trigger] b[i])
            == ascii_folded(name[i]) by {
            assert(ascii_folded(a[i]) == ascii_folded(b[i]));
        }
    }
    if same_ignoring_case(b, name) {
        assert forall|i: int| 0 <= i < a.len() implies ascii_folded(#[trigger] a[i])
            == ascii_folded(name[i]) by {
            assert(ascii_folded(a[i]) == ascii_folded(b[i]));
        }
    }
}

/// The case of letters outside quoted values, those of the scheme and of parameter names, does
/// not matter, and neither does whitespace around the header: a header that differs from another
/// only in these means the same. Where the parameters do not parse, the messages may differ in a
/// letter that they quote.
pub proof fn case_outside_values_does_not_matter(
    header: Seq<char>,
    other: Seq<char>,
    before: Seq<char>,
    after: Seq<char>,
)
    requires
        same_but_case(header, other, Place::Outside),
        forall|i: int| 0 <= i < before.len() ==> is_white_space(#[trigger] before[i]),
        forall|i: int| 0 <= i < after.len() ==> is_white_space(#[trigger] after[i]),
    ensures
        !(payment_authorization(header) matches Err(AuthParseErrorView::MalformedParams(_)))
            ==> payment_authorization(before + other + after) == payment_authorization(header),
{
    surrounding_whitespace_does_not_matter(before, other, after);
    let a = trimmed(header);
    let b = trimmed(other);
    lemma_trimmed_alike(header, other);
    lemma_folds(a, b, Place::Outside);
    lemma_word_len_alike(a, b);
    let n = word_len(a) as int;
    assert(scheme(header) == a.take(n) && scheme(other) == b.take(n));
    assert forall|i: int| 0 <= i < n implies ascii_folded(#[trigger] a.take(n)[i])
        == ascii_folded(b.take(n)[i]) by {
        assert(ascii_folded(a[i]) == ascii_folded(b[i]));
    }
    lemma_same_case_either_way(a.take(n), b.take(n), PAYMENT_SCHEME@);
    if same_ignoring_case(scheme(header), PAYMENT_SCHEME@) && n < a.len() {
        reveal_strlit("Payment");
        assert forall|i: int| 0 <= i < n + 1 implies #[trigger] a[i] != '"' by {
            if i < n {
                assert(a.take(n)[i] == a[i]);
                assert(ascii_folded(a.take(n)[i]) == ascii_folded(PAYMENT_SCHEME@[i]));
            }
        }
        lemma_skip_alike(a, b, n + 1);
        lemma_trimmed_start_alike(a.skip(n + 1), b.skip(n + 1));
        let x = after_scheme(header);
        let y = after_scheme(other);
        lemma_folds(x, y, Place::Outside);
        lemma_encoded_alike(x, y, Place::Outside);
        lemma_params_alike(encode_utf8(x), encode_utf8(y));
        if let Ok(ps) = params(encode_utf8(x)) {
            let qs = params(encode_utf8(y))->Ok_0;
            param_name_case_does_not_matter(ps, qs);
        }
    }
}

} // verus!
