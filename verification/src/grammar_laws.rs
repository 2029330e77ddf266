//! The grammar of `Authorization: Payment` headers, law by law: what each way of writing one
//! means, and what each way of getting it wrong is answered.
use vstd::prelude::*;
use vstd::utf8::encode_utf8;

use crate::auth_header::{
    after_filler, after_ows, credentials, is_list_filler, is_ows, latin1,
    lemma_params_shrink, param, params, payment_authorization, quoted, scheme,
    span, tchar, token_len, value_of, AuthParseErrorView, ParamView,
};
use crate::auth_laws::{
    is_word, lemma_scheme_of_word, lemma_span_exact, surrounding_whitespace_does_not_matter,
};
use crate::text::{
    ascii_folded, char_debug, is_white_space, same_ignoring_case, trimmed, trimmed_end,
    trimmed_start,
};

verus! {

/// The characters with the code points of bytes.
pub open spec fn chars(b: Seq<u8>) -> Seq<char> {
    Seq::new(b.len(), |i: int| b[i] as char)
}

/// The bytes of a value between its quotes, where those marked in `marked` stand behind a
/// backslash.
pub open spec fn written(value: Seq<u8>, marked: Seq<bool>) -> Seq<u8>
    decreases value.len(),
{
    if value.len() == 0 {
        Seq::empty()
    } else if marked[0] {
        seq![0x5cu8, value[0]] + written(value.skip(1), marked.skip(1))
    } else {
        seq![value[0]] + written(value.skip(1), marked.skip(1))
    }
}

/// Whether a value can be written with these marks: quotes and backslashes need one, any other
/// byte may have one.
pub open spec fn may_be_written(value: Seq<u8>, marked: Seq<bool>) -> bool {
    &&& marked.len() == value.len()
    &&& forall|i: int|
        0 <= i < value.len() ==> (#[trigger] value[i] == 0x22 || value[i] == 0x5c ==> marked[i])
}

/// Whether all bytes are spaces or tabs.
pub open spec fn is_blank(b: Seq<u8>) -> bool {
    forall|i: int| 0 <= i < b.len() ==> (#[trigger] b[i] == 0x20 || b[i] == 0x09)
}

/// Whether all bytes are spaces, tabs or commas.
pub open spec fn is_separator(b: Seq<u8>) -> bool {
    forall|i: int|
        0 <= i < b.len() ==> (#[trigger] b[i] == 0x20 || b[i] == 0x09 || b[i] == 0x2c)
}

/// A byte of a parameter name: an ASCII letter or digit, or one of the marks that RFC 7230 allows.
pub open spec fn is_name_byte(b: u8) -> bool {
    ||| 0x61 <= b <= 0x7a
    ||| 0x41 <= b <= 0x5a
    ||| 0x30 <= b <= 0x39
    ||| b == 0x21 || 0x23 <= b <= 0x27 || b == 0x2a || b == 0x2b || b == 0x2d || b == 0x2e
    ||| 0x5e <= b <= 0x60 || b == 0x7c || b == 0x7e
}

/// Whether bytes are a parameter name.
pub open spec fn is_name(b: Seq<u8>) -> bool {
    b.len() > 0 && forall|i: int| 0 <= i < b.len() ==> is_name_byte(#[trigger] b[i])
}

/// The bytes that make up a name are these.
pub proof fn name_bytes(b: u8)
    ensures
        tchar(b) <==> is_name_byte(b),
        is_ows(b) <==> b == 0x20 || b == 0x09,
        is_list_filler(b) <==> b == 0x20 || b == 0x09 || b == 0x2c,
        latin1(seq![b]) == seq![b as char],
{
    reveal_strlit("!#$%&'*+-.^_`|~");
    let s = "!#$%&'*+-.^_`|~"@;
    assert(s.contains(b as char) ==> exists|i: int| 0 <= i < 15 && s[i] == b as char);
    assert(s[0] == '!' && s[1] == '#' && s[2] == '$' && s[3] == '%' && s[4] == '&' && s[5] == '\''
        && s[6] == '*' && s[7] == '+' && s[8] == '-' && s[9] == '.' && s[10] == '^' && s[11] == '_'
        && s[12] == '`' && s[13] == '|' && s[14] == '~');
    assert(latin1(seq![b]) =~= seq![b as char]);
}

/// A value reads as it was meant, with each escaped byte taken literally, and what follows its
/// closing quote is left over.
pub proof fn written_values_read_back(value: Seq<u8>, marked: Seq<bool>, rest: Seq<u8>)
    requires
        may_be_written(value, marked),
    ensures
        quoted(written(value, marked) + seq![0x22u8] + rest) == Ok::<_, Seq<char>>(
            (chars(value), rest),
        ),
    decreases value.len(),
{
    let b = written(value, marked) + seq![0x22u8] + rest;
    if value.len() == 0 {
        assert(b.skip(1) =~= rest);
        assert(chars(value) =~= Seq::empty());
    } else {
        lemma_marks_go_on(value, marked);
        let next = written(value.skip(1), marked.skip(1)) + seq![0x22u8] + rest;
        written_values_read_back(value.skip(1), marked.skip(1), rest);
        assert(seq![value[0] as char] + chars(value.skip(1)) =~= chars(value));
        if marked[0] {
            assert(b.skip(2) =~= next);
            assert(b[0] == 0x5c && b[1] == value[0]);
        } else {
            assert(b.skip(1) =~= next);
            assert(b[0] == value[0]);
        }
    }
}

proof fn lemma_marks_go_on(value: Seq<u8>, marked: Seq<bool>)
    requires
        may_be_written(value, marked),
        value.len() > 0,
    ensures
        may_be_written(value.skip(1), marked.skip(1)),
{
    let tail = value.skip(1);
    assert forall|i: int|
        0 <= i < tail.len() && (#[trigger] tail[i] == 0x22 || tail[i] == 0x5c) implies marked.skip(
        1,
    )[i] by {
        assert(tail[i] == value[i + 1]);
    }
}

/// A value without a closing quote is unterminated, and one that ends in the backslash of an
/// escape trails.
pub proof fn unfinished_values_are_refused(value: Seq<u8>, marked: Seq<bool>)
    requires
        may_be_written(value, marked),
    ensures
        quoted(written(value, marked)) == Err::<(Seq<char>, Seq<u8>), _>(
            "unterminated quoted-string"@,
        ),
        quoted(written(value, marked) + seq![0x5cu8]) == Err::<(Seq<char>, Seq<u8>), _>(
            "trailing backslash inside quoted-string"@,
        ),
    decreases value.len(),
{
    let b = written(value, marked);
    let c = b + seq![0x5cu8];
    if value.len() > 0 {
        lemma_marks_go_on(value, marked);
        let tail = written(value.skip(1), marked.skip(1));
        unfinished_values_are_refused(value.skip(1), marked.skip(1));
        if marked[0] {
            assert(b.skip(2) =~= tail);
            assert(c.skip(2) =~= tail + seq![0x5cu8]);
            assert(b[0] == 0x5c && c[0] == 0x5c);
        } else {
            assert(b.skip(1) =~= tail);
            assert(c.skip(1) =~= tail + seq![0x5cu8]);
            assert(b[0] == value[0] && c[0] == value[0]);
        }
    }
}

/// Any bytes are a value that ends at a quote, one that does not end, or one that ends in a
/// backslash: the laws on these say what every sequence of bytes reads as.
pub proof fn every_value_is_finished_or_not(b: Seq<u8>) -> (r: (Seq<u8>, Seq<bool>, Seq<u8>))
    ensures
        may_be_written(r.0, r.1),
        ({
            ||| b == written(r.0, r.1) + seq![0x22u8] + r.2
            ||| b == written(r.0, r.1)
            ||| b == written(r.0, r.1) + seq![0x5cu8]
        }),
    decreases b.len(),
{
    let none: Seq<u8> = Seq::empty();
    let no_marks: Seq<bool> = Seq::empty();
    if b.len() == 0 {
        assert(b =~= written(none, no_marks));
        (none, no_marks, none)
    } else if b[0] == 0x22 {
        assert(b =~= written(none, no_marks) + seq![0x22u8] + b.skip(1));
        (none, no_marks, b.skip(1))
    } else if b[0] == 0x5c && b.len() == 1 {
        assert(b =~= written(none, no_marks) + seq![0x5cu8]);
        (none, no_marks, none)
    } else {
        let mark = b[0] == 0x5c;
        let n: int = if mark {
            2
        } else {
            1
        };
        let (value, marked, rest) = every_value_is_finished_or_not(b.skip(n));
        let v = seq![b[n - 1]] + value;
        let m = seq![mark] + marked;
        assert(v.skip(1) =~= value);
        assert(m.skip(1) =~= marked);
        assert forall|i: int| 0 <= i < v.len() && (#[trigger] v[i] == 0x22 || v[i] == 0x5c) implies
            m[i] by {
            if i > 0 {
                assert(v[i] == value[i - 1]);
            }
        }
        assert(b =~= b.take(n) + b.skip(n));
        assert(written(v, m) =~= b.take(n) + written(value, marked));
        if b.skip(n) == written(value, marked) + seq![0x22u8] + rest {
            assert(b =~= written(v, m) + seq![0x22u8] + rest);
        } else if b.skip(n) == written(value, marked) {
            assert(b =~= written(v, m));
        } else {
            assert(b =~= written(v, m) + seq![0x5cu8]);
        }
        (v, m, rest)
    }
}

/// A parameter up to its opening quote: its name and an equals sign, with blanks around it.
pub open spec fn opening(name: Seq<u8>, before: Seq<u8>, after: Seq<u8>) -> Seq<u8> {
    name + before + seq![0x3du8] + after + seq![0x22u8]
}

proof fn lemma_blank(b: Seq<u8>, rest: Seq<u8>)
    requires
        is_blank(b),
        rest.len() == 0 || (rest[0] != 0x20 && rest[0] != 0x09),
    ensures
        after_ows(b + rest) == rest,
{
    let f = |c: u8| is_ows(c);
    assert forall|i: int| 0 <= i < b.len() implies f(#[trigger] b[i]) by {}
    lemma_span_exact(b, rest, f);
    assert((b + rest).skip(b.len() as int) =~= rest);
}

proof fn lemma_name(name: Seq<u8>, rest: Seq<u8>)
    requires
        is_name(name),
        rest.len() == 0 || !is_name_byte(rest[0]),
    ensures
        token_len(name + rest) == name.len(),
        (name + rest).take(name.len() as int) == name,
        (name + rest).skip(name.len() as int) == rest,
        latin1(name) == chars(name),
{
    let f = |c: u8| tchar(c);
    assert forall|i: int| 0 <= i < name.len() implies f(#[trigger] name[i]) by {
        name_bytes(name[i]);
    }
    if rest.len() > 0 {
        name_bytes(rest[0]);
    }
    lemma_span_exact(name, rest, f);
    assert((name + rest).take(name.len() as int) =~= name);
    assert((name + rest).skip(name.len() as int) =~= rest);
    assert(latin1(name) =~= chars(name));
}

proof fn lemma_param_of_opening(
    name: Seq<u8>,
    before: Seq<u8>,
    after: Seq<u8>,
    tail: Seq<u8>,
)
    requires
        is_name(name),
        is_blank(before),
        is_blank(after),
    ensures
        param(opening(name, before, after) + tail) == (match quoted(tail) {
            Ok((value, rest)) => Ok((chars(name), value, rest)),
            Err(m) => Err(m),
        }),
{
    let value = seq![0x22u8] + tail;
    let equals = seq![0x3du8] + (after + value);
    let b = opening(name, before, after) + tail;
    assert(b =~= name + (before + equals));
    assert((before + equals)[0] == if before.len() > 0 {
        before[0]
    } else {
        0x3d
    });
    lemma_name(name, before + equals);
    lemma_blank(before, equals);
    assert(equals.skip(1) =~= after + value);
    lemma_blank(after, value);
    assert(value.skip(1) =~= tail);
}

/// A parameter reads as its name and value, whatever blanks stand around the equals sign and
/// whatever follows it.
pub proof fn written_params_read_back(
    name: Seq<u8>,
    before: Seq<u8>,
    after: Seq<u8>,
    value: Seq<u8>,
    marked: Seq<bool>,
    rest: Seq<u8>,
)
    requires
        is_name(name),
        is_blank(before),
        is_blank(after),
        may_be_written(value, marked),
    ensures
        param(
            opening(name, before, after) + (written(value, marked) + seq![0x22u8] + rest),
        ) == Ok::<_, Seq<char>>((chars(name), chars(value), rest)),
{
    written_values_read_back(value, marked, rest);
    lemma_param_of_opening(
        name,
        before,
        after,
        written(value, marked) + seq![0x22u8] + rest,
    );
}

proof fn lemma_separator(sep: Seq<u8>, rest: Seq<u8>)
    requires
        is_separator(sep),
        rest.len() > 0 ==> rest[0] != 0x20 && rest[0] != 0x09 && rest[0] != 0x2c,
    ensures
        after_filler(sep + rest) == rest,
{
    let f = |c: u8| is_list_filler(c);
    assert forall|i: int| 0 <= i < sep.len() implies f(#[trigger] sep[i]) by {}
    lemma_span_exact(sep, rest, f);
    assert((sep + rest).skip(sep.len() as int) =~= rest);
}

/// A list of one parameter, with separators before it and blanks after it.
pub open spec fn one_param(
    sep: Seq<u8>,
    name: Seq<u8>,
    before: Seq<u8>,
    after: Seq<u8>,
    value: Seq<u8>,
    marked: Seq<bool>,
    end: Seq<u8>,
) -> Seq<u8> {
    sep + opening(name, before, after) + written(value, marked) + seq![0x22u8] + end
}

/// Separators alone are a list without parameters.
pub proof fn separators_are_an_empty_list(sep: Seq<u8>)
    requires
        is_separator(sep),
    ensures
        params(sep) == Ok::<_, Seq<char>>(Seq::<ParamView>::empty()),
{
    lemma_separator(sep, Seq::empty());
    assert(sep + Seq::<u8>::empty() =~= sep);
}

proof fn lemma_params_of_one(
    sep: Seq<u8>,
    name: Seq<u8>,
    before: Seq<u8>,
    after: Seq<u8>,
    value: Seq<u8>,
    marked: Seq<bool>,
    end: Seq<u8>,
    rest: Seq<u8>,
)
    requires
        is_separator(sep),
        is_name(name),
        is_blank(before),
        is_blank(after),
        may_be_written(value, marked),
        is_blank(end),
        rest.len() == 0 || (rest[0] != 0x20 && rest[0] != 0x09),
    ensures
        params(one_param(sep, name, before, after, value, marked, end) + rest) == (if rest.len()
            == 0 {
            Ok(seq![(chars(name), chars(value))])
        } else if rest[0] != 0x2c {
            Err("expected ',' or end after value, got "@ + char_debug(rest[0] as char))
        } else {
            match params(rest.skip(1)) {
                Ok(others) => Ok(seq![(chars(name), chars(value))] + others),
                Err(m) => Err(m),
            }
        }),
{
    let b = one_param(sep, name, before, after, value, marked, end) + rest;
    let element = opening(name, before, after) + (written(value, marked) + seq![0x22u8] + (end
        + rest));
    assert(b =~= sep + element);
    assert(element[0] == name[0]);
    lemma_separator(sep, element);
    written_params_read_back(name, before, after, value, marked, end + rest);
    lemma_blank(end, rest);
    lemma_params_shrink(b);
}

/// A parameter stands in a list with what its name and value say, in front of the parameters that
/// follow behind a comma; what is wrong with those is wrong with the list.
pub proof fn params_stand_in_lists(
    sep: Seq<u8>,
    name: Seq<u8>,
    before: Seq<u8>,
    after: Seq<u8>,
    value: Seq<u8>,
    marked: Seq<bool>,
    end: Seq<u8>,
    others: Seq<u8>,
)
    requires
        is_separator(sep),
        is_name(name),
        is_blank(before),
        is_blank(after),
        may_be_written(value, marked),
        is_blank(end),
    ensures
        params(one_param(sep, name, before, after, value, marked, end)) == Ok::<_, Seq<char>>(
            seq![(chars(name), chars(value))],
        ),
        params(one_param(sep, name, before, after, value, marked, end) + seq![0x2cu8] + others)
            == (match params(others) {
            Ok(ps) => Ok(seq![(chars(name), chars(value))] + ps),
            Err(m) => Err(m),
        }),
{
    let one = one_param(sep, name, before, after, value, marked, end);
    lemma_params_of_one(sep, name, before, after, value, marked, end, Seq::empty());
    assert(one + Seq::<u8>::empty() =~= one);
    let more = seq![0x2cu8] + others;
    lemma_params_of_one(sep, name, before, after, value, marked, end, more);
    assert(more.skip(1) =~= others);
    assert(one + seq![0x2cu8] + others =~= one + more);
}

/// Anything but a comma behind a value is refused, and named.
pub proof fn values_end_at_a_comma(
    sep: Seq<u8>,
    name: Seq<u8>,
    before: Seq<u8>,
    after: Seq<u8>,
    value: Seq<u8>,
    marked: Seq<bool>,
    end: Seq<u8>,
    rest: Seq<u8>,
)
    requires
        is_separator(sep),
        is_name(name),
        is_blank(before),
        is_blank(after),
        may_be_written(value, marked),
        is_blank(end),
        rest.len() > 0,
        rest[0] != 0x20 && rest[0] != 0x09 && rest[0] != 0x2c,
    ensures
        params(one_param(sep, name, before, after, value, marked, end) + rest) == Err::<
            Seq<ParamView>,
            _,
        >("expected ',' or end after value, got "@ + char_debug(rest[0] as char)),
{
    lemma_params_of_one(sep, name, before, after, value, marked, end, rest);
}

/// A parameter must start with a name.
pub proof fn params_start_with_a_name(sep: Seq<u8>, rest: Seq<u8>)
    requires
        is_separator(sep),
        rest.len() > 0,
        rest[0] != 0x20 && rest[0] != 0x09 && rest[0] != 0x2c,
        !is_name_byte(rest[0]),
    ensures
        params(sep + rest) == Err::<Seq<ParamView>, _>("expected param name"@),
{
    lemma_separator(sep, rest);
    name_bytes(rest[0]);
    let f = |c: u8| tchar(c);
    assert(span(rest, f) == 0);
}

/// A name must be followed by an equals sign.
pub proof fn names_need_an_equals_sign(
    sep: Seq<u8>,
    name: Seq<u8>,
    before: Seq<u8>,
    rest: Seq<u8>,
)
    requires
        is_separator(sep),
        is_name(name),
        is_blank(before),
        rest.len() > 0 ==> rest[0] != 0x20 && rest[0] != 0x09 && rest[0] != 0x3d && (before.len()
            == 0 ==> !is_name_byte(rest[0])),
    ensures
        params(sep + name + before + rest) == Err::<Seq<ParamView>, _>(
            "expected '=' after param name"@,
        ),
{
    let element = name + (before + rest);
    assert(sep + name + before + rest =~= sep + element);
    assert(element[0] == name[0]);
    lemma_separator(sep, element);
    if before.len() > 0 {
        assert((before + rest)[0] == before[0]);
    } else {
        assert(before + rest =~= rest);
    }
    lemma_name(name, before + rest);
    lemma_blank(before, rest);
}

/// An equals sign must be followed by a value, and the value must be quoted.
pub proof fn values_are_quoted(
    sep: Seq<u8>,
    name: Seq<u8>,
    before: Seq<u8>,
    after: Seq<u8>,
    rest: Seq<u8>,
)
    requires
        is_separator(sep),
        is_name(name),
        is_blank(before),
        is_blank(after),
        rest.len() > 0 ==> rest[0] != 0x20 && rest[0] != 0x09 && rest[0] != 0x22,
    ensures
        params(sep + name + before + seq![0x3du8] + after + rest) == Err::<Seq<ParamView>, _>(
            if rest.len() == 0 {
                "missing value after '='"@
            } else {
                "value must be a quoted-string (v1 requires \"…\")"@
            },
        ),
{
    let equals = seq![0x3du8] + (after + rest);
    let element = name + (before + equals);
    assert(sep + name + before + seq![0x3du8] + after + rest =~= sep + element);
    assert(element[0] == name[0]);
    lemma_separator(sep, element);
    assert((before + equals)[0] == if before.len() > 0 {
        before[0]
    } else {
        0x3d
    });
    lemma_name(name, before + equals);
    lemma_blank(before, equals);
    assert(equals.skip(1) =~= after + rest);
    lemma_blank(after, rest);
}

/// A value that does not end is what is wrong with its list.
pub proof fn unfinished_values_are_refused_in_lists(
    sep: Seq<u8>,
    name: Seq<u8>,
    before: Seq<u8>,
    after: Seq<u8>,
    value: Seq<u8>,
    marked: Seq<bool>,
)
    requires
        is_separator(sep),
        is_name(name),
        is_blank(before),
        is_blank(after),
        may_be_written(value, marked),
    ensures
        params(sep + opening(name, before, after) + written(value, marked)) == Err::<
            Seq<ParamView>,
            _,
        >("unterminated quoted-string"@),
        params(sep + opening(name, before, after) + (written(value, marked) + seq![0x5cu8]))
            == Err::<Seq<ParamView>, _>("trailing backslash inside quoted-string"@),
{
    unfinished_values_are_refused(value, marked);
    let w = written(value, marked);
    let t = w + seq![0x5cu8];
    lemma_param_of_opening(name, before, after, w);
    lemma_param_of_opening(name, before, after, t);
    let a = opening(name, before, after) + w;
    let b = opening(name, before, after) + t;
    assert(a[0] == name[0] && b[0] == name[0]);
    lemma_separator(sep, a);
    lemma_separator(sep, b);
    assert(sep + opening(name, before, after) + w =~= sep + a);
    assert(sep + opening(name, before, after) + t =~= sep + b);
}

/// Whether two characters are the same letter, or the same character.
pub open spec fn same_letter(c: char, d: char) -> bool {
    ||| c == d
    ||| 'a' <= c <= 'z' && d as u32 + 32 == c as u32
    ||| 'a' <= d <= 'z' && c as u32 + 32 == d as u32
}

proof fn lemma_same_letter(c: char, d: char)
    ensures
        ascii_folded(c) == ascii_folded(d) <==> same_letter(c, d),
{
}

/// Names are compared letter by letter, whatever their length.
pub proof fn names_are_compared_letter_by_letter(a: Seq<char>, b: Seq<char>)
    ensures
        same_ignoring_case(a, b) <==> a.len() == b.len() && forall|i: int|
            0 <= i < a.len() ==> same_letter(#[trigger] a[i], b[i]),
{
    assert forall|i: int| 0 <= i < a.len() implies (ascii_folded(#[trigger] a[i]) == ascii_folded(
        b[i],
    ) <==> same_letter(a[i], b[i])) by {
        lemma_same_letter(a[i], b[i]);
    }
    if same_ignoring_case(a, b) {
        assert forall|i: int| 0 <= i < a.len() implies same_letter(#[trigger] a[i], b[i]) by {
            assert(ascii_folded(a[i]) == ascii_folded(b[i]));
        }
    }
    if a.len() == b.len() && (forall|i: int| 0 <= i < a.len() ==> same_letter(#[trigger] a[i], b[i])) {
        assert forall|i: int| 0 <= i < a.len() implies ascii_folded(#[trigger] a[i])
            == ascii_folded(b[i]) by {
            assert(same_letter(a[i], b[i]));
        }
    }
}

/// Whether the `i`th parameter is the first with this name.
pub open spec fn is_first(ps: Seq<ParamView>, i: int, name: Seq<char>) -> bool {
    &&& 0 <= i < ps.len()
    &&& same_ignoring_case(ps[i].0, name)
    &&& forall|j: int| 0 <= j < i ==> !same_ignoring_case((#[trigger] ps[j]).0, name)
}

/// The first parameter with a name counts, wherever it stands; there is no value only where there
/// is no such parameter.
pub proof fn the_first_of_a_name_counts(ps: Seq<ParamView>, name: Seq<char>)
    ensures
        forall|i: int| #[trigger] is_first(ps, i, name) ==> value_of(ps, name) == Some(ps[i].1),
        value_of(ps, name) is None <==> forall|i: int|
            0 <= i < ps.len() ==> !same_ignoring_case((#[trigger] ps[i]).0, name),
        value_of(ps, name) is Some ==> exists|i: int| is_first(ps, i, name),
    decreases ps.len(),
{
    if ps.len() > 0 {
        let tail = ps.skip(1);
        the_first_of_a_name_counts(tail, name);
        if same_ignoring_case(ps[0].0, name) {
            assert(is_first(ps, 0, name));
        } else {
            assert forall|i: int| #[trigger] is_first(ps, i, name) implies value_of(ps, name)
                == Some(ps[i].1) by {
                assert(i > 0);
                assert(tail[i - 1] == ps[i]);
                assert forall|j: int| 0 <= j < i - 1 implies !same_ignoring_case(
                    (#[trigger] tail[j]).0,
                    name,
                ) by {
                    assert(tail[j] == ps[j + 1]);
                }
                assert(is_first(tail, i - 1, name));
            }
            assert forall|i: int| 0 <= i < tail.len() implies (#[trigger] tail[i]) == ps[i + 1] by {}
            if value_of(ps, name) is Some {
                let i = choose|i: int| is_first(tail, i, name);
                assert(tail[i] == ps[i + 1]);
                assert forall|j: int| 0 <= j < i + 1 implies !same_ignoring_case(
                    (#[trigger] ps[j]).0,
                    name,
                ) by {
                    if j > 0 {
                        assert(tail[j - 1] == ps[j]);
                    }
                }
                assert(is_first(ps, i + 1, name));
            } else {
                assert forall|i: int| 0 <= i < ps.len() implies !same_ignoring_case(
                    (#[trigger] ps[i]).0,
                    name,
                ) by {
                    if i > 0 {
                        assert(tail[i - 1] == ps[i]);
                    }
                }
            }
        }
    }
}

/// Parameters yield a token if and only if the first `method` is exactly `cashu` and there is a
/// `token`, and then the first of them. Without a method, or with another one, or without a token,
/// they are refused for that reason, in this order.
pub proof fn tokens_need_the_method(ps: Seq<ParamView>, token: Seq<char>, method: Seq<char>)
    ensures
        credentials(ps) == Ok::<_, AuthParseErrorView>(token) <==> value_of(ps, "method"@) == Some(
            "cashu"@,
        ) && value_of(ps, "token"@) == Some(token),
        credentials(ps) is Ok <==> value_of(ps, "method"@) == Some("cashu"@) && value_of(
            ps,
            "token"@,
        ) is Some,
        credentials(ps) == Err::<Seq<char>, _>(AuthParseErrorView::MissingMethod) <==> value_of(
            ps,
            "method"@,
        ) is None,
        credentials(ps) == Err::<Seq<char>, _>(AuthParseErrorView::WrongMethod(method))
            <==> value_of(ps, "method"@) == Some(method) && method != "cashu"@,
        credentials(ps) == Err::<Seq<char>, _>(AuthParseErrorView::MissingToken) <==> value_of(
            ps,
            "method"@,
        ) == Some("cashu"@) && value_of(ps, "token"@) is None,
{
}

/// Whether a word is `Payment`, in whatever case.
pub open spec fn is_payment(word: Seq<char>) -> bool {
    &&& word.len() == 7
    &&& forall|i: int|
        0 <= i < 7 ==> (#[trigger] word[i] == "payment"@[i] || word[i] == "PAYMENT"@[i])
}

proof fn lemma_is_payment(word: Seq<char>)
    ensures
        same_ignoring_case(word, "Payment"@) <==> is_payment(word),
{
    reveal_strlit("Payment");
    reveal_strlit("payment");
    reveal_strlit("PAYMENT");
    if word.len() == 7 {
        assert forall|i: int| 0 <= i < 7 implies (ascii_folded(#[trigger] word[i]) == ascii_folded(
            "Payment"@[i],
        ) <==> word[i] == "payment"@[i] || word[i] == "PAYMENT"@[i]) by {
            lemma_same_letter(word[i], "Payment"@[i]);
        }
        if same_ignoring_case(word, "Payment"@) {
            assert forall|i: int| 0 <= i < 7 implies (#[trigger] word[i] == "payment"@[i]
                || word[i] == "PAYMENT"@[i]) by {
                assert(ascii_folded(word[i]) == ascii_folded("Payment"@[i]));
            }
        }
        if is_payment(word) {
            assert forall|i: int| 0 <= i < word.len() implies ascii_folded(#[trigger] word[i])
                == ascii_folded("Payment"@[i]) by {
                assert(word[i] == "payment"@[i] || word[i] == "PAYMENT"@[i]);
            }
        }
    }
}

/// What ends the first word: a space, a tab, a line feed, a form feed or a carriage return.
pub open spec fn is_gap(c: char) -> bool {
    c == ' ' || c == '\t' || c == '\n' || c == '\u{c}' || c == '\r'
}

/// A header is one of another scheme if and only if its first word is not `Payment`, whatever
/// follows that word.
pub proof fn the_first_word_is_the_scheme(word: Seq<char>, rest: Seq<char>)
    requires
        word.len() > 0,
        is_word(word),
        rest.len() == 0 || is_gap(rest[0]),
    ensures
        payment_authorization(word + rest) == Err::<Seq<char>, _>(
            AuthParseErrorView::UnknownScheme,
        ) <==> !is_payment(word),
{
    lemma_scheme_of_word(word, rest);
    lemma_is_payment(word);
}

proof fn lemma_trimmed_blank(s: Seq<char>)
    requires
        forall|i: int| 0 <= i < s.len() ==> is_white_space(#[trigger] s[i]),
    ensures
        trimmed_start(s) == Seq::<char>::empty(),
        trimmed_end(s) == Seq::<char>::empty(),
    decreases s.len(),
{
    if s.len() > 0 {
        assert forall|i: int| 0 <= i < s.len() - 1 implies is_white_space(#[trigger] s.skip(1)[i]) by {
            assert(s.skip(1)[i] == s[i + 1]);
        }
        assert forall|i: int| 0 <= i < s.len() - 1 implies is_white_space(
            #[trigger] s.drop_last()[i],
        ) by {
            assert(s.drop_last()[i] == s[i]);
        }
        lemma_trimmed_blank(s.skip(1));
        lemma_trimmed_blank(s.drop_last());
    } else {
        assert(s =~= Seq::empty());
    }
}

/// A header of whitespace has no scheme, and `Payment` alone no method.
pub proof fn bare_headers_are_refused(word: Seq<char>, blank: Seq<char>)
    requires
        is_word(word),
        is_payment(word),
        forall|i: int| 0 <= i < blank.len() ==> is_white_space(#[trigger] blank[i]),
    ensures
        payment_authorization(blank) == Err::<Seq<char>, _>(AuthParseErrorView::UnknownScheme),
        payment_authorization(word + blank) == Err::<Seq<char>, _>(
            AuthParseErrorView::MissingMethod,
        ),
{
    reveal_strlit("Payment");
    lemma_trimmed_blank(blank);
    assert(trimmed(blank) =~= Seq::empty());
    assert(scheme(blank) =~= Seq::empty());
    lemma_is_payment(word);
    let none: Seq<char> = Seq::empty();
    surrounding_whitespace_does_not_matter(none, word, blank);
    assert(none + word + blank =~= word + blank);
    lemma_scheme_of_word(word, none);
    assert(word + none =~= word);
}

proof fn lemma_trimmed_start_of(pad: Seq<char>, s: Seq<char>)
    requires
        forall|i: int| 0 <= i < pad.len() ==> is_white_space(#[trigger] pad[i]),
        s.len() > 0,
        !is_white_space(s[0]),
    ensures
        trimmed_start(pad + s) == s,
    decreases pad.len(),
{
    if pad.len() == 0 {
        assert(pad + s =~= s);
    } else {
        assert((pad + s)[0] == pad[0]);
        assert((pad + s).skip(1) =~= pad.skip(1) + s);
        assert forall|i: int| 0 <= i < pad.len() - 1 implies is_white_space(
            #[trigger] pad.skip(1)[i],
        ) by {
            assert(pad.skip(1)[i] == pad[i + 1]);
        }
        lemma_trimmed_start_of(pad.skip(1), s);
    }
}

/// What follows `Payment` and whitespace is the list of parameters: it decides what the header
/// means.
pub proof fn the_rest_is_the_list(word: Seq<char>, sep: char, pad: Seq<char>, list: Seq<char>)
    requires
        is_word(word),
        is_payment(word),
        is_gap(sep),
        forall|i: int| 0 <= i < pad.len() ==> is_white_space(#[trigger] pad[i]),
        list.len() > 0,
        !is_white_space(list[0]),
        !is_white_space(list.last()),
    ensures
        payment_authorization(word + seq![sep] + pad + list) == (match params(encode_utf8(list)) {
            Err(m) => Err(AuthParseErrorView::MalformedParams(m)),
            Ok(ps) => credentials(ps),
        }),
{
    reveal_strlit("Payment");
    let rest = seq![sep] + pad + list;
    assert(word + seq![sep] + pad + list =~= word + rest);
    lemma_is_payment(word);
    lemma_scheme_of_word(word, rest);
    assert(rest.last() == list.last());
    assert(trimmed_end(rest) == rest);
    assert(rest.skip(1) =~= pad + list);
    lemma_trimmed_start_of(pad, list);
}

} // verus!
