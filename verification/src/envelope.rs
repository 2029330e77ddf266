//! The JSON envelope of the `request` parameter: unpadded base64url of an object with the one
//! member `cashu_request`, the `creqA…` text of a payment request.
//!
//! [`encode_request_envelope`] wraps a text; [`decode_request_envelope`] unwraps it. Members other
//! than `cashu_request` are ignored, and an array with the text as its one element is read as
//! well. What is wrong with an envelope is said at the first place where it is wrong, in the words
//! of serde_json, with line and column.
use vstd::prelude::*;
use vstd::slice::slice_subrange;
use vstd::utf8::{encode_utf8, is_ascii_chars, is_ascii_chars_encode_utf8};

use crate::auth_header::{BACKSLASH, COMMA, DQUOTE, HTAB, SP};
use crate::codec::{
    base64url, base64url_decode, base64url_decoded, base64url_encode, between_quotes,
    is_base64url, is_base64url_char, is_literal, is_plain, is_whole_object, json_literal,
    json_object, json_object_end, json_object_only, json_singleton, json_string, json_text,
    literal_end, padded, position_result, read_json_singleton, read_json_string, read_json_text, read_object_end,
    read_object_only, write_json_string,
};
use crate::error::{Error, ErrorView};
use crate::mint_url::text_result;
use crate::text::{chars_of, decimal, lemma_encode_concat, string_of, to_decimal, trim, trimmed};

verus! {

/// Member of the envelope that carries the payment request.
pub const ENVELOPE_MEMBER: &'static str = "cashu_request";

/// Line feed.
pub const LF: u8 = 0x0a;

/// Carriage return.
pub const CR: u8 = 0x0d;

/// Colon.
pub const COLON: u8 = 0x3a;

/// Opening bracket.
pub const OPEN_BRACKET: u8 = 0x5b;

/// Closing bracket.
pub const CLOSE_BRACKET: u8 = 0x5d;

/// Opening brace.
pub const OPEN_BRACE: u8 = 0x7b;

/// Closing brace.
pub const CLOSE_BRACE: u8 = 0x7d;

/// The digit zero.
pub const ZERO: u8 = 0x30;

/// The envelope of a text.
pub open spec fn envelope(content: Seq<char>) -> Seq<char> {
    base64url(encode_utf8(json_object(ENVELOPE_MEMBER@, json_literal(content))))
}

/// JSON whitespace.
pub open spec fn is_json_space(b: u8) -> bool {
    b == SP || b == HTAB || b == LF || b == CR
}

/// The first position from `i` on that holds no whitespace, or the end.
pub open spec fn after_spaces(b: Seq<u8>, i: int) -> int
    decreases b.len() - i,
{
    if 0 <= i < b.len() && is_json_space(b[i]) {
        after_spaces(b, i + 1)
    } else {
        i
    }
}

/// Where the literals stand that are keys of the outermost object, each from its opening quote to
/// the position after its closing quote. They are looked for from position `i` on, where `depth`
/// brackets are open, and a key may start if `fresh`: after the opening brace, or after a comma.
pub open spec fn key_spans(b: Seq<u8>, i: int, depth: nat, fresh: bool) -> Seq<(int, int)>
    decreases b.len() - i,
    via key_spans_shrinks
{
    if i < 0 || i >= b.len() {
        Seq::empty()
    } else if b[i] == DQUOTE {
        match literal_end(b, i + 1) {
            None => Seq::empty(),
            Some(end) => if depth == 1 && fresh {
                seq![(i, end)] + key_spans(b, end, depth, false)
            } else {
                key_spans(b, end, depth, false)
            },
        }
    } else if b[i] == OPEN_BRACE {
        key_spans(b, i + 1, depth + 1, depth == 0)
    } else if b[i] == OPEN_BRACKET {
        key_spans(b, i + 1, depth + 1, false)
    } else if b[i] == CLOSE_BRACE || b[i] == CLOSE_BRACKET {
        key_spans(
            b,
            i + 1,
            if depth > 0 {
                (depth - 1) as nat
            } else {
                0
            },
            false,
        )
    } else if b[i] == COMMA {
        key_spans(b, i + 1, depth, true)
    } else if is_json_space(b[i]) {
        key_spans(b, i + 1, depth, fresh)
    } else {
        key_spans(b, i + 1, depth, false)
    }
}

#[via_fn]
proof fn key_spans_shrinks(b: Seq<u8>, i: int, depth: nat, fresh: bool) {
    lemma_literal_end_bound(b, i + 1);
}

proof fn lemma_literal_end_bound(b: Seq<u8>, i: int)
    ensures
        literal_end(b, i) matches Some(end) ==> i < end <= b.len(),
    decreases b.len() - i,
{
    if i < 0 || i >= b.len() || b[i] == DQUOTE {
    } else if b[i] != BACKSLASH {
        lemma_literal_end_bound(b, i + 1);
    } else if i + 1 < b.len() {
        lemma_literal_end_bound(b, i + 2);
    }
}

/// A member with an empty key, and the end of an object.
pub open spec fn last_member() -> Seq<u8> {
    seq![SP, DQUOTE, DQUOTE, COLON, ZERO, CLOSE_BRACE]
}

/// Whether a key of the outermost object may start at position `i` of bytes that go wrong
/// somewhere: what stands before it, completed by a member, is an object.
pub open spec fn key_may_start(b: Seq<u8>, i: int) -> bool {
    json_object_end(b.take(i) + last_member()) is Ok
}

/// Whether the literal is the key `cashu_request`. In bytes that are no complete object, it counts
/// only where nothing is wrong before it.
pub open spec fn is_field(b: Seq<u8>, key: (int, int), complete: bool) -> bool {
    &&& json_string(b.subrange(key.0, key.1)) == Ok::<_, Seq<char>>(ENVELOPE_MEMBER@)
    &&& complete || key_may_start(b, key.0)
}

/// Those of the keys that are `cashu_request`, in order.
pub open spec fn fields(b: Seq<u8>, keys: Seq<(int, int)>, complete: bool) -> Seq<(int, int)>
    decreases keys.len(),
{
    if keys.len() == 0 {
        Seq::empty()
    } else if is_field(b, keys.last(), complete) {
        fields(b, keys.drop_last(), complete).push(keys.last())
    } else {
        fields(b, keys.drop_last(), complete)
    }
}

/// How many line feeds stand before position `i`.
pub open spec fn line_feeds(b: Seq<u8>, i: int) -> nat
    decreases i,
{
    if i <= 0 {
        0
    } else {
        line_feeds(b, i - 1) + if b[i - 1] == LF {
            1nat
        } else {
            0
        }
    }
}

/// Where the line starts that position `i` is on.
pub open spec fn line_start(b: Seq<u8>, i: int) -> int
    decreases i,
{
    if i <= 0 || b[i - 1] == LF {
        i
    } else {
        line_start(b, i - 1)
    }
}

/// A position as serde_json's messages give it: lines count from one, columns are the bytes read
/// of the line.
pub open spec fn place(b: Seq<u8>, i: int) -> Seq<char> {
    " at line "@ + decimal(1 + line_feeds(b, i)) + " column "@ + decimal(
        (i - line_start(b, i)) as nat,
    )
}

/// The bytes with everything before position `i` blanked out, line by line.
pub open spec fn blanked(b: Seq<u8>, i: int) -> Seq<u8> {
    Seq::new(
        b.len(),
        |j: int|
            if j < i && b[j] != LF {
                SP
            } else {
                b[j]
            },
    )
}

/// A text with the last occurrence of `old_name` replaced by `new_name`.
pub open spec fn renamed(s: Seq<char>, old_name: Seq<char>, new_name: Seq<char>) -> Seq<char>
    decreases s.len(),
{
    if s.len() == 0 || s.len() < old_name.len() {
        s
    } else if s.skip(s.len() - old_name.len()) == old_name {
        s.take(s.len() - old_name.len()) + new_name
    } else {
        renamed(s.drop_last(), old_name, new_name).push(s.last())
    }
}

/// The position after a closing brace at `i`, if there is one.
pub open spec fn past_brace(b: Seq<u8>, i: int) -> int {
    if 0 <= i < b.len() && b[i] == CLOSE_BRACE {
        i + 1
    } else {
        i
    }
}

/// Why an envelope has no content for want of a `cashu_request`: it is an object without one, or
/// it is no object.
pub open spec fn no_content(b: Seq<u8>) -> Seq<char> {
    match json_object_end(b) {
        Ok(end) => "missing field `cashu_request`"@ + place(b, end as int),
        Err(m) => renamed(m, "a map"@, "struct RequestEnvelope"@),
    }
}

/// The content of an envelope that is no array: the string member `cashu_request` of an object,
/// which must occur just once and be all there is; or what is wrong first.
pub open spec fn object_content(b: Seq<u8>) -> Result<Seq<char>, Seq<char>> {
    let complete = json_object_end(b) is Ok;
    let object = match json_object_end(b) {
        Ok(end) => b.take(end as int),
        Err(_) => b,
    };
    let found = fields(object, key_spans(object, 0, 0, false), complete);
    let colon = after_spaces(b, found[0].1);
    if found.len() == 0 || colon >= b.len() || b[colon] != COLON {
        Err(no_content(b))
    } else {
        match json_string(blanked(b, colon + 1)) {
            Err(m) => Err(m),
            Ok(content) => if found.len() > 1 {
                Err(
                    "duplicate field `cashu_request`"@ + place(
                        b,
                        past_brace(b, after_spaces(b, found[1].1)),
                    ),
                )
            } else if !complete {
                Err(no_content(b))
            } else {
                match json_object_only(b) {
                    Err(m) => Err(m),
                    Ok(()) => match json_text(b) {
                        Err(m) => Err(m),
                        Ok(()) => Ok(content),
                    },
                }
            },
        }
    }
}

/// The content of an envelope: that of an object, or the one string of an array.
pub open spec fn envelope_content(b: Seq<u8>) -> Result<Seq<char>, Seq<char>> {
    let start = after_spaces(b, 0);
    if start < b.len() && b[start] == OPEN_BRACKET {
        match json_singleton(b) {
            Ok(content) => Ok(content),
            Err(m) => Err(
                renamed(m, "a tuple of size 1"@, "struct RequestEnvelope with 1 element"@),
            ),
        }
    } else {
        object_content(b)
    }
}

/// What an envelope holds, or why it cannot be opened. Whitespace around it is ignored.
pub open spec fn opened(b64: Seq<char>) -> Result<Seq<char>, ErrorView> {
    match base64url_decoded(trimmed(b64)) {
        Err(m) => Err(ErrorView::DecodeFailed("request envelope base64: "@ + m)),
        Ok(bytes) => match envelope_content(bytes) {
            Err(m) => Err(ErrorView::DecodeFailed("request envelope json: "@ + m)),
            Ok(content) => Ok(content),
        },
    }
}

/// A text or an error, taken by view.
pub open spec fn opened_view(r: Result<String, Error>) -> Result<Seq<char>, ErrorView> {
    match r {
        Ok(content) => Ok(content@),
        Err(e) => Err(e@),
    }
}

/// Finds the end of a string literal, given the position after its opening quote.
fn find_literal_end(b: &[u8], from: usize) -> (r: Option<usize>)
    requires
        from <= b@.len(),
    ensures
        match r {
            Some(end) => from < end <= b@.len() && literal_end(b@, from as int) == Some(
                end as int,
            ),
            None => literal_end(b@, from as int) is None,
        },
{
    let n: usize = b.len();
    let mut i: usize = from;
    while i < n
        invariant
            from <= i <= n == b@.len(),
            literal_end(b@, from as int) == literal_end(b@, i as int),
        decreases n - i,
    {
        if b[i] == DQUOTE {
            return Some(i + 1);
        } else if b[i] != BACKSLASH {
            i += 1;
        } else if n - i == 1 {
            return None;
        } else {
            i += 2;
        }
    }
    None
}

/// Finds the first position from `from` on that holds no whitespace.
fn skip_spaces(b: &[u8], from: usize) -> (r: usize)
    requires
        from <= b@.len(),
    ensures
        r == after_spaces(b@, from as int),
        from <= r <= b@.len(),
{
    let mut i: usize = from;
    while i < b.len() && (b[i] == SP || b[i] == HTAB || b[i] == LF || b[i] == CR)
        invariant
            from <= i <= b@.len(),
            after_spaces(b@, from as int) == after_spaces(b@, i as int),
        decreases b@.len() - i,
    {
        i += 1;
    }
    i
}

/// Tells whether a key may start at a position of bytes that are no complete object.
fn may_start_key(b: &[u8], i: usize) -> (r: bool)
    requires
        i <= b@.len(),
    ensures
        r == key_may_start(b@, i as int),
{
    let mut probe: Vec<u8> = Vec::new();
    probe.extend_from_slice(slice_subrange(b, 0, i));
    probe.push(SP);
    probe.push(DQUOTE);
    probe.push(DQUOTE);
    probe.push(COLON);
    probe.push(ZERO);
    probe.push(CLOSE_BRACE);
    assert(probe@ =~= b@.take(i as int) + last_member());
    read_object_end(probe.as_slice()).is_ok()
}

/// Spans as positions.
pub open spec fn spans_view(spans: Seq<(usize, usize)>) -> Seq<(int, int)> {
    spans.map_values(|s: (usize, usize)| (s.0 as int, s.1 as int))
}

proof fn lemma_fields_push(b: Seq<u8>, keys: Seq<(int, int)>, key: (int, int), complete: bool)
    ensures
        fields(b, keys.push(key), complete) == if is_field(b, key, complete) {
            fields(b, keys, complete).push(key)
        } else {
            fields(b, keys, complete)
        },
{
    assert(keys.push(key).drop_last() =~= keys);
}

/// Finds the keys `cashu_request` of the outermost object.
pub fn find_fields(b: &[u8], complete: bool) -> (r: Vec<(usize, usize)>)
    ensures
        spans_view(r@) == fields(b@, key_spans(b@, 0, 0, false), complete),
        forall|i: int| 0 <= i < r@.len() ==> (#[trigger] r@[i]).1 <= b@.len(),
{
    let n: usize = b.len();
    let mut i: usize = 0;
    let mut depth: usize = 0;
    let mut fresh: bool = false;
    let mut found: Vec<(usize, usize)> = Vec::new();
    let ghost all = key_spans(b@, 0, 0, false);
    let ghost mut seen: Seq<(int, int)> = Seq::empty();
    assert(seen + all =~= all);
    assert(spans_view(found@) =~= fields(b@, seen, complete));
    while i < n
        invariant
            i <= n == b@.len(),
            depth <= i,
            all == key_spans(b@, 0, 0, false),
            all == seen + key_spans(b@, i as int, depth as nat, fresh),
            spans_view(found@) == fields(b@, seen, complete),
            forall|j: int| 0 <= j < found@.len() ==> (#[trigger] found@[j]).1 <= b@.len(),
        decreases n - i,
    {
        let c: u8 = b[i];
        if c == DQUOTE {
            let end = match find_literal_end(b, i + 1) {
                Some(end) => end,
                None => {
                    assert(seen + Seq::<(int, int)>::empty() =~= seen);
                    return found;
                },
            };
            if depth == 1 && fresh {
                let ghost key = (i as int, end as int);
                let ghost others = key_spans(b@, end as int, depth as nat, false);
                proof {
                    lemma_fields_push(b@, seen, key, complete);
                    assert(seen.push(key) + others =~= seen + (seq![key] + others));
                    seen = seen.push(key);
                }
                let ghost before = found@;
                let named = match read_json_string(slice_subrange(b, i, end)) {
                    Ok(name) => name == ENVELOPE_MEMBER.to_string(),
                    Err(_) => false,
                };
                if named && (complete || may_start_key(b, i)) {
                    found.push((i, end));
                    assert(spans_view(found@) =~= spans_view(before).push(key));
                }
            }
            fresh = false;
            i = end;
        } else {
            if c == OPEN_BRACE {
                fresh = depth == 0;
                depth += 1;
            } else if c == OPEN_BRACKET {
                fresh = false;
                depth += 1;
            } else if c == CLOSE_BRACE || c == CLOSE_BRACKET {
                fresh = false;
                if depth > 0 {
                    depth -= 1;
                }
            } else if c == COMMA {
                fresh = true;
            } else if !(c == SP || c == HTAB || c == LF || c == CR) {
                fresh = false;
            }
            i += 1;
        }
    }
    assert(seen + Seq::<(int, int)>::empty() =~= seen);
    found
}

/// Writes a position as serde_json's messages do.
pub fn place_of(b: &[u8], i: usize) -> (r: String)
    requires
        i <= b@.len(),
    ensures
        r@ == place(b@, i as int),
{
    let mut lines: u128 = 1;
    let mut start: usize = 0;
    let mut j: usize = 0;
    while j < i
        invariant
            j <= i <= b@.len(),
            lines == 1 + line_feeds(b@, j as int),
            line_feeds(b@, j as int) <= j,
            start <= j,
            start == line_start(b@, j as int),
        decreases i - j,
    {
        if b[j] == LF {
            lines += 1;
            start = j + 1;
        }
        j += 1;
    }
    " at line ".to_string().concat(to_decimal(lines).as_str()).concat(" column ").concat(
        to_decimal((i - start) as u128).as_str(),
    )
}

/// Blanks out everything before a position.
fn blank(b: &[u8], i: usize) -> (r: Vec<u8>)
    requires
        i <= b@.len(),
    ensures
        r@ == blanked(b@, i as int),
{
    let mut out: Vec<u8> = Vec::new();
    let mut j: usize = 0;
    while j < b.len()
        invariant
            j == out@.len() <= b@.len(),
            forall|k: int| 0 <= k < j ==> #[trigger] out@[k] == blanked(b@, i as int)[k],
        decreases b@.len() - j,
    {
        out.push(
            if j < i && b[j] != LF {
                SP
            } else {
                b[j]
            },
        );
        j += 1;
    }
    assert(out@ =~= blanked(b@, i as int));
    out
}

/// Replaces the last occurrence of a name in a message.
pub fn rename(message: &str, old_name: &str, new_name: &str) -> (r: String)
    ensures
        r@ == renamed(message@, old_name@, new_name@),
{
    let chars = chars_of(message);
    let name = chars_of(old_name);
    let n: usize = chars.len();
    let mut k: usize = n;
    assert(message@.take(n as int) =~= message@);
    assert(message@.skip(n as int) =~= Seq::empty());
    assert(renamed(message@, old_name@, new_name@) + Seq::<char>::empty() =~= renamed(
        message@,
        old_name@,
        new_name@,
    ));
    while k > 0 && k >= name.len()
        invariant
            k <= n == chars@.len(),
            chars@ == message@,
            name@ == old_name@,
            renamed(message@, old_name@, new_name@) == renamed(
                message@.take(k as int),
                old_name@,
                new_name@,
            ) + message@.skip(k as int),
        decreases k,
    {
        let ghost s = message@.take(k as int);
        let start: usize = k - name.len();
        assert(s.skip(start as int) =~= chars@.subrange(start as int, k as int));
        if string_of(&chars, start, k) == old_name.to_string() {
            assert(s.take(start as int) =~= chars@.subrange(0, start as int));
            assert(chars@.subrange(k as int, n as int) =~= message@.skip(k as int));
            return string_of(&chars, 0, start).concat(new_name).concat(
                string_of(&chars, k, n).as_str(),
            );
        }
        assert(s.drop_last() =~= message@.take(k - 1));
        assert(renamed(s.drop_last(), old_name@, new_name@).push(s.last()) + message@.skip(
            k as int,
        ) =~= renamed(s.drop_last(), old_name@, new_name@) + message@.skip(k - 1));
        k -= 1;
    }
    assert(message@.take(k as int) + message@.skip(k as int) =~= message@);
    message.to_string()
}

/// Says why there is no content, given how far the object goes.
fn explain_no_content(b: &[u8], end: Result<usize, String>) -> (r: String)
    requires
        position_result(end) == json_object_end(b@),
        end matches Ok(n) ==> n <= b@.len(),
    ensures
        r@ == no_content(b@),
{
    match end {
        Ok(n) => "missing field `cashu_request`".to_string().concat(place_of(b, n).as_str()),
        Err(m) => rename(m.as_str(), "a map", "struct RequestEnvelope"),
    }
}

/// Reads the content of an envelope that is no array.
fn read_object_content(b: &[u8]) -> (r: Result<String, String>)
    ensures
        text_result(r) == object_content(b@),
{
    let end = read_object_end(b);
    let complete = end.is_ok();
    let size: usize = match &end {
        Ok(n) => *n,
        Err(_) => b.len(),
    };
    let object = slice_subrange(b, 0, size);
    proof {
        if !complete {
            assert(b@.subrange(0, size as int) =~= b@);
        }
    }
    let found = find_fields(object, complete);
    let ghost names = spans_view(found@);
    if found.len() == 0 {
        return Err(explain_no_content(b, end));
    }
    assert(names[0] == (found@[0].0 as int, found@[0].1 as int));
    let colon: usize = skip_spaces(b, found[0].1);
    if colon >= b.len() || b[colon] != COLON {
        return Err(explain_no_content(b, end));
    }
    let content = match read_json_string(blank(b, colon + 1).as_slice()) {
        Ok(content) => content,
        Err(m) => return Err(m),
    };
    if found.len() > 1 {
        assert(names[1] == (found@[1].0 as int, found@[1].1 as int));
        let mut at: usize = skip_spaces(b, found[1].1);
        if at < b.len() && b[at] == CLOSE_BRACE {
            at += 1;
        }
        return Err(
            "duplicate field `cashu_request`".to_string().concat(place_of(b, at).as_str()),
        );
    }
    if !complete {
        return Err(explain_no_content(b, end));
    }
    match read_object_only(b) {
        Ok(()) => {},
        Err(m) => return Err(m),
    }
    match read_json_text(b) {
        Ok(()) => Ok(content),
        Err(m) => Err(m),
    }
}

/// Reads the content of an envelope.
fn read_envelope_content(b: &[u8]) -> (r: Result<String, String>)
    ensures
        text_result(r) == envelope_content(b@),
{
    let start: usize = skip_spaces(b, 0);
    if start < b.len() && b[start] == OPEN_BRACKET {
        match read_json_singleton(b) {
            Ok(content) => Ok(content),
            Err(m) => Err(
                rename(m.as_str(), "a tuple of size 1", "struct RequestEnvelope with 1 element"),
            ),
        }
    } else {
        read_object_content(b)
    }
}

/// Unwraps the request envelope and returns the text in it.
///
/// Fails with [`Error::DecodeFailed`] where the envelope is not base64url, its content is not
/// UTF-8 or not JSON, or there is no string `cashu_request` in it.
pub fn decode_request_envelope(b64: &str) -> (r: Result<String, Error>)
    ensures
        opened_view(r) == opened(b64@),
{
    let bytes = match base64url_decode(trim(b64).as_str()) {
        Ok(bytes) => bytes,
        Err(m) => return Err(
            Error::DecodeFailed("request envelope base64: ".to_string().concat(m.as_str())),
        ),
    };
    match read_envelope_content(bytes.as_slice()) {
        Ok(content) => Ok(content),
        Err(m) => Err(
            Error::DecodeFailed("request envelope json: ".to_string().concat(m.as_str())),
        ),
    }
}

/// Wraps a text in the request envelope. The envelope holds only characters of the base64url
/// alphabet, and opens to the text.
pub fn encode_request_envelope(creq_a: &str) -> (r: String)
    ensures
        r@ == envelope(creq_a@),
        is_base64url(r@),
        opened(r@) == Ok::<_, ErrorView>(creq_a@),
{
    let key = write_json_string(ENVELOPE_MEMBER);
    let value = write_json_string(creq_a);
    let json = "{".to_string().concat(key.as_str()).concat(":").concat(value.as_str()).concat("}");
    proof {
        reveal_strlit("cashu_request");
        reveal_strlit("{");
        reveal_strlit(":");
        reveal_strlit("}");
        assert(is_plain(ENVELOPE_MEMBER@));
        assert(json@ =~= json_object(ENVELOPE_MEMBER@, value@));
        lemma_key_reads(key@);
        lemma_envelope_reads(value@, creq_a@);
    }
    let r = base64url_encode(json.as_str().as_bytes());
    proof {
        lemma_base64url_untrimmed(r@);
    }
    r
}

proof fn lemma_key_reads(key: Seq<char>)
    requires
        key == between_quotes(ENVELOPE_MEMBER@),
        forall|n: nat, after: Seq<u8>|
            json_string(#[trigger] padded(n, encode_utf8(key), after)) == Ok::<_, Seq<char>>(
                ENVELOPE_MEMBER@,
            ),
    ensures
        json_string(encode_utf8(between_quotes(ENVELOPE_MEMBER@))) == Ok::<_, Seq<char>>(
            ENVELOPE_MEMBER@,
        ),
{
    let b = encode_utf8(key);
    assert(padded(0, b, Seq::empty()) =~= b);
}

proof fn lemma_literal_end_inside(before: Seq<u8>, b: Seq<u8>, after: Seq<u8>, i: int)
    requires
        0 <= i,
        literal_end(b, i) is Some,
    ensures
        literal_end(before + b + after, before.len() + i) == Some(
            before.len() + literal_end(b, i)->Some_0,
        ),
    decreases b.len() - i,
{
    let all = before + b + after;
    if i < b.len() {
        assert(all[before.len() + i] == b[i]);
        if b[i] == DQUOTE {
        } else if b[i] != BACKSLASH {
            lemma_literal_end_inside(before, b, after, i + 1);
        } else if i + 1 < b.len() {
            lemma_literal_end_inside(before, b, after, i + 2);
        }
    }
}

proof fn lemma_plain_literal_end(b: Seq<u8>, i: int, end: int)
    requires
        0 <= i <= end < b.len(),
        forall|j: int| i <= j < end ==> #[trigger] b[j] != DQUOTE && b[j] != BACKSLASH,
        b[end] == DQUOTE,
    ensures
        literal_end(b, i) == Some(end + 1),
    decreases end - i,
{
    if i < end {
        lemma_plain_literal_end(b, i + 1, end);
    }
}

proof fn lemma_envelope_reads(value: Seq<char>, content: Seq<char>)
    requires
        is_literal(encode_utf8(value)),
        forall|n: nat, after: Seq<u8>|
            json_string(#[trigger] padded(n, encode_utf8(value), after)) == Ok::<_, Seq<char>>(
                content,
            ),
        is_whole_object(encode_utf8(json_object(ENVELOPE_MEMBER@, value))),
        json_string(encode_utf8(between_quotes(ENVELOPE_MEMBER@))) == Ok::<_, Seq<char>>(
            ENVELOPE_MEMBER@,
        ),
    ensures
        envelope_content(encode_utf8(json_object(ENVELOPE_MEMBER@, value))) == Ok::<_, Seq<char>>(
            content,
        ),
{
    reveal_strlit("cashu_request");
    let key = between_quotes(ENVELOPE_MEMBER@);
    let head = seq!['{'] + key + seq![':'];
    let text = json_object(ENVELOPE_MEMBER@, value);
    let h = encode_utf8(head);
    let v = encode_utf8(value);
    let t = encode_utf8(seq!['}']);
    let b = encode_utf8(text);
    assert(text =~= head + value + seq!['}']);
    lemma_encode_concat(head + value, seq!['}']);
    lemma_encode_concat(head, value);
    assert(is_ascii_chars(head));
    assert(is_ascii_chars(seq!['}']));
    is_ascii_chars_encode_utf8(head);
    is_ascii_chars_encode_utf8(seq!['}']);
    assert(head[0] == '{' && head[1] == '"' && head[15] == '"' && head[16] == ':');
    assert(seq!['}'][0] == '}');
    assert(b == h + v + t);
    assert(h.len() == 17 && t.len() == 1);
    assert(h[0] == OPEN_BRACE && h[1] == DQUOTE && h[15] == DQUOTE && h[16] == COLON);
    assert(t[0] == CLOSE_BRACE);
    assert forall|j: int| 2 <= j < 15 implies #[trigger] h[j] != DQUOTE && h[j] != BACKSLASH
        && h[j] != LF by {
        assert(head[j] == ENVELOPE_MEMBER@[j - 2]);
        assert(head[j] as u8 == h[j]);
    }
    assert forall|j: int| 0 <= j < 17 implies #[trigger] b[j] == h[j] by {}
    lemma_plain_literal_end(b, 2, 15);
    lemma_literal_end_inside(h, v, t, 1);
    let end = 17 + v.len() as int;
    assert(b[17] == v[0]);
    assert(b[end] == t[0]);
    assert(b.len() == end + 1);
    assert(key_spans(b, end + 1, 0, false) =~= Seq::empty());
    assert(key_spans(b, end, 1, false) =~= Seq::empty());
    assert(key_spans(b, 17, 1, false) =~= Seq::empty());
    assert(key_spans(b, 16, 1, false) =~= Seq::empty());
    let found = (1int, 16int);
    assert(key_spans(b, 1, 1, true) =~= seq![found]);
    assert(key_spans(b, 0, 0, false) =~= seq![found]);
    lemma_encode_concat(seq!['{'], key);
    lemma_encode_concat(seq!['{'] + key, seq![':']);
    assert(is_ascii_chars(key));
    is_ascii_chars_encode_utf8(key);
    assert(is_ascii_chars(seq!['{']));
    is_ascii_chars_encode_utf8(seq!['{']);
    assert(b.subrange(1, 16) =~= encode_utf8(key));
    assert(b.take(b.len() as int) =~= b);
    reveal_with_fuel(fields, 2);
    assert(seq![found].drop_last() =~= Seq::empty());
    assert(fields(b, seq![found], true) =~= seq![found]);
    assert(after_spaces(b, 16) == 16);
    assert(blanked(b, 17) =~= padded(17, v, t)) by {
        assert forall|j: int| 0 <= j < b.len() implies #[trigger] blanked(b, 17)[j] == padded(
            17,
            v,
            t,
        )[j] by {
            if j < 17 {
                assert(b[j] == h[j]);
                assert(b[j] != LF);
            }
        }
    }
    assert(after_spaces(b, 0) == 0);
}

proof fn lemma_base64url_untrimmed(s: Seq<char>)
    requires
        is_base64url(s),
    ensures
        trimmed(s) == s,
{
    if s.len() > 0 {
        assert(is_base64url_char(s[0]));
        assert(is_base64url_char(s.last()));
    }
}

} // verus!
