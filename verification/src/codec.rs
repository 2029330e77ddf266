//! Base64url and JSON, as far as the request envelope needs them.
use base64::engine::general_purpose::URL_SAFE_NO_PAD;
use base64::Engine;
use serde::de::{Deserialize, IgnoredAny};
use serde_json::value::RawValue;
use std::collections::BTreeMap;
use vstd::prelude::*;
use vstd::utf8::encode_utf8;

use crate::mint_url::text_result;
use crate::auth_header::{BACKSLASH, DQUOTE, SP};

verus! {

/// The unpadded base64url text of bytes, as `base64`'s `URL_SAFE_NO_PAD` engine writes it.
pub uninterp spec fn base64url(bytes: Seq<u8>) -> Seq<char>;

/// The bytes that `base64`'s `URL_SAFE_NO_PAD` engine reads from a text, or its error message.
pub uninterp spec fn base64url_decoded(text: Seq<char>) -> Result<Seq<u8>, Seq<char>>;

/// A character of the base64url alphabet.
pub open spec fn is_base64url_char(c: char) -> bool {
    'A' <= c <= 'Z' || 'a' <= c <= 'z' || '0' <= c <= '9' || c == '-' || c == '_'
}

/// Whether every character is one of the base64url alphabet.
pub open spec fn is_base64url(text: Seq<char>) -> bool {
    forall|i: int| 0 <= i < text.len() ==> is_base64url_char(#[trigger] text[i])
}

/// `Engine::encode` of `base64`'s `URL_SAFE_NO_PAD`. The text is named by [`base64url`]: it is a
/// function of the bytes alone. It holds only characters of the alphabet, and decodes to the
/// bytes it was made from.
#[verifier::external_body]
pub(crate) fn base64url_encode(bytes: &[u8]) -> (r: String)
    ensures
        r@ == base64url(bytes@),
        is_base64url(r@),
        (base64url_decoded(r@) == Ok::<_, Seq<char>>(bytes@)),
{
    URL_SAFE_NO_PAD.encode(bytes)
}

/// Bytes or a message, taken by view.
pub open spec fn bytes_result(r: Result<Vec<u8>, String>) -> Result<Seq<u8>, Seq<char>> {
    match r {
        Ok(bytes) => Ok(bytes@),
        Err(m) => Err(m@),
    }
}

/// `Engine::decode` of `base64`'s `URL_SAFE_NO_PAD`. The result is named by
/// [`base64url_decoded`]: it is a function of the text alone.
#[verifier::external_body]
pub(crate) fn base64url_decode(text: &str) -> (r: Result<Vec<u8>, String>)
    ensures
        bytes_result(r) == base64url_decoded(text@),
{
    URL_SAFE_NO_PAD.decode(text).map_err(|e| e.to_string())
}

/// The JSON string literal that `serde_json::to_string` writes for a text.
pub uninterp spec fn json_literal(s: Seq<char>) -> Seq<char>;

/// The string at the front of bytes, as serde_json's `Deserializer` reads it, leaving alone what
/// follows; or its error message, with line and column.
pub uninterp spec fn json_string(bytes: Seq<u8>) -> Result<Seq<char>, Seq<char>>;

/// Where the JSON object at the front of bytes ends, as serde_json's `Deserializer` reads it into
/// a map whose values it ignores, leaving alone what follows; or its error message, with line and
/// column.
pub uninterp spec fn json_object_end(bytes: Seq<u8>) -> Result<nat, Seq<char>>;

/// Whether `serde_json::from_slice` reads bytes into a map whose values it ignores; if not, its
/// error message, with line and column.
pub uninterp spec fn json_object_only(bytes: Seq<u8>) -> Result<(), Seq<char>>;

/// Whether `serde_json::from_slice` reads bytes as a raw value, which it does not for text that is
/// not UTF-8; if not, its error message, with line and column.
pub uninterp spec fn json_text(bytes: Seq<u8>) -> Result<(), Seq<char>>;

/// The string that `serde_json::from_slice` reads into a tuple of one; or its error message, with
/// line and column.
pub uninterp spec fn json_singleton(bytes: Seq<u8>) -> Result<Seq<char>, Seq<char>>;

/// A text that needs no escapes: ASCII letters, digits and underscores.
pub open spec fn is_plain(s: Seq<char>) -> bool {
    forall|i: int|
        0 <= i < s.len() ==> ('A' <= #[trigger] s[i] <= 'Z' || 'a' <= s[i] <= 'z' || '0' <= s[i]
            <= '9' || s[i] == '_')
}

/// A text between quotes.
pub open spec fn between_quotes(s: Seq<char>) -> Seq<char> {
    seq!['"'] + s + seq!['"']
}

/// A JSON object with one member, whose value is given as JSON text.
pub open spec fn json_object(key: Seq<char>, value: Seq<char>) -> Seq<char> {
    seq!['{'] + between_quotes(key) + seq![':'] + value + seq!['}']
}

/// Where the string literal ends whose opening quote stands just before position `i`: the
/// position after its closing quote, or `None` where there is none.
pub open spec fn literal_end(b: Seq<u8>, i: int) -> Option<int>
    decreases b.len() - i,
{
    if i < 0 || i >= b.len() {
        None
    } else if b[i] == DQUOTE {
        Some(i + 1)
    } else if b[i] != BACKSLASH {
        literal_end(b, i + 1)
    } else if i + 1 >= b.len() {
        None
    } else {
        literal_end(b, i + 2)
    }
}

/// Whether bytes are one string literal and nothing else.
pub open spec fn is_literal(b: Seq<u8>) -> bool {
    b.len() > 0 && b[0] == DQUOTE && literal_end(b, 1) == Some(b.len() as int)
}

/// Bytes behind `n` spaces and before whatever follows.
pub open spec fn padded(n: nat, b: Seq<u8>, after: Seq<u8>) -> Seq<u8> {
    Seq::new(n, |i: int| SP) + b + after
}

/// Whether bytes are a JSON object, all of them, in UTF-8.
pub open spec fn is_whole_object(b: Seq<u8>) -> bool {
    &&& json_object_end(b) == Ok::<_, Seq<char>>(b.len())
    &&& json_object_only(b) == Ok::<_, Seq<char>>(())
    &&& json_text(b) == Ok::<_, Seq<char>>(())
}

/// `serde_json::to_string` of a string. The literal is named by [`json_literal`]: it is a
/// function of the string alone. A plain text is put between quotes. Quotes and backslashes are
/// escaped, so that the literal ends at its closing quote. It reads back as the string, behind
/// spaces and before anything; and where it stands as the value of an object with one plain key,
/// that is an object to serde_json too.
#[verifier::external_body]
pub(crate) fn write_json_string(s: &str) -> (r: String)
    ensures
        r@ == json_literal(s@),
        is_plain(s@) ==> r@ == between_quotes(s@),
        is_literal(encode_utf8(r@)),
        (forall|n: nat, after: Seq<u8>|
            json_string(#[trigger] padded(n, encode_utf8(r@), after)) == Ok::<_, Seq<char>>(s@)),
        (forall|key: Seq<char>|
            is_plain(key) ==> is_whole_object(encode_utf8(#[trigger] json_object(key, r@)))),
{
    serde_json::to_string(s).expect("a string is JSON")
}

/// serde_json's `Deserializer` over bytes, read into a `String`. The result is named by
/// [`json_string`]: it is a function of the bytes alone.
#[verifier::external_body]
pub(crate) fn read_json_string(bytes: &[u8]) -> (r: Result<String, String>)
    ensures
        text_result(r) == json_string(bytes@),
{
    let mut reader = serde_json::Deserializer::from_slice(bytes);
    String::deserialize(&mut reader).map_err(|e| e.to_string())
}

/// A position or a message, taken by view.
pub open spec fn position_result(r: Result<usize, String>) -> Result<nat, Seq<char>> {
    match r {
        Ok(n) => Ok(n as nat),
        Err(m) => Err(m@),
    }
}

/// serde_json's `Deserializer` over bytes, read into a map whose values are ignored. The position
/// that it has then reached is named by [`json_object_end`]: it is a function of the bytes alone,
/// and does not lie beyond them.
#[verifier::external_body]
pub(crate) fn read_object_end(bytes: &[u8]) -> (r: Result<usize, String>)
    ensures
        position_result(r) == json_object_end(bytes@),
        r matches Ok(end) ==> end <= bytes@.len(),
{
    let mut reader = serde_json::Deserializer::from_slice(bytes);
    match BTreeMap::<String, IgnoredAny>::deserialize(&mut reader) {
        Ok(_) => Ok(reader.into_iter::<IgnoredAny>().byte_offset()),
        Err(e) => Err(e.to_string()),
    }
}

/// Success or a message, taken by view.
pub open spec fn done_result(r: Result<(), String>) -> Result<(), Seq<char>> {
    match r {
        Ok(()) => Ok(()),
        Err(m) => Err(m@),
    }
}

/// `serde_json::from_slice` into a map whose values are ignored. The result is named by
/// [`json_object_only`]: it is a function of the bytes alone.
#[verifier::external_body]
pub(crate) fn read_object_only(bytes: &[u8]) -> (r: Result<(), String>)
    ensures
        done_result(r) == json_object_only(bytes@),
{
    match serde_json::from_slice::<BTreeMap<String, IgnoredAny>>(bytes) {
        Ok(_) => Ok(()),
        Err(e) => Err(e.to_string()),
    }
}

/// `serde_json::from_slice` into a raw value. The result is named by [`json_text`]: it is a
/// function of the bytes alone.
#[verifier::external_body]
pub(crate) fn read_json_text(bytes: &[u8]) -> (r: Result<(), String>)
    ensures
        done_result(r) == json_text(bytes@),
{
    match serde_json::from_slice::<Box<RawValue>>(bytes) {
        Ok(_) => Ok(()),
        Err(e) => Err(e.to_string()),
    }
}

/// `serde_json::from_slice` into a tuple of one string. The result is named by
/// [`json_singleton`]: it is a function of the bytes alone.
#[verifier::external_body]
pub(crate) fn read_json_singleton(bytes: &[u8]) -> (r: Result<String, String>)
    ensures
        text_result(r) == json_singleton(bytes@),
{
    match serde_json::from_slice::<(String,)>(bytes) {
        Ok((s,)) => Ok(s),
        Err(e) => Err(e.to_string()),
    }
}

} // verus!
