use std::fmt;

use base64::engine::general_purpose::URL_SAFE_NO_PAD;
use base64::Engine;
use cdk_pop_verifier::envelope::{find_fields, place_of, rename};
use cdk_pop_verifier::{decode_request_envelope, encode_request_envelope, Error};
use serde::de::{Deserialize, Deserializer, IgnoredAny, MapAccess, SeqAccess, Visitor};

/// The envelope as serde reads it into a struct with one field.
struct RequestEnvelope {
    cashu_request: String,
}

enum Field {
    CashuRequest,
    Ignored,
}

struct FieldVisitor;

impl<'de> Visitor<'de> for FieldVisitor {
    type Value = Field;

    fn expecting(&self, f: &mut fmt::Formatter) -> fmt::Result {
        f.write_str("field identifier")
    }

    fn visit_str<E: serde::de::Error>(self, name: &str) -> Result<Field, E> {
        match name {
            "cashu_request" => Ok(Field::CashuRequest),
            _ => Ok(Field::Ignored),
        }
    }
}

impl<'de> Deserialize<'de> for Field {
    fn deserialize<D: Deserializer<'de>>(d: D) -> Result<Field, D::Error> {
        d.deserialize_identifier(FieldVisitor)
    }
}

struct EnvelopeVisitor;

impl<'de> Visitor<'de> for EnvelopeVisitor {
    type Value = RequestEnvelope;

    fn expecting(&self, f: &mut fmt::Formatter) -> fmt::Result {
        f.write_str("struct RequestEnvelope")
    }

    fn visit_seq<A: SeqAccess<'de>>(self, mut seq: A) -> Result<RequestEnvelope, A::Error> {
        match seq.next_element::<String>()? {
            Some(cashu_request) => Ok(RequestEnvelope { cashu_request }),
            None => Err(serde::de::Error::invalid_length(
                0,
                &"struct RequestEnvelope with 1 element",
            )),
        }
    }

    fn visit_map<A: MapAccess<'de>>(self, mut map: A) -> Result<RequestEnvelope, A::Error> {
        let mut cashu_request: Option<String> = None;
        while let Some(key) = map.next_key::<Field>()? {
            match key {
                Field::CashuRequest => {
                    if cashu_request.is_some() {
                        return Err(serde::de::Error::duplicate_field("cashu_request"));
                    }
                    cashu_request = Some(map.next_value::<String>()?);
                }
                Field::Ignored => {
                    let _ = map.next_value::<IgnoredAny>()?;
                }
            }
        }
        match cashu_request {
            Some(cashu_request) => Ok(RequestEnvelope { cashu_request }),
            None => Err(serde::de::Error::missing_field("cashu_request")),
        }
    }
}

impl<'de> Deserialize<'de> for RequestEnvelope {
    fn deserialize<D: Deserializer<'de>>(d: D) -> Result<RequestEnvelope, D::Error> {
        d.deserialize_struct("RequestEnvelope", &["cashu_request"], EnvelopeVisitor)
    }
}

fn as_struct(json: &[u8]) -> Result<String, String> {
    match serde_json::from_slice::<RequestEnvelope>(json) {
        Ok(envelope) => Ok(envelope.cashu_request),
        Err(e) => Err(format!("request envelope json: {e}")),
    }
}

fn opened(json: &[u8]) -> Result<String, String> {
    match decode_request_envelope(&URL_SAFE_NO_PAD.encode(json)) {
        Ok(content) => Ok(content),
        Err(Error::DecodeFailed(m)) => Err(m),
        Err(e) => panic!("unexpected {e:?}"),
    }
}

fn agree(json: &[u8]) {
    assert_eq!(opened(json), as_struct(json), "{:?}", String::from_utf8_lossy(json));
}

const ENVELOPES: [&str; 26] = [
    r#"{"cashu_request":"creqA"}"#,
    r#" { "cashu_request" : "creqA" } "#,
    "\n{\n\t\"cashu_request\":\r\n\"cr\u{e9}qA\"\n,\"x\":[1,{\"cashu_request\":2}]}\n",
    r#"{"a":"\"cashu_request\":","cashu_request":"b"}"#,
    r#"{"cashu_request":"a","cashu_request":"b"}"#,
    r#"{"cashu_request":"a","cashu_request"}"#,
    r#"{"cashu_request":5,"cashu_request":"b"}"#,
    r#"{"cashu_request":{"cashu_request":[}}}"#,
    r#"{"cashu_request":true}"#,
    r#"{"cashu_request":-1.5e3}"#,
    r#"{"cashu_request":null,"b":tru}"#,
    r#"{"cashu_request":"a","b":tru,"cashu_request":"c"}"#,
    r#"{"b":tru,"cashu_request":5}"#,
    r#"{"\u0063ashu_request":"a\n\ud83d\ude00"}"#,
    r#"{"cashu_request":"\ud800"}"#,
    r#"{"other":"\ud800","cashu_request":"a"}"#,
    r#"{"cashu_request":"a"} x"#,
    r#"{"x":1}{"cashu_request":"a"}"#,
    r#"{}"#,
    r#"["creqA"]"#,
    r#" [ "creqA" , "b" ] "#,
    r#"[[],"a tuple of size 1"]"#,
    r#""expected a map""#,
    r#"12.5"#,
    r#"{"k":{"":[{},"}"]},"cashu_request":"z","l":"{\"cashu_request\":1"}"#,
    r#"{,"cashu_request":"a"}"#,
];

#[test]
fn envelopes_read_as_a_struct_with_one_field() {
    for json in ENVELOPES {
        agree(json.as_bytes());
    }
}

#[test]
fn envelopes_that_break_off_are_explained_alike() {
    for json in ENVELOPES {
        for n in 0..json.len() {
            agree(&json.as_bytes()[..n]);
        }
    }
}

#[test]
fn envelopes_with_one_byte_changed_are_explained_alike() {
    for json in ENVELOPES {
        for i in 0..json.len() {
            for b in b"\"\\{}[]:,x0 \n" {
                let mut changed = json.as_bytes().to_vec();
                changed[i] = *b;
                if std::str::from_utf8(&changed).is_ok() {
                    agree(&changed);
                }
                let mut longer = json.as_bytes().to_vec();
                longer.insert(i, *b);
                if std::str::from_utf8(&longer).is_ok() {
                    agree(&longer);
                }
            }
            let mut shorter = json.as_bytes().to_vec();
            shorter.remove(i);
            if std::str::from_utf8(&shorter).is_ok() {
                agree(&shorter);
            }
        }
    }
}

#[test]
fn text_that_is_not_utf8_is_refused() {
    let json = b"{\"other\":\"\xff\",\"cashu_request\":\"a\"}";
    assert!(as_struct(json).is_ok());
    assert_eq!(
        opened(json),
        Err("request envelope json: invalid unicode code point at line 1 column 11".to_string())
    );
    let json = b"{\"cashu_request\":\"\xff\"}";
    assert_eq!(opened(json), as_struct(json));
}

#[test]
fn every_text_comes_back() {
    for text in ["", "creqA", "\"", "\\", "\u{0}\u{1f}\u{7f}", "\u{1F600}", "a\nb", "{\"x\":1}"] {
        assert_eq!(decode_request_envelope(&encode_request_envelope(text)).unwrap(), text);
    }
}

#[test]
fn messages_name_what_is_expected() {
    assert_eq!(
        opened(b"7"),
        Err("request envelope json: invalid type: integer `7`, expected struct RequestEnvelope \
             at line 1 column 1"
            .to_string())
    );
    assert_eq!(
        opened(b"[]"),
        Err("request envelope json: invalid length 0, expected struct RequestEnvelope with 1 \
             element at line 1 column 2"
            .to_string())
    );
    assert_eq!(
        opened(b""),
        Err("request envelope json: EOF while parsing a value at line 1 column 0".to_string())
    );
}

#[test]
fn keys_are_found_where_they_stand() {
    let json = br#"{"a":{"cashu_request":1},"cashu_request":"cashu_request","cashu_request":2}"#;
    assert_eq!(find_fields(json, true), vec![(25, 40), (57, 72)]);
    assert_eq!(find_fields(br#"{"cashu_request" tru,"cashu_request":2}"#, false), vec![(1, 16)]);
    assert_eq!(find_fields(b"[\"cashu_request\"]", true), vec![]);
}

#[test]
fn places_count_lines_and_bytes() {
    assert_eq!(place_of(b"ab\ncd", 5), " at line 2 column 2");
    assert_eq!(place_of(b"ab\ncd", 3), " at line 2 column 0");
    assert_eq!(place_of(b"ab\ncd", 2), " at line 1 column 2");
    assert_eq!(place_of(b"", 0), " at line 1 column 0");
}

#[test]
fn the_last_occurrence_is_renamed() {
    assert_eq!(rename("a map, a map at", "a map", "x"), "a map, x at");
    assert_eq!(rename("nothing", "a map", "x"), "nothing");
    assert_eq!(rename("", "a map", "x"), "");
}
