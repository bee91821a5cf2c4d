//! The JSON facts the schemas and the API need from `serde_json`.

use vstd::prelude::*;

verus! {

/// Whether `text` is one complete JSON document as `serde_json` reads text.
pub uninterp spec fn is_json_text(text: Seq<char>) -> bool;

/// `serde_json::from_str::<serde_json::Value>` succeeds: claimed to depend on
/// the text alone.
#[verifier::external_body]
pub(crate) fn json_text_parses(text: &str) -> (r: bool)
    ensures
        r == is_json_text(text@),
{
    serde_json::from_str::<serde_json::Value>(text).is_ok()
}

#[verifier::external_type_specification]
#[verifier::external_body]
pub struct ExJsonValue(serde_json::Value);

/// The JSON document `serde_json` reads from `bytes`, if they are one.
pub uninterp spec fn json_document(bytes: Seq<u8>) -> Option<serde_json::Value>;

/// The compact JSON text `serde_json` writes for a document, if it writes one.
pub uninterp spec fn json_encoding(value: serde_json::Value) -> Option<Seq<u8>>;

/// The member names of a document that is an object; `None` for any other.
pub uninterp spec fn json_member_names(value: serde_json::Value) -> Option<Seq<Seq<char>>>;

/// The member `name` of a document, when it is an object holding that member
/// as a string.
pub uninterp spec fn json_text_member(value: serde_json::Value, name: Seq<char>) -> Option<
    Seq<char>,
>;

/// The member `name` of a document, when it is an object holding that member
/// as an unsigned 64-bit integer.
pub uninterp spec fn json_u64_member(value: serde_json::Value, name: Seq<char>) -> Option<u64>;

/// The Rust `Debug` text of a string: quoted, with escapes.
pub uninterp spec fn debug_text(text: Seq<char>) -> Seq<char>;

/// The value of a list of texts.
pub open spec fn text_views(texts: Seq<String>) -> Seq<Seq<char>> {
    texts.map_values(|t: String| t@)
}

/// `serde_json::from_slice::<serde_json::Value>`: the document the bytes
/// hold, when they hold one; a function of the bytes alone.
#[verifier::external_body]
pub(crate) fn parse_json_value(bytes: &[u8]) -> (r: Option<serde_json::Value>)
    ensures
        r == json_document(bytes@),
{
    serde_json::from_slice(bytes).ok()
}

/// `serde_json::to_vec`: the compact JSON text of a document.
#[verifier::external_body]
pub(crate) fn encode_json_value(value: &serde_json::Value) -> (r: Option<Vec<u8>>)
    ensures
        match r {
            Some(text) => json_encoding(*value) == Some(text@),
            None => json_encoding(*value) is None,
        },
{
    serde_json::to_vec(value).ok()
}

/// `serde_json::Value::as_object` and its keys: the member names of an
/// object, `None` for any other document.
#[verifier::external_body]
pub(crate) fn json_object_keys(value: &serde_json::Value) -> (r: Option<Vec<String>>)
    ensures
        match r {
            Some(keys) => json_member_names(*value) == Some(text_views(keys@)),
            None => json_member_names(*value) is None,
        },
{
    match value.as_object() {
        Some(object) => Some(object.keys().cloned().collect()),
        None => None,
    }
}

/// `serde_json::Value::get` and `as_str`: the member `name` when it is a
/// string.
#[verifier::external_body]
pub(crate) fn json_member_text(value: &serde_json::Value, name: &str) -> (r: Option<String>)
    ensures
        match r {
            Some(text) => json_text_member(*value, name@) == Some(text@),
            None => json_text_member(*value, name@) is None,
        },
{
    match value.get(name) {
        Some(member) => match member.as_str() {
            Some(text) => Some(text.to_owned()),
            None => None,
        },
        None => None,
    }
}

/// `serde_json::Value::get` and `as_u64`: the member `name` when it is an
/// unsigned 64-bit integer.
#[verifier::external_body]
pub(crate) fn json_member_u64(value: &serde_json::Value, name: &str) -> (r: Option<u64>)
    ensures
        r == json_u64_member(*value, name@),
{
    match value.get(name) {
        Some(member) => member.as_u64(),
        None => None,
    }
}

/// `format!("{:?}", text)`: the `Debug` text of a string.
#[verifier::external_body]
pub(crate) fn debug_quoted(text: &str) -> (r: String)
    ensures
        r@ == debug_text(text@),
{
    format!("{:?}", text)
}

/// The lowercase hexadecimal digit of `n < 16`, as a byte.
pub open spec fn hex_digit_byte(n: u8) -> u8 {
    if n < 10 {
        (0x30 + n) as u8
    } else {
        (0x61 + n - 10) as u8
    }
}

/// How `serde_json` writes one byte of a string's UTF-8 text: `"` and `\`
/// behind a backslash; backspace, tab, line feed, form feed and carriage
/// return as `\b`, `\t`, `\n`, `\f`, `\r`; any other byte below 0x20 as
/// `\u00` and two lowercase hexadecimal digits; every other byte as itself.
pub open spec fn json_escape_byte(b: u8) -> Seq<u8> {
    if b == 0x22 {
        seq![0x5c, 0x22]
    } else if b == 0x5c {
        seq![0x5c, 0x5c]
    } else if b == 0x08 {
        seq![0x5c, 0x62]
    } else if b == 0x09 {
        seq![0x5c, 0x74]
    } else if b == 0x0a {
        seq![0x5c, 0x6e]
    } else if b == 0x0c {
        seq![0x5c, 0x66]
    } else if b == 0x0d {
        seq![0x5c, 0x72]
    } else if b < 0x20 {
        seq![0x5c, 0x75, 0x30, 0x30, hex_digit_byte(b / 16), hex_digit_byte(b % 16)]
    } else {
        seq![b]
    }
}

/// The escaped form of a string's UTF-8 bytes, byte by byte.
pub open spec fn json_escape(bytes: Seq<u8>) -> Seq<u8>
    decreases bytes.len(),
{
    if bytes.len() == 0 {
        Seq::empty()
    } else {
        json_escape(bytes.drop_last()) + json_escape_byte(bytes.last())
    }
}

/// Whether `serde_json` writes the byte as itself inside a string.
pub open spec fn json_plain_byte(b: u8) -> bool {
    b >= 0x20 && b != 0x22 && b != 0x5c
}

/// The bytes `serde_json` writes for a JSON string holding `text`: a quote,
/// the escaped UTF-8 text, a quote.
pub open spec fn json_string_bytes(text: Seq<char>) -> Seq<u8> {
    seq![0x22u8] + json_escape(crate::text::utf8(text)) + seq![0x22u8]
}

/// Bytes that need no escaping are written as they are.
pub proof fn lemma_json_escape_plain(bytes: Seq<u8>)
    requires
        forall|i: int| 0 <= i < bytes.len() ==> json_plain_byte(#[trigger] bytes[i]),
    ensures
        json_escape(bytes) == bytes,
    decreases bytes.len(),
{
    if bytes.len() > 0 {
        lemma_json_escape_plain(bytes.drop_last());
        assert(json_plain_byte(bytes[bytes.len() - 1]));
        assert(bytes.drop_last().push(bytes.last()) =~= bytes);
    }
}

/// `serde_json::to_vec` of a string: its JSON text (see `json_string_bytes`).
/// (Writing a string to a byte vector cannot fail, so the error arm is never
/// taken.)
#[verifier::external_body]
pub(crate) fn json_string(text: &str) -> (r: Vec<u8>)
    ensures
        r@ == json_string_bytes(text@),
{
    match serde_json::to_vec(text) {
        Ok(bytes) => bytes,
        Err(_) => Vec::new(),
    }
}

} // verus!
