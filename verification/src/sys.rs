use vstd::prelude::*;

use crate::json::{parsed_data, parsed_wf, JsonData, ParsedJson};
use crate::types::Timestamp;

verus! {

/// `serde_json::Error`, the error that serde_json's serializer reports.
#[verifier::external_type_specification]
#[verifier::external_body]
pub struct SerdeJsonError(serde_json::Error);

/// `serde_json::Value`, the value that serde_json's parser builds; it only
/// passes through the conversion that `json_from_slice` makes.
#[verifier::external_type_specification]
#[verifier::external_body]
pub struct SerdeJsonValue(serde_json::Value);

/// The lowercase hexadecimal digit for `d` (below sixteen).
pub open spec fn hex_digit(d: int) -> char {
    if d < 10 {
        (48 + d) as char
    } else {
        (87 + d) as char
    }
}

/// How serde_json writes one character inside a string literal: a quote and
/// a backslash behind a backslash; backspace, tab, line feed, form feed and
/// carriage return as `\b`, `\t`, `\n`, `\f`, `\r`; the other control
/// characters below 0x20 as `\u00` and two lowercase hexadecimal digits;
/// every other character as itself.
pub open spec fn json_escape_char(c: char) -> Seq<char> {
    let n = c as int;
    if n == 0x22 {
        seq!['\\', '"']
    } else if n == 0x5c {
        seq!['\\', '\\']
    } else if n == 0x08 {
        seq!['\\', 'b']
    } else if n == 0x09 {
        seq!['\\', 't']
    } else if n == 0x0a {
        seq!['\\', 'n']
    } else if n == 0x0c {
        seq!['\\', 'f']
    } else if n == 0x0d {
        seq!['\\', 'r']
    } else if n < 0x20 {
        seq!['\\', 'u', '0', '0', hex_digit(n / 16), hex_digit(n % 16)]
    } else {
        seq![c]
    }
}

/// The characters of a string, each written as serde_json writes it inside a
/// string literal.
pub open spec fn json_escaped(s: Seq<char>) -> Seq<char>
    decreases s.len(),
{
    if s.len() == 0 {
        Seq::empty()
    } else {
        json_escaped(s.drop_last()) + json_escape_char(s.last())
    }
}

/// The JSON string literal that serde_json writes for a string: its escaped
/// characters between double quotes.
pub open spec fn json_quoted(s: Seq<char>) -> Seq<char> {
    seq!['"'] + json_escaped(s) + seq!['"']
}

/// Whether a character is a lowercase hexadecimal digit.
pub open spec fn is_lower_hex(c: char) -> bool {
    ('0' <= c && c <= '9') || ('a' <= c && c <= 'f')
}

/// The shape of a hyphenated UUID in lowercase: 36 characters, hyphens at
/// places 8, 13, 18 and 23, lowercase hexadecimal digits elsewhere.
pub open spec fn is_hyphenated_uuid(s: Seq<char>) -> bool {
    &&& s.len() == 36
    &&& forall|i: int|
        0 <= i < 36 ==> if i == 8 || i == 13 || i == 18 || i == 23 {
            s[i] == '-'
        } else {
            is_lower_hex(#[trigger] s[i])
        }
}

/// The current time, from `chrono::Utc::now()`, as seconds and nanoseconds
/// since the Unix epoch. Nothing is claimed of the value: it depends on the
/// system clock. chrono panics if the clock reads a time before 1970.
#[verifier::external_body]
pub(crate) fn now() -> (t: Timestamp) {
    let now = chrono::Utc::now();
    Timestamp { secs: now.timestamp(), nanos: now.timestamp_subsec_nanos() }
}

/// A fresh random UUID from `uuid::Uuid::new_v4()`, written by its `Display`
/// impl: the hyphenated form in lowercase hexadecimal. Its digits are random,
/// so only the shape is claimed.
#[verifier::external_body]
pub(crate) fn random_uuid_text() -> (s: String)
    ensures
        is_hyphenated_uuid(s@),
{
    uuid::Uuid::new_v4().to_string()
}

/// `serde_json::to_string` on a string slice: the string as a JSON string
/// literal (see `json_quoted`: serde_json's `format_escaped_str` and its
/// escape table). Serializing a `str` into serde_json's in-memory buffer
/// cannot fail, so the result is always `Ok`.
#[verifier::external_body]
pub(crate) fn json_quote(s: &str) -> (r: Result<String, serde_json::Error>)
    ensures
        r is Ok,
        r matches Ok(q) ==> q@ == json_quoted(s@),
{
    serde_json::to_string(s)
}

/// What serde_json's parser reads from bytes as a JSON value: its content,
/// or none when the bytes are not one JSON text. Object members come in the
/// order of serde_json's map, each key once (a later duplicate key replacing
/// an earlier one); numbers by the text that serde_json writes for them.
pub uninterp spec fn json_parsed(bytes: Seq<u8>) -> Option<JsonData>;

/// Whether `s` is a text that serde_json's `Display` writes for some
/// `serde_json::Number`.
pub uninterp spec fn is_number_text(s: Seq<char>) -> bool;

/// What serde_json reads as a number from a text (its `FromStr` for
/// `Number`: the whole text must be one JSON number literal in range),
/// written back by its `Display`; none when it reads none.
pub uninterp spec fn number_parsed(text: Seq<char>) -> Option<Seq<char>>;

/// `serde_json::Number`'s `FromStr`, then its `Display`: the text that
/// serde_json writes for the number that `text` denotes, or none when `text`
/// is no JSON number. What it writes is named, not spelled out; that it is
/// one of serde_json's number texts is what the code shows.
#[verifier::external_body]
pub(crate) fn number_text(text: &str) -> (r: Option<String>)
    ensures
        r is Some <==> number_parsed(text@) is Some,
        r matches Some(t) ==> Some(t@) == number_parsed(text@) && is_number_text(t@),
{
    text.parse::<serde_json::Number>().ok().map(|n| n.to_string())
}

/// `serde_json::from_slice` into a `serde_json::Value`, turned member for
/// member into a `ParsedJson`. It fails exactly when the bytes are no JSON
/// text; the value it reads is named, not spelled out. Its numbers are texts
/// that serde_json's `Display` writes for a `Number`, and each object holds a
/// key once (serde_json's map keeps one entry per key).
#[verifier::external_body]
pub(crate) fn json_from_slice(data: &[u8]) -> (r: Result<ParsedJson, serde_json::Error>)
    ensures
        r is Ok <==> json_parsed(data@) is Some,
        r matches Ok(p) ==> Some(parsed_data(p)) == json_parsed(data@) && parsed_wf(p),
{
    serde_json::from_slice::<serde_json::Value>(data).map(parsed_of)
}

/// A `serde_json::Value` as a `ParsedJson`, member for member: a number by
/// the text that serde_json's `Display` writes for it, an object by its
/// entries in its own order. A conversion only, claiming nothing by itself;
/// `json_from_slice` states what the whole parse gives.
#[verifier::external_body]
fn parsed_of(v: serde_json::Value) -> ParsedJson {
    match v {
        serde_json::Value::Null => ParsedJson::Null,
        serde_json::Value::Bool(b) => ParsedJson::Bool(b),
        serde_json::Value::Number(n) => ParsedJson::Number(n.to_string()),
        serde_json::Value::String(s) => ParsedJson::String(s),
        serde_json::Value::Array(items) => ParsedJson::Array(items.into_iter().map(parsed_of).collect()),
        serde_json::Value::Object(m) => ParsedJson::Object(m.into_iter().map(|(k, v)| (k, parsed_of(v))).collect()),
    }
}

} // verus!
