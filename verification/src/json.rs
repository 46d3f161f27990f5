//! The few JSON facts the library needs from `serde_json`: how a string is
//! written, and what a stored configuration or option list reads back as.
use vstd::prelude::*;

verus! {

/// A lower-case hexadecimal digit.
pub open spec fn hex_digit(d: u32) -> char {
    if d < 10 {
        ((d + 48) as u32) as char
    } else {
        ((d + 87) as u32) as char
    }
}

/// How `serde_json` writes one character inside a string: `"` and `\` behind a
/// backslash; the control characters below U+0020 as `\b`, `\t`, `\n`, `\f`,
/// `\r`, or else `\u00` and two lower-case hex digits; any other character as
/// it is.
pub open spec fn json_char(c: char) -> Seq<char> {
    if c == '"' {
        seq!['\\', '"']
    } else if c == '\\' {
        seq!['\\', '\\']
    } else if c == '\u{8}' {
        seq!['\\', 'b']
    } else if c == '\t' {
        seq!['\\', 't']
    } else if c == '\n' {
        seq!['\\', 'n']
    } else if c == '\u{c}' {
        seq!['\\', 'f']
    } else if c == '\r' {
        seq!['\\', 'r']
    } else if (c as u32) < 0x20 {
        seq!['\\', 'u', '0', '0', hex_digit((c as u32) / 16), hex_digit((c as u32) % 16)]
    } else {
        seq![c]
    }
}

/// The characters of `s`, each written as `json_char` does.
pub open spec fn json_chars(s: Seq<char>) -> Seq<char>
    decreases s.len(),
{
    if s.len() == 0 {
        Seq::empty()
    } else {
        json_char(s[0]) + json_chars(s.drop_first())
    }
}

/// The JSON text of a string, as `serde_json` writes a `Value::String`: its
/// characters, escaped, between double quotes.
pub open spec fn json_string_text(s: Seq<char>) -> Seq<char> {
    seq!['"'] + json_chars(s) + seq!['"']
}

/// The string member `key` of `raw` read as a JSON object, if there is one.
pub uninterp spec fn json_text_member_of(raw: Seq<char>, key: Seq<char>) -> Option<Seq<char>>;

/// The boolean member `key` of `raw` read as a JSON object, if there is one.
pub uninterp spec fn json_bool_member_of(raw: Seq<char>, key: Seq<char>) -> Option<bool>;

/// The member `key` of `raw` read as a JSON object, where it is an integer
/// that fits an `i64`.
pub uninterp spec fn json_int_member_of(raw: Seq<char>, key: Seq<char>) -> Option<i64>;

/// `raw` read as a JSON array of strings, where it reads as one.
pub uninterp spec fn json_text_list_of(raw: Seq<char>) -> Option<Seq<Seq<char>>>;

/// Writes `s` as a JSON string (`serde_json::Value::String` and its compact
/// `Display`): the escaping of `format_escaped_str` and its table, as
/// `json_string_text` states it.
#[verifier::external_body]
pub(crate) fn json_quoted(s: &str) -> (r: String)
    ensures
        r@ == json_string_text(s@),
{
    serde_json::Value::String(s.to_owned()).to_string()
}

/// Reads `raw` with `serde_json::from_str` as a `Value` and takes the member
/// `key` with `get` and `as_str`; `None` where any step finds nothing.
#[verifier::external_body]
pub(crate) fn json_text_member(raw: &str, key: &str) -> (r: Option<String>)
    ensures
        r matches Some(s) ==> json_text_member_of(raw@, key@) == Some(s@),
        r is None ==> json_text_member_of(raw@, key@) is None,
{
    match serde_json::from_str::<serde_json::Value>(raw) {
        Ok(v) => v.get(key).and_then(|x| x.as_str()).map(|s| s.to_owned()),
        Err(_) => None,
    }
}

/// Reads `raw` with `serde_json::from_str` as a `Value` and takes the member
/// `key` with `get` and `as_bool`; `None` where any step finds nothing.
#[verifier::external_body]
pub(crate) fn json_bool_member(raw: &str, key: &str) -> (r: Option<bool>)
    ensures
        r == json_bool_member_of(raw@, key@),
{
    match serde_json::from_str::<serde_json::Value>(raw) {
        Ok(v) => v.get(key).and_then(|x| x.as_bool()),
        Err(_) => None,
    }
}

/// Reads `raw` with `serde_json::from_str` as a `Value` and takes the member
/// `key` with `get` and `as_i64`; `None` where any step finds nothing.
#[verifier::external_body]
pub(crate) fn json_int_member(raw: &str, key: &str) -> (r: Option<i64>)
    ensures
        r == json_int_member_of(raw@, key@),
{
    match serde_json::from_str::<serde_json::Value>(raw) {
        Ok(v) => v.get(key).and_then(|x| x.as_i64()),
        Err(_) => None,
    }
}

/// Reads `raw` with `serde_json::from_str` as a list of strings; the error is
/// `serde_json`'s message, which is not stated.
#[verifier::external_body]
pub(crate) fn json_text_list(raw: &str) -> (r: Result<Vec<String>, String>)
    ensures
        r matches Ok(v) ==> json_text_list_of(raw@) == Some(v@.map_values(|s: String| s@)),
        r is Err ==> json_text_list_of(raw@) is None,
{
    match serde_json::from_str::<Vec<String>>(raw) {
        Ok(v) => Ok(v),
        Err(e) => Err(e.to_string()),
    }
}

} // verus!
