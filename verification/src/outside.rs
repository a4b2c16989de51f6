//! Calls into outside crates: percent-encoding (`urlencoding`), MIME type
//! guessing (`mime_guess`), JSON (`serde_json`) and header-value checks
//! (`http`, through `axum`).
use vstd::prelude::*;
use vstd::string::StringSliceAdditionalSpecFns;
use vstd::utf8::{decode_utf8, encode_utf8, valid_utf8};

use crate::text::{hex_digit_char, views};

verus! {

/// A hexadecimal digit byte (`0-9`, `A-F`, `a-f`).
pub open spec fn is_hex(b: u8) -> bool {
    (48 <= b <= 57) || (65 <= b <= 70) || (97 <= b <= 102)
}

/// The value of a hexadecimal digit byte.
pub open spec fn hex_value(b: u8) -> int {
    if 48 <= b <= 57 {
        b - 48
    } else if 65 <= b <= 70 {
        b - 55
    } else {
        b - 87
    }
}

/// Percent-decoding of bytes: each `%` followed by two hex digits becomes the
/// byte they spell; every other byte (a lone `%` and `+` included) is kept.
pub open spec fn percent_decoded(s: Seq<u8>) -> Seq<u8>
    decreases s.len(),
{
    if s.len() == 0 {
        s
    } else if s[0] == 37 && s.len() >= 3 && is_hex(s[1]) && is_hex(s[2]) {
        seq![(hex_value(s[1]) * 16 + hex_value(s[2])) as u8] + percent_decoded(s.skip(3))
    } else {
        seq![s[0]] + percent_decoded(s.drop_first())
    }
}

/// A byte left as is by percent-encoding: ASCII letters, digits and `-._~`.
pub open spec fn is_unreserved(b: u8) -> bool {
    (48 <= b <= 57) || (65 <= b <= 90) || (97 <= b <= 122) || b == 45 || b == 46 || b == 95
        || b == 126
}

/// The upper-case hexadecimal digit for a value below 16.
pub open spec fn upper_hex_digit(v: int) -> char {
    if v < 10 {
        (48 + v) as char
    } else {
        (55 + v) as char
    }
}

/// Percent-encoding of bytes: unreserved bytes stay, every other byte becomes
/// `%` and two upper-case hex digits.
pub open spec fn percent_encoded(s: Seq<u8>) -> Seq<char>
    decreases s.len(),
{
    if s.len() == 0 {
        Seq::empty()
    } else if is_unreserved(s[0]) {
        seq![s[0] as char] + percent_encoded(s.drop_first())
    } else {
        seq!['%', upper_hex_digit(s[0] as int / 16), upper_hex_digit(s[0] as int % 16)] + percent_encoded(
            s.drop_first(),
        )
    }
}

/// `urlencoding::decode`: percent-decodes `s`; `None` when the decoded bytes
/// are not valid UTF-8.
#[verifier::external_body]
pub(crate) fn url_decode(s: &str) -> (r: Option<String>)
    ensures
        match r {
            Some(d) => valid_utf8(percent_decoded(s.spec_bytes())) && d@ == decode_utf8(
                percent_decoded(s.spec_bytes()),
            ),
            None => !valid_utf8(percent_decoded(s.spec_bytes())),
        },
{
    match urlencoding::decode(s) {
        Ok(d) => Some(d.into_owned()),
        Err(_) => None,
    }
}

/// `urlencoding::encode`: percent-encodes the UTF-8 bytes of `s`.
#[verifier::external_body]
pub(crate) fn url_encode(s: &str) -> (r: String)
    ensures
        r@ == percent_encoded(s.spec_bytes()),
{
    urlencoding::encode(s).into_owned()
}

/// The MIME type `mime_guess` associates with the extension of a file name
/// (its first guess, as `type/subtype`), if it knows one.
pub uninterp spec fn guessed_mime(name: Seq<char>) -> Option<Seq<char>>;

/// `mime_guess::from_path(name).first()`, as the essence string.
#[verifier::external_body]
pub(crate) fn guess_mime(name: &str) -> (r: Option<String>)
    ensures
        match r {
            Some(m) => guessed_mime(name@) == Some(m@),
            None => guessed_mime(name@) is None,
        },
{
    match mime_guess::from_path(name).first() {
        Some(m) => Some(m.essence_str().to_string()),
        None => None,
    }
}

/// The list of strings that `serde_json` reads from a JSON text, if the text
/// is a JSON array of strings.
pub uninterp spec fn json_string_list(text: Seq<char>) -> Option<Seq<Seq<char>>>;

/// One character as `serde_json` writes it inside a JSON string: `"` and
/// `\` escaped with a backslash, backspace, tab, line feed, form feed and
/// carriage return by their short escapes, other control characters (below
/// U+0020) as `\u00` and two lower-case hex digits, everything else as is.
pub open spec fn json_escaped_char(c: char) -> Seq<char> {
    if c == '"' {
        seq!['\\', '"']
    } else if c == '\\' {
        seq!['\\', '\\']
    } else if c == '\u{8}' {
        seq!['\\', 'b']
    } else if c == '\t' {
        seq!['\\', 't']
    } else if c == '\n' {
        seq!['\\', 'n']
    } else if c == '\u{c}' {
        seq!['\\', 'f']
    } else if c == '\r' {
        seq!['\\', 'r']
    } else if (c as int) < 32 {
        seq!['\\', 'u', '0', '0', hex_digit_char(c as int / 16), hex_digit_char(c as int % 16)]
    } else {
        seq![c]
    }
}

/// A text with every character escaped for a JSON string.
pub open spec fn json_escaped(s: Seq<char>) -> Seq<char>
    decreases s.len(),
{
    if s.len() == 0 {
        s
    } else {
        json_escaped(s.drop_last()) + json_escaped_char(s.last())
    }
}

/// A JSON string literal.
pub open spec fn json_string(s: Seq<char>) -> Seq<char> {
    seq!['"'] + json_escaped(s) + seq!['"']
}

/// The JSON string literals of `items`, separated by `,`.
pub open spec fn json_items(items: Seq<Seq<char>>) -> Seq<char>
    decreases items.len(),
{
    if items.len() == 0 {
        Seq::empty()
    } else if items.len() == 1 {
        json_string(items[0])
    } else {
        json_items(items.drop_last()) + seq![','] + json_string(items.last())
    }
}

/// The compact JSON text `serde_json` writes for a list of strings: `[`, the
/// string literals separated by `,`, `]`.
pub open spec fn string_list_json(items: Seq<Seq<char>>) -> Seq<char> {
    seq!['['] + json_items(items) + seq![']']
}

/// `serde_json::from_str::<Vec<String>>`.
#[verifier::external_body]
pub(crate) fn parse_string_list(text: &str) -> (r: Option<Vec<String>>)
    ensures
        match r {
            Some(v) => json_string_list(text@) == Some(views(v@)),
            None => json_string_list(text@) is None,
        },
{
    match serde_json::from_str::<Vec<String>>(text) {
        Ok(v) => Some(v),
        Err(_) => None,
    }
}

/// `serde_json::to_string` of a list of strings: the compact JSON text of
/// `string_list_json`. Serializing strings cannot fail, and reading the text
/// back gives the same list.
#[verifier::external_body]
pub(crate) fn write_string_list(items: &Vec<String>) -> (r: Option<String>)
    ensures
        r is Some,
        r matches Some(t) ==> t@ == string_list_json(views(items@)),
        r matches Some(t) ==> json_string_list(t@) == Some(views(items@)),
{
    match serde_json::to_string(items) {
        Ok(t) => Some(t),
        Err(_) => None,
    }
}

/// What `serde_json` finds in a JSON document (given as bytes) at
/// `doc[list_key][index][key][field]`, where indexing something that is not
/// an object with that key or an array that long gives `null`: `None` when
/// the bytes are not JSON, `Some(None)` when the value found is not a string,
/// else `Some(Some(s))` with that string.
pub uninterp spec fn json_text_at(body: Seq<u8>, list_key: Seq<char>, index: usize, key: Seq<char>, field: Seq<char>) -> Option<Option<Seq<char>>>;

/// `serde_json::from_slice::<serde_json::Value>`, then indexing the value
/// (`Value`'s `Index`, which gives `null` where nothing is found) and
/// `Value::as_str`.
#[verifier::external_body]
pub(crate) fn json_text_at_path(body: &[u8], list_key: &str, index: usize, key: &str, field: &str) -> (r: Option<Option<String>>)
    ensures
        json_text_at(body@, list_key@, index, key@, field@) == match r {
            Some(Some(s)) => Some(Some(s@)),
            Some(None) => Some(None),
            None => None::<Option<Seq<char>>>,
        },
{
    match serde_json::from_slice::<serde_json::Value>(body) {
        Ok(v) => Some(v[list_key][index][key][field].as_str().map(String::from)),
        Err(_) => None,
    }
}

/// Bytes `http` accepts in a header value: visible ASCII, tab, and any byte
/// from 0x80 up.
pub open spec fn header_bytes_ok(bytes: Seq<u8>) -> bool {
    forall|i: int| 0 <= i < bytes.len() ==> ((#[trigger] bytes[i] >= 32 && bytes[i] != 127) || bytes[i] == 9)
}

/// Whether `http::HeaderValue::from_str` accepts `s`.
#[verifier::external_body]
pub(crate) fn header_value_allowed(s: &str) -> (r: bool)
    ensures
        r == header_bytes_ok(encode_utf8(s@)),
{
    axum::http::HeaderValue::from_str(s).is_ok()
}

} // verus!
