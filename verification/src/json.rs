//! The JSON that the library reads and writes through `serde_json`.

use vstd::prelude::*;
use crate::text::views;

verus! {

/// `serde_json::Error`, the error of a failed parse.
#[verifier::external_type_specification]
#[verifier::external_body]
pub struct ExJsonError(serde_json::Error);

/// The strings of `text` when `text` is a JSON array of strings, in order;
/// `None` when it is not.
pub uninterp spec fn json_string_array(text: Seq<char>) -> Option<Seq<Seq<char>>>;

/// The strings of a JSON array of strings, or none when `text` is not one.
pub open spec fn string_array_or_empty(text: Seq<char>) -> Seq<Seq<char>> {
    match json_string_array(text) {
        Some(list) => list,
        None => Seq::empty(),
    }
}

/// `serde_json::from_str::<Vec<String>>`: the strings of a JSON array of
/// strings, or the parse error. The contract claims that the result depends on
/// the text alone: `Ok` exactly when the named value is `Some`, holding its
/// strings. What counts as such an array is left to `serde_json`.
#[verifier::external_body]
pub(crate) fn string_list_from_json(text: &str) -> (r: Result<Vec<String>, serde_json::Error>)
    ensures
        (r is Ok) == (json_string_array(text@) is Some),
        r matches Ok(v) ==> json_string_array(text@) == Some(views(v@)),
{
    serde_json::from_str(text)
}

/// The strings that a parse gave, or none when it failed.
pub fn strings_or_empty(parsed: Result<Vec<String>, serde_json::Error>) -> (r: Vec<String>)
    ensures
        match parsed {
            Ok(list) => r == list,
            Err(_) => r@.len() == 0,
        },
{
    match parsed {
        Ok(list) => list,
        Err(_) => Vec::new(),
    }
}

/// The lower-case hexadecimal digit of `n < 16`.
pub open spec fn hex_digit(n: int) -> char {
    if n < 10 { (48 + n) as char } else { (87 + n) as char }
}

/// How `serde_json` writes one character inside a JSON string literal.
pub open spec fn json_escape(c: char) -> Seq<char> {
    if c == '"' {
        seq!['\\', '"']
    } else if c == '\\' {
        seq!['\\', '\\']
    } else if c == '\u{8}' {
        seq!['\\', 'b']
    } else if c == '\t' {
        seq!['\\', 't']
    } else if c == '\n' {
        seq!['\\', 'n']
    } else if c == '\u{c}' {
        seq!['\\', 'f']
    } else if c == '\r' {
        seq!['\\', 'r']
    } else if (c as int) < 0x20 {
        seq!['\\', 'u', '0', '0', hex_digit((c as int) / 16), hex_digit((c as int) % 16)]
    } else {
        seq![c]
    }
}

/// The escaped characters of `s`, in order.
pub open spec fn json_escaped(s: Seq<char>) -> Seq<char>
    decreases s.len(),
{
    if s.len() == 0 {
        Seq::empty()
    } else {
        json_escaped(s.drop_last()) + json_escape(s.last())
    }
}

/// `s` as a JSON string literal, quotes included.
pub open spec fn json_quoted(s: Seq<char>) -> Seq<char> {
    seq!['"'] + json_escaped(s) + seq!['"']
}

/// `serde_json::to_string` on a `str`. Its source writes the quoted, escaped
/// string into a `Vec<u8>`, where no write fails, so it returns `Ok`; the
/// contract states that, and the text: `"`, `\` and the control characters
/// below U+0020 escaped (`\b`, `\t`, `\n`, `\f`, `\r`, else `\u00xx` in lower
/// case), every other character as it is.
#[verifier::external_body]
pub(crate) fn str_to_json(value: &str) -> (r: Result<String, serde_json::Error>)
    ensures
        r is Ok,
        r->Ok_0@ == json_quoted(value@),
{
    serde_json::to_string(value)
}

} // verus!
