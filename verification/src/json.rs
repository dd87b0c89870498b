//! The few JSON lookups the logic needs, made by `serde_json`.

use vstd::prelude::*;
use crate::text::{chars_of, push_char};

verus! {

/// Names what `serde_json` gives for member `key` of the JSON text `json`:
/// the member's compact JSON text when `json` is an object holding `key`.
pub uninterp spec fn json_member(json: Seq<char>, key: Seq<char>) -> Option<Seq<char>>;

/// Names what `serde_json` gives when the JSON text `json` is a string:
/// the string's contents.
pub uninterp spec fn json_str_value(json: Seq<char>) -> Option<Seq<char>>;


/// The compact JSON text of member `key`, when `json` parses to an object
/// that holds it (`serde_json::from_str`, `Value::get`, `Value::to_string`).
#[verifier::external_body]
pub(crate) fn member(json: &str, key: &str) -> (r: Option<String>)
    ensures
        match r {
            Some(s) => json_member(json@, key@) == Some(s@),
            None => json_member(json@, key@) is None,
        },
{
    serde_json::from_str::<serde_json::Value>(json).ok().and_then(|v| v.get(key).map(|m| m.to_string()))
}

/// The contents of `json` when it parses to a JSON string
/// (`serde_json::from_str`, `Value::as_str`).
#[verifier::external_body]
pub(crate) fn str_value(json: &str) -> (r: Option<String>)
    ensures
        match r {
            Some(s) => json_str_value(json@) == Some(s@),
            None => json_str_value(json@) is None,
        },
{
    serde_json::from_str::<serde_json::Value>(json).ok().and_then(|v| v.as_str().map(|s| s.to_string()))
}

/// The lowercase hexadecimal digit of `n` (below 16).
pub open spec fn hex_digit(n: int) -> char {
    if n == 0 { '0' } else if n == 1 { '1' } else if n == 2 { '2' } else if n == 3 { '3' }
    else if n == 4 { '4' } else if n == 5 { '5' } else if n == 6 { '6' } else if n == 7 { '7' }
    else if n == 8 { '8' } else if n == 9 { '9' } else if n == 10 { 'a' } else if n == 11 { 'b' }
    else if n == 12 { 'c' } else if n == 13 { 'd' } else if n == 14 { 'e' } else { 'f' }
}

/// How a JSON string writes one character: `"` and `\` escaped, the short
/// escapes for backspace, tab, line feed, form feed and carriage return,
/// `\u00XX` (lowercase hex) for the other control characters below 0x20, and
/// every other character as it is.
pub open spec fn escaped(c: char) -> Seq<char> {
    let n = c as int;
    if c == '"' {
        seq!['\\', '"']
    } else if c == '\\' {
        seq!['\\', '\\']
    } else if n == 8 {
        seq!['\\', 'b']
    } else if n == 9 {
        seq!['\\', 't']
    } else if n == 10 {
        seq!['\\', 'n']
    } else if n == 12 {
        seq!['\\', 'f']
    } else if n == 13 {
        seq!['\\', 'r']
    } else if n < 32 {
        seq!['\\', 'u', '0', '0', hex_digit(n / 16), hex_digit(n % 16)]
    } else {
        seq![c]
    }
}

/// The escaped characters of `s`, in order.
pub open spec fn escaped_all(s: Seq<char>) -> Seq<char>
    decreases s.len(),
{
    if s.len() == 0 {
        Seq::empty()
    } else {
        escaped_all(s.drop_last()) + escaped(s.last())
    }
}

/// The JSON text of the string `s`, as `serde_json` writes it: quoted, with
/// the characters escaped.
pub open spec fn json_quoted(s: Seq<char>) -> Seq<char> {
    seq!['"'] + escaped_all(s) + seq!['"']
}

fn hex_char(n: u32) -> (r: char)
    requires
        n < 16,
    ensures
        r == hex_digit(n as int),
{
    if n == 0 { '0' } else if n == 1 { '1' } else if n == 2 { '2' } else if n == 3 { '3' }
    else if n == 4 { '4' } else if n == 5 { '5' } else if n == 6 { '6' } else if n == 7 { '7' }
    else if n == 8 { '8' } else if n == 9 { '9' } else if n == 10 { 'a' } else if n == 11 { 'b' }
    else if n == 12 { 'c' } else if n == 13 { 'd' } else if n == 14 { 'e' } else { 'f' }
}

fn push_escaped(r: &mut String, c: char)
    ensures
        final(r)@ == old(r)@ + escaped(c),
{
    let n = c as u32;
    if c == '"' {
        push_char(r, '\\');
        push_char(r, '"');
    } else if c == '\\' {
        push_char(r, '\\');
        push_char(r, '\\');
    } else if n == 8 {
        push_char(r, '\\');
        push_char(r, 'b');
    } else if n == 9 {
        push_char(r, '\\');
        push_char(r, 't');
    } else if n == 10 {
        push_char(r, '\\');
        push_char(r, 'n');
    } else if n == 12 {
        push_char(r, '\\');
        push_char(r, 'f');
    } else if n == 13 {
        push_char(r, '\\');
        push_char(r, 'r');
    } else if n < 32 {
        push_char(r, '\\');
        push_char(r, 'u');
        push_char(r, '0');
        push_char(r, '0');
        push_char(r, hex_char(n / 16));
        push_char(r, hex_char(n % 16));
    } else {
        push_char(r, c);
    }
    proof {
        assert(final(r)@ =~= old(r)@ + escaped(c));
    }
}

/// The JSON text of the string `s`: quoted and escaped.
pub(crate) fn quote(s: &str) -> (r: String)
    ensures
        r@ == json_quoted(s@),
{
    let v = chars_of(s);
    let mut r = String::new();
    push_char(&mut r, '"');
    let mut i: usize = 0;
    while i < v.len()
        invariant
            i <= v@.len(),
            v@ == s@,
            r@ == seq!['"'] + escaped_all(v@.take(i as int)),
        decreases v@.len() - i,
    {
        proof {
            assert(v@.take(i + 1).drop_last() =~= v@.take(i as int));
            assert(v@.take(i + 1).last() == v@[i as int]);
        }
        let ghost before = r@;
        push_escaped(&mut r, v[i]);
        proof {
            assert(r@ =~= seq!['"'] + escaped_all(v@.take(i + 1)));
        }
        i = i + 1;
    }
    proof {
        assert(v@.take(v@.len() as int) =~= v@);
    }
    push_char(&mut r, '"');
    r
}

/// Names what `serde_json` gives when the JSON text `json` is an array: the
/// compact JSON text of each element, in order.
pub uninterp spec fn json_items(json: Seq<char>) -> Option<Seq<Seq<char>>>;

/// Names what `serde_json` gives when the JSON text `json` is a number that
/// a `u64` holds.
pub uninterp spec fn json_u64(json: Seq<char>) -> Option<u64>;

/// Names the compact JSON text `serde_json` writes back for `json`, when
/// `json` parses.
pub uninterp spec fn json_compact(json: Seq<char>) -> Option<Seq<char>>;

/// The elements of `json` when it parses to an array, each as compact JSON
/// text (`serde_json::from_str`, `Value::as_array`, `Value::to_string`).
#[verifier::external_body]
pub(crate) fn items(json: &str) -> (r: Option<Vec<String>>)
    ensures
        match r {
            Some(v) => json_items(json@) == Some(v@.map_values(|x: String| x@)),
            None => json_items(json@) is None,
        },
{
    serde_json::from_str::<serde_json::Value>(json).ok().and_then(
        |v| v.as_array().map(|a| a.iter().map(|x| x.to_string()).collect()),
    )
}

/// The value of `json` when it parses to a number that fits a `u64`
/// (`serde_json::from_str`, `Value::as_u64`).
#[verifier::external_body]
pub(crate) fn u64_value(json: &str) -> (r: Option<u64>)
    ensures
        r == json_u64(json@),
{
    serde_json::from_str::<serde_json::Value>(json).ok().and_then(|v| v.as_u64())
}

/// The compact JSON text of `json` when it parses
/// (`serde_json::from_str`, `Value::to_string`).
#[verifier::external_body]
pub(crate) fn compact(json: &str) -> (r: Option<String>)
    ensures
        match r {
            Some(s) => json_compact(json@) == Some(s@),
            None => json_compact(json@) is None,
        },
{
    serde_json::from_str::<serde_json::Value>(json).ok().map(|v| v.to_string())
}

/// The string value of member `key` of the JSON object text `json`.
pub open spec fn str_member(json: Seq<char>, key: Seq<char>) -> Option<Seq<char>> {
    match json_member(json, key) {
        Some(m) => json_str_value(m),
        None => None,
    }
}

/// The string value of member `key`, if the member exists and is a string.
pub fn str_member_of(json: &str, key: &str) -> (r: Option<String>)
    ensures
        match r {
            Some(s) => str_member(json@, key@) == Some(s@),
            None => str_member(json@, key@) is None,
        },
{
    match member(json, key) {
        Some(m) => str_value(m.as_str()),
        None => None,
    }
}

} // verus!
