//! Compact JSON text of the values the crawler stores as JSON: string literals as
//! `serde_json` writes them, objects with their keys in ascending order.
use vstd::prelude::*;
use crate::text::{decimal, join, push_char, push_decimal, push_str};

verus! {

/// The lower-case hexadecimal digit of `n < 16`.
pub open spec fn hex_nibble(n: u32) -> char {
    if n < 10 { ((48 + n) as u8) as char } else { ((87 + n) as u8) as char }
}

/// The JSON text of one character inside a string literal: `"` and `\` and the control
/// characters below U+0020 are escaped (`\b \t \n \f \r`, else `\u00XX`); every other
/// character stands for itself.
pub open spec fn json_escape_char(c: char) -> Seq<char> {
    if c == '"' {
        seq!['\\', '"']
    } else if c == '\\' {
        seq!['\\', '\\']
    } else if c == '\u{8}' {
        seq!['\\', 'b']
    } else if c == '\u{c}' {
        seq!['\\', 'f']
    } else if c == '\n' {
        seq!['\\', 'n']
    } else if c == '\r' {
        seq!['\\', 'r']
    } else if c == '\t' {
        seq!['\\', 't']
    } else if (c as u32) < 0x20 {
        seq!['\\', 'u', '0', '0', hex_nibble((c as u32) / 16), hex_nibble((c as u32) % 16)]
    } else {
        seq![c]
    }
}

pub open spec fn json_escaped(s: Seq<char>) -> Seq<char>
    decreases s.len(),
{
    if s.len() == 0 {
        Seq::empty()
    } else {
        json_escaped(s.drop_last()) + json_escape_char(s.last())
    }
}

/// A JSON string literal.
pub open spec fn json_string(s: Seq<char>) -> Seq<char> {
    seq!['"'] + json_escaped(s) + seq!['"']
}

pub open spec fn json_opt_string(o: Option<Seq<char>>) -> Seq<char> {
    match o {
        Some(s) => json_string(s),
        None => "null"@,
    }
}

pub open spec fn json_bool(b: bool) -> Seq<char> {
    if b { "true"@ } else { "false"@ }
}

/// A JSON array of already rendered values.
pub open spec fn json_array(items: Seq<Seq<char>>) -> Seq<char> {
    seq!['['] + join(items, seq![',']) + seq![']']
}

/// A JSON object member `"key":value`, `key` needing no escape.
pub open spec fn json_member(key: Seq<char>, value: Seq<char>) -> Seq<char> {
    seq!['"'] + key + seq!['"', ':'] + value
}

/// A JSON object of already rendered members, in the order given.
pub open spec fn json_object(members: Seq<Seq<char>>) -> Seq<char> {
    seq!['{'] + join(members, seq![',']) + seq!['}']
}

/// `serde_json::to_string` of a string: its JSON string literal. `serde_json`'s serializer
/// (`format_escaped_str`, with its `ESCAPE` table) writes a quote, each character with `"`
/// and `\` escaped, `\b \t \n \f \r` for those controls and `\u00XX` (lower-case hex) for the
/// other characters below U+0020, then a quote; serializing into a `Vec` cannot fail, so the
/// error arm is never taken.
#[verifier::external_body]
fn serde_string_literal(s: &str) -> (r: String)
    ensures
        r@ == json_string(s@),
{
    match serde_json::to_string(s) {
        Ok(text) => text,
        Err(_) => String::new(),
    }
}

/// Appends a JSON string literal.
pub fn push_json_string(out: &mut String, s: &str)
    ensures
        final(out)@ == old(out)@ + json_string(s@),
{
    let literal = serde_string_literal(s);
    push_str(out, literal.as_str());
}

/// Appends a JSON string literal, or `null`.
pub fn push_json_opt_string(out: &mut String, o: &Option<String>)
    ensures
        final(out)@ == old(out)@ + json_opt_string(o.deep_view()),
{
    match o {
        Some(s) => push_json_string(out, s.as_str()),
        None => {
            push_str(out, "null");
        },
    }
}

pub fn push_json_bool(out: &mut String, b: bool)
    ensures
        final(out)@ == old(out)@ + json_bool(b),
{
    if b {
        push_str(out, "true");
    } else {
        push_str(out, "false");
    }
}

/// Appends `"key":`, `key` needing no escape.
pub fn push_json_key(out: &mut String, key: &str)
    ensures
        final(out)@ == old(out)@ + seq!['"'] + key@ + seq!['"', ':'],
{
    push_char(out, '"');
    push_str(out, key);
    push_char(out, '"');
    push_char(out, ':');
}

/// The JSON text of a decimal number.
pub fn push_json_u32(out: &mut String, n: u32)
    ensures
        final(out)@ == old(out)@ + decimal(n as nat),
{
    push_decimal(out, n as u64);
}

/// Joining one more part: the part alone, or a separator and the part.
pub proof fn lemma_join_take_step(parts: Seq<Seq<char>>, sep: Seq<char>, i: int)
    requires
        0 <= i < parts.len(),
    ensures
        join(parts.take(i + 1), sep) == if i == 0 { parts[0] } else { join(parts.take(i), sep) + sep + parts[i] },
{
    assert(parts.take(i + 1).drop_last() =~= parts.take(i));
    assert(parts.take(i + 1).last() == parts[i]);
    if i == 0 {
        assert(parts.take(1)[0] == parts[0]);
    }
}

/// A JSON string literal.
pub fn json_string_of(s: &str) -> (r: String)
    ensures
        r@ == json_string(s@),
{
    serde_string_literal(s)
}

/// A JSON object member `"key":value`, `value` already rendered.
pub fn json_member_of(key: &str, value: &str) -> (r: String)
    ensures
        r@ == json_member(key@, value@),
{
    let mut out = String::new();
    push_json_key(&mut out, key);
    push_str(&mut out, value);
    assert(out@ =~= json_member(key@, value@));
    out
}

/// A JSON object of already rendered members.
pub fn json_object_of(members: &Vec<String>) -> (r: String)
    ensures
        r@ == json_object(members.deep_view()),
{
    let body = crate::text::join_strs(members.as_slice(), ",");
    proof {
        reveal_strlit(",");
        assert(","@ =~= seq![',']);
    }
    let mut out = String::new();
    push_char(&mut out, '{');
    push_str(&mut out, body.as_str());
    push_char(&mut out, '}');
    assert(out@ =~= json_object(members.deep_view()));
    out
}

/// A JSON array of already rendered values.
pub fn json_array_of(items: &Vec<String>) -> (r: String)
    ensures
        r@ == json_array(items.deep_view()),
{
    let body = crate::text::join_strs(items.as_slice(), ",");
    proof {
        reveal_strlit(",");
        assert(","@ =~= seq![',']);
    }
    let mut out = String::new();
    push_char(&mut out, '[');
    push_str(&mut out, body.as_str());
    push_char(&mut out, ']');
    assert(out@ =~= json_array(items.deep_view()));
    out
}

} // verus!
