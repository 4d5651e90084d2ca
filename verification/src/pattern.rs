//! The regular-expression engine of the `regex` crate, seen through the
//! values it returns. Each pattern of the crawler is a literal; what the engine
//! returns for a pattern and a text is named here and not modelled further.
use vstd::prelude::*;

verus! {

/// What `Regex::is_match` returns for `pattern` (compiled with `Regex::new`) on `text`;
/// `false` when the pattern does not compile.
pub uninterp spec fn regex_is_match(pattern: Seq<char>, text: Seq<char>) -> bool;

/// What `Regex::captures` returns for `pattern` on `text`: for the leftmost-first match,
/// the text of every capture group (group 0 being the whole match), `None` for a group
/// that did not take part; `None` when there is no match or the pattern does not compile.
pub uninterp spec fn regex_captures(pattern: Seq<char>, text: Seq<char>) -> Option<Seq<Option<Seq<char>>>>;

/// What `Regex::captures_iter` yields for `pattern` on `text`: the capture groups of every
/// successive non-overlapping match; empty when the pattern does not compile.
pub uninterp spec fn regex_captures_all(pattern: Seq<char>, text: Seq<char>) -> Seq<Seq<Option<Seq<char>>>>;

/// What `Regex::replace(text, "")` returns for `pattern`: `text` with its leftmost-first
/// match removed; `text` itself when the pattern does not compile.
pub uninterp spec fn regex_remove_first(pattern: Seq<char>, text: Seq<char>) -> Seq<char>;

/// What `Regex::replace_all(text, "")` returns for `pattern`: `text` with every
/// non-overlapping match removed; `text` itself when the pattern does not compile.
pub uninterp spec fn regex_remove_all(pattern: Seq<char>, text: Seq<char>) -> Seq<char>;

/// Group `k` of a capture list; `None` past its end.
pub open spec fn group(caps: Seq<Option<Seq<char>>>, k: int) -> Option<Seq<char>> {
    if 0 <= k < caps.len() { caps[k] } else { None }
}

/// `Regex::new(pattern)` then `Regex::is_match(text)`.
#[verifier::external_body]
pub fn re_is_match(pattern: &str, text: &str) -> (r: bool)
    ensures
        r == regex_is_match(pattern@, text@),
{
    match regex::Regex::new(pattern) {
        Ok(re) => re.is_match(text),
        Err(_) => false,
    }
}

/// `Regex::new(pattern)` then `Regex::captures(text)`, each group as an owned string.
/// The crate documents that captures are found exactly when the text matches.
#[verifier::external_body]
pub fn re_captures(pattern: &str, text: &str) -> (r: Option<Vec<Option<String>>>)
    ensures
        r.deep_view() == regex_captures(pattern@, text@),
        r is Some <==> regex_is_match(pattern@, text@),
{
    let re = match regex::Regex::new(pattern) {
        Ok(re) => re,
        Err(_) => return None,
    };
    match re.captures(text) {
        Some(caps) => Some(caps.iter().map(|m| m.map(|m| m.as_str().to_string())).collect()),
        None => None,
    }
}

/// `Regex::new(pattern)` then `Regex::captures_iter(text)`, each group as an owned string.
#[verifier::external_body]
pub fn re_captures_all(pattern: &str, text: &str) -> (r: Vec<Vec<Option<String>>>)
    ensures
        r.deep_view() == regex_captures_all(pattern@, text@),
{
    let re = match regex::Regex::new(pattern) {
        Ok(re) => re,
        Err(_) => return Vec::new(),
    };
    re.captures_iter(text)
        .map(|caps| caps.iter().map(|m| m.map(|m| m.as_str().to_string())).collect())
        .collect()
}

/// `Regex::new(pattern)` then `Regex::replace(text, "")`.
#[verifier::external_body]
pub fn re_remove_first(pattern: &str, text: &str) -> (r: String)
    ensures
        r@ == regex_remove_first(pattern@, text@),
{
    match regex::Regex::new(pattern) {
        Ok(re) => re.replace(text, "").into_owned(),
        Err(_) => text.to_string(),
    }
}

/// `Regex::new(pattern)` then `Regex::replace_all(text, "")`.
#[verifier::external_body]
pub fn re_remove_all(pattern: &str, text: &str) -> (r: String)
    ensures
        r@ == regex_remove_all(pattern@, text@),
{
    match regex::Regex::new(pattern) {
        Ok(re) => re.replace_all(text, "").into_owned(),
        Err(_) => text.to_string(),
    }
}

/// Group `k` of a capture list, cloned.
pub fn group_at(caps: &Vec<Option<String>>, k: usize) -> (r: Option<String>)
    ensures
        r.deep_view() == group(caps.deep_view(), k as int),
{
    if k < caps.len() {
        match &caps[k] {
            Some(s) => Some(s.clone()),
            None => None,
        }
    } else {
        None
    }
}

/// Text of group `k` of a capture list; empty when that group did not take part.
pub open spec fn group_text(caps: Seq<Option<Seq<char>>>, k: int) -> Seq<char> {
    match group(caps, k) {
        Some(g) => g,
        None => Seq::empty(),
    }
}

/// Text of group `k` of the first match of `pattern` in `text`, if there is a match.
pub open spec fn capture(pattern: Seq<char>, text: Seq<char>, k: int) -> Option<Seq<char>> {
    match regex_captures(pattern, text) {
        Some(caps) => Some(group_text(caps, k)),
        None => None,
    }
}

pub fn capture_text(pattern: &str, text: &str, k: usize) -> (r: Option<String>)
    ensures
        r.deep_view() == capture(pattern@, text@, k as int),
{
    match re_captures(pattern, text) {
        Some(caps) => {
            match group_at(&caps, k) {
                Some(g) => Some(g),
                None => Some(String::new()),
            }
        },
        None => None,
    }
}

} // verus!
