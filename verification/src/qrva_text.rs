//! Identifiers and references of the written-question (QRVA) records.
use vstd::prelude::*;
use crate::pattern::{capture, capture_text, group, re_captures_all, regex_captures_all, group_at};
use crate::text::{
    decimal, decimal_int, i64_to_string, owned, push_char, push_decimal, push_str, starts_with,
    strings_contain, strip_leading, strip_leading_str, to_upper, u64_to_string, uppercase, trim, trim_str, join,
    join_strs,
};

verus! {

/// Base URL of the Chamber open-data API.
pub const QRVA_API_BASE: &'static str = "https://data.lachambre.be/v0";

/// An actor id in brackets, as the author field ends: `(07772)`.
pub const AUT_ACTR_PATTERN: &'static str = r"\((\d{4,6})\)";
/// An oral question reference: `Q…`, `MV …`, `QO …`, or `(Q…)`.
pub const ORAL_REF_PATTERN: &'static str = r"(?i)(?:\b(?:Q|MV|QO)\s*(\d{6,8}[A-Za-z])|\(Q(\d{6,8}[A-Za-z])\))";

/// The actor id of an author field: the bracketed digits, without leading zeros; `None`
/// when there are none or only zeros.
pub open spec fn aut_actr_id(aut: Seq<char>) -> Option<Seq<char>> {
    match capture(AUT_ACTR_PATTERN@, aut, 1) {
        Some(g) => if strip_leading(g, '0').len() == 0 { None } else { Some(strip_leading(g, '0')) },
        None => None,
    }
}

/// Parse Chamber actor id from AUT field, e.g. `Tine Gielis, cd&v (07772)` → `7772`.
pub fn parse_aut_actr_id(aut: &str) -> (r: Option<String>)
    ensures
        r.deep_view() == aut_actr_id(aut@),
{
    match capture_text(AUT_ACTR_PATTERN, aut, 1) {
        Some(g) => {
            let s = strip_leading_str(g.as_str(), '0');
            if s.as_str().is_empty() {
                None
            } else {
                Some(s)
            }
        },
        None => None,
    }
}

/// `n` copies of `c`.
pub open spec fn repeat_char(c: char, n: nat) -> Seq<char> {
    Seq::new(n, |_i: int| c)
}

/// `s` padded on the left with `0` to four characters (`{:0>4}`).
pub open spec fn zero_pad4(s: Seq<char>) -> Seq<char> {
    if s.len() < 4 { repeat_char('0', (4 - s.len()) as nat) + s } else { s }
}

/// `O` and the actor id without leading zeros, padded with zeros to four digits.
pub open spec fn person_id_of(actr_id: Seq<char>) -> Seq<char> {
    seq!['O'] + zero_pad4(strip_leading(actr_id, '0'))
}

/// Map QRVA actor id to cvview person_id (`O7772`).
pub fn actr_id_to_person_id(actr_id: &str) -> (r: String)
    ensures
        r@ == person_id_of(actr_id@),
{
    let digits = strip_leading_str(actr_id, '0');
    let mut out = String::new();
    push_char(&mut out, 'O');
    let n = digits.as_str().unicode_len();
    let mut pad: usize = if n < 4 { 4 - n } else { 0 };
    let ghost want = if n < 4 { (4 - n) as nat } else { 0nat };
    assert(digits@.len() == n);
    while pad > 0
        invariant
            pad <= want,
            want <= 4,
            out@ == seq!['O'] + repeat_char('0', (want - pad) as nat),
        decreases pad,
    {
        push_char(&mut out, '0');
        proof {
            assert(repeat_char('0', (want - pad + 1) as nat) =~= repeat_char('0', (want - pad) as nat).push('0'));
        }
        pad = pad - 1;
    }
    push_str(&mut out, digits.as_str());
    proof {
        if n < 4 {
            assert(out@ =~= seq!['O'] + (repeat_char('0', want) + digits@));
        } else {
            assert(repeat_char('0', 0) =~= Seq::<char>::empty());
            assert(out@ =~= seq!['O'] + digits@);
        }
    }
    out
}

/// `{session_id}_written_{docname}`.
pub open spec fn written_question_id_spec(session_id: u32, docname: Seq<char>) -> Seq<char> {
    decimal(session_id as nat) + "_written_"@ + docname
}

pub fn written_question_id(session_id: u32, docname: &str) -> (r: String)
    ensures
        r@ == written_question_id_spec(session_id, docname@),
{
    let mut s = u64_to_string(session_id as u64);
    push_str(&mut s, "_written_");
    push_str(&mut s, docname);
    s
}

/// `{session_id}_qrva_{api_id}`.
pub open spec fn route_id_spec(session_id: u32, api_id: i64) -> Seq<char> {
    decimal(session_id as nat) + "_qrva_"@ + decimal_int(api_id as int)
}

pub fn route_id(session_id: u32, api_id: i64) -> (r: String)
    ensures
        r@ == route_id_spec(session_id, api_id),
{
    let mut s = u64_to_string(session_id as u64);
    push_str(&mut s, "_qrva_");
    let t = i64_to_string(api_id);
    push_str(&mut s, t.as_str());
    s
}

/// `{route}_a{slot}`.
pub open spec fn qrva_answer_id_spec(route: Seq<char>, slot: u8) -> Seq<char> {
    route + "_a"@ + decimal(slot as nat)
}

pub fn qrva_answer_id(route: &str, slot: u8) -> (r: String)
    ensures
        r@ == qrva_answer_id_spec(route@, slot),
{
    let mut s = owned(route);
    push_str(&mut s, "_a");
    push_decimal(&mut s, slot as u64);
    s
}

/// `{question_id}_a1`.
pub fn inline_answer_id(question_id: &str) -> (r: String)
    ensures
        r@ == question_id@ + "_a1"@,
{
    let mut s = owned(question_id);
    push_str(&mut s, "_a1");
    s
}

/// `ext:role:dept:{deptnum}`.
pub fn department_external_id(deptnum: &str) -> (r: String)
    ensures
        r@ == "ext:role:dept:"@ + deptnum@,
{
    let mut s = owned("ext:role:dept:");
    push_str(&mut s, deptnum);
    s
}

/// `DO {docname}`.
pub fn docname_internal_id(docname: &str) -> (r: String)
    ensures
        r@ == "DO "@ + docname@,
{
    let mut s = owned("DO ");
    push_str(&mut s, docname);
    s
}

/// The reference of one oral-reference match: group 1, else group 2, upper-cased, with
/// `Q` put in front when it does not start with one; `None` when both groups are empty.
pub open spec fn oral_ref_of(caps: Seq<Option<Seq<char>>>) -> Option<Seq<char>> {
    let raw = match group(caps, 1) {
        Some(g) => g,
        None => match group(caps, 2) {
            Some(g) => g,
            None => Seq::empty(),
        },
    };
    let id = uppercase(raw);
    if id.len() == 0 {
        None
    } else if starts_with(id, seq!['Q']) {
        Some(id)
    } else {
        Some(seq!['Q'] + id)
    }
}

/// The references of the matches, in order of first appearance, once each.
pub open spec fn oral_refs_fold(all: Seq<Seq<Option<Seq<char>>>>) -> Seq<Seq<char>>
    decreases all.len(),
{
    if all.len() == 0 {
        Seq::empty()
    } else {
        let prev = oral_refs_fold(all.drop_last());
        match oral_ref_of(all.last()) {
            Some(id) => if prev.contains(id) { prev } else { prev.push(id) },
            None => prev,
        }
    }
}

/// Extract oral control refs from titles/text (`Q56016772C`, `MV 009725C`, …).
pub fn parse_oral_refs(text: &str) -> (r: Vec<String>)
    ensures
        r.deep_view() == oral_refs_fold(regex_captures_all(ORAL_REF_PATTERN@, text@)),
{
    let all = re_captures_all(ORAL_REF_PATTERN, text);
    let mut refs: Vec<String> = Vec::new();
    let mut i: usize = 0;
    while i < all.len()
        invariant
            i <= all.len(),
            all.deep_view() == regex_captures_all(ORAL_REF_PATTERN@, text@),
            refs.deep_view() == oral_refs_fold(all.deep_view().take(i as int)),
        decreases all.len() - i,
    {
        let caps = &all[i];
        proof {
            assert(all.deep_view().take(i + 1).drop_last() =~= all.deep_view().take(i as int));
            assert(all.deep_view().take(i + 1).last() == caps.deep_view());
        }
        let raw = match group_at(caps, 1) {
            Some(g) => g,
            None => match group_at(caps, 2) {
                Some(g) => g,
                None => String::new(),
            },
        };
        let id = to_upper(raw.as_str());
        if !id.as_str().is_empty() {
            proof {
                reveal_strlit("Q");
                assert("Q"@ =~= seq!['Q']);
            }
            let normalized = if crate::text::str_starts_with(id.as_str(), "Q") {
                id
            } else {
                let mut q = String::new();
                push_char(&mut q, 'Q');
                push_str(&mut q, id.as_str());
                q
            };
            if !strings_contain(&refs, normalized.as_str()) {
                let ghost prev = refs.deep_view();
                refs.push(normalized);
                assert(refs.deep_view() =~= prev.push(normalized@));
            }
        }
        i = i + 1;
    }
    assert(all.deep_view().take(all.len() as int) =~= all.deep_view());
    refs
}

/// `{QRVA_API_BASE}/qrva/{sdocname}`.
pub fn qrva_detail_url(sdocname: &str) -> (r: String)
    ensures
        r@ == QRVA_API_BASE@ + "/qrva/"@ + sdocname@,
{
    let mut s = owned(QRVA_API_BASE);
    push_str(&mut s, "/qrva/");
    push_str(&mut s, sdocname);
    s
}

/// A QRVA API text field as plain values.
pub enum QrvaText {
    Null,
    Str(String),
    /// An object: its `br` member when that is an array (each item's text when it is a
    /// string), and its `text` member when that is a string.
    Object { br: Option<Vec<Option<String>>>, text: Option<String> },
    /// An array: each item's text when it is a string.
    Array(Vec<Option<String>>),
    /// A number or a boolean.
    Other,
}

/// The string items of a list, trimmed, the blank ones dropped.
pub open spec fn trimmed_string_items(parts: Seq<Option<Seq<char>>>) -> Seq<Seq<char>>
    decreases parts.len(),
{
    if parts.len() == 0 {
        Seq::empty()
    } else {
        let prev = trimmed_string_items(parts.drop_last());
        match parts.last() {
            Some(s) => if trim(s).len() > 0 { prev.push(trim(s)) } else { prev },
            None => prev,
        }
    }
}

/// The text of a QRVA field: a string trimmed; the string items of an array (or of an
/// object's `br` array) trimmed, blank ones dropped, one per line; an object's `text`
/// string trimmed; empty otherwise.
pub open spec fn qrva_text_of(v: QrvaText) -> Seq<char> {
    match v {
        QrvaText::Null => Seq::empty(),
        QrvaText::Str(s) => trim(s@),
        QrvaText::Object { br, text } => match br {
            Some(parts) => join(trimmed_string_items(parts.deep_view()), seq!['\n']),
            None => match text {
                Some(t) => trim(t@),
                None => Seq::empty(),
            },
        },
        QrvaText::Array(parts) => join(trimmed_string_items(parts.deep_view()), seq!['\n']),
        QrvaText::Other => Seq::empty(),
    }
}

fn join_trimmed_items(parts: &Vec<Option<String>>) -> (r: String)
    ensures
        r@ == join(trimmed_string_items(parts.deep_view()), seq!['\n']),
{
    let mut kept: Vec<String> = Vec::new();
    let mut i: usize = 0;
    while i < parts.len()
        invariant
            i <= parts@.len(),
            kept.deep_view() == trimmed_string_items(parts.deep_view().take(i as int)),
        decreases parts.len() - i,
    {
        proof {
            assert(parts.deep_view().take(i + 1).drop_last() =~= parts.deep_view().take(i as int));
        }
        match &parts[i] {
            Some(s) => {
                let t = trim_str(s.as_str());
                if t.as_str().unicode_len() > 0 {
                    let ghost before = kept.deep_view();
                    kept.push(t);
                    assert(kept.deep_view() =~= before.push(trim(s@)));
                }
            },
            None => {},
        }
        i = i + 1;
    }
    assert(parts.deep_view().take(parts@.len() as int) =~= parts.deep_view());
    proof {
        reveal_strlit("\n");
        assert("\n"@ =~= seq!['\n']);
    }
    join_strs(kept.as_slice(), "\n")
}

/// Flatten QRVA API text fields (`{"br": ["…"]}` or plain string).
pub fn flatten_qrva_text(value: &QrvaText) -> (r: String)
    ensures
        r@ == qrva_text_of(*value),
{
    match value {
        QrvaText::Null => String::new(),
        QrvaText::Str(s) => trim_str(s.as_str()),
        QrvaText::Object { br, text } => match br {
            Some(parts) => join_trimmed_items(parts),
            None => match text {
                Some(t) => trim_str(t.as_str()),
                None => String::new(),
            },
        },
        QrvaText::Array(parts) => join_trimmed_items(parts),
        QrvaText::Other => String::new(),
    }
}

} // verus!
