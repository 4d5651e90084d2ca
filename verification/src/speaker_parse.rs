//! Speaker turns of a meeting report: where a turn starts and who speaks.
use vstd::prelude::*;
use std::collections::BTreeSet;
use crate::pattern::{capture, capture_text, re_is_match, re_remove_first, regex_is_match, regex_remove_first};
use crate::report_blocks::{BlockTag, ReportBlock};
use crate::text::{
    contains, from_char_range, lowercase, owned, parse_u32, parse_u32_str, split, split_str,
    str_contains, str_eq, to_chars, to_lower, trim, trim_str,
};

verus! {

broadcast use {vstd::std_specs::btree::group_btree_axioms, vstd::laws_cmp::group_laws_cmp};

#[derive(Debug, Clone, Copy, PartialEq, Eq, Structural)]
pub enum SpeakerRole {
    Mp,
    Minister,
    Chair,
    External,
    Unknown,
}

impl SpeakerRole {
    pub open spec fn name(self) -> Seq<char> {
        match self {
            SpeakerRole::Mp => "mp"@,
            SpeakerRole::Minister => "minister"@,
            SpeakerRole::Chair => "chair"@,
            SpeakerRole::External => "external"@,
            SpeakerRole::Unknown => "unknown"@,
        }
    }

    pub fn as_str(self) -> (r: &'static str)
        ensures
            r@ == self.name(),
    {
        match self {
            SpeakerRole::Mp => "mp",
            SpeakerRole::Minister => "minister",
            SpeakerRole::Chair => "chair",
            SpeakerRole::External => "external",
            SpeakerRole::Unknown => "unknown",
        }
    }
}

pub enum TurnStart {
    Numbered { turn_number: String, raw_label: String },
    GenericChair,
    NamedChair { raw_name: String },
}

pub struct ParsedSpeaker {
    pub raw_speaker: String,
    pub speaker_role: SpeakerRole,
    pub party: Option<String>,
}

/// A numbered turn marker, `01.02 Name (Party):` or the intervention form `01.021`.
pub const TURN_START_PATTERN: &'static str = r"(?xi)^\s*
            (?P<turn>\d{2}\.\d{2}\d?)
            [\s\u00A0\u202F\u00AD]*
            (?P<label>[^:]+?)
            \s*:\s*
            ";
/// The chair without a name.
pub const CHAIR_GENERIC_PATTERN: &'static str = r"(?i)^\s*(?:De\s+voorzitter|Le\s+président)\s*:\s*";
/// A named chair: `Name, voorzitter:`.
pub const CHAIR_NAMED_PATTERN: &'static str = r"(?i)^\s*(?P<name>[^:\n]{3,80}),\s*(?:voorzitter|président|president)\s*:\s*";
/// A leading title before a speaker's name.
pub const TITLES_PREFIX_PATTERN: &'static str = r"(?i)^(Minister|De heer|Mevrouw|Le ministre|La ministre|Monsieur|Madame|Eerste minister|Staatssecretaris)\s+";
/// A trailing ministerial or rapporteur role.
pub const ROLE_SUFFIX_PATTERN: &'static str = r"(?i),\s*(?:ministre|minister|staatssecretaris|rapporteur)(?:\s+[^,]+)?$";
/// A trailing party in parentheses.
pub const PARTY_SUFFIX_PATTERN: &'static str = r"\(([^)]+)\)\s*$";
/// Article references, which look like turn markers.
pub const ARTICLE_PATTERN: &'static str = r"(?i)(?:artikel|article|articles|artikelen)";

/// A turn start as plain values: its kind (0 numbered, 1 generic chair, 2 named chair) and
/// its two texts (turn number and label, or the chair's name).
pub open spec fn turn_view(t: TurnStart) -> (int, Seq<char>, Seq<char>) {
    match t {
        TurnStart::Numbered { turn_number, raw_label } => (0, turn_number@, raw_label@),
        TurnStart::GenericChair => (1, Seq::empty(), Seq::empty()),
        TurnStart::NamedChair { raw_name } => (2, raw_name@, Seq::empty()),
    }
}

/// UTF-8 length of a text, as `str::len` reports it.
pub open spec fn byte_len(s: Seq<char>) -> int {
    (vstd::utf8::encode_utf8(s).len() as usize) as int
}

/// The turn marker at the start of a paragraph and the length in UTF-8 bytes of the
/// trimmed paragraph's marker: a numbered turn, else the chair, else a named chair. A
/// paragraph whose first 120 characters mention an article starts a turn only when its
/// marker is numbered.
pub open spec fn turn_start_of(paragraph: Seq<char>) -> Option<((int, Seq<char>, Seq<char>), int)> {
    let t = trim(paragraph);
    let prefix = t.take(if t.len() < 120 { t.len() as int } else { 120 });
    if t.len() == 0 {
        None
    } else if regex_is_match(ARTICLE_PATTERN@, prefix) && !regex_is_match(TURN_START_PATTERN@, t) {
        None
    } else if regex_is_match(TURN_START_PATTERN@, t) {
        let caps = crate::pattern::regex_captures(TURN_START_PATTERN@, t)->0;
        Some(((0, crate::pattern::group_text(caps, 1), trim(crate::pattern::group_text(caps, 2))), byte_len(crate::pattern::group_text(caps, 0))))
    } else if regex_is_match(CHAIR_GENERIC_PATTERN@, t) {
        let caps = crate::pattern::regex_captures(CHAIR_GENERIC_PATTERN@, t)->0;
        Some(((1, Seq::empty(), Seq::empty()), byte_len(crate::pattern::group_text(caps, 0))))
    } else if regex_is_match(CHAIR_NAMED_PATTERN@, t) {
        let caps = crate::pattern::regex_captures(CHAIR_NAMED_PATTERN@, t)->0;
        Some(((2, trim(crate::pattern::group_text(caps, 1)), Seq::empty()), byte_len(crate::pattern::group_text(caps, 0))))
    } else {
        None
    }
}

fn first_chars(t: &str, n: usize) -> (r: String)
    ensures
        r@ == t@.take(if t@.len() < n { t@.len() as int } else { n as int }),
{
    let v = to_chars(t);
    let end = if v.len() < n { v.len() } else { n };
    from_char_range(&v, 0, end)
}

/// The capture groups of a pattern that is known to match.
fn captures_of(pattern: &str, text: &str) -> (r: Vec<Option<String>>)
    requires
        regex_is_match(pattern@, text@),
    ensures
        r.deep_view() == crate::pattern::regex_captures(pattern@, text@)->0,
{
    match crate::pattern::re_captures(pattern, text) {
        Some(caps) => caps,
        None => Vec::new(),
    }
}

fn group_string(caps: &Vec<Option<String>>, k: usize) -> (r: String)
    ensures
        r@ == crate::pattern::group_text(caps.deep_view(), k as int),
{
    match crate::pattern::group_at(caps, k) {
        Some(g) => g,
        None => String::new(),
    }
}

/// The turn marker that starts a paragraph, if any, with the length in UTF-8 bytes of the
/// marker in the trimmed paragraph.
/// How a paragraph opens a turn: a blank paragraph opens none; a paragraph whose trimmed
/// text matches the numbered turn form always opens a numbered turn, with the form's turn
/// number and its trimmed speaker label, whatever else it matches; a paragraph that matches
/// none of the three turn forms opens none.
pub proof fn lemma_turn_start_law(paragraph: Seq<char>)
    ensures
        trim(paragraph).len() == 0 ==> turn_start_of(paragraph) is None,
        regex_is_match(TURN_START_PATTERN@, trim(paragraph)) && trim(paragraph).len() > 0 ==> ({
            let caps = crate::pattern::regex_captures(TURN_START_PATTERN@, trim(paragraph))->0;
            turn_start_of(paragraph) matches Some((tv, _)) && tv == (0int, crate::pattern::group_text(caps, 1), trim(
                crate::pattern::group_text(caps, 2),
            ))
        }),
        !regex_is_match(TURN_START_PATTERN@, trim(paragraph)) && !regex_is_match(CHAIR_GENERIC_PATTERN@, trim(paragraph))
            && !regex_is_match(CHAIR_NAMED_PATTERN@, trim(paragraph)) ==> turn_start_of(paragraph) is None,
{
}

/// A speaker's name is never empty unless the label is blank: when nothing is left once
/// title, party and role are taken off, the trimmed label itself is the name.
pub proof fn lemma_speaker_name_law(raw_label: Seq<char>, item_kind: Seq<char>)
    ensures
        speaker_of(raw_label, item_kind).0.len() > 0 || trim(raw_label).len() == 0,
{
}

pub fn detect_turn_start(paragraph: &str) -> (r: Option<(TurnStart, usize)>)
    ensures
        match r {
            Some((t, n)) => turn_start_of(paragraph@) == Some((turn_view(t), n as int)),
            None => turn_start_of(paragraph@) is None,
        },
{
    let trimmed_s = trim_str(paragraph);
    let trimmed = trimmed_s.as_str();
    if trimmed.is_empty() {
        return None;
    }
    let prefix = first_chars(trimmed, 120);
    let numbered = re_is_match(TURN_START_PATTERN, trimmed);
    if re_is_match(ARTICLE_PATTERN, prefix.as_str()) && !numbered {
        return None;
    }
    if numbered {
        let caps = captures_of(TURN_START_PATTERN, trimmed);
        let full = group_string(&caps, 0);
        let turn = group_string(&caps, 1);
        let label = group_string(&caps, 2);
        return Some((TurnStart::Numbered { turn_number: turn, raw_label: trim_str(label.as_str()) }, full.as_str().len()));
    }
    if re_is_match(CHAIR_GENERIC_PATTERN, trimmed) {
        let caps = captures_of(CHAIR_GENERIC_PATTERN, trimmed);
        let full = group_string(&caps, 0);
        return Some((TurnStart::GenericChair, full.as_str().len()));
    }
    if re_is_match(CHAIR_NAMED_PATTERN, trimmed) {
        let caps = captures_of(CHAIR_NAMED_PATTERN, trimmed);
        let full = group_string(&caps, 0);
        let name = group_string(&caps, 1);
        return Some((TurnStart::NamedChair { raw_name: trim_str(name.as_str()) }, full.as_str().len()));
    }
    None
}

/// A speaker label read as name, role and party: a leading title dropped, a trailing party
/// in parentheses taken off, a trailing ministerial role taken off; a minister by that role
/// or by the name's wording, else an MP when a party was given, else an external speaker
/// in a hearing, else unknown. An empty name falls back to the trimmed label.
pub open spec fn speaker_of(raw_label: Seq<char>, item_kind: Seq<char>) -> (Seq<char>, SpeakerRole, Option<Seq<char>>) {
    let l1 = trim(regex_remove_first(TITLES_PREFIX_PATTERN@, trim(raw_label)));
    let party = match capture(PARTY_SUFFIX_PATTERN@, l1, 1) {
        Some(p) => Some(trim(p)),
        None => None,
    };
    let l2 = if party is Some { trim(regex_remove_first(PARTY_SUFFIX_PATTERN@, l1)) } else { l1 };
    let from_suffix = regex_is_match(ROLE_SUFFIX_PATTERN@, l2);
    let l3 = trim(regex_remove_first(ROLE_SUFFIX_PATTERN@, l2));
    let role = if from_suffix || contains(lowercase(l3), "minist"@) || contains(lowercase(l3), "staatssecretaris"@) {
        SpeakerRole::Minister
    } else if party is Some {
        SpeakerRole::Mp
    } else if item_kind == "hearing"@ {
        SpeakerRole::External
    } else {
        SpeakerRole::Unknown
    };
    (if l3.len() == 0 { trim(raw_label) } else { l3 }, role, party)
}

/// The role a speaker label gives: a speaker whose label carries a party and who is no
/// minister is an MP; a speaker with no party who is no minister is an external speaker in
/// a hearing and unknown elsewhere; an MP always has a party, and no label makes a chair.
pub proof fn lemma_speaker_role_law(raw_label: Seq<char>, item_kind: Seq<char>)
    ensures
        ({
            let r = speaker_of(raw_label, item_kind);
            &&& (r.2 is Some && r.1 != SpeakerRole::Minister ==> r.1 == SpeakerRole::Mp)
            &&& (r.1 == SpeakerRole::Mp ==> r.2 is Some)
            &&& (r.2 is None && r.1 != SpeakerRole::Minister && item_kind == "hearing"@ ==> r.1 == SpeakerRole::External)
            &&& (r.2 is None && r.1 != SpeakerRole::Minister && item_kind != "hearing"@ ==> r.1 == SpeakerRole::Unknown)
            &&& r.1 != SpeakerRole::Chair
        }),
{
}

pub fn parse_speaker_label(raw_label: &str, item_kind: &str) -> (r: ParsedSpeaker)
    ensures
        speaker_of(raw_label@, item_kind@) == (r.raw_speaker@, r.speaker_role, r.party.deep_view()),
{
    let t0 = trim_str(raw_label);
    let removed = re_remove_first(TITLES_PREFIX_PATTERN, t0.as_str());
    let mut label = trim_str(removed.as_str());
    let party = match capture_text(PARTY_SUFFIX_PATTERN, label.as_str(), 1) {
        Some(p) => Some(trim_str(p.as_str())),
        None => None,
    };
    if party.is_some() {
        let stripped = re_remove_first(PARTY_SUFFIX_PATTERN, label.as_str());
        label = trim_str(stripped.as_str());
    }
    let role_from_suffix = re_is_match(ROLE_SUFFIX_PATTERN, label.as_str());
    let stripped = re_remove_first(ROLE_SUFFIX_PATTERN, label.as_str());
    let label = trim_str(stripped.as_str());
    let lower = to_lower(label.as_str());
    let speaker_role = if role_from_suffix || str_contains(lower.as_str(), "minist") || str_contains(lower.as_str(), "staatssecretaris") {
        SpeakerRole::Minister
    } else if party.is_some() {
        SpeakerRole::Mp
    } else if str_eq(item_kind, "hearing") {
        SpeakerRole::External
    } else {
        SpeakerRole::Unknown
    };
    let raw_speaker = if label.as_str().is_empty() {
        trim_str(raw_label)
    } else {
        label
    };
    ParsedSpeaker { raw_speaker, speaker_role, party }
}

/// The speaker of a turn start and its role.
pub open spec fn turn_speaker(t: (int, Seq<char>, Seq<char>), item_kind: Seq<char>) -> (Seq<char>, SpeakerRole) {
    if t.0 == 0 {
        (speaker_of(t.2, item_kind).0, speaker_of(t.2, item_kind).1)
    } else if t.0 == 1 {
        ("Voorzitter"@, SpeakerRole::Chair)
    } else {
        (t.1, SpeakerRole::Chair)
    }
}

pub fn parse_turn_start(start: &TurnStart, item_kind: &str) -> (r: (String, SpeakerRole))
    ensures
        (r.0@, r.1) == turn_speaker(turn_view(*start), item_kind@),
{
    match start {
        TurnStart::Numbered { raw_label, .. } => {
            let parsed = parse_speaker_label(raw_label.as_str(), item_kind);
            (parsed.raw_speaker, parsed.speaker_role)
        },
        TurnStart::GenericChair => ("Voorzitter".to_string(), SpeakerRole::Chair),
        TurnStart::NamedChair { raw_name } => (raw_name.clone(), SpeakerRole::Chair),
    }
}

/// `FR` for a class that mentions `FR`, `NL` otherwise.
pub open spec fn language_of_class(class: Option<Seq<char>>) -> Seq<char> {
    match class {
        Some(c) => if contains(c, "FR"@) || c == "NormalFR"@ || c == "italFR"@ {
            "FR"@
        } else {
            "NL"@
        },
        None => "NL"@,
    }
}

pub fn language_from_class(class: Option<&str>) -> (r: String)
    ensures
        r@ == language_of_class(match class {
            Some(c) => Some(c@),
            None => None,
        }),
{
    match class {
        Some(c) => if str_contains(c, "FR") || str_eq(c, "NormalFR") || str_eq(c, "italFR") {
            "FR".to_string()
        } else {
            "NL".to_string()
        },
        None => "NL".to_string(),
    }
}

/// The agenda prefix and base turn of `DD.MM` or `DD.MMD` (the extra digit marks an
/// intervention): two parts around one dot, a two-byte prefix, and a two- or three-byte
/// turn whose first two characters are the base.
pub open spec fn base_turn_of(turn_number: Seq<char>) -> Option<(Seq<char>, u32)> {
    let parts = split(turn_number, '.');
    if parts.len() != 2 || byte_len(parts[0]) != 2 {
        None
    } else if byte_len(parts[1]) == 2 {
        match parse_u32(parts[1]) {
            Some(v) => Some((parts[0], v)),
            None => None,
        }
    } else if byte_len(parts[1]) == 3 {
        match parse_u32(if parts[1].len() < 2 { parts[1] } else { parts[1].take(2) }) {
            Some(v) => Some((parts[0], v)),
            None => None,
        }
    } else {
        None
    }
}

pub fn base_turn_parts(turn_number: &str) -> (r: Option<(String, u32)>)
    ensures
        match r {
            Some((a, b)) => base_turn_of(turn_number@) == Some((a@, b)),
            None => base_turn_of(turn_number@) is None,
        },
{
    let parts = split_str(turn_number, '.');
    if parts.len() != 2 || parts[0].as_str().len() != 2 {
        return None;
    }
    let second = parts[1].as_str();
    let base = if second.len() == 2 {
        parse_u32_str(second)
    } else if second.len() == 3 {
        let v = to_chars(second);
        let n = if v.len() < 2 { v.len() } else { 2 };
        let head = from_char_range(&v, 0, n);
        proof {
            if v@.len() < 2 {
                assert(head@ =~= v@);
            }
        }
        parse_u32_str(head.as_str())
    } else {
        return None;
    };
    match base {
        Some(b) => Some((parts[0].clone(), b)),
        None => None,
    }
}

/// Some paragraph of the report starts a numbered turn with agenda prefix `agenda` and base
/// turn `b`.
pub open spec fn base_turn_seen(blocks: Seq<ReportBlock>, agenda: Seq<char>, b: u32) -> bool {
    exists|i: int| 0 <= i < blocks.len() && #[trigger] base_turn_at(blocks[i], agenda, b)
}

/// The block is a paragraph that starts a numbered turn with agenda prefix `agenda` and
/// base turn `b`.
pub open spec fn base_turn_at(block: ReportBlock, agenda: Seq<char>, b: u32) -> bool {
    base_turn_view(block) == Some((agenda, b))
}

/// The agenda prefix and base turn of a paragraph that starts a numbered turn.
pub open spec fn base_turn_view(block: ReportBlock) -> Option<(Seq<char>, u32)> {
    if block.tag == BlockTag::P {
        match turn_start_of(block.text@) {
            Some((t, _)) => if t.0 == 0 {
                base_turn_of(t.1)
            } else {
                None
            },
            None => None,
        }
    } else {
        None
    }
}

/// `r` holds each agenda prefix once, with exactly the base turns seen for it among
/// `blocks`, and every prefix seen among `blocks`.
pub open spec fn base_turns_exact(blocks: Seq<ReportBlock>, r: Seq<(String, BTreeSet<u32>)>) -> bool {
    &&& forall|k1: int, k2: int| 0 <= k1 < k2 < r.len() ==> (#[trigger] r[k1]).0@ != (#[trigger] r[k2]).0@
    &&& forall|k: int, b: u32| 0 <= k < r.len() ==> ((#[trigger] r[k].1@.contains(b)) <==> base_turn_seen(blocks, r[k].0@, b))
    &&& forall|i: int, agenda: Seq<char>, b: u32|
        0 <= i < blocks.len() && #[trigger] base_turn_at(blocks[i], agenda, b) ==> exists|k: int|
            0 <= k < r.len() && (#[trigger] r[k]).0@ == agenda
}

/// The base turn numbers of the numbered turns of each agenda prefix, prefixes in the order
/// first seen.
pub fn collect_base_turns_by_agenda(blocks: &[ReportBlock]) -> (r: Vec<(String, BTreeSet<u32>)>)
    ensures
        forall|k: int, b: u32| 0 <= k < r@.len() && (#[trigger] r@[k].1@.contains(b)) ==> base_turn_seen(blocks@, r@[k].0@, b),
        base_turns_exact(blocks@, r@),
{
    let mut by_agenda: Vec<(String, BTreeSet<u32>)> = Vec::new();
    let mut i: usize = 0;
    while i < blocks.len()
        invariant
            i <= blocks.len(),
            base_turns_exact(blocks@.take(i as int), by_agenda@),
        decreases blocks.len() - i,
    {
        let block = &blocks[i];
        let ghost prev = by_agenda@;
        let ghost pre = blocks@.take(i as int);
        let ghost cur = blocks@.take(i + 1);
        proof {
            assert(cur =~= pre.push(blocks@[i as int]));
            assert forall|a: Seq<char>, b: u32| #[trigger] base_turn_seen(cur, a, b) <==> (base_turn_seen(pre, a, b)
                || base_turn_at(blocks@[i as int], a, b)) by {
                if base_turn_seen(cur, a, b) {
                    let j = choose|j: int| 0 <= j < cur.len() && #[trigger] base_turn_at(cur[j], a, b);
                    if j < pre.len() {
                        assert(pre[j] == cur[j]);
                    }
                }
                if base_turn_seen(pre, a, b) {
                    let j = choose|j: int| 0 <= j < pre.len() && #[trigger] base_turn_at(pre[j], a, b);
                    assert(cur[j] == pre[j]);
                }
                if base_turn_at(blocks@[i as int], a, b) {
                    assert(cur[i as int] == blocks@[i as int]);
                }
            }
        }
        let mut hit: Option<(String, u32)> = None;
        if block.tag == BlockTag::P {
            match detect_turn_start(block.text.as_str()) {
                Some((TurnStart::Numbered { turn_number, .. }, _)) => {
                    hit = base_turn_parts(turn_number.as_str());
                },
                _ => {},
            }
        }
        assert(match hit {
            Some((a, b)) => base_turn_view(blocks@[i as int]) == Some((a@, b)),
            None => base_turn_view(blocks@[i as int]) is None,
        });
        match hit {
            Some((agenda_id, base)) => {
                let mut found: Option<usize> = None;
                let mut q: usize = 0;
                while q < by_agenda.len()
                    invariant
                        q <= by_agenda.len(),
                        found matches Some(f) ==> f < by_agenda@.len() && by_agenda@[f as int].0@ == agenda_id@,
                        found is None ==> forall|k: int| 0 <= k < q ==> (#[trigger] by_agenda@[k]).0@ != agenda_id@,
                    decreases by_agenda.len() - q,
                {
                    if found.is_none() && str_eq(by_agenda[q].0.as_str(), agenda_id.as_str()) {
                        found = Some(q);
                    }
                    q = q + 1;
                }
                match found {
                    Some(f) => {
                        let mut set = by_agenda[f].1.clone();
                        set.insert(base);
                        let key = by_agenda[f].0.clone();
                        by_agenda.set(f, (key, set));
                        proof {
                            assert forall|k: int| 0 <= k < by_agenda@.len() implies (#[trigger] by_agenda@[k]).0@ == prev[k].0@ by {}
                            assert forall|k: int, b: u32| 0 <= k < by_agenda@.len() implies ((#[trigger] by_agenda@[k].1@.contains(b))
                                <==> base_turn_seen(cur, by_agenda@[k].0@, b)) by {
                                if k != f {
                                    assert(by_agenda@[k] == prev[k]);
                                    if k < f {
                                        assert(prev[k].0@ != prev[f as int].0@);
                                    } else {
                                        assert(prev[f as int].0@ != prev[k].0@);
                                    }
                                    assert(prev[k].1@.contains(b) <==> base_turn_seen(pre, prev[k].0@, b));
                                } else {
                                    assert(prev[k].1@.contains(b) <==> base_turn_seen(pre, prev[k].0@, b));
                                }
                            }
                            assert forall|jj: int, a: Seq<char>, b: u32|
                                0 <= jj < cur.len() && #[trigger] base_turn_at(cur[jj], a, b) implies exists|k: int|
                                    0 <= k < by_agenda@.len() && (#[trigger] by_agenda@[k]).0@ == a by {
                                if jj < pre.len() {
                                    assert(cur[jj] == pre[jj]);
                                    let k = choose|k: int| 0 <= k < prev.len() && (#[trigger] prev[k]).0@ == a;
                                    assert(by_agenda@[k].0@ == a);
                                } else {
                                    assert(by_agenda@[f as int].0@ == a);
                                }
                            }
                        }
                    },
                    None => {
                        let mut set: BTreeSet<u32> = BTreeSet::new();
                        set.insert(base);
                        by_agenda.push((agenda_id, set));
                        proof {
                            let n = prev.len() as int;
                            assert forall|b: u32| !base_turn_seen(pre, by_agenda@[n].0@, b) by {
                                if base_turn_seen(pre, by_agenda@[n].0@, b) {
                                    let jj = choose|jj: int| 0 <= jj < pre.len() && #[trigger] base_turn_at(pre[jj], by_agenda@[n].0@, b);
                                    let k = choose|k: int| 0 <= k < prev.len() && (#[trigger] prev[k]).0@ == by_agenda@[n].0@;
                                }
                            }
                            assert forall|k1: int, k2: int| 0 <= k1 < k2 < by_agenda@.len() implies (#[trigger] by_agenda@[k1]).0@
                                != (#[trigger] by_agenda@[k2]).0@ by {
                                assert(by_agenda@[k1] == prev[k1]);
                                if k2 < n {
                                    assert(by_agenda@[k2] == prev[k2]);
                                }
                            }
                            assert forall|k: int, b: u32| 0 <= k < by_agenda@.len() implies ((#[trigger] by_agenda@[k].1@.contains(b))
                                <==> base_turn_seen(cur, by_agenda@[k].0@, b)) by {
                                if k < n {
                                    assert(by_agenda@[k] == prev[k]);
                                    assert(prev[k].1@.contains(b) <==> base_turn_seen(pre, prev[k].0@, b));
                                }
                            }
                            assert forall|jj: int, a: Seq<char>, b: u32|
                                0 <= jj < cur.len() && #[trigger] base_turn_at(cur[jj], a, b) implies exists|k: int|
                                    0 <= k < by_agenda@.len() && (#[trigger] by_agenda@[k]).0@ == a by {
                                if jj < pre.len() {
                                    assert(cur[jj] == pre[jj]);
                                    let k = choose|k: int| 0 <= k < prev.len() && (#[trigger] prev[k]).0@ == a;
                                    assert(by_agenda@[k] == prev[k]);
                                } else {
                                    assert(by_agenda@[n].0@ == a);
                                }
                            }
                        }
                    },
                }
            },
            None => {
                proof {
                    assert forall|k: int, b: u32| 0 <= k < by_agenda@.len() implies ((#[trigger] by_agenda@[k].1@.contains(b))
                        <==> base_turn_seen(cur, by_agenda@[k].0@, b)) by {
                        assert(prev[k].1@.contains(b) <==> base_turn_seen(pre, prev[k].0@, b));
                    }
                    assert forall|jj: int, a: Seq<char>, b: u32|
                        0 <= jj < cur.len() && #[trigger] base_turn_at(cur[jj], a, b) implies exists|k: int|
                            0 <= k < by_agenda@.len() && (#[trigger] by_agenda@[k]).0@ == a by {
                        assert(cur[jj] == pre[jj]);
                    }
                }
            },
        }
        i = i + 1;
    }
    proof {
        assert(blocks@.take(blocks@.len() as int) =~= blocks@);
        assert forall|k: int, b: u32| 0 <= k < by_agenda@.len() && (#[trigger] by_agenda@[k].1@.contains(b)) implies base_turn_seen(blocks@, by_agenda@[k].0@, b) by {}
    }
    by_agenda
}

/// Numbered turns and chair turns among the paragraphs of a report.
pub open spec fn marker_counts(blocks: Seq<ReportBlock>) -> (nat, nat)
    decreases blocks.len(),
{
    if blocks.len() == 0 {
        (0, 0)
    } else {
        let prev = marker_counts(blocks.drop_last());
        let b = blocks.last();
        if b.tag != BlockTag::P {
            prev
        } else {
            match turn_start_of(b.text@) {
                Some((t, _)) => if t.0 == 0 { ((prev.0 + 1) as nat, prev.1) } else { (prev.0, (prev.1 + 1) as nat) },
                None => prev,
            }
        }
    }
}

pub fn count_source_markers(blocks: &[ReportBlock]) -> (r: (usize, usize))
    ensures
        (r.0 as nat, r.1 as nat) == marker_counts(blocks@),
{
    let mut turns: usize = 0;
    let mut chairs: usize = 0;
    let mut i: usize = 0;
    while i < blocks.len()
        invariant
            i <= blocks.len(),
            (turns as nat, chairs as nat) == marker_counts(blocks@.take(i as int)),
            turns + chairs <= i,
        decreases blocks.len() - i,
    {
        proof {
            assert(blocks@.take(i + 1).drop_last() =~= blocks@.take(i as int));
        }
        let block = &blocks[i];
        if block.tag == BlockTag::P {
            match detect_turn_start(block.text.as_str()) {
                Some((TurnStart::Numbered { .. }, _)) => {
                    turns = turns + 1;
                },
                Some(_) => {
                    chairs = chairs + 1;
                },
                None => {},
            }
        }
        i = i + 1;
    }
    assert(blocks@.take(blocks.len() as int) =~= blocks@);
    (turns, chairs)
}

} // verus!
