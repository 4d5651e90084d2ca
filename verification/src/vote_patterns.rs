//! Centrally catalogued bilingual vote section markers, table labels, and outcome phrases.
use vstd::prelude::*;
use crate::pattern::{capture, capture_text, re_is_match, regex_is_match};
use crate::report_blocks::ReportBlock;
use crate::text::{
    alphabetic, contains, is_alphabetic, is_digit, lowercase, parse_u32, parse_u32_str,
    str_contains, str_eq, str_starts_with, starts_with, to_chars, to_lower, to_upper, trim,
    trim_start, trim_str, uppercase,
};

verus! {

pub const COMPACT_VOTE_PATTERN: &'static str = r"(?i)\(\s*Stemming\s*/\s*vote\s+(\d+)\s*\)";
pub const APPENDIX_VOTE_PATTERN: &'static str = r"(?i)Naamstemming\s*-\s*Vote\s*nominatif\s*:\s*(\d+)";
pub const APPENDIX_VOTE_REVERSE_PATTERN: &'static str = r"(?i)Vote\s*nominatif\s*-\s*Naamstemming\s*:\s*(\d+)";
pub const PARAGRAPH_VOTE_PATTERN: &'static str = r"(?i)\(\s*Stemming\s*/\s*vote\s+(\d+)\s*\)";
/// `(Stemming/vote1)` without space before the digit.
pub const PARAGRAPH_VOTE_TIGHT_PATTERN: &'static str = r"(?i)\(\s*Stemming\s*/\s*vote\s*(\d+)\s*\)";
/// `(Vote/stemming 61)` reverse-order marker.
pub const PARAGRAPH_VOTE_REVERSE_PATTERN: &'static str = r"(?i)\(\s*Vote\s*/\s*stemming\s+(\d+)\s*\)";
/// Reuse of the previous vote's result.
pub const REUSE_RESULT_PATTERN: &'static str = r"(?i)(?:mag\s+de\s+uitslag\s+van\s+de\s+vorige\s+stemming|le\s+résultat\s+du\s+précédent\s+vote)";
/// Formal sitting/standing adoption or rejection.
pub const SITTING_STANDING_OUTCOME_PATTERN: &'static str = r"(?i)(?:bij\s+zitten\s+en\s+opstaan|par\s+assis\s+et\s+levé).{0,80}(?:aangenomen|verworpen|adoptée|adopté|rejetée|rejeté)";
/// Quorum failure prose.
pub const QUORUM_FAILURE_PATTERN: &'static str = r"(?i)(?:het\s+)?quorum\s+is\s+niet\s+bereikt|le\s+quorum\s+n['']est\s+pas\s+atteint";
/// Candidate tally after a secret ballot.
pub const CANDIDATE_TALLY_PATTERN: &'static str = r"(?i)(?:de\s+(?:heer|mevrouw)|m\.|mme\.?)\s+(.+?)\s+(?:heeft|a\s+obtenu)\s+(\d+)\s+(?:stemmen|voix)(?:\s+gekregen)?";
/// Formal vote sequence markers.
pub const FORMAL_VOTE_BEGIN_PATTERN: &'static str = r"(?i)begin van de stemming|début du vote";
/// Participation counts on quorum failure: `65/71 leden hebben deelgenomen`.
pub const PARTICIPATION_COUNT_PATTERN: &'static str = r"(?i)(\d+)(?:\s*/\s*(\d+))?\s*(?:leden|membres).{0,60}(?:deelgenomen|pris part)";
pub const DOSSIER_REF_PATTERN: &'static str = r"\((\d+/\d+(?:-\d+)?)\)";
/// Electronic-count appendix headers, in both language orders.
pub const ELECTRONIC_COUNT_PATTERN: &'static str = r"(?is)(?:Comptage\s+électronique\s*[-–]\s*Elektronische\s+telling|Elektronische\s+telling\s*[-–]\s*Comptage\s+électronique)\s*:\s*(\d+)";

/// The participation count and, when given, the required count.
pub open spec fn participation(text: Seq<char>) -> Option<(u32, Option<u32>)> {
    match capture(PARTICIPATION_COUNT_PATTERN@, text, 1) {
        None => None,
        Some(first) => Some(
            (
                match parse_u32(first) {
                    Some(v) => v,
                    None => 0,
                },
                match capture(PARTICIPATION_COUNT_PATTERN@, text, 2) {
                    Some(g) => if g.len() > 0 { parse_u32(g) } else { None },
                    None => None,
                },
            ),
        ),
    }
}

pub fn parse_participation(text: &str) -> (r: Option<(u32, Option<u32>)>)
    ensures
        r == participation(text@),
{
    match capture_text(PARTICIPATION_COUNT_PATTERN, text, 1) {
        None => None,
        Some(first) => {
            let participated = match parse_u32_str(first.as_str()) {
                Some(v) => v,
                None => 0,
            };
            let required = match capture_text(PARTICIPATION_COUNT_PATTERN, text, 2) {
                Some(g) => if g.as_str().is_empty() {
                    None
                } else {
                    parse_u32_str(g.as_str())
                },
                None => None,
            };
            Some((participated, required))
        },
    }
}

pub open spec fn compact_vote_number(text: Seq<char>) -> Option<Seq<char>> {
    capture(COMPACT_VOTE_PATTERN@, text, 1)
}

pub fn parse_compact_vote_number(text: &str) -> (r: Option<String>)
    ensures
        r.deep_view() == compact_vote_number(text@),
{
    capture_text(COMPACT_VOTE_PATTERN, text, 1)
}

/// `Naamstemming - Vote nominatif: N`, or the French-first order.
pub open spec fn appendix_vote_number(text: Seq<char>) -> Option<Seq<char>> {
    match capture(APPENDIX_VOTE_PATTERN@, text, 1) {
        Some(n) => Some(n),
        None => capture(APPENDIX_VOTE_REVERSE_PATTERN@, text, 1),
    }
}

pub fn parse_appendix_vote_number(text: &str) -> (r: Option<String>)
    ensures
        r.deep_view() == appendix_vote_number(text@),
{
    match capture_text(APPENDIX_VOTE_PATTERN, text, 1) {
        Some(n) => Some(n),
        None => capture_text(APPENDIX_VOTE_REVERSE_PATTERN, text, 1),
    }
}

pub open spec fn electronic_count_number(text: Seq<char>) -> Option<Seq<char>> {
    capture(ELECTRONIC_COUNT_PATTERN@, text, 1)
}

pub fn parse_electronic_count_number(text: &str) -> (r: Option<String>)
    ensures
        r.deep_view() == electronic_count_number(text@),
{
    capture_text(ELECTRONIC_COUNT_PATTERN, text, 1)
}

pub open spec fn paragraph_vote_number(text: Seq<char>) -> Option<Seq<char>> {
    capture(PARAGRAPH_VOTE_PATTERN@, text, 1)
}

pub fn parse_paragraph_vote_number(text: &str) -> (r: Option<String>)
    ensures
        r.deep_view() == paragraph_vote_number(text@),
{
    capture_text(PARAGRAPH_VOTE_PATTERN, text, 1)
}

/// The vote number of a paragraph marker after a result-reuse question: the paragraph
/// form, then the compact form, then the reverse-order form, then the tight form.
pub open spec fn reuse_marker_number(text: Seq<char>) -> Option<Seq<char>> {
    match paragraph_vote_number(text) {
        Some(n) => Some(n),
        None => match compact_vote_number(text) {
            Some(n) => Some(n),
            None => match capture(PARAGRAPH_VOTE_REVERSE_PATTERN@, text, 1) {
                Some(n) => Some(n),
                None => capture(PARAGRAPH_VOTE_TIGHT_PATTERN@, text, 1),
            },
        },
    }
}

pub fn parse_reuse_marker_number(text: &str) -> (r: Option<String>)
    ensures
        r.deep_view() == reuse_marker_number(text@),
{
    match parse_paragraph_vote_number(text) {
        Some(n) => Some(n),
        None => match parse_compact_vote_number(text) {
            Some(n) => Some(n),
            None => match capture_text(PARAGRAPH_VOTE_REVERSE_PATTERN, text, 1) {
                Some(n) => Some(n),
                None => capture_text(PARAGRAPH_VOTE_TIGHT_PATTERN, text, 1),
            },
        },
    }
}

/// The first block at `from + offset`, `offset` in `offset..=max`, that carries a reuse
/// marker: its vote number and index; `("", None)` when none does before the end.
pub open spec fn scan_reuse(blocks: Seq<ReportBlock>, from: int, offset: int, max: int) -> (
    Seq<char>,
    Option<int>,
)
    decreases max + 1 - offset,
{
    if offset > max || from + offset >= blocks.len() {
        (Seq::empty(), None)
    } else {
        match reuse_marker_number(blocks[from + offset].text@) {
            Some(n) => (n, Some(from + offset)),
            None => scan_reuse(blocks, from, offset + 1, max),
        }
    }
}

/// Scan forward from a reuse-question block for `(Stemming/vote N)` (or variants).
pub fn scan_reuse_marker(blocks: &[ReportBlock], reuse_idx: usize, max_lookahead: usize) -> (r: (
    String,
    Option<usize>,
))
    ensures
        r.0@ == scan_reuse(blocks@, reuse_idx as int, 1, max_lookahead as int).0,
        r.1 matches Some(k) ==> scan_reuse(blocks@, reuse_idx as int, 1, max_lookahead as int).1
            == Some(k as int),
        r.1 is None ==> scan_reuse(blocks@, reuse_idx as int, 1, max_lookahead as int).1 is None,
{
    let mut offset: usize = 1;
    while offset <= max_lookahead
        invariant
            1 <= offset,
            scan_reuse(blocks@, reuse_idx as int, offset as int, max_lookahead as int)
                == scan_reuse(blocks@, reuse_idx as int, 1, max_lookahead as int),
        decreases max_lookahead + 1 - offset,
    {
        if reuse_idx >= blocks.len() || offset >= blocks.len() - reuse_idx {
            return (String::new(), None);
        }
        let idx = reuse_idx + offset;
        match parse_reuse_marker_number(blocks[idx].text.as_str()) {
            Some(number) => {
                return (number, Some(idx));
            },
            None => {},
        }
        offset = offset + 1;
    }
    (String::new(), None)
}

/// `Some("adopted")` / `Some("rejected")` by the outcome words of a paragraph.
pub open spec fn outcome_of(text: Seq<char>) -> Option<Seq<char>> {
    let lower = lowercase(text);
    if contains(lower, "aangenomen"@) || contains(lower, "adoptée"@) || contains(lower, "adopté"@) {
        Some("adopted"@)
    } else if contains(lower, "verworpen"@) || contains(lower, "rejetée"@) || contains(
        lower,
        "rejeté"@,
    ) {
        Some("rejected"@)
    } else {
        None
    }
}

pub fn formal_outcome(text: &str) -> (r: Option<&'static str>)
    ensures
        match r {
            Some(s) => outcome_of(text@) == Some(s@),
            None => outcome_of(text@) is None,
        },
{
    let lower = to_lower(text);
    if str_contains(lower.as_str(), "aangenomen") || str_contains(lower.as_str(), "adoptée")
        || str_contains(lower.as_str(), "adopté") {
        Some("adopted")
    } else if str_contains(lower.as_str(), "verworpen") || str_contains(lower.as_str(), "rejetée")
        || str_contains(lower.as_str(), "rejeté") {
        Some("rejected")
    } else {
        None
    }
}

/// The outcome of the first block at `from + offset`, `offset` in `offset..=max`, that
/// states one; empty when none does before the end.
pub open spec fn scan_outcome(blocks: Seq<ReportBlock>, from: int, offset: int, max: int) -> Seq<char>
    decreases max + 1 - offset,
{
    if offset > max || from + offset >= blocks.len() {
        Seq::empty()
    } else {
        match outcome_of(blocks[from + offset].text@) {
            Some(o) => o,
            None => scan_outcome(blocks, from, offset + 1, max),
        }
    }
}

/// First formal outcome paragraph after a reuse marker block.
pub fn scan_formal_outcome_after(blocks: &[ReportBlock], after_idx: usize, max_lookahead: usize) -> (r: String)
    ensures
        r@ == scan_outcome(blocks@, after_idx as int, 1, max_lookahead as int),
{
    let mut offset: usize = 1;
    while offset <= max_lookahead
        invariant
            1 <= offset,
            scan_outcome(blocks@, after_idx as int, offset as int, max_lookahead as int)
                == scan_outcome(blocks@, after_idx as int, 1, max_lookahead as int),
        decreases max_lookahead + 1 - offset,
    {
        if after_idx >= blocks.len() || offset >= blocks.len() - after_idx {
            return String::new();
        }
        let idx = after_idx + offset;
        match formal_outcome(blocks[idx].text.as_str()) {
            Some(outcome) => {
                return outcome.to_string();
            },
            None => {},
        }
        offset = offset + 1;
    }
    String::new()
}

pub fn appendix_marker_for_vote(text: &str, vote_index: &str) -> (r: bool)
    ensures
        r == (appendix_vote_number(text@) == Some(vote_index@)),
{
    match parse_appendix_vote_number(text) {
        Some(n) => str_eq(n.as_str(), vote_index),
        None => false,
    }
}

#[derive(Debug, Clone, Copy, PartialEq, Eq, Structural)]
pub enum VoteBucket {
    Yes,
    No,
    Abstain,
    Total,
    Voters,
    Valid,
    BlankInvalid,
    MajorityThreshold,
    Unknown,
}

#[derive(Debug, Clone, Copy, PartialEq, Eq, Structural)]
pub enum VoteSectionKind {
    RollCall,
    SecretBallot,
    Appendix,
    Other,
}

pub open spec fn section_kind(text: Seq<char>) -> VoteSectionKind {
    let lower = lowercase(text);
    if contains(lower, "geheime stemming"@) || contains(lower, "scrutin secret"@) || contains(
        lower,
        "scrutins secrets"@,
    ) {
        VoteSectionKind::SecretBallot
    } else if contains(lower, "detail van de naamstemming"@) || contains(
        lower,
        "détail du vote nominatif"@,
    ) {
        VoteSectionKind::Appendix
    } else if contains(lower, "naamstemming"@) || contains(lower, "votes nominatifs"@) {
        VoteSectionKind::RollCall
    } else {
        VoteSectionKind::Other
    }
}

pub fn votes_section_heading(text: &str) -> (r: VoteSectionKind)
    ensures
        r == section_kind(text@),
{
    let lower = to_lower(text);
    let l = lower.as_str();
    if str_contains(l, "geheime stemming") || str_contains(l, "scrutin secret") || str_contains(
        l,
        "scrutins secrets",
    ) {
        return VoteSectionKind::SecretBallot;
    }
    if str_contains(l, "detail van de naamstemming") || str_contains(l, "détail du vote nominatif") {
        return VoteSectionKind::Appendix;
    }
    if str_contains(l, "naamstemming") || str_contains(l, "votes nominatifs") {
        return VoteSectionKind::RollCall;
    }
    VoteSectionKind::Other
}

/// The bucket a roll-call or secret-ballot row label names, compared trimmed and lower-cased.
pub open spec fn bucket_of_label(label: Seq<char>) -> Option<VoteBucket> {
    let n = lowercase(trim(label));
    if n == "ja"@ || n == "oui"@ || n == "yes"@ {
        Some(VoteBucket::Yes)
    } else if n == "nee"@ || n == "non"@ || n == "no"@ {
        Some(VoteBucket::No)
    } else if n == "onthoudingen"@ || n == "abstentions"@ || n == "abstention"@ {
        Some(VoteBucket::Abstain)
    } else if n == "totaal"@ || n == "total"@ {
        Some(VoteBucket::Total)
    } else if n == "stemmen"@ || n == "aantal stemmen"@ || n == "nombre de votants"@ || n
        == "votants"@ {
        Some(VoteBucket::Voters)
    } else if n == "geldige stemmen"@ || n == "votes valables"@ {
        Some(VoteBucket::Valid)
    } else if n == "blanco en nietige bulletins"@ || n == "bulletins blancs ou nuls"@ {
        Some(VoteBucket::BlankInvalid)
    } else if n == "volstrekte meerderheid"@ || n == "majorité absolue"@ {
        Some(VoteBucket::MajorityThreshold)
    } else {
        None
    }
}

pub fn vote_bucket_label(label: &str) -> (r: Option<VoteBucket>)
    ensures
        r == bucket_of_label(label@),
{
    let t = trim_str(label);
    let norm = to_lower(t.as_str());
    let n = norm.as_str();
    if str_eq(n, "ja") || str_eq(n, "oui") || str_eq(n, "yes") {
        Some(VoteBucket::Yes)
    } else if str_eq(n, "nee") || str_eq(n, "non") || str_eq(n, "no") {
        Some(VoteBucket::No)
    } else if str_eq(n, "onthoudingen") || str_eq(n, "abstentions") || str_eq(n, "abstention") {
        Some(VoteBucket::Abstain)
    } else if str_eq(n, "totaal") || str_eq(n, "total") {
        Some(VoteBucket::Total)
    } else if str_eq(n, "stemmen") || str_eq(n, "aantal stemmen") || str_eq(n, "nombre de votants")
        || str_eq(n, "votants") {
        Some(VoteBucket::Voters)
    } else if str_eq(n, "geldige stemmen") || str_eq(n, "votes valables") {
        Some(VoteBucket::Valid)
    } else if str_eq(n, "blanco en nietige bulletins") || str_eq(n, "bulletins blancs ou nuls") {
        Some(VoteBucket::BlankInvalid)
    } else if str_eq(n, "volstrekte meerderheid") || str_eq(n, "majorité absolue") {
        Some(VoteBucket::MajorityThreshold)
    } else {
        None
    }
}

/// Some cell of `cells`, trimmed and upper-cased, equals one of `names`.
pub open spec fn some_cell_is(cells: Seq<Seq<char>>, a: Seq<char>, b: Seq<char>) -> bool {
    exists|i: int|
        0 <= i < cells.len() && (#[trigger] uppercase(trim(cells[i])) == a || uppercase(
            trim(cells[i]),
        ) == b)
}

/// A language-group header row: it has an `N`, a `TOT.` (or `TOT`) and an `F` column.
pub open spec fn language_group_header(cells: Seq<Seq<char>>) -> bool {
    some_cell_is(cells, "N"@, "N"@) && some_cell_is(cells, "TOT."@, "TOT"@) && some_cell_is(
        cells,
        "F"@,
        "F"@,
    )
}

fn any_cell_is(cells: &[&str], a: &str, b: &str) -> (r: bool)
    ensures
        r == some_cell_is(cells@.map_values(|c: &str| c@), a@, b@),
{
    let ghost views = cells@.map_values(|c: &str| c@);
    let mut i: usize = 0;
    while i < cells.len()
        invariant
            i <= cells.len(),
            views == cells@.map_values(|c: &str| c@),
            forall|k: int|
                0 <= k < i ==> !(#[trigger] uppercase(trim(views[k])) == a@ || uppercase(
                    trim(views[k]),
                ) == b@),
        decreases cells.len() - i,
    {
        let t = trim_str(cells[i]);
        let u = to_upper(t.as_str());
        assert(views[i as int] == cells[i as int]@);
        if str_eq(u.as_str(), a) || str_eq(u.as_str(), b) {
            return true;
        }
        i = i + 1;
    }
    false
}

pub fn is_language_group_header(cells: &[&str]) -> (r: bool)
    ensures
        r == language_group_header(cells@.map_values(|c: &str| c@)),
{
    any_cell_is(cells, "N", "N") && any_cell_is(cells, "TOT.", "TOT") && any_cell_is(cells, "F", "F")
}

/// A paragraph that announces a vote ("Stemming over ..." / "Vote sur ...").
pub open spec fn vote_title_paragraph(text: Seq<char>) -> bool {
    let lower = lowercase(text);
    starts_with(lower, "stemming over"@) || starts_with(lower, "vote sur"@) || contains(
        lower,
        "stemming over amendement"@,
    ) || contains(lower, "vote sur l'amendement"@) || contains(lower, "stemming over het geheel"@)
        || contains(lower, "vote sur l'ensemble"@)
}

pub fn paragraph_vote_title(text: &str) -> (r: bool)
    ensures
        r == vote_title_paragraph(text@),
{
    let lower = to_lower(text);
    let l = lower.as_str();
    str_starts_with(l, "stemming over") || str_starts_with(l, "vote sur") || str_contains(
        l,
        "stemming over amendement",
    ) || str_contains(l, "vote sur l'amendement") || str_contains(l, "stemming over het geheel")
        || str_contains(l, "vote sur l'ensemble")
}

pub open spec fn sitting_standing(text: Seq<char>) -> bool {
    contains(lowercase(text), "bij zitten en opstaan"@) || contains(lowercase(text), "par assis et levé"@)
}

pub fn is_sitting_standing_proposal(text: &str) -> (r: bool)
    ensures
        r == sitting_standing(text@),
{
    let lower = to_lower(text);
    str_contains(lower.as_str(), "bij zitten en opstaan") || str_contains(lower.as_str(), "par assis et levé")
}

/// Number of ASCII digits that `s` starts with.
pub open spec fn leading_digits(s: Seq<char>) -> nat
    decreases s.len(),
{
    if s.len() > 0 && is_digit(s[0]) {
        1 + leading_digits(s.drop_first())
    } else {
        0
    }
}

/// A numbered agenda heading: after leading white space, digits and then a space.
pub open spec fn numbered_heading(text: Seq<char>) -> bool {
    let t = trim_start(text);
    let d = leading_digits(t);
    d > 0 && d < t.len() && t[d as int] == ' '
}

pub fn is_numbered_agenda_heading(text: &str) -> (r: bool)
    ensures
        r == numbered_heading(text@),
{
    let t = crate::text::trim_start_str(text);
    let v = to_chars(t.as_str());
    let mut d: usize = 0;
    assert(v@.skip(0) =~= v@);
    while d < v.len() && is_digit_char_at(&v, d)
        invariant
            d <= v.len(),
            v@ == trim_start(text@),
            leading_digits(v@) == d + leading_digits(v@.skip(d as int)),
        decreases v.len() - d,
    {
        proof {
            assert(v@.skip(d as int).drop_first() =~= v@.skip(d + 1));
        }
        d = d + 1;
    }
    proof {
        if d < v.len() {
            assert(v@.skip(d as int)[0] == v@[d as int]);
        }
        assert(leading_digits(v@.skip(d as int)) == 0);
    }
    d > 0 && d < v.len() && v[d] == ' '
}

fn is_digit_char_at(v: &Vec<char>, i: usize) -> (r: bool)
    requires
        i < v.len(),
    ensures
        r == is_digit(v@[i as int]),
{
    '0' <= v[i] && v[i] <= '9'
}

/// A paragraph that lists voter names: longer than three bytes once trimmed, no vote
/// marker of any kind, some letter, and no roll-call heading words.
pub open spec fn voter_names(text: Seq<char>) -> bool {
    let t = trim(text);
    &&& (vstd::utf8::encode_utf8(t).len() as usize) > 3
    &&& appendix_vote_number(t) is None
    &&& electronic_count_number(t) is None
    &&& !regex_is_match(COMPACT_VOTE_PATTERN@, t)
    &&& !regex_is_match(PARAGRAPH_VOTE_PATTERN@, t)
    &&& !regex_is_match(PARAGRAPH_VOTE_REVERSE_PATTERN@, t)
    &&& !regex_is_match(PARAGRAPH_VOTE_TIGHT_PATTERN@, t)
    &&& exists|i: int| 0 <= i < t.len() && #[trigger] alphabetic(t[i])
    &&& !contains(lowercase(t), "naamstemming"@)
    &&& !contains(lowercase(t), "vote nominatif"@)
}

pub fn looks_like_voter_names(text: &str) -> (r: bool)
    ensures
        r == voter_names(text@),
{
    let t = trim_str(text);
    let ts = t.as_str();
    if ts.len() <= 3 {
        return false;
    }
    if parse_appendix_vote_number(ts).is_some() {
        return false;
    }
    if parse_electronic_count_number(ts).is_some() {
        return false;
    }
    if re_is_match(COMPACT_VOTE_PATTERN, ts) || re_is_match(PARAGRAPH_VOTE_PATTERN, ts)
        || re_is_match(PARAGRAPH_VOTE_REVERSE_PATTERN, ts) || re_is_match(
        PARAGRAPH_VOTE_TIGHT_PATTERN,
        ts,
    ) {
        return false;
    }
    let v = to_chars(ts);
    let mut any_alpha = false;
    let mut i: usize = 0;
    while i < v.len()
        invariant
            i <= v.len(),
            v@ == t@,
            any_alpha == exists|k: int| 0 <= k < i && #[trigger] alphabetic(v@[k]),
        decreases v.len() - i,
    {
        if is_alphabetic(v[i]) {
            any_alpha = true;
        }
        i = i + 1;
    }
    if !any_alpha {
        return false;
    }
    let lower = to_lower(ts);
    !str_contains(lower.as_str(), "naamstemming") && !str_contains(lower.as_str(), "vote nominatif")
}

/// The text is a question to reuse the previous vote's result.
pub fn is_reuse_question(text: &str) -> (r: bool)
    ensures
        r == regex_is_match(REUSE_RESULT_PATTERN@, text@),
{
    re_is_match(REUSE_RESULT_PATTERN, text)
}

/// The text records a formal sitting/standing outcome.
pub fn is_sitting_standing_outcome(text: &str) -> (r: bool)
    ensures
        r == regex_is_match(SITTING_STANDING_OUTCOME_PATTERN@, text@),
{
    re_is_match(SITTING_STANDING_OUTCOME_PATTERN, text)
}

/// The text reports that the quorum was not reached.
pub fn is_quorum_failure(text: &str) -> (r: bool)
    ensures
        r == regex_is_match(QUORUM_FAILURE_PATTERN@, text@),
{
    re_is_match(QUORUM_FAILURE_PATTERN, text)
}

/// The text opens a formal vote sequence.
pub fn is_formal_vote_begin(text: &str) -> (r: bool)
    ensures
        r == regex_is_match(FORMAL_VOTE_BEGIN_PATTERN@, text@),
{
    re_is_match(FORMAL_VOTE_BEGIN_PATTERN, text)
}

} // verus!
