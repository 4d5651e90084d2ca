//! Hearings and interpellations of a meeting, recognised from agenda headings.
use vstd::prelude::*;
use crate::agenda_timeline::{build_agenda_timeline, timeline_item_ok, AgendaItem, ItemKind, MeetingKind};
use crate::report_blocks::{lemma_parsed_block_indices, parse_report_blocks, HtmlElement};
use crate::pattern::{capture, group_at, re_captures_all, re_is_match, re_remove_first, regex_is_match, regex_remove_first};
use crate::text::{
    contains, ends_with, join, join_strs, lowercase, owned, replace, replace_char_str,
    replace_str, sort_dedup_strings, sorted_distinct, split_str, starts_with, str_contains,
    str_ends_with, str_eq, str_find, str_starts_with, strings_contain, strip_trailing_str,
    to_chars, to_lower, to_upper, trim, trim_str, words, words_str, from_char_range,
};
use crate::utils::NON_BREAKING_SPACE;

verus! {

pub struct HearingDraft {
    pub hearing_id: String,
    pub session_id: u32,
    pub meeting_id: u32,
    pub meeting_kind: MeetingKind,
    pub agenda_id: String,
    pub title_nl: String,
    pub title_fr: String,
    pub witnesses: String,
    pub dossier_id: String,
    pub internal_ids: String,
    pub source_url: String,
    pub cache_path: String,
}

pub struct InterpellationDraft {
    pub interpellation_id: String,
    pub session_id: u32,
    pub meeting_id: u32,
    pub meeting_kind: MeetingKind,
    pub agenda_id: String,
    pub interpellators: String,
    pub respondents: String,
    pub topics_nl: String,
    pub topics_fr: String,
    pub internal_ids: String,
    pub dossier_id: String,
    pub source_url: String,
    pub cache_path: String,
}

/// The interpellators, respondents, topics and site ids read from an interpellation title.
pub struct InterpellationParsed {
    pub interpellators: Vec<String>,
    pub respondents: Vec<String>,
    pub topics: Vec<String>,
    pub internal_ids: Vec<String>,
}

/// `Interpellatie van X aan Y over "T" (NNNNNNNNI)`, in Dutch or French.
pub const INTERPELLATION_PATTERN: &'static str = r#"(?m)(?:Interpellatie van|Interpellation de)\s+(.+?)\s+(?:aan|à)\s+(.+?)\s+(?:over|sur)\s*["'""](.+?)["'""]\s*\((\d{8}[Ii])\)"#;
/// `- X aan Y over "T" (NNNNNNNNI)`: one line of a joint interpellation.
pub const INTERPELLATION_BULLET_PATTERN: &'static str = r#"(?m)^-\s*(.+?)\s+(?:aan|à)\s+(.+?)\s+(?:over|sur)\s*["'""](.+?)["'""]\s*\((\d{8}[Ii])\)"#;
/// A site interpellation id in parentheses.
pub const INTERPELLATION_ID_PATTERN: &'static str = r"\((\d{8}[Ii])\)";
/// A two-digit agenda number and the space after it.
pub const AGENDA_NUMBER_PREFIX_PATTERN: &'static str = r"^\d{2}\s+";

pub open spec fn interpellation_section(section: Seq<char>) -> bool {
    contains(lowercase(section), "interpellatie"@) || contains(lowercase(section), "interpellation"@)
}

pub fn is_interpellation_section(section: &str) -> (r: bool)
    ensures
        r == interpellation_section(section@),
{
    let lower = to_lower(section);
    str_contains(lower.as_str(), "interpellatie") || str_contains(lower.as_str(), "interpellation")
}

/// A lower-cased heading without its agenda number, trimmed.
pub open spec fn body_of(lower: Seq<char>) -> Seq<char> {
    trim(regex_remove_first(AGENDA_NUMBER_PREFIX_PATTERN@, trim(lower)))
}

fn heading_body(lower: &str) -> (r: String)
    ensures
        r@ == body_of(lower@),
{
    let t = trim_str(lower);
    let removed = re_remove_first(AGENDA_NUMBER_PREFIX_PATTERN, t.as_str());
    trim_str(removed.as_str())
}

pub open spec fn joint_group_start(text: Seq<char>) -> bool {
    let body = body_of(lowercase(text));
    contains(body, "samengevoegde interpellaties"@) || contains(body, "interpellations jointes"@)
}

pub fn is_joint_interpellation_group_start(text: &str) -> (r: bool)
    ensures
        r == joint_group_start(text@),
{
    let lower = to_lower(text);
    let body = heading_body(lower.as_str());
    str_contains(body.as_str(), "samengevoegde interpellaties") || str_contains(body.as_str(), "interpellations jointes")
}

pub open spec fn joint_fr_header(text: Seq<char>) -> bool {
    contains(body_of(lowercase(text)), "interpellations jointes"@)
}

pub fn is_joint_interpellation_fr_header(text: &str) -> (r: bool)
    ensures
        r == joint_fr_header(text@),
{
    let lower = to_lower(text);
    let body = heading_body(lower.as_str());
    str_contains(body.as_str(), "interpellations jointes")
}

/// A heading with non-breaking spaces, `&quot;` entities and line breaks normalised and
/// its white space collapsed to single spaces.
pub open spec fn cleaned_heading(text: Seq<char>) -> Seq<char> {
    join(
        words(replace(replace(replace(text, seq![NON_BREAKING_SPACE], seq![' ']), "&quot;"@, "\""@), seq!['\n'], seq![' '])),
        " "@,
    )
}

pub fn clean_heading(text: &str) -> (r: String)
    ensures
        r@ == cleaned_heading(text@),
{
    let a = replace_char_str(text, NON_BREAKING_SPACE, " ");
    proof {
        reveal_strlit(" ");
        reveal_strlit("&quot;");
        assert(" "@ =~= seq![' ']);
    }
    let b = replace_str(a.as_str(), "&quot;", "\"");
    let c = replace_char_str(b.as_str(), '\n', " ");
    let parts = words_str(c.as_str());
    join_strs(&parts, " ")
}

pub open spec fn interpellation_bullet(text: Seq<char>) -> bool {
    let c = cleaned_heading(text);
    starts_with(c, seq!['-']) && (regex_is_match(INTERPELLATION_BULLET_PATTERN@, c) || (regex_is_match(
        INTERPELLATION_ID_PATTERN@,
        c,
    ) && (contains(c, " aan "@) || contains(c, " à "@))))
}

pub fn is_interpellation_bullet_line(text: &str) -> (r: bool)
    ensures
        r == interpellation_bullet(text@),
{
    let clean = clean_heading(text);
    let v = to_chars(clean.as_str());
    proof {
        if v@.len() > 0 {
            assert(v@.take(1) =~= seq![v@[0]]);
            if v@[0] != '-' {
                assert(v@.take(1)[0] != seq!['-'][0]);
            }
        }
    }
    if !(v.len() > 0 && v[0] == '-') {
        return false;
    }
    re_is_match(INTERPELLATION_BULLET_PATTERN, clean.as_str()) || (re_is_match(INTERPELLATION_ID_PATTERN, clean.as_str())
        && (str_contains(clean.as_str(), " aan ") || str_contains(clean.as_str(), " à ")))
}

pub open spec fn french_bullet(text: Seq<char>) -> bool {
    contains(cleaned_heading(text), " à "@) || contains(cleaned_heading(text), " sur \""@)
}

pub fn is_french_interpellation_bullet(text: &str) -> (r: bool)
    ensures
        r == french_bullet(text@),
{
    let clean = clean_heading(text);
    str_contains(clean.as_str(), " à ") || str_contains(clean.as_str(), " sur \"")
}

pub open spec fn motion_conclusion(lower: Seq<char>) -> bool {
    contains(lower, "motie ingediend tot besluit"@) || contains(lower, "moties ingediend tot besluit"@)
        || contains(lower, "motion déposée en conclusion"@) || contains(lower, "motions déposées en conclusion"@)
        || contains(lower, "motion deposee en conclusion"@) || contains(lower, "motions deposees en conclusion"@)
}

pub fn is_motion_conclusion_heading(lower: &str) -> (r: bool)
    ensures
        r == motion_conclusion(lower@),
{
    str_contains(lower, "motie ingediend tot besluit") || str_contains(lower, "moties ingediend tot besluit")
        || str_contains(lower, "motion déposée en conclusion") || str_contains(lower, "motions déposées en conclusion")
        || str_contains(lower, "motion deposee en conclusion") || str_contains(lower, "motions deposees en conclusion")
}

pub open spec fn question_heading(lower: Seq<char>) -> bool {
    let body = body_of(lower);
    starts_with(body, "vraag van"@) || starts_with(body, "question de"@) || contains(body, "samengevoegde vragen"@)
        || contains(body, "toegevoegde vragen"@) || contains(body, "questions jointes"@) || starts_with(body, seq!['-'])
}

pub fn is_question_heading(lower: &str) -> (r: bool)
    ensures
        r == question_heading(lower@),
{
    let body = heading_body(lower);
    let b = body.as_str();
    let v = to_chars(b);
    proof {
        if v@.len() > 0 {
            assert(v@.take(1) =~= seq![v@[0]]);
            if v@[0] != '-' {
                assert(v@.take(1)[0] != seq!['-'][0]);
            }
        }
    }
    str_starts_with(b, "vraag van") || str_starts_with(b, "question de") || str_contains(b, "samengevoegde vragen")
        || str_contains(b, "toegevoegde vragen") || str_contains(b, "questions jointes") || (v.len() > 0 && v[0] == '-')
}

pub open spec fn interpellation_heading(lower: Seq<char>) -> bool {
    !motion_conclusion(lower) && (contains(body_of(lower), "interpellatie van"@) || contains(
        body_of(lower),
        "interpellation de"@,
    ) || joint_group_start(lower))
}

pub fn is_interpellation_heading(lower: &str) -> (r: bool)
    ensures
        r == interpellation_heading(lower@),
{
    if is_motion_conclusion_heading(lower) {
        return false;
    }
    let body = heading_body(lower);
    str_contains(body.as_str(), "interpellatie van") || str_contains(body.as_str(), "interpellation de")
        || is_joint_interpellation_group_start(lower)
}

pub open spec fn hearing_heading(lower: Seq<char>) -> bool {
    !question_heading(lower) && !interpellation_heading(lower) && (contains(lower, "hoorzitting met"@)
        || contains(lower, "audition de:"@) || ends_with(lower, "audition de"@))
}

pub fn is_hearing_heading(lower: &str) -> (r: bool)
    ensures
        r == hearing_heading(lower@),
{
    if is_question_heading(lower) {
        return false;
    }
    if is_interpellation_heading(lower) {
        return false;
    }
    str_contains(lower, "hoorzitting met") || str_contains(lower, "audition de:") || str_ends_with(lower, "audition de")
}

pub open spec fn non_question_proceeding(text: Seq<char>) -> bool {
    let lower = lowercase(text);
    !motion_conclusion(lower) && (hearing_heading(lower) || interpellation_heading(lower))
}

/// True when an h2 heading is a hearing or interpellation agenda item (not a question).
pub fn is_non_question_proceeding_heading(text: &str) -> (r: bool)
    ensures
        r == non_question_proceeding(text@),
{
    let lower = to_lower(text);
    if is_motion_conclusion_heading(lower.as_str()) {
        return false;
    }
    is_hearing_heading(lower.as_str()) || is_interpellation_heading(lower.as_str())
}

/// The kind of an agenda heading: a motion conclusion is procedural; interpellations and
/// hearings by their wording; otherwise by the plenary section, or, in a commission, a
/// question heading or a general debate.
pub open spec fn heading_kind(meeting_kind: MeetingKind, section: Seq<char>, h2: Seq<char>) -> ItemKind {
    let lower = lowercase(h2);
    let s = lowercase(section);
    if motion_conclusion(lower) {
        ItemKind::Procedural
    } else if interpellation_heading(lower) {
        ItemKind::Interpellation
    } else if hearing_heading(lower) {
        ItemKind::Hearing
    } else {
        match meeting_kind {
            MeetingKind::Plenary => if contains(s, "mondelinge"@) || contains(s, "question"@) {
                ItemKind::Question
            } else if contains(s, "voorstel"@) || contains(s, "proposition"@) {
                ItemKind::Proposition
            } else if contains(s, "mededeling"@) {
                ItemKind::Notice
            } else if contains(s, "naamstemming"@) || contains(s, "vote"@) {
                ItemKind::Vote
            } else {
                ItemKind::GeneralDebate
            },
            MeetingKind::Commission => if question_heading(lower) {
                ItemKind::Question
            } else {
                ItemKind::GeneralDebate
            },
        }
    }
}

pub fn classify_heading_kind(meeting_kind: MeetingKind, section: &str, h2_text: &str) -> (r: ItemKind)
    ensures
        r == heading_kind(meeting_kind, section@, h2_text@),
{
    let lower_s = to_lower(h2_text);
    let lower = lower_s.as_str();
    let sect_s = to_lower(section);
    let sect = sect_s.as_str();
    if is_motion_conclusion_heading(lower) {
        return ItemKind::Procedural;
    }
    if is_interpellation_heading(lower) {
        return ItemKind::Interpellation;
    }
    if is_hearing_heading(lower) {
        return ItemKind::Hearing;
    }
    match meeting_kind {
        MeetingKind::Plenary => {
            if str_contains(sect, "mondelinge") || str_contains(sect, "question") {
                return ItemKind::Question;
            }
            if str_contains(sect, "voorstel") || str_contains(sect, "proposition") {
                return ItemKind::Proposition;
            }
            if str_contains(sect, "mededeling") {
                return ItemKind::Notice;
            }
            if str_contains(sect, "naamstemming") || str_contains(sect, "vote") {
                return ItemKind::Vote;
            }
            ItemKind::GeneralDebate
        },
        MeetingKind::Commission => {
            if is_question_heading(lower) {
                ItemKind::Question
            } else {
                ItemKind::GeneralDebate
            }
        },
    }
}

/// A site id as the site writes it: trimmed, upper-cased, any remaining `i` made `I`.
pub open spec fn normalized_site_id(raw: Seq<char>) -> Seq<char> {
    replace(crate::text::uppercase(trim(raw)), seq!['i'], seq!['I'])
}

fn normalize_site_id(raw: &str) -> (r: String)
    ensures
        r@ == normalized_site_id(raw@),
{
    let t = trim_str(raw);
    let u = to_upper(t.as_str());
    proof {
        reveal_strlit("I");
    }
    let r = replace_char_str(u.as_str(), 'i', "I");
    assert("I"@ =~= seq!['I']);
    r
}

/// The site interpellation ids of a text, in order.
pub open spec fn interpellation_ids(text: Seq<char>) -> Seq<Seq<char>> {
    crate::pattern::regex_captures_all(INTERPELLATION_ID_PATTERN@, text).map_values(
        |caps: Seq<Option<Seq<char>>>| normalized_site_id(crate::pattern::group_text(caps, 1)),
    )
}

pub fn extract_interpellation_ids_from_text(text: &str) -> (r: Vec<String>)
    ensures
        r.deep_view() == interpellation_ids(text@),
{
    let all = re_captures_all(INTERPELLATION_ID_PATTERN, text);
    let mut out: Vec<String> = Vec::new();
    let mut i: usize = 0;
    while i < all.len()
        invariant
            i <= all.len(),
            all.deep_view() == crate::pattern::regex_captures_all(INTERPELLATION_ID_PATTERN@, text@),
            out.deep_view() == all.deep_view().take(i as int).map_values(
                |caps: Seq<Option<Seq<char>>>| normalized_site_id(crate::pattern::group_text(caps, 1)),
            ),
        decreases all.len() - i,
    {
        let g = match group_at(&all[i], 1) {
            Some(g) => g,
            None => String::new(),
        };
        assert(all@[i as int].deep_view() == all.deep_view()[i as int]);
        assert(g@ == crate::pattern::group_text(all.deep_view()[i as int], 1));
        let id = normalize_site_id(g.as_str());
        let ghost before = out.deep_view();
        out.push(id);
        proof {
            assert(all.deep_view()[i as int] == all@[i as int].deep_view());
            assert(all.deep_view().take(i + 1) =~= all.deep_view().take(i as int).push(all.deep_view()[i as int]));
            assert(out.deep_view() =~= before.push(normalized_site_id(crate::pattern::group_text(all.deep_view()[i as int], 1))));
            assert(out.deep_view() =~= all.deep_view().take(i + 1).map_values(
                |caps: Seq<Option<Seq<char>>>| normalized_site_id(crate::pattern::group_text(caps, 1)),
            ));
        }
        i = i + 1;
    }
    assert(all.deep_view().take(all.len() as int) =~= all.deep_view());
    out
}

/// A parsed title as plain values: interpellators, respondents, topics, site ids.
pub open spec fn parsed_view(p: InterpellationParsed) -> (Seq<Seq<char>>, Seq<Seq<char>>, Seq<Seq<char>>, Seq<Seq<char>>) {
    (p.interpellators.deep_view(), p.respondents.deep_view(), p.topics.deep_view(), p.internal_ids.deep_view())
}

/// One regex match of an interpellation: its interpellator, its respondent (once, when
/// not empty), its topic and its site id.
pub open spec fn push_capture(
    st: (Seq<Seq<char>>, Seq<Seq<char>>, Seq<Seq<char>>, Seq<Seq<char>>),
    caps: Seq<Option<Seq<char>>>,
) -> (Seq<Seq<char>>, Seq<Seq<char>>, Seq<Seq<char>>, Seq<Seq<char>>) {
    let respondent = trim(crate::pattern::group_text(caps, 2));
    (
        st.0.push(trim(crate::pattern::group_text(caps, 1))),
        if respondent.len() > 0 && !st.1.contains(respondent) { st.1.push(respondent) } else { st.1 },
        st.2.push(trim(crate::pattern::group_text(caps, 3))),
        st.3.push(normalized_site_id(crate::pattern::group_text(caps, 4))),
    )
}

pub open spec fn fold_captures(all: Seq<Seq<Option<Seq<char>>>>) -> (Seq<Seq<char>>, Seq<Seq<char>>, Seq<Seq<char>>, Seq<Seq<char>>)
    decreases all.len(),
{
    if all.len() == 0 {
        (Seq::empty(), Seq::empty(), Seq::empty(), Seq::empty())
    } else {
        push_capture(fold_captures(all.drop_last()), all.last())
    }
}

/// The fields of an interpellation title: every match of the full form, then every match
/// of the bullet form, in the cleaned title; `None` when the title is empty or names no
/// interpellator.
pub open spec fn interpellation_parse(text: Seq<char>) -> Option<(Seq<Seq<char>>, Seq<Seq<char>>, Seq<Seq<char>>, Seq<Seq<char>>)> {
    let c = cleaned_heading(text);
    if c.len() == 0 {
        None
    } else {
        let st = fold_captures(
            crate::pattern::regex_captures_all(INTERPELLATION_PATTERN@, c) + crate::pattern::regex_captures_all(
                INTERPELLATION_BULLET_PATTERN@,
                c,
            ),
        );
        if st.0.len() == 0 {
            None
        } else {
            Some(st)
        }
    }
}

fn push_interpellation_capture(parsed: &mut InterpellationParsed, caps: &Vec<Option<String>>)
    ensures
        parsed_view(*final(parsed)) == push_capture(parsed_view(*old(parsed)), caps.deep_view()),
{
    let g1 = match group_at(caps, 1) { Some(g) => g, None => String::new() };
    let g2 = match group_at(caps, 2) { Some(g) => g, None => String::new() };
    let g3 = match group_at(caps, 3) { Some(g) => g, None => String::new() };
    let g4 = match group_at(caps, 4) { Some(g) => g, None => String::new() };
    let ghost before = parsed_view(*parsed);
    parsed.interpellators.push(trim_str(g1.as_str()));
    let respondent = trim_str(g2.as_str());
    if !respondent.as_str().is_empty() && !strings_contain(&parsed.respondents, respondent.as_str()) {
        parsed.respondents.push(respondent);
    }
    parsed.topics.push(trim_str(g3.as_str()));
    parsed.internal_ids.push(normalize_site_id(g4.as_str()));
    proof {
        assert(parsed.interpellators.deep_view() =~= before.0.push(trim(crate::pattern::group_text(caps.deep_view(), 1))));
        assert(parsed.topics.deep_view() =~= before.2.push(trim(crate::pattern::group_text(caps.deep_view(), 3))));
        assert(parsed.internal_ids.deep_view() =~= before.3.push(normalized_site_id(crate::pattern::group_text(caps.deep_view(), 4))));
        let r = trim(crate::pattern::group_text(caps.deep_view(), 2));
        if r.len() > 0 && !before.1.contains(r) {
            assert(parsed.respondents.deep_view() =~= before.1.push(r));
        }
    }
}

fn fold_capture_list(parsed: &mut InterpellationParsed, all: &Vec<Vec<Option<String>>>)
    ensures
        parsed_view(*final(parsed)) == fold_captures_from(parsed_view(*old(parsed)), all.deep_view()),
{
    let ghost start = parsed_view(*parsed);
    let mut i: usize = 0;
    while i < all.len()
        invariant
            i <= all.len(),
            parsed_view(*parsed) == fold_captures_from(start, all.deep_view().take(i as int)),
        decreases all.len() - i,
    {
        push_interpellation_capture(parsed, &all[i]);
        proof {
            assert(all.deep_view().take(i + 1).drop_last() =~= all.deep_view().take(i as int));
            assert(all.deep_view().take(i + 1).last() == all@[i as int].deep_view());
        }
        i = i + 1;
    }
    assert(all.deep_view().take(all.len() as int) =~= all.deep_view());
}

/// `fold_captures` continued from a state.
pub open spec fn fold_captures_from(
    st: (Seq<Seq<char>>, Seq<Seq<char>>, Seq<Seq<char>>, Seq<Seq<char>>),
    all: Seq<Seq<Option<Seq<char>>>>,
) -> (Seq<Seq<char>>, Seq<Seq<char>>, Seq<Seq<char>>, Seq<Seq<char>>)
    decreases all.len(),
{
    if all.len() == 0 {
        st
    } else {
        push_capture(fold_captures_from(st, all.drop_last()), all.last())
    }
}

proof fn lemma_fold_from_concat(
    st: (Seq<Seq<char>>, Seq<Seq<char>>, Seq<Seq<char>>, Seq<Seq<char>>),
    a: Seq<Seq<Option<Seq<char>>>>,
    b: Seq<Seq<Option<Seq<char>>>>,
)
    ensures
        fold_captures_from(fold_captures_from(st, a), b) == fold_captures_from(st, a + b),
    decreases b.len(),
{
    if b.len() == 0 {
        assert(a + b =~= a);
    } else {
        lemma_fold_from_concat(st, a, b.drop_last());
        assert((a + b).drop_last() =~= a + b.drop_last());
        assert((a + b).last() == b.last());
    }
}

proof fn lemma_fold_empty_start(all: Seq<Seq<Option<Seq<char>>>>)
    ensures
        fold_captures_from((Seq::empty(), Seq::empty(), Seq::empty(), Seq::empty()), all) == fold_captures(all),
    decreases all.len(),
{
    if all.len() > 0 {
        lemma_fold_empty_start(all.drop_last());
    }
}

pub fn parse_interpellation_text(text: &str) -> (r: Option<InterpellationParsed>)
    ensures
        match r {
            Some(p) => interpellation_parse(text@) == Some(parsed_view(p)),
            None => interpellation_parse(text@) is None,
        },
{
    let clean = clean_heading(text);
    if clean.as_str().is_empty() {
        return None;
    }
    let mut parsed = InterpellationParsed {
        interpellators: Vec::new(),
        respondents: Vec::new(),
        topics: Vec::new(),
        internal_ids: Vec::new(),
    };
    let ghost start = parsed_view(parsed);
    assert(start == (Seq::<Seq<char>>::empty(), Seq::<Seq<char>>::empty(), Seq::<Seq<char>>::empty(), Seq::<Seq<char>>::empty()));
    let first = re_captures_all(INTERPELLATION_PATTERN, clean.as_str());
    let second = re_captures_all(INTERPELLATION_BULLET_PATTERN, clean.as_str());
    fold_capture_list(&mut parsed, &first);
    fold_capture_list(&mut parsed, &second);
    proof {
        lemma_fold_from_concat(start, first.deep_view(), second.deep_view());
        lemma_fold_empty_start(first.deep_view() + second.deep_view());
    }
    if parsed.interpellators.len() == 0 {
        return None;
    }
    Some(parsed)
}

/// `out` with each element of `xs` that it lacks appended, in order.
pub open spec fn append_new(out: Seq<Seq<char>>, xs: Seq<Seq<char>>) -> Seq<Seq<char>>
    decreases xs.len(),
{
    if xs.len() == 0 {
        out
    } else {
        let prev = append_new(out, xs.drop_last());
        if prev.contains(xs.last()) {
            prev
        } else {
            prev.push(xs.last())
        }
    }
}

fn append_missing(out: &mut Vec<String>, xs: &Vec<String>)
    ensures
        final(out).deep_view() == append_new(old(out).deep_view(), xs.deep_view()),
{
    let ghost start = out.deep_view();
    let mut i: usize = 0;
    while i < xs.len()
        invariant
            i <= xs.len(),
            out.deep_view() == append_new(start, xs.deep_view().take(i as int)),
        decreases xs.len() - i,
    {
        proof {
            assert(xs.deep_view().take(i + 1).drop_last() =~= xs.deep_view().take(i as int));
            assert(xs.deep_view().take(i + 1).last() == xs@[i as int]@);
        }
        if !strings_contain(out, xs[i].as_str()) {
            let ghost before = out.deep_view();
            out.push(xs[i].clone());
            assert(out.deep_view() =~= before.push(xs@[i as int]@));
        }
        i = i + 1;
    }
    assert(xs.deep_view().take(xs.len() as int) =~= xs.deep_view());
}

/// The Dutch and French parses merged: each list in order, each element once.
pub open spec fn merged_view(
    nl: Option<(Seq<Seq<char>>, Seq<Seq<char>>, Seq<Seq<char>>, Seq<Seq<char>>)>,
    fr: Option<(Seq<Seq<char>>, Seq<Seq<char>>, Seq<Seq<char>>, Seq<Seq<char>>)>,
) -> (Seq<Seq<char>>, Seq<Seq<char>>, Seq<Seq<char>>, Seq<Seq<char>>) {
    let e = Seq::<Seq<char>>::empty();
    let a = match nl {
        Some(p) => (append_new(e, p.0), append_new(e, p.1), append_new(e, p.2), append_new(e, p.3)),
        None => (e, e, e, e),
    };
    match fr {
        Some(p) => (append_new(a.0, p.0), append_new(a.1, p.1), append_new(a.2, p.2), append_new(a.3, p.3)),
        None => a,
    }
}

fn merge_into(out: &mut InterpellationParsed, src: &InterpellationParsed)
    ensures
        parsed_view(*final(out)) == (
            append_new(parsed_view(*old(out)).0, parsed_view(*src).0),
            append_new(parsed_view(*old(out)).1, parsed_view(*src).1),
            append_new(parsed_view(*old(out)).2, parsed_view(*src).2),
            append_new(parsed_view(*old(out)).3, parsed_view(*src).3),
        ),
{
    append_missing(&mut out.interpellators, &src.interpellators);
    append_missing(&mut out.respondents, &src.respondents);
    append_missing(&mut out.topics, &src.topics);
    append_missing(&mut out.internal_ids, &src.internal_ids);
}

fn merge_interpellation_parsed(nl: &Option<InterpellationParsed>, fr: &Option<InterpellationParsed>) -> (r: InterpellationParsed)
    ensures
        parsed_view(r) == merged_view(
            match *nl { Some(p) => Some(parsed_view(p)), None => None },
            match *fr { Some(p) => Some(parsed_view(p)), None => None },
        ),
{
    let mut out = InterpellationParsed {
        interpellators: Vec::new(),
        respondents: Vec::new(),
        topics: Vec::new(),
        internal_ids: Vec::new(),
    };
    assert(parsed_view(out) == (Seq::<Seq<char>>::empty(), Seq::<Seq<char>>::empty(), Seq::<Seq<char>>::empty(), Seq::<Seq<char>>::empty()));
    match nl {
        Some(p) => merge_into(&mut out, p),
        None => {},
    }
    match fr {
        Some(p) => merge_into(&mut out, p),
        None => {},
    }
    out
}

/// The witnesses named after `hoorzitting met:` or `audition de:` in a cleaned title.
pub open spec fn witnesses_of(title: Seq<char>) -> Option<Seq<char>> {
    let clean = cleaned_heading(title);
    match witness_start_of(lowercase(clean)) {
        None => None,
        Some(k) => {
            let after = if k <= clean.len() { clean.skip(k) } else { Seq::empty() };
            let w = trim(crate::text::strip_trailing(trim(after), ':'));
            if w.len() == 0 { None } else { Some(w) }
        },
    }
}

/// Where the witness list starts in a lower-cased title: after `hoorzitting met:`, else
/// after `audition de:`.
pub open spec fn witness_start_of(lower: Seq<char>) -> Option<int> {
    match crate::text::first_occurrence(lower, "hoorzitting met:"@) {
        Some(i) => Some(i + "hoorzitting met:"@.len()),
        None => match crate::text::first_occurrence(lower, "audition de:"@) {
            Some(i) => Some(i + "audition de:"@.len()),
            None => None,
        },
    }
}

/// The marker `m` first occurs in `lower` ending exactly at `k`.
pub open spec fn first_marker_ends_at(lower: Seq<char>, m: Seq<char>, k: int) -> bool {
    &&& k >= m.len()
    &&& crate::text::occurs_at(lower, m, k - m.len())
    &&& forall|j: int| 0 <= j < k - m.len() ==> !crate::text::occurs_at(lower, m, j)
}

proof fn lemma_least_occurrence(h: Seq<char>, n: Seq<char>, i: int)
    requires
        crate::text::occurs_at(h, n, i),
    ensures
        exists|m: int| crate::text::occurs_at(h, n, m) && forall|j: int| 0 <= j < m ==> !crate::text::occurs_at(h, n, j),
    decreases i,
{
    if exists|j: int| 0 <= j < i && crate::text::occurs_at(h, n, j) {
        let j = choose|j: int| 0 <= j < i && crate::text::occurs_at(h, n, j);
        lemma_least_occurrence(h, n, j);
    } else {
        assert(crate::text::occurs_at(h, n, i) && forall|j: int| 0 <= j < i ==> !crate::text::occurs_at(h, n, j));
    }
}

/// Where a witness list starts: right after the end of the first `hoorzitting met:` in the
/// lower-cased title, else right after the end of the first `audition de:`; nowhere when
/// the title holds neither. The start is never at the marker itself, so the witnesses
/// never begin with it.
pub proof fn lemma_witness_start_law(lower: Seq<char>)
    ensures
        witness_start_of(lower) is None <==> (!crate::text::contains(lower, "hoorzitting met:"@) && !crate::text::contains(
            lower,
            "audition de:"@,
        )),
        witness_start_of(lower) matches Some(k) ==> {
            ||| crate::text::contains(lower, "hoorzitting met:"@) && first_marker_ends_at(lower, "hoorzitting met:"@, k)
            ||| !crate::text::contains(lower, "hoorzitting met:"@) && first_marker_ends_at(lower, "audition de:"@, k)
        },
{
    let m1 = "hoorzitting met:"@;
    let m2 = "audition de:"@;
    if crate::text::contains(lower, m1) {
        lemma_least_occurrence(lower, m1, choose|i: int| crate::text::occurs_at(lower, m1, i));
        let i = choose|i: int| crate::text::occurs_at(lower, m1, i) && forall|j: int| 0 <= j < i ==> !crate::text::occurs_at(lower, m1, j);
        assert(crate::text::first_occurrence(lower, m1) == Some(i));
        assert(first_marker_ends_at(lower, m1, i + m1.len()));
    } else if crate::text::contains(lower, m2) {
        lemma_least_occurrence(lower, m2, choose|i: int| crate::text::occurs_at(lower, m2, i));
        let i = choose|i: int| crate::text::occurs_at(lower, m2, i) && forall|j: int| 0 <= j < i ==> !crate::text::occurs_at(lower, m2, j);
        assert(crate::text::first_occurrence(lower, m2) == Some(i));
        assert(first_marker_ends_at(lower, m2, i + m2.len()));
    }
}

/// The witnesses of a title are the text of the cleaned title from the end of its first
/// witness marker on (see `lemma_witness_start_law`), trimmed and without a trailing colon,
/// when that is not empty.
pub proof fn lemma_witnesses_after_marker(title: Seq<char>)
    ensures
        witnesses_of(title) matches Some(w) ==> exists|k: int| {
            &&& #[trigger] witness_start_of(lowercase(cleaned_heading(title))) == Some(k)
            &&& (first_marker_ends_at(lowercase(cleaned_heading(title)), "hoorzitting met:"@, k) || first_marker_ends_at(
                lowercase(cleaned_heading(title)),
                "audition de:"@,
                k,
            ))
            &&& w.len() > 0
            &&& w == trim(crate::text::strip_trailing(trim(if k <= cleaned_heading(title).len() { cleaned_heading(title).skip(k) } else { Seq::empty() }), ':'))
        },
{
    lemma_witness_start_law(lowercase(cleaned_heading(title)));
}

/// Where the first occurrence of `n` in `h` ends.
fn find_end(h: &str, n: &str) -> (r: Option<usize>)
    ensures
        match r {
            Some(k) => exists|i: int| crate::text::first_occurrence(h@, n@) == Some(i) && k == i + n@.len(),
            None => crate::text::first_occurrence(h@, n@) is None,
        },
{
    match str_find(h, n) {
        Some(i) => {
            let len = to_chars(n).len();
            let total = to_chars(h).len();
            proof {
                crate::text::lemma_occurs_at_bound(h@, n@, i as int);
            }
            assert(i + len <= total);
            Some(i + len)
        },
        None => None,
    }
}

fn witness_start(lower: &str) -> (r: Option<usize>)
    ensures
        match r {
            Some(k) => witness_start_of(lower@) == Some(k as int),
            None => witness_start_of(lower@) is None,
        },
{
    match find_end(lower, "hoorzitting met:") {
        Some(k) => Some(k),
        None => find_end(lower, "audition de:"),
    }
}

fn extract_witnesses_from_title(title: &str) -> (r: Option<String>)
    ensures
        r.deep_view() == witnesses_of(title@),
{
    let clean = clean_heading(title);
    let lower = to_lower(clean.as_str());
    let start = witness_start(lower.as_str());
    let k = match start {
        Some(k) => k,
        None => {
            return None;
        },
    };
    let cv = to_chars(clean.as_str());
    let after = if k <= cv.len() {
        from_char_range(&cv, k, cv.len())
    } else {
        String::new()
    };
    assert(k <= cv@.len() ==> after@ =~= clean@.skip(k as int));
    let t1 = trim_str(after.as_str());
    let t2 = strip_trailing_str(t1.as_str(), ':');
    let w = trim_str(t2.as_str());
    if w.as_str().is_empty() {
        None
    } else {
        Some(w)
    }
}

/// The first of `parts` from `i` on that is not blank, trimmed.
pub open spec fn first_nonblank_from(parts: Seq<Seq<char>>, i: int) -> Option<Seq<char>>
    decreases parts.len() - i,
{
    if i < 0 || i >= parts.len() {
        None
    } else if crate::text::trim(parts[i]).len() > 0 {
        Some(crate::text::trim(parts[i]))
    } else {
        first_nonblank_from(parts, i + 1)
    }
}

/// The first non-empty comma-separated id of a joined id list.
fn primary_internal_id(internal_ids: &str) -> (r: Option<String>)
    ensures
        r matches Some(id) ==> id@.len() > 0,
        match r {
            Some(id) => first_nonblank_from(crate::text::split(internal_ids@, ','), 0) == Some(id@),
            None => first_nonblank_from(crate::text::split(internal_ids@, ','), 0) is None,
        },
{
    let parts = split_str(internal_ids, ',');
    let mut i: usize = 0;
    while i < parts.len()
        invariant
            i <= parts@.len(),
            parts.deep_view() == crate::text::split(internal_ids@, ','),
            first_nonblank_from(parts.deep_view(), 0) == first_nonblank_from(parts.deep_view(), i as int),
        decreases parts.len() - i,
    {
        assert(parts.deep_view()[i as int] == parts@[i as int]@);
        let t = trim_str(parts[i].as_str());
        if !t.as_str().is_empty() {
            return Some(t);
        }
        i = i + 1;
    }
    None
}

/// Site ids of an item and of its titles, sorted, each once, joined by commas.
fn joined_ids(base: &Vec<String>, nl: &str, fr: &str) -> (r: String)
    ensures
        exists|l: Seq<Seq<char>>| #![trigger sorted_distinct(l)]
            sorted_distinct(l) && r@ == join(l, ","@) && forall|x: Seq<char>| l.contains(x) <==> (
            base.deep_view().contains(x) || interpellation_ids(nl@).contains(x) || interpellation_ids(fr@).contains(x)),
{
    let mut all: Vec<String> = Vec::new();
    let mut i: usize = 0;
    while i < base.len()
        invariant
            i <= base.len(),
            all.deep_view() == base.deep_view().take(i as int),
        decreases base.len() - i,
    {
        let ghost before = all.deep_view();
        all.push(base[i].clone());
        assert(all.deep_view() =~= before.push(base.deep_view()[i as int]));
        assert(base.deep_view().take(i + 1) =~= base.deep_view().take(i as int).push(base.deep_view()[i as int]));
        i = i + 1;
    }
    assert(base.deep_view().take(base.len() as int) =~= base.deep_view());
    let a = extract_interpellation_ids_from_text(nl);
    let b = extract_interpellation_ids_from_text(fr);
    let ghost pre = all.deep_view();
    let mut j: usize = 0;
    while j < a.len()
        invariant
            j <= a.len(),
            all.deep_view() == pre + a.deep_view().take(j as int),
        decreases a.len() - j,
    {
        let ghost before = all.deep_view();
        all.push(a[j].clone());
        assert(all.deep_view() =~= before.push(a.deep_view()[j as int]));
        assert(a.deep_view().take(j + 1) =~= a.deep_view().take(j as int).push(a.deep_view()[j as int]));
        assert(all.deep_view() =~= pre + a.deep_view().take(j + 1));
        j = j + 1;
    }
    assert(a.deep_view().take(a.len() as int) =~= a.deep_view());
    let ghost mid = all.deep_view();
    let mut k: usize = 0;
    while k < b.len()
        invariant
            k <= b.len(),
            all.deep_view() == mid + b.deep_view().take(k as int),
        decreases b.len() - k,
    {
        let ghost before = all.deep_view();
        all.push(b[k].clone());
        assert(all.deep_view() =~= before.push(b.deep_view()[k as int]));
        assert(b.deep_view().take(k + 1) =~= b.deep_view().take(k as int).push(b.deep_view()[k as int]));
        assert(all.deep_view() =~= mid + b.deep_view().take(k + 1));
        k = k + 1;
    }
    assert(b.deep_view().take(b.len() as int) =~= b.deep_view());
    let sorted = sort_dedup_strings(&all);
    proof {
        assert forall|x: Seq<char>| all.deep_view().contains(x) <==> (base.deep_view().contains(x)
            || interpellation_ids(nl@).contains(x) || interpellation_ids(fr@).contains(x)) by {
            let s = all.deep_view();
            assert(s =~= base.deep_view() + a.deep_view() + b.deep_view());
            if s.contains(x) {
                let q = choose|q: int| 0 <= q < s.len() && s[q] == x;
                if q < base.deep_view().len() {
                    assert(base.deep_view()[q] == x);
                } else if q < base.deep_view().len() + a.deep_view().len() {
                    assert(a.deep_view()[q - base.deep_view().len()] == x);
                } else {
                    assert(b.deep_view()[q - base.deep_view().len() - a.deep_view().len()] == x);
                }
            }
            if base.deep_view().contains(x) {
                let q = choose|q: int| 0 <= q < base.deep_view().len() && base.deep_view()[q] == x;
                assert(s[q] == x);
            }
            if a.deep_view().contains(x) {
                let q = choose|q: int| 0 <= q < a.deep_view().len() && a.deep_view()[q] == x;
                assert(s[q + base.deep_view().len()] == x);
            }
            if b.deep_view().contains(x) {
                let q = choose|q: int| 0 <= q < b.deep_view().len() && b.deep_view()[q] == x;
                assert(s[q + base.deep_view().len() + a.deep_view().len()] == x);
            }
        }
    }
    join_strs(&sorted, ",")
}

/// The hearing of a hearing agenda item.
fn hearing_from_agenda_item(
    item: &AgendaItem,
    meeting_kind: MeetingKind,
    session_id: u32,
    meeting_id: u32,
    source_url: &str,
    cache_path: &str,
) -> (r: HearingDraft)
    ensures
        hearing_ok(r, *item, meeting_kind, session_id, meeting_id, source_url@, cache_path@),
{
    let witnesses = match extract_witnesses_from_title(item.title_nl.as_str()) {
        Some(w) => w,
        None => match extract_witnesses_from_title(item.title_fr.as_str()) {
            Some(w) => w,
            None => String::new(),
        },
    };
    let internal_ids = joined_ids(&item.internal_ids, item.title_nl.as_str(), item.title_fr.as_str());
    HearingDraft {
        hearing_id: item.item_id.clone(),
        session_id,
        meeting_id,
        meeting_kind,
        agenda_id: item.agenda_id.clone(),
        title_nl: clean_heading(item.title_nl.as_str()),
        title_fr: clean_heading(item.title_fr.as_str()),
        witnesses,
        dossier_id: item.dossier_id.clone(),
        internal_ids,
        source_url: source_url.to_string(),
        cache_path: cache_path.to_string(),
    }
}

/// The hearing drawn from an agenda item: its ids and cleaned titles, the witnesses of the
/// Dutch title (else the French one), and the site ids of the item and its titles.
pub open spec fn hearing_ok(
    h: HearingDraft,
    item: AgendaItem,
    meeting_kind: MeetingKind,
    session_id: u32,
    meeting_id: u32,
    source_url: Seq<char>,
    cache_path: Seq<char>,
) -> bool {
    &&& h.hearing_id@ == item.item_id@
    &&& h.session_id == session_id && h.meeting_id == meeting_id && h.meeting_kind == meeting_kind
    &&& h.agenda_id@ == item.agenda_id@
    &&& h.title_nl@ == cleaned_heading(item.title_nl@)
    &&& h.title_fr@ == cleaned_heading(item.title_fr@)
    &&& h.witnesses@ == match witnesses_of(item.title_nl@) {
        Some(w) => w,
        None => match witnesses_of(item.title_fr@) {
            Some(w) => w,
            None => Seq::empty(),
        },
    }
    &&& h.dossier_id@ == item.dossier_id@
    &&& exists|l: Seq<Seq<char>>| #![trigger sorted_distinct(l)]
        sorted_distinct(l) && h.internal_ids@ == join(l, ","@) && forall|x: Seq<char>| l.contains(x) <==> (
        item.internal_ids.deep_view().contains(x) || interpellation_ids(item.title_nl@).contains(x)
            || interpellation_ids(item.title_fr@).contains(x))
    &&& h.source_url@ == source_url && h.cache_path@ == cache_path
}


/// The parsed fields of a title, when it parses.
pub open spec fn parsed_opt(text: Seq<char>) -> Option<(Seq<Seq<char>>, Seq<Seq<char>>, Seq<Seq<char>>, Seq<Seq<char>>)> {
    interpellation_parse(text)
}

/// The interpellation drawn from an agenda item, when its titles name an interpellator or a
/// topic or the item carries site ids.
pub open spec fn interpellation_ok(
    d: InterpellationDraft,
    item: AgendaItem,
    meeting_kind: MeetingKind,
    session_id: u32,
    meeting_id: u32,
    source_url: Seq<char>,
    cache_path: Seq<char>,
) -> bool {
    let nl = parsed_opt(item.title_nl@);
    let fr = parsed_opt(item.title_fr@);
    let m = merged_view(nl, fr);
    &&& d.interpellation_id@ == item.item_id@
    &&& d.session_id == session_id && d.meeting_id == meeting_id && d.meeting_kind == meeting_kind
    &&& d.agenda_id@ == item.agenda_id@
    &&& d.interpellators@ == join(m.0, ","@)
    &&& d.respondents@ == join(m.1, ","@)
    &&& d.topics_nl@ == match nl { Some(p) => join(p.2, ";"@), None => Seq::empty() }
    &&& d.topics_fr@ == match fr { Some(p) => join(p.2, ";"@), None => Seq::empty() }
    &&& exists|l: Seq<Seq<char>>| #![trigger sorted_distinct(l)]
        sorted_distinct(l) && d.internal_ids@ == join(l, ","@) && forall|x: Seq<char>| l.contains(x) <==> (
        item.internal_ids.deep_view().contains(x) || m.3.contains(x))
    &&& d.dossier_id@ == item.dossier_id@
    &&& d.source_url@ == source_url && d.cache_path@ == cache_path
}

fn interpellation_from_agenda_item(
    item: &AgendaItem,
    meeting_kind: MeetingKind,
    session_id: u32,
    meeting_id: u32,
    source_url: &str,
    cache_path: &str,
) -> (r: Option<InterpellationDraft>)
    ensures
        match r {
            Some(d) => interpellation_ok(d, *item, meeting_kind, session_id, meeting_id, source_url@, cache_path@),
            None => {
                let m = merged_view(parsed_opt(item.title_nl@), parsed_opt(item.title_fr@));
                m.0.len() == 0 && m.2.len() == 0 && item.internal_ids@.len() == 0
            },
        },
{
    let nl = parse_interpellation_text(item.title_nl.as_str());
    let fr = parse_interpellation_text(item.title_fr.as_str());
    let topics_nl = match &nl {
        Some(p) => join_strs(&p.topics, ";"),
        None => String::new(),
    };
    let topics_fr = match &fr {
        Some(p) => join_strs(&p.topics, ";"),
        None => String::new(),
    };
    let parsed = merge_interpellation_parsed(&nl, &fr);
    if parsed.interpellators.len() == 0 && parsed.topics.len() == 0 && item.internal_ids.len() == 0 {
        return None;
    }
    let mut all: Vec<String> = Vec::new();
    let mut i: usize = 0;
    while i < item.internal_ids.len()
        invariant
            i <= item.internal_ids.len(),
            all.deep_view() == item.internal_ids.deep_view().take(i as int),
        decreases item.internal_ids.len() - i,
    {
        let ghost before = all.deep_view();
        all.push(item.internal_ids[i].clone());
        assert(all.deep_view() =~= before.push(item.internal_ids.deep_view()[i as int]));
        assert(item.internal_ids.deep_view().take(i + 1) =~= item.internal_ids.deep_view().take(i as int).push(item.internal_ids.deep_view()[i as int]));
        i = i + 1;
    }
    assert(item.internal_ids.deep_view().take(item.internal_ids.len() as int) =~= item.internal_ids.deep_view());
    let ghost pre = all.deep_view();
    let mut j: usize = 0;
    while j < parsed.internal_ids.len()
        invariant
            j <= parsed.internal_ids.len(),
            all.deep_view() == pre + parsed.internal_ids.deep_view().take(j as int),
        decreases parsed.internal_ids.len() - j,
    {
        let ghost before = all.deep_view();
        all.push(parsed.internal_ids[j].clone());
        assert(all.deep_view() =~= before.push(parsed.internal_ids.deep_view()[j as int]));
        assert(parsed.internal_ids.deep_view().take(j + 1) =~= parsed.internal_ids.deep_view().take(j as int).push(parsed.internal_ids.deep_view()[j as int]));
        j = j + 1;
    }
    assert(parsed.internal_ids.deep_view().take(parsed.internal_ids.len() as int) =~= parsed.internal_ids.deep_view());
    let sorted = sort_dedup_strings(&all);
    proof {
        let a = item.internal_ids.deep_view();
        let b = parsed.internal_ids.deep_view();
        assert(all.deep_view() =~= a + b);
        assert forall|x: Seq<char>| all.deep_view().contains(x) <==> (a.contains(x) || b.contains(x)) by {
            let t = all.deep_view();
            if t.contains(x) {
                let q = choose|q: int| 0 <= q < t.len() && t[q] == x;
                if q < a.len() {
                    assert(a[q] == x);
                } else {
                    assert(b[q - a.len()] == x);
                }
            }
            if a.contains(x) {
                let q = choose|q: int| 0 <= q < a.len() && a[q] == x;
                assert(t[q] == x);
            }
            if b.contains(x) {
                let q = choose|q: int| 0 <= q < b.len() && b[q] == x;
                assert(t[q + a.len()] == x);
            }
        }
    }
    let internal_ids = join_strs(&sorted, ",");
    let interpellators = join_strs(&parsed.interpellators, ",");
    let respondents = join_strs(&parsed.respondents, ",");
    Some(InterpellationDraft {
        interpellation_id: item.item_id.clone(),
        session_id,
        meeting_id,
        meeting_kind,
        agenda_id: item.agenda_id.clone(),
        interpellators,
        respondents,
        topics_nl,
        topics_fr,
        internal_ids,
        dossier_id: item.dossier_id.clone(),
        source_url: source_url.to_string(),
        cache_path: cache_path.to_string(),
    })
}

/// Fill the empty fields of a kept interpellation from a later occurrence of it.
fn merge_interpellation_drafts(existing: &mut InterpellationDraft, incoming: &InterpellationDraft)
    ensures
        final(existing).interpellation_id == old(existing).interpellation_id,
        final(existing).topics_nl@ == if old(existing).topics_nl@.len() == 0 { incoming.topics_nl@ } else { old(existing).topics_nl@ },
        final(existing).topics_fr@ == if old(existing).topics_fr@.len() == 0 { incoming.topics_fr@ } else { old(existing).topics_fr@ },
        final(existing).interpellators@ == if old(existing).interpellators@.len() == 0 { incoming.interpellators@ } else { old(existing).interpellators@ },
        final(existing).respondents@ == if old(existing).respondents@.len() == 0 { incoming.respondents@ } else { old(existing).respondents@ },
        final(existing).internal_ids@ == if old(existing).internal_ids@.len() == 0 { incoming.internal_ids@ } else { old(existing).internal_ids@ },
        interp_view(*final(existing)) == merged_interp(interp_view(*old(existing)), interp_view(*incoming)),
{
    if existing.topics_nl.as_str().is_empty() {
        existing.topics_nl = incoming.topics_nl.clone();
    }
    if existing.topics_fr.as_str().is_empty() {
        existing.topics_fr = incoming.topics_fr.clone();
    }
    if existing.interpellators.as_str().is_empty() {
        existing.interpellators = incoming.interpellators.clone();
    }
    if existing.respondents.as_str().is_empty() {
        existing.respondents = incoming.respondents.clone();
    }
    if existing.internal_ids.as_str().is_empty() {
        existing.internal_ids = incoming.internal_ids.clone();
    }
}

/// `id` is the item id of an interpellation item of the agenda.
pub open spec fn interpellation_item_id(agenda: Seq<AgendaItem>, id: Seq<char>) -> bool {
    exists|j: int| 0 <= j < agenda.len() && proceeding_item(#[trigger] agenda[j], ItemKind::Interpellation) && agenda[j].item_id@ == id
}

/// Item `k` of the agenda is a hearing or interpellation item with an id.
pub open spec fn proceeding_item(item: AgendaItem, kind: ItemKind) -> bool {
    item.item_kind == kind && item.item_id@.len() > 0
}

/// An interpellation by its fields: id, session, meeting, meeting kind, agenda id,
/// interpellators, respondents, Dutch and French topics, site ids, dossier and source.
pub type InterpView = (
    Seq<char>,
    u32,
    u32,
    MeetingKind,
    Seq<char>,
    Seq<char>,
    Seq<char>,
    Seq<char>,
    Seq<char>,
    Seq<char>,
    Seq<char>,
    Seq<char>,
    Seq<char>,
);

pub open spec fn interp_view(d: InterpellationDraft) -> InterpView {
    (d.interpellation_id@, d.session_id, d.meeting_id, d.meeting_kind, d.agenda_id@, d.interpellators@, d.respondents@,
        d.topics_nl@, d.topics_fr@, d.internal_ids@, d.dossier_id@, d.source_url@, d.cache_path@)
}

pub open spec fn interps_view(ds: Seq<InterpellationDraft>) -> Seq<InterpView> {
    ds.map_values(|d: InterpellationDraft| interp_view(d))
}

/// What an interpellation is merged on: its first site id, else its own id.
pub open spec fn interp_key(v: InterpView) -> Seq<char> {
    match first_nonblank_from(crate::text::split(v.9, ','), 0) {
        Some(k) => k,
        None => v.0,
    }
}

/// `a`, or `b` where `a` is empty.
pub open spec fn filled(a: Seq<char>, b: Seq<char>) -> Seq<char> {
    if a.len() == 0 {
        b
    } else {
        a
    }
}

/// A kept interpellation with its empty fields filled from a later occurrence.
pub open spec fn merged_interp(e: InterpView, d: InterpView) -> InterpView {
    (e.0, e.1, e.2, e.3, e.4, filled(e.5, d.5), filled(e.6, d.6), filled(e.7, d.7), filled(e.8, d.8), filled(e.9, d.9), e.10,
        e.11, e.12)
}

/// The first entry from `i` on whose key is `k`.
pub open spec fn first_key(v: Seq<(Seq<char>, InterpView)>, k: Seq<char>, i: int) -> Option<int>
    decreases v.len() - i,
{
    if i < 0 || i >= v.len() {
        None
    } else if v[i].0 == k {
        Some(i)
    } else {
        first_key(v, k, i + 1)
    }
}

/// The interpellations of the agenda items, merged on their keys in order of first
/// occurrence.
pub open spec fn keyed_interps(es: Seq<Option<InterpView>>) -> Seq<(Seq<char>, InterpView)>
    decreases es.len(),
{
    if es.len() == 0 {
        Seq::empty()
    } else {
        let prev = keyed_interps(es.drop_last());
        match es.last() {
            None => prev,
            Some(v) => match first_key(prev, interp_key(v), 0) {
                Some(f) => prev.update(f, (prev[f].0, merged_interp(prev[f].1, v))),
                None => prev.push((interp_key(v), v)),
            },
        }
    }
}

/// The interpellation an agenda item gives: one for an interpellation item with an id,
/// unless its titles name no interpellator or topic and it has no site id.
pub open spec fn interp_entry_ok(
    e: Option<InterpView>,
    item: AgendaItem,
    meeting_kind: MeetingKind,
    session_id: u32,
    meeting_id: u32,
    source_url: Seq<char>,
    cache_path: Seq<char>,
) -> bool {
    if proceeding_item(item, ItemKind::Interpellation) {
        match e {
            Some(v) => exists|d: InterpellationDraft|
                #![trigger interpellation_ok(d, item, meeting_kind, session_id, meeting_id, source_url, cache_path)]
                interpellation_ok(d, item, meeting_kind, session_id, meeting_id, source_url, cache_path) && interp_view(d) == v,
            None => {
                let m = merged_view(parsed_opt(item.title_nl@), parsed_opt(item.title_fr@));
                m.0.len() == 0 && m.2.len() == 0 && item.internal_ids@.len() == 0
            },
        }
    } else {
        e is None
    }
}

/// The interpellations of an agenda, as `es` gives them item by item.
pub open spec fn agenda_interps_ok(
    es: Seq<Option<InterpView>>,
    agenda: Seq<AgendaItem>,
    meeting_kind: MeetingKind,
    session_id: u32,
    meeting_id: u32,
    source_url: Seq<char>,
    cache_path: Seq<char>,
) -> bool {
    &&& es.len() == agenda.len()
    &&& forall|j: int|
        0 <= j < agenda.len() ==> interp_entry_ok(
            #[trigger] es[j],
            agenda[j],
            meeting_kind,
            session_id,
            meeting_id,
            source_url,
            cache_path,
        )
}

/// The interpellations of keyed entries.
pub open spec fn keyed_values(v: Seq<(Seq<char>, InterpView)>) -> Seq<InterpView> {
    v.map_values(|p: (Seq<char>, InterpView)| p.1)
}

spec fn keyed_view(v: Seq<(String, InterpellationDraft)>) -> Seq<(Seq<char>, InterpView)> {
    v.map_values(|p: (String, InterpellationDraft)| (p.0@, interp_view(p.1)))
}

/// The hearings and interpellations of an agenda. Hearings: one per hearing item with an
/// id, in order. Interpellations: one per site id (else per item id), the first occurrence
/// keeping its id and later ones filling its empty fields.
pub fn extract_proceedings_from_agenda(
    agenda: &[AgendaItem],
    meeting_kind: MeetingKind,
    session_id: u32,
    meeting_id: u32,
    source_url: &str,
    cache_path: &str,
) -> (r: (Vec<HearingDraft>, Vec<InterpellationDraft>))
    ensures
        r.0@.len() == agenda@.filter(|it: AgendaItem| proceeding_item(it, ItemKind::Hearing)).len(),
        forall|k: int| 0 <= k < r.0@.len() ==> hearing_ok(
            #[trigger] r.0@[k],
            agenda@.filter(|it: AgendaItem| proceeding_item(it, ItemKind::Hearing))[k],
            meeting_kind,
            session_id,
            meeting_id,
            source_url@,
            cache_path@,
        ),
        forall|k: int| 0 <= k < r.1@.len() ==> interpellation_item_id(agenda@, (#[trigger] r.1@[k]).interpellation_id@),
        exists|es: Seq<Option<InterpView>>|
            agenda_interps_ok(es, agenda@, meeting_kind, session_id, meeting_id, source_url@, cache_path@)
                && interps_view(r.1@) == keyed_values(#[trigger] keyed_interps(es)),
{
    let mut hearings: Vec<HearingDraft> = Vec::new();
    let ghost mut es: Seq<Option<InterpView>> = Seq::empty();
    let mut keyed: Vec<(String, InterpellationDraft)> = Vec::new();
    let ghost hpred = |it: AgendaItem| proceeding_item(it, ItemKind::Hearing);
    let mut i: usize = 0;
    while i < agenda.len()
        invariant
            i <= agenda.len(),
            hpred == (|it: AgendaItem| proceeding_item(it, ItemKind::Hearing)),
            hearings@.len() == agenda@.take(i as int).filter(hpred).len(),
            forall|k: int| 0 <= k < hearings@.len() ==> hearing_ok(
                #[trigger] hearings@[k],
                agenda@.take(i as int).filter(hpred)[k],
                meeting_kind,
                session_id,
                meeting_id,
                source_url@,
                cache_path@,
            ),
            forall|k: int| 0 <= k < keyed@.len() ==> interpellation_item_id(agenda@, (#[trigger] keyed@[k]).1.interpellation_id@),
            es.len() == i,
            forall|j: int| 0 <= j < i ==> interp_entry_ok(#[trigger] es[j], agenda@[j], meeting_kind, session_id, meeting_id, source_url@, cache_path@),
            keyed_view(keyed@) == keyed_interps(es),
        decreases agenda.len() - i,
    {
        let item = &agenda[i];
        let ghost es0 = es;
        let ghost kv0 = keyed_view(keyed@);
        proof {
            reveal(Seq::filter);
            assert(agenda@.take(i + 1).drop_last() =~= agenda@.take(i as int));
            assert(agenda@.take(i + 1).last() == agenda@[i as int]);
        }
        if !item.item_id.as_str().is_empty() {
            match item.item_kind {
                ItemKind::Hearing => {
                    let h = hearing_from_agenda_item(item, meeting_kind, session_id, meeting_id, source_url, cache_path);
                    let ghost before = hearings@;
                    hearings.push(h);
                    proof {
                        assert(agenda@.take(i + 1).filter(hpred) == agenda@.take(i as int).filter(hpred).push(agenda@[i as int]));
                        assert forall|k: int| 0 <= k < hearings@.len() implies hearing_ok(
                            #[trigger] hearings@[k],
                            agenda@.take(i + 1).filter(hpred)[k],
                            meeting_kind,
                            session_id,
                            meeting_id,
                            source_url@,
                            cache_path@,
                        ) by {
                            if k < before.len() {
                                assert(hearings@[k] == before[k]);
                            }
                        }
                        es = es.push(None);
                        assert(es.drop_last() =~= es0);
                    }
                },
                ItemKind::Interpellation => {
                    assert(agenda@.take(i + 1).filter(hpred) == agenda@.take(i as int).filter(hpred));
                    match interpellation_from_agenda_item(item, meeting_kind, session_id, meeting_id, source_url, cache_path) {
                        Some(draft) => {
                            let key = match primary_internal_id(draft.internal_ids.as_str()) {
                                Some(k) => k,
                                None => draft.interpellation_id.clone(),
                            };
                            let ghost v = interp_view(draft);
                            assert(key@ == interp_key(v));
                            let mut found: Option<usize> = None;
                            let mut q: usize = 0;
                            while q < keyed.len()
                                invariant
                                    q <= keyed.len(),
                                    kv0 == keyed_view(keyed@),
                                    found matches Some(f) ==> f < keyed@.len(),
                                    found is None ==> first_key(kv0, key@, 0) == first_key(kv0, key@, q as int),
                                    found matches Some(f) ==> first_key(kv0, key@, 0) == Some(f as int),
                                decreases keyed.len() - q,
                            {
                                if found.is_none() && str_eq(keyed[q].0.as_str(), key.as_str()) {
                                    found = Some(q);
                                }
                                q = q + 1;
                            }
                            proof {
                                es = es.push(Some(v));
                                assert(es.drop_last() =~= es0);
                                assert(interp_entry_ok(es[i as int], agenda@[i as int], meeting_kind, session_id, meeting_id, source_url@, cache_path@));
                            }
                            match found {
                                Some(f) => {
                                    let mut existing = InterpellationDraft {
                                        interpellation_id: keyed[f].1.interpellation_id.clone(),
                                        session_id: keyed[f].1.session_id,
                                        meeting_id: keyed[f].1.meeting_id,
                                        meeting_kind: keyed[f].1.meeting_kind,
                                        agenda_id: keyed[f].1.agenda_id.clone(),
                                        interpellators: keyed[f].1.interpellators.clone(),
                                        respondents: keyed[f].1.respondents.clone(),
                                        topics_nl: keyed[f].1.topics_nl.clone(),
                                        topics_fr: keyed[f].1.topics_fr.clone(),
                                        internal_ids: keyed[f].1.internal_ids.clone(),
                                        dossier_id: keyed[f].1.dossier_id.clone(),
                                        source_url: keyed[f].1.source_url.clone(),
                                        cache_path: keyed[f].1.cache_path.clone(),
                                    };
                                    assert(interp_view(existing) == kv0[f as int].1);
                                    merge_interpellation_drafts(&mut existing, &draft);
                                    let k2 = keyed[f].0.clone();
                                    let ghost before = keyed@;
                                    keyed.set(f, (k2, existing));
                                    proof {
                                        assert(keyed_view(keyed@) =~= kv0.update(f as int, (kv0[f as int].0, merged_interp(kv0[f as int].1, v))));
                                        assert forall|k: int| 0 <= k < keyed@.len() implies interpellation_item_id(agenda@, (#[trigger] keyed@[k]).1.interpellation_id@) by {
                                            if k != f {
                                                assert(keyed@[k] == before[k]);
                                            } else {
                                                assert(keyed@[k].1.interpellation_id@ == before[k].1.interpellation_id@);
                                            }
                                        }
                                    }
                                },
                                None => {
                                    let ghost before = keyed@;
                                    keyed.push((key, draft));
                                    proof {
                                        assert(keyed_view(keyed@) =~= kv0.push((interp_key(v), v)));
                                        assert(proceeding_item(agenda@[i as int], ItemKind::Interpellation));
                                        assert forall|k: int| 0 <= k < keyed@.len() implies interpellation_item_id(agenda@, (#[trigger] keyed@[k]).1.interpellation_id@) by {
                                            if k < before.len() {
                                                assert(keyed@[k] == before[k]);
                                            }
                                        }
                                    }
                                },
                            }
                        },
                        None => {
                            proof {
                                es = es.push(None);
                                assert(es.drop_last() =~= es0);
                            }
                        },
                    }
                },
                _ => {
                    assert(agenda@.take(i + 1).filter(hpred) == agenda@.take(i as int).filter(hpred));
                    proof {
                        es = es.push(None);
                        assert(es.drop_last() =~= es0);
                    }
                },
            }
        } else {
            assert(agenda@.take(i + 1).filter(hpred) == agenda@.take(i as int).filter(hpred));
            proof {
                es = es.push(None);
                assert(es.drop_last() =~= es0);
            }
        }
        i = i + 1;
    }
    assert(agenda@.take(agenda.len() as int) =~= agenda@);
    let mut interpellations: Vec<InterpellationDraft> = Vec::new();
    let mut keyed_rest = keyed;
    let ghost all = keyed_rest@;
    let mut q: usize = 0;
    while q < keyed_rest.len()
        invariant
            q <= keyed_rest.len(),
            keyed_rest@ == all,
            forall|k: int| 0 <= k < all.len() ==> interpellation_item_id(agenda@, (#[trigger] all[k]).1.interpellation_id@),
            interpellations@.len() == q,
            forall|k: int| 0 <= k < q ==> (#[trigger] interpellations@[k]).interpellation_id@ == all[k].1.interpellation_id@,
            forall|k: int| 0 <= k < q ==> interp_view(#[trigger] interpellations@[k]) == interp_view(all[k].1),
        decreases keyed_rest.len() - q,
    {
        let d = &keyed_rest[q].1;
        interpellations.push(InterpellationDraft {
            interpellation_id: d.interpellation_id.clone(),
            session_id: d.session_id,
            meeting_id: d.meeting_id,
            meeting_kind: d.meeting_kind,
            agenda_id: d.agenda_id.clone(),
            interpellators: d.interpellators.clone(),
            respondents: d.respondents.clone(),
            topics_nl: d.topics_nl.clone(),
            topics_fr: d.topics_fr.clone(),
            internal_ids: d.internal_ids.clone(),
            dossier_id: d.dossier_id.clone(),
            source_url: d.source_url.clone(),
            cache_path: d.cache_path.clone(),
        });
        q = q + 1;
    }
    proof {
        assert forall|k: int| 0 <= k < interpellations@.len() implies interpellation_item_id(agenda@, (#[trigger] interpellations@[k]).interpellation_id@) by {
            assert(interpellations@[k].interpellation_id@ == all[k].1.interpellation_id@);
        }
        assert(interps_view(interpellations@) =~= keyed_values(keyed_interps(es)));
    }
    (hearings, interpellations)
}

/// The hearings and interpellations of a report page: its blocks, then its agenda timeline,
/// then the proceedings of that timeline, as `extract_proceedings_from_agenda` finds them
/// for some timeline that `build_agenda_timeline` may give.
pub fn extract_proceedings_from_document(
    elements: &[HtmlElement],
    meeting_kind: MeetingKind,
    session_id: u32,
    meeting_id: u32,
    source_url: &str,
    cache_path: &str,
) -> (r: (Vec<HearingDraft>, Vec<InterpellationDraft>))
    requires
        elements@.len() < 0x7fff_ffff,
    ensures
        exists|agenda: Seq<AgendaItem>| #[trigger] proceedings_of_agenda(r, agenda, meeting_kind, session_id, meeting_id, source_url@, cache_path@),
{
    let blocks = parse_report_blocks(elements);
    proof {
        lemma_parsed_block_indices(blocks@, elements@);
    }
    let agenda = build_agenda_timeline(blocks.as_slice(), meeting_kind, session_id, meeting_id);
    let r = extract_proceedings_from_agenda(agenda.as_slice(), meeting_kind, session_id, meeting_id, source_url, cache_path);
    assert(proceedings_of_agenda(r, agenda@, meeting_kind, session_id, meeting_id, source_url@, cache_path@));
    r
}

/// What `extract_proceedings_from_agenda` states of its result for `agenda`.
pub open spec fn proceedings_of_agenda(
    r: (Vec<HearingDraft>, Vec<InterpellationDraft>),
    agenda: Seq<AgendaItem>,
    meeting_kind: MeetingKind,
    session_id: u32,
    meeting_id: u32,
    source_url: Seq<char>,
    cache_path: Seq<char>,
) -> bool {
    &&& r.0@.len() == agenda.filter(|it: AgendaItem| proceeding_item(it, ItemKind::Hearing)).len()
    &&& forall|k: int| 0 <= k < r.0@.len() ==> hearing_ok(
        #[trigger] r.0@[k],
        agenda.filter(|it: AgendaItem| proceeding_item(it, ItemKind::Hearing))[k],
        meeting_kind,
        session_id,
        meeting_id,
        source_url,
        cache_path,
    )
    &&& forall|k: int| 0 <= k < r.1@.len() ==> interpellation_item_id(agenda, (#[trigger] r.1@[k]).interpellation_id@)
}

} // verus!
