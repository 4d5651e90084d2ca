//! How an H2 heading participates in oral-question grouping (shared by scrapers and agenda).
use vstd::prelude::*;
use crate::pattern::{capture, capture_text};
use crate::text::{
    contains, from_char_range, lowercase, starts_with, str_contains, str_starts_with, to_chars,
    to_lower, trim, trim_str,
};

verus! {

#[derive(Debug, Clone, Copy, PartialEq, Eq, Structural)]
pub enum QuestionHeadingRole {
    GroupStart,
    SubQuestion,
    Single,
    /// FR group header without sub-question lines, e.g. "01 Questions jointes de".
    FrGroupHeader,
    Hearing,
    Unrelated,
}

/// Section titles (lower-cased) under which oral questions are asked.
pub const QUESTIONS_SECTION_KEYWORDS: [&'static str; 4] = [
    "mondelinge vragen",
    "questions orales",
    "question orales",
    "questions",
];

/// A two-digit agenda number at the start of a heading.
pub const AGENDA_PREFIX_PATTERN: &'static str = r"^(\d{2})\s+";

pub open spec fn questions_section(section: Seq<char>) -> bool {
    let s = lowercase(section);
    contains(s, "mondelinge vragen"@) || contains(s, "questions orales"@) || contains(
        s,
        "question orales"@,
    ) || contains(s, "questions"@)
}

pub fn is_questions_section(section: &str) -> (r: bool)
    ensures
        r == questions_section(section@),
{
    let lower = to_lower(section);
    let l = lower.as_str();
    str_contains(l, "mondelinge vragen") || str_contains(l, "questions orales") || str_contains(
        l,
        "question orales",
    ) || str_contains(l, "questions")
}

/// The heading without its leading agenda number, trimmed.
pub open spec fn heading_body(text: Seq<char>) -> Seq<char> {
    let t = trim(text);
    match capture(AGENDA_PREFIX_PATTERN@, t, 0) {
        Some(m) => if m.len() <= t.len() {
            trim(t.skip(m.len() as int))
        } else {
            t
        },
        None => t,
    }
}

fn heading_body_after_agenda(text: &str) -> (r: String)
    ensures
        r@ == heading_body(text@),
{
    let t = trim_str(text);
    match capture_text(AGENDA_PREFIX_PATTERN, t.as_str(), 0) {
        Some(m) => {
            let mv = to_chars(m.as_str());
            let tv = to_chars(t.as_str());
            if mv.len() <= tv.len() {
                let rest = from_char_range(&tv, mv.len(), tv.len());
                assert(rest@ =~= t@.skip(m@.len() as int));
                trim_str(rest.as_str())
            } else {
                t
            }
        },
        None => t,
    }
}

pub open spec fn subquestion_text(text: Seq<char>) -> bool {
    starts_with(trim(text), seq!['-'])
}

pub fn is_subquestion_text(text: &str) -> (r: bool)
    ensures
        r == subquestion_text(text@),
{
    let t = trim_str(text);
    let v = to_chars(t.as_str());
    proof {
        if v@.len() > 0 {
            assert(v@.take(1) =~= seq![v@[0]]);
            if v@[0] != '-' {
                assert(v@.take(1)[0] != seq!['-'][0]);
            }
        }
    }
    v.len() > 0 && v[0] == '-'
}

pub open spec fn group_start_text(text: Seq<char>) -> bool {
    let lower = lowercase(heading_body(text));
    contains(lower, "samengevoegde vragen"@) || contains(lower, "toegevoegde vragen"@)
}

pub fn is_group_start_text(text: &str) -> (r: bool)
    ensures
        r == group_start_text(text@),
{
    let body = heading_body_after_agenda(text);
    let lower = to_lower(body.as_str());
    str_contains(lower.as_str(), "samengevoegde vragen") || str_contains(lower.as_str(), "toegevoegde vragen")
}

pub open spec fn single_text(text: Seq<char>) -> bool {
    let body = heading_body(text);
    starts_with(body, "Vraag van"@) || starts_with(body, "Question de"@)
}

pub fn is_single_text(text: &str) -> (r: bool)
    ensures
        r == single_text(text@),
{
    let body = heading_body_after_agenda(text);
    str_starts_with(body.as_str(), "Vraag van") || str_starts_with(body.as_str(), "Question de")
}

pub open spec fn fr_group_header_text(text: Seq<char>) -> bool {
    contains(lowercase(heading_body(text)), "questions jointes"@) && !subquestion_text(text)
        && !single_text(text)
}

pub fn is_fr_group_header_text(text: &str) -> (r: bool)
    ensures
        r == fr_group_header_text(text@),
{
    let body = heading_body_after_agenda(text);
    let lower = to_lower(body.as_str());
    str_contains(lower.as_str(), "questions jointes") && !is_subquestion_text(text) && !is_single_text(text)
}

pub open spec fn hearing_text(text: Seq<char>) -> bool {
    !(subquestion_text(text) || single_text(text) || group_start_text(text) || fr_group_header_text(text))
        && (contains(lowercase(text), "hoorzitting"@) || contains(lowercase(text), "audition"@))
}

pub fn is_hearing_text(text: &str) -> (r: bool)
    ensures
        r == hearing_text(text@),
{
    if is_subquestion_text(text) || is_single_text(text) || is_group_start_text(text)
        || is_fr_group_header_text(text) {
        return false;
    }
    let lower = to_lower(text);
    str_contains(lower.as_str(), "hoorzitting") || str_contains(lower.as_str(), "audition")
}

/// The role of a heading: a sub-question line first, then a group start, a single question,
/// a French group header, a hearing, and otherwise unrelated.
pub open spec fn heading_role(text: Seq<char>) -> QuestionHeadingRole {
    if subquestion_text(text) {
        QuestionHeadingRole::SubQuestion
    } else if group_start_text(text) {
        QuestionHeadingRole::GroupStart
    } else if single_text(text) {
        QuestionHeadingRole::Single
    } else if fr_group_header_text(text) {
        QuestionHeadingRole::FrGroupHeader
    } else if hearing_text(text) {
        QuestionHeadingRole::Hearing
    } else {
        QuestionHeadingRole::Unrelated
    }
}

pub fn classify_question_heading_text(text: &str) -> (r: QuestionHeadingRole)
    ensures
        r == heading_role(text@),
{
    if is_subquestion_text(text) {
        return QuestionHeadingRole::SubQuestion;
    }
    if is_group_start_text(text) {
        return QuestionHeadingRole::GroupStart;
    }
    if is_single_text(text) {
        return QuestionHeadingRole::Single;
    }
    if is_fr_group_header_text(text) {
        return QuestionHeadingRole::FrGroupHeader;
    }
    if is_hearing_text(text) {
        return QuestionHeadingRole::Hearing;
    }
    QuestionHeadingRole::Unrelated
}

/// The role of the Dutch heading unless it is unrelated, else that of the French one.
pub open spec fn bilingual_role(nl: Option<Seq<char>>, fr: Option<Seq<char>>) -> QuestionHeadingRole {
    let from_nl = match nl {
        Some(t) => heading_role(t),
        None => QuestionHeadingRole::Unrelated,
    };
    if from_nl != QuestionHeadingRole::Unrelated {
        from_nl
    } else {
        match fr {
            Some(t) => heading_role(t),
            None => QuestionHeadingRole::Unrelated,
        }
    }
}

pub fn classify_question_heading_bilingual(nl: Option<&str>, fr: Option<&str>) -> (r: QuestionHeadingRole)
    ensures
        r == bilingual_role(
            match nl {
                Some(t) => Some(t@),
                None => None,
            },
            match fr {
                Some(t) => Some(t@),
                None => None,
            },
        ),
{
    match nl {
        Some(t) => {
            let role = classify_question_heading_text(t);
            if role != QuestionHeadingRole::Unrelated {
                return role;
            }
        },
        None => {},
    }
    match fr {
        Some(t) => classify_question_heading_text(t),
        None => QuestionHeadingRole::Unrelated,
    }
}

pub fn has_pending_question_text(nl: &str, fr: &str) -> (r: bool)
    ensures
        r == (nl@.len() > 0 || fr@.len() > 0),
{
    !nl.is_empty() || !fr.is_empty()
}

/// Whether a new flushed question row / agenda Question item should begin here.
pub fn starts_new_question_unit(role: QuestionHeadingRole) -> (r: bool)
    ensures
        r == (role == QuestionHeadingRole::GroupStart || role == QuestionHeadingRole::Single),
{
    match role {
        QuestionHeadingRole::GroupStart | QuestionHeadingRole::Single => true,
        _ => false,
    }
}

/// Whether this heading extends the open question instead of starting a new one.
pub fn extends_open_question(role: QuestionHeadingRole) -> (r: bool)
    ensures
        r == (role == QuestionHeadingRole::SubQuestion || role == QuestionHeadingRole::FrGroupHeader),
{
    match role {
        QuestionHeadingRole::SubQuestion | QuestionHeadingRole::FrGroupHeader => true,
        _ => false,
    }
}

} // verus!
