//! Sections of oral questions answered in writing (*schriftelijk behandelde mondelinge
//! vragen* / *questions orales traitées par écrit*) in the full report of a meeting.
use vstd::prelude::*;
use crate::agenda_timeline::{build_agenda_timeline, timeline_item_ok, AgendaItem, ItemKind, MeetingKind};
use crate::answer_io::AnswerDraft;
use crate::pattern::{re_is_match, regex_is_match};
use crate::qrva_text::inline_answer_id;
use crate::report_blocks::{BlockTag, ReportBlock};
use crate::text::{
    contains, decimal, lowercase, owned, push_char, push_str, starts_with, str_contains, str_eq,
    str_starts_with, to_lower, to_upper, trim, trim_str, u64_to_string, uppercase,
};
use crate::utils::{clean_text, clean_text_spec};

verus! {

/// The line that separates a question from its written reply: `Antwoord - Réponse:`.
pub const ANSWER_DELIM_PATTERN: &'static str = r"(?i)^Antwoord\s*[-–]\s*Réponse\s*:?\s*$";

/// The heading of a section of oral questions answered in writing, in either language
/// and any case.
pub open spec fn written_oral_heading(text: Seq<char>) -> bool {
    contains(lowercase(text), "schriftelijk behandelde mondelinge vragen"@)
        || contains(lowercase(text), "questions orales traitées par écrit"@)
}

pub fn is_written_oral_section_heading(text: &str) -> (r: bool)
    ensures
        r == written_oral_heading(text@),
{
    let lower = to_lower(text);
    str_contains(lower.as_str(), "schriftelijk behandelde mondelinge vragen")
        || str_contains(lower.as_str(), "questions orales traitées par écrit")
}

/// A level-one heading that opens the written oral section.
pub open spec fn opens_written_zone(b: ReportBlock) -> bool {
    b.tag == BlockTag::H1 && written_oral_heading(b.text@)
}

/// `ix` is the index of the first block that opens the written oral section.
pub open spec fn is_zone_start(blocks: Seq<ReportBlock>, ix: u32) -> bool {
    exists|k: int| 0 <= k < blocks.len() && opens_written_zone(#[trigger] blocks[k])
        && blocks[k].index == ix
        && forall|j: int| 0 <= j < k ==> !opens_written_zone(#[trigger] blocks[j])
}

/// First block index inside the written oral Q&A zone (inclusive): the index of the first
/// level-one heading of the section; `None` when there is none.
pub fn find_written_oral_zone_start(blocks: &[ReportBlock]) -> (r: Option<u32>)
    ensures
        match r {
            Some(ix) => is_zone_start(blocks@, ix),
            None => forall|j: int| 0 <= j < blocks@.len() ==> !opens_written_zone(#[trigger] blocks@[j]),
        },
{
    let mut i: usize = 0;
    while i < blocks.len()
        invariant
            i <= blocks.len(),
            forall|j: int| 0 <= j < i ==> !opens_written_zone(#[trigger] blocks@[j]),
        decreases blocks.len() - i,
    {
        let b = &blocks[i];
        if b.tag == BlockTag::H1 && is_written_oral_section_heading(b.text.as_str()) {
            assert(opens_written_zone(blocks@[i as int]));
            return Some(b.index);
        }
        i = i + 1;
    }
    None
}

/// The language of a paragraph: the block's own `lang` when it starts with `FR` or `NL`
/// (any case), else French when the text reads like French, else Dutch.
pub open spec fn paragraph_language_spec(text: Seq<char>, block_lang: Option<Seq<char>>) -> Seq<char> {
    let from_lang: Option<Seq<char>> = match block_lang {
        Some(l) => if starts_with(uppercase(l), "FR"@) {
            Some("fr"@)
        } else if starts_with(uppercase(l), "NL"@) {
            Some("nl"@)
        } else {
            None
        },
        None => None,
    };
    let lower = lowercase(text);
    match from_lang {
        Some(x) => x,
        None => if contains(lower, "monsieur le ministre"@) || contains(lower, "madame la"@)
            || contains(lower, "question "@) || contains(lower, "réponse"@) {
            "fr"@
        } else {
            "nl"@
        },
    }
}

fn paragraph_language(text: &str, block_lang: &Option<String>) -> (r: &'static str)
    ensures
        r@ == paragraph_language_spec(text@, block_lang.deep_view()),
{
    match block_lang {
        Some(lang) => {
            let u = to_upper(lang.as_str());
            if str_starts_with(u.as_str(), "FR") {
                return "fr";
            }
            if str_starts_with(u.as_str(), "NL") {
                return "nl";
            }
        },
        None => {},
    }
    let lower = to_lower(text);
    if str_contains(lower.as_str(), "monsieur le ministre") || str_contains(lower.as_str(), "madame la")
        || str_contains(lower.as_str(), "question ") || str_contains(lower.as_str(), "réponse") {
        return "fr";
    }
    // Dutch cues ("geachte minister", "mevrouw de", "vraag ") and no cue at all both give
    // Dutch.
    "nl"
}

/// `dest` with `text` appended on a line of its own; unchanged when `text` is empty.
pub open spec fn append_line(dest: Seq<char>, text: Seq<char>) -> Seq<char> {
    if text.len() == 0 {
        dest
    } else if dest.len() == 0 {
        text
    } else {
        dest + seq!['\n'] + text
    }
}

fn append_line_exec(dest: &mut String, text: &str)
    ensures
        final(dest)@ == append_line(old(dest)@, text@),
{
    if text.is_empty() {
        return;
    }
    if !dest.as_str().is_empty() {
        push_char(dest, '\n');
    }
    push_str(dest, text);
}

/// Question in Dutch, question in French, reply in Dutch, reply in French, and whether
/// the reply has begun.
pub type QaState = (Seq<char>, Seq<char>, Seq<char>, Seq<char>, bool);

/// One paragraph of an item: the first delimiter line starts the reply and is dropped;
/// every other paragraph goes to the question or the reply, French when its language is
/// `fr`, Dutch otherwise.
pub open spec fn split_qa_step(st: QaState, para: (Seq<char>, Seq<char>)) -> QaState {
    let (text, lang) = para;
    if !st.4 && regex_is_match(ANSWER_DELIM_PATTERN@, trim(text)) {
        (st.0, st.1, st.2, st.3, true)
    } else if st.4 {
        if lang == "fr"@ {
            (st.0, st.1, st.2, append_line(st.3, text), true)
        } else {
            (st.0, st.1, append_line(st.2, text), st.3, true)
        }
    } else {
        if lang == "fr"@ {
            (st.0, append_line(st.1, text), st.2, st.3, false)
        } else {
            (append_line(st.0, text), st.1, st.2, st.3, false)
        }
    }
}

pub open spec fn split_qa(paras: Seq<(Seq<char>, Seq<char>)>) -> QaState
    decreases paras.len(),
{
    if paras.len() == 0 {
        (Seq::empty(), Seq::empty(), Seq::empty(), Seq::empty(), false)
    } else {
        split_qa_step(split_qa(paras.drop_last()), paras.last())
    }
}

/// `s` ends with `t` after its first `n` characters.
pub open spec fn extends_with(s: Seq<char>, n: int, t: Seq<char>) -> bool {
    &&& 0 <= n <= s.len()
    &&& (t.len() == 0 ==> s.len() == n)
    &&& (t.len() > 0 ==> s.len() >= n + t.len() && s.subrange(s.len() - t.len(), s.len() as int) == t)
}

/// A paragraph that starts the reply.
pub open spec fn is_delimiter(para: (Seq<char>, Seq<char>)) -> bool {
    regex_is_match(ANSWER_DELIM_PATTERN@, trim(para.0))
}

proof fn lemma_append_line_extends(dest: Seq<char>, text: Seq<char>)
    ensures
        append_line(dest, text).subrange(0, dest.len() as int) == dest,
        extends_with(append_line(dest, text), dest.len() as int, text),
{
    let r = append_line(dest, text);
    if text.len() > 0 && dest.len() > 0 {
        assert(r.subrange(0, dest.len() as int) =~= dest);
        assert(r.subrange(r.len() - text.len(), r.len() as int) =~= text);
    } else if text.len() > 0 {
        assert(r.subrange(0, 0) =~= dest);
        assert(r.subrange(0, r.len() as int) =~= text);
    } else {
        assert(r.subrange(0, dest.len() as int) =~= dest);
    }
}

/// One paragraph after the reply has begun: the question texts stay as they are, and the
/// paragraph goes to the end of the reply of its language (French when tagged `fr`, Dutch
/// otherwise), the other reply unchanged; a paragraph before the reply (and no delimiter)
/// goes to the end of the question of its language and leaves the replies empty.
pub proof fn lemma_split_qa_paragraph_law(paras: Seq<(Seq<char>, Seq<char>)>, text: Seq<char>, lang: Seq<char>)
    ensures
        ({
            let a = split_qa(paras);
            let b = split_qa(paras.push((text, lang)));
            &&& a.4 ==> {
                &&& b.4 && b.0 == a.0 && b.1 == a.1
                &&& (lang == "fr"@ ==> b.2 == a.2 && b.3.subrange(0, a.3.len() as int) == a.3 && extends_with(b.3, a.3.len() as int, text))
                &&& (lang != "fr"@ ==> b.3 == a.3 && b.2.subrange(0, a.2.len() as int) == a.2 && extends_with(b.2, a.2.len() as int, text))
            }
            &&& (!a.4 && !is_delimiter((text, lang))) ==> {
                &&& !b.4 && b.2 == a.2 && b.3 == a.3
                &&& (lang == "fr"@ ==> b.0 == a.0 && b.1.subrange(0, a.1.len() as int) == a.1 && extends_with(b.1, a.1.len() as int, text))
                &&& (lang != "fr"@ ==> b.1 == a.1 && b.0.subrange(0, a.0.len() as int) == a.0 && extends_with(b.0, a.0.len() as int, text))
            }
            &&& (!a.4 && is_delimiter((text, lang))) ==> b == (a.0, a.1, a.2, a.3, true)
        }),
{
    assert(paras.push((text, lang)).drop_last() =~= paras);
    let a = split_qa(paras);
    lemma_append_line_extends(a.0, text);
    lemma_append_line_extends(a.1, text);
    lemma_append_line_extends(a.2, text);
    lemma_append_line_extends(a.3, text);
}

proof fn lemma_split_qa_no_delimiter(pre: Seq<(Seq<char>, Seq<char>)>)
    requires
        forall|k: int| 0 <= k < pre.len() ==> !is_delimiter(#[trigger] pre[k]),
    ensures
        !split_qa(pre).4,
        split_qa(pre).2.len() == 0,
        split_qa(pre).3.len() == 0,
    decreases pre.len(),
{
    if pre.len() > 0 {
        assert forall|k: int| 0 <= k < pre.drop_last().len() implies !is_delimiter(#[trigger] pre.drop_last()[k]) by {
            assert(pre.drop_last()[k] == pre[k]);
        }
        lemma_split_qa_no_delimiter(pre.drop_last());
        assert(!is_delimiter(pre[pre.len() - 1]));
    }
}

/// Question and reply around the first delimiter: with `pre` holding no delimiter and
/// `delim` one, the question texts of `pre`, `delim`, `post` are those of `pre` alone,
/// whatever `post` holds (nothing after the delimiter joins the question), the replies of
/// `pre` alone are empty, and the delimiter line itself is in neither.
pub proof fn lemma_split_qa_question_before_delimiter(
    pre: Seq<(Seq<char>, Seq<char>)>,
    delim: (Seq<char>, Seq<char>),
    post: Seq<(Seq<char>, Seq<char>)>,
)
    requires
        forall|k: int| 0 <= k < pre.len() ==> !is_delimiter(#[trigger] pre[k]),
        is_delimiter(delim),
    ensures
        split_qa(pre).2.len() == 0 && split_qa(pre).3.len() == 0,
        split_qa(pre.push(delim)) == (split_qa(pre).0, split_qa(pre).1, Seq::<char>::empty(), Seq::<char>::empty(), true),
        split_qa(pre.push(delim) + post).0 == split_qa(pre).0,
        split_qa(pre.push(delim) + post).1 == split_qa(pre).1,
        split_qa(pre.push(delim) + post).4,
    decreases post.len(),
{
    lemma_split_qa_no_delimiter(pre);
    lemma_split_qa_paragraph_law(pre, delim.0, delim.1);
    assert(split_qa(pre).2 =~= Seq::<char>::empty() && split_qa(pre).3 =~= Seq::<char>::empty());
    if post.len() == 0 {
        assert(pre.push(delim) + post =~= pre.push(delim));
    } else {
        lemma_split_qa_question_before_delimiter(pre, delim, post.drop_last());
        let all = pre.push(delim) + post;
        assert(all =~= (pre.push(delim) + post.drop_last()).push(post.last()));
        lemma_split_qa_paragraph_law(pre.push(delim) + post.drop_last(), post.last().0, post.last().1);
    }
}

pub open spec fn pairs_view(v: Seq<(String, String)>) -> Seq<(Seq<char>, Seq<char>)> {
    v.map_values(|p: (String, String)| (p.0@, p.1@))
}

/// Splits the paragraphs of an item into question and reply, per language.
pub fn split_question_answer(paragraphs: &Vec<(String, String)>) -> (r: (String, String, String, String))
    ensures
        ({
            let st = split_qa(pairs_view(paragraphs@));
            r.0@ == st.0 && r.1@ == st.1 && r.2@ == st.2 && r.3@ == st.3
        }),
{
    let mut q_nl = String::new();
    let mut q_fr = String::new();
    let mut a_nl = String::new();
    let mut a_fr = String::new();
    let mut in_answer = false;
    let mut i: usize = 0;
    while i < paragraphs.len()
        invariant
            i <= paragraphs.len(),
            ({
                let st = split_qa(pairs_view(paragraphs@).take(i as int));
                q_nl@ == st.0 && q_fr@ == st.1 && a_nl@ == st.2 && a_fr@ == st.3 && in_answer == st.4
            }),
        decreases paragraphs.len() - i,
    {
        let (text, lang) = &paragraphs[i];
        proof {
            assert(pairs_view(paragraphs@).take(i + 1).drop_last() =~= pairs_view(paragraphs@).take(i as int));
            assert(pairs_view(paragraphs@).take(i + 1).last() == (text@, lang@));
        }
        let t = trim_str(text.as_str());
        if !in_answer && re_is_match(ANSWER_DELIM_PATTERN, t.as_str()) {
            in_answer = true;
        } else if in_answer {
            if str_eq(lang.as_str(), "fr") {
                append_line_exec(&mut a_fr, text.as_str());
            } else {
                append_line_exec(&mut a_nl, text.as_str());
            }
        } else {
            if str_eq(lang.as_str(), "fr") {
                append_line_exec(&mut q_fr, text.as_str());
            } else {
                append_line_exec(&mut q_nl, text.as_str());
            }
        }
        i = i + 1;
    }
    assert(pairs_view(paragraphs@).take(paragraphs@.len() as int) =~= pairs_view(paragraphs@));
    (q_nl, q_fr, a_nl, a_fr)
}

/// The paragraphs of an item: every `p` block in its block range whose cleaned text is not
/// empty, with its language.
pub open spec fn item_paragraphs(blocks: Seq<ReportBlock>, item: AgendaItem) -> Seq<(Seq<char>, Seq<char>)>
    decreases blocks.len(),
{
    if blocks.len() == 0 {
        Seq::empty()
    } else {
        let prev = item_paragraphs(blocks.drop_last(), item);
        let b = blocks.last();
        let text = clean_text_spec(b.text@);
        if item.start_block <= b.index < item.end_block && b.tag == BlockTag::P && text.len() > 0 {
            prev.push((text, paragraph_language_spec(text, b.lang.deep_view())))
        } else {
            prev
        }
    }
}

fn collect_item_paragraphs(blocks: &[ReportBlock], item: &AgendaItem) -> (r: Vec<(String, String)>)
    ensures
        pairs_view(r@) == item_paragraphs(blocks@, *item),
{
    let mut out: Vec<(String, String)> = Vec::new();
    let mut i: usize = 0;
    while i < blocks.len()
        invariant
            i <= blocks.len(),
            pairs_view(out@) == item_paragraphs(blocks@.take(i as int), *item),
        decreases blocks.len() - i,
    {
        let block = &blocks[i];
        proof {
            assert(blocks@.take(i + 1).drop_last() =~= blocks@.take(i as int));
            assert(blocks@.take(i + 1).last() == blocks@[i as int]);
        }
        if item.start_block <= block.index && block.index < item.end_block && block.tag == BlockTag::P {
            let text = clean_text(block.text.as_str());
            if !text.as_str().is_empty() {
                let lang = owned(paragraph_language(text.as_str(), &block.lang));
                let ghost prev = out@;
                out.push((text, lang));
                assert(pairs_view(out@) =~= pairs_view(prev).push((text@, lang@)));
            }
        }
        i = i + 1;
    }
    assert(blocks@.take(blocks@.len() as int) =~= blocks@);
    out
}

/// The reply row of a question item answered in writing.
pub open spec fn written_answer_ok(
    a: AnswerDraft,
    item: AgendaItem,
    qa: QaState,
    meeting_kind: MeetingKind,
    session_id: u32,
    meeting_id: u32,
    source_url: Seq<char>,
    cache_path: Seq<char>,
) -> bool {
    &&& a.answer_id@ == item.item_id@ + "_a1"@
    &&& a.question_id@ == item.item_id@
    &&& a.route_id@ == Seq::<char>::empty()
    &&& a.session_id == session_id
    &&& a.meeting_id@ == decimal(meeting_id as nat)
    &&& a.meeting_kind@ == meeting_kind.name()
    &&& a.agenda_id@ == item.agenda_id@
    &&& a.answer_slot == 1
    &&& a.kind@ == "oral_written"@
    &&& a.text_nl@ == qa.2
    &&& a.text_fr@ == qa.3
    &&& a.question_body_nl@ == qa.0
    &&& a.question_body_fr@ == qa.1
    &&& a.status@ == Seq::<char>::empty()
    &&& a.answer_num@ == Seq::<char>::empty()
    &&& a.publication_ref@ == Seq::<char>::empty()
    &&& a.casa@ == Seq::<char>::empty()
    &&& a.source_kind@ == "integraal"@
    &&& a.confidence@ == "parsed"@
    &&& a.source_url@ == source_url
    &&& a.cache_path@ == cache_path
}

/// A question item of the timeline that starts inside the zone, has paragraphs, and has a
/// reply in at least one language.
pub open spec fn answered_in_writing(blocks: Seq<ReportBlock>, item: AgendaItem, zone_start: u32) -> bool {
    let paras = item_paragraphs(blocks, item);
    let qa = split_qa(paras);
    &&& item.item_kind == ItemKind::Question
    &&& item.start_block >= zone_start
    &&& paras.len() > 0
    &&& (qa.2.len() > 0 || qa.3.len() > 0)
}

/// The items of a timeline that give a written reply row, in timeline order.
pub open spec fn answered_items(blocks: Seq<ReportBlock>, timeline: Seq<AgendaItem>, zone_start: u32) -> Seq<AgendaItem> {
    timeline.filter(|item: AgendaItem| answered_in_writing(blocks, item, zone_start))
}

/// The written reply rows of the question items of `timeline` that start at or after
/// `zone_start`: one per item with a reply, in timeline order.
pub fn written_oral_answers_from_timeline(
    blocks: &[ReportBlock],
    timeline: &Vec<AgendaItem>,
    zone_start: u32,
    meeting_kind: MeetingKind,
    session_id: u32,
    meeting_id: u32,
    source_url: &str,
    cache_path: &str,
) -> (r: Vec<AnswerDraft>)
    ensures
        answers_match(r@, blocks@, timeline@, zone_start, meeting_kind, session_id, meeting_id, source_url@, cache_path@),
{
    let ghost pred = |item: AgendaItem| answered_in_writing(blocks@, item, zone_start);
    let mut answers: Vec<AnswerDraft> = Vec::new();
    let mut i: usize = 0;
    while i < timeline.len()
        invariant
            i <= timeline.len(),
            pred == (|item: AgendaItem| answered_in_writing(blocks@, item, zone_start)),
            answers@.len() == timeline@.take(i as int).filter(pred).len(),
            forall|k: int| 0 <= k < answers@.len() ==> written_answer_ok(
                #[trigger] answers@[k],
                timeline@.take(i as int).filter(pred)[k],
                split_qa(item_paragraphs(blocks@, timeline@.take(i as int).filter(pred)[k])),
                meeting_kind,
                session_id,
                meeting_id,
                source_url@,
                cache_path@,
            ),
        decreases timeline.len() - i,
    {
        let item = &timeline[i];
        proof {
            reveal(Seq::filter);
            assert(timeline@.take(i + 1).drop_last() =~= timeline@.take(i as int));
            assert(timeline@.take(i + 1).last() == timeline@[i as int]);
        }
        let mut keep = false;
        if item.item_kind == ItemKind::Question && item.start_block >= zone_start {
            let paragraphs = collect_item_paragraphs(blocks, item);
            if paragraphs.len() > 0 {
                let (q_nl, q_fr, a_nl, a_fr) = split_question_answer(&paragraphs);
                if !a_nl.as_str().is_empty() || !a_fr.as_str().is_empty() {
                    keep = true;
                    let mut meeting_text = String::new();
                    crate::text::push_decimal(&mut meeting_text, meeting_id as u64);
                    assert(meeting_text@ =~= decimal(meeting_id as nat));
                    let a = AnswerDraft {
                        answer_id: inline_answer_id(item.item_id.as_str()),
                        question_id: item.item_id.clone(),
                        route_id: String::new(),
                        session_id,
                        meeting_id: meeting_text,
                        meeting_kind: owned(meeting_kind.as_str()),
                        agenda_id: item.agenda_id.clone(),
                        answer_slot: 1,
                        kind: owned("oral_written"),
                        text_nl: a_nl,
                        text_fr: a_fr,
                        question_body_nl: q_nl,
                        question_body_fr: q_fr,
                        status: String::new(),
                        answer_num: String::new(),
                        publication_ref: String::new(),
                        casa: String::new(),
                        source_kind: owned("integraal"),
                        confidence: owned("parsed"),
                        source_url: owned(source_url),
                        cache_path: owned(cache_path),
                    };
                    let ghost before = answers@;
                    answers.push(a);
                    proof {
                        assert(pred(timeline@[i as int]));
                        assert(timeline@.take(i + 1).filter(pred) == timeline@.take(i as int).filter(pred).push(timeline@[i as int]));
                        assert forall|k: int| 0 <= k < answers@.len() implies written_answer_ok(
                            #[trigger] answers@[k],
                            timeline@.take(i + 1).filter(pred)[k],
                            split_qa(item_paragraphs(blocks@, timeline@.take(i + 1).filter(pred)[k])),
                            meeting_kind,
                            session_id,
                            meeting_id,
                            source_url@,
                            cache_path@,
                        ) by {
                            if k < before.len() {
                                assert(answers@[k] == before[k]);
                            }
                        }
                    }
                }
            }
        }
        if !keep {
            assert(!pred(timeline@[i as int]));
            assert(timeline@.take(i + 1).filter(pred) == timeline@.take(i as int).filter(pred));
        }
        i = i + 1;
    }
    assert(timeline@.take(timeline@.len() as int) =~= timeline@);
    answers
}

/// `r` holds the written reply rows of `timeline`, with the zone starting at `zone_start`.
pub open spec fn answers_match(
    r: Seq<AnswerDraft>,
    blocks: Seq<ReportBlock>,
    timeline: Seq<AgendaItem>,
    zone_start: u32,
    meeting_kind: MeetingKind,
    session_id: u32,
    meeting_id: u32,
    source_url: Seq<char>,
    cache_path: Seq<char>,
) -> bool {
    &&& r.len() == answered_items(blocks, timeline, zone_start).len()
    &&& forall|k: int| 0 <= k < r.len() ==> written_answer_ok(
        #[trigger] r[k],
        answered_items(blocks, timeline, zone_start)[k],
        split_qa(item_paragraphs(blocks, answered_items(blocks, timeline, zone_start)[k])),
        meeting_kind,
        session_id,
        meeting_id,
        source_url,
        cache_path,
    )
}

/// Every item of `timeline` is one that `build_agenda_timeline` may give for `blocks`.
pub open spec fn timeline_ok(blocks: Seq<ReportBlock>, timeline: Seq<AgendaItem>, session_id: u32, meeting_kind: MeetingKind, meeting_id: u32) -> bool {
    forall|t: int| 0 <= t < timeline.len() ==> timeline_item_ok(blocks, #[trigger] timeline[t], session_id, meeting_kind, meeting_id)
}

/// The written reply rows of a report: none when it has no written oral section;
/// otherwise the rows that `written_oral_answers_from_timeline` gives for some agenda
/// timeline of the report (one that `build_agenda_timeline` may give), the zone starting at
/// the section heading.
#[verifier::opaque]
pub open spec fn written_answers_ok(
    r: Seq<AnswerDraft>,
    blocks: Seq<ReportBlock>,
    meeting_kind: MeetingKind,
    session_id: u32,
    meeting_id: u32,
    source_url: Seq<char>,
    cache_path: Seq<char>,
) -> bool {
    &&& (forall|j: int| 0 <= j < blocks.len() ==> !opens_written_zone(#[trigger] blocks[j])) ==> r.len() == 0
    &&& (exists|j: int| 0 <= j < blocks.len() && opens_written_zone(#[trigger] blocks[j])) ==> exists|tl: Seq<AgendaItem>, z: u32|
        is_zone_start(blocks, z) && timeline_ok(blocks, tl, session_id, meeting_kind, meeting_id)
        && #[trigger] answers_match(r, blocks, tl, z, meeting_kind, session_id, meeting_id, source_url, cache_path)
}

/// Extract written oral answer rows for questions in the written-treatment section, as
/// `written_answers_ok` states.
pub fn extract_written_oral_answers(
    blocks: &[ReportBlock],
    meeting_kind: MeetingKind,
    session_id: u32,
    meeting_id: u32,
    source_url: &str,
    cache_path: &str,
) -> (r: Vec<AnswerDraft>)
    requires
        blocks@.len() < 0x7fff_ffff,
    ensures
        written_answers_ok(r@, blocks@, meeting_kind, session_id, meeting_id, source_url@, cache_path@),
{
    let zone_start = match find_written_oral_zone_start(blocks) {
        Some(z) => z,
        None => {
            let r: Vec<AnswerDraft> = Vec::new();
            assert(written_answers_ok(r@, blocks@, meeting_kind, session_id, meeting_id, source_url@, cache_path@)) by {
                reveal(written_answers_ok);
            }
            return r;
        },
    };
    let timeline = build_agenda_timeline(blocks, meeting_kind, session_id, meeting_id);
    let r = written_oral_answers_from_timeline(blocks, &timeline, zone_start, meeting_kind, session_id, meeting_id, source_url, cache_path);
    assert(answers_match(r@, blocks@, timeline@, zone_start, meeting_kind, session_id, meeting_id, source_url@, cache_path@));
    assert(timeline_ok(blocks@, timeline@, session_id, meeting_kind, meeting_id));
    assert(written_answers_ok(r@, blocks@, meeting_kind, session_id, meeting_id, source_url@, cache_path@)) by {
        reveal(written_answers_ok);
    }
    r
}

} // verus!
