//! The agenda of a meeting report: its items (questions, hearings, interpellations, ...)
//! with the block ranges they cover.
use vstd::prelude::*;
use crate::pattern::{capture, capture_text, group, group_at, group_text, re_captures_all, regex_captures_all};
use crate::proceeding_entities::{
    classify_heading_kind, extract_interpellation_ids_from_text, heading_kind, is_french_interpellation_bullet,
    is_interpellation_bullet_line, is_interpellation_section, is_joint_interpellation_fr_header,
    is_joint_interpellation_group_start, interpellation_section, joint_group_start, joint_fr_header,
    interpellation_bullet, french_bullet, interpellation_ids,
};
use crate::question_boundaries::{
    QuestionHeadingRole, classify_question_heading_text, extends_open_question, heading_role,
    is_questions_section, questions_section, starts_new_question_unit,
};
use crate::report_blocks::{BlockTag, ReportBlock};
use crate::text::{contains, decimal, lowercase, owned, push_char, push_decimal, push_str, str_contains, str_eq, to_lower, trim, trim_str};
use crate::utils::{clean_text, clean_text_spec, composite_scoped_id, composite_scoped_id_spec};

verus! {

#[derive(Debug, Clone, Copy, PartialEq, Eq, Structural)]
pub enum MeetingKind {
    Plenary,
    Commission,
}

impl MeetingKind {
    pub open spec fn name(self) -> Seq<char> {
        match self {
            MeetingKind::Plenary => "plenary"@,
            MeetingKind::Commission => "commission"@,
        }
    }

    pub fn as_str(self) -> (r: &'static str)
        ensures
            r@ == self.name(),
    {
        match self {
            MeetingKind::Plenary => "plenary",
            MeetingKind::Commission => "commission",
        }
    }
}

#[derive(Debug, Clone, Copy, PartialEq, Eq, Structural)]
pub enum ItemKind {
    Question,
    Hearing,
    Interpellation,
    GeneralDebate,
    Proposition,
    Notice,
    Vote,
    VoteExplanation,
    Opening,
    Closing,
    Procedural,
    Unknown,
}

impl ItemKind {
    pub open spec fn name(self) -> Seq<char> {
        match self {
            ItemKind::Question => "question"@,
            ItemKind::Hearing => "hearing"@,
            ItemKind::Interpellation => "interpellation"@,
            ItemKind::GeneralDebate => "general_debate"@,
            ItemKind::Proposition => "proposition"@,
            ItemKind::Notice => "notice"@,
            ItemKind::Vote => "vote"@,
            ItemKind::VoteExplanation => "vote_explanation"@,
            ItemKind::Opening => "opening"@,
            ItemKind::Closing => "closing"@,
            ItemKind::Procedural => "procedural"@,
            ItemKind::Unknown => "unknown"@,
        }
    }

    pub fn as_str(self) -> (r: &'static str)
        ensures
            r@ == self.name(),
    {
        match self {
            ItemKind::Question => "question",
            ItemKind::Hearing => "hearing",
            ItemKind::Interpellation => "interpellation",
            ItemKind::GeneralDebate => "general_debate",
            ItemKind::Proposition => "proposition",
            ItemKind::Notice => "notice",
            ItemKind::Vote => "vote",
            ItemKind::VoteExplanation => "vote_explanation",
            ItemKind::Opening => "opening",
            ItemKind::Closing => "closing",
            ItemKind::Procedural => "procedural",
            ItemKind::Unknown => "unknown",
        }
    }
}

/// One agenda item. `title_blocks` lists the blocks its titles were read from, starting
/// with `start_block`.
pub struct AgendaItem {
    pub agenda_id: String,
    pub item_kind: ItemKind,
    pub start_block: u32,
    pub end_block: u32,
    pub title_nl: String,
    pub title_fr: String,
    pub dossier_id: String,
    pub document_id: String,
    pub internal_ids: Vec<String>,
    pub item_id: String,
    pub source_section: String,
    pub title_blocks: Vec<u32>,
}

/// Block `b` lies in the range `[start_block, end_block)` of `item`.
pub open spec fn item_covers(item: AgendaItem, b: u32) -> bool {
    item.start_block <= b < item.end_block
}

/// The last item whose block range holds `block_index`.
pub fn agenda_item_for_block(items: &[AgendaItem], block_index: u32) -> (r: Option<&AgendaItem>)
    ensures
        match r {
            Some(item) => exists|k: int|
                0 <= k < items@.len() && items@[k] == *item && item_covers(items@[k], block_index)
                    && forall|j: int| k < j < items@.len() ==> !item_covers(#[trigger] items@[j], block_index),
            None => forall|j: int| 0 <= j < items@.len() ==> !item_covers(#[trigger] items@[j], block_index),
        },
{
    let mut i = items.len();
    while i > 0
        invariant
            i <= items@.len(),
            forall|j: int| i <= j < items@.len() ==> !item_covers(#[trigger] items@[j], block_index),
        decreases i,
    {
        i = i - 1;
        if block_index >= items[i].start_block && block_index < items[i].end_block {
            return Some(&items[i]);
        }
    }
    None
}

pub fn heading_text_from_block(block: &ReportBlock) -> (r: String)
    ensures
        r@ == clean_text_spec(block.text@),
{
    clean_text(block.text.as_str())
}

/// A two-digit agenda number at the start of a heading.
pub const AGENDA_NUMBER_PATTERN: &'static str = r"^(\d{2})\b";
/// A site question id in parentheses: `(Q56001234C)`.
pub const QUESTION_ID_PATTERN: &'static str = r"\(Q(\d{6,8}[A-Za-z])\)";
/// A dossier and document reference in parentheses: `(1234/5)`.
pub const DOSSIER_DOCUMENT_PATTERN: &'static str = r"\((\d+)/(\d+(?:-\d+)?)\)";

pub fn extract_agenda_number(text: &str) -> (r: Option<String>)
    ensures
        r.deep_view() == capture(AGENDA_NUMBER_PATTERN@, crate::text::trim(text@), 1),
{
    let t = trim_str(text);
    capture_text(AGENDA_NUMBER_PATTERN, t.as_str(), 1)
}

/// A heading reads as French: a question, joint questions or a hearing.
pub open spec fn fr_heading_text(text: Seq<char>) -> bool {
    let l = lowercase(text);
    contains(l, "question de"@) || contains(l, "questions jointes"@) || contains(l, "audition"@)
}

/// The heading is the French twin of `item`: same agenda number, or, without a number,
/// French wording.
pub open spec fn bilingual_fr_heading(text: Seq<char>, item: AgendaItem) -> bool {
    match capture(AGENDA_NUMBER_PATTERN@, trim(text), 1) {
        Some(agenda_id) => agenda_id == item.agenda_id@,
        None => fr_heading_text(text),
    }
}

/// The site question ids `Q...` of a heading, in order.
pub open spec fn internal_ids_of(text: Seq<char>) -> Seq<Seq<char>> {
    regex_captures_all(QUESTION_ID_PATTERN@, text).map_values(|caps: Seq<Option<Seq<char>>>| "Q"@ + group_text(caps, 1))
}

/// The dossier (prefixed by the session) and document of a heading's `(dossier/document)`
/// reference, or two empty strings.
pub open spec fn dossier_refs_of(session_id: u32, text: Seq<char>) -> (Seq<char>, Seq<char>) {
    match capture(DOSSIER_DOCUMENT_PATTERN@, text, 1) {
        Some(dossier) => (decimal(session_id as nat) + seq!['/'] + dossier, match capture(DOSSIER_DOCUMENT_PATTERN@, text, 2) {
            Some(g) => trim(g),
            None => Seq::empty(),
        }),
        None => (Seq::empty(), Seq::empty()),
    }
}

/// The kind of an agenda item from its heading, its role and the section it is in.
pub open spec fn item_kind_of(meeting_kind: MeetingKind, section: Seq<char>, h2_text: Seq<char>, role: QuestionHeadingRole) -> ItemKind {
    let pk = heading_kind(meeting_kind, section, h2_text);
    let question_role = role == QuestionHeadingRole::GroupStart || role == QuestionHeadingRole::Single;
    if pk == ItemKind::Interpellation || pk == ItemKind::Procedural || pk == ItemKind::Hearing {
        pk
    } else {
        match meeting_kind {
            MeetingKind::Plenary => {
                let l = lowercase(section);
                if questions_section(section) && question_role {
                    ItemKind::Question
                } else if contains(l, "voorstel"@) || contains(l, "proposition"@) {
                    ItemKind::Proposition
                } else if contains(l, "mededeling"@) {
                    ItemKind::Notice
                } else if contains(l, "naamstemming"@) || contains(l, "vote"@) {
                    ItemKind::Vote
                } else {
                    ItemKind::GeneralDebate
                }
            },
            MeetingKind::Commission => if question_role {
                ItemKind::Question
            } else {
                ItemKind::GeneralDebate
            },
        }
    }
}

fn looks_like_fr_heading(text: &str) -> (r: bool)
    ensures
        r == fr_heading_text(text@),
{
    let lower = to_lower(text);
    str_contains(lower.as_str(), "question de") || str_contains(lower.as_str(), "questions jointes")
        || str_contains(lower.as_str(), "audition")
}

fn is_bilingual_fr_heading(block: &ReportBlock, item: &AgendaItem) -> (r: bool)
    ensures
        r == bilingual_fr_heading(block.text@, *item),
{
    match extract_agenda_number(block.text.as_str()) {
        Some(agenda_id) => str_eq(agenda_id.as_str(), item.agenda_id.as_str()),
        None => looks_like_fr_heading(block.text.as_str()),
    }
}

fn extract_internal_ids(text: &str) -> (r: Vec<String>)
    ensures
        r.deep_view() == internal_ids_of(text@),
{
    let all = re_captures_all(QUESTION_ID_PATTERN, text);
    let ghost want = internal_ids_of(text@);
    let mut out: Vec<String> = Vec::new();
    let mut i: usize = 0;
    while i < all.len()
        invariant
            i <= all.len(),
            all.deep_view() == regex_captures_all(QUESTION_ID_PATTERN@, text@),
            want == internal_ids_of(text@),
            out.deep_view() == want.take(i as int),
        decreases all.len() - i,
    {
        let mut id = owned("Q");
        let grp = group_at(&all[i], 1);
        assert(all.deep_view()[i as int] == all[i as int].deep_view());
        match grp {
            Some(g) => {
                push_str(&mut id, g.as_str());
                assert(group(all.deep_view()[i as int], 1) == Some(g@));
            },
            None => {
                assert(group(all.deep_view()[i as int], 1) is None);
                assert(id@ =~= "Q"@ + Seq::<char>::empty());
            },
        }
        assert(id@ == "Q"@ + group_text(all.deep_view()[i as int], 1));
        let ghost before = out.deep_view();
        out.push(id);
        assert(out.deep_view() =~= before.push(id@));
        assert(want.take(i + 1) =~= want.take(i as int).push(want[i as int]));
        i = i + 1;
    }
    assert(want.take(all.len() as int) =~= want);
    out
}

fn extract_dossier_refs(session_id: u32, text: &str) -> (r: (String, String))
    ensures
        (r.0@, r.1@) == dossier_refs_of(session_id, text@),
{
    match capture_text(DOSSIER_DOCUMENT_PATTERN, text, 1) {
        Some(dossier) => {
            let mut d = String::new();
            push_decimal(&mut d, session_id as u64);
            push_char(&mut d, '/');
            push_str(&mut d, dossier.as_str());
            let doc = match capture_text(DOSSIER_DOCUMENT_PATTERN, text, 2) {
                Some(g) => trim_str(g.as_str()),
                None => String::new(),
            };
            (d, doc)
        },
        None => (String::new(), String::new()),
    }
}

/// The kind of an agenda item from its heading, its role and the section it is in.
fn classify_item_kind(meeting_kind: MeetingKind, section: &str, h2_text: &str, heading_role: QuestionHeadingRole) -> (r: ItemKind)
    ensures
        r == item_kind_of(meeting_kind, section@, h2_text@, heading_role),
{
    let proceeding_kind = classify_heading_kind(meeting_kind, section, h2_text);
    match proceeding_kind {
        ItemKind::Interpellation | ItemKind::Procedural | ItemKind::Hearing => {
            return proceeding_kind;
        },
        _ => {},
    }
    let question_role = heading_role == QuestionHeadingRole::GroupStart || heading_role == QuestionHeadingRole::Single;
    match meeting_kind {
        MeetingKind::Plenary => {
            if is_questions_section(section) && question_role {
                return ItemKind::Question;
            }
            let lower = to_lower(section);
            let s = lower.as_str();
            if str_contains(s, "voorstel") || str_contains(s, "proposition") {
                return ItemKind::Proposition;
            }
            if str_contains(s, "mededeling") {
                return ItemKind::Notice;
            }
            if str_contains(s, "naamstemming") || str_contains(s, "vote") {
                return ItemKind::Vote;
            }
            ItemKind::GeneralDebate
        },
        MeetingKind::Commission => {
            if question_role {
                ItemKind::Question
            } else {
                ItemKind::GeneralDebate
            }
        },
    }
}

fn should_emit_question_item(meeting_kind: MeetingKind, section: &str, heading_role: QuestionHeadingRole) -> (r: bool)
    ensures
        r == ((heading_role == QuestionHeadingRole::GroupStart || heading_role == QuestionHeadingRole::Single)
            && match meeting_kind {
            MeetingKind::Commission => true,
            MeetingKind::Plenary => questions_section(section@),
        }),
{
    if !starts_new_question_unit(heading_role) {
        return false;
    }
    match meeting_kind {
        MeetingKind::Commission => true,
        MeetingKind::Plenary => is_questions_section(section),
    }
}

/// The item id is empty, or the meeting-scoped id of one of the item's kind sequence.
pub open spec fn item_id_ok(item: AgendaItem, session_id: u32, meeting_kind: MeetingKind, meeting_id: u32) -> bool {
    item.item_id@.len() == 0 || exists|seq: i32| seq >= 0 && #[trigger] composite_scoped_id_spec(
        session_id,
        meeting_kind.name(),
        meeting_id,
        seq,
    ) == item.item_id@
}

/// What every item of a timeline satisfies: it starts at an H2 heading, its first title
/// block is that heading, and every title block is an H2 heading of the report.
pub open spec fn timeline_item_ok(
    blocks: Seq<ReportBlock>,
    item: AgendaItem,
    session_id: u32,
    meeting_kind: MeetingKind,
    meeting_id: u32,
) -> bool {
    &&& item.title_blocks@.len() > 0
    &&& item.title_blocks@[0] == item.start_block
    &&& forall|k: int| 0 <= k < item.title_blocks@.len() ==> is_h2_index(blocks, #[trigger] item.title_blocks@[k])
    &&& item_id_ok(item, session_id, meeting_kind, meeting_id)
}

/// The item is of kind `kind` and carries an id.
pub open spec fn counted(item: AgendaItem, kind: ItemKind) -> bool {
    item.item_kind == kind && item.item_id@.len() > 0
}

/// How many items of `s` are of kind `kind` and carry an id.
pub open spec fn numbered_count(s: Seq<AgendaItem>, kind: ItemKind) -> nat
    decreases s.len(),
{
    if s.len() == 0 {
        0
    } else {
        numbered_count(s.drop_last(), kind) + if counted(s.last(), kind) {
            1nat
        } else {
            0nat
        }
    }
}

/// Item `k` of `items`: hearings and interpellations carry an id; an item with an id is a
/// question, hearing or interpellation, and its id holds the number of items of its kind
/// with an id before it.
pub open spec fn item_numbered(
    items: Seq<AgendaItem>,
    k: int,
    session_id: u32,
    meeting_kind: MeetingKind,
    meeting_id: u32,
) -> bool {
    let it = items[k];
    &&& (it.item_kind == ItemKind::Hearing || it.item_kind == ItemKind::Interpellation) ==> it.item_id@.len() > 0
    &&& it.item_id@.len() > 0 ==> {
        &&& (it.item_kind == ItemKind::Question || it.item_kind == ItemKind::Hearing
            || it.item_kind == ItemKind::Interpellation)
        &&& it.item_id@ == composite_scoped_id_spec(
            session_id,
            meeting_kind.name(),
            meeting_id,
            numbered_count(items.take(k), it.item_kind) as i32,
        )
    }
}

/// Questions, hearings and interpellations are numbered 0, 1, 2, ... per kind, in order.
pub open spec fn numbered_per_kind(items: Seq<AgendaItem>, session_id: u32, meeting_kind: MeetingKind, meeting_id: u32) -> bool {
    forall|k: int| 0 <= k < items.len() ==> #[trigger] item_numbered(items, k, session_id, meeting_kind, meeting_id)
}

/// Two item lists that agree on every item's kind and id.
pub open spec fn same_kinds_and_ids(s: Seq<AgendaItem>, t: Seq<AgendaItem>) -> bool {
    &&& s.len() == t.len()
    &&& forall|k: int| 0 <= k < s.len() ==> (#[trigger] s[k]).item_kind == t[k].item_kind && s[k].item_id@ == t[k].item_id@
}

proof fn lemma_count_same(s: Seq<AgendaItem>, t: Seq<AgendaItem>, kind: ItemKind)
    requires
        same_kinds_and_ids(s, t),
    ensures
        numbered_count(s, kind) == numbered_count(t, kind),
    decreases s.len(),
{
    if s.len() > 0 {
        assert(s[s.len() - 1].item_kind == t[s.len() - 1].item_kind);
        lemma_count_same(s.drop_last(), t.drop_last(), kind);
    }
}

proof fn lemma_count_push(s: Seq<AgendaItem>, x: AgendaItem, kind: ItemKind)
    ensures
        numbered_count(s.push(x), kind) == numbered_count(s, kind) + if counted(x, kind) {
            1nat
        } else {
            0nat
        },
{
    assert(s.push(x).drop_last() =~= s);
}

/// Numbering survives a change that keeps every item's kind and id.
proof fn lemma_numbering_kept(
    s: Seq<AgendaItem>,
    t: Seq<AgendaItem>,
    session_id: u32,
    meeting_kind: MeetingKind,
    meeting_id: u32,
)
    requires
        same_kinds_and_ids(s, t),
        numbered_per_kind(s, session_id, meeting_kind, meeting_id),
    ensures
        numbered_per_kind(t, session_id, meeting_kind, meeting_id),
        forall|kind: ItemKind| numbered_count(t, kind) == #[trigger] numbered_count(s, kind),
{
    assert forall|k: int| 0 <= k < t.len() implies #[trigger] item_numbered(t, k, session_id, meeting_kind, meeting_id) by {
        assert(item_numbered(s, k, session_id, meeting_kind, meeting_id));
        assert(s[k].item_kind == t[k].item_kind);
        assert(same_kinds_and_ids(s.take(k), t.take(k)));
        lemma_count_same(s.take(k), t.take(k), t[k].item_kind);
    }
    assert forall|kind: ItemKind| numbered_count(t, kind) == #[trigger] numbered_count(s, kind) by {
        lemma_count_same(s, t, kind);
    }
}

/// Numbering survives appending an item numbered after those before it.
proof fn lemma_numbering_push(
    s: Seq<AgendaItem>,
    x: AgendaItem,
    session_id: u32,
    meeting_kind: MeetingKind,
    meeting_id: u32,
)
    requires
        numbered_per_kind(s, session_id, meeting_kind, meeting_id),
        item_numbered(s.push(x), s.len() as int, session_id, meeting_kind, meeting_id),
    ensures
        numbered_per_kind(s.push(x), session_id, meeting_kind, meeting_id),
        forall|kind: ItemKind| #[trigger] numbered_count(s.push(x), kind) == numbered_count(s, kind) + if counted(x, kind) {
            1nat
        } else {
            0nat
        },
{
    let t = s.push(x);
    assert forall|k: int| 0 <= k < t.len() implies #[trigger] item_numbered(t, k, session_id, meeting_kind, meeting_id) by {
        if k < s.len() {
            assert(item_numbered(s, k, session_id, meeting_kind, meeting_id));
            assert(t.take(k) =~= s.take(k));
            assert(t[k] == s[k]);
        }
    }
    assert forall|kind: ItemKind| #[trigger] numbered_count(s.push(x), kind) == numbered_count(s, kind) + if counted(x, kind) {
        1nat
    } else {
        0nat
    } by {
        lemma_count_push(s, x, kind);
    }
}

/// `b` is the index of an H2 block of the report.
pub open spec fn is_h2_index(blocks: Seq<ReportBlock>, b: u32) -> bool {
    exists|i: int| 0 <= i < blocks.len() && (#[trigger] blocks[i]).tag == BlockTag::H2 && blocks[i].index == b
}

/// An agenda item as plain values.
pub struct ItemSpec {
    pub agenda_id: Seq<char>,
    pub item_kind: ItemKind,
    pub start_block: u32,
    pub end_block: u32,
    pub title_nl: Seq<char>,
    pub title_fr: Seq<char>,
    pub dossier_id: Seq<char>,
    pub document_id: Seq<char>,
    pub internal_ids: Seq<Seq<char>>,
    pub item_id: Seq<char>,
    pub source_section: Seq<char>,
    pub title_blocks: Seq<u32>,
}

pub open spec fn item_spec(it: AgendaItem) -> ItemSpec {
    ItemSpec {
        agenda_id: it.agenda_id@,
        item_kind: it.item_kind,
        start_block: it.start_block,
        end_block: it.end_block,
        title_nl: it.title_nl@,
        title_fr: it.title_fr@,
        dossier_id: it.dossier_id@,
        document_id: it.document_id@,
        internal_ids: it.internal_ids.deep_view(),
        item_id: it.item_id@,
        source_section: it.source_section@,
        title_blocks: it.title_blocks@,
    }
}

pub open spec fn items_view(items: Seq<AgendaItem>) -> Seq<ItemSpec> {
    items.map_values(|it: AgendaItem| item_spec(it))
}

/// The item with its titles, end block and title blocks replaced.
pub open spec fn retitle_spec(it: ItemSpec, title_nl: Seq<char>, title_fr: Seq<char>, end_block: u32, title_blocks: Seq<u32>) -> ItemSpec {
    ItemSpec { title_nl, title_fr, end_block, title_blocks, ..it }
}

/// The last item's range closed at block `b`.
pub open spec fn close_range_spec(items: Seq<ItemSpec>, b: u32) -> Seq<ItemSpec> {
    if items.len() > 0 {
        items.update(items.len() - 1, ItemSpec { end_block: b, ..items.last() })
    } else {
        items
    }
}

/// The open question `idx` extended by a heading: a sub-question line joins its Dutch title;
/// a French group header becomes its French title when it has none.
pub open spec fn extend_spec(items: Seq<ItemSpec>, idx: int, text: Seq<char>, index: u32, role: QuestionHeadingRole) -> Seq<ItemSpec> {
    let it = items[idx];
    match role {
        QuestionHeadingRole::SubQuestion => items.update(
            idx,
            ItemSpec {
                title_nl: if it.title_nl.len() == 0 {
                    text
                } else {
                    it.title_nl.push('\n') + text
                },
                title_blocks: it.title_blocks.push(index),
                ..it
            },
        ),
        QuestionHeadingRole::FrGroupHeader => if it.title_fr.len() == 0 {
            items.update(idx, ItemSpec { title_fr: text, title_blocks: it.title_blocks.push(index), ..it })
        } else {
            items
        },
        _ => items,
    }
}

/// A fresh item for the H2 heading `text` at block `index`.
pub open spec fn new_item_spec(
    text: Seq<char>,
    index: u32,
    item_kind: ItemKind,
    agenda_id: Seq<char>,
    title_nl: Seq<char>,
    title_fr: Seq<char>,
    seq: Option<i32>,
    session_id: u32,
    meeting_kind: MeetingKind,
    meeting_id: u32,
    end_block: u32,
    internal_ids: Seq<Seq<char>>,
    section: Seq<char>,
) -> ItemSpec {
    ItemSpec {
        agenda_id,
        item_kind,
        start_block: index,
        end_block,
        title_nl,
        title_fr,
        dossier_id: dossier_refs_of(session_id, text).0,
        document_id: dossier_refs_of(session_id, text).1,
        internal_ids,
        item_id: match seq {
            Some(n) => composite_scoped_id_spec(session_id, meeting_kind.name(), meeting_id, n),
            None => Seq::empty(),
        },
        source_section: section,
        title_blocks: seq![index],
    }
}

/// `b` is `a` with its titles, end block and title blocks replaced by these.
pub open spec fn retitled(a: AgendaItem, b: AgendaItem, title_nl: Seq<char>, title_fr: Seq<char>, end_block: u32, title_blocks: Seq<u32>) -> bool {
    &&& b.agenda_id@ == a.agenda_id@
    &&& b.item_kind == a.item_kind
    &&& b.start_block == a.start_block
    &&& b.end_block == end_block
    &&& b.title_nl@ == title_nl
    &&& b.title_fr@ == title_fr
    &&& b.dossier_id@ == a.dossier_id@
    &&& b.document_id@ == a.document_id@
    &&& b.internal_ids.deep_view() == a.internal_ids.deep_view()
    &&& b.item_id@ == a.item_id@
    &&& b.source_section@ == a.source_section@
    &&& b.title_blocks@ == title_blocks
}

/// A copy of an item with its titles, end block and title blocks replaced.
fn with_titles(item: &AgendaItem, title_nl: String, title_fr: String, end_block: u32, title_blocks: Vec<u32>) -> (r: AgendaItem)
    ensures
        r.start_block == item.start_block,
        r.item_id@ == item.item_id@,
        r.item_kind == item.item_kind,
        r.internal_ids.deep_view() == item.internal_ids.deep_view(),
        r.agenda_id@ == item.agenda_id@,
        r.title_nl@ == title_nl@,
        r.title_fr@ == title_fr@,
        r.end_block == end_block,
        r.title_blocks@ == title_blocks@,
        retitled(*item, r, title_nl@, title_fr@, end_block, title_blocks@),
{
    let mut ids: Vec<String> = Vec::new();
    let mut i: usize = 0;
    while i < item.internal_ids.len()
        invariant
            i <= item.internal_ids.len(),
            ids.deep_view() == item.internal_ids.deep_view().take(i as int),
        decreases item.internal_ids.len() - i,
    {
        let ghost before = ids.deep_view();
        ids.push(item.internal_ids[i].clone());
        assert(ids.deep_view() =~= before.push(item.internal_ids.deep_view()[i as int]));
        assert(item.internal_ids.deep_view().take(i + 1) =~= item.internal_ids.deep_view().take(i as int).push(item.internal_ids.deep_view()[i as int]));
        i = i + 1;
    }
    assert(item.internal_ids.deep_view().take(item.internal_ids.len() as int) =~= item.internal_ids.deep_view());
    AgendaItem {
        agenda_id: item.agenda_id.clone(),
        item_kind: item.item_kind,
        start_block: item.start_block,
        end_block,
        title_nl,
        title_fr,
        dossier_id: item.dossier_id.clone(),
        document_id: item.document_id.clone(),
        internal_ids: ids,
        item_id: item.item_id.clone(),
        source_section: item.source_section.clone(),
        title_blocks,
    }
}

fn copy_blocks(v: &Vec<u32>) -> (r: Vec<u32>)
    ensures
        r@ == v@,
{
    let mut out: Vec<u32> = Vec::new();
    let mut i: usize = 0;
    while i < v.len()
        invariant
            i <= v.len(),
            out@ == v@.take(i as int),
        decreases v.len() - i,
    {
        out.push(v[i]);
        assert(out@ =~= v@.take(i + 1));
        i = i + 1;
    }
    assert(v@.take(v.len() as int) =~= v@);
    out
}

/// Replace item `idx` by the copy with new titles, end block and one more title block.
fn retitle(items: &mut Vec<AgendaItem>, idx: usize, title_nl: String, title_fr: String, end_block: u32, extra_block: Option<u32>,
    blocks: Ghost<Seq<ReportBlock>>, session_id: u32, meeting_kind: MeetingKind, meeting_id: u32)
    requires
        idx < old(items)@.len(),
        forall|k: int| 0 <= k < old(items)@.len() ==> timeline_item_ok(blocks@, #[trigger] old(items)@[k], session_id, meeting_kind, meeting_id),
        extra_block matches Some(b) ==> is_h2_index(blocks@, b),
        numbered_per_kind(old(items)@, session_id, meeting_kind, meeting_id),
    ensures
        final(items)@.len() == old(items)@.len(),
        forall|k: int| 0 <= k < final(items)@.len() ==> timeline_item_ok(blocks@, #[trigger] final(items)@[k], session_id, meeting_kind, meeting_id),
        numbered_per_kind(final(items)@, session_id, meeting_kind, meeting_id),
        forall|kind: ItemKind| numbered_count(final(items)@, kind) == #[trigger] numbered_count(old(items)@, kind),
        forall|k: int| 0 <= k < final(items)@.len() && k != idx ==> final(items)@[k] == old(items)@[k],
        final(items)@[idx as int].start_block == old(items)@[idx as int].start_block,
        final(items)@[idx as int].item_kind == old(items)@[idx as int].item_kind,
        final(items)@[idx as int].internal_ids.deep_view() == old(items)@[idx as int].internal_ids.deep_view(),
        final(items)@[idx as int].title_fr@ == title_fr@,
        final(items)@[idx as int].agenda_id@ == old(items)@[idx as int].agenda_id@,
        retitled(old(items)@[idx as int], final(items)@[idx as int], title_nl@, title_fr@, end_block, match extra_block {
            Some(b) => old(items)@[idx as int].title_blocks@.push(b),
            None => old(items)@[idx as int].title_blocks@,
        }),
        items_view(final(items)@) == items_view(old(items)@).update(idx as int, retitle_spec(item_spec(old(items)@[idx as int]), title_nl@, title_fr@, end_block, match extra_block {
            Some(b) => old(items)@[idx as int].title_blocks@.push(b),
            None => old(items)@[idx as int].title_blocks@,
        })),
{
    let mut tb = copy_blocks(&items[idx].title_blocks);
    match extra_block {
        Some(b) => tb.push(b),
        None => {},
    }
    let updated = with_titles(&items[idx], title_nl, title_fr, end_block, tb);
    let ghost before = items@;
    proof {
        assert(timeline_item_ok(blocks@, before[idx as int], session_id, meeting_kind, meeting_id));
        assert(item_id_ok(updated, session_id, meeting_kind, meeting_id)) by {
            if updated.item_id@.len() > 0 {
                assert(item_id_ok(before[idx as int], session_id, meeting_kind, meeting_id));
            }
        }
        assert forall|k: int| 0 <= k < updated.title_blocks@.len() implies is_h2_index(blocks@, #[trigger] updated.title_blocks@[k]) by {
            if k < before[idx as int].title_blocks@.len() {
                assert(updated.title_blocks@[k] == before[idx as int].title_blocks@[k]);
            }
        }
    }
    items.set(idx, updated);
    proof {
        assert(same_kinds_and_ids(before, items@)) by {
            assert forall|k: int| 0 <= k < before.len() implies (#[trigger] before[k]).item_kind == items@[k].item_kind
                && before[k].item_id@ == items@[k].item_id@ by {
                if k != idx {
                    assert(items@[k] == before[k]);
                }
            }
        }
        lemma_numbering_kept(before, items@, session_id, meeting_kind, meeting_id);
        assert(items_view(items@) =~= items_view(before).update(idx as int, item_spec(items@[idx as int])));
    }
}

/// Close the range of the last item at `block_index`.
fn close_item_range(items: &mut Vec<AgendaItem>, block_index: u32,
    blocks: Ghost<Seq<ReportBlock>>, session_id: u32, meeting_kind: MeetingKind, meeting_id: u32)
    requires
        forall|k: int| 0 <= k < old(items)@.len() ==> timeline_item_ok(blocks@, #[trigger] old(items)@[k], session_id, meeting_kind, meeting_id),
        numbered_per_kind(old(items)@, session_id, meeting_kind, meeting_id),
    ensures
        numbered_per_kind(final(items)@, session_id, meeting_kind, meeting_id),
        forall|kind: ItemKind| numbered_count(final(items)@, kind) == #[trigger] numbered_count(old(items)@, kind),
        final(items)@.len() == old(items)@.len(),
        forall|k: int| 0 <= k < final(items)@.len() ==> timeline_item_ok(blocks@, #[trigger] final(items)@[k], session_id, meeting_kind, meeting_id),
        forall|k: int| 0 <= k < final(items)@.len() ==> (#[trigger] final(items)@[k]).item_kind == old(items)@[k].item_kind,
        forall|k: int| 0 <= k < final(items)@.len() ==> (#[trigger] final(items)@[k]).start_block == old(items)@[k].start_block,
        forall|k: int| 0 <= k < final(items)@.len() ==> (#[trigger] final(items)@[k]).internal_ids.deep_view() == old(items)@[k].internal_ids.deep_view(),
        forall|k: int| 0 <= k < final(items)@.len() ==> (#[trigger] final(items)@[k]).title_fr@ == old(items)@[k].title_fr@,
        forall|k: int| 0 <= k < final(items)@.len() ==> (#[trigger] final(items)@[k]).agenda_id@ == old(items)@[k].agenda_id@,
        old(items)@.len() == 0 ==> final(items)@ == old(items)@,
        old(items)@.len() > 0 ==> {
            let last = old(items)@.len() - 1;
            &&& retitled(old(items)@[last], final(items)@[last], old(items)@[last].title_nl@, old(items)@[last].title_fr@, block_index, old(items)@[last].title_blocks@)
            &&& forall|k: int| 0 <= k < last ==> final(items)@[k] == old(items)@[k]
        },
        items_view(final(items)@) == close_range_spec(items_view(old(items)@), block_index),
{
    if items.len() > 0 {
        let last = items.len() - 1;
        let nl = items[last].title_nl.clone();
        let fr = items[last].title_fr.clone();
        retitle(items, last, nl, fr, block_index, None, blocks, session_id, meeting_kind, meeting_id);
    }
}

/// Append a new item that starts at an H2 block.
fn push_item(
    items: &mut Vec<AgendaItem>,
    item: AgendaItem,
    blocks: Ghost<Seq<ReportBlock>>,
    session_id: u32,
    meeting_kind: MeetingKind,
    meeting_id: u32,
)
    requires
        timeline_item_ok(blocks@, item, session_id, meeting_kind, meeting_id),
        forall|k: int| 0 <= k < old(items)@.len() ==> timeline_item_ok(blocks@, #[trigger] old(items)@[k], session_id, meeting_kind, meeting_id),
        numbered_per_kind(old(items)@, session_id, meeting_kind, meeting_id),
        next_numbered(old(items)@, item, session_id, meeting_kind, meeting_id),
    ensures
        final(items)@ == old(items)@.push(item),
        items_view(final(items)@) == items_view(old(items)@).push(item_spec(item)),
        forall|k: int| 0 <= k < final(items)@.len() ==> timeline_item_ok(blocks@, #[trigger] final(items)@[k], session_id, meeting_kind, meeting_id),
        numbered_per_kind(final(items)@, session_id, meeting_kind, meeting_id),
        forall|kind: ItemKind| #[trigger] numbered_count(final(items)@, kind) == numbered_count(old(items)@, kind) + if counted(item, kind) {
            1nat
        } else {
            0nat
        },
{
    let ghost before = items@;
    items.push(item);
    proof {
        assert(items@.take(before.len() as int) =~= before);
        assert(item_numbered(items@, before.len() as int, session_id, meeting_kind, meeting_id));
        lemma_numbering_push(before, item, session_id, meeting_kind, meeting_id);
        assert forall|k: int| 0 <= k < items@.len() implies timeline_item_ok(blocks@, #[trigger] items@[k], session_id, meeting_kind, meeting_id) by {
            if k < before.len() {
                assert(items@[k] == before[k]);
            }
        }
    }
}

/// `item` may follow `items`: hearings and interpellations carry an id, and an item with an
/// id is a question, hearing or interpellation numbered after those of its kind in `items`.
spec fn next_numbered(items: Seq<AgendaItem>, item: AgendaItem, session_id: u32, meeting_kind: MeetingKind, meeting_id: u32) -> bool {
    &&& (item.item_kind == ItemKind::Hearing || item.item_kind == ItemKind::Interpellation) ==> item.item_id@.len() > 0
    &&& item.item_id@.len() > 0 ==> {
        &&& (item.item_kind == ItemKind::Question || item.item_kind == ItemKind::Hearing
            || item.item_kind == ItemKind::Interpellation)
        &&& item.item_id@ == composite_scoped_id_spec(
            session_id,
            meeting_kind.name(),
            meeting_id,
            numbered_count(items, item.item_kind) as i32,
        )
    }
}

/// A fresh item for the H2 block `block`, with the `seq`-th id of its kind when `seq` is given.
fn new_item(
    block: &ReportBlock,
    item_kind: ItemKind,
    agenda_id: &str,
    title_nl: String,
    title_fr: String,
    seq: Option<i32>,
    session_id: u32,
    meeting_kind: MeetingKind,
    meeting_id: u32,
    end_block: u32,
    internal_ids: Vec<String>,
    section: &str,
    blocks: Ghost<Seq<ReportBlock>>,
) -> (r: AgendaItem)
    requires
        is_h2_index(blocks@, block.index),
        seq matches Some(n) ==> n >= 0,
    ensures
        timeline_item_ok(blocks@, r, session_id, meeting_kind, meeting_id),
        r.start_block == block.index,
        r.item_kind == item_kind,
        r.internal_ids.deep_view() == internal_ids.deep_view(),
        r.agenda_id@ == agenda_id@,
        r.title_fr@ == title_fr@,
        r.item_id@ == match seq {
            Some(n) => composite_scoped_id_spec(session_id, meeting_kind.name(), meeting_id, n),
            None => Seq::<char>::empty(),
        },
        item_spec(r) == new_item_spec(block.text@, block.index, item_kind, agenda_id@, title_nl@, title_fr@, seq, session_id, meeting_kind, meeting_id, end_block, internal_ids.deep_view(), section@),
{
    let item_id = match seq {
        Some(n) => composite_scoped_id(session_id, meeting_kind.as_str(), meeting_id, n),
        None => String::new(),
    };
    let (dossier_id, document_id) = extract_dossier_refs(session_id, block.text.as_str());
    let mut title_blocks: Vec<u32> = Vec::new();
    title_blocks.push(block.index);
    let r = AgendaItem {
        agenda_id: agenda_id.to_string(),
        item_kind,
        start_block: block.index,
        end_block,
        title_nl,
        title_fr,
        dossier_id,
        document_id,
        internal_ids,
        item_id,
        source_section: section.to_string(),
        title_blocks,
    };
    proof {
        match seq {
            Some(n) => {
                assert(composite_scoped_id_spec(session_id, meeting_kind.name(), meeting_id, n) == r.item_id@);
            },
            None => {},
        }
    }
    r
}

/// Extend the open question with a sub-question line or a French group header.
fn extend_open_question(
    items: &mut Vec<AgendaItem>,
    idx: usize,
    block: &ReportBlock,
    role: QuestionHeadingRole,
    blocks: Ghost<Seq<ReportBlock>>,
    session_id: u32,
    meeting_kind: MeetingKind,
    meeting_id: u32,
)
    requires
        idx < old(items)@.len(),
        is_h2_index(blocks@, block.index),
        forall|k: int| 0 <= k < old(items)@.len() ==> timeline_item_ok(blocks@, #[trigger] old(items)@[k], session_id, meeting_kind, meeting_id),
        numbered_per_kind(old(items)@, session_id, meeting_kind, meeting_id),
    ensures
        numbered_per_kind(final(items)@, session_id, meeting_kind, meeting_id),
        forall|kind: ItemKind| numbered_count(final(items)@, kind) == #[trigger] numbered_count(old(items)@, kind),
        final(items)@.len() == old(items)@.len(),
        forall|k: int| 0 <= k < final(items)@.len() ==> timeline_item_ok(blocks@, #[trigger] final(items)@[k], session_id, meeting_kind, meeting_id),
        forall|k: int| 0 <= k < final(items)@.len() ==> (#[trigger] final(items)@[k]).item_kind == old(items)@[k].item_kind,
        forall|k: int| 0 <= k < final(items)@.len() ==> (#[trigger] final(items)@[k]).start_block == old(items)@[k].start_block,
        forall|k: int| 0 <= k < final(items)@.len() ==> (#[trigger] final(items)@[k]).internal_ids.deep_view() == old(items)@[k].internal_ids.deep_view(),
        forall|k: int| 0 <= k < final(items)@.len() ==> (#[trigger] final(items)@[k]).agenda_id@ == old(items)@[k].agenda_id@,
        forall|k: int| 0 <= k < final(items)@.len() && k != idx ==> final(items)@[k] == old(items)@[k],
        match role {
            QuestionHeadingRole::SubQuestion => retitled(
                old(items)@[idx as int],
                final(items)@[idx as int],
                if old(items)@[idx as int].title_nl@.len() == 0 {
                    block.text@
                } else {
                    old(items)@[idx as int].title_nl@.push('\n') + block.text@
                },
                old(items)@[idx as int].title_fr@,
                old(items)@[idx as int].end_block,
                old(items)@[idx as int].title_blocks@.push(block.index),
            ),
            QuestionHeadingRole::FrGroupHeader => if old(items)@[idx as int].title_fr@.len() == 0 {
                retitled(
                    old(items)@[idx as int],
                    final(items)@[idx as int],
                    old(items)@[idx as int].title_nl@,
                    block.text@,
                    old(items)@[idx as int].end_block,
                    old(items)@[idx as int].title_blocks@.push(block.index),
                )
            } else {
                final(items)@ == old(items)@
            },
            _ => final(items)@ == old(items)@,
        },
        items_view(final(items)@) == extend_spec(items_view(old(items)@), idx as int, block.text@, block.index, role),
{
    match role {
        QuestionHeadingRole::SubQuestion => {
            let mut nl = items[idx].title_nl.clone();
            if !nl.as_str().is_empty() {
                push_char(&mut nl, '\n');
            }
            push_str(&mut nl, block.text.as_str());
            let fr = items[idx].title_fr.clone();
            let end = items[idx].end_block;
            retitle(items, idx, nl, fr, end, Some(block.index), blocks, session_id, meeting_kind, meeting_id);
        },
        QuestionHeadingRole::FrGroupHeader => {
            if items[idx].title_fr.as_str().is_empty() {
                let nl = items[idx].title_nl.clone();
                let end = items[idx].end_block;
                retitle(items, idx, nl, block.text.clone(), end, Some(block.index), blocks, session_id, meeting_kind, meeting_id);
            }
        },
        _ => {},
    }
}

/// The state of the timeline while reading a report.
pub struct TimelineState {
    pub items: Seq<ItemSpec>,
    pub section: Seq<char>,
    pub qseq: i32,
    pub hseq: i32,
    pub iseq: i32,
    pub group: Seq<char>,
    pub fr_phase: bool,
    pub pending: Option<(u32, Seq<char>)>,
    pub open_q: Option<int>,
}

/// The heading is the French twin of an item with agenda number `agenda_id`.
pub open spec fn fr_twin(text: Seq<char>, agenda_id: Seq<char>) -> bool {
    match capture(AGENDA_NUMBER_PATTERN@, trim(text), 1) {
        Some(a) => a == agenda_id,
        None => fr_heading_text(text),
    }
}

/// The first interpellation from `f` on that carries the site id `id`.
pub open spec fn first_interp_from(items: Seq<ItemSpec>, id: Seq<char>, f: int) -> Option<int>
    decreases items.len() - f,
{
    if f < 0 || f >= items.len() {
        None
    } else if items[f].item_kind == ItemKind::Interpellation && items[f].internal_ids.contains(id) {
        Some(f)
    } else {
        first_interp_from(items, id, f + 1)
    }
}

/// The first item from `f` on that starts at block `start`.
pub open spec fn first_start_from(items: Seq<ItemSpec>, start: u32, f: int) -> Option<int>
    decreases items.len() - f,
{
    if f < 0 || f >= items.len() {
        None
    } else if items[f].start_block == start {
        Some(f)
    } else {
        first_start_from(items, start, f + 1)
    }
}

proof fn lemma_first_interp_skip(items: Seq<ItemSpec>, id: Seq<char>, f: int)
    requires
        0 <= f <= items.len(),
        forall|k: int| 0 <= k < f ==> !(items[k].item_kind == ItemKind::Interpellation && #[trigger] items[k].internal_ids.contains(id)),
    ensures
        first_interp_from(items, id, 0) == first_interp_from(items, id, f),
    decreases f,
{
    if f > 0 {
        lemma_first_interp_skip(items, id, f - 1);
    }
}

proof fn lemma_first_start_skip(items: Seq<ItemSpec>, start: u32, f: int)
    requires
        0 <= f <= items.len(),
        forall|k: int| 0 <= k < f ==> (#[trigger] items[k]).start_block != start,
    ensures
        first_start_from(items, start, 0) == first_start_from(items, start, f),
    decreases f,
{
    if f > 0 {
        lemma_first_start_skip(items, start, f - 1);
    }
}

/// An H2 heading that did not join the pending item as its French title.
pub open spec fn timeline_heading(st: TimelineState, b: ReportBlock, end_all: u32, meeting_kind: MeetingKind, session_id: u32, meeting_id: u32) -> TimelineState {
    let text = b.text@;
    let items = st.items;
    let role = heading_role(text);
    let aid = capture(AGENDA_NUMBER_PATTERN@, trim(text), 1);
    let pend = Some((b.index, text));
    let extends = role == QuestionHeadingRole::SubQuestion || role == QuestionHeadingRole::FrGroupHeader;
    let starts = role == QuestionHeadingRole::GroupStart || role == QuestionHeadingRole::Single;
    if interpellation_section(st.section) && joint_group_start(text) {
        TimelineState {
            items: if !joint_fr_header(text) {
                close_range_spec(items, b.index)
            } else {
                items
            },
            open_q: None,
            group: match aid {
                Some(a) => a,
                None => st.group,
            },
            fr_phase: joint_fr_header(text),
            pending: pend,
            ..st
        }
    } else if interpellation_section(st.section) && interpellation_bullet(text) {
        let ids = interpellation_ids(text);
        let is_fr = st.fr_phase || french_bullet(text);
        let found = if is_fr && ids.len() > 0 {
            first_interp_from(items, ids[0], 0)
        } else {
            None
        };
        match found {
            Some(f) => TimelineState {
                items: items.update(f, retitle_spec(items[f], items[f].title_nl, text, end_all, items[f].title_blocks.push(b.index))),
                open_q: None,
                pending: pend,
                ..st
            },
            None => {
                let closed = close_range_spec(items, b.index);
                let item = new_item_spec(
                    text,
                    b.index,
                    ItemKind::Interpellation,
                    st.group,
                    if is_fr {
                        Seq::empty()
                    } else {
                        text
                    },
                    if is_fr {
                        text
                    } else {
                        Seq::empty()
                    },
                    Some(st.iseq),
                    session_id,
                    meeting_kind,
                    meeting_id,
                    end_all,
                    ids,
                    st.section,
                );
                TimelineState { items: closed.push(item), iseq: (st.iseq + 1) as i32, open_q: None, pending: pend, ..st }
            },
        }
    } else {
        match aid {
            None => if extends {
                match st.open_q {
                    Some(idx) => TimelineState { items: extend_spec(close_range_spec(items, b.index), idx, text, b.index, role), ..st },
                    None => st,
                }
            } else if starts && match meeting_kind {
                MeetingKind::Commission => true,
                MeetingKind::Plenary => questions_section(st.section),
            } {
                let closed = close_range_spec(items, b.index);
                let item = new_item_spec(
                    text,
                    b.index,
                    ItemKind::Question,
                    Seq::empty(),
                    text,
                    Seq::empty(),
                    Some(st.qseq),
                    session_id,
                    meeting_kind,
                    meeting_id,
                    end_all,
                    internal_ids_of(text),
                    st.section,
                );
                TimelineState {
                    items: closed.push(item),
                    qseq: (st.qseq + 1) as i32,
                    open_q: Some(closed.len() as int),
                    pending: pend,
                    ..st
                }
            } else {
                st
            },
            Some(a) => {
                let closed = close_range_spec(items, b.index);
                let oq = if role == QuestionHeadingRole::Hearing {
                    None
                } else {
                    st.open_q
                };
                if extends {
                    TimelineState {
                        items: match oq {
                            Some(idx) => extend_spec(closed, idx, text, b.index, role),
                            None => closed,
                        },
                        open_q: oq,
                        pending: pend,
                        ..st
                    }
                } else {
                    let kind = item_kind_of(meeting_kind, st.section, text, role);
                    if kind == ItemKind::Question && starts {
                        let item = new_item_spec(
                            text,
                            b.index,
                            ItemKind::Question,
                            a,
                            text,
                            Seq::empty(),
                            Some(st.qseq),
                            session_id,
                            meeting_kind,
                            meeting_id,
                            end_all,
                            internal_ids_of(text),
                            st.section,
                        );
                        TimelineState {
                            items: closed.push(item),
                            qseq: (st.qseq + 1) as i32,
                            open_q: Some(closed.len() as int),
                            pending: pend,
                            ..st
                        }
                    } else {
                        let seq = if kind == ItemKind::Hearing {
                            Some(st.hseq)
                        } else if kind == ItemKind::Interpellation {
                            Some(st.iseq)
                        } else {
                            None
                        };
                        let item = new_item_spec(
                            text,
                            b.index,
                            kind,
                            a,
                            text,
                            Seq::empty(),
                            seq,
                            session_id,
                            meeting_kind,
                            meeting_id,
                            end_all,
                            internal_ids_of(text),
                            st.section,
                        );
                        TimelineState {
                            items: closed.push(item),
                            hseq: if kind == ItemKind::Hearing {
                                (st.hseq + 1) as i32
                            } else {
                                st.hseq
                            },
                            iseq: if kind == ItemKind::Interpellation {
                                (st.iseq + 1) as i32
                            } else {
                                st.iseq
                            },
                            open_q: None,
                            pending: pend,
                            ..st
                        }
                    }
                }
            },
        }
    }
}

/// One block of the report read by the timeline.
pub open spec fn timeline_step(st: TimelineState, b: ReportBlock, end_all: u32, meeting_kind: MeetingKind, session_id: u32, meeting_id: u32) -> TimelineState {
    let text = b.text@;
    let items = st.items;
    if b.tag == BlockTag::H1 {
        TimelineState { section: lowercase(text), group: Seq::empty(), fr_phase: false, ..st }
    } else if b.tag != BlockTag::H2 {
        st
    } else {
        let st0 = TimelineState { pending: None, ..st };
        let merge: Option<int> = match st.pending {
            Some((start, _)) => match st.open_q {
                Some(idx) => if 0 <= idx < items.len() && items[idx].start_block == start && items[idx].title_fr.len() == 0
                    && fr_twin(text, items[idx].agenda_id) {
                    Some(idx)
                } else {
                    None
                },
                None => if items.len() > 0 && items.last().start_block == start && items.last().title_fr.len() == 0
                    && fr_twin(text, items.last().agenda_id) {
                    Some(items.len() - 1)
                } else {
                    None
                },
            },
            None => None,
        };
        match merge {
            Some(m) => TimelineState {
                items: items.update(m, retitle_spec(items[m], items[m].title_nl, text, items[m].end_block, items[m].title_blocks.push(b.index))),
                ..st0
            },
            None => timeline_heading(st0, b, end_all, meeting_kind, session_id, meeting_id),
        }
    }
}

/// The timeline state after the first `n` blocks.
pub open spec fn timeline_upto(blocks: Seq<ReportBlock>, n: int, meeting_kind: MeetingKind, session_id: u32, meeting_id: u32) -> TimelineState
    decreases n,
{
    if n <= 0 || n > blocks.len() {
        TimelineState {
            items: Seq::empty(),
            section: Seq::empty(),
            qseq: 0,
            hseq: 0,
            iseq: 0,
            group: Seq::empty(),
            fr_phase: false,
            pending: None,
            open_q: None,
        }
    } else {
        timeline_step(timeline_upto(blocks, n - 1, meeting_kind, session_id, meeting_id), blocks[n - 1], blocks.len() as u32, meeting_kind, session_id, meeting_id)
    }
}

/// The agenda items of a report: the items read from all blocks, the last heading read
/// taking the Dutch title of the first item that starts at it.
pub open spec fn timeline_spec(blocks: Seq<ReportBlock>, meeting_kind: MeetingKind, session_id: u32, meeting_id: u32) -> Seq<ItemSpec> {
    let st = timeline_upto(blocks, blocks.len() as int, meeting_kind, session_id, meeting_id);
    let items = st.items;
    match st.pending {
        Some((start, nl)) => match first_start_from(items, start, 0) {
            Some(f) => items.update(f, retitle_spec(items[f], nl, items[f].title_fr, items[f].end_block, items[f].title_blocks)),
            None => items,
        },
        None => items,
    }
}

spec fn pending_view(p: Option<(u32, String)>) -> Option<(u32, Seq<char>)> {
    match p {
        Some((a, t)) => Some((a, t@)),
        None => None,
    }
}

spec fn open_view(o: Option<usize>) -> Option<int> {
    match o {
        Some(q) => Some(q as int),
        None => None,
    }
}

/// The agenda items of a meeting report, from its H1 sections and H2 headings.
///
/// Items start at H2 headings and run to the next item's heading (or the end of the
/// report); bilingual heading pairs become one item with a Dutch and a French title;
/// questions, hearings and interpellations are numbered per kind within the meeting.
/// The timeline state of the exec variables.
spec fn state_of(
    items: Seq<AgendaItem>,
    section: Seq<char>,
    qseq: i32,
    hseq: i32,
    iseq: i32,
    group: Seq<char>,
    fr_phase: bool,
    pending: Option<(u32, String)>,
    open_q: Option<usize>,
) -> TimelineState {
    TimelineState {
        items: items_view(items),
        section,
        qseq,
        hseq,
        iseq,
        group,
        fr_phase,
        pending: pending_view(pending),
        open_q: open_view(open_q),
    }
}

/// Read an H2 heading that did not join the pending item as its French title.
#[verifier::rlimit(100)]
#[verifier::spinoff_prover]
fn read_heading(
    items: &mut Vec<AgendaItem>,
    current_section: &String,
    question_seq: &mut i32,
    hearing_seq: &mut i32,
    interpellation_seq: &mut i32,
    group_agenda_id: &mut String,
    fr_phase: &mut bool,
    pending: &mut Option<(u32, String)>,
    open_question: &mut Option<usize>,
    block: &ReportBlock,
    end_all: u32,
    blocks: Ghost<Seq<ReportBlock>>,
    session_id: u32,
    meeting_kind: MeetingKind,
    meeting_id: u32,
    bound: Ghost<int>,
)
    requires
        0 <= bound@ < 0x7fff_fffe,
        is_h2_index(blocks@, block.index),
        0 <= *old(question_seq) <= bound@,
        0 <= *old(hearing_seq) <= bound@,
        0 <= *old(interpellation_seq) <= bound@,
        *old(pending) is None,
        *old(open_question) matches Some(q) ==> q < old(items)@.len(),
        forall|k: int| 0 <= k < old(items)@.len() ==> timeline_item_ok(blocks@, #[trigger] old(items)@[k], session_id, meeting_kind, meeting_id),
        numbered_per_kind(old(items)@, session_id, meeting_kind, meeting_id),
        *old(question_seq) == numbered_count(old(items)@, ItemKind::Question),
        *old(hearing_seq) == numbered_count(old(items)@, ItemKind::Hearing),
        *old(interpellation_seq) == numbered_count(old(items)@, ItemKind::Interpellation),
    ensures
        0 <= *final(question_seq) <= bound@ + 1,
        0 <= *final(hearing_seq) <= bound@ + 1,
        0 <= *final(interpellation_seq) <= bound@ + 1,
        *final(open_question) matches Some(q) ==> q < final(items)@.len(),
        forall|k: int| 0 <= k < final(items)@.len() ==> timeline_item_ok(blocks@, #[trigger] final(items)@[k], session_id, meeting_kind, meeting_id),
        numbered_per_kind(final(items)@, session_id, meeting_kind, meeting_id),
        *final(question_seq) == numbered_count(final(items)@, ItemKind::Question),
        *final(hearing_seq) == numbered_count(final(items)@, ItemKind::Hearing),
        *final(interpellation_seq) == numbered_count(final(items)@, ItemKind::Interpellation),
        state_of(final(items)@, current_section@, *final(question_seq), *final(hearing_seq), *final(interpellation_seq), final(group_agenda_id)@, *final(fr_phase), *final(pending), *final(open_question))
            == timeline_heading(
            state_of(old(items)@, current_section@, *old(question_seq), *old(hearing_seq), *old(interpellation_seq), old(group_agenda_id)@, *old(fr_phase), *old(pending), *old(open_question)),
            *block,
            end_all,
            meeting_kind,
            session_id,
            meeting_id,
        ),
{
    let text = block.text.as_str();
    let heading_role = classify_question_heading_text(text);
    let agenda_id = extract_agenda_number(text);
    if is_interpellation_section(current_section.as_str()) {
        if is_joint_interpellation_group_start(text) {
            if !is_joint_interpellation_fr_header(text) {
                close_item_range(items, block.index, blocks, session_id, meeting_kind, meeting_id);
            }
            *open_question = None;
            match &agenda_id {
                Some(id) => {
                    *group_agenda_id = id.clone();
                },
                None => {},
            }
            *fr_phase = is_joint_interpellation_fr_header(text);
            *pending = Some((block.index, block.text.clone()));
            return;
        }
        if is_interpellation_bullet_line(text) {
            *open_question = None;
            let internal_ids = extract_interpellation_ids_from_text(text);
            let is_fr = *fr_phase || is_french_interpellation_bullet(text);
            if is_fr && internal_ids.len() > 0 {
                let site_id = &internal_ids[0];
                let ghost iv = items_view(items@);
                let mut found: Option<usize> = None;
                let mut q: usize = 0;
                while q < items.len()
                    invariant
                        q <= items@.len(),
                        iv == items_view(items@),
                        found matches Some(f) ==> f < q && iv[f as int].item_kind == ItemKind::Interpellation
                            && iv[f as int].internal_ids.contains(site_id@)
                            && forall|k: int| 0 <= k < f ==> !(iv[k].item_kind == ItemKind::Interpellation && #[trigger] iv[k].internal_ids.contains(site_id@)),
                        found is None ==> forall|k: int| 0 <= k < q ==> !(iv[k].item_kind == ItemKind::Interpellation && #[trigger] iv[k].internal_ids.contains(site_id@)),
                    decreases items.len() - q,
                {
                    if found.is_none() && items[q].item_kind == ItemKind::Interpellation
                        && crate::text::strings_contain(&items[q].internal_ids, site_id.as_str()) {
                        found = Some(q);
                    }
                    q = q + 1;
                }
                proof {
                    assert(internal_ids.deep_view()[0] == site_id@);
                    match found {
                        Some(f) => {
                            lemma_first_interp_skip(iv, site_id@, f as int);
                        },
                        None => {
                            lemma_first_interp_skip(iv, site_id@, iv.len() as int);
                        },
                    }
                }
                match found {
                    Some(f) => {
                        let nl = items[f].title_nl.clone();
                        retitle(items, f, nl, block.text.clone(), end_all, Some(block.index), blocks, session_id, meeting_kind, meeting_id);
                        *pending = Some((block.index, block.text.clone()));
                        return;
                    },
                    None => {},
                }
            }
            close_item_range(items, block.index, blocks, session_id, meeting_kind, meeting_id);
            let seq = *interpellation_seq;
            *interpellation_seq = *interpellation_seq + 1;
            let (nl, fr) = if is_fr {
                (String::new(), block.text.clone())
            } else {
                (block.text.clone(), String::new())
            };
            let item = new_item(block, ItemKind::Interpellation, group_agenda_id.as_str(), nl, fr, Some(seq), session_id, meeting_kind, meeting_id, end_all, internal_ids, current_section.as_str(), blocks);
            *pending = Some((block.index, block.text.clone()));
            push_item(items, item, blocks, session_id, meeting_kind, meeting_id);
            return;
        }
    }
    match agenda_id {
        None => {
            if extends_open_question(heading_role) {
                match *open_question {
                    Some(idx) => {
                        close_item_range(items, block.index, blocks, session_id, meeting_kind, meeting_id);
                        extend_open_question(items, idx, block, heading_role, blocks, session_id, meeting_kind, meeting_id);
                    },
                    None => {},
                }
            } else if should_emit_question_item(meeting_kind, current_section.as_str(), heading_role) {
                close_item_range(items, block.index, blocks, session_id, meeting_kind, meeting_id);
                let seq = *question_seq;
                *question_seq = *question_seq + 1;
                *open_question = Some(items.len());
                let internal_ids = extract_internal_ids(text);
                let item = new_item(block, ItemKind::Question, "", block.text.clone(), String::new(), Some(seq), session_id, meeting_kind, meeting_id, end_all, internal_ids, current_section.as_str(), blocks);
                proof {
                    reveal_strlit("");
                    assert(""@ =~= Seq::<char>::empty());
                }
                push_item(items, item, blocks, session_id, meeting_kind, meeting_id);
                *pending = Some((block.index, block.text.clone()));
            }
            return;
        },
        Some(agenda_id) => {
            close_item_range(items, block.index, blocks, session_id, meeting_kind, meeting_id);
            if heading_role == QuestionHeadingRole::Hearing {
                *open_question = None;
            }
            if extends_open_question(heading_role) {
                match *open_question {
                    Some(idx) => {
                        extend_open_question(items, idx, block, heading_role, blocks, session_id, meeting_kind, meeting_id);
                    },
                    None => {},
                }
                *pending = Some((block.index, block.text.clone()));
                return;
            }
            let item_kind = classify_item_kind(meeting_kind, current_section.as_str(), text, heading_role);
            if item_kind == ItemKind::Question && starts_new_question_unit(heading_role) {
                let seq = *question_seq;
                *question_seq = *question_seq + 1;
                *open_question = Some(items.len());
                let internal_ids = extract_internal_ids(text);
                let item = new_item(block, ItemKind::Question, agenda_id.as_str(), block.text.clone(), String::new(), Some(seq), session_id, meeting_kind, meeting_id, end_all, internal_ids, current_section.as_str(), blocks);
                push_item(items, item, blocks, session_id, meeting_kind, meeting_id);
                *pending = Some((block.index, block.text.clone()));
                return;
            }
            *open_question = None;
            let seq = match item_kind {
                ItemKind::Hearing => {
                    let s = *hearing_seq;
                    *hearing_seq = *hearing_seq + 1;
                    Some(s)
                },
                ItemKind::Interpellation => {
                    let s = *interpellation_seq;
                    *interpellation_seq = *interpellation_seq + 1;
                    Some(s)
                },
                _ => None,
            };
            let internal_ids = extract_internal_ids(text);
            *pending = Some((block.index, block.text.clone()));
            let item = new_item(block, item_kind, agenda_id.as_str(), block.text.clone(), String::new(), seq, session_id, meeting_kind, meeting_id, end_all, internal_ids, current_section.as_str(), blocks);
            push_item(items, item, blocks, session_id, meeting_kind, meeting_id);
        },
    }
}

#[verifier::rlimit(100)]
#[verifier::spinoff_prover]
pub fn build_agenda_timeline(
    blocks: &[ReportBlock],
    meeting_kind: MeetingKind,
    session_id: u32,
    meeting_id: u32,
) -> (r: Vec<AgendaItem>)
    requires
        blocks@.len() < 0x7fff_ffff,
    ensures
        forall|k: int| 0 <= k < r@.len() ==> timeline_item_ok(blocks@, #[trigger] r@[k], session_id, meeting_kind, meeting_id),
        numbered_per_kind(r@, session_id, meeting_kind, meeting_id),
        items_view(r@) == timeline_spec(blocks@, meeting_kind, session_id, meeting_id),
{
    let ghost gb = blocks@;
    let end_all = blocks.len() as u32;
    let mut items: Vec<AgendaItem> = Vec::new();
    let mut current_section = String::new();
    let mut question_seq: i32 = 0;
    let mut hearing_seq: i32 = 0;
    let mut interpellation_seq: i32 = 0;
    let mut group_agenda_id = String::new();
    let mut fr_phase = false;
    let mut pending: Option<(u32, String)> = None;
    let mut open_question: Option<usize> = None;
    let mut bi: usize = 0;
    assert(items_view(items@) =~= Seq::<ItemSpec>::empty());
    while bi < blocks.len()
        invariant
            bi <= blocks@.len() < 0x7fff_ffff,
            gb == blocks@,
            end_all == blocks@.len(),
            0 <= question_seq <= bi,
            0 <= hearing_seq <= bi,
            0 <= interpellation_seq <= bi,
            open_question matches Some(q) ==> q < items@.len(),
            forall|k: int| 0 <= k < items@.len() ==> timeline_item_ok(gb, #[trigger] items@[k], session_id, meeting_kind, meeting_id),
            numbered_per_kind(items@, session_id, meeting_kind, meeting_id),
            question_seq == numbered_count(items@, ItemKind::Question),
            hearing_seq == numbered_count(items@, ItemKind::Hearing),
            interpellation_seq == numbered_count(items@, ItemKind::Interpellation),
            ({
                let st = timeline_upto(gb, bi as int, meeting_kind, session_id, meeting_id);
                &&& items_view(items@) == st.items
                &&& current_section@ == st.section
                &&& question_seq == st.qseq
                &&& hearing_seq == st.hseq
                &&& interpellation_seq == st.iseq
                &&& group_agenda_id@ == st.group
                &&& fr_phase == st.fr_phase
                &&& pending_view(pending) == st.pending
                &&& open_view(open_question) == st.open_q
            }),
        decreases blocks.len() - bi,
    {
        let block = &blocks[bi];
        let cur = bi;
        let ghost st = timeline_upto(gb, bi as int, meeting_kind, session_id, meeting_id);
        proof {
            assert(timeline_upto(gb, bi + 1, meeting_kind, session_id, meeting_id) == timeline_step(st, *block, end_all, meeting_kind, session_id, meeting_id));
        }
        bi = bi + 1;
        if block.tag == BlockTag::H1 {
            current_section = to_lower(block.text.as_str());
            group_agenda_id = String::new();
            fr_phase = false;
            continue;
        }
        if block.tag != BlockTag::H2 {
            continue;
        }
        assert(is_h2_index(gb, block.index)) by {
            assert(gb[cur as int] == *block);
        }
        let taken = pending;
        pending = None;
        let ghost st0 = TimelineState { pending: None, ..st };
        match taken {
            Some((start, _)) => {
                match open_question {
                    Some(idx) => {
                        if items[idx].start_block == start && items[idx].title_fr.as_str().is_empty()
                            && is_bilingual_fr_heading(block, &items[idx]) {
                            let nl = items[idx].title_nl.clone();
                            let end = items[idx].end_block;
                            retitle(&mut items, idx, nl, block.text.clone(), end, Some(block.index), Ghost(gb), session_id, meeting_kind, meeting_id);
                            continue;
                        }
                    },
                    None => {
                        if items.len() > 0 {
                            let last = items.len() - 1;
                            if items[last].start_block == start && items[last].title_fr.as_str().is_empty()
                                && is_bilingual_fr_heading(block, &items[last]) {
                                let nl = items[last].title_nl.clone();
                                let end = items[last].end_block;
                                retitle(&mut items, last, nl, block.text.clone(), end, Some(block.index), Ghost(gb), session_id, meeting_kind, meeting_id);
                                continue;
                            }
                        }
                    },
                }
            },
            None => {},
        }
        assert(timeline_step(st, *block, end_all, meeting_kind, session_id, meeting_id) == timeline_heading(st0, *block, end_all, meeting_kind, session_id, meeting_id));
        read_heading(
            &mut items,
            &current_section,
            &mut question_seq,
            &mut hearing_seq,
            &mut interpellation_seq,
            &mut group_agenda_id,
            &mut fr_phase,
            &mut pending,
            &mut open_question,
            block,
            end_all,
            Ghost(gb),
            session_id,
            meeting_kind,
            meeting_id,
            Ghost(cur as int),
        );
    }
    let ghost stf = timeline_upto(gb, gb.len() as int, meeting_kind, session_id, meeting_id);
    match pending {
        Some((start, nl_title)) => {
            let ghost iv = items_view(items@);
            let mut found: Option<usize> = None;
            let mut q: usize = 0;
            while q < items.len()
                invariant
                    q <= items@.len(),
                    iv == items_view(items@),
                    found matches Some(f) ==> f < q && iv[f as int].start_block == start && forall|k: int| 0 <= k < f ==> (#[trigger] iv[k]).start_block != start,
                    found is None ==> forall|k: int| 0 <= k < q ==> (#[trigger] iv[k]).start_block != start,
                decreases items.len() - q,
            {
                if found.is_none() && items[q].start_block == start {
                    found = Some(q);
                }
                q = q + 1;
            }
            proof {
                match found {
                    Some(f) => {
                        lemma_first_start_skip(iv, start, f as int);
                    },
                    None => {
                        lemma_first_start_skip(iv, start, iv.len() as int);
                    },
                }
            }
            match found {
                Some(f) => {
                    let fr = items[f].title_fr.clone();
                    let end = items[f].end_block;
                    retitle(&mut items, f, nl_title, fr, end, None, Ghost(gb), session_id, meeting_kind, meeting_id);
                },
                None => {},
            }
        },
        None => {},
    }
    items
}


/// The number of question items of an agenda timeline.
pub fn count_question_items(items: &[AgendaItem]) -> (r: usize)
    ensures
        r == items@.filter(|it: AgendaItem| it.item_kind == ItemKind::Question).len(),
{
    let ghost pred = |it: AgendaItem| it.item_kind == ItemKind::Question;
    let mut n: usize = 0;
    let mut i: usize = 0;
    while i < items.len()
        invariant
            i <= items@.len(),
            pred == (|it: AgendaItem| it.item_kind == ItemKind::Question),
            n == items@.take(i as int).filter(pred).len(),
            n <= i,
        decreases items.len() - i,
    {
        proof {
            reveal(Seq::filter);
            assert(items@.take(i + 1).drop_last() =~= items@.take(i as int));
            assert(items@.take(i + 1).last() == items@[i as int]);
        }
        match items[i].item_kind {
            ItemKind::Question => {
                n = n + 1;
            },
            _ => {},
        }
        i = i + 1;
    }
    assert(items@.take(items@.len() as int) =~= items@);
    n
}

} // verus!
