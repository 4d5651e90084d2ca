//! Provenance spans of a plenary meeting report: which blocks each extracted entity
//! rests on.
use vstd::prelude::*;
use crate::agenda_timeline::{
    build_agenda_timeline, extract_agenda_number, is_h2_index, timeline_item_ok, AgendaItem, ItemKind, MeetingKind,
    AGENDA_NUMBER_PATTERN,
};
use crate::answer_io::AnswerDraft;
use crate::artifact_id::{artifact_id, artifact_id_of};
use crate::meeting_report::extract_utterances_from_blocks;
use crate::proceeding_entities::{extract_proceedings_from_agenda, hearing_ok, interpellation_item_id, proceeding_item};
use crate::report_blocks::{block_from_element, element_kept, lemma_parsed_block_indices, parse_report_blocks, HtmlElement};
use crate::report_blocks_io::{block_row_ok, materialize_report_blocks, ReportBlockRow};
use crate::source_spans::{validate_source_spans, validated_as};
use crate::utterance_segment::{turn_key, utterance_ok};
use crate::vote_assembly::{assemble_votes_from_blocks, assembled_votes, assembly_ok, assembly_view, titled};
use crate::vote_types::VoteAssemblyOutput;
use crate::written_oral_qa::{extract_written_oral_answers, timeline_ok, written_answers_ok};
use crate::pattern::capture;
use crate::vote_events::indices_below_max;
use crate::artifact_id::{BLOCK_PARSER_VERSION, MEETING_SCOPE_EXTRACTOR_VERSION, VOTE_EXTRACTOR_VERSION};
use crate::proceeding_entities::{HearingDraft, InterpellationDraft};
use crate::report_blocks::{BlockTag, ReportBlock};
use crate::source_spans::{span_id, span_id_spec, SourceSpanDraft};
use crate::text::{contains, decimal, lowercase, owned, push_char, push_decimal, str_contains, str_eq, to_lower, trim};
use crate::utils::{agenda_item_id, agenda_item_id_spec, composite_id, composite_id_spec};
use crate::utterance_segment::UtteranceDraft;
use crate::vote_types::SpanEvidence;

verus! {

/// What every span of one meeting report shares.
pub struct SpanContext {
    pub artifact: String,
    pub source_content_hash: String,
    pub session_id: u32,
    pub meeting_id: u32,
    pub source_url: String,
    pub cache_path: String,
}

/// A span as plain values: entity type, entity id, role, first block, end block (one past
/// the last), and the fields it supports (`None` for a scope span).
pub type SpanShape = (Seq<char>, Seq<char>, Seq<char>, u32, u32, Option<Seq<char>>);

/// What every span of one meeting report shares, as plain values: artifact id, source
/// content hash, session, meeting, source URL, cache path.
pub type SpanCtx = (Seq<char>, Seq<char>, u32, u32, Seq<char>, Seq<char>);

pub open spec fn ctx_view(c: SpanContext) -> SpanCtx {
    (c.artifact@, c.source_content_hash@, c.session_id, c.meeting_id, c.source_url@, c.cache_path@)
}

/// `d` is the span of shape `sh` that the meeting parse emits.
pub open spec fn span_ok_v(d: SourceSpanDraft, sh: SpanShape, v: SpanCtx) -> bool {
    &&& d.span_id@ == span_id_spec(v.0, sh.0, sh.1, sh.2, sh.3, sh.4)
    &&& d.artifact_id@ == v.0
    &&& d.source_content_hash@ == v.1
    &&& d.session_id == v.2
    &&& d.meeting_id == v.3
    &&& d.entity_type@ == sh.0
    &&& d.entity_id@ == sh.1
    &&& d.span_role@ == sh.2
    &&& d.block_start == sh.3
    &&& d.block_end == sh.4
    &&& match sh.5 {
        Some(fields) => d.coverage_kind@ == "extraction"@ && d.field_names@ == fields && d.confidence_milli == 1000,
        None => d.coverage_kind@ == "scope"@ && d.field_names@ == Seq::<char>::empty() && d.confidence_milli == 500,
    }
    &&& d.extractor@ == "meeting_parse"@
    &&& d.block_parser_version@ == BLOCK_PARSER_VERSION@
    &&& d.extractor_version@ == MEETING_SCOPE_EXTRACTOR_VERSION@
    &&& d.source_url@ == v.4
    &&& d.cache_path@ == v.5
    &&& d.validation_status@ == Seq::<char>::empty()
    &&& d.unresolved_reason@ == Seq::<char>::empty()
}

pub open spec fn span_ok(d: SourceSpanDraft, sh: SpanShape, c: SpanContext) -> bool {
    span_ok_v(d, sh, ctx_view(c))
}

/// The spans `ds` are, one for one, those of the shapes `shs`.
pub open spec fn spans_ok(ds: Seq<SourceSpanDraft>, shs: Seq<SpanShape>, c: SpanContext) -> bool {
    &&& ds.len() == shs.len()
    &&& forall|k: int| 0 <= k < ds.len() ==> span_ok(#[trigger] ds[k], shs[k], c)
}

pub proof fn lemma_spans_push(ds: Seq<SourceSpanDraft>, shs: Seq<SpanShape>, d: SourceSpanDraft, sh: SpanShape, c: SpanContext)
    requires
        spans_ok(ds, shs, c),
        span_ok(d, sh, c),
    ensures
        spans_ok(ds.push(d), shs.push(sh), c),
{
    assert forall|k: int| 0 <= k < ds.len() + 1 implies span_ok(#[trigger] ds.push(d)[k], shs.push(sh)[k], c) by {
        if k < ds.len() {
            assert(ds.push(d)[k] == ds[k]);
        }
    }
}

fn scope_span(c: &SpanContext, entity_type: &str, entity_id: &str, role: &str, start: u32, end: u32) -> (r: SourceSpanDraft)
    ensures
        span_ok(r, (entity_type@, entity_id@, role@, start, end, None), *c),
{
    SourceSpanDraft {
        span_id: span_id(c.artifact.as_str(), entity_type, entity_id, role, start, end),
        artifact_id: c.artifact.clone(),
        source_content_hash: c.source_content_hash.clone(),
        session_id: c.session_id,
        meeting_id: c.meeting_id,
        entity_type: owned(entity_type),
        entity_id: owned(entity_id),
        span_role: owned(role),
        block_start: start,
        block_end: end,
        coverage_kind: owned("scope"),
        field_names: String::new(),
        confidence_milli: 500,
        extractor: owned("meeting_parse"),
        block_parser_version: owned(BLOCK_PARSER_VERSION),
        extractor_version: owned(MEETING_SCOPE_EXTRACTOR_VERSION),
        source_url: c.source_url.clone(),
        cache_path: c.cache_path.clone(),
        validation_status: String::new(),
        unresolved_reason: String::new(),
    }
}

fn extraction_span(
    c: &SpanContext,
    entity_type: &str,
    entity_id: &str,
    role: &str,
    start: u32,
    end: u32,
    fields: &str,
) -> (r: SourceSpanDraft)
    ensures
        span_ok(r, (entity_type@, entity_id@, role@, start, end, Some(fields@)), *c),
{
    let mut span = scope_span(c, entity_type, entity_id, role, start, end);
    span.coverage_kind = owned("extraction");
    span.field_names = owned(fields);
    span.confidence_milli = 1000;
    span
}

/// The span of one piece of vote evidence, under `entity_id`.
pub open spec fn evidence_span_ok_v(d: SourceSpanDraft, ev: SpanEvidence, entity_id: Seq<char>, v: SpanCtx) -> bool {
    &&& d.span_id@ == span_id_spec(v.0, ev.entity_type@, entity_id, ev.span_role@, ev.block_start, ev.block_end)
    &&& d.artifact_id@ == v.0
    &&& d.source_content_hash@ == v.1
    &&& d.session_id == v.2
    &&& d.meeting_id == v.3
    &&& d.entity_type@ == ev.entity_type@
    &&& d.entity_id@ == entity_id
    &&& d.span_role@ == ev.span_role@
    &&& d.block_start == ev.block_start
    &&& d.block_end == ev.block_end
    &&& d.coverage_kind@ == ev.coverage_kind@
    &&& d.field_names@ == ev.field_names@
    &&& d.confidence_milli == 1000
    &&& d.extractor@ == "vote_assembly"@
    &&& d.block_parser_version@ == BLOCK_PARSER_VERSION@
    &&& d.extractor_version@ == VOTE_EXTRACTOR_VERSION@
    &&& d.source_url@ == v.4
    &&& d.cache_path@ == v.5
    &&& d.validation_status@ == Seq::<char>::empty()
    &&& d.unresolved_reason@ == Seq::<char>::empty()
}

pub open spec fn evidence_span_ok(d: SourceSpanDraft, ev: SpanEvidence, entity_id: Seq<char>, c: SpanContext) -> bool {
    evidence_span_ok_v(d, ev, entity_id, ctx_view(c))
}

fn span_from_evidence(c: &SpanContext, evidence: &SpanEvidence, entity_id: &str) -> (r: SourceSpanDraft)
    ensures
        evidence_span_ok(r, *evidence, entity_id@, *c),
{
    SourceSpanDraft {
        span_id: span_id(
            c.artifact.as_str(),
            evidence.entity_type.as_str(),
            entity_id,
            evidence.span_role.as_str(),
            evidence.block_start,
            evidence.block_end,
        ),
        artifact_id: c.artifact.clone(),
        source_content_hash: c.source_content_hash.clone(),
        session_id: c.session_id,
        meeting_id: c.meeting_id,
        entity_type: evidence.entity_type.clone(),
        entity_id: owned(entity_id),
        span_role: evidence.span_role.clone(),
        block_start: evidence.block_start,
        block_end: evidence.block_end,
        coverage_kind: evidence.coverage_kind.clone(),
        field_names: evidence.field_names.clone(),
        confidence_milli: 1000,
        extractor: owned("vote_assembly"),
        block_parser_version: owned(BLOCK_PARSER_VERSION),
        extractor_version: owned(VOTE_EXTRACTOR_VERSION),
        source_url: c.source_url.clone(),
        cache_path: c.cache_path.clone(),
        validation_status: String::new(),
        unresolved_reason: String::new(),
    }
}

/// One span per piece of vote evidence, in order, each under the evidence's own entity id.
pub fn assembly_spans(c: &SpanContext, evidence: &Vec<SpanEvidence>) -> (r: Vec<SourceSpanDraft>)
    ensures
        r@.len() == evidence@.len(),
        forall|k: int| 0 <= k < r@.len() ==> evidence_span_ok(#[trigger] r@[k], evidence@[k], evidence@[k].entity_id@, *c),
{
    let mut spans: Vec<SourceSpanDraft> = Vec::new();
    let mut i: usize = 0;
    while i < evidence.len()
        invariant
            i <= evidence@.len(),
            spans@.len() == i,
            forall|k: int| 0 <= k < i ==> evidence_span_ok(#[trigger] spans@[k], evidence@[k], evidence@[k].entity_id@, *c),
        decreases evidence.len() - i,
    {
        let ev = &evidence[i];
        spans.push(span_from_evidence(c, ev, ev.entity_id.as_str()));
        i = i + 1;
    }
    spans
}

/// The entity type under which an agenda item's spans are filed.
pub open spec fn entity_type_of(kind: ItemKind) -> Seq<char> {
    match kind {
        ItemKind::Question => "Question"@,
        ItemKind::Hearing => "Hearing"@,
        ItemKind::Interpellation => "Interpellation"@,
        ItemKind::Proposition => "Proposition"@,
        ItemKind::Notice => "Notice"@,
        _ => "AgendaItem"@,
    }
}

fn entity_type_name(kind: ItemKind) -> (r: &'static str)
    ensures
        r@ == entity_type_of(kind),
{
    match kind {
        ItemKind::Question => "Question",
        ItemKind::Hearing => "Hearing",
        ItemKind::Interpellation => "Interpellation",
        ItemKind::Proposition => "Proposition",
        ItemKind::Notice => "Notice",
        _ => "AgendaItem",
    }
}

/// A question heading names an addressee: the heading block (by position) or one of the
/// item's titles holds ` aan ` or ` à `.
pub open spec fn heading_has_respondent(item: AgendaItem, blocks: Seq<ReportBlock>, b: u32) -> bool {
    ||| (b < blocks.len() && (contains(blocks[b as int].text@, " aan "@) || contains(blocks[b as int].text@, " à "@)))
    ||| contains(item.title_nl@, " aan "@)
    ||| contains(item.title_fr@, " à "@)
}

fn question_heading_has_respondent(item: &AgendaItem, blocks: &[ReportBlock], block_index: u32) -> (r: bool)
    ensures
        r == heading_has_respondent(*item, blocks@, block_index),
{
    let at_block = if (block_index as usize) < blocks.len() {
        let t = blocks[block_index as usize].text.as_str();
        str_contains(t, " aan ") || str_contains(t, " à ")
    } else {
        false
    };
    at_block || str_contains(item.title_nl.as_str(), " aan ") || str_contains(item.title_fr.as_str(), " à ")
}

pub open spec fn title_fields() -> Seq<char> {
    "title_nl,title_fr,agenda_id,internal_ids,dossier_id,document_id"@
}

/// The title spans of an item: one per title block, and for a question whose heading
/// names an addressee, a participants span on the same block.
pub open spec fn title_shapes(tbs: Seq<u32>, item: AgendaItem, blocks: Seq<ReportBlock>, et: Seq<char>, id: Seq<char>) -> Seq<SpanShape>
    decreases tbs.len(),
{
    if tbs.len() == 0 {
        Seq::empty()
    } else {
        let b = tbs.last();
        let prev = title_shapes(tbs.drop_last(), item, blocks, et, id).push((et, id, "entity_title"@, b, (b + 1) as u32, Some(title_fields())));
        if item.item_kind == ItemKind::Question && heading_has_respondent(item, blocks, b) {
            prev.push(("Question"@, id, "question_participants"@, b, (b + 1) as u32, Some("questioners,respondents"@)))
        } else {
            prev
        }
    }
}

/// The id under which an agenda item's spans are filed: its own id, else one made from
/// its first block.
pub open spec fn item_entity_id(item: AgendaItem, session_id: u32, meeting_id: u32) -> Seq<char> {
    if item.item_id@.len() == 0 {
        agenda_item_id_spec(session_id, "plenary"@, meeting_id, item.start_block)
    } else {
        item.item_id@
    }
}

/// The spans of one agenda item: none for propositions and notices; else its scope and its
/// title spans.
pub open spec fn agenda_item_shapes(item: AgendaItem, blocks: Seq<ReportBlock>, session_id: u32, meeting_id: u32) -> Seq<SpanShape> {
    if item.item_kind == ItemKind::Proposition || item.item_kind == ItemKind::Notice {
        Seq::empty()
    } else {
        let et = entity_type_of(item.item_kind);
        let id = item_entity_id(item, session_id, meeting_id);
        seq![(et, id, "agenda_item_scope"@, item.start_block, item.end_block, None)]
            + title_shapes(item.title_blocks@, item, blocks, et, id)
    }
}

pub open spec fn agenda_shapes(agenda: Seq<AgendaItem>, blocks: Seq<ReportBlock>, session_id: u32, meeting_id: u32) -> Seq<SpanShape>
    decreases agenda.len(),
{
    if agenda.len() == 0 {
        Seq::empty()
    } else {
        agenda_shapes(agenda.drop_last(), blocks, session_id, meeting_id) + agenda_item_shapes(agenda.last(), blocks, session_id, meeting_id)
    }
}

/// Every title block of every item leaves room for a one-block span.
pub open spec fn title_blocks_below_max(agenda: Seq<AgendaItem>) -> bool {
    forall|i: int, j: int| 0 <= i < agenda.len() && 0 <= j < agenda[i].title_blocks@.len() ==> #[trigger] agenda[i].title_blocks@[j] < u32::MAX
}

fn push_agenda_item_spans(
    spans: &mut Vec<SourceSpanDraft>,
    c: &SpanContext,
    item: &AgendaItem,
    blocks: &[ReportBlock],
    Ghost(shs): Ghost<Seq<SpanShape>>,
)
    requires
        spans_ok(old(spans)@, shs, *c),
        forall|j: int| 0 <= j < item.title_blocks@.len() ==> #[trigger] item.title_blocks@[j] < u32::MAX,
    ensures
        spans_ok(final(spans)@, shs + agenda_item_shapes(*item, blocks@, c.session_id, c.meeting_id), *c),
{
    if item.item_kind == ItemKind::Proposition || item.item_kind == ItemKind::Notice {
        assert(shs + agenda_item_shapes(*item, blocks@, c.session_id, c.meeting_id) =~= shs);
        return;
    }
    let entity_type = entity_type_name(item.item_kind);
    let entity_id = if item.item_id.as_str().is_empty() {
        agenda_item_id(c.session_id, "plenary", c.meeting_id, item.start_block)
    } else {
        item.item_id.clone()
    };
    assert(entity_id@ == item_entity_id(*item, c.session_id, c.meeting_id));
    let ghost et = entity_type@;
    let ghost id = entity_id@;
    let ghost s0 = (et, id, "agenda_item_scope"@, item.start_block, item.end_block, None::<Seq<char>>);
    let d0 = scope_span(c, entity_type, entity_id.as_str(), "agenda_item_scope", item.start_block, item.end_block);
    proof {
        lemma_spans_push(spans@, shs, d0, s0, *c);
    }
    spans.push(d0);
    let ghost base = shs.push(s0);
    let mut j: usize = 0;
    while j < item.title_blocks.len()
        invariant
            j <= item.title_blocks@.len(),
            forall|t: int| 0 <= t < item.title_blocks@.len() ==> #[trigger] item.title_blocks@[t] < u32::MAX,
            spans_ok(spans@, base + title_shapes(item.title_blocks@.take(j as int), *item, blocks@, et, id), *c),
            et == entity_type@,
            id == entity_id@,
        decreases item.title_blocks.len() - j,
    {
        let b = item.title_blocks[j];
        proof {
            assert(item.title_blocks@.take(j + 1).drop_last() =~= item.title_blocks@.take(j as int));
            assert(item.title_blocks@.take(j + 1).last() == b);
        }
        let ghost before = base + title_shapes(item.title_blocks@.take(j as int), *item, blocks@, et, id);
        let d = extraction_span(c, entity_type, entity_id.as_str(), "entity_title", b, b + 1,
            "title_nl,title_fr,agenda_id,internal_ids,dossier_id,document_id");
        let ghost sh = (et, id, "entity_title"@, b, (b + 1) as u32, Some(title_fields()));
        proof {
            lemma_spans_push(spans@, before, d, sh, *c);
        }
        spans.push(d);
        if item.item_kind == ItemKind::Question && question_heading_has_respondent(item, blocks, b) {
            let d2 = extraction_span(c, "Question", entity_id.as_str(), "question_participants", b, b + 1, "questioners,respondents");
            let ghost sh2 = ("Question"@, id, "question_participants"@, b, (b + 1) as u32, Some("questioners,respondents"@));
            proof {
                lemma_spans_push(spans@, before.push(sh), d2, sh2, *c);
                assert(before.push(sh).push(sh2) =~= base + title_shapes(item.title_blocks@.take(j + 1), *item, blocks@, et, id));
            }
            spans.push(d2);
        } else {
            assert(before.push(sh) =~= base + title_shapes(item.title_blocks@.take(j + 1), *item, blocks@, et, id));
        }
        j = j + 1;
    }
    assert(item.title_blocks@.take(item.title_blocks@.len() as int) =~= item.title_blocks@);
    assert(base + title_shapes(item.title_blocks@, *item, blocks@, et, id)
        =~= shs + agenda_item_shapes(*item, blocks@, c.session_id, c.meeting_id));
}

/// The first item of the agenda with id `id`.
pub open spec fn first_item_with_id(agenda: Seq<AgendaItem>, id: Seq<char>) -> Option<AgendaItem>
    decreases agenda.len(),
{
    if agenda.len() == 0 {
        None
    } else {
        match first_item_with_id(agenda.drop_last(), id) {
            Some(x) => Some(x),
            None => if agenda.last().item_id@ == id { Some(agenda.last()) } else { None },
        }
    }
}

fn find_item(agenda: &[AgendaItem], id: &str) -> (r: Option<usize>)
    ensures
        match r {
            Some(i) => i < agenda@.len() && first_item_with_id(agenda@, id@) == Some(agenda@[i as int]),
            None => first_item_with_id(agenda@, id@) is None,
        },
{
    let mut i: usize = 0;
    while i < agenda.len()
        invariant
            i <= agenda@.len(),
            first_item_with_id(agenda@.take(i as int), id@) is None,
        decreases agenda.len() - i,
    {
        proof {
            assert(agenda@.take(i + 1).drop_last() =~= agenda@.take(i as int));
            assert(agenda@.take(i + 1).last() == agenda@[i as int]);
        }
        if str_eq(agenda[i].item_id.as_str(), id) {
            proof {
                lemma_first_item_prefix(agenda@, id@, i + 1);
            }
            return Some(i);
        }
        i = i + 1;
    }
    assert(agenda@.take(agenda@.len() as int) =~= agenda@);
    None
}

/// Once a prefix has an item with the id, the whole agenda finds the same first item.
pub proof fn lemma_first_item_prefix(agenda: Seq<AgendaItem>, id: Seq<char>, n: int)
    requires
        0 <= n <= agenda.len(),
        first_item_with_id(agenda.take(n), id) is Some,
    ensures
        first_item_with_id(agenda, id) == first_item_with_id(agenda.take(n), id),
    decreases agenda.len() - n,
{
    if n < agenda.len() {
        assert(agenda.take(n + 1).drop_last() =~= agenda.take(n));
        lemma_first_item_prefix(agenda, id, n + 1);
    } else {
        assert(agenda.take(n) =~= agenda);
    }
}

/// One extraction span per title block of an item.
pub open spec fn field_shapes(tbs: Seq<u32>, et: Seq<char>, id: Seq<char>, role: Seq<char>, fields: Seq<char>) -> Seq<SpanShape>
    decreases tbs.len(),
{
    if tbs.len() == 0 {
        Seq::empty()
    } else {
        field_shapes(tbs.drop_last(), et, id, role, fields).push((et, id, role, tbs.last(), (tbs.last() + 1) as u32, Some(fields)))
    }
}

fn push_field_spans(
    spans: &mut Vec<SourceSpanDraft>,
    c: &SpanContext,
    tbs: &Vec<u32>,
    entity_type: &str,
    entity_id: &str,
    role: &str,
    fields: &str,
    Ghost(shs): Ghost<Seq<SpanShape>>,
)
    requires
        spans_ok(old(spans)@, shs, *c),
        forall|j: int| 0 <= j < tbs@.len() ==> #[trigger] tbs@[j] < u32::MAX,
    ensures
        spans_ok(final(spans)@, shs + field_shapes(tbs@, entity_type@, entity_id@, role@, fields@), *c),
{
    let mut j: usize = 0;
    while j < tbs.len()
        invariant
            j <= tbs@.len(),
            forall|t: int| 0 <= t < tbs@.len() ==> #[trigger] tbs@[t] < u32::MAX,
            spans_ok(spans@, shs + field_shapes(tbs@.take(j as int), entity_type@, entity_id@, role@, fields@), *c),
        decreases tbs.len() - j,
    {
        let b = tbs[j];
        proof {
            assert(tbs@.take(j + 1).drop_last() =~= tbs@.take(j as int));
            assert(tbs@.take(j + 1).last() == b);
        }
        let ghost before = shs + field_shapes(tbs@.take(j as int), entity_type@, entity_id@, role@, fields@);
        let d = extraction_span(c, entity_type, entity_id, role, b, b + 1, fields);
        proof {
            lemma_spans_push(spans@, before, d, (entity_type@, entity_id@, role@, b, (b + 1) as u32, Some(fields@)), *c);
            assert(before.push((entity_type@, entity_id@, role@, b, (b + 1) as u32, Some(fields@)))
                =~= shs + field_shapes(tbs@.take(j + 1), entity_type@, entity_id@, role@, fields@));
        }
        spans.push(d);
        j = j + 1;
    }
    assert(tbs@.take(tbs@.len() as int) =~= tbs@);
}

/// The spans of a hearing: none when no agenda item carries its id; else its participants
/// on the item's title blocks (when it has witnesses) and its body over the item's range.
pub open spec fn hearing_item_shapes(h: HearingDraft, agenda: Seq<AgendaItem>) -> Seq<SpanShape> {
    match first_item_with_id(agenda, h.hearing_id@) {
        None => Seq::empty(),
        Some(item) => (if h.witnesses@.len() > 0 {
            field_shapes(item.title_blocks@, "Hearing"@, h.hearing_id@, "hearing_participants"@, "witnesses"@)
        } else {
            Seq::empty()
        }).push(("Hearing"@, h.hearing_id@, "hearing_body"@, item.start_block, item.end_block, None)),
    }
}

pub open spec fn hearing_shapes(hs: Seq<HearingDraft>, agenda: Seq<AgendaItem>) -> Seq<SpanShape>
    decreases hs.len(),
{
    if hs.len() == 0 {
        Seq::empty()
    } else {
        hearing_shapes(hs.drop_last(), agenda) + hearing_item_shapes(hs.last(), agenda)
    }
}

/// The spans of an interpellation, as for a hearing; participants when it has
/// interpellators or respondents.
pub open spec fn interpellation_item_shapes(x: InterpellationDraft, agenda: Seq<AgendaItem>) -> Seq<SpanShape> {
    match first_item_with_id(agenda, x.interpellation_id@) {
        None => Seq::empty(),
        Some(item) => (if x.interpellators@.len() > 0 || x.respondents@.len() > 0 {
            field_shapes(item.title_blocks@, "Interpellation"@, x.interpellation_id@, "interpellation_participants"@, "interpellators,respondents"@)
        } else {
            Seq::empty()
        }).push(("Interpellation"@, x.interpellation_id@, "interpellation_body"@, item.start_block, item.end_block, None)),
    }
}

pub open spec fn interpellation_shapes(xs: Seq<InterpellationDraft>, agenda: Seq<AgendaItem>) -> Seq<SpanShape>
    decreases xs.len(),
{
    if xs.len() == 0 {
        Seq::empty()
    } else {
        interpellation_shapes(xs.drop_last(), agenda) + interpellation_item_shapes(xs.last(), agenda)
    }
}

/// One text span per utterance, from its first block through its last.
pub open spec fn utterance_shape(u: UtteranceDraft) -> SpanShape {
    ("Utterance"@, u.utterance_id@, "utterance_text"@, u.block_start,
        if u.block_end == u32::MAX { u32::MAX } else { (u.block_end + 1) as u32 },
        Some("text,raw_speaker,speaker_role,language"@))
}

pub open spec fn utterance_shapes(us: Seq<UtteranceDraft>) -> Seq<SpanShape> {
    us.map_values(|u: UtteranceDraft| utterance_shape(u))
}

fn push_hearing_spans(
    spans: &mut Vec<SourceSpanDraft>,
    c: &SpanContext,
    hearings: &[HearingDraft],
    agenda: &[AgendaItem],
    Ghost(shs): Ghost<Seq<SpanShape>>,
)
    requires
        spans_ok(old(spans)@, shs, *c),
        title_blocks_below_max(agenda@),
    ensures
        spans_ok(final(spans)@, shs + hearing_shapes(hearings@, agenda@), *c),
{
    let mut i: usize = 0;
    while i < hearings.len()
        invariant
            i <= hearings@.len(),
            title_blocks_below_max(agenda@),
            spans_ok(spans@, shs + hearing_shapes(hearings@.take(i as int), agenda@), *c),
        decreases hearings.len() - i,
    {
        let h = &hearings[i];
        proof {
            assert(hearings@.take(i + 1).drop_last() =~= hearings@.take(i as int));
            assert(hearings@.take(i + 1).last() == hearings@[i as int]);
        }
        let ghost before = shs + hearing_shapes(hearings@.take(i as int), agenda@);
        match find_item(agenda, h.hearing_id.as_str()) {
            Some(ix) => {
                let item = &agenda[ix];
                let ghost mid = if h.witnesses@.len() > 0 {
                    before + field_shapes(item.title_blocks@, "Hearing"@, h.hearing_id@, "hearing_participants"@, "witnesses"@)
                } else {
                    before
                };
                if !h.witnesses.as_str().is_empty() {
                    assert forall|j: int| 0 <= j < item.title_blocks@.len() implies #[trigger] item.title_blocks@[j] < u32::MAX by {
                        assert(agenda@[ix as int].title_blocks@[j] < u32::MAX);
                    }
                    push_field_spans(spans, c, &item.title_blocks, "Hearing", h.hearing_id.as_str(), "hearing_participants", "witnesses", Ghost(before));
                }
                let d = scope_span(c, "Hearing", h.hearing_id.as_str(), "hearing_body", item.start_block, item.end_block);
                proof {
                    lemma_spans_push(spans@, mid, d, ("Hearing"@, h.hearing_id@, "hearing_body"@, item.start_block, item.end_block, None), *c);
                    assert(mid.push(("Hearing"@, h.hearing_id@, "hearing_body"@, item.start_block, item.end_block, None))
                        =~= shs + hearing_shapes(hearings@.take(i + 1), agenda@));
                }
                spans.push(d);
            },
            None => {
                assert(before =~= shs + hearing_shapes(hearings@.take(i + 1), agenda@));
            },
        }
        i = i + 1;
    }
    assert(hearings@.take(hearings@.len() as int) =~= hearings@);
}

fn push_interpellation_spans(
    spans: &mut Vec<SourceSpanDraft>,
    c: &SpanContext,
    interpellations: &[InterpellationDraft],
    agenda: &[AgendaItem],
    Ghost(shs): Ghost<Seq<SpanShape>>,
)
    requires
        spans_ok(old(spans)@, shs, *c),
        title_blocks_below_max(agenda@),
    ensures
        spans_ok(final(spans)@, shs + interpellation_shapes(interpellations@, agenda@), *c),
{
    let mut i: usize = 0;
    while i < interpellations.len()
        invariant
            i <= interpellations@.len(),
            title_blocks_below_max(agenda@),
            spans_ok(spans@, shs + interpellation_shapes(interpellations@.take(i as int), agenda@), *c),
        decreases interpellations.len() - i,
    {
        let x = &interpellations[i];
        proof {
            assert(interpellations@.take(i + 1).drop_last() =~= interpellations@.take(i as int));
            assert(interpellations@.take(i + 1).last() == interpellations@[i as int]);
        }
        let ghost before = shs + interpellation_shapes(interpellations@.take(i as int), agenda@);
        match find_item(agenda, x.interpellation_id.as_str()) {
            Some(ix) => {
                let item = &agenda[ix];
                let ghost mid = if x.interpellators@.len() > 0 || x.respondents@.len() > 0 {
                    before + field_shapes(item.title_blocks@, "Interpellation"@, x.interpellation_id@, "interpellation_participants"@, "interpellators,respondents"@)
                } else {
                    before
                };
                if !x.interpellators.as_str().is_empty() || !x.respondents.as_str().is_empty() {
                    assert forall|j: int| 0 <= j < item.title_blocks@.len() implies #[trigger] item.title_blocks@[j] < u32::MAX by {
                        assert(agenda@[ix as int].title_blocks@[j] < u32::MAX);
                    }
                    push_field_spans(spans, c, &item.title_blocks, "Interpellation", x.interpellation_id.as_str(),
                        "interpellation_participants", "interpellators,respondents", Ghost(before));
                }
                let d = scope_span(c, "Interpellation", x.interpellation_id.as_str(), "interpellation_body", item.start_block, item.end_block);
                proof {
                    lemma_spans_push(spans@, mid, d, ("Interpellation"@, x.interpellation_id@, "interpellation_body"@, item.start_block, item.end_block, None), *c);
                    assert(mid.push(("Interpellation"@, x.interpellation_id@, "interpellation_body"@, item.start_block, item.end_block, None))
                        =~= shs + interpellation_shapes(interpellations@.take(i + 1), agenda@));
                }
                spans.push(d);
            },
            None => {
                assert(before =~= shs + interpellation_shapes(interpellations@.take(i + 1), agenda@));
            },
        }
        i = i + 1;
    }
    assert(interpellations@.take(interpellations@.len() as int) =~= interpellations@);
}

fn push_utterance_spans(
    spans: &mut Vec<SourceSpanDraft>,
    c: &SpanContext,
    utterances: &[UtteranceDraft],
    Ghost(shs): Ghost<Seq<SpanShape>>,
)
    requires
        spans_ok(old(spans)@, shs, *c),
    ensures
        spans_ok(final(spans)@, shs + utterance_shapes(utterances@), *c),
{
    let mut i: usize = 0;
    while i < utterances.len()
        invariant
            i <= utterances@.len(),
            spans_ok(spans@, shs + utterance_shapes(utterances@.take(i as int)), *c),
        decreases utterances.len() - i,
    {
        let u = &utterances[i];
        let end = if u.block_end == u32::MAX { u32::MAX } else { u.block_end + 1 };
        let d = extraction_span(c, "Utterance", u.utterance_id.as_str(), "utterance_text", u.block_start, end,
            "text,raw_speaker,speaker_role,language");
        proof {
            lemma_spans_push(spans@, shs + utterance_shapes(utterances@.take(i as int)), d, utterance_shape(utterances@[i as int]), *c);
            assert(utterances@.take(i + 1) =~= utterances@.take(i as int).push(utterances@[i as int]));
            assert((shs + utterance_shapes(utterances@.take(i as int))).push(utterance_shape(utterances@[i as int]))
                =~= shs + utterance_shapes(utterances@.take(i + 1)));
        }
        spans.push(d);
        i = i + 1;
    }
    assert(utterances@.take(utterances@.len() as int) =~= utterances@);
}

/// Scan of the report for one kind of heading entity: in the section, section seen,
/// heading groups (block indices, a new group at each new agenda number), current agenda
/// number, scan ended.
pub type ScanState = (bool, bool, Seq<Seq<u32>>, Option<Seq<char>>, bool);

/// One block of the scan. A level-one heading that names the section (`t1` or `t2`)
/// enters it; once the section was seen, any other level-one heading ends the scan unless
/// it holds the French word `alt`. In the section, a level-two heading with a new agenda
/// number opens a group, and any other one joins the last group.
pub open spec fn scan_step(st: ScanState, b: ReportBlock, t1: Seq<char>, t2: Seq<char>, alt: Seq<char>) -> ScanState {
    let (in_section, seen, groups, current, stopped) = st;
    if stopped {
        st
    } else if b.tag == BlockTag::H1 {
        let lower = lowercase(b.text@);
        if contains(lower, t1) || contains(lower, t2) {
            (true, true, groups, current, false)
        } else if seen && !contains(lower, alt) {
            (in_section, seen, groups, current, true)
        } else {
            st
        }
    } else if !in_section || b.tag != BlockTag::H2 {
        st
    } else {
        let number = capture(AGENDA_NUMBER_PATTERN@, trim(b.text@), 1);
        if number is Some && number != current {
            (in_section, seen, groups.push(seq![b.index]), number, false)
        } else if groups.len() > 0 {
            (in_section, seen, groups.update(groups.len() - 1, groups.last().push(b.index)), current, false)
        } else {
            st
        }
    }
}

pub open spec fn scan(blocks: Seq<ReportBlock>, t1: Seq<char>, t2: Seq<char>, alt: Seq<char>) -> ScanState
    decreases blocks.len(),
{
    if blocks.len() == 0 {
        (false, false, Seq::empty(), None, false)
    } else {
        scan_step(scan(blocks.drop_last(), t1, t2, alt), blocks.last(), t1, t2, alt)
    }
}

/// The Dutch/French heading pairs of a group: its first half against its second half.
pub open spec fn group_pairs(g: Seq<u32>) -> Seq<(u32, u32)> {
    Seq::new(g.len() / 2, |j: int| (g[j], g[g.len() / 2 + j]))
}

pub open spec fn all_pairs(groups: Seq<Seq<u32>>) -> Seq<(u32, u32)>
    decreases groups.len(),
{
    if groups.len() == 0 {
        Seq::empty()
    } else {
        all_pairs(groups.drop_last()) + group_pairs(groups.last())
    }
}

pub open spec fn min_u32(a: u32, b: u32) -> u32 {
    if a <= b { a } else { b }
}

pub open spec fn max_u32(a: u32, b: u32) -> u32 {
    if a >= b { a } else { b }
}

/// The spans of the `k`-th heading pair: a title span on each heading, then the body
/// from the first heading through the last, all under the `k`-th staging id.
pub open spec fn pair_shapes(p: (u32, u32), k: int, et: Seq<char>, body: Seq<char>, session_id: u32, meeting_id: u32) -> Seq<SpanShape> {
    let id = composite_id_spec(session_id, meeting_id, k as i32);
    seq![
        (et, id, "entity_title"@, p.0, (p.0 + 1) as u32, Some("title_nl,title_fr,dossier_id,document_id"@)),
        (et, id, "entity_title"@, p.1, (p.1 + 1) as u32, Some("title_nl,title_fr,dossier_id,document_id"@)),
        (et, id, body, min_u32(p.0, p.1), (max_u32(p.0, p.1) + 1) as u32, None),
    ]
}

pub open spec fn pairs_shapes(pairs: Seq<(u32, u32)>, et: Seq<char>, body: Seq<char>, session_id: u32, meeting_id: u32) -> Seq<SpanShape>
    decreases pairs.len(),
{
    if pairs.len() == 0 {
        Seq::empty()
    } else {
        pairs_shapes(pairs.drop_last(), et, body, session_id, meeting_id)
            + pair_shapes(pairs.last(), pairs.len() - 1, et, body, session_id, meeting_id)
    }
}

/// The spans of the propositions, then of the notices, named by the section headings.
pub open spec fn heading_entity_shapes(blocks: Seq<ReportBlock>, session_id: u32, meeting_id: u32) -> Seq<SpanShape> {
    pairs_shapes(all_pairs(scan(blocks, "voorstel"@, "wetsvoorstel"@, "proposition"@).2), "Proposition"@, "proposition_body"@, session_id, meeting_id)
        + pairs_shapes(all_pairs(scan(blocks, "mededeling"@, "mededelingen"@, "communication"@).2), "Notice"@, "notice_body"@, session_id, meeting_id)
}

pub open spec fn groups_view(groups: Seq<Vec<u32>>) -> Seq<Seq<u32>> {
    groups.map_values(|g: Vec<u32>| g@)
}

/// Every group member is the index of one of the blocks.
pub open spec fn members_are_indices(groups: Seq<Seq<u32>>, blocks: Seq<ReportBlock>) -> bool {
    forall|g: int, j: int| 0 <= g < groups.len() && 0 <= j < groups[g].len() ==>
        exists|i: int| 0 <= i < blocks.len() && #[trigger] groups[g][j] == blocks[i].index
}


/// The number of block indices held by the groups.
pub open spec fn total_len(groups: Seq<Seq<u32>>) -> nat
    decreases groups.len(),
{
    if groups.len() == 0 { 0 } else { total_len(groups.drop_last()) + groups.last().len() }
}

proof fn lemma_pairs_len(groups: Seq<Seq<u32>>)
    ensures
        all_pairs(groups).len() <= total_len(groups),
    decreases groups.len(),
{
    if groups.len() > 0 {
        lemma_pairs_len(groups.drop_last());
    }
}

proof fn lemma_all_pairs_prefix_len(groups: Seq<Seq<u32>>, n: int)
    requires
        0 <= n <= groups.len(),
    ensures
        all_pairs(groups.take(n)).len() <= all_pairs(groups).len(),
    decreases groups.len() - n,
{
    if n < groups.len() {
        lemma_all_pairs_prefix_len(groups, n + 1);
        assert(groups.take(n + 1).drop_last() =~= groups.take(n));
    } else {
        assert(groups.take(n) =~= groups);
    }
}

proof fn lemma_member_below_max(groups: Seq<Seq<u32>>, blocks: Seq<ReportBlock>, g: int, j: int)
    requires
        members_are_indices(groups, blocks),
        indices_below_max(blocks),
        0 <= g < groups.len(),
        0 <= j < groups[g].len(),
    ensures
        groups[g][j] < u32::MAX,
{
    let i = choose|i: int| 0 <= i < blocks.len() && #[trigger] groups[g][j] == blocks[i].index;
    assert(blocks[i].index < u32::MAX);
}

proof fn lemma_total_len_push(groups: Seq<Seq<u32>>, x: Seq<u32>)
    ensures
        total_len(groups.push(x)) == total_len(groups) + x.len(),
{
    assert(groups.push(x).drop_last() =~= groups);
}

proof fn lemma_total_len_extend_last(groups: Seq<Seq<u32>>, v: u32)
    requires
        groups.len() > 0,
    ensures
        total_len(groups.update(groups.len() - 1, groups.last().push(v))) == total_len(groups) + 1,
{
    assert(groups.update(groups.len() - 1, groups.last().push(v)).drop_last() =~= groups.drop_last());
}

fn scan_blocks(blocks: &[ReportBlock], t1: &str, t2: &str, alt: &str) -> (r: Vec<Vec<u32>>)
    ensures
        groups_view(r@) == scan(blocks@, t1@, t2@, alt@).2,
        members_are_indices(groups_view(r@), blocks@),
        total_len(groups_view(r@)) <= blocks@.len(),
{
    let mut in_section = false;
    let mut seen = false;
    let mut groups: Vec<Vec<u32>> = Vec::new();
    let mut current: Option<String> = None;
    let mut stopped = false;
    let mut i: usize = 0;
    while i < blocks.len()
        invariant
            i <= blocks@.len(),
            (in_section, seen, groups_view(groups@), current.deep_view(), stopped) == scan(blocks@.take(i as int), t1@, t2@, alt@),
            members_are_indices(groups_view(groups@), blocks@),
            total_len(groups_view(groups@)) <= i,
        decreases blocks.len() - i,
    {
        let b = &blocks[i];
        proof {
            assert(blocks@.take(i + 1).drop_last() =~= blocks@.take(i as int));
            assert(blocks@.take(i + 1).last() == blocks@[i as int]);
        }
        let ghost gv = groups_view(groups@);
        if stopped {
        } else if b.tag == BlockTag::H1 {
            let lower = to_lower(b.text.as_str());
            if str_contains(lower.as_str(), t1) || str_contains(lower.as_str(), t2) {
                in_section = true;
                seen = true;
            } else if seen && !str_contains(lower.as_str(), alt) {
                stopped = true;
            }
        } else if !in_section || b.tag != BlockTag::H2 {
        } else {
            let number = extract_agenda_number(b.text.as_str());
            let is_new = match (&number, &current) {
                (Some(n), Some(c)) => !str_eq(n.as_str(), c.as_str()),
                (Some(_), None) => true,
                (None, _) => false,
            };
            assert(is_new == (number.deep_view() is Some && number.deep_view() != current.deep_view()));
            if is_new {
                let mut g: Vec<u32> = Vec::new();
                g.push(b.index);
                groups.push(g);
                current = number;
                proof {
                    assert(groups_view(groups@) =~= gv.push(seq![b.index]));
                    lemma_total_len_push(gv, seq![b.index]);
                    assert forall|x: int, j: int| 0 <= x < groups_view(groups@).len() && 0 <= j < groups_view(groups@)[x].len()
                        implies exists|k: int| 0 <= k < blocks@.len() && #[trigger] groups_view(groups@)[x][j] == blocks@[k].index by {
                        if x == gv.len() {
                            assert(groups_view(groups@)[x][j] == blocks@[i as int].index);
                        } else {
                            assert(groups_view(groups@)[x] == gv[x]);
                        }
                    }
                }
            } else if groups.len() > 0 {
                let mut g = groups.pop().unwrap();
                g.push(b.index);
                groups.push(g);
                proof {
                    assert(groups_view(groups@) =~= gv.update(gv.len() - 1, gv.last().push(b.index)));
                    lemma_total_len_extend_last(gv, b.index);
                    assert forall|x: int, j: int| 0 <= x < groups_view(groups@).len() && 0 <= j < groups_view(groups@)[x].len()
                        implies exists|k: int| 0 <= k < blocks@.len() && #[trigger] groups_view(groups@)[x][j] == blocks@[k].index by {
                        if x == gv.len() - 1 {
                            if j == gv.last().len() {
                                assert(groups_view(groups@)[x][j] == blocks@[i as int].index);
                            } else {
                                assert(groups_view(groups@)[x][j] == gv[x][j]);
                            }
                        } else {
                            assert(groups_view(groups@)[x] == gv[x]);
                        }
                    }
                }
            }
        }
        i = i + 1;
    }
    assert(blocks@.take(blocks@.len() as int) =~= blocks@);
    groups
}

/// Group pairs, visited group by group: the first `j` pairs of group `g` come after all
/// pairs of the groups before it.
proof fn lemma_pairs_step(groups: Seq<Seq<u32>>, g: int, j: int)
    requires
        0 <= g < groups.len(),
        0 <= j < groups[g].len() / 2,
    ensures
        (all_pairs(groups.take(g)) + group_pairs(groups[g]).take(j)).push((groups[g][j], groups[g][groups[g].len() / 2 + j]))
            == all_pairs(groups.take(g)) + group_pairs(groups[g]).take(j + 1),
{
    assert(group_pairs(groups[g]).take(j + 1) =~= group_pairs(groups[g]).take(j).push((groups[g][j], groups[g][groups[g].len() / 2 + j])));
}

/// The heading spans of one entity kind.
fn push_heading_entity_spans(
    spans: &mut Vec<SourceSpanDraft>,
    c: &SpanContext,
    blocks: &[ReportBlock],
    entity_type: &str,
    t1: &str,
    t2: &str,
    alt: &str,
    body_role: &str,
    Ghost(shs): Ghost<Seq<SpanShape>>,
)
    requires
        spans_ok(old(spans)@, shs, *c),
        blocks@.len() < 0x7fff_ffff,
        indices_below_max(blocks@),
    ensures
        spans_ok(final(spans)@, shs + pairs_shapes(all_pairs(scan(blocks@, t1@, t2@, alt@).2), entity_type@, body_role@, c.session_id, c.meeting_id), *c),
{
    let groups = scan_blocks(blocks, t1, t2, alt);
    let ghost gs = groups_view(groups@);
    let ghost et = entity_type@;
    let ghost body = body_role@;
    let mut seq: i32 = 0;
    let mut g: usize = 0;
    proof {
        lemma_pairs_len(gs);
    }
    while g < groups.len()
        invariant
            g <= groups@.len(),
            gs == groups_view(groups@),
            gs == scan(blocks@, t1@, t2@, alt@).2,
            members_are_indices(gs, blocks@),
            indices_below_max(blocks@),
            all_pairs(gs).len() <= blocks@.len(),
            blocks@.len() < 0x7fff_ffff,
            seq as int == all_pairs(gs.take(g as int)).len(),
            spans_ok(spans@, shs + pairs_shapes(all_pairs(gs.take(g as int)), et, body, c.session_id, c.meeting_id), *c),
            et == entity_type@,
            body == body_role@,
        decreases groups.len() - g,
    {
        let group = &groups[g];
        let half = group.len() / 2;
        proof {
            assert(gs.take(g + 1).drop_last() =~= gs.take(g as int));
            assert(gs.take(g + 1).last() == gs[g as int]);
            assert(gs[g as int] == group@);
            lemma_all_pairs_prefix_len(gs, g + 1);
            assert(all_pairs(gs.take(g + 1)) == all_pairs(gs.take(g as int)) + group_pairs(gs[g as int]));
        }
        let mut j: usize = 0;
        while j < half
            invariant
                j <= half,
                half == group@.len() / 2,
                gs == groups_view(groups@),
                *group == groups@[g as int],
                g < groups@.len(),
                members_are_indices(gs, blocks@),
                indices_below_max(blocks@),
                all_pairs(gs.take(g + 1)).len() <= all_pairs(gs).len(),
                all_pairs(gs.take(g + 1)).len() == all_pairs(gs.take(g as int)).len() + half,
                all_pairs(gs).len() <= blocks@.len() < 0x7fff_ffff,
                gs.take(g + 1).drop_last() =~= gs.take(g as int),
                gs.take(g + 1).last() == gs[g as int],
                gs[g as int] == group@,
                seq as int == all_pairs(gs.take(g as int)).len() + j,
                spans_ok(spans@, shs + pairs_shapes(all_pairs(gs.take(g as int)) + group_pairs(group@).take(j as int), et, body, c.session_id, c.meeting_id), *c),
                et == entity_type@,
                body == body_role@,
            decreases half - j,
        {
            let nl_block = group[j];
            let fr_block = group[half + j];
            proof {
                lemma_member_below_max(gs, blocks@, g as int, j as int);
                lemma_member_below_max(gs, blocks@, g as int, (half + j) as int);
            }
            let entity_id = composite_id(c.session_id, c.meeting_id, seq);
            let ghost before = all_pairs(gs.take(g as int)) + group_pairs(group@).take(j as int);
            let ghost pre = shs + pairs_shapes(before, et, body, c.session_id, c.meeting_id);
            let ghost pshapes = pair_shapes((nl_block, fr_block), before.len() as int, et, body, c.session_id, c.meeting_id);
            let d1 = extraction_span(c, entity_type, entity_id.as_str(), "entity_title", nl_block, nl_block + 1,
                "title_nl,title_fr,dossier_id,document_id");
            let d2 = extraction_span(c, entity_type, entity_id.as_str(), "entity_title", fr_block, fr_block + 1,
                "title_nl,title_fr,dossier_id,document_id");
            let lo = if nl_block <= fr_block { nl_block } else { fr_block };
            let hi = if nl_block >= fr_block { nl_block } else { fr_block };
            let d3 = scope_span(c, entity_type, entity_id.as_str(), body_role, lo, hi + 1);
            proof {
                assert(before.len() == seq as int);
                lemma_spans_push(spans@, pre, d1, pshapes[0], *c);
                lemma_spans_push(spans@.push(d1), pre.push(pshapes[0]), d2, pshapes[1], *c);
                lemma_spans_push(spans@.push(d1).push(d2), pre.push(pshapes[0]).push(pshapes[1]), d3, pshapes[2], *c);
                lemma_pairs_step(gs, g as int, j as int);
                let after = before.push((nl_block, fr_block));
                assert(after.drop_last() =~= before);
                assert(pairs_shapes(after, et, body, c.session_id, c.meeting_id)
                    == pairs_shapes(before, et, body, c.session_id, c.meeting_id) + pshapes);
                assert(pre.push(pshapes[0]).push(pshapes[1]).push(pshapes[2]) =~= shs + pairs_shapes(after, et, body, c.session_id, c.meeting_id));
            }
            spans.push(d1);
            spans.push(d2);
            spans.push(d3);
            seq = seq + 1;
            j = j + 1;
        }
        proof {
            assert(group_pairs(group@).take(half as int) =~= group_pairs(group@));
            assert(all_pairs(gs.take(g + 1)) == all_pairs(gs.take(g as int)) + group_pairs(gs[g as int]));
        }
        g = g + 1;
    }
    assert(gs.take(gs.len() as int) =~= gs);
}

/// The spans of the heading entities of a plenary report (propositions, then notices).
fn plenary_heading_entity_spans(
    spans: &mut Vec<SourceSpanDraft>,
    c: &SpanContext,
    blocks: &[ReportBlock],
    Ghost(shs): Ghost<Seq<SpanShape>>,
)
    requires
        spans_ok(old(spans)@, shs, *c),
        blocks@.len() < 0x7fff_ffff,
        indices_below_max(blocks@),
    ensures
        spans_ok(final(spans)@, shs + heading_entity_shapes(blocks@, c.session_id, c.meeting_id), *c),
{
    let ghost props = pairs_shapes(all_pairs(scan(blocks@, "voorstel"@, "wetsvoorstel"@, "proposition"@).2), "Proposition"@, "proposition_body"@, c.session_id, c.meeting_id);
    push_heading_entity_spans(spans, c, blocks, "Proposition", "voorstel", "wetsvoorstel", "proposition", "proposition_body", Ghost(shs));
    push_heading_entity_spans(spans, c, blocks, "Notice", "mededeling", "mededelingen", "communication", "notice_body", Ghost(shs + props));
    assert(shs + props + pairs_shapes(all_pairs(scan(blocks@, "mededeling"@, "mededelingen"@, "communication"@).2), "Notice"@, "notice_body"@, c.session_id, c.meeting_id)
        =~= shs + heading_entity_shapes(blocks@, c.session_id, c.meeting_id));
}

/// `plenary_{session_id}_{meeting_id}`.
pub open spec fn meeting_entity_id(session_id: u32, meeting_id: u32) -> Seq<char> {
    "plenary_"@ + decimal(session_id as nat) + seq!['_'] + decimal(meeting_id as nat)
}

/// The spans of a plenary report's entities, in emission order: the meeting's scope, the
/// agenda items, the hearings, the interpellations, the utterances, and the propositions
/// and notices named by the section headings.
pub open spec fn semantic_shapes(
    blocks: Seq<ReportBlock>,
    agenda: Seq<AgendaItem>,
    utterances: Seq<UtteranceDraft>,
    hearings: Seq<HearingDraft>,
    interpellations: Seq<InterpellationDraft>,
    session_id: u32,
    meeting_id: u32,
) -> Seq<SpanShape> {
    seq![("Meeting"@, meeting_entity_id(session_id, meeting_id), "meeting_scope"@, 0u32, blocks.len() as u32, None)]
        + agenda_shapes(agenda, blocks, session_id, meeting_id)
        + hearing_shapes(hearings, agenda)
        + interpellation_shapes(interpellations, agenda)
        + utterance_shapes(utterances)
        + heading_entity_shapes(blocks, session_id, meeting_id)
}

fn push_agenda_spans(
    spans: &mut Vec<SourceSpanDraft>,
    c: &SpanContext,
    agenda: &[AgendaItem],
    blocks: &[ReportBlock],
    Ghost(shs): Ghost<Seq<SpanShape>>,
)
    requires
        spans_ok(old(spans)@, shs, *c),
        title_blocks_below_max(agenda@),
    ensures
        spans_ok(final(spans)@, shs + agenda_shapes(agenda@, blocks@, c.session_id, c.meeting_id), *c),
{
    let mut i: usize = 0;
    while i < agenda.len()
        invariant
            i <= agenda@.len(),
            title_blocks_below_max(agenda@),
            spans_ok(spans@, shs + agenda_shapes(agenda@.take(i as int), blocks@, c.session_id, c.meeting_id), *c),
        decreases agenda.len() - i,
    {
        proof {
            assert(agenda@.take(i + 1).drop_last() =~= agenda@.take(i as int));
            assert(agenda@.take(i + 1).last() == agenda@[i as int]);
        }
        let item = &agenda[i];
        assert forall|j: int| 0 <= j < item.title_blocks@.len() implies #[trigger] item.title_blocks@[j] < u32::MAX by {
            assert(agenda@[i as int].title_blocks@[j] < u32::MAX);
        }
        push_agenda_item_spans(spans, c, item, blocks, Ghost(shs + agenda_shapes(agenda@.take(i as int), blocks@, c.session_id, c.meeting_id)));
        assert(shs + agenda_shapes(agenda@.take(i as int), blocks@, c.session_id, c.meeting_id)
            + agenda_item_shapes(*item, blocks@, c.session_id, c.meeting_id)
            =~= shs + agenda_shapes(agenda@.take(i + 1), blocks@, c.session_id, c.meeting_id));
        i = i + 1;
    }
    assert(agenda@.take(agenda@.len() as int) =~= agenda@);
}

/// The provenance spans of a plenary report's entities, before validation.
pub fn semantic_spans(
    c: &SpanContext,
    blocks: &[ReportBlock],
    agenda: &[AgendaItem],
    utterances: &[UtteranceDraft],
    hearings: &[HearingDraft],
    interpellations: &[InterpellationDraft],
) -> (r: Vec<SourceSpanDraft>)
    requires
        blocks@.len() < 0x7fff_ffff,
        indices_below_max(blocks@),
        title_blocks_below_max(agenda@),
    ensures
        spans_ok(r@, semantic_shapes(blocks@, agenda@, utterances@, hearings@, interpellations@, c.session_id, c.meeting_id), *c),
{
    let mut meeting = owned("plenary_");
    push_decimal(&mut meeting, c.session_id as u64);
    push_char(&mut meeting, '_');
    push_decimal(&mut meeting, c.meeting_id as u64);
    assert(meeting@ =~= meeting_entity_id(c.session_id, c.meeting_id));
    let mut spans: Vec<SourceSpanDraft> = Vec::new();
    let s0 = scope_span(c, "Meeting", meeting.as_str(), "meeting_scope", 0, blocks.len() as u32);
    let ghost sh0 = seq![("Meeting"@, meeting_entity_id(c.session_id, c.meeting_id), "meeting_scope"@, 0u32, blocks@.len() as u32, None::<Seq<char>>)];
    proof {
        lemma_spans_push(spans@, Seq::empty(), s0, sh0[0], *c);
        assert(Seq::<SpanShape>::empty().push(sh0[0]) =~= sh0);
    }
    spans.push(s0);
    let ghost p1 = sh0 + agenda_shapes(agenda@, blocks@, c.session_id, c.meeting_id);
    push_agenda_spans(&mut spans, c, agenda, blocks, Ghost(sh0));
    let ghost p2 = p1 + hearing_shapes(hearings@, agenda@);
    push_hearing_spans(&mut spans, c, hearings, agenda, Ghost(p1));
    let ghost p3 = p2 + interpellation_shapes(interpellations@, agenda@);
    push_interpellation_spans(&mut spans, c, interpellations, agenda, Ghost(p2));
    let ghost p4 = p3 + utterance_shapes(utterances@);
    push_utterance_spans(&mut spans, c, utterances, Ghost(p3));
    plenary_heading_entity_spans(&mut spans, c, blocks, Ghost(p4));
    assert(p4 + heading_entity_shapes(blocks@, c.session_id, c.meeting_id)
        =~= semantic_shapes(blocks@, agenda@, utterances@, hearings@, interpellations@, c.session_id, c.meeting_id));
    spans
}

pub struct MeetingParseOutput {
    pub blocks: Vec<ReportBlock>,
    pub agenda: Vec<AgendaItem>,
    pub utterances: Vec<UtteranceDraft>,
    pub hearings: Vec<HearingDraft>,
    pub interpellations: Vec<InterpellationDraft>,
    pub answers: Vec<AnswerDraft>,
    pub votes: VoteAssemblyOutput,
    pub report_block_rows: Vec<ReportBlockRow>,
    /// Contains both valid and unresolved rows; inspect `validation_status`.
    pub source_spans: Vec<SourceSpanDraft>,
}

/// The `k`-th validated span of a report: the span of the `k`-th piece of vote evidence,
/// or past those, of the matching semantic shape, marked as `validate_source_spans` marks it.
pub open spec fn validated_span_ok(
    b: SourceSpanDraft,
    k: int,
    evidence: Seq<SpanEvidence>,
    shapes: Seq<SpanShape>,
    v: SpanCtx,
    block_count: u32,
) -> bool {
    exists|d: SourceSpanDraft|
        (if k < evidence.len() {
            evidence_span_ok_v(d, evidence[k], evidence[k].entity_id@, v)
        } else {
            span_ok_v(d, shapes[k - evidence.len()], v)
        }) && #[trigger] validated_as(d, b, v.0, v.1, BLOCK_PARSER_VERSION@, block_count)
}

/// Titles of timeline items rest on blocks of the report, whose indices leave room for
/// one-block spans.
proof fn lemma_timeline_title_blocks(blocks: Seq<ReportBlock>, agenda: Seq<AgendaItem>, session_id: u32, meeting_id: u32)
    requires
        timeline_ok(blocks, agenda, session_id, MeetingKind::Plenary, meeting_id),
        indices_below_max(blocks),
    ensures
        title_blocks_below_max(agenda),
{
    assert forall|i: int, j: int| 0 <= i < agenda.len() && 0 <= j < agenda[i].title_blocks@.len()
        implies #[trigger] agenda[i].title_blocks@[j] < u32::MAX by {
        assert(timeline_item_ok(blocks, agenda[i], session_id, MeetingKind::Plenary, meeting_id));
        assert(is_h2_index(blocks, agenda[i].title_blocks@[j]));
        let x = choose|x: int| 0 <= x < blocks.len() && (#[trigger] blocks[x]).tag == BlockTag::H2 && blocks[x].index == agenda[i].title_blocks@[j];
        assert(blocks[x].index < u32::MAX);
    }
}

/// The validated spans of a report: those of the vote evidence, then the semantic ones.
fn report_spans(
    c: &SpanContext,
    blocks: &[ReportBlock],
    agenda: &[AgendaItem],
    utterances: &[UtteranceDraft],
    hearings: &[HearingDraft],
    interpellations: &[InterpellationDraft],
    evidence: &Vec<SpanEvidence>,
) -> (r: Vec<SourceSpanDraft>)
    requires
        blocks@.len() < 0x7fff_ffff,
        indices_below_max(blocks@),
        title_blocks_below_max(agenda@),
    ensures
        r@.len() == evidence@.len() + semantic_shapes(blocks@, agenda@, utterances@, hearings@, interpellations@, c.session_id, c.meeting_id).len(),
        forall|k: int| 0 <= k < r@.len() ==> validated_span_ok(
            #[trigger] r@[k],
            k,
            evidence@,
            semantic_shapes(blocks@, agenda@, utterances@, hearings@, interpellations@, c.session_id, c.meeting_id),
            ctx_view(*c),
            blocks@.len() as u32,
        ),
{
    let mut candidates = assembly_spans(c, evidence);
    let semantic = semantic_spans(c, blocks, agenda, utterances, hearings, interpellations);
    let ghost ev_spans = candidates@;
    let mut i: usize = 0;
    while i < semantic.len()
        invariant
            i <= semantic@.len(),
            candidates@ == ev_spans + semantic@.take(i as int),
        decreases semantic.len() - i,
    {
        candidates.push(semantic[i].clone());
        assert(semantic@.take(i + 1) =~= semantic@.take(i as int).push(semantic@[i as int]));
        assert(candidates@ =~= ev_spans + semantic@.take(i + 1));
        i = i + 1;
    }
    assert(semantic@.take(semantic@.len() as int) =~= semantic@);
    let ghost cands = candidates@;
    let validated = validate_source_spans(candidates, c.artifact.as_str(), c.source_content_hash.as_str(), BLOCK_PARSER_VERSION, blocks.len() as u32);
    let ghost shapes = semantic_shapes(blocks@, agenda@, utterances@, hearings@, interpellations@, c.session_id, c.meeting_id);
    proof {
        assert forall|k: int| 0 <= k < validated.rows@.len() implies validated_span_ok(
            #[trigger] validated.rows@[k],
            k,
            evidence@,
            shapes,
            ctx_view(*c),
            blocks@.len() as u32,
        ) by {
            let d = cands[k];
            assert(validated_as(d, validated.rows@[k], c.artifact@, c.source_content_hash@, BLOCK_PARSER_VERSION@, blocks@.len() as u32));
            if k < evidence@.len() {
                assert(d == ev_spans[k]);
                assert(evidence_span_ok(ev_spans[k], evidence@[k], evidence@[k].entity_id@, *c));
            } else {
                assert(d == semantic@[k - ev_spans.len()]);
                assert(span_ok(semantic@[k - ev_spans.len()], shapes[k - ev_spans.len()], *c));
            }
        }
    }
    validated.rows
}

/// Parses the elements of a plenary report into its blocks, agenda, utterances,
/// proceedings, written replies, votes, block rows and validated provenance spans.
#[verifier::spinoff_prover]
#[verifier::rlimit(60)]
pub fn parse_plenary_meeting_report(
    elements: &[HtmlElement],
    session_id: u32,
    meeting_id: u32,
    date: &str,
    source_url: &str,
    cache_path: &str,
    source_content_hash: &str,
) -> (r: MeetingParseOutput)
    requires
        elements@.len() < 0x7fff_ffff,
    ensures
        r.blocks@.len() == elements@.filter(|e: HtmlElement| element_kept(e)).len(),
        forall|k: int| 0 <= k < r.blocks@.len() ==> block_from_element(
            #[trigger] r.blocks@[k],
            elements@.filter(|e: HtmlElement| element_kept(e))[k],
            k as u32,
        ),
        timeline_ok(r.blocks@, r.agenda@, session_id, MeetingKind::Plenary, meeting_id),
        crate::agenda_timeline::items_view(r.agenda@) == crate::agenda_timeline::timeline_spec(r.blocks@, MeetingKind::Plenary, session_id, meeting_id),
        exists|u: Seq<crate::utterance_segment::UtteranceDraft>|
            crate::utterance_segment::utterances_of(
                u,
                crate::utterance_segment::segment_turns(r.blocks@, r.agenda@, MeetingKind::Plenary, session_id, meeting_id),
                MeetingKind::Plenary,
                session_id,
                meeting_id,
                source_url@,
                cache_path@,
            ) && r.utterances@ == crate::utterance_segment::deduped(u),
        forall|k: int| 0 <= k < r.utterances@.len() ==> utterance_ok(#[trigger] r.utterances@[k], MeetingKind::Plenary, session_id, meeting_id, source_url@, cache_path@),
        forall|a: int, b: int| 0 <= a < b < r.utterances@.len() ==> turn_key(r.utterances@[a]) != turn_key(r.utterances@[b]),
        r.hearings@.len() == r.agenda@.filter(|it: AgendaItem| proceeding_item(it, ItemKind::Hearing)).len(),
        forall|k: int| 0 <= k < r.hearings@.len() ==> hearing_ok(
            #[trigger] r.hearings@[k],
            r.agenda@.filter(|it: AgendaItem| proceeding_item(it, ItemKind::Hearing))[k],
            MeetingKind::Plenary,
            session_id,
            meeting_id,
            source_url@,
            cache_path@,
        ),
        forall|k: int| 0 <= k < r.interpellations@.len() ==> interpellation_item_id(r.agenda@, (#[trigger] r.interpellations@[k]).interpellation_id@),
        written_answers_ok(r.answers@, r.blocks@, MeetingKind::Plenary, session_id, meeting_id, source_url@, cache_path@),
        assembly_ok(r.votes, session_id, meeting_id, date@, source_url@, cache_path@),
        forall|k: int| 0 <= k < r.votes.decisions@.len() ==> titled(#[trigger] r.votes.decisions@[k]),
        assembly_view(r.votes) == assembled_votes(r.blocks@, session_id, meeting_id, date@, source_url@, cache_path@),
        r.report_block_rows@.len() == r.blocks@.len(),
        forall|k: int| 0 <= k < r.report_block_rows@.len() ==> block_row_ok(
            #[trigger] r.report_block_rows@[k],
            r.blocks@[k],
            artifact_id_of(source_url@, cache_path@),
            source_content_hash@,
            source_url@,
            cache_path@,
        ),
        r.source_spans@.len() == r.votes.span_evidence@.len()
            + semantic_shapes(r.blocks@, r.agenda@, r.utterances@, r.hearings@, r.interpellations@, session_id, meeting_id).len(),
        forall|k: int| 0 <= k < r.source_spans@.len() ==> validated_span_ok(
            #[trigger] r.source_spans@[k],
            k,
            r.votes.span_evidence@,
            semantic_shapes(r.blocks@, r.agenda@, r.utterances@, r.hearings@, r.interpellations@, session_id, meeting_id),
            (artifact_id_of(source_url@, cache_path@), source_content_hash@, session_id, meeting_id, source_url@, cache_path@),
            r.blocks@.len() as u32,
        ),
{
    let blocks = parse_report_blocks(elements);
    proof {
        lemma_parsed_block_indices(blocks@, elements@);
    }
    let artifact = artifact_id(source_url, cache_path);
    let agenda = build_agenda_timeline(blocks.as_slice(), MeetingKind::Plenary, session_id, meeting_id);
    proof {
        assert(timeline_ok(blocks@, agenda@, session_id, MeetingKind::Plenary, meeting_id));
        lemma_timeline_title_blocks(blocks@, agenda@, session_id, meeting_id);
    }
    let utterances = extract_utterances_from_blocks(blocks.as_slice(), agenda.as_slice(), MeetingKind::Plenary, session_id, meeting_id, source_url, cache_path);
    let ghost gu = choose|u: Seq<crate::utterance_segment::UtteranceDraft>|
        crate::utterance_segment::utterances_of(
            u,
            crate::utterance_segment::segment_turns(blocks@, agenda@, MeetingKind::Plenary, session_id, meeting_id),
            MeetingKind::Plenary,
            session_id,
            meeting_id,
            source_url@,
            cache_path@,
        ) && utterances@ == crate::utterance_segment::deduped(u);
    let (hearings, interpellations) = extract_proceedings_from_agenda(agenda.as_slice(), MeetingKind::Plenary, session_id, meeting_id, source_url, cache_path);
    let answers = extract_written_oral_answers(blocks.as_slice(), MeetingKind::Plenary, session_id, meeting_id, source_url, cache_path);
    let votes = assemble_votes_from_blocks(blocks.as_slice(), session_id, meeting_id, date, source_url, cache_path);
    let report_block_rows = materialize_report_blocks(artifact.as_str(), source_content_hash, blocks.as_slice(), source_url, cache_path);
    let c = SpanContext {
        artifact: artifact.clone(),
        source_content_hash: owned(source_content_hash),
        session_id,
        meeting_id,
        source_url: owned(source_url),
        cache_path: owned(cache_path),
    };
    assert(ctx_view(c) == (artifact_id_of(source_url@, cache_path@), source_content_hash@, session_id, meeting_id, source_url@, cache_path@));
    let source_spans = report_spans(&c, blocks.as_slice(), agenda.as_slice(), utterances.as_slice(), hearings.as_slice(),
        interpellations.as_slice(), &votes.span_evidence);
    MeetingParseOutput {
        blocks,
        agenda,
        utterances,
        hearings,
        interpellations,
        answers,
        votes,
        report_block_rows,
        source_spans,
    }
}

} // verus!
