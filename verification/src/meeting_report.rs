//! Utterance rows of a meeting report.
use vstd::prelude::*;
use crate::agenda_timeline::{build_agenda_timeline, items_view, numbered_per_kind, timeline_item_ok, timeline_spec, AgendaItem, MeetingKind};
use crate::report_blocks::{block_from_element, element_kept, lemma_parsed_block_indices, parse_report_blocks, HtmlElement, ReportBlock};
use crate::utterance_segment::{deduped, segment_turns, segment_utterances, turn_key, utterance_ok, utterances_of, UtteranceDraft};

verus! {

/// The utterances of a report whose blocks and agenda timeline are given: the speaking
/// turns that `segment_utterances` finds.
pub fn extract_utterances_from_blocks(
    blocks: &[ReportBlock],
    agenda: &[AgendaItem],
    meeting_kind: MeetingKind,
    session_id: u32,
    meeting_id: u32,
    source_url: &str,
    cache_path: &str,
) -> (r: Vec<UtteranceDraft>)
    requires
        blocks@.len() < u32::MAX,
    ensures
        forall|k: int| 0 <= k < r@.len() ==> utterance_ok(#[trigger] r@[k], meeting_kind, session_id, meeting_id, source_url@, cache_path@),
        forall|a: int, b: int| 0 <= a < b < r@.len() ==> turn_key(r@[a]) != turn_key(r@[b]),
        exists|u: Seq<UtteranceDraft>|
            utterances_of(u, segment_turns(blocks@, agenda@, meeting_kind, session_id, meeting_id), meeting_kind, session_id, meeting_id, source_url@, cache_path@)
                && r@ == deduped(u),
{
    segment_utterances(blocks, agenda, meeting_kind, session_id, meeting_id, source_url, cache_path)
}

/// `blocks` are the report blocks of `elements`, `agenda` their agenda timeline, and `u`
/// the utterances of the speaking turns of those blocks in that agenda.
pub open spec fn document_utterances(
    elements: Seq<HtmlElement>,
    blocks: Seq<ReportBlock>,
    agenda: Seq<AgendaItem>,
    u: Seq<UtteranceDraft>,
    meeting_kind: MeetingKind,
    session_id: u32,
    meeting_id: u32,
    source_url: Seq<char>,
    cache_path: Seq<char>,
) -> bool {
    &&& blocks.len() == elements.filter(|e: HtmlElement| element_kept(e)).len()
    &&& forall|k: int| 0 <= k < blocks.len() ==> block_from_element(
        #[trigger] blocks[k],
        elements.filter(|e: HtmlElement| element_kept(e))[k],
        k as u32,
    )
    &&& forall|t: int| 0 <= t < agenda.len() ==> timeline_item_ok(blocks, #[trigger] agenda[t], session_id, meeting_kind, meeting_id)
    &&& numbered_per_kind(agenda, session_id, meeting_kind, meeting_id)
    &&& items_view(agenda) == timeline_spec(blocks, meeting_kind, session_id, meeting_id)
    &&& utterances_of(u, segment_turns(blocks, agenda, meeting_kind, session_id, meeting_id), meeting_kind, session_id, meeting_id, source_url, cache_path)
}

/// The utterances of a report page: its blocks, then its agenda timeline, then the speaking
/// turns of those blocks.
pub fn extract_utterances_from_document(
    elements: &[HtmlElement],
    meeting_kind: MeetingKind,
    session_id: u32,
    meeting_id: u32,
    source_url: &str,
    cache_path: &str,
) -> (r: Vec<UtteranceDraft>)
    requires
        elements@.len() < 0x7fff_ffff,
    ensures
        forall|k: int| 0 <= k < r@.len() ==> utterance_ok(#[trigger] r@[k], meeting_kind, session_id, meeting_id, source_url@, cache_path@),
        forall|a: int, b: int| 0 <= a < b < r@.len() ==> turn_key(r@[a]) != turn_key(r@[b]),
        exists|blocks: Seq<ReportBlock>, agenda: Seq<AgendaItem>, u: Seq<UtteranceDraft>|
            #[trigger] document_utterances(elements@, blocks, agenda, u, meeting_kind, session_id, meeting_id, source_url@, cache_path@)
                && r@ == deduped(u),
{
    let blocks = parse_report_blocks(elements);
    proof {
        lemma_parsed_block_indices(blocks@, elements@);
    }
    let agenda = build_agenda_timeline(blocks.as_slice(), meeting_kind, session_id, meeting_id);
    let r = extract_utterances_from_blocks(blocks.as_slice(), agenda.as_slice(), meeting_kind, session_id, meeting_id, source_url, cache_path);
    proof {
        let u = choose|u: Seq<UtteranceDraft>|
            utterances_of(u, segment_turns(blocks@, agenda@, meeting_kind, session_id, meeting_id), meeting_kind, session_id, meeting_id, source_url@, cache_path@)
                && r@ == deduped(u);
        assert(document_utterances(elements@, blocks@, agenda@, u, meeting_kind, session_id, meeting_id, source_url@, cache_path@));
    }
    r
}

} // verus!
