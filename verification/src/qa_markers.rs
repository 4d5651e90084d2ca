//! Cross-check of the speaker markers of a report against the utterance rows drawn from it.
use vstd::prelude::*;
use crate::agenda_timeline::MeetingKind;
use crate::meeting_report::extract_utterances_from_blocks;
use crate::agenda_timeline::build_agenda_timeline;
use crate::report_blocks::{blocks_of_elements, lemma_parsed_block_indices, parse_report_blocks, HtmlElement, ReportBlock};
use crate::speaker_parse::{count_source_markers, marker_counts};
use crate::text::{decimal, owned, push_decimal, push_str};

verus! {

pub struct MarkerCheckResult {
    pub meeting_kind: &'static str,
    pub meeting_id: u32,
    pub turn_markers: usize,
    pub chair_markers: usize,
    pub utterance_rows: usize,
    pub ok: bool,
    pub detail: String,
}

/// Turns and chair turns together are at most the blocks.
pub proof fn lemma_marker_counts_bound(blocks: Seq<ReportBlock>)
    ensures
        marker_counts(blocks).0 + marker_counts(blocks).1 <= blocks.len(),
    decreases blocks.len(),
{
    if blocks.len() > 0 {
        lemma_marker_counts_bound(blocks.drop_last());
    }
}

/// Whether the utterance rows fit the markers: none without markers; otherwise at least
/// one, at most one per marker, and at least one per two numbered turns (bilingual
/// duplicates and merged chair lines account for fewer rows than markers).
pub open spec fn markers_consistent(turns: nat, chairs: nat, rows: nat) -> bool {
    if turns + chairs == 0 {
        rows == 0
    } else {
        rows > 0 && rows <= turns + chairs && rows * 2 >= turns
    }
}

/// `markers turn={turns} chair={chairs} total={total}; utterances={rows}`.
pub open spec fn marker_detail(turns: nat, chairs: nat, rows: nat) -> Seq<char> {
    "markers turn="@ + decimal(turns) + " chair="@ + decimal(chairs) + " total="@ + decimal(turns + chairs)
        + "; utterances="@ + decimal(rows)
}

/// Counts the speaker markers of a report page and the utterance rows drawn from it, and
/// judges whether they fit.
pub fn check_markers_vs_utterances(
    elements: &[HtmlElement],
    meeting_kind: MeetingKind,
    session_id: u32,
    meeting_id: u32,
    cache_label: &str,
) -> (r: MarkerCheckResult)
    requires
        elements@.len() < 0x7fff_ffff,
    ensures
        r.meeting_kind@ == meeting_kind.name(),
        r.meeting_id == meeting_id,
        exists|blocks: Seq<ReportBlock>| #[trigger] blocks_of_elements(blocks, elements@)
            && (r.turn_markers as nat, r.chair_markers as nat) == marker_counts(blocks),
        r.ok == markers_consistent(r.turn_markers as nat, r.chair_markers as nat, r.utterance_rows as nat),
        r.detail@ == marker_detail(r.turn_markers as nat, r.chair_markers as nat, r.utterance_rows as nat),
{
    let blocks = parse_report_blocks(elements);
    proof {
        lemma_parsed_block_indices(blocks@, elements@);
        lemma_marker_counts_bound(blocks@);
    }
    let (turn_markers, chair_markers) = count_source_markers(blocks.as_slice());
    let marker_total = turn_markers + chair_markers;
    assert(blocks_of_elements(blocks@, elements@));
    let agenda = build_agenda_timeline(blocks.as_slice(), meeting_kind, session_id, meeting_id);
    let utterances = extract_utterances_from_blocks(blocks.as_slice(), agenda.as_slice(), meeting_kind, session_id,
        meeting_id, "fixture", cache_label);
    let utterance_rows = utterances.len();
    let ok = if marker_total == 0 {
        utterance_rows == 0
    } else {
        utterance_rows > 0 && utterance_rows <= marker_total && utterance_rows >= turn_markers / 2 + turn_markers % 2
    };
    let mut detail = owned("markers turn=");
    push_decimal(&mut detail, turn_markers as u64);
    push_str(&mut detail, " chair=");
    push_decimal(&mut detail, chair_markers as u64);
    push_str(&mut detail, " total=");
    push_decimal(&mut detail, marker_total as u64);
    push_str(&mut detail, "; utterances=");
    push_decimal(&mut detail, utterance_rows as u64);
    MarkerCheckResult {
        meeting_kind: meeting_kind.as_str(),
        meeting_id,
        turn_markers,
        chair_markers,
        utterance_rows,
        ok,
        detail,
    }
}

} // verus!
