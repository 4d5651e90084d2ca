//! Canonical vote decision/result staging types.
use vstd::prelude::*;
use crate::text::{decimal, push_char, push_decimal};

verus! {

pub struct VoteDecisionDraft {
    pub vote_id: String,
    pub result_id: String,
    pub session_id: u32,
    pub meeting_id: u32,
    pub date: String,
    pub seq: u32,
    pub title_nl: String,
    pub title_fr: String,
    pub method: String,
    pub status: String,
    pub outcome: String,
    pub dossier_id: String,
    pub document_id: String,
    pub motion_id: String,
    pub source_roll_call_number: String,
    pub reuses_result: bool,
    pub source_url: String,
    pub cache_path: String,
}

pub struct VoteResultDraft {
    pub result_id: String,
    pub session_id: u32,
    pub meeting_id: u32,
    pub seq: u32,
    pub method: String,
    pub named: bool,
    pub status: String,
    pub outcome: String,
    pub source_roll_call_number: String,
    pub source_url: String,
    pub cache_path: String,
}

pub struct VoteTallyDraft {
    pub result_id: String,
    pub tally_kind: String,
    pub option_key: String,
    pub label_nl: String,
    pub label_fr: String,
    pub dimension: String,
    pub count: u32,
    pub selected: bool,
}

pub struct VoteResultMemberDraft {
    pub result_id: String,
    pub position: String,
    pub seq: u32,
    pub raw_name: String,
}

pub struct VoteAssemblyOutput {
    pub decisions: Vec<VoteDecisionDraft>,
    pub results: Vec<VoteResultDraft>,
    pub tallies: Vec<VoteTallyDraft>,
    pub members: Vec<VoteResultMemberDraft>,
    pub span_evidence: Vec<SpanEvidence>,
    pub unresolved_events: Vec<UnresolvedVoteEventDraft>,
}

impl Default for VoteAssemblyOutput {
    fn default() -> (r: Self)
        ensures
            r.decisions@.len() == 0,
            r.results@.len() == 0,
            r.tallies@.len() == 0,
            r.members@.len() == 0,
            r.span_evidence@.len() == 0,
            r.unresolved_events@.len() == 0,
    {
        VoteAssemblyOutput {
            decisions: Vec::new(),
            results: Vec::new(),
            tallies: Vec::new(),
            members: Vec::new(),
            span_evidence: Vec::new(),
            unresolved_events: Vec::new(),
        }
    }
}

pub struct UnresolvedVoteEventDraft {
    pub session_id: u32,
    pub meeting_id: u32,
    pub event_kind: String,
    pub source_roll_call_number: String,
    pub block_start: u32,
    pub block_end: u32,
    pub reason: String,
    pub evidence_text: String,
    pub source_url: String,
    pub cache_path: String,
}

pub struct SpanEvidence {
    pub entity_type: String,
    pub entity_id: String,
    pub span_role: String,
    pub block_start: u32,
    pub block_end: u32,
    pub coverage_kind: String,
    pub field_names: String,
}

/// `{session}-{meeting}-v{seq}`.
pub open spec fn vote_id_of(session_id: u32, meeting_id: u32, seq: u32) -> Seq<char> {
    decimal(session_id as nat) + seq!['-'] + decimal(meeting_id as nat) + seq!['-', 'v'] + decimal(seq as nat)
}

/// `{session}-{meeting}-r{seq}`.
pub open spec fn result_id_of(session_id: u32, meeting_id: u32, seq: u32) -> Seq<char> {
    decimal(session_id as nat) + seq!['-'] + decimal(meeting_id as nat) + seq!['-', 'r'] + decimal(seq as nat)
}

pub fn composite_vote_id(session_id: u32, meeting_id: u32, seq: u32) -> (r: String)
    ensures
        r@ == vote_id_of(session_id, meeting_id, seq),
{
    let mut s = String::new();
    push_decimal(&mut s, session_id as u64);
    push_char(&mut s, '-');
    push_decimal(&mut s, meeting_id as u64);
    push_char(&mut s, '-');
    push_char(&mut s, 'v');
    push_decimal(&mut s, seq as u64);
    assert(s@ =~= vote_id_of(session_id, meeting_id, seq));
    s
}

pub fn composite_result_id(session_id: u32, meeting_id: u32, seq: u32) -> (r: String)
    ensures
        r@ == result_id_of(session_id, meeting_id, seq),
{
    let mut s = String::new();
    push_decimal(&mut s, session_id as u64);
    push_char(&mut s, '-');
    push_decimal(&mut s, meeting_id as u64);
    push_char(&mut s, '-');
    push_char(&mut s, 'r');
    push_decimal(&mut s, seq as u64);
    assert(s@ =~= result_id_of(session_id, meeting_id, seq));
    s
}

} // verus!
