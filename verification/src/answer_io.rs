//! The staging row shared by written and oral-written minister replies.
use vstd::prelude::*;

verus! {

/// Staging row for written / oral-written minister replies (shared schema).
pub struct AnswerDraft {
    pub answer_id: String,
    pub question_id: String,
    pub route_id: String,
    pub session_id: u32,
    pub meeting_id: String,
    pub meeting_kind: String,
    pub agenda_id: String,
    pub answer_slot: u8,
    pub kind: String,
    pub text_nl: String,
    pub text_fr: String,
    /// The question text that precedes the reply, when the report carries it.
    pub question_body_nl: String,
    pub question_body_fr: String,
    pub status: String,
    pub answer_num: String,
    pub publication_ref: String,
    pub casa: String,
    pub source_kind: String,
    pub confidence: String,
    pub source_url: String,
    pub cache_path: String,
}

} // verus!
