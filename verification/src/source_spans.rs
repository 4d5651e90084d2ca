//! Generic block provenance spans.
use vstd::prelude::*;
use crate::artifact_id::{artifact_id_of, BLOCK_PARSER_VERSION, VOTE_EXTRACTOR_VERSION};
use crate::text::{decimal, owned, push_char, push_decimal, push_str, str_eq, trim, trim_str};

verus! {

/// A block range of the report that an extracted entity rests on. Confidence is kept in
/// thousandths: `500` for a scope, `1000` for an extraction.
pub struct SourceSpanDraft {
    pub span_id: String,
    pub artifact_id: String,
    pub source_content_hash: String,
    pub session_id: u32,
    pub meeting_id: u32,
    pub entity_type: String,
    pub entity_id: String,
    pub span_role: String,
    pub block_start: u32,
    pub block_end: u32,
    pub coverage_kind: String,
    pub field_names: String,
    pub confidence_milli: u32,
    pub extractor: String,
    pub block_parser_version: String,
    pub extractor_version: String,
    pub source_url: String,
    pub cache_path: String,
    pub validation_status: String,
    pub unresolved_reason: String,
}

impl Clone for SourceSpanDraft {
    fn clone(&self) -> (r: Self)
        ensures
            r == *self,
    {
        SourceSpanDraft {
            span_id: self.span_id.clone(),
            artifact_id: self.artifact_id.clone(),
            source_content_hash: self.source_content_hash.clone(),
            session_id: self.session_id,
            meeting_id: self.meeting_id,
            entity_type: self.entity_type.clone(),
            entity_id: self.entity_id.clone(),
            span_role: self.span_role.clone(),
            block_start: self.block_start,
            block_end: self.block_end,
            coverage_kind: self.coverage_kind.clone(),
            field_names: self.field_names.clone(),
            confidence_milli: self.confidence_milli,
            extractor: self.extractor.clone(),
            block_parser_version: self.block_parser_version.clone(),
            extractor_version: self.extractor_version.clone(),
            source_url: self.source_url.clone(),
            cache_path: self.cache_path.clone(),
            validation_status: self.validation_status.clone(),
            unresolved_reason: self.unresolved_reason.clone(),
        }
    }
}

pub struct SpanValidationOutput {
    pub rows: Vec<SourceSpanDraft>,
    pub unresolved: Vec<SourceSpanDraft>,
}

impl Default for SpanValidationOutput {
    fn default() -> (r: Self)
        ensures
            r.rows@.len() == 0,
            r.unresolved@.len() == 0,
    {
        SpanValidationOutput { rows: Vec::new(), unresolved: Vec::new() }
    }
}

/// Why a span cannot be trusted, checked in this order; `None` for a valid span.
pub open spec fn span_problem(
    row: SourceSpanDraft,
    artifact: Seq<char>,
    source_content_hash: Seq<char>,
    block_parser_version: Seq<char>,
    block_count: u32,
) -> Option<Seq<char>> {
    if row.artifact_id@ != artifact {
        Some("wrong_artifact"@)
    } else if row.source_content_hash@ != source_content_hash {
        Some("stale_source_content"@)
    } else if row.block_parser_version@ != block_parser_version {
        Some("stale_block_parser"@)
    } else if trim(row.entity_id@).len() == 0 {
        Some("missing_entity_id"@)
    } else if row.block_start >= row.block_end {
        Some("invalid_half_open_range"@)
    } else if row.block_end > block_count {
        Some("out_of_bounds"@)
    } else {
        None
    }
}

/// `b` is `a` with only its validation status and reason changed.
pub open spec fn same_span_but_status(a: SourceSpanDraft, b: SourceSpanDraft) -> bool {
    &&& b.span_id == a.span_id
    &&& b.artifact_id == a.artifact_id
    &&& b.source_content_hash == a.source_content_hash
    &&& b.session_id == a.session_id
    &&& b.meeting_id == a.meeting_id
    &&& b.entity_type == a.entity_type
    &&& b.entity_id == a.entity_id
    &&& b.span_role == a.span_role
    &&& b.block_start == a.block_start
    &&& b.block_end == a.block_end
    &&& b.coverage_kind == a.coverage_kind
    &&& b.field_names == a.field_names
    &&& b.confidence_milli == a.confidence_milli
    &&& b.extractor == a.extractor
    &&& b.block_parser_version == a.block_parser_version
    &&& b.extractor_version == a.extractor_version
    &&& b.source_url == a.source_url
    &&& b.cache_path == a.cache_path
}

/// `b` is `a` marked `valid` with no reason, or `unresolved` with the reason it fails.
pub open spec fn validated_as(
    a: SourceSpanDraft,
    b: SourceSpanDraft,
    artifact: Seq<char>,
    source_content_hash: Seq<char>,
    block_parser_version: Seq<char>,
    block_count: u32,
) -> bool {
    &&& same_span_but_status(a, b)
    &&& match span_problem(a, artifact, source_content_hash, block_parser_version, block_count) {
        Some(reason) => b.validation_status@ == "unresolved"@ && b.unresolved_reason@ == reason,
        None => b.validation_status@ == "valid"@ && b.unresolved_reason@ == Seq::<char>::empty(),
    }
}

/// Marks every span `valid` or `unresolved` with its reason, in order, and also lists the
/// unresolved ones, in order.
pub fn validate_source_spans(
    rows: Vec<SourceSpanDraft>,
    artifact: &str,
    source_content_hash: &str,
    block_parser_version: &str,
    block_count: u32,
) -> (r: SpanValidationOutput)
    ensures
        r.rows@.len() == rows@.len(),
        forall|k: int| 0 <= k < rows@.len() ==> validated_as(
            rows@[k],
            #[trigger] r.rows@[k],
            artifact@,
            source_content_hash@,
            block_parser_version@,
            block_count,
        ),
        r.unresolved@ == r.rows@.filter(|s: SourceSpanDraft| s.validation_status@ == "unresolved"@),
{
    let ghost upred = |s: SourceSpanDraft| s.validation_status@ == "unresolved"@;
    let mut output = SpanValidationOutput::default();
    let mut i: usize = 0;
    proof {
        reveal_strlit("valid");
        reveal_strlit("unresolved");
        assert("valid"@.len() != "unresolved"@.len());
    }
    while i < rows.len()
        invariant
            i <= rows.len(),
            upred == (|s: SourceSpanDraft| s.validation_status@ == "unresolved"@),
            output.rows@.len() == i,
            forall|k: int| 0 <= k < i ==> validated_as(
                rows@[k],
                #[trigger] output.rows@[k],
                artifact@,
                source_content_hash@,
                block_parser_version@,
                block_count,
            ),
            output.unresolved@ == output.rows@.filter(upred),
            "valid"@ != "unresolved"@,
        decreases rows.len() - i,
    {
        let mut row = rows[i].clone();
        let t = trim_str(row.entity_id.as_str());
        let reason: Option<&'static str> = if !str_eq(row.artifact_id.as_str(), artifact) {
            Some("wrong_artifact")
        } else if !str_eq(row.source_content_hash.as_str(), source_content_hash) {
            Some("stale_source_content")
        } else if !str_eq(row.block_parser_version.as_str(), block_parser_version) {
            Some("stale_block_parser")
        } else if t.as_str().is_empty() {
            Some("missing_entity_id")
        } else if row.block_start >= row.block_end {
            Some("invalid_half_open_range")
        } else if row.block_end > block_count {
            Some("out_of_bounds")
        } else {
            None
        };
        let ghost prev_rows = output.rows@;
        match reason {
            Some(why) => {
                row.validation_status = owned("unresolved");
                row.unresolved_reason = owned(why);
                output.unresolved.push(row.clone());
            },
            None => {
                row.validation_status = owned("valid");
                row.unresolved_reason = String::new();
            },
        }
        output.rows.push(row);
        proof {
            reveal(Seq::filter);
            assert(output.rows@.drop_last() =~= prev_rows);
            assert forall|k: int| 0 <= k < i + 1 implies validated_as(
                rows@[k],
                #[trigger] output.rows@[k],
                artifact@,
                source_content_hash@,
                block_parser_version@,
                block_count,
            ) by {
                if k < i {
                    assert(output.rows@[k] == prev_rows[k]);
                }
            }
        }
        i = i + 1;
    }
    output
}

/// `{artifact}:{entity_type}:{entity_id}:{role}:{start}:{end}`.
pub open spec fn span_id_spec(
    artifact: Seq<char>,
    entity_type: Seq<char>,
    entity_id: Seq<char>,
    role: Seq<char>,
    start: u32,
    end: u32,
) -> Seq<char> {
    artifact + seq![':'] + entity_type + seq![':'] + entity_id + seq![':'] + role + seq![':']
        + decimal(start as nat) + seq![':'] + decimal(end as nat)
}

pub fn span_id(artifact: &str, entity_type: &str, entity_id: &str, role: &str, start: u32, end: u32) -> (r: String)
    ensures
        r@ == span_id_spec(artifact@, entity_type@, entity_id@, role@, start, end),
{
    let mut s = owned(artifact);
    push_char(&mut s, ':');
    push_str(&mut s, entity_type);
    push_char(&mut s, ':');
    push_str(&mut s, entity_id);
    push_char(&mut s, ':');
    push_str(&mut s, role);
    push_char(&mut s, ':');
    push_decimal(&mut s, start as u64);
    push_char(&mut s, ':');
    push_decimal(&mut s, end as u64);
    s
}

pub fn vote_extractor_version() -> (r: &'static str)
    ensures
        r@ == VOTE_EXTRACTOR_VERSION@,
{
    VOTE_EXTRACTOR_VERSION
}

pub fn block_parser_version() -> (r: &'static str)
    ensures
        r@ == BLOCK_PARSER_VERSION@,
{
    BLOCK_PARSER_VERSION
}

pub fn make_artifact_id(source_url: &str, cache_path: &str) -> (r: String)
    ensures
        r@ == artifact_id_of(source_url@, cache_path@),
{
    crate::artifact_id::artifact_id(source_url, cache_path)
}

} // verus!
