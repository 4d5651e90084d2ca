//! Derived report block rows for QA and the coverage viewer.
use vstd::prelude::*;
use crate::artifact_id::{BLOCK_PARSER_VERSION, REPORT_BLOCK_EXTRACTOR_VERSION};
use crate::json::{json_bool, json_member, push_json_bool, push_json_key};
use crate::report_blocks::{inlines_json, push_inlines_json, push_rows_json, rows_json, table_rows_view, ReportBlock};
use crate::text::{owned, push_char};

verus! {

pub struct ReportBlockRow {
    pub artifact_id: String,
    pub source_content_hash: String,
    pub block_index: u32,
    pub block_type: String,
    pub text: String,
    pub structured_json: String,
    pub language: String,
    pub class_name: String,
    pub word_count: u32,
    pub content_hash: String,
    pub has_oraspr: bool,
    pub block_parser_version: String,
    pub extractor_version: String,
    pub source_url: String,
    pub cache_path: String,
}

/// `{"has_oraspr":…,"inlines":[…],"table_rows":[…]|null}`.
pub open spec fn structured_json_of(b: ReportBlock) -> Seq<char> {
    seq!['{'] + json_member("has_oraspr"@, json_bool(b.has_oraspr)) + seq![',']
        + json_member("inlines"@, inlines_json(b.inlines@)) + seq![',']
        + json_member("table_rows"@, rows_json(table_rows_view(b.table_rows))) + seq!['}']
}

pub open spec fn text_or_empty(o: Option<Seq<char>>) -> Seq<char> {
    match o {
        Some(s) => s,
        None => Seq::empty(),
    }
}

/// The row of block `b`.
pub open spec fn block_row_ok(
    r: ReportBlockRow,
    b: ReportBlock,
    artifact_id: Seq<char>,
    source_content_hash: Seq<char>,
    source_url: Seq<char>,
    cache_path: Seq<char>,
) -> bool {
    &&& r.artifact_id@ == artifact_id
    &&& r.source_content_hash@ == source_content_hash
    &&& r.block_index == b.index
    &&& r.block_type@ == b.tag.name()
    &&& r.text@ == b.text@
    &&& r.structured_json@ == structured_json_of(b)
    &&& r.language@ == text_or_empty(b.lang.deep_view())
    &&& r.class_name@ == text_or_empty(b.class.deep_view())
    &&& r.word_count == b.word_count
    &&& r.content_hash@ == b.content_hash@
    &&& r.has_oraspr == b.has_oraspr
    &&& r.block_parser_version@ == BLOCK_PARSER_VERSION@
    &&& r.extractor_version@ == REPORT_BLOCK_EXTRACTOR_VERSION@
    &&& r.source_url@ == source_url
    &&& r.cache_path@ == cache_path
}

fn structured_json(b: &ReportBlock) -> (r: String)
    ensures
        r@ == structured_json_of(*b),
{
    let mut out = String::new();
    push_char(&mut out, '{');
    push_json_key(&mut out, "has_oraspr");
    push_json_bool(&mut out, b.has_oraspr);
    push_char(&mut out, ',');
    let ghost p1 = seq!['{'] + json_member("has_oraspr"@, json_bool(b.has_oraspr)) + seq![','];
    assert(out@ =~= p1);
    push_json_key(&mut out, "inlines");
    push_inlines_json(&mut out, &b.inlines);
    push_char(&mut out, ',');
    let ghost p2 = p1 + json_member("inlines"@, inlines_json(b.inlines@)) + seq![','];
    assert(out@ =~= p2);
    push_json_key(&mut out, "table_rows");
    push_rows_json(&mut out, &b.table_rows);
    push_char(&mut out, '}');
    assert(out@ =~= p2 + json_member("table_rows"@, rows_json(table_rows_view(b.table_rows))) + seq!['}']);
    out
}

fn text_or_default(o: &Option<String>) -> (r: String)
    ensures
        r@ == text_or_empty(o.deep_view()),
{
    match o {
        Some(s) => s.clone(),
        None => String::new(),
    }
}

/// One row per block, in block order.
pub fn materialize_report_blocks(
    artifact_id: &str,
    source_content_hash: &str,
    blocks: &[ReportBlock],
    source_url: &str,
    cache_path: &str,
) -> (r: Vec<ReportBlockRow>)
    ensures
        r@.len() == blocks@.len(),
        forall|k: int| 0 <= k < r@.len() ==> block_row_ok(
            #[trigger] r@[k],
            blocks@[k],
            artifact_id@,
            source_content_hash@,
            source_url@,
            cache_path@,
        ),
{
    let mut rows: Vec<ReportBlockRow> = Vec::new();
    let mut i: usize = 0;
    while i < blocks.len()
        invariant
            i <= blocks@.len(),
            rows@.len() == i,
            forall|k: int| 0 <= k < i ==> block_row_ok(
                #[trigger] rows@[k],
                blocks@[k],
                artifact_id@,
                source_content_hash@,
                source_url@,
                cache_path@,
            ),
        decreases blocks.len() - i,
    {
        let block = &blocks[i];
        let row = ReportBlockRow {
            artifact_id: owned(artifact_id),
            source_content_hash: owned(source_content_hash),
            block_index: block.index,
            block_type: owned(block.tag.as_str()),
            text: block.text.clone(),
            structured_json: structured_json(block),
            language: text_or_default(&block.lang),
            class_name: text_or_default(&block.class),
            word_count: block.word_count,
            content_hash: block.content_hash.clone(),
            has_oraspr: block.has_oraspr,
            block_parser_version: owned(BLOCK_PARSER_VERSION),
            extractor_version: owned(REPORT_BLOCK_EXTRACTOR_VERSION),
            source_url: owned(source_url),
            cache_path: owned(cache_path),
        };
        rows.push(row);
        i = i + 1;
    }
    rows
}

} // verus!
