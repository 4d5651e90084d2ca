//! Block-native vote assembly: decisions, results, tallies, members, and span evidence.
use vstd::prelude::*;
use crate::pattern::{capture, capture_text, group, group_text, re_captures_all, regex_captures_all, group_at};
use crate::report_blocks::{BlockTag, ReportBlock};
use crate::text::{
    contains, lowercase, owned, parse_u32, parse_u32_str, push_str, starts_with, str_contains, str_eq,
    str_starts_with, to_lower, trim, trim_str,
};
use crate::vote_events::{
    AppendixBucket, BucketView, RollCallCounts, appendix_scan, bucket_small, bucket_view, buckets_view, indices_below_max, no_statistics, parsed_roll_call_view, roll_call_table, secret_fold, ParsedRollCallTable, ParsedSecretTable, RollCallTableShape,
    parse_appendix_from_blocks, parse_roll_call_table, parse_secret_ballot_table,
};
use crate::vote_patterns::{
    CANDIDATE_TALLY_PATTERN, DOSSIER_REF_PATTERN, VoteSectionKind, formal_outcome, outcome_of,
    is_formal_vote_begin, is_numbered_agenda_heading, is_quorum_failure, is_reuse_question,
    is_sitting_standing_outcome, is_sitting_standing_proposal, paragraph_vote_title,
    parse_appendix_vote_number, parse_paragraph_vote_number, parse_participation, vote_title_paragraph,
    scan_formal_outcome_after, scan_reuse_marker, votes_section_heading, appendix_vote_number,
    scan_reuse, scan_outcome, participation, sitting_standing, paragraph_vote_number, section_kind,
    numbered_heading, FORMAL_VOTE_BEGIN_PATTERN, QUORUM_FAILURE_PATTERN, REUSE_RESULT_PATTERN,
    SITTING_STANDING_OUTCOME_PATTERN,
};
use crate::pattern::regex_is_match;
use crate::vote_types::{
    SpanEvidence, UnresolvedVoteEventDraft, VoteAssemblyOutput, VoteDecisionDraft,
    VoteResultDraft, VoteResultMemberDraft, VoteTallyDraft, composite_result_id,
    composite_vote_id, result_id_of, vote_id_of,
};

verus! {

/// A vote title with its dossier, document and motion references.
pub const TITLE_DOSSIER_DOCUMENT_PATTERN: &'static str = r#"^(.*)\((\d+)/(\d+(?:-\d+)?)\)\s*$"#;
/// A vote title ending in a motion number.
pub const TITLE_MOTION_PATTERN: &'static str = r#"^(.*)\s+\((?:nr\.|n°)\s*(\d+)\)\s*$"#;

struct TitleRefs {
    title_nl: String,
    title_fr: String,
    dossier_id: String,
    document_id: String,
    motion_id: String,
    source_blocks: Vec<u32>,
}

spec fn refs_ok(t: TitleRefs) -> bool {
    forall|i: int| 0 <= i < t.source_blocks@.len() ==> #[trigger] t.source_blocks@[i] < u32::MAX
}

/// Some result of `results` has the id `id`.
pub open spec fn result_known(results: Seq<VoteResultDraft>, id: Seq<char>) -> bool {
    exists|k: int| 0 <= k < results.len() && (#[trigger] results[k]).result_id@ == id
}

/// Some decision of `decisions` has the id `id`.
pub open spec fn decision_known(decisions: Seq<VoteDecisionDraft>, id: Seq<char>) -> bool {
    exists|k: int| 0 <= k < decisions.len() && (#[trigger] decisions[k]).vote_id@ == id
}

/// A span names a decision (`Vote`) or a result (`VoteResult`) that the output holds, and
/// covers one block.
pub open spec fn span_ok(out: VoteAssemblyOutput, s: SpanEvidence) -> bool {
    &&& (s.entity_type@ == "Vote"@ && decision_known(out.decisions@, s.entity_id@)) || (
    s.entity_type@ == "VoteResult"@ && result_known(out.results@, s.entity_id@))
    &&& s.block_end == s.block_start + 1
}

/// Decision `k` (0-based) is the `k + 1`-th of the meeting, with its composite id.
pub open spec fn decision_ok(
    out: VoteAssemblyOutput,
    k: int,
    session_id: u32,
    meeting_id: u32,
    date: Seq<char>,
    source_url: Seq<char>,
    cache_path: Seq<char>,
) -> bool {
    let d = out.decisions@[k];
    &&& d.seq == k + 1
    &&& d.vote_id@ == vote_id_of(session_id, meeting_id, (k + 1) as u32)
    &&& d.session_id == session_id && d.meeting_id == meeting_id
    &&& d.date@ == date && d.source_url@ == source_url && d.cache_path@ == cache_path
    &&& result_known(out.results@, d.result_id@)
}

/// Result `k` (0-based) is the `k + 1`-th of the meeting, with its composite id.
pub open spec fn result_ok(
    out: VoteAssemblyOutput,
    k: int,
    session_id: u32,
    meeting_id: u32,
    source_url: Seq<char>,
    cache_path: Seq<char>,
) -> bool {
    let r = out.results@[k];
    &&& r.seq == k + 1
    &&& r.result_id@ == result_id_of(session_id, meeting_id, (k + 1) as u32)
    &&& r.session_id == session_id && r.meeting_id == meeting_id
    &&& r.source_url@ == source_url && r.cache_path@ == cache_path
}

/// The shape of an assembled meeting: decisions and results numbered from one with their
/// composite ids, and every tally, member and span tied to a decision or result it holds.
pub open spec fn assembly_ok(
    out: VoteAssemblyOutput,
    session_id: u32,
    meeting_id: u32,
    date: Seq<char>,
    source_url: Seq<char>,
    cache_path: Seq<char>,
) -> bool {
    &&& forall|k: int|
        0 <= k < out.decisions@.len() ==> #[trigger] decision_ok(
            out,
            k,
            session_id,
            meeting_id,
            date,
            source_url,
            cache_path,
        )
    &&& forall|k: int|
        0 <= k < out.results@.len() ==> #[trigger] result_ok(
            out,
            k,
            session_id,
            meeting_id,
            source_url,
            cache_path,
        )
    &&& forall|k: int|
        0 <= k < out.tallies@.len() ==> result_known(out.results@, (#[trigger] out.tallies@[k]).result_id@)
    &&& forall|k: int|
        0 <= k < out.members@.len() ==> result_known(out.results@, (#[trigger] out.members@[k]).result_id@)
    &&& forall|k: int| 0 <= k < out.span_evidence@.len() ==> span_ok(out, #[trigger] out.span_evidence@[k])
    &&& forall|k: int|
        0 <= k < out.unresolved_events@.len() ==> (#[trigger] out.unresolved_events@[k]).block_end
            == out.unresolved_events@[k].block_start + 1
}

/// A decision carries a title in at least one language.
pub open spec fn titled(d: VoteDecisionDraft) -> bool {
    !(trim(d.title_nl@).len() == 0 && trim(d.title_fr@).len() == 0)
}

/// A span with exactly these fields, covering the one block `start`.
pub open spec fn span_is(
    s: SpanEvidence,
    entity_type: Seq<char>,
    entity_id: Seq<char>,
    role: Seq<char>,
    start: u32,
    coverage_kind: Seq<char>,
    fields: Seq<char>,
) -> bool {
    &&& s.entity_type@ == entity_type
    &&& s.entity_id@ == entity_id
    &&& s.span_role@ == role
    &&& s.block_start == start
    &&& s.block_end == start + 1
    &&& s.coverage_kind@ == coverage_kind
    &&& s.field_names@ == fields
}

/// A tally with exactly these fields.
pub open spec fn tally_is(
    t: VoteTallyDraft,
    result_id: Seq<char>,
    tally_kind: Seq<char>,
    option_key: Seq<char>,
    label_nl: Seq<char>,
    label_fr: Seq<char>,
    dimension: Seq<char>,
    count: u32,
    selected: bool,
) -> bool {
    &&& t.result_id@ == result_id
    &&& t.tally_kind@ == tally_kind
    &&& t.option_key@ == option_key
    &&& t.label_nl@ == label_nl
    &&& t.label_fr@ == label_fr
    &&& t.dimension@ == dimension
    &&& t.count == count
    &&& t.selected == selected
}

/// The output `b` is `a` with only its spans grown by one span.
pub open spec fn one_span_added(a: VoteAssemblyOutput, b: VoteAssemblyOutput) -> bool {
    &&& b.decisions == a.decisions
    &&& b.results == a.results
    &&& b.tallies == a.tallies
    &&& b.members == a.members
    &&& b.unresolved_events == a.unresolved_events
    &&& b.span_evidence@ == a.span_evidence@.push(b.span_evidence@.last())
}

/// The fields of pending title references: Dutch title, French title, dossier, document,
/// motion, and the blocks they were read from.
pub type RefsView = (Seq<char>, Seq<char>, Seq<char>, Seq<char>, Seq<char>, Seq<u32>);

spec fn refs_view(r: TitleRefs) -> RefsView {
    (r.title_nl@, r.title_fr@, r.dossier_id@, r.document_id@, r.motion_id@, r.source_blocks@)
}

pub open spec fn no_refs() -> RefsView {
    (Seq::empty(), Seq::empty(), Seq::empty(), Seq::empty(), Seq::empty(), Seq::empty())
}

/// A block is French by its `NormalFR` class or an `FR...` language.
pub open spec fn is_fr_block_spec(block: ReportBlock) -> bool {
    (match block.class {
        Some(c) => c@ == "NormalFR"@,
        None => false,
    }) || (match block.lang {
        Some(l) => starts_with(l@, "FR"@),
        None => false,
    })
}

/// The references after reading `text`: a dossier and document pair, else a motion number,
/// else a document reference where none is known yet.
pub open spec fn merged_refs(v: RefsView, text: Seq<char>) -> RefsView {
    match capture(TITLE_DOSSIER_DOCUMENT_PATTERN@, text, 2) {
        Some(dossier) => (v.0, v.1, trim(dossier), match capture(TITLE_DOSSIER_DOCUMENT_PATTERN@, text, 3) {
            Some(document) => trim(document),
            None => v.3,
        }, v.4, v.5),
        None => match capture(TITLE_MOTION_PATTERN@, text, 2) {
            Some(motion) => (v.0, v.1, v.2, v.3, trim(motion), v.5),
            None => match capture(DOSSIER_REF_PATTERN@, text, 1) {
                Some(document) => if v.3.len() == 0 {
                    (v.0, v.1, v.2, trim(document), v.4, v.5)
                } else {
                    v
                },
                None => v,
            },
        },
    }
}

/// The references after taking `block` as a title.
pub open spec fn titled_refs(v: RefsView, block: ReportBlock, with_refs: bool) -> RefsView {
    let blocks = v.5.push(block.index);
    let t = if is_fr_block_spec(block) {
        (v.0, block.text@, v.2, v.3, v.4, blocks)
    } else {
        (block.text@, v.1, v.2, v.3, v.4, blocks)
    };
    if with_refs {
        merged_refs(t, block.text@)
    } else {
        t
    }
}

/// The title references read from the vote-title paragraphs among blocks `from .. n`.
pub open spec fn recovered_refs(blocks: Seq<ReportBlock>, from: int, n: int) -> RefsView
    decreases n - from,
{
    if n <= from {
        no_refs()
    } else {
        let prev = recovered_refs(blocks, from, n - 1);
        let b = blocks[n - 1];
        if b.tag == BlockTag::P && vote_title_paragraph(b.text@) {
            titled_refs(prev, b, true)
        } else {
            prev
        }
    }
}

fn empty_refs() -> (r: TitleRefs)
    ensures
        refs_ok(r),
        r.title_nl@.len() == 0,
        r.title_fr@.len() == 0,
        refs_view(r) == no_refs(),
{
    TitleRefs {
        title_nl: String::new(),
        title_fr: String::new(),
        dossier_id: String::new(),
        document_id: String::new(),
        motion_id: String::new(),
        source_blocks: Vec::new(),
    }
}

fn is_fr_block(block: &ReportBlock) -> (r: bool)
    ensures
        r == is_fr_block_spec(*block),
{
    let by_class = match &block.class {
        Some(c) => str_eq(c.as_str(), "NormalFR"),
        None => false,
    };
    let by_lang = match &block.lang {
        Some(l) => str_starts_with(l.as_str(), "FR"),
        None => false,
    };
    by_class || by_lang
}

fn merge_refs(pending: &mut TitleRefs, text: &str)
    ensures
        final(pending).source_blocks@ == old(pending).source_blocks@,
        final(pending).title_nl@ == old(pending).title_nl@,
        final(pending).title_fr@ == old(pending).title_fr@,
        refs_view(*final(pending)) == merged_refs(refs_view(*old(pending)), text@),
{
    match capture_text(TITLE_DOSSIER_DOCUMENT_PATTERN, text, 2) {
        Some(dossier) => {
            pending.dossier_id = trim_str(dossier.as_str());
            match capture_text(TITLE_DOSSIER_DOCUMENT_PATTERN, text, 3) {
                Some(document) => {
                    pending.document_id = trim_str(document.as_str());
                },
                None => {},
            }
        },
        None => match capture_text(TITLE_MOTION_PATTERN, text, 2) {
            Some(motion) => {
                pending.motion_id = trim_str(motion.as_str());
            },
            None => match capture_text(DOSSIER_REF_PATTERN, text, 1) {
                Some(document) => {
                    if pending.document_id.as_str().is_empty() {
                        pending.document_id = trim_str(document.as_str());
                    }
                },
                None => {},
            },
        },
    }
}

/// Record a title block (French or Dutch by its class and language) in the pending refs.
fn take_title(pending: &mut TitleRefs, block: &ReportBlock, with_refs: bool)
    requires
        refs_ok(*old(pending)),
        block.index < u32::MAX,
    ensures
        refs_ok(*final(pending)),
        final(pending).title_nl@ == block.text@ || final(pending).title_fr@ == block.text@,
        refs_view(*final(pending)) == titled_refs(refs_view(*old(pending)), *block, with_refs),
{
    pending.source_blocks.push(block.index);
    if is_fr_block(block) {
        pending.title_fr = block.text.clone();
    } else {
        pending.title_nl = block.text.clone();
    }
    if with_refs {
        merge_refs(pending, block.text.as_str());
    }
}

fn recover_title_between(blocks: &[ReportBlock], from: usize, to: usize) -> (r: TitleRefs)
    requires
        indices_below_max(blocks@),
    ensures
        refs_ok(r),
        refs_view(r) == recovered_refs(blocks@, from as int, if to < blocks@.len() {
            to as int
        } else {
            blocks@.len() as int
        }),
{
    let mut refs = empty_refs();
    let mut i = from;
    while i < to && i < blocks.len()
        invariant
            refs_ok(refs),
            indices_below_max(blocks@),
            from <= i,
            i == from || (i <= to && i <= blocks@.len()),
            refs_view(refs) == recovered_refs(blocks@, from as int, i as int),
        decreases blocks.len() - i,
    {
        let block = &blocks[i];
        if block.tag == BlockTag::P && paragraph_vote_title(block.text.as_str()) {
            take_title(&mut refs, block, true);
        }
        i = i + 1;
    }
    refs
}

/// `y` occurs among the first `n` elements of `s`.
spec fn in_prefix(s: Seq<u32>, n: int, y: u32) -> bool {
    exists|a: int| 0 <= a < n && #[trigger] s[a] == y
}

proof fn lemma_in_prefix_step(s: Seq<u32>, n: int)
    requires
        0 <= n < s.len(),
    ensures
        forall|y: u32| #[trigger] in_prefix(s, n + 1, y) <==> (in_prefix(s, n, y) || y == s[n]),
{
    assert forall|y: u32| #[trigger] in_prefix(s, n + 1, y) <==> (in_prefix(s, n, y) || y == s[n]) by {
        if in_prefix(s, n + 1, y) {
            let a = choose|a: int| 0 <= a < n + 1 && #[trigger] s[a] == y;
            if a < n {
                assert(in_prefix(s, n, y));
            }
        }
        if y == s[n] {
            assert(s[n] == y);
        }
    }
}

proof fn lemma_in_prefix_all(s: Seq<u32>)
    ensures
        forall|y: u32| #[trigger] in_prefix(s, s.len() as int, y) <==> s.contains(y),
{
    assert forall|y: u32| #[trigger] in_prefix(s, s.len() as int, y) <==> s.contains(y) by {
        if s.contains(y) {
            let a = choose|a: int| 0 <= a < s.len() && s[a] == y;
            assert(s[a] == y);
        }
    }
}

/// The first position from `p` on whose value is not below `x`.
pub open spec fn first_not_below(v: Seq<u32>, x: u32, p: int) -> int
    decreases v.len() - p,
{
    if p < 0 || p >= v.len() || v[p] >= x {
        p
    } else {
        first_not_below(v, x, p + 1)
    }
}

/// `x` inserted into `v` before the first value not below it, unless it is there already.
pub open spec fn sorted_insert(v: Seq<u32>, x: u32) -> Seq<u32> {
    let p = first_not_below(v, x, 0);
    if 0 <= p < v.len() && v[p] == x {
        v
    } else {
        v.insert(p, x)
    }
}

/// The values of `xs` inserted one by one into `v`.
pub open spec fn sorted_insert_all(v: Seq<u32>, xs: Seq<u32>) -> Seq<u32>
    decreases xs.len(),
{
    if xs.len() == 0 {
        v
    } else {
        sorted_insert(sorted_insert_all(v, xs.drop_last()), xs.last())
    }
}

proof fn lemma_first_not_below_range(v: Seq<u32>, x: u32, p: int)
    requires
        0 <= p <= v.len(),
    ensures
        p <= first_not_below(v, x, p) <= v.len(),
    decreases v.len() - p,
{
    if p < v.len() && v[p] < x {
        lemma_first_not_below_range(v, x, p + 1);
    }
}

/// Insert `x` into a strictly increasing vector, keeping it strictly increasing.
#[verifier::spinoff_prover]
fn insert_sorted_unique(v: &mut Vec<u32>, x: u32)
    requires
        forall|i: int, j: int| 0 <= i < j < old(v)@.len() ==> old(v)@[i] < old(v)@[j],
    ensures
        forall|i: int, j: int| 0 <= i < j < final(v)@.len() ==> final(v)@[i] < final(v)@[j],
        forall|y: u32| final(v)@.contains(y) <==> (old(v)@.contains(y) || y == x),
        final(v)@ == sorted_insert(old(v)@, x),
{
    let mut p: usize = 0;
    while p < v.len() && v[p] < x
        invariant
            p <= v.len(),
            forall|i: int| 0 <= i < p ==> v@[i] < x,
            first_not_below(v@, x, 0) == first_not_below(v@, x, p as int),
        decreases v.len() - p,
    {
        p = p + 1;
    }
    assert(first_not_below(v@, x, p as int) == p);
    if p < v.len() && v[p] == x {
        return;
    }
    let ghost before = v@;
    v.insert(p, x);
    proof {
        assert(v@ =~= before.take(p as int).push(x) + before.skip(p as int));
        assert forall|y: u32| v@.contains(y) <==> (before.contains(y) || y == x) by {
            if y == x {
                assert(v@[p as int] == x);
            }
            if before.contains(y) {
                let k = choose|k: int| 0 <= k < before.len() && before[k] == y;
                if k < p {
                    assert(v@[k] == y);
                } else {
                    assert(v@[k + 1] == y);
                }
            }
            if v@.contains(y) {
                let k = choose|k: int| 0 <= k < v@.len() && v@[k] == y;
                if k < p {
                    assert(before[k] == y);
                } else if k > p {
                    assert(before[k - 1] == y);
                }
            }
        }
    }
}

/// Pending title references completed by recovered ones: each text field is the pending
/// one unless it is empty, and the blocks are those of both, ascending, each once.
pub open spec fn merged_titles(p: RefsView, r: RefsView) -> RefsView {
    (
        if p.0.len() == 0 { r.0 } else { p.0 },
        if p.1.len() == 0 { r.1 } else { p.1 },
        if p.2.len() == 0 { r.2 } else { p.2 },
        if p.3.len() == 0 { r.3 } else { p.3 },
        if p.4.len() == 0 { r.4 } else { p.4 },
        sorted_insert_all(sorted_insert_all(Seq::empty(), r.5), p.5),
    )
}

fn merge_titles(pending: &TitleRefs, recovered: TitleRefs) -> (r: TitleRefs)
    requires
        refs_ok(*pending),
        refs_ok(recovered),
    ensures
        refs_ok(r),
        forall|y: u32| r.source_blocks@.contains(y) <==> (pending.source_blocks@.contains(y)
            || recovered.source_blocks@.contains(y)),
        forall|i: int, j: int| 0 <= i < j < r.source_blocks@.len() ==> r.source_blocks@[i] < r.source_blocks@[j],
        refs_view(r) == merged_titles(refs_view(*pending), refs_view(recovered)),
{
    let mut source_blocks: Vec<u32> = Vec::new();
    let mut i: usize = 0;
    while i < recovered.source_blocks.len()
        invariant
            i <= recovered.source_blocks.len(),
            refs_ok(recovered),
            forall|a: int, b: int| 0 <= a < b < source_blocks@.len() ==> source_blocks@[a] < source_blocks@[b],
            forall|y: u32| source_blocks@.contains(y) <==> in_prefix(recovered.source_blocks@, i as int, y),
            source_blocks@ == sorted_insert_all(Seq::empty(), recovered.source_blocks@.take(i as int)),
        decreases recovered.source_blocks.len() - i,
    {
        assert(recovered.source_blocks@.take(i + 1).drop_last() =~= recovered.source_blocks@.take(i as int));
        insert_sorted_unique(&mut source_blocks, recovered.source_blocks[i]);
        proof {
            lemma_in_prefix_step(recovered.source_blocks@, i as int);
        }
        i = i + 1;
    }
    assert(recovered.source_blocks@.take(i as int) =~= recovered.source_blocks@);
    assert(pending.source_blocks@.take(0) =~= Seq::<u32>::empty());
    let mut j: usize = 0;
    while j < pending.source_blocks.len()
        invariant
            j <= pending.source_blocks.len(),
            i == recovered.source_blocks.len(),
            forall|a: int, b: int| 0 <= a < b < source_blocks@.len() ==> source_blocks@[a] < source_blocks@[b],
            forall|y: u32| source_blocks@.contains(y) <==> (in_prefix(recovered.source_blocks@, i as int, y)
                || in_prefix(pending.source_blocks@, j as int, y)),
            source_blocks@ == sorted_insert_all(sorted_insert_all(Seq::empty(), recovered.source_blocks@), pending.source_blocks@.take(j as int)),
        decreases pending.source_blocks.len() - j,
    {
        assert(pending.source_blocks@.take(j + 1).drop_last() =~= pending.source_blocks@.take(j as int));
        insert_sorted_unique(&mut source_blocks, pending.source_blocks[j]);
        proof {
            lemma_in_prefix_step(pending.source_blocks@, j as int);
        }
        j = j + 1;
    }
    proof {
        assert(pending.source_blocks@.take(j as int) =~= pending.source_blocks@);
        lemma_in_prefix_all(recovered.source_blocks@);
        lemma_in_prefix_all(pending.source_blocks@);
        assert forall|k: int| 0 <= k < source_blocks@.len() implies #[trigger] source_blocks@[k] < u32::MAX by {
            let y = source_blocks@[k];
            assert(source_blocks@.contains(y));
            if in_prefix(recovered.source_blocks@, i as int, y) {
                let a = choose|a: int| 0 <= a < i && #[trigger] recovered.source_blocks@[a] == y;
            } else {
                let a = choose|a: int| 0 <= a < j && #[trigger] pending.source_blocks@[a] == y;
            }
        }
    }
    TitleRefs {
        title_nl: if pending.title_nl.as_str().is_empty() {
            recovered.title_nl
        } else {
            pending.title_nl.clone()
        },
        title_fr: if pending.title_fr.as_str().is_empty() {
            recovered.title_fr
        } else {
            pending.title_fr.clone()
        },
        dossier_id: if pending.dossier_id.as_str().is_empty() {
            recovered.dossier_id
        } else {
            pending.dossier_id.clone()
        },
        document_id: if pending.document_id.as_str().is_empty() {
            recovered.document_id
        } else {
            pending.document_id.clone()
        },
        motion_id: if pending.motion_id.as_str().is_empty() {
            recovered.motion_id
        } else {
            pending.motion_id.clone()
        },
        source_blocks,
    }
}

/// A decision as plain values.
pub struct DecisionSpec {
    pub vote_id: Seq<char>,
    pub result_id: Seq<char>,
    pub session_id: u32,
    pub meeting_id: u32,
    pub date: Seq<char>,
    pub seq: u32,
    pub title_nl: Seq<char>,
    pub title_fr: Seq<char>,
    pub method: Seq<char>,
    pub status: Seq<char>,
    pub outcome: Seq<char>,
    pub dossier_id: Seq<char>,
    pub document_id: Seq<char>,
    pub motion_id: Seq<char>,
    pub source_roll_call_number: Seq<char>,
    pub reuses_result: bool,
    pub source_url: Seq<char>,
    pub cache_path: Seq<char>,
}

/// A result as plain values.
pub struct ResultSpec {
    pub result_id: Seq<char>,
    pub session_id: u32,
    pub meeting_id: u32,
    pub seq: u32,
    pub method: Seq<char>,
    pub named: bool,
    pub status: Seq<char>,
    pub outcome: Seq<char>,
    pub source_roll_call_number: Seq<char>,
    pub source_url: Seq<char>,
    pub cache_path: Seq<char>,
}

/// A member as plain values: result, position, number, raw name.
pub type MemberView = (Seq<char>, Seq<char>, u32, Seq<char>);

/// An unresolved event as plain values: session, meeting, kind, vote number, start, end,
/// reason, evidence text, source URL, cache path.
pub type UnresolvedView = (u32, u32, Seq<char>, Seq<char>, u32, u32, Seq<char>, Seq<char>, Seq<char>, Seq<char>);

/// A whole assembly output as plain values.
pub struct AssemblyView {
    pub decisions: Seq<DecisionSpec>,
    pub results: Seq<ResultSpec>,
    pub tallies: Seq<TallyView>,
    pub members: Seq<MemberView>,
    pub spans: Seq<SpanView>,
    pub unresolved: Seq<UnresolvedView>,
}

pub open spec fn decision_spec(d: VoteDecisionDraft) -> DecisionSpec {
    DecisionSpec {
        vote_id: d.vote_id@,
        result_id: d.result_id@,
        session_id: d.session_id,
        meeting_id: d.meeting_id,
        date: d.date@,
        seq: d.seq,
        title_nl: d.title_nl@,
        title_fr: d.title_fr@,
        method: d.method@,
        status: d.status@,
        outcome: d.outcome@,
        dossier_id: d.dossier_id@,
        document_id: d.document_id@,
        motion_id: d.motion_id@,
        source_roll_call_number: d.source_roll_call_number@,
        reuses_result: d.reuses_result,
        source_url: d.source_url@,
        cache_path: d.cache_path@,
    }
}

pub open spec fn result_spec(r: VoteResultDraft) -> ResultSpec {
    ResultSpec {
        result_id: r.result_id@,
        session_id: r.session_id,
        meeting_id: r.meeting_id,
        seq: r.seq,
        method: r.method@,
        named: r.named,
        status: r.status@,
        outcome: r.outcome@,
        source_roll_call_number: r.source_roll_call_number@,
        source_url: r.source_url@,
        cache_path: r.cache_path@,
    }
}

pub open spec fn member_view(m: VoteResultMemberDraft) -> MemberView {
    (m.result_id@, m.position@, m.seq, m.raw_name@)
}

pub open spec fn unresolved_view(u: UnresolvedVoteEventDraft) -> UnresolvedView {
    (u.session_id, u.meeting_id, u.event_kind@, u.source_roll_call_number@, u.block_start, u.block_end, u.reason@,
        u.evidence_text@, u.source_url@, u.cache_path@)
}

pub open spec fn assembly_view(out: VoteAssemblyOutput) -> AssemblyView {
    AssemblyView {
        decisions: out.decisions@.map_values(|d: VoteDecisionDraft| decision_spec(d)),
        results: out.results@.map_values(|r: VoteResultDraft| result_spec(r)),
        tallies: out.tallies@.map_values(|t: VoteTallyDraft| tally_view(t)),
        members: out.members@.map_values(|m: VoteResultMemberDraft| member_view(m)),
        spans: out.span_evidence@.map_values(|s: SpanEvidence| span_view(s)),
        unresolved: out.unresolved_events@.map_values(|u: UnresolvedVoteEventDraft| unresolved_view(u)),
    }
}

/// The span of an extraction: the entity, its role, one block and its fields.
pub open spec fn span_of(entity_type: Seq<char>, entity_id: Seq<char>, role: Seq<char>, start: u32, fields: Seq<char>) -> SpanView {
    (entity_type, entity_id, role, start, (start + 1) as u32, "extraction"@, fields)
}

/// The view with one more span.
pub open spec fn with_span(v: AssemblyView, entity_type: Seq<char>, entity_id: Seq<char>, role: Seq<char>, start: u32, fields: Seq<char>) -> AssemblyView {
    AssemblyView { spans: v.spans.push(span_of(entity_type, entity_id, role, start, fields)), ..v }
}

/// The view with one more overall tally, not selected.
pub open spec fn with_tally(v: AssemblyView, rid: Seq<char>, kind: Seq<char>, key: Seq<char>, nl: Seq<char>, fr: Seq<char>, count: u32) -> AssemblyView {
    AssemblyView { tallies: v.tallies.push((rid, kind, key, nl, fr, "overall"@, count, false)), ..v }
}

/// The view with one more member.
pub open spec fn with_member(v: AssemblyView, rid: Seq<char>, position: Seq<char>, seq: u32, raw_name: Seq<char>) -> AssemblyView {
    AssemblyView { members: v.members.push((rid, position, seq, raw_name)), ..v }
}

/// The view with one more unresolved event for `block`.
pub open spec fn with_unresolved(
    v: AssemblyView,
    session_id: u32,
    meeting_id: u32,
    kind: Seq<char>,
    source_number: Seq<char>,
    block: ReportBlock,
    reason: Seq<char>,
    source_url: Seq<char>,
    cache_path: Seq<char>,
) -> AssemblyView {
    AssemblyView {
        unresolved: v.unresolved.push(
            (session_id, meeting_id, kind, source_number, block.index, (block.index + 1) as u32, reason, block.text@, source_url, cache_path),
        ),
        ..v
    }
}

/// The id of the next result of the meeting.
pub open spec fn next_result_id(v: AssemblyView, session_id: u32, meeting_id: u32) -> Seq<char> {
    result_id_of(session_id, meeting_id, (v.results.len() + 1) as u32)
}

/// The id of the next decision of the meeting.
pub open spec fn next_vote_id(v: AssemblyView, session_id: u32, meeting_id: u32) -> Seq<char> {
    vote_id_of(session_id, meeting_id, (v.decisions.len() + 1) as u32)
}

/// The view with the next result of the meeting.
pub open spec fn with_result(
    v: AssemblyView,
    session_id: u32,
    meeting_id: u32,
    method: Seq<char>,
    named: bool,
    status: Seq<char>,
    outcome: Seq<char>,
    source_number: Seq<char>,
    source_url: Seq<char>,
    cache_path: Seq<char>,
) -> AssemblyView {
    AssemblyView {
        results: v.results.push(
            ResultSpec {
                result_id: next_result_id(v, session_id, meeting_id),
                session_id,
                meeting_id,
                seq: (v.results.len() + 1) as u32,
                method,
                named,
                status,
                outcome,
                source_roll_call_number: source_number,
                source_url,
                cache_path,
            },
        ),
        ..v
    }
}

/// The view with the next decision of the meeting, titled by `title`.
pub open spec fn with_decision(
    v: AssemblyView,
    session_id: u32,
    meeting_id: u32,
    date: Seq<char>,
    result_id: Seq<char>,
    title: RefsView,
    method: Seq<char>,
    status: Seq<char>,
    outcome: Seq<char>,
    source_number: Seq<char>,
    reuses: bool,
    source_url: Seq<char>,
    cache_path: Seq<char>,
) -> AssemblyView {
    AssemblyView {
        decisions: v.decisions.push(
            DecisionSpec {
                vote_id: next_vote_id(v, session_id, meeting_id),
                result_id,
                session_id,
                meeting_id,
                date,
                seq: (v.decisions.len() + 1) as u32,
                title_nl: title.0,
                title_fr: title.1,
                method,
                status,
                outcome,
                dossier_id: title.2,
                document_id: title.3,
                motion_id: title.4,
                source_roll_call_number: source_number,
                reuses_result: reuses,
                source_url,
                cache_path,
            },
        ),
        ..v
    }
}

/// The view with one `decision_title` span of decision `vote_id` per block of `blocks`.
pub open spec fn with_title_spans(v: AssemblyView, vote_id: Seq<char>, blocks: Seq<u32>) -> AssemblyView {
    AssemblyView {
        spans: v.spans + blocks.map_values(
            |b: u32| span_of("Vote"@, vote_id, "decision_title"@, b, "title_nl,title_fr,dossier_id,document_id,motion_id"@),
        ),
        ..v
    }
}

/// The assembly invariant is kept when a span is added that names a held decision or result.
fn push_span(
    out: &mut VoteAssemblyOutput,
    entity_type: &str,
    entity_id: &str,
    role: &str,
    start: u32,
    coverage_kind: &str,
    fields: &str,
)
    requires
        start < u32::MAX,
        (entity_type@ == "Vote"@ && decision_known(old(out).decisions@, entity_id@)) || (
        entity_type@ == "VoteResult"@ && result_known(old(out).results@, entity_id@)),
    ensures
        final(out).decisions == old(out).decisions,
        final(out).results == old(out).results,
        final(out).tallies == old(out).tallies,
        final(out).members == old(out).members,
        final(out).unresolved_events == old(out).unresolved_events,
        final(out).span_evidence@ == old(out).span_evidence@.push(final(out).span_evidence@.last()),
        span_ok(*final(out), final(out).span_evidence@.last()),
        span_is(final(out).span_evidence@.last(), entity_type@, entity_id@, role@, start, coverage_kind@, fields@),
{
    out.span_evidence.push(
        SpanEvidence {
            entity_type: entity_type.to_string(),
            entity_id: entity_id.to_string(),
            span_role: role.to_string(),
            block_start: start,
            block_end: start + 1,
            coverage_kind: coverage_kind.to_string(),
            field_names: fields.to_string(),
        },
    );
}

/// `b` is `a` followed by one `decision_title` span of decision `vote_id` for each block of
/// `blocks`, in order.
pub open spec fn title_spans_added(a: Seq<SpanEvidence>, b: Seq<SpanEvidence>, vote_id: Seq<char>, blocks: Seq<u32>) -> bool {
    &&& b.len() == a.len() + blocks.len()
    &&& b.take(a.len() as int) == a
    &&& forall|i: int|
        0 <= i < blocks.len() ==> span_is(
            b[a.len() + i],
            "Vote"@,
            vote_id,
            "decision_title"@,
            #[trigger] blocks[i],
            "extraction"@,
            "title_nl,title_fr,dossier_id,document_id,motion_id"@,
        )
}

fn push_title_spans(out: &mut VoteAssemblyOutput, vote_id: &str, title: &TitleRefs)
    requires
        refs_ok(*title),
        decision_known(old(out).decisions@, vote_id@),
        forall|k: int| 0 <= k < old(out).span_evidence@.len() ==> span_ok(*old(out), #[trigger] old(out).span_evidence@[k]),
    ensures
        final(out).decisions == old(out).decisions,
        final(out).results == old(out).results,
        final(out).tallies == old(out).tallies,
        final(out).members == old(out).members,
        final(out).unresolved_events == old(out).unresolved_events,
        forall|k: int| 0 <= k < final(out).span_evidence@.len() ==> span_ok(*final(out), #[trigger] final(out).span_evidence@[k]),
        title_spans_added(old(out).span_evidence@, final(out).span_evidence@, vote_id@, title.source_blocks@),
{
    let mut i: usize = 0;
    assert(old(out).span_evidence@.take(old(out).span_evidence@.len() as int) =~= old(out).span_evidence@);
    while i < title.source_blocks.len()
        invariant
            i <= title.source_blocks.len(),
            refs_ok(*title),
            decision_known(out.decisions@, vote_id@),
            out.decisions == old(out).decisions,
            out.results == old(out).results,
            out.tallies == old(out).tallies,
            out.members == old(out).members,
            out.unresolved_events == old(out).unresolved_events,
            forall|k: int| 0 <= k < out.span_evidence@.len() ==> span_ok(*out, #[trigger] out.span_evidence@[k]),
            title_spans_added(old(out).span_evidence@, out.span_evidence@, vote_id@, title.source_blocks@.take(i as int)),
        decreases title.source_blocks.len() - i,
    {
        let block_index = title.source_blocks[i];
        let ghost before = *out;
        push_span(
            out,
            "Vote",
            vote_id,
            "decision_title",
            block_index,
            "extraction",
            "title_nl,title_fr,dossier_id,document_id,motion_id",
        );
        proof {
            assert forall|k: int| 0 <= k < out.span_evidence@.len() implies span_ok(*out, #[trigger] out.span_evidence@[k]) by {
                if k < before.span_evidence@.len() {
                    assert(span_ok(before, before.span_evidence@[k]));
                }
            }
            let a = old(out).span_evidence@;
            let bs = title.source_blocks@.take(i + 1);
            assert(bs.drop_last() =~= title.source_blocks@.take(i as int));
            assert(out.span_evidence@.take(a.len() as int) =~= a) by {
                assert(before.span_evidence@.take(a.len() as int) =~= a);
            }
            assert forall|j: int| 0 <= j < bs.len() implies span_is(
                out.span_evidence@[a.len() + j],
                "Vote"@,
                vote_id@,
                "decision_title"@,
                #[trigger] bs[j],
                "extraction"@,
                "title_nl,title_fr,dossier_id,document_id,motion_id"@,
            ) by {
                if j < i {
                    assert(bs[j] == title.source_blocks@.take(i as int)[j]);
                    assert(out.span_evidence@[a.len() + j] == before.span_evidence@[a.len() + j]);
                }
            }
        }
        i = i + 1;
    }
    assert(title.source_blocks@.take(title.source_blocks@.len() as int) =~= title.source_blocks@);
}

/// An unresolved event with exactly these fields, covering `block` and quoting its text.
pub open spec fn unresolved_is(
    u: UnresolvedVoteEventDraft,
    session_id: u32,
    meeting_id: u32,
    event_kind: Seq<char>,
    source_number: Seq<char>,
    block: ReportBlock,
    reason: Seq<char>,
    source_url: Seq<char>,
    cache_path: Seq<char>,
) -> bool {
    &&& u.session_id == session_id
    &&& u.meeting_id == meeting_id
    &&& u.event_kind@ == event_kind
    &&& u.source_roll_call_number@ == source_number
    &&& u.block_start == block.index
    &&& u.block_end == block.index + 1
    &&& u.reason@ == reason
    &&& u.evidence_text@ == block.text@
    &&& u.source_url@ == source_url
    &&& u.cache_path@ == cache_path
}

fn push_unresolved(
    out: &mut VoteAssemblyOutput,
    session_id: u32,
    meeting_id: u32,
    event_kind: &str,
    source_number: &str,
    block: &ReportBlock,
    reason: &str,
    source_url: &str,
    cache_path: &str,
)
    requires
        block.index < u32::MAX,
    ensures
        final(out).decisions == old(out).decisions,
        final(out).results == old(out).results,
        final(out).tallies == old(out).tallies,
        final(out).members == old(out).members,
        final(out).span_evidence == old(out).span_evidence,
        final(out).unresolved_events@ == old(out).unresolved_events@.push(final(out).unresolved_events@.last()),
        final(out).unresolved_events@.last().block_end == final(out).unresolved_events@.last().block_start + 1,
        unresolved_is(final(out).unresolved_events@.last(), session_id, meeting_id, event_kind@, source_number@, *block, reason@, source_url@, cache_path@),
{
    out.unresolved_events.push(
        UnresolvedVoteEventDraft {
            session_id,
            meeting_id,
            event_kind: event_kind.to_string(),
            source_roll_call_number: source_number.to_string(),
            block_start: block.index,
            block_end: block.index + 1,
            reason: reason.to_string(),
            evidence_text: block.text.clone(),
            source_url: source_url.to_string(),
            cache_path: cache_path.to_string(),
        },
    );
}

fn push_tally(
    tallies: &mut Vec<VoteTallyDraft>,
    result_id: &str,
    tally_kind: &str,
    option_key: &str,
    label_nl: &str,
    label_fr: &str,
    dimension: &str,
    count: u32,
    selected: bool,
)
    ensures
        final(tallies)@ == old(tallies)@.push(final(tallies)@.last()),
        final(tallies)@.last().result_id@ == result_id@,
        final(tallies)@.last().option_key@ == option_key@,
        final(tallies)@.last().count == count,
        tally_is(final(tallies)@.last(), result_id@, tally_kind@, option_key@, label_nl@, label_fr@, dimension@, count, selected),
{
    tallies.push(
        VoteTallyDraft {
            result_id: result_id.to_string(),
            tally_kind: tally_kind.to_string(),
            option_key: option_key.to_string(),
            label_nl: label_nl.to_string(),
            label_fr: label_fr.to_string(),
            dimension: dimension.to_string(),
            count,
            selected,
        },
    );
}

/// Every tally of `tallies` names a result that `results` holds.
spec fn tallies_known(tallies: Seq<VoteTallyDraft>, results: Seq<VoteResultDraft>) -> bool {
    forall|k: int| 0 <= k < tallies.len() ==> result_known(results, (#[trigger] tallies[k]).result_id@)
}

/// `b` is `a` followed by one tally of result `result_id` and kind `kind` per entry
/// `(option key, dimension, count)` of `entries`, in order, labelled by its key and not
/// selected.
pub open spec fn tallies_added(
    a: Seq<VoteTallyDraft>,
    b: Seq<VoteTallyDraft>,
    result_id: Seq<char>,
    kind: Seq<char>,
    entries: Seq<(Seq<char>, Seq<char>, u32)>,
) -> bool {
    &&& b.len() == a.len() + entries.len()
    &&& b.take(a.len() as int) == a
    &&& forall|i: int|
        0 <= i < entries.len() ==> tally_is(
            b[a.len() + i],
            result_id,
            kind,
            (#[trigger] entries[i]).0,
            entries[i].0,
            entries[i].0,
            entries[i].1,
            entries[i].2,
            false,
        )
}

proof fn lemma_tallies_added_chain(
    a: Seq<VoteTallyDraft>,
    b: Seq<VoteTallyDraft>,
    c: Seq<VoteTallyDraft>,
    result_id: Seq<char>,
    kind: Seq<char>,
    e1: Seq<(Seq<char>, Seq<char>, u32)>,
    e2: Seq<(Seq<char>, Seq<char>, u32)>,
)
    requires
        tallies_added(a, b, result_id, kind, e1),
        tallies_added(b, c, result_id, kind, e2),
    ensures
        tallies_added(a, c, result_id, kind, e1 + e2),
{
    let e = e1 + e2;
    assert(c.take(a.len() as int) =~= a) by {
        assert forall|j: int| 0 <= j < a.len() implies c[j] == a[j] by {
            assert(c[j] == c.take(b.len() as int)[j]);
            assert(b[j] == b.take(a.len() as int)[j]);
        }
    }
    assert forall|i: int| 0 <= i < e.len() implies tally_is(
        c[a.len() + i],
        result_id,
        kind,
        (#[trigger] e[i]).0,
        e[i].0,
        e[i].0,
        e[i].1,
        e[i].2,
        false,
    ) by {
        if i < e1.len() {
            assert(e[i] == e1[i]);
            assert(c[a.len() + i] == c.take(b.len() as int)[a.len() + i]);
        } else {
            assert(e[i] == e2[i - e1.len()]);
        }
    }
}

/// The tally entries of one position: its overall count, and for a language-group table
/// its Dutch and French group counts when both are known.
pub open spec fn position_entries(
    key: Seq<char>,
    overall: Option<u32>,
    nl: Option<u32>,
    fr: Option<u32>,
    language_group: bool,
) -> Seq<(Seq<char>, Seq<char>, u32)> {
    (match overall {
        Some(c) => seq![(key, "overall"@, c)],
        None => Seq::empty(),
    }) + if language_group {
        match (nl, fr) {
            (Some(n), Some(f)) => seq![(key, "nl_group"@, n), (key, "fr_group"@, f)],
            _ => Seq::empty(),
        }
    } else {
        Seq::empty()
    }
}

/// The tally entries of a roll-call table: yes, no and abstain in that order.
pub open spec fn roll_call_entries(parsed: ParsedRollCallTable) -> Seq<(Seq<char>, Seq<char>, u32)> {
    rc_entries(parsed.shape, parsed.counts)
}

/// The tallies of result `rid` and kind `kind` for `entries`, labelled by their keys.
pub open spec fn entry_tallies(rid: Seq<char>, kind: Seq<char>, e: Seq<(Seq<char>, Seq<char>, u32)>) -> Seq<TallyView> {
    e.map_values(|x: (Seq<char>, Seq<char>, u32)| (rid, kind, x.0, x.0, x.0, x.1, x.2, false))
}

/// The tally entries of a roll-call table of this shape and counts.
pub open spec fn rc_entries(shape: RollCallTableShape, c: RollCallCounts) -> Seq<(Seq<char>, Seq<char>, u32)> {
    let lg = shape == RollCallTableShape::LanguageGroup;
    position_entries("yes"@, c.yes, c.yes_nl, c.yes_fr, lg) + position_entries("no"@, c.no, c.no_nl, c.no_fr, lg)
        + position_entries("abstain"@, c.abstain, c.abstain_nl, c.abstain_fr, lg)
}

/// The tally entries of a secret-ballot table: the statistics it gives, in order.
pub open spec fn secret_entries(secret: ParsedSecretTable) -> Seq<(Seq<char>, Seq<char>, u32)> {
    statistic_entry("voters"@, secret.voters) + statistic_entry("valid"@, secret.valid)
        + statistic_entry("blank_invalid"@, secret.blank_invalid)
        + statistic_entry("majority_threshold"@, secret.majority_threshold)
}

pub open spec fn statistic_entry(key: Seq<char>, value: Option<u32>) -> Seq<(Seq<char>, Seq<char>, u32)> {
    match value {
        Some(c) => seq![(key, "overall"@, c)],
        None => Seq::empty(),
    }
}

fn push_one_tally(
    tallies: &mut Vec<VoteTallyDraft>,
    result_id: &str,
    kind: &str,
    key: &str,
    dimension: &str,
    count: u32,
    results: Ghost<Seq<VoteResultDraft>>,
)
    requires
        tallies_known(old(tallies)@, results@),
        result_known(results@, result_id@),
    ensures
        tallies_known(final(tallies)@, results@),
        tallies_added(old(tallies)@, final(tallies)@, result_id@, kind@, seq![(key@, dimension@, count)]),
{
    let ghost before = tallies@;
    push_tally(tallies, result_id, kind, key, key, key, dimension, count, false);
    proof {
        assert(tallies@.take(before.len() as int) =~= before);
        assert(seq![(key@, dimension@, count)][0] == (key@, dimension@, count));
        assert forall|k: int| 0 <= k < tallies@.len() implies result_known(results@, (#[trigger] tallies@[k]).result_id@) by {
            if k < before.len() {
                assert(tallies@[k] == before[k]);
            }
        }
    }
}

fn push_position_tallies(
    tallies: &mut Vec<VoteTallyDraft>,
    result_id: &str,
    key: &str,
    overall: Option<u32>,
    nl: Option<u32>,
    fr: Option<u32>,
    language_group: bool,
    results: Ghost<Seq<VoteResultDraft>>,
)
    requires
        tallies_known(old(tallies)@, results@),
        result_known(results@, result_id@),
    ensures
        tallies_known(final(tallies)@, results@),
        tallies_added(old(tallies)@, final(tallies)@, result_id@, "position"@, position_entries(key@, overall, nl, fr, language_group)),
{
    let ghost t0 = tallies@;
    match overall {
        Some(count) => {
            push_one_tally(tallies, result_id, "position", key, "overall", count, results);
        },
        None => {
            assert(tallies@.take(t0.len() as int) =~= t0);
        },
    }
    let ghost t1 = tallies@;
    let ghost e1: Seq<(Seq<char>, Seq<char>, u32)> = match overall {
        Some(c) => seq![(key@, "overall"@, c)],
        None => Seq::empty(),
    };
    let ghost e2: Seq<(Seq<char>, Seq<char>, u32)> = if language_group {
        match (nl, fr) {
            (Some(n), Some(f)) => seq![(key@, "nl_group"@, n), (key@, "fr_group"@, f)],
            _ => Seq::empty(),
        }
    } else {
        Seq::empty()
    };
    let mut done = false;
    if language_group {
        match (nl, fr) {
            (Some(n), Some(f)) => {
                push_one_tally(tallies, result_id, "position", key, "nl_group", n, results);
                let ghost t2 = tallies@;
                push_one_tally(tallies, result_id, "position", key, "fr_group", f, results);
                proof {
                    lemma_tallies_added_chain(t1, t2, tallies@, result_id@, "position"@, seq![(key@, "nl_group"@, n)], seq![(key@, "fr_group"@, f)]);
                    assert(seq![(key@, "nl_group"@, n)] + seq![(key@, "fr_group"@, f)] =~= e2);
                }
                done = true;
            },
            _ => {},
        }
    }
    proof {
        if !done {
            assert(tallies@.take(t1.len() as int) =~= t1);
            assert(tallies_added(t1, tallies@, result_id@, "position"@, e2));
        }
        lemma_tallies_added_chain(t0, t1, tallies@, result_id@, "position"@, e1, e2);
        assert(e1 + e2 =~= position_entries(key@, overall, nl, fr, language_group));
    }
}

fn push_roll_call_tallies(
    tallies: &mut Vec<VoteTallyDraft>,
    result_id: &str,
    parsed: &ParsedRollCallTable,
    results: Ghost<Seq<VoteResultDraft>>,
)
    requires
        tallies_known(old(tallies)@, results@),
        result_known(results@, result_id@),
    ensures
        tallies_known(final(tallies)@, results@),
        tallies_added(old(tallies)@, final(tallies)@, result_id@, "position"@, roll_call_entries(*parsed)),
        tallies_view(final(tallies)@) == tallies_view(old(tallies)@) + entry_tallies(result_id@, "position"@, rc_entries(parsed.shape, parsed.counts)),
{
    let c = parsed.counts;
    let lg = parsed.shape == RollCallTableShape::LanguageGroup;
    let ghost t0 = tallies@;
    push_position_tallies(tallies, result_id, "yes", c.yes, c.yes_nl, c.yes_fr, lg, results);
    let ghost t1 = tallies@;
    push_position_tallies(tallies, result_id, "no", c.no, c.no_nl, c.no_fr, lg, results);
    let ghost t2 = tallies@;
    push_position_tallies(tallies, result_id, "abstain", c.abstain, c.abstain_nl, c.abstain_fr, lg, results);
    proof {
        let e1 = position_entries("yes"@, c.yes, c.yes_nl, c.yes_fr, lg);
        let e2 = position_entries("no"@, c.no, c.no_nl, c.no_fr, lg);
        let e3 = position_entries("abstain"@, c.abstain, c.abstain_nl, c.abstain_fr, lg);
        lemma_tallies_added_chain(t0, t1, t2, result_id@, "position"@, e1, e2);
        lemma_tallies_added_chain(t0, t2, tallies@, result_id@, "position"@, e1 + e2, e3);
        assert(e1 + e2 + e3 == roll_call_entries(*parsed));
        lemma_tallies_view(t0, tallies@, result_id@, "position"@, roll_call_entries(*parsed));
    }
}

fn push_statistic(
    tallies: &mut Vec<VoteTallyDraft>,
    result_id: &str,
    key: &str,
    value: Option<u32>,
    results: Ghost<Seq<VoteResultDraft>>,
)
    requires
        tallies_known(old(tallies)@, results@),
        result_known(results@, result_id@),
    ensures
        tallies_known(final(tallies)@, results@),
        tallies_added(old(tallies)@, final(tallies)@, result_id@, "statistic"@, statistic_entry(key@, value)),
{
    match value {
        Some(count) => {
            push_one_tally(tallies, result_id, "statistic", key, "overall", count, results);
        },
        None => {
            assert(tallies@.take(tallies@.len() as int) =~= tallies@);
        },
    }
}

fn push_secret_tallies(
    tallies: &mut Vec<VoteTallyDraft>,
    result_id: &str,
    secret: &ParsedSecretTable,
    results: Ghost<Seq<VoteResultDraft>>,
)
    requires
        tallies_known(old(tallies)@, results@),
        result_known(results@, result_id@),
    ensures
        tallies_known(final(tallies)@, results@),
        tallies_added(old(tallies)@, final(tallies)@, result_id@, "statistic"@, secret_entries(*secret)),
        tallies_view(final(tallies)@) == tallies_view(old(tallies)@) + entry_tallies(result_id@, "statistic"@, secret_entries(*secret)),
{
    let ghost t0 = tallies@;
    push_statistic(tallies, result_id, "voters", secret.voters, results);
    let ghost t1 = tallies@;
    push_statistic(tallies, result_id, "valid", secret.valid, results);
    let ghost t2 = tallies@;
    push_statistic(tallies, result_id, "blank_invalid", secret.blank_invalid, results);
    let ghost t3 = tallies@;
    push_statistic(tallies, result_id, "majority_threshold", secret.majority_threshold, results);
    proof {
        let e1 = statistic_entry("voters"@, secret.voters);
        let e2 = statistic_entry("valid"@, secret.valid);
        let e3 = statistic_entry("blank_invalid"@, secret.blank_invalid);
        let e4 = statistic_entry("majority_threshold"@, secret.majority_threshold);
        lemma_tallies_added_chain(t0, t1, t2, result_id@, "statistic"@, e1, e2);
        lemma_tallies_added_chain(t0, t2, t3, result_id@, "statistic"@, e1 + e2, e3);
        lemma_tallies_added_chain(t0, t3, tallies@, result_id@, "statistic"@, e1 + e2 + e3, e4);
        assert(e1 + e2 + e3 + e4 == secret_entries(*secret));
        lemma_tallies_view(t0, tallies@, result_id@, "statistic"@, secret_entries(*secret));
    }
}

/// The first outcome among the blocks `t + k + 1 ..= t + 5`, with the index of its block,
/// stopping at a table.
pub open spec fn roll_call_outcome_from(blocks: Seq<ReportBlock>, t: int, k: int) -> Option<(Seq<char>, u32)>
    decreases 5 - k,
{
    if k >= 5 || t >= blocks.len() || k + 1 >= blocks.len() - t {
        None
    } else {
        let b = blocks[t + k + 1];
        if b.tag == BlockTag::Table {
            None
        } else {
            match outcome_of(b.text@) {
                Some(o) => Some((o, b.index)),
                None => roll_call_outcome_from(blocks, t, k + 1),
            }
        }
    }
}

/// The first outcome (or absolute-majority statement, read as adopted) among the blocks
/// `t + k + 1 ..= t + 8`, with the index of its block, stopping at a table or H1.
pub open spec fn secret_outcome_from(blocks: Seq<ReportBlock>, t: int, k: int) -> Option<(Seq<char>, u32)>
    decreases 8 - k,
{
    if k >= 8 || t >= blocks.len() || k + 1 >= blocks.len() - t {
        None
    } else {
        let b = blocks[t + k + 1];
        if b.tag == BlockTag::Table || b.tag == BlockTag::H1 {
            None
        } else {
            match outcome_of(b.text@) {
                Some(o) => Some((o, b.index)),
                None => if contains(lowercase(b.text@), "meerderheid bekomen"@) || contains(
                    lowercase(b.text@),
                    "majorité absolue"@,
                ) {
                    Some(("adopted"@, b.index))
                } else {
                    secret_outcome_from(blocks, t, k + 1)
                },
            }
        }
    }
}

/// The first outcome within five blocks after a roll-call table, stopping at a table.
fn infer_roll_call_outcome(blocks: &[ReportBlock], table_idx: usize) -> (r: Option<(String, u32)>)
    requires
        indices_below_max(blocks@),
    ensures
        r matches Some((_, i)) ==> i < u32::MAX,
        match r {
            Some((o, i)) => roll_call_outcome_from(blocks@, table_idx as int, 0) == Some((o@, i)),
            None => roll_call_outcome_from(blocks@, table_idx as int, 0) is None,
        },
{
    let mut k: usize = 0;
    while k < 5
        invariant
            k <= 5,
            indices_below_max(blocks@),
            roll_call_outcome_from(blocks@, table_idx as int, 0) == roll_call_outcome_from(blocks@, table_idx as int, k as int),
        decreases 5 - k,
    {
        if table_idx >= blocks.len() || k + 1 >= blocks.len() - table_idx {
            return None;
        }
        let block = &blocks[table_idx + k + 1];
        if block.tag == BlockTag::Table {
            return None;
        }
        match formal_outcome(block.text.as_str()) {
            Some(outcome) => {
                return Some((outcome.to_string(), block.index));
            },
            None => {},
        }
        k = k + 1;
    }
    None
}

/// The first outcome (or absolute-majority statement) within eight blocks after a
/// secret-ballot table, stopping at a table or H1.
fn infer_secret_outcome(blocks: &[ReportBlock], table_idx: usize) -> (r: Option<(String, u32)>)
    requires
        indices_below_max(blocks@),
    ensures
        r matches Some((_, i)) ==> i < u32::MAX,
        match r {
            Some((o, i)) => secret_outcome_from(blocks@, table_idx as int, 0) == Some((o@, i)),
            None => secret_outcome_from(blocks@, table_idx as int, 0) is None,
        },
{
    let mut k: usize = 0;
    while k < 8
        invariant
            k <= 8,
            indices_below_max(blocks@),
            secret_outcome_from(blocks@, table_idx as int, 0) == secret_outcome_from(blocks@, table_idx as int, k as int),
        decreases 8 - k,
    {
        if table_idx >= blocks.len() || k + 1 >= blocks.len() - table_idx {
            return None;
        }
        let block = &blocks[table_idx + k + 1];
        if block.tag == BlockTag::Table || block.tag == BlockTag::H1 {
            return None;
        }
        match formal_outcome(block.text.as_str()) {
            Some(outcome) => {
                return Some((outcome.to_string(), block.index));
            },
            None => {},
        }
        let lower = to_lower(block.text.as_str());
        if str_contains(lower.as_str(), "meerderheid bekomen") || str_contains(lower.as_str(), "majorité absolue") {
            return Some(("adopted".to_string(), block.index));
        }
        k = k + 1;
    }
    None
}

/// A tally as plain values: result, kind, option key, Dutch and French labels, dimension,
/// count, selected.
pub type TallyView = (Seq<char>, Seq<char>, Seq<char>, Seq<char>, Seq<char>, Seq<char>, u32, bool);

/// A span as plain values: entity type, entity id, role, start, end, coverage, fields.
pub type SpanView = (Seq<char>, Seq<char>, Seq<char>, u32, u32, Seq<char>, Seq<char>);

pub open spec fn tally_view(t: VoteTallyDraft) -> TallyView {
    (t.result_id@, t.tally_kind@, t.option_key@, t.label_nl@, t.label_fr@, t.dimension@, t.count, t.selected)
}

pub open spec fn span_view(s: SpanEvidence) -> SpanView {
    (s.entity_type@, s.entity_id@, s.span_role@, s.block_start, s.block_end, s.coverage_kind@, s.field_names@)
}

pub open spec fn tallies_view(ts: Seq<VoteTallyDraft>) -> Seq<TallyView> {
    ts.map_values(|t: VoteTallyDraft| tally_view(t))
}

pub open spec fn spans_view(ss: Seq<SpanEvidence>) -> Seq<SpanView> {
    ss.map_values(|s: SpanEvidence| span_view(s))
}

/// The candidate name and vote count of one candidate-tally match (0 when the count does
/// not parse).
pub open spec fn candidate_of(caps: Seq<Option<Seq<char>>>) -> (Seq<char>, u32) {
    (trim(group_text(caps, 1)), match group(caps, 2) {
        Some(n) => match parse_u32(n) {
            Some(v) => v,
            None => 0,
        },
        None => 0,
    })
}

/// Some tally of result `rid` has option key `key`.
pub open spec fn has_option(ts: Seq<TallyView>, rid: Seq<char>, key: Seq<char>) -> bool {
    exists|i: int| 0 <= i < ts.len() && (#[trigger] ts[i]).0 == rid && ts[i].2 == key
}

/// One candidate match of a block: a new candidate tally (selected when the block says
/// someone was elected) with its span, unless the result already has that candidate.
pub open spec fn candidate_step(
    st: (Seq<TallyView>, Seq<SpanView>),
    rid: Seq<char>,
    block: ReportBlock,
    caps: Seq<Option<Seq<char>>>,
) -> (Seq<TallyView>, Seq<SpanView>) {
    let lower = lowercase(block.text@);
    let (name, count) = candidate_of(caps);
    let key = "candidate_"@ + name;
    if has_option(st.0, rid, key) {
        st
    } else {
        (
            st.0.push((rid, "candidate"@, key, name, name, "overall"@, count, contains(lower, "gekozen"@) || contains(lower, "élu"@))),
            st.1.push(("VoteResult"@, rid, "candidate_tally"@, block.index, (block.index + 1) as u32, "extraction"@, "count,selected"@)),
        )
    }
}

pub open spec fn candidates_of_block(
    st: (Seq<TallyView>, Seq<SpanView>),
    rid: Seq<char>,
    block: ReportBlock,
    all: Seq<Seq<Option<Seq<char>>>>,
    n: int,
) -> (Seq<TallyView>, Seq<SpanView>)
    decreases n,
{
    if n <= 0 || n > all.len() {
        st
    } else {
        candidate_step(candidates_of_block(st, rid, block, all, n - 1), rid, block, all[n - 1])
    }
}

/// The block proclaims an election.
pub open spec fn proclaims(lower: Seq<char>) -> bool {
    contains(lower, "gekozen"@) || contains(lower, "verkozen"@) || contains(lower, "est élu"@) || contains(
        lower,
        "est élue"@,
    ) || contains(lower, "wordt uitgeroepen"@)
}

/// Candidate tallies of `rid` whose Dutch label the block names become selected.
pub open spec fn mark_named(ts: Seq<TallyView>, rid: Seq<char>, lower: Seq<char>) -> Seq<TallyView> {
    ts.map_values(
        |t: TallyView|
            if t.0 == rid && t.1 == "candidate"@ && contains(lower, lowercase(t.3)) {
                (t.0, t.1, t.2, t.3, t.4, t.5, t.6, true)
            } else {
                t
            },
    )
}

/// What one block after the table adds: its candidate tallies, then, for a proclamation,
/// the selected marks and a proclamation span.
pub open spec fn candidate_block(st: (Seq<TallyView>, Seq<SpanView>), rid: Seq<char>, block: ReportBlock) -> (Seq<TallyView>, Seq<SpanView>) {
    let all = regex_captures_all(CANDIDATE_TALLY_PATTERN@, block.text@);
    let st1 = candidates_of_block(st, rid, block, all, all.len() as int);
    let lower = lowercase(block.text@);
    if proclaims(lower) {
        (
            mark_named(st1.0, rid, lower),
            st1.1.push(("VoteResult"@, rid, "proclamation"@, block.index, (block.index + 1) as u32, "extraction"@, "selected,outcome"@)),
        )
    } else {
        st1
    }
}

/// The candidate tallies and spans after the table at `t`, from its `k + 1`-th following
/// block on, up to twelve blocks and stopping at a table or heading.
pub open spec fn candidates_after(blocks: Seq<ReportBlock>, t: int, k: int, st: (Seq<TallyView>, Seq<SpanView>), rid: Seq<char>) -> (Seq<TallyView>, Seq<SpanView>)
    decreases 12 - k,
{
    if k >= 12 || t >= blocks.len() || k + 1 >= blocks.len() - t {
        st
    } else {
        let b = blocks[t + k + 1];
        if b.tag == BlockTag::Table || b.tag == BlockTag::H1 || b.tag == BlockTag::H2 {
            st
        } else {
            candidates_after(blocks, t, k + 1, candidate_block(st, rid, b), rid)
        }
    }
}

/// The view with the candidate tallies and spans found after the table at `t`.
pub open spec fn with_candidates(v: AssemblyView, blocks: Seq<ReportBlock>, t: int, rid: Seq<char>) -> AssemblyView {
    let c = candidates_after(blocks, t, 0, (v.tallies, v.spans), rid);
    AssemblyView { tallies: c.0, spans: c.1, ..v }
}

/// Candidate tallies and proclamations in the twelve blocks after a secret-ballot table.
fn attach_secret_candidates_after_table(
    blocks: &[ReportBlock],
    table_idx: usize,
    result_id: &str,
    out: &mut VoteAssemblyOutput,
    session_id: u32,
    meeting_id: u32,
    date: Ghost<Seq<char>>,
    source_url: Ghost<Seq<char>>,
    cache_path: Ghost<Seq<char>>,
)
    requires
        indices_below_max(blocks@),
        result_known(old(out).results@, result_id@),
        assembly_ok(*old(out), session_id, meeting_id, date@, source_url@, cache_path@),
    ensures
        assembly_ok(*final(out), session_id, meeting_id, date@, source_url@, cache_path@),
        final(out).decisions == old(out).decisions,
        final(out).results == old(out).results,
        final(out).members == old(out).members,
        final(out).unresolved_events == old(out).unresolved_events,
        (tallies_view(final(out).tallies@), spans_view(final(out).span_evidence@)) == candidates_after(
            blocks@,
            table_idx as int,
            0,
            (tallies_view(old(out).tallies@), spans_view(old(out).span_evidence@)),
            result_id@,
        ),
        assembly_view(*final(out)) == with_candidates(assembly_view(*old(out)), blocks@, table_idx as int, result_id@),
{
    let ghost rid = result_id@;
    let mut k: usize = 0;
    while k < 12
        invariant
            k <= 12,
            indices_below_max(blocks@),
            result_known(out.results@, result_id@),
            assembly_ok(*out, session_id, meeting_id, date@, source_url@, cache_path@),
            out.decisions == old(out).decisions,
            out.results == old(out).results,
            out.members == old(out).members,
            out.unresolved_events == old(out).unresolved_events,
            rid == result_id@,
            candidates_after(blocks@, table_idx as int, 0, (tallies_view(old(out).tallies@), spans_view(old(out).span_evidence@)), rid)
                == candidates_after(blocks@, table_idx as int, k as int, (tallies_view(out.tallies@), spans_view(out.span_evidence@)), rid),
        decreases 12 - k,
    {
        if table_idx >= blocks.len() || k + 1 >= blocks.len() - table_idx {
            return;
        }
        let block = &blocks[table_idx + k + 1];
        if block.tag == BlockTag::Table || block.tag == BlockTag::H1 || block.tag == BlockTag::H2 {
            return;
        }
        let ghost st0 = (tallies_view(out.tallies@), spans_view(out.span_evidence@));
        let lower = to_lower(block.text.as_str());
        let all = re_captures_all(CANDIDATE_TALLY_PATTERN, block.text.as_str());
        let ghost gall = all.deep_view();
        let mut c: usize = 0;
        while c < all.len()
            invariant
                c <= all.len(),
                indices_below_max(blocks@),
                block.index < u32::MAX,
                result_known(out.results@, result_id@),
                assembly_ok(*out, session_id, meeting_id, date@, source_url@, cache_path@),
                out.decisions == old(out).decisions,
                out.results == old(out).results,
                out.members == old(out).members,
                out.unresolved_events == old(out).unresolved_events,
                rid == result_id@,
                gall == all.deep_view(),
                gall == regex_captures_all(CANDIDATE_TALLY_PATTERN@, block.text@),
                lower@ == lowercase(block.text@),
                (tallies_view(out.tallies@), spans_view(out.span_evidence@)) == candidates_of_block(st0, rid, *block, gall, c as int),
            decreases all.len() - c,
        {
            let caps = &all[c];
            assert(gall[c as int] == caps.deep_view());
            let raw = group_at(caps, 1);
            let raw_name = match raw {
                Some(n) => n,
                None => String::new(),
            };
            assert(raw_name@ == group_text(gall[c as int], 1));
            let name = trim_str(raw_name.as_str());
            let cnt = group_at(caps, 2);
            let count = match cnt {
                Some(n) => match parse_u32_str(n.as_str()) {
                    Some(v) => v,
                    None => 0,
                },
                None => 0,
            };
            assert((name@, count) == candidate_of(gall[c as int]));
            let mut key = owned("candidate_");
            push_str(&mut key, name.as_str());
            let mut exists_already = false;
            let mut t: usize = 0;
            while t < out.tallies.len()
                invariant
                    t <= out.tallies.len(),
                    exists_already <==> exists|i: int|
                        0 <= i < t && (#[trigger] out.tallies@[i]).result_id@ == result_id@ && out.tallies@[i].option_key@ == key@,
                decreases out.tallies.len() - t,
            {
                if str_eq(out.tallies[t].result_id.as_str(), result_id) && str_eq(out.tallies[t].option_key.as_str(), key.as_str()) {
                    exists_already = true;
                }
                t = t + 1;
            }
            let ghost stc = (tallies_view(out.tallies@), spans_view(out.span_evidence@));
            proof {
                assert(exists_already == has_option(stc.0, rid, key@)) by {
                    if exists_already {
                        let i = choose|i: int|
                            0 <= i < out.tallies@.len() && (#[trigger] out.tallies@[i]).result_id@ == result_id@ && out.tallies@[i].option_key@ == key@;
                        assert(stc.0[i] == tally_view(out.tallies@[i]));
                    }
                    if has_option(stc.0, rid, key@) {
                        let i = choose|i: int| 0 <= i < stc.0.len() && (#[trigger] stc.0[i]).0 == rid && stc.0[i].2 == key@;
                        assert(stc.0[i] == tally_view(out.tallies@[i]));
                    }
                }
                assert(gall.take(c + 1).len() == c + 1);
            }
            if !exists_already {
                let selected = str_contains(lower.as_str(), "gekozen") || str_contains(lower.as_str(), "élu");
                let ghost before = *out;
                push_tally(&mut out.tallies, result_id, "candidate", key.as_str(), name.as_str(), name.as_str(), "overall", count, selected);
                proof {
                    assert forall|j: int| 0 <= j < out.span_evidence@.len() implies span_ok(*out, #[trigger] out.span_evidence@[j]) by {
                        assert(span_ok(before, before.span_evidence@[j]));
                    }
                    assert forall|j: int| 0 <= j < out.tallies@.len() implies result_known(out.results@, (#[trigger] out.tallies@[j]).result_id@) by {
                        if j < before.tallies@.len() {
                            assert(out.tallies@[j] == before.tallies@[j]);
                        }
                    }
                    assert forall|j: int| 0 <= j < out.decisions@.len() implies #[trigger] decision_ok(*out, j, session_id, meeting_id, date@, source_url@, cache_path@) by {
                        assert(decision_ok(before, j, session_id, meeting_id, date@, source_url@, cache_path@));
                    }
                    assert forall|j: int| 0 <= j < out.results@.len() implies #[trigger] result_ok(*out, j, session_id, meeting_id, source_url@, cache_path@) by {
                        assert(result_ok(before, j, session_id, meeting_id, source_url@, cache_path@));
                    }
                }
                let ghost before2 = *out;
                push_span(out, "VoteResult", result_id, "candidate_tally", block.index, "extraction", "count,selected");
                proof {
                    lemma_span_push_keeps(before2, *out, session_id, meeting_id, date@, source_url@, cache_path@);
                    assert(tallies_view(out.tallies@) =~= stc.0.push(tally_view(out.tallies@.last())));
                    assert(spans_view(out.span_evidence@) =~= stc.1.push(span_view(out.span_evidence@.last())));
                }
            }
            proof {
                assert(candidates_of_block(st0, rid, *block, gall, c + 1) == candidate_step(stc, rid, *block, gall[c as int]));
            }
            c = c + 1;
        }
        let ghost st1 = (tallies_view(out.tallies@), spans_view(out.span_evidence@));
        let proclamation = str_contains(lower.as_str(), "gekozen") || str_contains(lower.as_str(), "verkozen")
            || str_contains(lower.as_str(), "est élu") || str_contains(lower.as_str(), "est élue")
            || str_contains(lower.as_str(), "wordt uitgeroepen");
        if proclamation {
            let mut t: usize = 0;
            while t < out.tallies.len()
                invariant
                    t <= out.tallies.len(),
                    result_known(out.results@, result_id@),
                    assembly_ok(*out, session_id, meeting_id, date@, source_url@, cache_path@),
                    out.decisions == old(out).decisions,
                    out.results == old(out).results,
                    out.members == old(out).members,
                    out.unresolved_events == old(out).unresolved_events,
                    spans_view(out.span_evidence@) == st1.1,
                    out.tallies@.len() == st1.0.len(),
                    lower@ == lowercase(block.text@),
                    rid == result_id@,
                    forall|i: int| 0 <= i < t ==> tally_view(#[trigger] out.tallies@[i]) == mark_named(st1.0, rid, lower@)[i],
                    forall|i: int| t <= i < out.tallies@.len() ==> tally_view(#[trigger] out.tallies@[i]) == st1.0[i],
                decreases out.tallies.len() - t,
            {
                let is_candidate = str_eq(out.tallies[t].result_id.as_str(), result_id)
                    && str_eq(out.tallies[t].tally_kind.as_str(), "candidate");
                let label = to_lower(out.tallies[t].label_nl.as_str());
                let named = str_contains(lower.as_str(), label.as_str());
                if is_candidate && named {
                    let ghost before = *out;
                    let marked = VoteTallyDraft {
                        result_id: out.tallies[t].result_id.clone(),
                        tally_kind: out.tallies[t].tally_kind.clone(),
                        option_key: out.tallies[t].option_key.clone(),
                        label_nl: out.tallies[t].label_nl.clone(),
                        label_fr: out.tallies[t].label_fr.clone(),
                        dimension: out.tallies[t].dimension.clone(),
                        count: out.tallies[t].count,
                        selected: true,
                    };
                    out.tallies.set(t, marked);
                    proof {
                        assert forall|j: int| 0 <= j < out.span_evidence@.len() implies span_ok(*out, #[trigger] out.span_evidence@[j]) by {
                            assert(span_ok(before, before.span_evidence@[j]));
                        }
                        assert forall|j: int| 0 <= j < out.tallies@.len() implies result_known(out.results@, (#[trigger] out.tallies@[j]).result_id@) by {
                            if j != t {
                                assert(out.tallies@[j] == before.tallies@[j]);
                            } else {
                                assert(out.tallies@[j].result_id@ == before.tallies@[j].result_id@);
                            }
                        }
                        assert forall|j: int| 0 <= j < out.decisions@.len() implies #[trigger] decision_ok(*out, j, session_id, meeting_id, date@, source_url@, cache_path@) by {
                            assert(decision_ok(before, j, session_id, meeting_id, date@, source_url@, cache_path@));
                        }
                        assert forall|j: int| 0 <= j < out.results@.len() implies #[trigger] result_ok(*out, j, session_id, meeting_id, source_url@, cache_path@) by {
                            assert(result_ok(before, j, session_id, meeting_id, source_url@, cache_path@));
                        }
                        assert forall|i: int| 0 <= i < t + 1 implies tally_view(#[trigger] out.tallies@[i]) == mark_named(st1.0, rid, lower@)[i] by {
                            if i < t {
                                assert(out.tallies@[i] == before.tallies@[i]);
                            }
                        }
                        assert forall|i: int| t + 1 <= i < out.tallies@.len() implies tally_view(#[trigger] out.tallies@[i]) == st1.0[i] by {
                            assert(out.tallies@[i] == before.tallies@[i]);
                        }
                    }
                } else {
                    proof {
                        assert(tally_view(out.tallies@[t as int]) == st1.0[t as int]);
                        assert(mark_named(st1.0, rid, lower@)[t as int] == st1.0[t as int]);
                    }
                }
                t = t + 1;
            }
            let ghost before2 = *out;
            push_span(out, "VoteResult", result_id, "proclamation", block.index, "extraction", "selected,outcome");
            proof {
                lemma_span_push_keeps(before2, *out, session_id, meeting_id, date@, source_url@, cache_path@);
                assert(tallies_view(out.tallies@) =~= mark_named(st1.0, rid, lower@));
                assert(spans_view(out.span_evidence@) =~= st1.1.push(span_view(out.span_evidence@.last())));
            }
        }
        proof {
            assert(gall.len() == all@.len());
            assert(st1 == candidates_of_block(st0, rid, *block, gall, gall.len() as int));
            assert(blocks@[table_idx + k + 1] == *block);
            assert((tallies_view(out.tallies@), spans_view(out.span_evidence@)) == candidate_block(st0, rid, *block));
        }
        k = k + 1;
    }
}

proof fn lemma_tallies_view(a: Seq<VoteTallyDraft>, b: Seq<VoteTallyDraft>, rid: Seq<char>, kind: Seq<char>, e: Seq<(Seq<char>, Seq<char>, u32)>)
    requires
        tallies_added(a, b, rid, kind, e),
    ensures
        tallies_view(b) == tallies_view(a) + e.map_values(|x: (Seq<char>, Seq<char>, u32)| (rid, kind, x.0, x.0, x.0, x.1, x.2, false)),
{
    let r = tallies_view(a) + e.map_values(|x: (Seq<char>, Seq<char>, u32)| (rid, kind, x.0, x.0, x.0, x.1, x.2, false));
    assert forall|i: int| 0 <= i < b.len() implies tallies_view(b)[i] == r[i] by {
        if i < a.len() {
            assert(b[i] == b.take(a.len() as int)[i]);
        } else {
            assert(e[i - a.len()] == e[i - a.len()]);
        }
    }
    assert(tallies_view(b) =~= r);
}

proof fn lemma_spans_view(a: Seq<SpanEvidence>, b: Seq<SpanEvidence>, et: Seq<char>, id: Seq<char>, e: Seq<(Seq<char>, u32, Seq<char>)>)
    requires
        spans_added(a, b, et, id, e),
    ensures
        spans_view(b) == spans_view(a) + e.map_values(|x: (Seq<char>, u32, Seq<char>)| span_of(et, id, x.0, x.1, x.2)),
{
    let r = spans_view(a) + e.map_values(|x: (Seq<char>, u32, Seq<char>)| span_of(et, id, x.0, x.1, x.2));
    assert forall|i: int| 0 <= i < b.len() implies spans_view(b)[i] == r[i] by {
        if i < a.len() {
            assert(b[i] == b.take(a.len() as int)[i]);
        } else {
            assert(e[i - a.len()] == e[i - a.len()]);
        }
    }
    assert(spans_view(b) =~= r);
}

proof fn lemma_members_view(a: Seq<VoteResultMemberDraft>, b: Seq<VoteResultMemberDraft>, rid: Seq<char>, e: Seq<(Seq<char>, u32, Seq<char>)>)
    requires
        members_added(a, b, rid, e),
    ensures
        b.map_values(|m: VoteResultMemberDraft| member_view(m)) == a.map_values(|m: VoteResultMemberDraft| member_view(m))
            + e.map_values(|x: (Seq<char>, u32, Seq<char>)| (rid, x.0, x.1, x.2)),
{
    let r = a.map_values(|m: VoteResultMemberDraft| member_view(m)) + e.map_values(|x: (Seq<char>, u32, Seq<char>)| (rid, x.0, x.1, x.2));
    assert forall|i: int| 0 <= i < b.len() implies b.map_values(|m: VoteResultMemberDraft| member_view(m))[i] == r[i] by {
        if i < a.len() {
            assert(b[i] == b.take(a.len() as int)[i]);
        } else {
            assert(member_is(b[a.len() + (i - a.len())], rid, e[i - a.len()]));
        }
    }
    assert(b.map_values(|m: VoteResultMemberDraft| member_view(m)) =~= r);
}

/// Adding one well-formed span keeps the assembly invariant.
proof fn lemma_span_push_keeps(
    before: VoteAssemblyOutput,
    after: VoteAssemblyOutput,
    session_id: u32,
    meeting_id: u32,
    date: Seq<char>,
    source_url: Seq<char>,
    cache_path: Seq<char>,
)
    requires
        assembly_ok(before, session_id, meeting_id, date, source_url, cache_path),
        after.decisions == before.decisions,
        after.results == before.results,
        after.tallies == before.tallies,
        after.members == before.members,
        after.unresolved_events == before.unresolved_events,
        after.span_evidence@ == before.span_evidence@.push(after.span_evidence@.last()),
        span_ok(after, after.span_evidence@.last()),
    ensures
        assembly_ok(after, session_id, meeting_id, date, source_url, cache_path),
{
    assert forall|j: int| 0 <= j < after.span_evidence@.len() implies span_ok(after, #[trigger] after.span_evidence@[j]) by {
        if j < before.span_evidence@.len() {
            assert(span_ok(before, before.span_evidence@[j]));
            assert(after.span_evidence@[j] == before.span_evidence@[j]);
        }
    }
    assert forall|j: int| 0 <= j < after.decisions@.len() implies #[trigger] decision_ok(after, j, session_id, meeting_id, date, source_url, cache_path) by {
        assert(decision_ok(before, j, session_id, meeting_id, date, source_url, cache_path));
    }
    assert forall|j: int| 0 <= j < after.results@.len() implies #[trigger] result_ok(after, j, session_id, meeting_id, source_url, cache_path) by {
        assert(result_ok(before, j, session_id, meeting_id, source_url, cache_path));
    }
}

// ---------------------------------------------------------------------------
// Growing the output while keeping `assembly_ok`
// ---------------------------------------------------------------------------

fn add_span(
    out: &mut VoteAssemblyOutput,
    entity_type: &str,
    entity_id: &str,
    role: &str,
    start: u32,
    fields: &str,
    session_id: u32,
    meeting_id: u32,
    date: Ghost<Seq<char>>,
    source_url: Ghost<Seq<char>>,
    cache_path: Ghost<Seq<char>>,
)
    requires
        start < u32::MAX,
        (entity_type@ == "Vote"@ && decision_known(old(out).decisions@, entity_id@)) || (
        entity_type@ == "VoteResult"@ && result_known(old(out).results@, entity_id@)),
        assembly_ok(*old(out), session_id, meeting_id, date@, source_url@, cache_path@),
    ensures
        assembly_ok(*final(out), session_id, meeting_id, date@, source_url@, cache_path@),
        final(out).decisions == old(out).decisions,
        final(out).results == old(out).results,
        one_span_added(*old(out), *final(out)),
        span_is(final(out).span_evidence@.last(), entity_type@, entity_id@, role@, start, "extraction"@, fields@),
        assembly_view(*final(out)) == with_span(assembly_view(*old(out)), entity_type@, entity_id@, role@, start, fields@),
{
    let ghost before = *out;
    push_span(out, entity_type, entity_id, role, start, "extraction", fields);
    proof {
        lemma_span_push_keeps(before, *out, session_id, meeting_id, date@, source_url@, cache_path@);
        assert(assembly_view(*out).spans =~= assembly_view(before).spans.push(span_of(entity_type@, entity_id@, role@, start, fields@)));
    }
}

fn add_title_spans(
    out: &mut VoteAssemblyOutput,
    vote_id: &str,
    title: &TitleRefs,
    session_id: u32,
    meeting_id: u32,
    date: Ghost<Seq<char>>,
    source_url: Ghost<Seq<char>>,
    cache_path: Ghost<Seq<char>>,
)
    requires
        refs_ok(*title),
        decision_known(old(out).decisions@, vote_id@),
        assembly_ok(*old(out), session_id, meeting_id, date@, source_url@, cache_path@),
    ensures
        assembly_ok(*final(out), session_id, meeting_id, date@, source_url@, cache_path@),
        final(out).decisions == old(out).decisions,
        final(out).results == old(out).results,
        final(out).tallies == old(out).tallies,
        final(out).members == old(out).members,
        final(out).unresolved_events == old(out).unresolved_events,
        title_spans_added(old(out).span_evidence@, final(out).span_evidence@, vote_id@, title.source_blocks@),
        assembly_view(*final(out)) == with_title_spans(assembly_view(*old(out)), vote_id@, refs_view(*title).5),
{
    let ghost before = *out;
    push_title_spans(out, vote_id, title);
    proof {
        let a = before.span_evidence@;
        let b = out.span_evidence@;
        let bl = title.source_blocks@;
        let r = spans_view(a) + bl.map_values(
            |x: u32| span_of("Vote"@, vote_id@, "decision_title"@, x, "title_nl,title_fr,dossier_id,document_id,motion_id"@),
        );
        assert forall|i: int| 0 <= i < b.len() implies spans_view(b)[i] == r[i] by {
            if i < a.len() {
                assert(b[i] == b.take(a.len() as int)[i]);
            } else {
                assert(bl[i - a.len()] == bl[i - a.len()]);
            }
        }
        assert(assembly_view(*out).spans =~= r);
        assert forall|j: int| 0 <= j < out.decisions@.len() implies #[trigger] decision_ok(*out, j, session_id, meeting_id, date@, source_url@, cache_path@) by {
            assert(decision_ok(before, j, session_id, meeting_id, date@, source_url@, cache_path@));
        }
        assert forall|j: int| 0 <= j < out.results@.len() implies #[trigger] result_ok(*out, j, session_id, meeting_id, source_url@, cache_path@) by {
            assert(result_ok(before, j, session_id, meeting_id, source_url@, cache_path@));
        }
    }
}

fn add_unresolved(
    out: &mut VoteAssemblyOutput,
    session_id: u32,
    meeting_id: u32,
    event_kind: &str,
    source_number: &str,
    block: &ReportBlock,
    reason: &str,
    source_url: &str,
    cache_path: &str,
    date: Ghost<Seq<char>>,
)
    requires
        block.index < u32::MAX,
        assembly_ok(*old(out), session_id, meeting_id, date@, source_url@, cache_path@),
    ensures
        assembly_ok(*final(out), session_id, meeting_id, date@, source_url@, cache_path@),
        final(out).decisions == old(out).decisions,
        final(out).results == old(out).results,
        final(out).tallies == old(out).tallies,
        final(out).members == old(out).members,
        final(out).span_evidence == old(out).span_evidence,
        final(out).unresolved_events@ == old(out).unresolved_events@.push(final(out).unresolved_events@.last()),
        unresolved_is(final(out).unresolved_events@.last(), session_id, meeting_id, event_kind@, source_number@, *block, reason@, source_url@, cache_path@),
        assembly_view(*final(out)) == with_unresolved(assembly_view(*old(out)), session_id, meeting_id, event_kind@, source_number@, *block, reason@, source_url@, cache_path@),
{
    let ghost before = *out;
    push_unresolved(out, session_id, meeting_id, event_kind, source_number, block, reason, source_url, cache_path);
    proof {
        assert forall|j: int| 0 <= j < out.span_evidence@.len() implies span_ok(*out, #[trigger] out.span_evidence@[j]) by {
            assert(span_ok(before, before.span_evidence@[j]));
        }
        assert forall|j: int| 0 <= j < out.decisions@.len() implies #[trigger] decision_ok(*out, j, session_id, meeting_id, date@, source_url@, cache_path@) by {
            assert(decision_ok(before, j, session_id, meeting_id, date@, source_url@, cache_path@));
        }
        assert forall|j: int| 0 <= j < out.results@.len() implies #[trigger] result_ok(*out, j, session_id, meeting_id, source_url@, cache_path@) by {
            assert(result_ok(before, j, session_id, meeting_id, source_url@, cache_path@));
        }
        assert forall|j: int| 0 <= j < out.unresolved_events@.len() implies (#[trigger] out.unresolved_events@[j]).block_end == out.unresolved_events@[j].block_start + 1 by {
            if j < before.unresolved_events@.len() {
                assert(out.unresolved_events@[j] == before.unresolved_events@[j]);
            }
        }
        assert(assembly_view(*out).unresolved =~= assembly_view(before).unresolved.push(
            (session_id, meeting_id, event_kind@, source_number@, block.index, (block.index + 1) as u32, reason@, block.text@, source_url@, cache_path@),
        ));
    }
}

/// Add a tally (or member, when `member` holds) of a held result.
fn add_tally(
    out: &mut VoteAssemblyOutput,
    result_id: &str,
    tally_kind: &str,
    option_key: &str,
    label_nl: &str,
    label_fr: &str,
    count: u32,
    session_id: u32,
    meeting_id: u32,
    date: Ghost<Seq<char>>,
    source_url: Ghost<Seq<char>>,
    cache_path: Ghost<Seq<char>>,
)
    requires
        result_known(old(out).results@, result_id@),
        assembly_ok(*old(out), session_id, meeting_id, date@, source_url@, cache_path@),
    ensures
        assembly_ok(*final(out), session_id, meeting_id, date@, source_url@, cache_path@),
        final(out).decisions == old(out).decisions,
        final(out).results == old(out).results,
        final(out).members == old(out).members,
        final(out).span_evidence == old(out).span_evidence,
        final(out).unresolved_events == old(out).unresolved_events,
        final(out).tallies@ == old(out).tallies@.push(final(out).tallies@.last()),
        tally_is(final(out).tallies@.last(), result_id@, tally_kind@, option_key@, label_nl@, label_fr@, "overall"@, count, false),
        assembly_view(*final(out)) == with_tally(assembly_view(*old(out)), result_id@, tally_kind@, option_key@, label_nl@, label_fr@, count),
{
    let ghost before = *out;
    push_tally(&mut out.tallies, result_id, tally_kind, option_key, label_nl, label_fr, "overall", count, false);
    proof {
        lemma_tallies_grow_keeps(before, *out, session_id, meeting_id, date@, source_url@, cache_path@);
        assert(assembly_view(*out).tallies =~= assembly_view(before).tallies.push((result_id@, tally_kind@, option_key@, label_nl@, label_fr@, "overall"@, count, false)));
    }
}

proof fn lemma_tallies_grow_keeps(
    before: VoteAssemblyOutput,
    after: VoteAssemblyOutput,
    session_id: u32,
    meeting_id: u32,
    date: Seq<char>,
    source_url: Seq<char>,
    cache_path: Seq<char>,
)
    requires
        assembly_ok(before, session_id, meeting_id, date, source_url, cache_path),
        after.decisions == before.decisions,
        after.results == before.results,
        after.members == before.members,
        after.span_evidence == before.span_evidence,
        after.unresolved_events == before.unresolved_events,
        tallies_known(after.tallies@, after.results@),
    ensures
        assembly_ok(after, session_id, meeting_id, date, source_url, cache_path),
{
    assert forall|j: int| 0 <= j < after.span_evidence@.len() implies span_ok(after, #[trigger] after.span_evidence@[j]) by {
        assert(span_ok(before, before.span_evidence@[j]));
    }
    assert forall|j: int| 0 <= j < after.decisions@.len() implies #[trigger] decision_ok(after, j, session_id, meeting_id, date, source_url, cache_path) by {
        assert(decision_ok(before, j, session_id, meeting_id, date, source_url, cache_path));
    }
    assert forall|j: int| 0 <= j < after.results@.len() implies #[trigger] result_ok(after, j, session_id, meeting_id, source_url, cache_path) by {
        assert(result_ok(before, j, session_id, meeting_id, source_url, cache_path));
    }
}

fn add_member(
    out: &mut VoteAssemblyOutput,
    result_id: &str,
    position: &str,
    seq: u32,
    raw_name: &str,
    session_id: u32,
    meeting_id: u32,
    date: Ghost<Seq<char>>,
    source_url: Ghost<Seq<char>>,
    cache_path: Ghost<Seq<char>>,
)
    requires
        result_known(old(out).results@, result_id@),
        assembly_ok(*old(out), session_id, meeting_id, date@, source_url@, cache_path@),
    ensures
        assembly_ok(*final(out), session_id, meeting_id, date@, source_url@, cache_path@),
        final(out).decisions == old(out).decisions,
        final(out).results == old(out).results,
        final(out).tallies == old(out).tallies,
        final(out).span_evidence == old(out).span_evidence,
        final(out).unresolved_events == old(out).unresolved_events,
        final(out).members@ == old(out).members@.push(final(out).members@.last()),
        final(out).members@.last().result_id@ == result_id@,
        final(out).members@.last().position@ == position@,
        final(out).members@.last().seq == seq,
        final(out).members@.last().raw_name@ == raw_name@,
        assembly_view(*final(out)) == with_member(assembly_view(*old(out)), result_id@, position@, seq, raw_name@),
{
    let ghost before = *out;
    out.members.push(VoteResultMemberDraft {
        result_id: result_id.to_string(),
        position: position.to_string(),
        seq,
        raw_name: raw_name.to_string(),
    });
    proof {
        assert forall|j: int| 0 <= j < out.span_evidence@.len() implies span_ok(*out, #[trigger] out.span_evidence@[j]) by {
            assert(span_ok(before, before.span_evidence@[j]));
        }
        assert forall|j: int| 0 <= j < out.decisions@.len() implies #[trigger] decision_ok(*out, j, session_id, meeting_id, date@, source_url@, cache_path@) by {
            assert(decision_ok(before, j, session_id, meeting_id, date@, source_url@, cache_path@));
        }
        assert forall|j: int| 0 <= j < out.results@.len() implies #[trigger] result_ok(*out, j, session_id, meeting_id, source_url@, cache_path@) by {
            assert(result_ok(before, j, session_id, meeting_id, source_url@, cache_path@));
        }
        assert forall|j: int| 0 <= j < out.members@.len() implies result_known(out.results@, (#[trigger] out.members@[j]).result_id@) by {
            if j < before.members@.len() {
                assert(out.members@[j] == before.members@[j]);
            }
        }
        assert(assembly_view(*out).members =~= assembly_view(before).members.push((result_id@, position@, seq, raw_name@)));
    }
}

/// Add the next result of the meeting; its id is returned.
fn add_result(
    out: &mut VoteAssemblyOutput,
    session_id: u32,
    meeting_id: u32,
    method: &str,
    named: bool,
    status: &str,
    outcome: &str,
    source_number: &str,
    source_url: &str,
    cache_path: &str,
    date: Ghost<Seq<char>>,
) -> (r: String)
    requires
        old(out).results@.len() < u32::MAX,
        assembly_ok(*old(out), session_id, meeting_id, date@, source_url@, cache_path@),
    ensures
        assembly_ok(*final(out), session_id, meeting_id, date@, source_url@, cache_path@),
        final(out).decisions == old(out).decisions,
        final(out).results@.len() == old(out).results@.len() + 1,
        final(out).results@.last().source_roll_call_number@ == source_number@,
        final(out).results@.last().method@ == method@,
        result_known(final(out).results@, r@),
        forall|id: Seq<char>| result_known(old(out).results@, id) ==> result_known(final(out).results@, id),
        r@ == next_result_id(assembly_view(*old(out)), session_id, meeting_id),
        assembly_view(*final(out)) == with_result(assembly_view(*old(out)), session_id, meeting_id, method@, named, status@, outcome@, source_number@, source_url@, cache_path@),
{
    let seq = (out.results.len() + 1) as u32;
    let result_id = composite_result_id(session_id, meeting_id, seq);
    let ghost before = *out;
    out.results.push(VoteResultDraft {
        result_id: result_id.clone(),
        session_id,
        meeting_id,
        seq,
        method: method.to_string(),
        named,
        status: status.to_string(),
        outcome: outcome.to_string(),
        source_roll_call_number: source_number.to_string(),
        source_url: source_url.to_string(),
        cache_path: cache_path.to_string(),
    });
    proof {
        assert(out.results@[out.results@.len() - 1].result_id@ == result_id@);
        assert forall|id: Seq<char>| result_known(before.results@, id) implies result_known(out.results@, id) by {
            let k = choose|k: int| 0 <= k < before.results@.len() && (#[trigger] before.results@[k]).result_id@ == id;
            assert(out.results@[k] == before.results@[k]);
        }
        assert forall|j: int| 0 <= j < out.span_evidence@.len() implies span_ok(*out, #[trigger] out.span_evidence@[j]) by {
            assert(span_ok(before, before.span_evidence@[j]));
        }
        assert forall|j: int| 0 <= j < out.decisions@.len() implies #[trigger] decision_ok(*out, j, session_id, meeting_id, date@, source_url@, cache_path@) by {
            assert(decision_ok(before, j, session_id, meeting_id, date@, source_url@, cache_path@));
        }
        assert forall|j: int| 0 <= j < out.results@.len() implies #[trigger] result_ok(*out, j, session_id, meeting_id, source_url@, cache_path@) by {
            if j < before.results@.len() {
                assert(result_ok(before, j, session_id, meeting_id, source_url@, cache_path@));
                assert(out.results@[j] == before.results@[j]);
            }
        }
        assert forall|j: int| 0 <= j < out.tallies@.len() implies result_known(out.results@, (#[trigger] out.tallies@[j]).result_id@) by {
            assert(result_known(before.results@, before.tallies@[j].result_id@));
        }
        assert forall|j: int| 0 <= j < out.members@.len() implies result_known(out.results@, (#[trigger] out.members@[j]).result_id@) by {
            assert(result_known(before.results@, before.members@[j].result_id@));
        }
        assert(assembly_view(*out).results =~= with_result(assembly_view(before), session_id, meeting_id, method@, named, status@, outcome@, source_number@, source_url@, cache_path@).results);
    }
    result_id
}

/// Add the next decision of the meeting for a held result; its id is returned.
fn add_decision(
    out: &mut VoteAssemblyOutput,
    session_id: u32,
    meeting_id: u32,
    date: &str,
    result_id: &str,
    title: &TitleRefs,
    method: &str,
    status: &str,
    outcome: &str,
    source_num: &str,
    reuses: bool,
    source_url: &str,
    cache_path: &str,
) -> (r: String)
    requires
        old(out).decisions@.len() < u32::MAX,
        result_known(old(out).results@, result_id@),
        assembly_ok(*old(out), session_id, meeting_id, date@, source_url@, cache_path@),
    ensures
        assembly_ok(*final(out), session_id, meeting_id, date@, source_url@, cache_path@),
        final(out).results == old(out).results,
        final(out).decisions@.len() == old(out).decisions@.len() + 1,
        decision_known(final(out).decisions@, r@),
        r@ == next_vote_id(assembly_view(*old(out)), session_id, meeting_id),
        assembly_view(*final(out)) == with_decision(
            assembly_view(*old(out)),
            session_id,
            meeting_id,
            date@,
            result_id@,
            refs_view(*title),
            method@,
            status@,
            outcome@,
            source_num@,
            reuses,
            source_url@,
            cache_path@,
        ),
{
    let seq = (out.decisions.len() + 1) as u32;
    let vote_id = composite_vote_id(session_id, meeting_id, seq);
    let ghost before = *out;
    out.decisions.push(VoteDecisionDraft {
        vote_id: vote_id.clone(),
        result_id: result_id.to_string(),
        session_id,
        meeting_id,
        date: date.to_string(),
        seq,
        title_nl: title.title_nl.clone(),
        title_fr: title.title_fr.clone(),
        method: method.to_string(),
        status: status.to_string(),
        outcome: outcome.to_string(),
        dossier_id: title.dossier_id.clone(),
        document_id: title.document_id.clone(),
        motion_id: title.motion_id.clone(),
        source_roll_call_number: source_num.to_string(),
        reuses_result: reuses,
        source_url: source_url.to_string(),
        cache_path: cache_path.to_string(),
    });
    proof {
        assert(out.decisions@[out.decisions@.len() - 1].vote_id@ == vote_id@);
        assert forall|j: int| 0 <= j < out.span_evidence@.len() implies span_ok(*out, #[trigger] out.span_evidence@[j]) by {
            let sp = before.span_evidence@[j];
            assert(span_ok(before, sp));
            if sp.entity_type@ == "Vote"@ && decision_known(before.decisions@, sp.entity_id@) {
                let k = choose|k: int| 0 <= k < before.decisions@.len() && (#[trigger] before.decisions@[k]).vote_id@ == sp.entity_id@;
                assert(out.decisions@[k] == before.decisions@[k]);
            }
        }
        assert forall|j: int| 0 <= j < out.decisions@.len() implies #[trigger] decision_ok(*out, j, session_id, meeting_id, date@, source_url@, cache_path@) by {
            if j < before.decisions@.len() {
                assert(decision_ok(before, j, session_id, meeting_id, date@, source_url@, cache_path@));
                assert(out.decisions@[j] == before.decisions@[j]);
            }
        }
        assert forall|j: int| 0 <= j < out.results@.len() implies #[trigger] result_ok(*out, j, session_id, meeting_id, source_url@, cache_path@) by {
            assert(result_ok(before, j, session_id, meeting_id, source_url@, cache_path@));
        }
        assert(assembly_view(*out).decisions =~= with_decision(
            assembly_view(before),
            session_id,
            meeting_id,
            date@,
            result_id@,
            refs_view(*title),
            method@,
            status@,
            outcome@,
            source_num@,
            reuses,
            source_url@,
            cache_path@,
        ).decisions);
    }
    vote_id
}

/// The last result recorded for vote number `source` (results are recorded in order).
/// The result id of the last entry of `bs` for vote number `x`.
pub open spec fn last_source(bs: Seq<(Seq<char>, Seq<char>)>, x: Seq<char>) -> Option<Seq<char>>
    decreases bs.len(),
{
    if bs.len() == 0 {
        None
    } else if bs.last().0 == x {
        Some(bs.last().1)
    } else {
        last_source(bs.drop_last(), x)
    }
}

fn last_result_for(by_source: &Vec<(String, String)>, source: &str) -> (r: Option<String>)
    ensures
        r.deep_view() == last_source(renames_view(by_source@), source@),
        r matches Some(id) ==> exists|k: int| 0 <= k < by_source@.len() && (#[trigger] by_source@[k]).1@ == id@,
        match r {
            Some(id) => exists|k: int|
                0 <= k < by_source@.len() && (#[trigger] by_source@[k]).0@ == source@ && by_source@[k].1@ == id@
                    && forall|j: int| k < j < by_source@.len() ==> (#[trigger] by_source@[j]).0@ != source@,
            None => forall|j: int| 0 <= j < by_source@.len() ==> (#[trigger] by_source@[j]).0@ != source@,
        },
{
    let mut found: Option<String> = None;
    let ghost mut at: int = -1;
    let mut i: usize = 0;
    while i < by_source.len()
        invariant
            i <= by_source.len(),
            -1 <= at < i,
            found matches Some(id) ==> at >= 0 && by_source@[at].0@ == source@ && by_source@[at].1@ == id@,
            found is None ==> at == -1,
            forall|j: int| at < j < i ==> (#[trigger] by_source@[j]).0@ != source@,
            found.deep_view() == last_source(renames_view(by_source@).take(i as int), source@),
        decreases by_source.len() - i,
    {
        assert(renames_view(by_source@).take(i + 1).drop_last() =~= renames_view(by_source@).take(i as int));
        assert(renames_view(by_source@).take(i + 1).last() == (by_source@[i as int].0@, by_source@[i as int].1@));
        if str_eq(by_source[i].0.as_str(), source) {
            found = Some(by_source[i].1.clone());
            proof {
                at = i as int;
            }
        }
        i = i + 1;
    }
    proof {
        if found is Some {
            assert(by_source@[at].1@ == found->0@);
        }
        assert(renames_view(by_source@).take(by_source@.len() as int) =~= renames_view(by_source@));
    }
    found
}

/// How many strings of `s` equal `x`.
pub open spec fn occurrences(s: Seq<Seq<char>>, x: Seq<char>) -> nat
    decreases s.len(),
{
    if s.len() == 0 {
        0
    } else {
        occurrences(s.drop_last(), x) + if s.last() == x {
            1nat
        } else {
            0nat
        }
    }
}

/// A parsed appendix as plain values: its vote number, its header block, its buckets.
pub type AppendixView = (Seq<char>, u32, Seq<BucketView>);

pub open spec fn appendix_view(a: Seq<(String, u32, Vec<AppendixBucket>)>) -> Seq<AppendixView> {
    a.map_values(|x: (String, u32, Vec<AppendixBucket>)| (x.0@, x.1, buckets_view(x.2@)))
}

/// The `n`-th (0-based) appendix of `a` for vote number `x`, from position `i` on, after
/// `seen` of them.
pub open spec fn nth_appendix_from(a: Seq<AppendixView>, x: Seq<char>, n: nat, i: int, seen: nat) -> Option<int>
    decreases a.len() - i,
{
    if i < 0 || i >= a.len() {
        None
    } else if a[i].0 == x {
        if seen == n {
            Some(i)
        } else {
            nth_appendix_from(a, x, n, i + 1, seen + 1)
        }
    } else {
        nth_appendix_from(a, x, n, i + 1, seen)
    }
}

/// How many appendices of `a` are for vote number `x`.
pub open spec fn appendix_occurrences(a: Seq<AppendixView>, x: Seq<char>) -> nat
    decreases a.len(),
{
    if a.len() == 0 {
        0
    } else {
        appendix_occurrences(a.drop_last(), x) + if a.last().0 == x {
            1nat
        } else {
            0nat
        }
    }
}

/// How many earlier roll-call tables carried vote number `source`.
fn occurrences_of(seen: &Vec<String>, source: &str) -> (r: usize)
    ensures
        r <= seen@.len(),
        r == occurrences(seen.deep_view(), source@),
{
    let mut n: usize = 0;
    let mut i: usize = 0;
    while i < seen.len()
        invariant
            i <= seen.len(),
            n <= i,
            n == occurrences(seen.deep_view().take(i as int), source@),
        decreases seen.len() - i,
    {
        assert(seen.deep_view().take(i + 1).drop_last() =~= seen.deep_view().take(i as int));
        assert(seen.deep_view().take(i + 1).last() == seen@[i as int]@);
        if str_eq(seen[i].as_str(), source) {
            n = n + 1;
        }
        i = i + 1;
    }
    assert(seen.deep_view().take(seen@.len() as int) =~= seen.deep_view());
    n
}

/// The `n`-th parsed appendix (0-based) for vote number `source`.
fn nth_appendix(appendix: &Vec<(String, u32, Vec<AppendixBucket>)>, source: &str, n: usize) -> (r: Option<usize>)
    ensures
        r matches Some(i) ==> i < appendix@.len(),
        match r {
            Some(i) => Some(i as int) == nth_appendix_from(appendix_view(appendix@), source@, n as nat, 0, 0),
            None => nth_appendix_from(appendix_view(appendix@), source@, n as nat, 0, 0) is None,
        },
{
    let ghost av = appendix_view(appendix@);
    let mut seen: usize = 0;
    let mut i: usize = 0;
    while i < appendix.len()
        invariant
            i <= appendix.len(),
            seen <= n,
            av == appendix_view(appendix@),
            nth_appendix_from(av, source@, n as nat, 0, 0) == nth_appendix_from(av, source@, n as nat, i as int, seen as nat),
        decreases appendix.len() - i,
    {
        assert(av[i as int].0 == appendix@[i as int].0@);
        if str_eq(appendix[i].0.as_str(), source) {
            if seen == n {
                return Some(i);
            }
            seen = seen + 1;
        }
        i = i + 1;
    }
    None
}

spec fn appendix_small(appendix: Seq<(String, u32, Vec<AppendixBucket>)>) -> bool {
    forall|i: int|
        0 <= i < appendix.len() ==> (#[trigger] appendix[i]).1 < u32::MAX && (forall|k: int|
            0 <= k < appendix[i].2@.len() ==> bucket_small(#[trigger] appendix[i].2@[k]))
}

/// Keep the decisions that carry a title, renumbered from one, and the `Vote` spans of the
/// decisions kept, under their new ids.
/// A decision view carries a title in at least one language.
pub open spec fn titled_spec(d: DecisionSpec) -> bool {
    !(trim(d.title_nl).len() == 0 && trim(d.title_fr).len() == 0)
}

/// The titled decisions of `ds`, in order, renumbered from one with their composite ids.
pub open spec fn kept_decisions(ds: Seq<DecisionSpec>, session_id: u32, meeting_id: u32) -> Seq<DecisionSpec>
    decreases ds.len(),
{
    if ds.len() == 0 {
        Seq::empty()
    } else {
        let k = kept_decisions(ds.drop_last(), session_id, meeting_id);
        if titled_spec(ds.last()) {
            k.push(
                DecisionSpec {
                    vote_id: vote_id_of(session_id, meeting_id, (k.len() + 1) as u32),
                    seq: (k.len() + 1) as u32,
                    ..ds.last()
                },
            )
        } else {
            k
        }
    }
}

/// For each titled decision of `ds`, in order: its old id and its new id.
pub open spec fn decision_renames(ds: Seq<DecisionSpec>, session_id: u32, meeting_id: u32) -> Seq<(Seq<char>, Seq<char>)>
    decreases ds.len(),
{
    if ds.len() == 0 {
        Seq::empty()
    } else {
        let r = decision_renames(ds.drop_last(), session_id, meeting_id);
        if titled_spec(ds.last()) {
            r.push((ds.last().vote_id, vote_id_of(session_id, meeting_id, (r.len() + 1) as u32)))
        } else {
            r
        }
    }
}

/// The new id of the last rename among the first `k` whose old id is `id` (a later
/// decision with the same old id takes the name over).
pub open spec fn last_rename(rn: Seq<(Seq<char>, Seq<char>)>, id: Seq<char>, k: int) -> Option<Seq<char>>
    decreases k,
{
    if k <= 0 || k > rn.len() {
        None
    } else if rn[k - 1].0 == id {
        Some(rn[k - 1].1)
    } else {
        last_rename(rn, id, k - 1)
    }
}

/// The spans after the renames: a decision span follows its decision's new id and is
/// dropped with an untitled decision; other spans stay.
pub open spec fn renamed_spans(spans: Seq<SpanView>, rn: Seq<(Seq<char>, Seq<char>)>) -> Seq<SpanView>
    decreases spans.len(),
{
    if spans.len() == 0 {
        Seq::empty()
    } else {
        let prev = renamed_spans(spans.drop_last(), rn);
        let sp = spans.last();
        if sp.0 == "Vote"@ {
            match last_rename(rn, sp.1, rn.len() as int) {
                Some(n) => prev.push((sp.0, n, sp.2, sp.3, sp.4, sp.5, sp.6)),
                None => prev,
            }
        } else {
            prev.push(sp)
        }
    }
}

/// The output without its untitled decisions: the others renumbered, their spans renamed.
pub open spec fn discarded_untitled(v: AssemblyView, session_id: u32, meeting_id: u32) -> AssemblyView {
    AssemblyView {
        decisions: kept_decisions(v.decisions, session_id, meeting_id),
        spans: renamed_spans(v.spans, decision_renames(v.decisions, session_id, meeting_id)),
        ..v
    }
}

proof fn lemma_last_rename_skip(rn: Seq<(Seq<char>, Seq<char>)>, id: Seq<char>, m: int, k: int)
    requires
        0 <= m <= k <= rn.len(),
        forall|e: int| m <= e < k ==> (#[trigger] rn[e]).0 != id,
    ensures
        last_rename(rn, id, k) == last_rename(rn, id, m),
    decreases k,
{
    if k > m {
        lemma_last_rename_skip(rn, id, m, k - 1);
    }
}

spec fn renames_view(r: Seq<(String, String)>) -> Seq<(Seq<char>, Seq<char>)> {
    r.map_values(|p: (String, String)| (p.0@, p.1@))
}

fn discard_untitled_in(
    out: &mut VoteAssemblyOutput,
    session_id: u32,
    meeting_id: u32,
    date: Ghost<Seq<char>>,
    source_url: Ghost<Seq<char>>,
    cache_path: Ghost<Seq<char>>,
)
    requires
        old(out).decisions@.len() <= u32::MAX,
    ensures
        assembly_ok(*old(out), session_id, meeting_id, date@, source_url@, cache_path@) ==> assembly_ok(
            *final(out),
            session_id,
            meeting_id,
            date@,
            source_url@,
            cache_path@,
        ),
        forall|k: int| 0 <= k < final(out).decisions@.len() ==> titled(#[trigger] final(out).decisions@[k]),
        final(out).results == old(out).results,
        final(out).tallies == old(out).tallies,
        final(out).members == old(out).members,
        final(out).unresolved_events == old(out).unresolved_events,
        assembly_view(*final(out)) == discarded_untitled(assembly_view(*old(out)), session_id, meeting_id),
{
    let ghost before = *out;
    let ghost ok = assembly_ok(before, session_id, meeting_id, date@, source_url@, cache_path@);
    let ghost dv = assembly_view(before).decisions;
    let mut old_decisions: Vec<VoteDecisionDraft> = Vec::new();
    std::mem::swap(&mut old_decisions, &mut out.decisions);
    let mut retained: Vec<VoteDecisionDraft> = Vec::new();
    let mut renamed: Vec<(String, String)> = Vec::new();
    let mut i: usize = 0;
    while i < old_decisions.len()
        invariant
            i <= old_decisions.len(),
            old_decisions@ == before.decisions@,
            ok == assembly_ok(before, session_id, meeting_id, date@, source_url@, cache_path@),
            before.decisions@.len() <= u32::MAX,
            out.results == before.results,
            out.tallies == before.tallies,
            out.members == before.members,
            out.unresolved_events == before.unresolved_events,
            out.span_evidence == before.span_evidence,
            retained@.len() <= i,
            forall|k: int| 0 <= k < retained@.len() ==> titled(#[trigger] retained@[k]),
            forall|k: int| 0 <= k < retained@.len() ==> {
                let d = #[trigger] retained@[k];
                &&& d.seq == k + 1
                &&& d.vote_id@ == vote_id_of(session_id, meeting_id, (k + 1) as u32)
            },
            ok ==> forall|k: int| 0 <= k < retained@.len() ==> {
                let d = #[trigger] retained@[k];
                &&& d.session_id == session_id && d.meeting_id == meeting_id
                &&& d.date@ == date@ && d.source_url@ == source_url@ && d.cache_path@ == cache_path@
                &&& result_known(before.results@, d.result_id@)
            },
            forall|k: int| 0 <= k < renamed@.len() ==> decision_known(retained@, (#[trigger] renamed@[k]).1@),
            forall|k: int| 0 <= k < i ==> titled(#[trigger] old_decisions@[k]) ==> exists|e: int|
                0 <= e < renamed@.len() && (#[trigger] renamed@[e]).0@ == old_decisions@[k].vote_id@,
            dv == assembly_view(before).decisions,
            retained@.map_values(|d: VoteDecisionDraft| decision_spec(d)) == kept_decisions(dv.take(i as int), session_id, meeting_id),
            renames_view(renamed@) == decision_renames(dv.take(i as int), session_id, meeting_id),
            renamed@.len() == retained@.len(),
        decreases old_decisions.len() - i,
    {
        let d = &old_decisions[i];
        let ghost rv0 = retained@;
        let ghost nv0 = renamed@;
        proof {
            assert(dv.take(i + 1).drop_last() =~= dv.take(i as int));
            assert(dv.take(i + 1).last() == decision_spec(old_decisions@[i as int]));
        }
        let tnl = trim_str(d.title_nl.as_str());
        let tfr = trim_str(d.title_fr.as_str());
        proof {
            if ok {
                assert(decision_ok(before, i as int, session_id, meeting_id, date@, source_url@, cache_path@));
            }
        }
        if !(tnl.as_str().is_empty() && tfr.as_str().is_empty()) {
            let seq = (retained.len() + 1) as u32;
            let vote_id = composite_vote_id(session_id, meeting_id, seq);
            let ghost r_before = retained@;
            let ghost n_before = renamed@;
            renamed.push((d.vote_id.clone(), vote_id.clone()));
            retained.push(VoteDecisionDraft {
                vote_id,
                result_id: d.result_id.clone(),
                session_id: d.session_id,
                meeting_id: d.meeting_id,
                date: d.date.clone(),
                seq,
                title_nl: d.title_nl.clone(),
                title_fr: d.title_fr.clone(),
                method: d.method.clone(),
                status: d.status.clone(),
                outcome: d.outcome.clone(),
                dossier_id: d.dossier_id.clone(),
                document_id: d.document_id.clone(),
                motion_id: d.motion_id.clone(),
                source_roll_call_number: d.source_roll_call_number.clone(),
                reuses_result: d.reuses_result,
                source_url: d.source_url.clone(),
                cache_path: d.cache_path.clone(),
            });
            proof {
                assert(retained@[retained@.len() - 1].vote_id@ == renamed@[renamed@.len() - 1].1@);
                assert forall|k: int| 0 <= k < renamed@.len() implies decision_known(retained@, (#[trigger] renamed@[k]).1@) by {
                    if k < n_before.len() {
                        assert(decision_known(r_before, n_before[k].1@));
                        let j = choose|j: int| 0 <= j < r_before.len() && (#[trigger] r_before[j]).vote_id@ == n_before[k].1@;
                        assert(retained@[j] == r_before[j]);
                    }
                }
                assert forall|k: int| 0 <= k <= i && titled(#[trigger] old_decisions@[k]) implies exists|e: int|
                    0 <= e < renamed@.len() && (#[trigger] renamed@[e]).0@ == old_decisions@[k].vote_id@ by {
                    if k < i {
                        let e = choose|e: int| 0 <= e < n_before.len() && (#[trigger] n_before[e]).0@ == old_decisions@[k].vote_id@;
                        assert(renamed@[e] == n_before[e]);
                    } else {
                        assert(renamed@[renamed@.len() - 1].0@ == old_decisions@[k].vote_id@);
                    }
                }
            }
        }
        proof {
            let ds = dv.take(i + 1);
            if titled(old_decisions@[i as int]) {
                assert(retained@.map_values(|d: VoteDecisionDraft| decision_spec(d)) =~= kept_decisions(ds, session_id, meeting_id));
                assert(renames_view(renamed@) =~= decision_renames(ds, session_id, meeting_id));
            } else {
                assert(retained@ == rv0);
                assert(renamed@ == nv0);
            }
        }
        i = i + 1;
    }
    let ghost kept = retained@;
    let ghost rn = renames_view(renamed@);
    proof {
        assert(dv.take(old_decisions@.len() as int) =~= dv);
    }
    out.decisions = retained;
    let mut old_spans: Vec<SpanEvidence> = Vec::new();
    std::mem::swap(&mut old_spans, &mut out.span_evidence);
    let mut j: usize = 0;
    while j < old_spans.len()
        invariant
            j <= old_spans.len(),
            old_spans@ == before.span_evidence@,
            ok == assembly_ok(before, session_id, meeting_id, date@, source_url@, cache_path@),
            before.decisions@.len() <= u32::MAX,
            out.decisions@ == kept,
            forall|k: int| 0 <= k < kept.len() ==> titled(#[trigger] kept[k]),
            forall|k: int| 0 <= k < kept.len() ==> {
                let d = #[trigger] kept[k];
                &&& d.seq == k + 1
                &&& d.vote_id@ == vote_id_of(session_id, meeting_id, (k + 1) as u32)
            },
            ok ==> forall|k: int| 0 <= k < kept.len() ==> {
                let d = #[trigger] kept[k];
                &&& d.session_id == session_id && d.meeting_id == meeting_id
                &&& d.date@ == date@ && d.source_url@ == source_url@ && d.cache_path@ == cache_path@
                &&& result_known(before.results@, d.result_id@)
            },
            out.results == before.results,
            out.tallies == before.tallies,
            out.members == before.members,
            out.unresolved_events == before.unresolved_events,
            forall|k: int| 0 <= k < renamed@.len() ==> decision_known(out.decisions@, (#[trigger] renamed@[k]).1@),
            ok ==> forall|k: int| 0 <= k < out.span_evidence@.len() ==> span_ok(*out, #[trigger] out.span_evidence@[k]),
            rn == renames_view(renamed@),
            spans_view(out.span_evidence@) == renamed_spans(spans_view(old_spans@).take(j as int), rn),
        decreases old_spans.len() - j,
    {
        let sp = &old_spans[j];
        let ghost sv0 = spans_view(out.span_evidence@);
        proof {
            assert(spans_view(old_spans@).take(j + 1).drop_last() =~= spans_view(old_spans@).take(j as int));
            assert(spans_view(old_spans@).take(j + 1).last() == span_view(old_spans@[j as int]));
        }
        proof {
            if ok {
                assert(span_ok(before, before.span_evidence@[j as int]));
            }
        }
        if str_eq(sp.entity_type.as_str(), "Vote") {
            let mut k: usize = 0;
            let mut mapped: Option<usize> = None;
            while k < renamed.len()
                invariant
                    k <= renamed.len(),
                    mapped matches Some(e) ==> e < k && renamed@[e as int].0@ == sp.entity_id@
                        && forall|q: int| e < q < k ==> (#[trigger] renamed@[q]).0@ != sp.entity_id@,
                    mapped is None ==> forall|q: int| 0 <= q < k ==> (#[trigger] renamed@[q]).0@ != sp.entity_id@,
                decreases renamed.len() - k,
            {
                if str_eq(renamed[k].0.as_str(), sp.entity_id.as_str()) {
                    mapped = Some(k);
                }
                k = k + 1;
            }
            proof {
                match mapped {
                    Some(e) => {
                        assert forall|q: int| e + 1 <= q < rn.len() implies (#[trigger] rn[q]).0 != sp.entity_id@ by {
                            assert(rn[q] == (renamed@[q].0@, renamed@[q].1@));
                        }
                        lemma_last_rename_skip(rn, sp.entity_id@, e + 1, rn.len() as int);
                        assert(rn[e as int] == (renamed@[e as int].0@, renamed@[e as int].1@));
                    },
                    None => {
                        assert forall|q: int| 0 <= q < rn.len() implies (#[trigger] rn[q]).0 != sp.entity_id@ by {
                            assert(rn[q] == (renamed@[q].0@, renamed@[q].1@));
                        }
                        lemma_last_rename_skip(rn, sp.entity_id@, 0, rn.len() as int);
                    },
                }
            }
            match mapped {
                Some(e) => {
                    let ghost s_before = out.span_evidence@;
                    out.span_evidence.push(SpanEvidence {
                        entity_type: sp.entity_type.clone(),
                        entity_id: renamed[e].1.clone(),
                        span_role: sp.span_role.clone(),
                        block_start: sp.block_start,
                        block_end: sp.block_end,
                        coverage_kind: sp.coverage_kind.clone(),
                        field_names: sp.field_names.clone(),
                    });
                    proof {
                        assert(decision_known(out.decisions@, renamed@[e as int].1@));
                        if ok {
                            assert forall|q: int| 0 <= q < out.span_evidence@.len() implies span_ok(*out, #[trigger] out.span_evidence@[q]) by {
                                if q < s_before.len() {
                                    assert(out.span_evidence@[q] == s_before[q]);
                                }
                            }
                        }
                    }
                },
                None => {},
            }
        } else {
            let ghost s_before = out.span_evidence@;
            out.span_evidence.push(SpanEvidence {
                entity_type: sp.entity_type.clone(),
                entity_id: sp.entity_id.clone(),
                span_role: sp.span_role.clone(),
                block_start: sp.block_start,
                block_end: sp.block_end,
                coverage_kind: sp.coverage_kind.clone(),
                field_names: sp.field_names.clone(),
            });
            proof {
                if ok {
                    assert forall|q: int| 0 <= q < out.span_evidence@.len() implies span_ok(*out, #[trigger] out.span_evidence@[q]) by {
                        if q < s_before.len() {
                            assert(out.span_evidence@[q] == s_before[q]);
                        }
                    }
                }
            }
        }
        proof {
            assert(spans_view(out.span_evidence@) =~= renamed_spans(spans_view(old_spans@).take(j + 1), rn));
        }
        j = j + 1;
    }
    proof {
        assert(spans_view(old_spans@).take(old_spans@.len() as int) =~= spans_view(old_spans@));
        assert(assembly_view(*out) =~= discarded_untitled(assembly_view(before), session_id, meeting_id));
        if ok {
            assert forall|k: int| 0 <= k < out.decisions@.len() implies #[trigger] decision_ok(*out, k, session_id, meeting_id, date@, source_url@, cache_path@) by {
                assert(out.decisions@[k] == kept[k]);
            }
            assert forall|k: int| 0 <= k < out.tallies@.len() implies result_known(out.results@, (#[trigger] out.tallies@[k]).result_id@) by {
                assert(result_known(before.results@, before.tallies@[k].result_id@));
            }
            assert forall|k: int| 0 <= k < out.members@.len() implies result_known(out.results@, (#[trigger] out.members@[k]).result_id@) by {
                assert(result_known(before.results@, before.members@[k].result_id@));
            }
            assert forall|k: int| 0 <= k < out.results@.len() implies #[trigger] result_ok(*out, k, session_id, meeting_id, source_url@, cache_path@) by {
                assert(result_ok(before, k, session_id, meeting_id, source_url@, cache_path@));
            }
        }
    }
}

/// Drop the decisions that carry no title in either language: the others keep their order
/// and are renumbered from one with composite ids, each decision span follows its decision's
/// new id (the last decision with an old id takes it) and is dropped with an untitled
/// decision; results, tallies, members, result spans and unresolved events are kept.
pub fn discard_untitled_decisions(out: &mut VoteAssemblyOutput, session_id: u32, meeting_id: u32)
    requires
        old(out).decisions@.len() <= u32::MAX,
    ensures
        forall|k: int| 0 <= k < final(out).decisions@.len() ==> titled(#[trigger] final(out).decisions@[k]),
        final(out).results == old(out).results,
        final(out).tallies == old(out).tallies,
        final(out).members == old(out).members,
        final(out).unresolved_events == old(out).unresolved_events,
        assembly_view(*final(out)) == discarded_untitled(assembly_view(*old(out)), session_id, meeting_id),
{
    discard_untitled_in(out, session_id, meeting_id, Ghost(Seq::empty()), Ghost(Seq::empty()), Ghost(Seq::empty()));
}

/// `b` is `a` followed by one span of `entity_type` `entity_id` per entry
/// `(role, block, fields)` of `entries`, in order.
pub open spec fn spans_added(
    a: Seq<SpanEvidence>,
    b: Seq<SpanEvidence>,
    entity_type: Seq<char>,
    entity_id: Seq<char>,
    entries: Seq<(Seq<char>, u32, Seq<char>)>,
) -> bool {
    &&& b.len() == a.len() + entries.len()
    &&& b.take(a.len() as int) == a
    &&& forall|i: int|
        0 <= i < entries.len() ==> span_is(
            b[a.len() + i],
            entity_type,
            entity_id,
            (#[trigger] entries[i]).0,
            entries[i].1,
            "extraction"@,
            entries[i].2,
        )
}

/// `b` is `a` followed by one member of result `result_id` per entry
/// `(position, seq, raw name)` of `entries`, in order.
pub open spec fn members_added(
    a: Seq<VoteResultMemberDraft>,
    b: Seq<VoteResultMemberDraft>,
    result_id: Seq<char>,
    entries: Seq<(Seq<char>, u32, Seq<char>)>,
) -> bool {
    &&& b.len() == a.len() + entries.len()
    &&& b.take(a.len() as int) == a
    &&& forall|i: int| 0 <= i < entries.len() ==> member_is(b[a.len() + i], result_id, #[trigger] entries[i])
}

/// A member of result `result_id` with the position, number and raw name of `entry`.
pub open spec fn member_is(m: VoteResultMemberDraft, result_id: Seq<char>, entry: (Seq<char>, u32, Seq<char>)) -> bool {
    &&& m.result_id@ == result_id
    &&& m.position@ == entry.0
    &&& m.seq == entry.1
    &&& m.raw_name@ == entry.2
}

/// The spans of one appendix bucket: its count line, then each voter-name block.
pub open spec fn bucket_spans(bk: AppendixBucket) -> Seq<(Seq<char>, u32, Seq<char>)> {
    seq![("appendix_bucket_count"@, bk.count_block, "position,count"@)] + bk.name_blocks@.map_values(
        |nb: u32| ("appendix_voter_names"@, nb, "position,raw_name"@),
    )
}

/// The members of one appendix bucket: each name with its position and 0-based number.
pub open spec fn bucket_members(bk: AppendixBucket) -> Seq<(Seq<char>, u32, Seq<char>)> {
    Seq::new(bk.names@.len(), |q: int| (bk.position@, q as u32, bk.names@[q]@))
}

pub open spec fn buckets_spans(bs: Seq<AppendixBucket>) -> Seq<(Seq<char>, u32, Seq<char>)>
    decreases bs.len(),
{
    if bs.len() == 0 {
        Seq::empty()
    } else {
        buckets_spans(bs.drop_last()) + bucket_spans(bs.last())
    }
}

pub open spec fn buckets_members(bs: Seq<AppendixBucket>) -> Seq<(Seq<char>, u32, Seq<char>)>
    decreases bs.len(),
{
    if bs.len() == 0 {
        Seq::empty()
    } else {
        buckets_members(bs.drop_last()) + bucket_members(bs.last())
    }
}

pub open spec fn bucket_spans_v(bv: BucketView) -> Seq<(Seq<char>, u32, Seq<char>)> {
    seq![("appendix_bucket_count"@, bv.3, "position,count"@)] + bv.4.map_values(
        |nb: u32| ("appendix_voter_names"@, nb, "position,raw_name"@),
    )
}

pub open spec fn bucket_members_v(bv: BucketView) -> Seq<(Seq<char>, u32, Seq<char>)> {
    Seq::new(bv.2.len(), |q: int| (bv.0, q as u32, bv.2[q]))
}

pub open spec fn buckets_spans_v(bs: Seq<BucketView>) -> Seq<(Seq<char>, u32, Seq<char>)>
    decreases bs.len(),
{
    if bs.len() == 0 {
        Seq::empty()
    } else {
        buckets_spans_v(bs.drop_last()) + bucket_spans_v(bs.last())
    }
}

pub open spec fn buckets_members_v(bs: Seq<BucketView>) -> Seq<(Seq<char>, u32, Seq<char>)>
    decreases bs.len(),
{
    if bs.len() == 0 {
        Seq::empty()
    } else {
        buckets_members_v(bs.drop_last()) + bucket_members_v(bs.last())
    }
}

/// The view with a roll-call result's appendix evidence: the header span, then per bucket
/// its count span and name spans; and per bucket its members.
pub open spec fn with_appendix(v: AssemblyView, rid: Seq<char>, header: u32, bs: Seq<BucketView>) -> AssemblyView {
    AssemblyView {
        spans: v.spans + (seq![("appendix_header"@, header, "source_roll_call_number"@)] + buckets_spans_v(bs)).map_values(
            |x: (Seq<char>, u32, Seq<char>)| span_of("VoteResult"@, rid, x.0, x.1, x.2),
        ),
        members: v.members + buckets_members_v(bs).map_values(|x: (Seq<char>, u32, Seq<char>)| (rid, x.0, x.1, x.2)),
        ..v
    }
}

proof fn lemma_buckets_v(bs: Seq<AppendixBucket>)
    ensures
        buckets_spans(bs) == buckets_spans_v(buckets_view(bs)),
        buckets_members(bs) == buckets_members_v(buckets_view(bs)),
    decreases bs.len(),
{
    if bs.len() > 0 {
        lemma_buckets_v(bs.drop_last());
        assert(buckets_view(bs.drop_last()) =~= buckets_view(bs).drop_last());
        let b = bs.last();
        assert(bucket_spans(b) =~= bucket_spans_v(bucket_view(b)));
        assert(bucket_members(b) =~= bucket_members_v(bucket_view(b))) by {
            assert forall|q: int| 0 <= q < b.names@.len() implies bucket_members(b)[q] == bucket_members_v(bucket_view(b))[q] by {
                assert(b.names.deep_view()[q] == b.names@[q]@);
            }
        }
    }
}

proof fn lemma_spans_added_chain(
    a: Seq<SpanEvidence>,
    b: Seq<SpanEvidence>,
    c: Seq<SpanEvidence>,
    et: Seq<char>,
    id: Seq<char>,
    e1: Seq<(Seq<char>, u32, Seq<char>)>,
    e2: Seq<(Seq<char>, u32, Seq<char>)>,
)
    requires
        spans_added(a, b, et, id, e1),
        spans_added(b, c, et, id, e2),
    ensures
        spans_added(a, c, et, id, e1 + e2),
{
    let e = e1 + e2;
    assert(c.take(a.len() as int) =~= a) by {
        assert forall|j: int| 0 <= j < a.len() implies c[j] == a[j] by {
            assert(c[j] == c.take(b.len() as int)[j]);
            assert(b[j] == b.take(a.len() as int)[j]);
        }
    }
    assert forall|i: int| 0 <= i < e.len() implies span_is(
        c[a.len() + i],
        et,
        id,
        (#[trigger] e[i]).0,
        e[i].1,
        "extraction"@,
        e[i].2,
    ) by {
        if i < e1.len() {
            assert(e[i] == e1[i]);
            assert(c[a.len() + i] == c.take(b.len() as int)[a.len() + i]);
        } else {
            assert(e[i] == e2[i - e1.len()]);
        }
    }
}

proof fn lemma_members_added_chain(
    a: Seq<VoteResultMemberDraft>,
    b: Seq<VoteResultMemberDraft>,
    c: Seq<VoteResultMemberDraft>,
    id: Seq<char>,
    e1: Seq<(Seq<char>, u32, Seq<char>)>,
    e2: Seq<(Seq<char>, u32, Seq<char>)>,
)
    requires
        members_added(a, b, id, e1),
        members_added(b, c, id, e2),
    ensures
        members_added(a, c, id, e1 + e2),
{
    let e = e1 + e2;
    assert(c.take(a.len() as int) =~= a) by {
        assert forall|j: int| 0 <= j < a.len() implies c[j] == a[j] by {
            assert(c[j] == c.take(b.len() as int)[j]);
            assert(b[j] == b.take(a.len() as int)[j]);
        }
    }
    assert forall|i: int| 0 <= i < e.len() implies member_is(c[a.len() + i], id, #[trigger] e[i]) by {
        if i < e1.len() {
            assert(e[i] == e1[i]);
            assert(c[a.len() + i] == c.take(b.len() as int)[a.len() + i]);
        } else {
            assert(e[i] == e2[i - e1.len()]);
        }
    }
}

proof fn lemma_one_span(a: Seq<SpanEvidence>, b: Seq<SpanEvidence>, et: Seq<char>, id: Seq<char>, role: Seq<char>, start: u32, fields: Seq<char>)
    requires
        b == a.push(b.last()),
        span_is(b.last(), et, id, role, start, "extraction"@, fields),
    ensures
        spans_added(a, b, et, id, seq![(role, start, fields)]),
{
    assert(b.take(a.len() as int) =~= a);
    assert(seq![(role, start, fields)][0] == (role, start, fields));
}

proof fn lemma_none_added(s: Seq<SpanEvidence>, m: Seq<VoteResultMemberDraft>, id: Seq<char>)
    ensures
        spans_added(s, s, "VoteResult"@, id, Seq::empty()),
        members_added(m, m, id, Seq::empty()),
{
    assert(s.take(s.len() as int) =~= s);
    assert(m.take(m.len() as int) =~= m);
}

/// Append the appendix evidence (header, bucket counts, voter names and members) of a
/// roll-call result.
fn add_appendix_evidence(
    out: &mut VoteAssemblyOutput,
    result_id: &str,
    header_block: u32,
    buckets: &Vec<AppendixBucket>,
    session_id: u32,
    meeting_id: u32,
    date: Ghost<Seq<char>>,
    source_url: Ghost<Seq<char>>,
    cache_path: Ghost<Seq<char>>,
)
    requires
        header_block < u32::MAX,
        forall|k: int| 0 <= k < buckets@.len() ==> bucket_small(#[trigger] buckets@[k]),
        result_known(old(out).results@, result_id@),
        assembly_ok(*old(out), session_id, meeting_id, date@, source_url@, cache_path@),
    ensures
        assembly_ok(*final(out), session_id, meeting_id, date@, source_url@, cache_path@),
        final(out).decisions == old(out).decisions,
        final(out).results == old(out).results,
        final(out).tallies == old(out).tallies,
        final(out).unresolved_events == old(out).unresolved_events,
        spans_added(
            old(out).span_evidence@,
            final(out).span_evidence@,
            "VoteResult"@,
            result_id@,
            seq![("appendix_header"@, header_block, "source_roll_call_number"@)] + buckets_spans(buckets@),
        ),
        members_added(old(out).members@, final(out).members@, result_id@, buckets_members(buckets@)),
        assembly_view(*final(out)) == with_appendix(assembly_view(*old(out)), result_id@, header_block, buckets_view(buckets@)),
{
    let ghost s0 = out.span_evidence@;
    let ghost m0 = out.members@;
    add_span(out, "VoteResult", result_id, "appendix_header", header_block, "source_roll_call_number", session_id, meeting_id, date, source_url, cache_path);
    let ghost e0 = seq![("appendix_header"@, header_block, "source_roll_call_number"@)];
    proof {
        lemma_one_span(s0, out.span_evidence@, "VoteResult"@, result_id@, "appendix_header"@, header_block, "source_roll_call_number"@);
        lemma_none_added(out.span_evidence@, m0, result_id@);
        assert(buckets@.take(0) =~= Seq::<AppendixBucket>::empty());
        assert(e0 + buckets_spans(buckets@.take(0)) =~= e0);
    }
    let mut b: usize = 0;
    while b < buckets.len()
        invariant
            b <= buckets.len(),
            forall|k: int| 0 <= k < buckets@.len() ==> bucket_small(#[trigger] buckets@[k]),
            result_known(out.results@, result_id@),
            assembly_ok(*out, session_id, meeting_id, date@, source_url@, cache_path@),
            out.decisions == old(out).decisions,
            out.results == old(out).results,
            out.tallies == old(out).tallies,
            out.unresolved_events == old(out).unresolved_events,
            s0 == old(out).span_evidence@,
            m0 == old(out).members@,
            e0 == seq![("appendix_header"@, header_block, "source_roll_call_number"@)],
            spans_added(s0, out.span_evidence@, "VoteResult"@, result_id@, e0 + buckets_spans(buckets@.take(b as int))),
            members_added(m0, out.members@, result_id@, buckets_members(buckets@.take(b as int))),
        decreases buckets.len() - b,
    {
        let bucket = &buckets[b];
        assert(bucket_small(buckets@[b as int]));
        let ghost sb = out.span_evidence@;
        let ghost mb = out.members@;
        add_span(out, "VoteResult", result_id, "appendix_bucket_count", bucket.count_block, "position,count", session_id, meeting_id, date, source_url, cache_path);
        proof {
            lemma_one_span(sb, out.span_evidence@, "VoteResult"@, result_id@, "appendix_bucket_count"@, bucket.count_block, "position,count"@);
        }
        let ghost sc = out.span_evidence@;
        let ghost names_spans = |nb: u32| ("appendix_voter_names"@, nb, "position,raw_name"@);
        proof {
            lemma_none_added(sc, mb, result_id@);
        }
        let mut n: usize = 0;
        while n < bucket.name_blocks.len()
            invariant
                n <= bucket.name_blocks.len(),
                bucket_small(*bucket),
                result_known(out.results@, result_id@),
                assembly_ok(*out, session_id, meeting_id, date@, source_url@, cache_path@),
                out.decisions == old(out).decisions,
                out.results == old(out).results,
                out.tallies == old(out).tallies,
                out.unresolved_events == old(out).unresolved_events,
                out.members@ == mb,
                spans_added(sc, out.span_evidence@, "VoteResult"@, result_id@, bucket.name_blocks@.take(n as int).map_values(
                    |nb: u32| ("appendix_voter_names"@, nb, "position,raw_name"@),
                )),
            decreases bucket.name_blocks.len() - n,
        {
            let name_block = bucket.name_blocks[n];
            let ghost sn = out.span_evidence@;
            add_span(out, "VoteResult", result_id, "appendix_voter_names", name_block, "position,raw_name", session_id, meeting_id, date, source_url, cache_path);
            proof {
                lemma_one_span(sn, out.span_evidence@, "VoteResult"@, result_id@, "appendix_voter_names"@, name_block, "position,raw_name"@);
                lemma_spans_added_chain(
                    sc,
                    sn,
                    out.span_evidence@,
                    "VoteResult"@,
                    result_id@,
                    bucket.name_blocks@.take(n as int).map_values(|nb: u32| ("appendix_voter_names"@, nb, "position,raw_name"@)),
                    seq![("appendix_voter_names"@, name_block, "position,raw_name"@)],
                );
                assert(bucket.name_blocks@.take(n as int).map_values(|nb: u32| ("appendix_voter_names"@, nb, "position,raw_name"@))
                    + seq![("appendix_voter_names"@, name_block, "position,raw_name"@)] =~= bucket.name_blocks@.take(n + 1).map_values(
                    |nb: u32| ("appendix_voter_names"@, nb, "position,raw_name"@),
                ));
            }
            n = n + 1;
        }
        proof {
            assert(bucket.name_blocks@.take(bucket.name_blocks@.len() as int) =~= bucket.name_blocks@);
        }
        let ghost sd = out.span_evidence@;
        let mut q: usize = 0;
        while q < bucket.names.len()
            invariant
                q <= bucket.names.len(),
                result_known(out.results@, result_id@),
                assembly_ok(*out, session_id, meeting_id, date@, source_url@, cache_path@),
                out.decisions == old(out).decisions,
                out.results == old(out).results,
                out.tallies == old(out).tallies,
                out.unresolved_events == old(out).unresolved_events,
                out.span_evidence@ == sd,
                members_added(mb, out.members@, result_id@, bucket_members(*bucket).take(q as int)),
            decreases bucket.names.len() - q,
        {
            let ghost mq = out.members@;
            add_member(out, result_id, bucket.position.as_str(), q as u32, bucket.names[q].as_str(), session_id, meeting_id, date, source_url, cache_path);
            proof {
                let e1 = bucket_members(*bucket).take(q as int);
                let e2 = seq![(bucket.position@, q as u32, bucket.names@[q as int]@)];
                assert(out.members@.take(mq.len() as int) =~= mq);
                assert(members_added(mq, out.members@, result_id@, e2)) by {
                    assert(e2[0] == (bucket.position@, q as u32, bucket.names@[q as int]@));
                }
                lemma_members_added_chain(mb, mq, out.members@, result_id@, e1, e2);
                assert(e1 + e2 =~= bucket_members(*bucket).take(q + 1));
            }
            q = q + 1;
        }
        proof {
            assert(bucket_members(*bucket).take(bucket.names@.len() as int) =~= bucket_members(*bucket));
            let tb = buckets@.take(b + 1);
            assert(tb.drop_last() =~= buckets@.take(b as int));
            assert(tb.last() == *bucket);
            assert(buckets_spans(tb) == buckets_spans(buckets@.take(b as int)) + bucket_spans(*bucket));
            assert(buckets_members(tb) == buckets_members(buckets@.take(b as int)) + bucket_members(*bucket));
            lemma_spans_added_chain(
                sb,
                sc,
                sd,
                "VoteResult"@,
                result_id@,
                seq![("appendix_bucket_count"@, bucket.count_block, "position,count"@)],
                bucket.name_blocks@.map_values(|nb: u32| ("appendix_voter_names"@, nb, "position,raw_name"@)),
            );
            lemma_spans_added_chain(
                s0,
                sb,
                sd,
                "VoteResult"@,
                result_id@,
                e0 + buckets_spans(buckets@.take(b as int)),
                bucket_spans(*bucket),
            );
            assert(e0 + buckets_spans(buckets@.take(b as int)) + bucket_spans(*bucket) =~= e0 + buckets_spans(tb));
            lemma_members_added_chain(m0, mb, out.members@, result_id@, buckets_members(buckets@.take(b as int)), bucket_members(*bucket));
        }
        b = b + 1;
    }
    proof {
        assert(buckets@.take(buckets@.len() as int) =~= buckets@);
        lemma_buckets_v(buckets@);
        lemma_spans_view(old(out).span_evidence@, out.span_evidence@, "VoteResult"@, result_id@, seq![("appendix_header"@, header_block, "source_roll_call_number"@)] + buckets_spans(buckets@));
        lemma_members_view(old(out).members@, out.members@, result_id@, buckets_members(buckets@));
        assert(assembly_view(*out).spans == with_appendix(assembly_view(*old(out)), result_id@, header_block, buckets_view(buckets@)).spans);
        assert(assembly_view(*out).members == with_appendix(assembly_view(*old(out)), result_id@, header_block, buckets_view(buckets@)).members);
    }
}

/// What the assembly reads a report with: the meeting, its date and source, and the
/// appendices parsed from the whole report.
pub struct VoteCtx {
    pub session_id: u32,
    pub meeting_id: u32,
    pub date: Seq<char>,
    pub source_url: Seq<char>,
    pub cache_path: Seq<char>,
    pub appendix: Seq<AppendixView>,
}

/// The state of the assembly while reading a report: the output so far, the vote section,
/// whether a formal vote zone is open, the pending title, the results by vote number, the
/// vote numbers of the roll-call tables seen, and whether a sitting-standing vote is open.
pub struct VoteScan {
    pub out: AssemblyView,
    pub section: VoteSectionKind,
    pub formal_zone: bool,
    pub pending: RefsView,
    pub by_source: Seq<(Seq<char>, Seq<char>)>,
    pub roll_sources: Seq<Seq<char>>,
    pub standing: bool,
}

/// The appendices among the first `n` blocks: each header's vote number, block and buckets.
pub open spec fn appendices_upto(blocks: Seq<ReportBlock>, n: int) -> Seq<AppendixView>
    decreases n,
{
    if n <= 0 || n > blocks.len() {
        Seq::empty()
    } else {
        let prev = appendices_upto(blocks, n - 1);
        match appendix_vote_number(blocks[n - 1].text@) {
            Some(num) => prev.push((num, blocks[n - 1].index, appendix_scan(blocks, n, Seq::empty()))),
            None => prev,
        }
    }
}

/// A question to reuse the result of an earlier vote.
pub open spec fn vote_reuse(st: VoteScan, blocks: Seq<ReportBlock>, cur: int, c: VoteCtx) -> VoteScan {
    let b = blocks[cur];
    let sr = scan_reuse(blocks, cur, 1, 6);
    let source_num = sr.0;
    let title = merged_titles(st.pending, recovered_refs(blocks, 0, cur));
    match last_source(st.by_source, source_num) {
        Some(rid) => {
            let outcome = match sr.1 {
                Some(mi) => scan_outcome(blocks, mi, 1, 4),
                None => Seq::empty(),
            };
            let vid = next_vote_id(st.out, c.session_id, c.meeting_id);
            let o1 = with_decision(st.out, c.session_id, c.meeting_id, c.date, rid, title, "roll_call"@, "complete"@, outcome, source_num, true, c.source_url, c.cache_path);
            let o2 = with_title_spans(o1, vid, title.5);
            let o3 = with_span(o2, "Vote"@, vid, "result_reuse"@, b.index, "result_id,reuses_result"@);
            let o4 = with_span(o3, "VoteResult"@, rid, "result_reuse_reference"@, b.index, "result_id"@);
            VoteScan { out: o4, pending: no_refs(), ..st }
        },
        None => VoteScan {
            out: with_unresolved(st.out, c.session_id, c.meeting_id, "result_reuse"@, source_num, b, "reuse_without_matching_result"@, c.source_url, c.cache_path),
            ..st
        },
    }
}

/// A sitting-and-standing outcome: a result, its outcome span, and the pending decision.
pub open spec fn vote_standing(st: VoteScan, b: ReportBlock, c: VoteCtx) -> VoteScan {
    let outcome = match outcome_of(b.text@) {
        Some(o) => o,
        None => "unknown"@,
    };
    let rid = next_result_id(st.out, c.session_id, c.meeting_id);
    let o1 = with_result(st.out, c.session_id, c.meeting_id, "sitting_standing"@, false, "complete"@, outcome, Seq::empty(), c.source_url, c.cache_path);
    let o2 = with_span(o1, "VoteResult"@, rid, "formal_outcome"@, b.index, "outcome,method"@);
    let vid = next_vote_id(o2, c.session_id, c.meeting_id);
    let o3 = with_decision(o2, c.session_id, c.meeting_id, c.date, rid, st.pending, "sitting_standing"@, "complete"@, outcome, Seq::empty(), false, c.source_url, c.cache_path);
    let o4 = with_title_spans(o3, vid, st.pending.5);
    VoteScan { out: o4, pending: no_refs(), standing: false, ..st }
}

/// The text of the block after `cur`, or nothing at the end of the report.
pub open spec fn next_text(blocks: Seq<ReportBlock>, cur: int) -> Seq<char> {
    if cur + 1 < blocks.len() {
        blocks[cur + 1].text@
    } else {
        ""@
    }
}

/// A numbered roll call whose quorum was not reached: a failed result with its quorum
/// evidence and participation counts, and the pending decision.
pub open spec fn vote_quorum(st: VoteScan, blocks: Seq<ReportBlock>, cur: int, sn: Seq<char>, c: VoteCtx) -> VoteScan {
    let b = blocks[cur];
    let next_quorum = regex_is_match(QUORUM_FAILURE_PATTERN@, next_text(blocks, cur));
    let qb = if next_quorum && cur + 1 < blocks.len() {
        blocks[cur + 1]
    } else {
        b
    };
    let rid = next_result_id(st.out, c.session_id, c.meeting_id);
    let o1 = with_result(st.out, c.session_id, c.meeting_id, "roll_call"@, false, "no_quorum"@, "failed"@, sn, c.source_url, c.cache_path);
    let o2 = with_span(o1, "VoteResult"@, rid, "quorum_statement"@, qb.index, "status,outcome"@);
    let o3 = with_span(o2, "VoteResult"@, rid, "result_reference"@, b.index, "source_roll_call_number"@);
    let o4 = match participation(qb.text@) {
        Some((participated, required)) => {
            let t1 = with_tally(o3, rid, "participation"@, "participated"@, "deelgenomen"@, "ont participé"@, participated);
            let t2 = with_span(t1, "VoteResult"@, rid, "quorum_participation"@, qb.index, "participated,required"@);
            match required {
                Some(req) => with_tally(t2, rid, "participation"@, "required"@, "vereist quorum"@, "quorum requis"@, req),
                None => t2,
            }
        },
        None => o3,
    };
    let vid = next_vote_id(o4, c.session_id, c.meeting_id);
    let o5 = with_decision(o4, c.session_id, c.meeting_id, c.date, rid, st.pending, "roll_call"@, "no_quorum"@, "failed"@, sn, false, c.source_url, c.cache_path);
    let o6 = with_title_spans(o5, vid, st.pending.5);
    VoteScan {
        out: o6,
        by_source: st.by_source.push((sn, rid)),
        pending: no_refs(),
        formal_zone: if st.section != VoteSectionKind::RollCall {
            false
        } else {
            st.formal_zone
        },
        ..st
    }
}

/// A paragraph proposing a sitting-and-standing vote opens one, and gives its title when
/// none is pending.
pub open spec fn standing_prefix(st: VoteScan, b: ReportBlock) -> VoteScan {
    if sitting_standing(b.text@) {
        VoteScan {
            standing: true,
            pending: if st.pending.0.len() == 0 && st.pending.1.len() == 0 {
                titled_refs(st.pending, b, false)
            } else {
                st.pending
            },
            ..st
        }
    } else {
        st
    }
}

/// A paragraph of the report.
pub open spec fn vote_paragraph(st: VoteScan, blocks: Seq<ReportBlock>, cur: int, c: VoteCtx) -> VoteScan {
    let b = blocks[cur];
    let text = b.text@;
    let sa = standing_prefix(st, b);
    if vote_title_paragraph(text) {
        VoteScan { pending: titled_refs(sa.pending, b, true), ..sa }
    } else if regex_is_match(REUSE_RESULT_PATTERN@, text) {
        vote_reuse(sa, blocks, cur, c)
    } else if sa.standing && (regex_is_match(SITTING_STANDING_OUTCOME_PATTERN@, text) || (outcome_of(text) is Some
        && contains(lowercase(text), "zitten en opstaan"@))) {
        vote_standing(sa, b, c)
    } else if (sa.section == VoteSectionKind::RollCall || sa.formal_zone) && paragraph_vote_number(text) is Some && (
    regex_is_match(QUORUM_FAILURE_PATTERN@, next_text(blocks, cur)) || regex_is_match(QUORUM_FAILURE_PATTERN@, text)) {
        vote_quorum(sa, blocks, cur, paragraph_vote_number(text)->0, c)
    } else {
        sa
    }
}

/// A secret-ballot table with statistics: its result, tallies, candidates and outcome, and
/// the pending decision.
pub open spec fn vote_secret(st: VoteScan, blocks: Seq<ReportBlock>, cur: int, sec: ParsedSecretTable, c: VoteCtx) -> VoteScan {
    let b = blocks[cur];
    let ev = secret_outcome_from(blocks, cur, 0);
    let outcome = match ev {
        Some((o, _)) => o,
        None => Seq::empty(),
    };
    let rid = next_result_id(st.out, c.session_id, c.meeting_id);
    let o1 = with_result(st.out, c.session_id, c.meeting_id, "secret_ballot"@, false, "complete"@, outcome, Seq::empty(), c.source_url, c.cache_path);
    let o2 = with_span(o1, "VoteResult"@, rid, "secret_statistics"@, b.index, "method,status"@);
    let o3 = AssemblyView { tallies: o2.tallies + entry_tallies(rid, "statistic"@, secret_entries(sec)), ..o2 };
    let o4 = with_candidates(o3, blocks, cur, rid);
    let o5 = match ev {
        Some((_, ob)) => with_span(o4, "VoteResult"@, rid, "formal_outcome"@, ob, "outcome"@),
        None => o4,
    };
    let vid = next_vote_id(o5, c.session_id, c.meeting_id);
    let o6 = with_decision(o5, c.session_id, c.meeting_id, c.date, rid, st.pending, "secret_ballot"@, "complete"@, outcome, Seq::empty(), false, c.source_url, c.cache_path);
    let o7 = with_title_spans(o6, vid, st.pending.5);
    VoteScan { out: o7, pending: no_refs(), ..st }
}

/// The unresolved events of a language-group table whose group counts do not add up.
pub open spec fn mismatch_events(b: ReportBlock, sn: Seq<char>, buckets: Seq<Seq<char>>, c: VoteCtx) -> Seq<UnresolvedView> {
    buckets.map_values(
        |bk: Seq<char>|
            (c.session_id, c.meeting_id, "language_group_counts"@, sn, b.index, (b.index + 1) as u32, "language_group_sum_mismatch:"@ + bk, b.text@, c.source_url, c.cache_path),
    )
}

/// A roll-call table: its result with spans, count mismatches and tallies, the evidence of
/// its appendix, and the pending decision.
pub open spec fn vote_roll_call(
    st: VoteScan,
    blocks: Seq<ReportBlock>,
    cur: int,
    p: (Seq<char>, RollCallTableShape, RollCallCounts, Seq<Seq<char>>),
    c: VoteCtx,
) -> VoteScan {
    let b = blocks[cur];
    let sn = p.0;
    let method = if p.1 == RollCallTableShape::LanguageGroup {
        "language_group_roll_call"@
    } else {
        "roll_call"@
    };
    let ev = roll_call_outcome_from(blocks, cur, 0);
    let outcome = match ev {
        Some((o, _)) => o,
        None => Seq::empty(),
    };
    let rid = next_result_id(st.out, c.session_id, c.meeting_id);
    let o1 = with_result(st.out, c.session_id, c.meeting_id, method, true, "complete"@, outcome, sn, c.source_url, c.cache_path);
    let o2 = with_span(o1, "VoteResult"@, rid, "result_table"@, b.index, "method,status,outcome"@);
    let o3 = with_span(o2, "VoteResult"@, rid, "result_reference"@, b.index, "source_roll_call_number"@);
    let count_role = if p.1 == RollCallTableShape::LanguageGroup {
        "language_group_counts"@
    } else {
        "overall_counts"@
    };
    let o4 = with_span(o3, "VoteResult"@, rid, count_role, b.index, "yes,no,abstain"@);
    let o5 = match ev {
        Some((_, ob)) => with_span(o4, "VoteResult"@, rid, "formal_outcome"@, ob, "outcome"@),
        None => o4,
    };
    let o6 = AssemblyView { unresolved: o5.unresolved + mismatch_events(b, sn, p.3, c), ..o5 };
    let o7 = AssemblyView { tallies: o6.tallies + entry_tallies(rid, "position"@, rc_entries(p.1, p.2)), ..o6 };
    let o8 = match nth_appendix_from(c.appendix, sn, occurrences(st.roll_sources, sn), 0, 0) {
        Some(ai) => with_appendix(o7, rid, c.appendix[ai].1, c.appendix[ai].2),
        None => o7,
    };
    let vid = next_vote_id(o8, c.session_id, c.meeting_id);
    let o9 = with_decision(o8, c.session_id, c.meeting_id, c.date, rid, st.pending, method, "complete"@, outcome, sn, false, c.source_url, c.cache_path);
    let o10 = with_title_spans(o9, vid, st.pending.5);
    VoteScan {
        out: o10,
        roll_sources: st.roll_sources.push(sn),
        by_source: st.by_source.push((sn, rid)),
        pending: no_refs(),
        formal_zone: if st.section != VoteSectionKind::RollCall {
            false
        } else {
            st.formal_zone
        },
        ..st
    }
}

/// A table of the report.
pub open spec fn vote_table(st: VoteScan, blocks: Seq<ReportBlock>, cur: int, c: VoteCtx) -> VoteScan {
    let b = blocks[cur];
    let rc = match b.table_rows {
        Some(rows) => roll_call_table(rows@),
        None => None,
    };
    let in_secret_roll_call = st.section == VoteSectionKind::SecretBallot && rc is Some;
    if st.section == VoteSectionKind::SecretBallot && !in_secret_roll_call {
        let sec = match b.table_rows {
            None => no_statistics(),
            Some(rows) => secret_fold(rows@),
        };
        if sec.voters is Some || sec.valid is Some {
            vote_secret(st, blocks, cur, sec, c)
        } else {
            st
        }
    } else if !(st.section == VoteSectionKind::RollCall || st.formal_zone || in_secret_roll_call) {
        st
    } else {
        match rc {
            Some(p) => vote_roll_call(st, blocks, cur, p, c),
            None => st,
        }
    }
}

/// One block of the report read by the assembly.
pub open spec fn vote_step(st: VoteScan, blocks: Seq<ReportBlock>, cur: int, c: VoteCtx) -> VoteScan {
    let b = blocks[cur];
    let text = b.text@;
    let heading = section_kind(text);
    let section = if heading != VoteSectionKind::Other {
        heading
    } else if b.tag == BlockTag::H1 {
        VoteSectionKind::Other
    } else {
        st.section
    };
    let fz0 = if heading != VoteSectionKind::Other {
        if heading == VoteSectionKind::RollCall {
            true
        } else {
            st.formal_zone
        }
    } else if b.tag == BlockTag::H1 {
        false
    } else {
        st.formal_zone
    };
    let fz = if b.tag == BlockTag::P && regex_is_match(FORMAL_VOTE_BEGIN_PATTERN@, text) {
        true
    } else {
        fz0
    };
    let s1 = VoteScan { section, formal_zone: fz, ..st };
    if b.tag == BlockTag::H1 {
        VoteScan {
            pending: no_refs(),
            standing: if section != VoteSectionKind::SecretBallot {
                false
            } else {
                st.standing
            },
            ..s1
        }
    } else if b.tag == BlockTag::H2 {
        let s2 = VoteScan { formal_zone: false, standing: false, ..s1 };
        if section == VoteSectionKind::SecretBallot {
            VoteScan { pending: titled_refs(s2.pending, b, true), ..s2 }
        } else if section == VoteSectionKind::RollCall && !numbered_heading(text) {
            VoteScan { section: VoteSectionKind::Other, ..s2 }
        } else {
            s2
        }
    } else if b.tag == BlockTag::P {
        vote_paragraph(s1, blocks, cur, c)
    } else if b.tag == BlockTag::Table {
        vote_table(s1, blocks, cur, c)
    } else {
        s1
    }
}

/// The assembly state after the first `n` blocks.
pub open spec fn vote_upto(blocks: Seq<ReportBlock>, n: int, c: VoteCtx) -> VoteScan
    decreases n,
{
    if n <= 0 || n > blocks.len() {
        VoteScan {
            out: AssemblyView {
                decisions: Seq::empty(),
                results: Seq::empty(),
                tallies: Seq::empty(),
                members: Seq::empty(),
                spans: Seq::empty(),
                unresolved: Seq::empty(),
            },
            section: VoteSectionKind::Other,
            formal_zone: false,
            pending: no_refs(),
            by_source: Seq::empty(),
            roll_sources: Seq::empty(),
            standing: false,
        }
    } else {
        vote_step(vote_upto(blocks, n - 1, c), blocks, n - 1, c)
    }
}

/// The votes of a report: everything the blocks give, read in order, then without the
/// decisions that have no title.
pub open spec fn assembled_votes(
    blocks: Seq<ReportBlock>,
    session_id: u32,
    meeting_id: u32,
    date: Seq<char>,
    source_url: Seq<char>,
    cache_path: Seq<char>,
) -> AssemblyView {
    let c = VoteCtx { session_id, meeting_id, date, source_url, cache_path, appendix: appendices_upto(blocks, blocks.len() as int) };
    discarded_untitled(vote_upto(blocks, blocks.len() as int, c).out, session_id, meeting_id)
}

/// The assembly state of the exec variables.
spec fn scan_of(
    out: VoteAssemblyOutput,
    section: VoteSectionKind,
    formal_zone: bool,
    pending: TitleRefs,
    by_source: Seq<(String, String)>,
    roll_sources: Seq<Seq<char>>,
    standing: bool,
) -> VoteScan {
    VoteScan {
        out: assembly_view(out),
        section,
        formal_zone,
        pending: refs_view(pending),
        by_source: renames_view(by_source),
        roll_sources,
        standing,
    }
}

/// Read a paragraph of the report.
#[verifier::rlimit(100)]
#[verifier::spinoff_prover]
fn read_paragraph(
    out: &mut VoteAssemblyOutput,
    section: VoteSectionKind,
    formal_zone: &mut bool,
    pending: &mut TitleRefs,
    by_source: &mut Vec<(String, String)>,
    sitting_standing_context: &mut bool,
    blocks: &[ReportBlock],
    cur: usize,
    session_id: u32,
    meeting_id: u32,
    date: &str,
    source_url: &str,
    cache_path: &str,
    c: Ghost<VoteCtx>,
    roll: Ghost<Seq<Seq<char>>>,
)
    requires
        cur < blocks@.len() < u32::MAX,
        indices_below_max(blocks@),
        assembly_ok(*old(out), session_id, meeting_id, date@, source_url@, cache_path@),
        old(out).decisions@.len() <= cur,
        old(out).results@.len() <= cur,
        refs_ok(*old(pending)),
        forall|k: int| 0 <= k < old(by_source)@.len() ==> result_known(old(out).results@, (#[trigger] old(by_source)@[k]).1@),
        c@.session_id == session_id && c@.meeting_id == meeting_id,
        c@.date == date@ && c@.source_url == source_url@ && c@.cache_path == cache_path@,
        blocks@[cur as int].tag == BlockTag::P,
    ensures
        assembly_ok(*final(out), session_id, meeting_id, date@, source_url@, cache_path@),
        final(out).decisions@.len() <= cur + 1,
        final(out).results@.len() <= cur + 1,
        refs_ok(*final(pending)),
        forall|k: int| 0 <= k < final(by_source)@.len() ==> result_known(final(out).results@, (#[trigger] final(by_source)@[k]).1@),
        scan_of(*final(out), section, *final(formal_zone), *final(pending), final(by_source)@, roll@, *final(sitting_standing_context))
            == vote_paragraph(scan_of(*old(out), section, *old(formal_zone), *old(pending), old(by_source)@, roll@, *old(sitting_standing_context)), blocks@, cur as int, c@),
{
    let ghost gd = date@;
    let ghost gu = source_url@;
    let ghost gc = cache_path@;
    let block = &blocks[cur];
    assert(block.index < u32::MAX);
    let text = block.text.as_str();
    let ghost s0 = scan_of(*out, section, *formal_zone, *pending, by_source@, roll@, *sitting_standing_context);
    if is_sitting_standing_proposal(text) {
        *sitting_standing_context = true;
        if pending.title_nl.as_str().is_empty() && pending.title_fr.as_str().is_empty() {
            take_title(pending, block, false);
        }
    }
    let ghost sa = scan_of(*out, section, *formal_zone, *pending, by_source@, roll@, *sitting_standing_context);
    assert(sa == standing_prefix(s0, blocks@[cur as int]));
    if paragraph_vote_title(text) {
        take_title(pending, block, true);
        return;
    }
    if is_reuse_question(text) {
        let (source_num, marker_idx) = scan_reuse_marker(blocks, cur, 6);
        let recovered = recover_title_between(blocks, 0, cur);
        let title = merge_titles(&*pending, recovered);
        let ghost sr = scan_reuse(blocks@, cur as int, 1, 6);
        let ghost gtitle = merged_titles(sa.pending, recovered_refs(blocks@, 0, cur as int));
        assert(refs_view(title) == gtitle);
        assert(source_num@ == sr.0);
        match last_result_for(&*by_source, source_num.as_str()) {
            Some(result_id) => {
                assert(last_source(sa.by_source, sr.0) == Some(result_id@));
                let outcome = match marker_idx {
                    Some(mi) => scan_formal_outcome_after(blocks, mi, 4),
                    None => String::new(),
                };
                assert(outcome@ == match sr.1 {
                    Some(mi) => scan_outcome(blocks@, mi, 1, 4),
                    None => Seq::<char>::empty(),
                });
                let ghost vid = next_vote_id(sa.out, session_id, meeting_id);
                let vote_id = add_decision(out, session_id, meeting_id, date, result_id.as_str(), &title, "roll_call", "complete", outcome.as_str(), source_num.as_str(), true, source_url, cache_path);
                let ghost o1 = assembly_view(*out);
                assert(o1 == with_decision(sa.out, session_id, meeting_id, date@, result_id@, gtitle, "roll_call"@, "complete"@, outcome@, sr.0, true, source_url@, cache_path@));
                add_title_spans(out, vote_id.as_str(), &title, session_id, meeting_id, Ghost(gd), Ghost(gu), Ghost(gc));
                assert(assembly_view(*out) == with_title_spans(o1, vid, gtitle.5));
                add_span(out, "Vote", vote_id.as_str(), "result_reuse", block.index, "result_id,reuses_result", session_id, meeting_id, Ghost(gd), Ghost(gu), Ghost(gc));
                add_span(out, "VoteResult", result_id.as_str(), "result_reuse_reference", block.index, "result_id", session_id, meeting_id, Ghost(gd), Ghost(gu), Ghost(gc));
                *pending = empty_refs();
                assert(scan_of(*out, section, *formal_zone, *pending, by_source@, roll@, *sitting_standing_context) == vote_reuse(sa, blocks@, cur as int, c@));
            },
            None => {
                assert(last_source(sa.by_source, sr.0) is None);
                add_unresolved(out, session_id, meeting_id, "result_reuse", source_num.as_str(), block, "reuse_without_matching_result", source_url, cache_path, Ghost(gd));
                assert(scan_of(*out, section, *formal_zone, *pending, by_source@, roll@, *sitting_standing_context) == vote_reuse(sa, blocks@, cur as int, c@));
            },
        }
        assert(vote_paragraph(s0, blocks@, cur as int, c@) == vote_reuse(sa, blocks@, cur as int, c@));
        assert(s0 == scan_of(*old(out), section, *old(formal_zone), *old(pending), old(by_source)@, roll@, *old(sitting_standing_context)));
        assert(scan_of(*out, section, *formal_zone, *pending, by_source@, roll@, *sitting_standing_context) == vote_paragraph(s0, blocks@, cur as int, c@));
        return;
    }
    let standing_outcome = if *sitting_standing_context {
        if is_sitting_standing_outcome(text) {
            true
        } else {
            let lower = to_lower(text);
            formal_outcome(text).is_some() && str_contains(lower.as_str(), "zitten en opstaan")
        }
    } else {
        false
    };
    if standing_outcome {
        let outcome = match formal_outcome(text) {
            Some(o) => o.to_string(),
            None => "unknown".to_string(),
        };
        assert(outcome@ == match outcome_of(text@) {
            Some(o) => o,
            None => "unknown"@,
        });
        proof {
            reveal_strlit("");
            assert(""@ =~= Seq::<char>::empty());
        }
        let result_id = add_result(out, session_id, meeting_id, "sitting_standing", false, "complete", outcome.as_str(), "", source_url, cache_path, Ghost(gd));
        let ghost o1 = assembly_view(*out);
        add_span(out, "VoteResult", result_id.as_str(), "formal_outcome", block.index, "outcome,method", session_id, meeting_id, Ghost(gd), Ghost(gu), Ghost(gc));
        let ghost o2 = assembly_view(*out);
        assert(o2 == with_span(o1, "VoteResult"@, result_id@, "formal_outcome"@, block.index, "outcome,method"@));
        let vote_id = add_decision(out, session_id, meeting_id, date, result_id.as_str(), &*pending, "sitting_standing", "complete", outcome.as_str(), "", false, source_url, cache_path);
        let ghost o3 = assembly_view(*out);
        assert(vote_id@ == next_vote_id(o2, session_id, meeting_id));
        add_title_spans(out, vote_id.as_str(), &*pending, session_id, meeting_id, Ghost(gd), Ghost(gu), Ghost(gc));
        assert(assembly_view(*out) == with_title_spans(o3, vote_id@, sa.pending.5));
        *pending = empty_refs();
        *sitting_standing_context = false;
        assert(scan_of(*out, section, *formal_zone, *pending, by_source@, roll@, *sitting_standing_context) == vote_standing(sa, blocks@[cur as int], c@));
        assert(vote_paragraph(s0, blocks@, cur as int, c@) == vote_standing(sa, blocks@[cur as int], c@));
        return;
    }
    let in_roll_call_zone = section == VoteSectionKind::RollCall || *formal_zone;
    if in_roll_call_zone {
        match parse_paragraph_vote_number(text) {
            Some(source_num) => {
                let has_next = cur + 1 < blocks.len();
                let next_text = if has_next {
                    blocks[cur + 1].text.as_str()
                } else {
                    ""
                };
                let next_quorum = is_quorum_failure(next_text);
                if next_quorum || is_quorum_failure(text) {
                    let ghost sn = source_num@;
                    let ghost b = blocks@[cur as int];
                    assert(next_text@ == self::next_text(blocks@, cur as int));
                    let result_id = add_result(out, session_id, meeting_id, "roll_call", false, "no_quorum", "failed", source_num.as_str(), source_url, cache_path, Ghost(gd));
                    let ghost rid = result_id@;
                    let ghost o1 = assembly_view(*out);
                    let quorum_block = if next_quorum && has_next {
                        &blocks[cur + 1]
                    } else {
                        block
                    };
                    assert(quorum_block.index < u32::MAX);
                    add_span(out, "VoteResult", result_id.as_str(), "quorum_statement", quorum_block.index, "status,outcome", session_id, meeting_id, Ghost(gd), Ghost(gu), Ghost(gc));
                    add_span(out, "VoteResult", result_id.as_str(), "result_reference", block.index, "source_roll_call_number", session_id, meeting_id, Ghost(gd), Ghost(gu), Ghost(gc));
                    let ghost o3 = assembly_view(*out);
                    assert(o3 == with_span(with_span(o1, "VoteResult"@, rid, "quorum_statement"@, quorum_block.index, "status,outcome"@), "VoteResult"@, rid, "result_reference"@, b.index, "source_roll_call_number"@));
                    match parse_participation(quorum_block.text.as_str()) {
                        Some((participated, required)) => {
                            add_tally(out, result_id.as_str(), "participation", "participated", "deelgenomen", "ont participé", participated, session_id, meeting_id, Ghost(gd), Ghost(gu), Ghost(gc));
                            add_span(out, "VoteResult", result_id.as_str(), "quorum_participation", quorum_block.index, "participated,required", session_id, meeting_id, Ghost(gd), Ghost(gu), Ghost(gc));
                            let ghost t2 = assembly_view(*out);
                            assert(t2 == with_span(with_tally(o3, rid, "participation"@, "participated"@, "deelgenomen"@, "ont participé"@, participated), "VoteResult"@, rid, "quorum_participation"@, quorum_block.index, "participated,required"@));
                            match required {
                                Some(req) => {
                                    add_tally(out, result_id.as_str(), "participation", "required", "vereist quorum", "quorum requis", req, session_id, meeting_id, Ghost(gd), Ghost(gu), Ghost(gc));
                                },
                                None => {},
                            }
                        },
                        None => {},
                    }
                    let ghost o4 = assembly_view(*out);
                    let vote_id = add_decision(out, session_id, meeting_id, date, result_id.as_str(), &*pending, "roll_call", "no_quorum", "failed", source_num.as_str(), false, source_url, cache_path);
                    let ghost o5 = assembly_view(*out);
                    assert(vote_id@ == next_vote_id(o4, session_id, meeting_id));
                    add_title_spans(out, vote_id.as_str(), &*pending, session_id, meeting_id, Ghost(gd), Ghost(gu), Ghost(gc));
                    assert(assembly_view(*out) == with_title_spans(o5, vote_id@, sa.pending.5));
                    let ghost bs0 = by_source@;
                    by_source.push((source_num, result_id));
                    assert(renames_view(by_source@) =~= renames_view(bs0).push((sn, rid)));
                    *pending = empty_refs();
                    if section != VoteSectionKind::RollCall {
                        *formal_zone = false;
                    }
                    assert(scan_of(*out, section, *formal_zone, *pending, by_source@, roll@, *sitting_standing_context) == vote_quorum(sa, blocks@, cur as int, sn, c@));
                    assert(vote_paragraph(s0, blocks@, cur as int, c@) == vote_quorum(sa, blocks@, cur as int, sn, c@));
                    return;
                }
            },
            None => {},
        }
    }
}

/// Read a table of the report.
#[verifier::rlimit(100)]
#[verifier::spinoff_prover]
fn read_table(
    out: &mut VoteAssemblyOutput,
    section: VoteSectionKind,
    formal_zone: &mut bool,
    pending: &mut TitleRefs,
    by_source: &mut Vec<(String, String)>,
    roll_sources: &mut Vec<String>,
    appendix: &Vec<(String, u32, Vec<AppendixBucket>)>,
    blocks: &[ReportBlock],
    cur: usize,
    session_id: u32,
    meeting_id: u32,
    date: &str,
    source_url: &str,
    cache_path: &str,
    c: Ghost<VoteCtx>,
    standing: bool,
)
    requires
        cur < blocks@.len() < u32::MAX,
        indices_below_max(blocks@),
        assembly_ok(*old(out), session_id, meeting_id, date@, source_url@, cache_path@),
        old(out).decisions@.len() <= cur,
        old(out).results@.len() <= cur,
        refs_ok(*old(pending)),
        forall|k: int| 0 <= k < old(by_source)@.len() ==> result_known(old(out).results@, (#[trigger] old(by_source)@[k]).1@),
        c@.session_id == session_id && c@.meeting_id == meeting_id,
        c@.date == date@ && c@.source_url == source_url@ && c@.cache_path == cache_path@,
        blocks@[cur as int].tag == BlockTag::Table,
        appendix_small(appendix@),
        appendix_view(appendix@) == c@.appendix,
    ensures
        assembly_ok(*final(out), session_id, meeting_id, date@, source_url@, cache_path@),
        final(out).decisions@.len() <= cur + 1,
        final(out).results@.len() <= cur + 1,
        refs_ok(*final(pending)),
        forall|k: int| 0 <= k < final(by_source)@.len() ==> result_known(final(out).results@, (#[trigger] final(by_source)@[k]).1@),
        scan_of(*final(out), section, *final(formal_zone), *final(pending), final(by_source)@, final(roll_sources).deep_view(), standing)
            == vote_table(scan_of(*old(out), section, *old(formal_zone), *old(pending), old(by_source)@, old(roll_sources).deep_view(), standing), blocks@, cur as int, c@),
{
    let ghost gd = date@;
    let ghost gu = source_url@;
    let ghost gc = cache_path@;
    let block = &blocks[cur];
    assert(block.index < u32::MAX);
    let ghost b = blocks@[cur as int];
    let ghost s0 = scan_of(*out, section, *formal_zone, *pending, by_source@, roll_sources.deep_view(), standing);
    proof {
        reveal_strlit("");
        assert(""@ =~= Seq::<char>::empty());
    }
    let roll_call_in_secret_zone = section == VoteSectionKind::SecretBallot
        && parse_roll_call_table(block).is_some();
    if section == VoteSectionKind::SecretBallot && !roll_call_in_secret_zone {
        let secret = parse_secret_ballot_table(block);
        if secret.voters.is_some() || secret.valid.is_some() {
            let evidence = infer_secret_outcome(blocks, cur);
            let outcome = match &evidence {
                Some((o, _)) => o.clone(),
                None => String::new(),
            };
            let result_id = add_result(out, session_id, meeting_id, "secret_ballot", false, "complete", outcome.as_str(), "", source_url, cache_path, Ghost(gd));
            let ghost rid = result_id@;
            add_span(out, "VoteResult", result_id.as_str(), "secret_statistics", block.index, "method,status", session_id, meeting_id, Ghost(gd), Ghost(gu), Ghost(gc));
            let ghost o2 = assembly_view(*out);
            let ghost before = *out;
            push_secret_tallies(&mut out.tallies, result_id.as_str(), &secret, Ghost(out.results@));
            proof {
                lemma_tallies_grow_keeps(before, *out, session_id, meeting_id, gd, gu, gc);
            }
            let ghost o3 = assembly_view(*out);
            assert(o3 == AssemblyView { tallies: o2.tallies + entry_tallies(rid, "statistic"@, secret_entries(secret)), ..o2 });
            attach_secret_candidates_after_table(blocks, cur, result_id.as_str(), out, session_id, meeting_id, Ghost(gd), Ghost(gu), Ghost(gc));
            let ghost o4 = assembly_view(*out);
            match evidence {
                Some((_, outcome_block)) => {
                    add_span(out, "VoteResult", result_id.as_str(), "formal_outcome", outcome_block, "outcome", session_id, meeting_id, Ghost(gd), Ghost(gu), Ghost(gc));
                },
                None => {},
            }
            let ghost o5 = assembly_view(*out);
            let vote_id = add_decision(out, session_id, meeting_id, date, result_id.as_str(), &*pending, "secret_ballot", "complete", outcome.as_str(), "", false, source_url, cache_path);
            let ghost o6 = assembly_view(*out);
            assert(vote_id@ == next_vote_id(o5, session_id, meeting_id));
            add_title_spans(out, vote_id.as_str(), &*pending, session_id, meeting_id, Ghost(gd), Ghost(gu), Ghost(gc));
            assert(assembly_view(*out) == with_title_spans(o6, vote_id@, s0.pending.5));
            *pending = empty_refs();
            assert(scan_of(*out, section, *formal_zone, *pending, by_source@, roll_sources.deep_view(), standing) == vote_secret(s0, blocks@, cur as int, secret, c@));
        }
        return;
    }
    let in_roll_call_zone = section == VoteSectionKind::RollCall || *formal_zone
        || roll_call_in_secret_zone;
    if !in_roll_call_zone {
        return;
    }
    match parse_roll_call_table(block) {
        Some(parsed) => {
            let ghost p = parsed_roll_call_view(parsed);
            let ghost sn = p.0;
            let method = match parsed.shape {
                RollCallTableShape::Standard => "roll_call",
                RollCallTableShape::LanguageGroup => "language_group_roll_call",
            };
            let evidence = infer_roll_call_outcome(blocks, cur);
            let outcome = match &evidence {
                Some((o, _)) => o.clone(),
                None => String::new(),
            };
            let result_id = add_result(out, session_id, meeting_id, method, true, "complete", outcome.as_str(), parsed.source_number.as_str(), source_url, cache_path, Ghost(gd));
            let ghost rid = result_id@;
            add_span(out, "VoteResult", result_id.as_str(), "result_table", block.index, "method,status,outcome", session_id, meeting_id, Ghost(gd), Ghost(gu), Ghost(gc));
            add_span(out, "VoteResult", result_id.as_str(), "result_reference", block.index, "source_roll_call_number", session_id, meeting_id, Ghost(gd), Ghost(gu), Ghost(gc));
            let count_role = if parsed.shape == RollCallTableShape::LanguageGroup {
                "language_group_counts"
            } else {
                "overall_counts"
            };
            add_span(out, "VoteResult", result_id.as_str(), count_role, block.index, "yes,no,abstain", session_id, meeting_id, Ghost(gd), Ghost(gu), Ghost(gc));
            match evidence {
                Some((_, outcome_block)) => {
                    add_span(out, "VoteResult", result_id.as_str(), "formal_outcome", outcome_block, "outcome", session_id, meeting_id, Ghost(gd), Ghost(gu), Ghost(gc));
                },
                None => {},
            }
            let ghost o5 = assembly_view(*out);
            let mut u: usize = 0;
            while u < parsed.invalid_language_group_buckets.len()
                invariant
                    block.index < u32::MAX,
                    b == *block,
                    p == parsed_roll_call_view(parsed),
                    sn == parsed.source_number@,
                    c@.session_id == session_id && c@.meeting_id == meeting_id,
                    c@.source_url == gu && c@.cache_path == gc,
                    u <= parsed.invalid_language_group_buckets.len(),
                    result_known(out.results@, result_id@),
                    assembly_ok(*out, session_id, meeting_id, gd, gu, gc),
                    gd == date@ && gu == source_url@ && gc == cache_path@,
                    out.decisions@.len() <= cur,
                    out.results@.len() <= cur + 1,
                    forall|k: int| 0 <= k < by_source@.len() ==> result_known(out.results@, (#[trigger] by_source@[k]).1@),
                    assembly_view(*out) == (AssemblyView { unresolved: o5.unresolved + mismatch_events(b, sn, p.3.take(u as int), c@), ..o5 }),
                decreases parsed.invalid_language_group_buckets.len() - u,
            {
                let mut reason = owned("language_group_sum_mismatch:");
                push_str(&mut reason, parsed.invalid_language_group_buckets[u].as_str());
                let ghost v0 = assembly_view(*out);
                add_unresolved(out, session_id, meeting_id, "language_group_counts", parsed.source_number.as_str(), block, reason.as_str(), source_url, cache_path, Ghost(gd));
                proof {
                    assert(p.3[u as int] == parsed.invalid_language_group_buckets@[u as int]@);
                    assert(mismatch_events(b, sn, p.3.take(u + 1), c@) =~= mismatch_events(b, sn, p.3.take(u as int), c@).push(
                        (session_id, meeting_id, "language_group_counts"@, sn, b.index, (b.index + 1) as u32, reason@, b.text@, gu, gc)));
                }
                u = u + 1;
            }
            proof {
                assert(p.3.take(u as int) =~= p.3);
            }
            let ghost o6 = assembly_view(*out);
            let ghost before = *out;
            push_roll_call_tallies(&mut out.tallies, result_id.as_str(), &parsed, Ghost(out.results@));
            proof {
                lemma_tallies_grow_keeps(before, *out, session_id, meeting_id, gd, gu, gc);
            }
            let ghost o7 = assembly_view(*out);
            assert(o7 == AssemblyView { tallies: o6.tallies + entry_tallies(rid, "position"@, rc_entries(p.1, p.2)), ..o6 });
            let occurrence = occurrences_of(&*roll_sources, parsed.source_number.as_str());
            match nth_appendix(appendix, parsed.source_number.as_str(), occurrence) {
                Some(ai) => {
                    assert(appendix_small(appendix@));
                    assert(appendix@[ai as int].1 < u32::MAX);
                    assert(c@.appendix[ai as int] == (appendix@[ai as int].0@, appendix@[ai as int].1, buckets_view(appendix@[ai as int].2@)));
                    add_appendix_evidence(out, result_id.as_str(), appendix[ai].1, &appendix[ai].2, session_id, meeting_id, Ghost(gd), Ghost(gu), Ghost(gc));
                },
                None => {},
            }
            let ghost o8 = assembly_view(*out);
            let ghost rs0 = roll_sources.deep_view();
            roll_sources.push(parsed.source_number.clone());
            assert(roll_sources.deep_view() =~= rs0.push(sn));
            let ghost bs_before = by_source@;
            by_source.push((parsed.source_number.clone(), result_id.clone()));
            proof {
                assert forall|k: int| 0 <= k < by_source@.len() implies result_known(out.results@, (#[trigger] by_source@[k]).1@) by {
                    if k < bs_before.len() {
                        assert(by_source@[k] == bs_before[k]);
                    }
                }
                assert(renames_view(by_source@) =~= renames_view(bs_before).push((sn, rid)));
            }
            let vote_id = add_decision(out, session_id, meeting_id, date, result_id.as_str(), &*pending, method, "complete", outcome.as_str(), parsed.source_number.as_str(), false, source_url, cache_path);
            let ghost o9 = assembly_view(*out);
            assert(vote_id@ == next_vote_id(o8, session_id, meeting_id));
            add_title_spans(out, vote_id.as_str(), &*pending, session_id, meeting_id, Ghost(gd), Ghost(gu), Ghost(gc));
            assert(assembly_view(*out) == with_title_spans(o9, vote_id@, s0.pending.5));
            *pending = empty_refs();
            if section != VoteSectionKind::RollCall {
                *formal_zone = false;
            }
            assert(scan_of(*out, section, *formal_zone, *pending, by_source@, roll_sources.deep_view(), standing) == vote_roll_call(s0, blocks@, cur as int, p, c@));
        },
        None => {},
    }
}

/// Every result of a well-formed assembly has its own id: two results at different places
/// never share a result id.
pub proof fn lemma_result_ids_distinct(
    out: VoteAssemblyOutput,
    session_id: u32,
    meeting_id: u32,
    date: Seq<char>,
    source_url: Seq<char>,
    cache_path: Seq<char>,
    a: int,
    b: int,
)
    requires
        assembly_ok(out, session_id, meeting_id, date, source_url, cache_path),
        out.results@.len() < u32::MAX,
        0 <= a < b < out.results@.len(),
    ensures
        out.results@[a].result_id@ != out.results@[b].result_id@,
{
    assert(result_ok(out, a, session_id, meeting_id, source_url, cache_path));
    assert(result_ok(out, b, session_id, meeting_id, source_url, cache_path));
    let p = crate::text::decimal(session_id as nat) + seq!['-'] + crate::text::decimal(meeting_id as nat) + seq!['-', 'r'];
    let x = result_id_of(session_id, meeting_id, (a + 1) as u32);
    let y = result_id_of(session_id, meeting_id, (b + 1) as u32);
    assert(x =~= p + crate::text::decimal((a + 1) as nat));
    assert(y =~= p + crate::text::decimal((b + 1) as nat));
    if x == y {
        assert(x.skip(p.len() as int) =~= crate::text::decimal((a + 1) as nat));
        assert(y.skip(p.len() as int) =~= crate::text::decimal((b + 1) as nat));
        crate::text::lemma_decimal_injective((a + 1) as nat, (b + 1) as nat);
    }
}

/// Every decision of a well-formed assembly has its own vote id.
pub proof fn lemma_vote_ids_distinct(
    out: VoteAssemblyOutput,
    session_id: u32,
    meeting_id: u32,
    date: Seq<char>,
    source_url: Seq<char>,
    cache_path: Seq<char>,
    a: int,
    b: int,
)
    requires
        assembly_ok(out, session_id, meeting_id, date, source_url, cache_path),
        out.decisions@.len() < u32::MAX,
        0 <= a < b < out.decisions@.len(),
    ensures
        out.decisions@[a].vote_id@ != out.decisions@[b].vote_id@,
{
    assert(decision_ok(out, a, session_id, meeting_id, date, source_url, cache_path));
    assert(decision_ok(out, b, session_id, meeting_id, date, source_url, cache_path));
    let p = crate::text::decimal(session_id as nat) + seq!['-'] + crate::text::decimal(meeting_id as nat) + seq!['-', 'v'];
    let x = vote_id_of(session_id, meeting_id, (a + 1) as u32);
    let y = vote_id_of(session_id, meeting_id, (b + 1) as u32);
    assert(x =~= p + crate::text::decimal((a + 1) as nat));
    assert(y =~= p + crate::text::decimal((b + 1) as nat));
    if x == y {
        assert(x.skip(p.len() as int) =~= crate::text::decimal((a + 1) as nat));
        assert(y.skip(p.len() as int) =~= crate::text::decimal((b + 1) as nat));
        crate::text::lemma_decimal_injective((a + 1) as nat, (b + 1) as nat);
    }
}

/// No block of the report opens a vote: no roll-call or secret-ballot heading (a heading of
/// the roll-call appendix is allowed), no formal vote opening and no sitting-and-standing
/// proposal.
pub open spec fn no_vote_markers(blocks: Seq<ReportBlock>) -> bool {
    forall|k: int|
        0 <= k < blocks.len() ==> {
            &&& (section_kind(#[trigger] blocks[k].text@) == VoteSectionKind::Other || section_kind(blocks[k].text@)
                == VoteSectionKind::Appendix)
            &&& blocks[k].tag == BlockTag::P ==> !regex_is_match(FORMAL_VOTE_BEGIN_PATTERN@, blocks[k].text@)
            &&& blocks[k].tag == BlockTag::P ==> !sitting_standing(blocks[k].text@)
        }
}

/// The assembly state of a report that has opened no vote.
spec fn quiet_scan(st: VoteScan) -> bool {
    &&& st.out.decisions.len() == 0
    &&& st.out.results.len() == 0
    &&& st.out.tallies.len() == 0
    &&& st.out.members.len() == 0
    &&& st.out.spans.len() == 0
    &&& forall|k: int| 0 <= k < st.out.unresolved.len() ==> (#[trigger] st.out.unresolved[k]).6 == "reuse_without_matching_result"@
    &&& st.by_source.len() == 0
    &&& (st.section == VoteSectionKind::Other || st.section == VoteSectionKind::Appendix)
    &&& !st.formal_zone
    &&& !st.standing
}

proof fn lemma_quiet_upto(blocks: Seq<ReportBlock>, n: int, c: VoteCtx)
    requires
        no_vote_markers(blocks),
        0 <= n <= blocks.len(),
    ensures
        quiet_scan(vote_upto(blocks, n, c)),
    decreases n,
{
    if n > 0 {
        lemma_quiet_upto(blocks, n - 1, c);
        let st = vote_upto(blocks, n - 1, c);
        let b = blocks[n - 1];
        let heading = section_kind(b.text@);
        assert(heading == VoteSectionKind::Other || heading == VoteSectionKind::Appendix);
        let section = if heading != VoteSectionKind::Other {
            heading
        } else if b.tag == BlockTag::H1 {
            VoteSectionKind::Other
        } else {
            st.section
        };
        let s1 = VoteScan { section, formal_zone: false, ..st };
        if b.tag == BlockTag::P {
            assert(!sitting_standing(b.text@));
            assert(standing_prefix(s1, b) == s1);
            assert(last_source(s1.by_source, scan_reuse(blocks, n - 1, 1, 6).0) is None);
            let v = vote_paragraph(s1, blocks, n - 1, c);
            assert(quiet_scan(v));
        } else if b.tag == BlockTag::Table {
            assert(quiet_scan(vote_table(s1, blocks, n - 1, c)));
        }
        assert(quiet_scan(vote_step(st, blocks, n - 1, c)));
    }
}

/// Text that opens no vote gives no votes: a report without a roll-call or secret-ballot
/// heading (an appendix heading allowed), a formal vote opening or a sitting-and-standing
/// proposal has no decision, result, tally, voter or span, and its only unresolved events
/// are questions to reuse a result that was never given.
pub proof fn lemma_no_vote_markers_no_votes(
    blocks: Seq<ReportBlock>,
    session_id: u32,
    meeting_id: u32,
    date: Seq<char>,
    source_url: Seq<char>,
    cache_path: Seq<char>,
)
    requires
        no_vote_markers(blocks),
    ensures
        assembled_votes(blocks, session_id, meeting_id, date, source_url, cache_path).decisions.len() == 0,
        assembled_votes(blocks, session_id, meeting_id, date, source_url, cache_path).results.len() == 0,
        assembled_votes(blocks, session_id, meeting_id, date, source_url, cache_path).tallies.len() == 0,
        assembled_votes(blocks, session_id, meeting_id, date, source_url, cache_path).members.len() == 0,
        assembled_votes(blocks, session_id, meeting_id, date, source_url, cache_path).spans.len() == 0,
        forall|k: int|
            0 <= k < assembled_votes(blocks, session_id, meeting_id, date, source_url, cache_path).unresolved.len()
                ==> (#[trigger] assembled_votes(blocks, session_id, meeting_id, date, source_url, cache_path).unresolved[k]).6
                == "reuse_without_matching_result"@,
{
    let c = VoteCtx { session_id, meeting_id, date, source_url, cache_path, appendix: appendices_upto(blocks, blocks.len() as int) };
    lemma_quiet_upto(blocks, blocks.len() as int, c);
    let v = vote_upto(blocks, blocks.len() as int, c).out;
    assert(kept_decisions(v.decisions, session_id, meeting_id) =~= Seq::<DecisionSpec>::empty());
    assert(renamed_spans(v.spans, decision_renames(v.decisions, session_id, meeting_id)) =~= Seq::<SpanView>::empty());
}

/// Assemble the vote decisions, results, tallies, voter lists and span evidence of a
/// meeting report from its blocks.
///
/// Results and decisions are numbered from one in report order (decisions after untitled
/// ones are dropped), and every tally, member and span names a result or decision that the
/// output holds.
pub fn assemble_votes_from_blocks(
    blocks: &[ReportBlock],
    session_id: u32,
    meeting_id: u32,
    date: &str,
    source_url: &str,
    cache_path: &str,
) -> (out: VoteAssemblyOutput)
    requires
        blocks@.len() < u32::MAX,
        indices_below_max(blocks@),
    ensures
        assembly_ok(out, session_id, meeting_id, date@, source_url@, cache_path@),
        forall|k: int| 0 <= k < out.decisions@.len() ==> titled(#[trigger] out.decisions@[k]),
        assembly_view(out) == assembled_votes(blocks@, session_id, meeting_id, date@, source_url@, cache_path@),
{
    let ghost gd = date@;
    let ghost gu = source_url@;
    let ghost gc = cache_path@;
    let mut out = VoteAssemblyOutput::default();
    let mut appendix: Vec<(String, u32, Vec<AppendixBucket>)> = Vec::new();
    let mut i: usize = 0;
    assert(appendix_view(appendix@) =~= Seq::<AppendixView>::empty());
    while i < blocks.len()
        invariant
            i <= blocks@.len(),
            indices_below_max(blocks@),
            appendix_small(appendix@),
            appendix_view(appendix@) == appendices_upto(blocks@, i as int),
        decreases blocks.len() - i,
    {
        let b = &blocks[i];
        match parse_appendix_vote_number(b.text.as_str()) {
            Some(num) => {
                let buckets = parse_appendix_from_blocks(blocks, i, num.as_str());
                let ghost before = appendix@;
                appendix.push((num, b.index, buckets));
                proof {
                    assert(appendix_view(appendix@) =~= appendix_view(before).push((num@, b.index, buckets_view(buckets@))));
                    assert forall|j: int| 0 <= j < appendix@.len() implies (#[trigger] appendix@[j]).1 < u32::MAX && (forall|k: int|
                        0 <= k < appendix@[j].2@.len() ==> bucket_small(#[trigger] appendix@[j].2@[k])) by {
                        if j < before.len() {
                            assert(appendix@[j] == before[j]);
                        }
                    }
                }
            },
            None => {},
        }
        i = i + 1;
    }
    let ghost ctx = VoteCtx {
        session_id,
        meeting_id,
        date: date@,
        source_url: source_url@,
        cache_path: cache_path@,
        appendix: appendix_view(appendix@),
    };
    let mut section = VoteSectionKind::Other;
    let mut formal_zone = false;
    let mut pending = empty_refs();
    let mut by_source: Vec<(String, String)> = Vec::new();
    let mut roll_sources: Vec<String> = Vec::new();
    let mut sitting_standing_context = false;
    let mut idx: usize = 0;
    proof {
        assert(assembly_view(out).decisions =~= Seq::<DecisionSpec>::empty());
        assert(assembly_view(out).results =~= Seq::<ResultSpec>::empty());
        assert(assembly_view(out).tallies =~= Seq::<TallyView>::empty());
        assert(assembly_view(out).members =~= Seq::<MemberView>::empty());
        assert(assembly_view(out).spans =~= Seq::<SpanView>::empty());
        assert(assembly_view(out).unresolved =~= Seq::<UnresolvedView>::empty());
        assert(renames_view(by_source@) =~= Seq::<(Seq<char>, Seq<char>)>::empty());
        assert(roll_sources.deep_view() =~= Seq::<Seq<char>>::empty());
    }
    while idx < blocks.len()
        invariant
            ctx.session_id == session_id && ctx.meeting_id == meeting_id,
            ctx.date == date@ && ctx.source_url == source_url@ && ctx.cache_path == cache_path@,
            ctx.appendix == appendix_view(appendix@),
            ctx.appendix == appendices_upto(blocks@, blocks@.len() as int),
            scan_of(out, section, formal_zone, pending, by_source@, roll_sources.deep_view(), sitting_standing_context)
                == vote_upto(blocks@, idx as int, ctx),
            idx <= blocks.len(),
            blocks@.len() < u32::MAX,
            indices_below_max(blocks@),
            assembly_ok(out, session_id, meeting_id, gd, gu, gc),
            gd == date@ && gu == source_url@ && gc == cache_path@,
            out.decisions@.len() <= idx,
            out.results@.len() <= idx,
            refs_ok(pending),
            forall|k: int| 0 <= k < by_source@.len() ==> result_known(out.results@, (#[trigger] by_source@[k]).1@),
            appendix_small(appendix@),
        decreases blocks.len() - idx,
    {
        let cur = idx;
        let ghost st = vote_upto(blocks@, cur as int, ctx);
        proof {
            assert(vote_upto(blocks@, cur + 1, ctx) == vote_step(st, blocks@, cur as int, ctx));
        }
        idx = idx + 1;
        let block = &blocks[cur];
        assert(block.index < u32::MAX);
        let text = block.text.as_str();
        let heading = votes_section_heading(text);
        if heading != VoteSectionKind::Other {
            section = heading;
            if heading == VoteSectionKind::RollCall {
                formal_zone = true;
            }
        } else if block.tag == BlockTag::H1 {
            section = VoteSectionKind::Other;
            formal_zone = false;
        }
        if block.tag == BlockTag::P && is_formal_vote_begin(text) {
            formal_zone = true;
        }
        if block.tag == BlockTag::H1 {
            pending = empty_refs();
            if section != VoteSectionKind::SecretBallot {
                sitting_standing_context = false;
            }
            continue;
        }
        if block.tag == BlockTag::H2 {
            formal_zone = false;
            sitting_standing_context = false;
            if section == VoteSectionKind::SecretBallot {
                take_title(&mut pending, block, true);
            } else if section == VoteSectionKind::RollCall && !is_numbered_agenda_heading(text) {
                section = VoteSectionKind::Other;
            }
            continue;
        }
        if block.tag == BlockTag::P {
            read_paragraph(&mut out, section, &mut formal_zone, &mut pending, &mut by_source, &mut sitting_standing_context, blocks, cur, session_id, meeting_id, date, source_url, cache_path, Ghost(ctx), Ghost(roll_sources.deep_view()));
            continue;
        }
        if block.tag == BlockTag::Table {
            read_table(&mut out, section, &mut formal_zone, &mut pending, &mut by_source, &mut roll_sources, &appendix, blocks, cur, session_id, meeting_id, date, source_url, cache_path, Ghost(ctx), sitting_standing_context);
        }
    }
    discard_untitled_in(&mut out, session_id, meeting_id, Ghost(gd), Ghost(gu), Ghost(gc));
    out
}

} // verus!
