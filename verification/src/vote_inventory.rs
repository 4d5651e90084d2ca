//! Independent, method-aware source inventory used only by QA.
//!
//! This deliberately does not call the production vote event scanner or assembler.
use vstd::prelude::*;
use std::collections::BTreeSet;
use crate::report_blocks::{BlockTag, ReportBlock, TableRow, cell_texts};
use crate::text::{
    alphabetic, decimal, is_alphabetic, join, join_strs, owned, parse_u32, parse_u32_str,
    push_str, replace, replace_char_str, split, split_str, str_contains, str_eq, to_chars,
    to_lower, trim, trim_str, u64_to_string, contains, lowercase, seq_less, str_less, lemma_seq_less_total,
    lemma_seq_less_trans, lemma_seq_less_irrefl,
};
use crate::pattern::regex_is_match;
use crate::vote_events::{cell_number, cell_value, indices_below_max};
use crate::vote_patterns::{
    VoteBucket, VoteSectionKind, appendix_vote_number, bucket_of_label, compact_vote_number, formal_outcome, language_group_header,
    is_formal_vote_begin, is_language_group_header, is_quorum_failure, is_reuse_question,
    paragraph_vote_number, parse_electronic_count_number, vote_bucket_label, electronic_count_number,
    votes_section_heading, section_kind, outcome_of, REUSE_RESULT_PATTERN, QUORUM_FAILURE_PATTERN,
    FORMAL_VOTE_BEGIN_PATTERN,
};

verus! {

broadcast use {vstd::std_specs::btree::group_btree_axioms, vstd::laws_cmp::group_laws_cmp, vstd::seq_lib::group_seq_properties};

pub struct FormalVoteOccurrence {
    pub source_number: String,
    pub occurrence: u32,
    pub method: String,
    pub block_index: u32,
    pub creates_result: bool,
}

/// The vote numbers of a report by marker kind (each list holds every number once, in the
/// order first seen), its formal vote events and its appendix buckets.
pub struct VoteInventory {
    pub meeting_id: String,
    pub compact_vote_numbers: Vec<String>,
    pub appendix_vote_numbers: Vec<String>,
    pub paragraph_vote_numbers: Vec<String>,
    pub formal_events: Vec<FormalVoteOccurrence>,
    pub appendix_buckets: Vec<AppendixBucket>,
}

pub struct AppendixBucket {
    pub vote_number: String,
    pub occurrence: u32,
    pub position: String,
    pub declared_count: u32,
    pub collected_name_count: usize,
}

pub fn parse_compact_vote_number(text: &str) -> (r: Option<String>)
    ensures
        r.deep_view() == compact_vote_number(text@),
{
    crate::vote_patterns::parse_compact_vote_number(text)
}

pub fn parse_appendix_vote_number(text: &str) -> (r: Option<String>)
    ensures
        r.deep_view() == appendix_vote_number(text@),
{
    crate::vote_patterns::parse_appendix_vote_number(text)
}

pub fn parse_paragraph_vote_number(text: &str) -> (r: Option<String>)
    ensures
        r.deep_view() == paragraph_vote_number(text@),
{
    crate::vote_patterns::parse_paragraph_vote_number(text)
}

pub fn appendix_marker_for_vote(text: &str, vote_index: &str) -> (r: bool)
    ensures
        r == (appendix_vote_number(text@) == Some(vote_index@)),
{
    crate::vote_patterns::appendix_marker_for_vote(text, vote_index)
}

/// Add `s` to a list of distinct strings unless it is already there.
fn insert_distinct(v: &mut Vec<String>, s: String)
    requires
        ascending(old(v).deep_view()),
    ensures
        ascending(final(v).deep_view()),
        final(v).deep_view().no_duplicates(),
        forall|x: Seq<char>| final(v).deep_view().contains(x) <==> (old(v).deep_view().contains(x) || x == s@),
{
    let ghost before = v.deep_view();
    let mut i: usize = 0;
    while i < v.len() && str_less(v[i].as_str(), s.as_str())
        invariant
            i <= v.len(),
            v.deep_view() == before,
            forall|k: int| 0 <= k < i ==> seq_less(#[trigger] before[k], s@),
        decreases v.len() - i,
    {
        i = i + 1;
    }
    if i < v.len() && str_eq(v[i].as_str(), s.as_str()) {
        assert(before[i as int] == s@);
        proof {
            assert forall|a: int, b: int| 0 <= a < b < before.len() implies before[a] != before[b] by {
                lemma_seq_less_irrefl(before[a]);
            }
        }
        return;
    }
    proof {
        if i < v.len() {
            assert(before[i as int] == v@[i as int]@);
            lemma_seq_less_total(before[i as int], s@);
            assert(seq_less(s@, before[i as int]));
            assert forall|k: int| i <= k < before.len() implies seq_less(s@, #[trigger] before[k]) by {
                if k > i {
                    lemma_seq_less_trans(s@, before[i as int], before[k]);
                }
            }
        }
    }
    v.insert(i, s);
    proof {
        let after = v.deep_view();
        assert(after =~= before.take(i as int).push(s@) + before.skip(i as int));
        assert forall|a: int, b: int| 0 <= a < b < after.len() implies seq_less(#[trigger] after[a], #[trigger] after[b]) by {
            if a < i && b < i {
            } else if a < i && b == i {
            } else if a < i {
                assert(after[b] == before[b - 1]);
                lemma_seq_less_trans(before[a], s@, before[b - 1]);
            } else if a == i {
                assert(after[b] == before[b - 1]);
            } else {
                assert(after[a] == before[a - 1]);
                assert(after[b] == before[b - 1]);
            }
        }
        assert forall|a: int, b: int| 0 <= a < b < after.len() implies after[a] != after[b] by {
            lemma_seq_less_irrefl(after[a]);
        }
        assert forall|x: Seq<char>| after.contains(x) <==> (before.contains(x) || x == s@) by {
            if after.contains(x) {
                let k = choose|k: int| 0 <= k < after.len() && after[k] == x;
                if k < i {
                    assert(before[k] == x);
                } else if k > i {
                    assert(before[k - 1] == x);
                }
            }
            if before.contains(x) {
                let k = choose|k: int| 0 <= k < before.len() && before[k] == x;
                if k < i {
                    assert(after[k] == x);
                } else {
                    assert(after[k + 1] == x);
                }
            }
            if x == s@ {
                assert(after[i as int] == x);
            }
        }
    }
}

/// The methods an inventory event may carry.
pub open spec fn known_method(m: Seq<char>) -> bool {
    m == "roll_call"@ || m == "language_group_roll_call"@ || m == "secret_ballot"@ || m
        == "reuse"@ || m == "no_quorum"@ || m == "sitting_standing"@
}

/// A formal event recorded at one of the report's blocks: a known method, creating a
/// result unless it reuses one, numbered from one among the events of its key.
pub open spec fn event_ok(blocks: Seq<ReportBlock>, e: FormalVoteOccurrence) -> bool {
    &&& known_method(e.method@)
    &&& e.creates_result <==> e.method@ != "reuse"@
    &&& e.occurrence >= 1
    &&& exists|i: int| 0 <= i < blocks.len() && (#[trigger] blocks[i]).index == e.block_index
}

/// `n` is the appendix vote number of some block.
pub open spec fn appendix_number_in(blocks: Seq<ReportBlock>, n: Seq<char>) -> bool {
    exists|i: int| 0 <= i < blocks.len() && appendix_vote_number((#[trigger] blocks[i]).text@) == Some(n)
}

/// `n` is the compact marker of the first row of some table block.
pub open spec fn compact_number_in(blocks: Seq<ReportBlock>, n: Seq<char>) -> bool {
    exists|i: int|
        0 <= i < blocks.len() && (#[trigger] blocks[i]).tag == BlockTag::Table && table_number(blocks[i])
            == Some(n)
}

/// `n` is the paragraph marker of some paragraph block.
pub open spec fn paragraph_number_in(blocks: Seq<ReportBlock>, n: Seq<char>) -> bool {
    exists|i: int|
        0 <= i < blocks.len() && (#[trigger] blocks[i]).tag == BlockTag::P && paragraph_vote_number(blocks[i].text@)
            == Some(n)
}

/// The compact vote number in the first row of a table block.
pub open spec fn table_number(b: ReportBlock) -> Option<Seq<char>> {
    match b.table_rows {
        Some(rows) => if rows@.len() > 0 {
            compact_vote_number(join(cell_texts(rows@[0].cells@), " "@))
        } else {
            None
        },
        None => None,
    }
}

fn table_source_number(block: &ReportBlock) -> (r: Option<String>)
    ensures
        r.deep_view() == table_number(*block),
{
    match &block.table_rows {
        Some(rows) => {
            if rows.len() == 0 {
                return None;
            }
            let mut parts: Vec<String> = Vec::new();
            let cells = &rows[0].cells;
            let mut i: usize = 0;
            while i < cells.len()
                invariant
                    i <= cells.len(),
                    parts.deep_view() == cell_texts(cells@.take(i as int)),
                decreases cells.len() - i,
            {
                parts.push(cells[i].text.clone());
                assert(cells@.take(i + 1) =~= cells@.take(i as int).push(cells@[i as int]));
                assert(cell_texts(cells@.take(i + 1)) =~= cell_texts(cells@.take(i as int)).push(cells@[i as int].text@));
                assert(parts.deep_view() =~= cell_texts(cells@.take(i + 1)));
                i = i + 1;
            }
            assert(cells@.take(cells@.len() as int) =~= cells@);
            let joined = join_strs(&parts, " ");
            parse_compact_vote_number(joined.as_str())
        },
        None => None,
    }
}

/// A table whose second row is a language-group header (`N`, `TOT.`, `F`).
pub open spec fn language_group_table(block: ReportBlock) -> bool {
    match block.table_rows {
        Some(rows) => rows@.len() >= 2 && language_group_header(cell_texts(rows@[1].cells@)),
        None => false,
    }
}

/// A label of a secret-ballot statistic.
pub open spec fn secret_statistic(b: Option<VoteBucket>) -> bool {
    b == Some(VoteBucket::Voters) || b == Some(VoteBucket::Valid) || b == Some(VoteBucket::BlankInvalid)
        || b == Some(VoteBucket::MajorityThreshold)
}

/// Some row of the table opens with a secret-ballot statistic label.
pub open spec fn secret_result_table(block: ReportBlock) -> bool {
    match block.table_rows {
        Some(rows) => exists|q: int|
            0 <= q < rows@.len() && (#[trigger] rows@[q]).cells@.len() > 0 && secret_statistic(
                bucket_of_label(rows@[q].cells@[0].text@),
            ),
        None => false,
    }
}

fn table_is_language_group(block: &ReportBlock) -> (r: bool)
    ensures
        r == language_group_table(*block),
{
    match &block.table_rows {
        Some(rows) => {
            if rows.len() < 2 {
                return false;
            }
            let mut cells: Vec<&str> = Vec::new();
            let mut i: usize = 0;
            while i < rows[1].cells.len()
                invariant
                    rows@.len() >= 2,
                    i <= rows@[1].cells@.len(),
                    cells@.len() == i,
                    forall|j: int| 0 <= j < i ==> (#[trigger] cells@[j])@ == rows@[1].cells@[j].text@,
                decreases rows[1].cells.len() - i,
            {
                let t = rows[1].cells[i].text.as_str();
                cells.push(t);
                i = i + 1;
            }
            assert(cells@.map_values(|c: &str| c@) =~= cell_texts(rows@[1].cells@));
            is_language_group_header(cells.as_slice())
        },
        None => false,
    }
}

fn table_is_secret_result(block: &ReportBlock) -> (r: bool)
    ensures
        r == secret_result_table(*block),
{
    match &block.table_rows {
        Some(rows) => {
            let mut i: usize = 0;
            while i < rows.len()
                invariant
                    i <= rows@.len(),
                    block.table_rows == Some(*rows),
                    forall|q: int|
                        0 <= q < i ==> !((#[trigger] rows@[q]).cells@.len() > 0 && secret_statistic(
                            bucket_of_label(rows@[q].cells@[0].text@),
                        )),
                decreases rows.len() - i,
            {
                if rows[i].cells.len() > 0 {
                    let label = vote_bucket_label(rows[i].cells[0].text.as_str());
                    assert(label == bucket_of_label(rows@[i as int].cells@[0].text@));
                    match label {
                        Some(VoteBucket::Voters) | Some(VoteBucket::Valid) | Some(
                            VoteBucket::BlankInvalid,
                        ) | Some(VoteBucket::MajorityThreshold) => {
                            assert(rows@[i as int].cells@.len() > 0 && secret_statistic(bucket_of_label(rows@[i as int].cells@[0].text@)));
                            assert(secret_result_table(*block));
                            return true;
                        },
                        _ => {},
                    }
                }
                i = i + 1;
            }
            false
        },
        None => false,
    }
}

/// The numbering table of the events: each key once, with the number of events of that key,
/// and every key that has events.
spec fn occ_ok(occ: Seq<(String, u32)>, es: Seq<EventView>) -> bool {
    &&& forall|k: int| 0 <= k < occ.len() ==> (#[trigger] occ[k]).1 == key_count(es, occ[k].0@)
    &&& forall|a: int, b: int| 0 <= a < b < occ.len() ==> (#[trigger] occ[a]).0@ != (#[trigger] occ[b]).0@
    &&& forall|x: Seq<char>| key_count(es, x) > 0 ==> exists|k: int| 0 <= k < occ.len() && (#[trigger] occ[k]).0@ == x
}

proof fn lemma_key_count_le(es: Seq<EventView>, x: Seq<char>)
    ensures
        key_count(es, x) <= es.len(),
    decreases es.len(),
{
    if es.len() > 0 {
        lemma_key_count_le(es.drop_last(), x);
    }
}

proof fn lemma_key_count_push(es: Seq<EventView>, e: EventView, x: Seq<char>)
    ensures
        key_count(es.push(e), x) == key_count(es, x) + if event_key(e.0, e.2, e.4) == x {
            1nat
        } else {
            0nat
        },
{
    assert(es.push(e).drop_last() =~= es);
}

/// Record an event and number it among the events of its key (`@reuse:N` for a reuse,
/// `@method` for an unnumbered event, the vote number otherwise).
fn push_event(
    events: &mut Vec<FormalVoteOccurrence>,
    occurrences: &mut Vec<(String, u32)>,
    source_number: String,
    method: &str,
    block_index: u32,
    creates_result: bool,
    blocks: Ghost<Seq<ReportBlock>>,
)
    requires
        known_method(method@),
        creates_result <==> method@ != "reuse"@,
        exists|i: int| 0 <= i < blocks@.len() && (#[trigger] blocks@[i]).index == block_index,
        occ_ok(old(occurrences)@, events_view(old(events)@)),
        old(events)@.len() < u32::MAX,
        forall|k: int| 0 <= k < old(events)@.len() ==> event_ok(blocks@, #[trigger] old(events)@[k]),
    ensures
        final(events)@.len() == old(events)@.len() + 1,
        occ_ok(final(occurrences)@, events_view(final(events)@)),
        forall|k: int| 0 <= k < final(events)@.len() ==> event_ok(blocks@, #[trigger] final(events)@[k]),
        events_view(final(events)@) == add_event(events_view(old(events)@), source_number@, method@, block_index, creates_result),
{
    let ghost ev0 = events_view(events@);
    let key = if !creates_result {
        let mut k = owned("@reuse:");
        push_str(&mut k, source_number.as_str());
        k
    } else if source_number.as_str().is_empty() {
        let mut k = owned("@");
        push_str(&mut k, method);
        k
    } else {
        source_number.clone()
    };
    assert(key@ == event_key(source_number@, method@, creates_result));
    let mut found: Option<usize> = None;
    let mut i: usize = 0;
    while i < occurrences.len()
        invariant
            i <= occurrences.len(),
            found matches Some(f) ==> f < occurrences@.len() && occurrences@[f as int].0@ == key@,
            found is None ==> forall|k: int| 0 <= k < i ==> (#[trigger] occurrences@[k]).0@ != key@,
        decreases occurrences.len() - i,
    {
        if found.is_none() && str_eq(occurrences[i].0.as_str(), key.as_str()) {
            found = Some(i);
        }
        i = i + 1;
    }
    let ghost occ0 = occurrences@;
    let ghost e = (source_number@, 0u32, method@, block_index, creates_result);
    proof {
        lemma_key_count_le(ev0, key@);
    }
    let occurrence = match found {
        Some(f) => {
            let n = occurrences[f].1 + 1;
            occurrences.set(f, (key, n));
            n
        },
        None => {
            occurrences.push((key, 1));
            1
        },
    };
    assert(occurrence == key_count(ev0, key@) + 1);
    let ghost before = events@;
    events.push(
        FormalVoteOccurrence {
            source_number,
            occurrence,
            method: method.to_string(),
            block_index,
            creates_result,
        },
    );
    proof {
        let ev1 = events_view(events@);
        assert(ev1 =~= add_event(ev0, e.0, method@, block_index, creates_result));
        let ne = ev1.last();
        assert(ev1 =~= ev0.push(ne));
        assert forall|x: Seq<char>| key_count(ev1, x) == key_count(ev0, x) + if key@ == x { 1nat } else { 0nat } by {
            lemma_key_count_push(ev0, ne, x);
        }
        let occ1 = occurrences@;
        assert forall|k: int| 0 <= k < occ1.len() implies (#[trigger] occ1[k]).1 == key_count(ev1, occ1[k].0@) by {
            if k < occ0.len() && occ1[k] == occ0[k] {
                if occ0[k].0@ == key@ {
                    assert(found is Some);
                }
            }
        }
        assert forall|a: int, b: int| 0 <= a < b < occ1.len() implies (#[trigger] occ1[a]).0@ != (#[trigger] occ1[b]).0@ by {
            if b < occ0.len() {
                assert(occ1[a].0@ == occ0[a].0@ || occ1[a].0@ == key@);
                assert(occ1[b].0@ == occ0[b].0@ || occ1[b].0@ == key@);
            }
        }
        assert forall|x: Seq<char>| key_count(ev1, x) > 0 implies exists|k: int| 0 <= k < occ1.len() && (#[trigger] occ1[k]).0@ == x by {
            if x == key@ {
                match found {
                    Some(f) => { assert(occ1[f as int].0@ == x); },
                    None => { assert(occ1[occ0.len() as int].0@ == x); },
                }
            } else {
                let k = choose|k: int| 0 <= k < occ0.len() && (#[trigger] occ0[k]).0@ == x;
                assert(occ1[k].0@ == x);
            }
        }
        assert forall|k: int| 0 <= k < events@.len() implies event_ok(blocks@, #[trigger] events@[k]) by {
            if k < before.len() {
                assert(events@[k] == before[k]);
            }
        }
    }
}

/// The texts of `blocks[from..to]` joined by spaces.
fn joined_texts(blocks: &[ReportBlock], from: usize, to: usize) -> (r: String)
    requires
        from <= to <= blocks@.len(),
    ensures
        r@ == join(blocks@.subrange(from as int, to as int).map_values(|b: ReportBlock| b.text@), " "@),
{
    let mut parts: Vec<String> = Vec::new();
    let mut i = from;
    while i < to
        invariant
            from <= i <= to <= blocks@.len(),
            parts.deep_view() == blocks@.subrange(from as int, i as int).map_values(|b: ReportBlock| b.text@),
        decreases to - i,
    {
        let ghost before = parts.deep_view();
        parts.push(blocks[i].text.clone());
        assert(parts.deep_view() =~= before.push(blocks@[i as int].text@));
        assert(blocks@.subrange(from as int, i + 1).map_values(|b: ReportBlock| b.text@) =~= blocks@.subrange(
            from as int,
            i as int,
        ).map_values(|b: ReportBlock| b.text@).push(blocks@[i as int].text@));
        i = i + 1;
    }
    join_strs(&parts, " ")
}

proof fn lemma_methods_distinct()
    ensures
        "roll_call"@ != "reuse"@,
        "language_group_roll_call"@ != "reuse"@,
        "secret_ballot"@ != "reuse"@,
        "no_quorum"@ != "reuse"@,
        "sitting_standing"@ != "reuse"@,
{
    reveal_strlit("reuse");
    reveal_strlit("roll_call");
    reveal_strlit("language_group_roll_call");
    reveal_strlit("secret_ballot");
    reveal_strlit("no_quorum");
    reveal_strlit("sitting_standing");
    assert("roll_call"@.len() != "reuse"@.len());
    assert("language_group_roll_call"@.len() != "reuse"@.len());
    assert("secret_ballot"@.len() != "reuse"@.len());
    assert("no_quorum"@.len() != "reuse"@.len());
    assert("sitting_standing"@.len() != "reuse"@.len());
}

/// A formal vote event by its fields: vote number, occurrence, method, block and whether it
/// creates a result.
pub type EventView = (Seq<char>, u32, Seq<char>, u32, bool);

pub open spec fn event_view(e: FormalVoteOccurrence) -> EventView {
    (e.source_number@, e.occurrence, e.method@, e.block_index, e.creates_result)
}

pub open spec fn events_view(es: Seq<FormalVoteOccurrence>) -> Seq<EventView> {
    es.map_values(|e: FormalVoteOccurrence| event_view(e))
}

/// What events are numbered by: `@reuse:N` for a reuse, `@method` for an unnumbered event,
/// the vote number otherwise.
pub open spec fn event_key(source_number: Seq<char>, method: Seq<char>, creates_result: bool) -> Seq<char> {
    if !creates_result {
        "@reuse:"@ + source_number
    } else if source_number.len() == 0 {
        "@"@ + method
    } else {
        source_number
    }
}

/// The number of events of key `k`.
pub open spec fn key_count(es: Seq<EventView>, k: Seq<char>) -> nat
    decreases es.len(),
{
    if es.len() == 0 {
        0
    } else {
        key_count(es.drop_last(), k) + if event_key(es.last().0, es.last().2, es.last().4) == k {
            1nat
        } else {
            0nat
        }
    }
}

/// An event added after `es`, numbered after the events of its key.
pub open spec fn add_event(es: Seq<EventView>, sn: Seq<char>, method: Seq<char>, block_index: u32, creates: bool) -> Seq<EventView> {
    es.push((sn, (key_count(es, event_key(sn, method, creates)) + 1) as u32, method, block_index, creates))
}

/// The state of the inventory scan: the vote section, whether a formal vote zone is open,
/// the table and paragraph vote numbers, and the formal events.
pub struct InvScan {
    pub section: VoteSectionKind,
    pub formal_zone: bool,
    pub compact: Set<Seq<char>>,
    pub paragraph: Set<Seq<char>>,
    pub events: Seq<EventView>,
}

/// The texts of `blocks[from..to]` joined by spaces.
pub open spec fn joined(blocks: Seq<ReportBlock>, from: int, to: int) -> Seq<char> {
    join(blocks.subrange(from, to).map_values(|b: ReportBlock| b.text@), " "@)
}

/// A paragraph of the report in the inventory scan.
pub open spec fn inv_paragraph(st: InvScan, blocks: Seq<ReportBlock>, cur: int) -> InvScan {
    let b = blocks[cur];
    let text = b.text@;
    let s1 = match paragraph_vote_number(text) {
        Some(n) => {
            let end = if blocks.len() - cur < 4 {
                blocks.len() as int
            } else {
                cur + 4
            };
            let start = if cur < 3 {
                0
            } else {
                cur - 3
            };
            let nearby = joined(blocks, cur, end);
            let previous = joined(blocks, start, cur);
            let s0 = InvScan { paragraph: st.paragraph.insert(n), ..st };
            if regex_is_match(REUSE_RESULT_PATTERN@, previous) || regex_is_match(REUSE_RESULT_PATTERN@, nearby) {
                InvScan { events: add_event(s0.events, n, "reuse"@, b.index, false), ..s0 }
            } else if (st.section == VoteSectionKind::RollCall || st.formal_zone) && regex_is_match(QUORUM_FAILURE_PATTERN@, nearby) {
                InvScan {
                    events: add_event(s0.events, n, "no_quorum"@, b.index, true),
                    formal_zone: if st.section != VoteSectionKind::RollCall {
                        false
                    } else {
                        st.formal_zone
                    },
                    ..s0
                }
            } else {
                s0
            }
        },
        None => st,
    };
    let lower = lowercase(text);
    if (contains(lower, "zitten en opstaan"@) || contains(lower, "assis et levé"@)) && outcome_of(text) is Some {
        let es = s1.events;
        let duplicate = es.len() > 0 && es.last().2 == "sitting_standing"@ && es.last().3 < u32::MAX && es.last().3 + 1 == b.index;
        if !duplicate {
            InvScan { events: add_event(es, Seq::empty(), "sitting_standing"@, b.index, true), ..s1 }
        } else {
            s1
        }
    } else {
        s1
    }
}

/// One block of the report in the inventory scan.
pub open spec fn inv_step(st: InvScan, blocks: Seq<ReportBlock>, cur: int) -> InvScan {
    let b = blocks[cur];
    let text = b.text@;
    let heading = section_kind(text);
    let s0 = if heading != VoteSectionKind::Other {
        InvScan { section: heading, ..st }
    } else if b.tag == BlockTag::H1 {
        InvScan { section: VoteSectionKind::Other, formal_zone: false, ..st }
    } else {
        st
    };
    let s1 = if regex_is_match(FORMAL_VOTE_BEGIN_PATTERN@, text) {
        InvScan { formal_zone: true, ..s0 }
    } else {
        s0
    };
    if appendix_vote_number(text) is Some {
        s1
    } else if b.tag == BlockTag::Table {
        if (s1.section == VoteSectionKind::RollCall || s1.formal_zone) && table_number(b) is Some {
            let n = table_number(b)->0;
            let method = if language_group_table(b) {
                "language_group_roll_call"@
            } else {
                "roll_call"@
            };
            InvScan {
                compact: s1.compact.insert(n),
                events: add_event(s1.events, n, method, b.index, true),
                formal_zone: if s1.section != VoteSectionKind::RollCall {
                    false
                } else {
                    s1.formal_zone
                },
                ..s1
            }
        } else if s1.section == VoteSectionKind::SecretBallot && secret_result_table(b) {
            InvScan { events: add_event(s1.events, Seq::empty(), "secret_ballot"@, b.index, true), ..s1 }
        } else {
            s1
        }
    } else if b.tag != BlockTag::P {
        s1
    } else {
        inv_paragraph(s1, blocks, cur)
    }
}

/// The inventory scan after the first `n` blocks.
pub open spec fn inv_upto(blocks: Seq<ReportBlock>, n: int) -> InvScan
    decreases n,
{
    if n <= 0 || n > blocks.len() {
        InvScan {
            section: VoteSectionKind::Other,
            formal_zone: false,
            compact: Set::empty(),
            paragraph: Set::empty(),
            events: Seq::empty(),
        }
    } else {
        inv_step(inv_upto(blocks, n - 1), blocks, n - 1)
    }
}

/// The strings in strictly ascending order.
pub open spec fn ascending(v: Seq<Seq<char>>) -> bool {
    forall|i: int, j: int| 0 <= i < j < v.len() ==> seq_less(#[trigger] v[i], #[trigger] v[j])
}

/// The QA inventory of a report: vote numbers by marker kind, formal vote events in report
/// order, and appendix buckets.
#[verifier::rlimit(100)]
#[verifier::spinoff_prover]
pub fn parse_vote_inventory_blocks(blocks: &[ReportBlock], meeting_id: &str) -> (r: VoteInventory)
    requires
        blocks@.len() <= 0x7fff_ffff,
        indices_below_max(blocks@),
    ensures
        r.meeting_id@ == meeting_id@,
        r.appendix_vote_numbers.deep_view().no_duplicates(),
        ascending(r.appendix_vote_numbers.deep_view()),
        forall|n: Seq<char>| r.appendix_vote_numbers.deep_view().contains(n) <==> appendix_number_in(blocks@, n),
        r.compact_vote_numbers.deep_view().no_duplicates(),
        ascending(r.compact_vote_numbers.deep_view()),
        forall|n: Seq<char>| r.compact_vote_numbers.deep_view().contains(n) <==> inv_upto(blocks@, blocks@.len() as int).compact.contains(n),
        forall|n: Seq<char>| r.compact_vote_numbers.deep_view().contains(n) ==> compact_number_in(blocks@, n),
        r.paragraph_vote_numbers.deep_view().no_duplicates(),
        ascending(r.paragraph_vote_numbers.deep_view()),
        forall|n: Seq<char>| r.paragraph_vote_numbers.deep_view().contains(n) <==> inv_upto(blocks@, blocks@.len() as int).paragraph.contains(n),
        forall|n: Seq<char>| r.paragraph_vote_numbers.deep_view().contains(n) ==> paragraph_number_in(blocks@, n),
        events_view(r.formal_events@) == inv_upto(blocks@, blocks@.len() as int).events,
        forall|k: int| 0 <= k < r.formal_events@.len() ==> event_ok(blocks@, #[trigger] r.formal_events@[k]),
        inventory_buckets_view(r.appendix_buckets@) == inventory_scan(blocks@, 0, Seq::empty()),
        forall|k: int| 0 <= k < r.appendix_buckets@.len() ==> appendix_bucket_ok(blocks@, #[trigger] r.appendix_buckets@[k]),
{
    proof {
        lemma_methods_distinct();
        reveal_strlit("");
        assert(""@ =~= Seq::<char>::empty());
    }
    let mut compact: Vec<String> = Vec::new();
    let mut appendix: Vec<String> = Vec::new();
    let mut paragraph: Vec<String> = Vec::new();
    let mut events: Vec<FormalVoteOccurrence> = Vec::new();
    let mut occurrences: Vec<(String, u32)> = Vec::new();
    let mut section = VoteSectionKind::Other;
    let mut formal_zone = false;
    let mut idx: usize = 0;
    assert(events_view(events@) =~= Seq::<EventView>::empty());
    assert(compact.deep_view() =~= Seq::<Seq<char>>::empty());
    assert(paragraph.deep_view() =~= Seq::<Seq<char>>::empty());
    while idx < blocks.len()
        invariant
            idx <= blocks@.len() <= 0x7fff_ffff,
            indices_below_max(blocks@),
            events@.len() <= 2 * idx,
            occ_ok(occurrences@, events_view(events@)),
            forall|k: int| 0 <= k < events@.len() ==> event_ok(blocks@, #[trigger] events@[k]),
            appendix.deep_view().no_duplicates(),
            ascending(appendix.deep_view()),
            forall|n: Seq<char>| appendix.deep_view().contains(n) <==> (exists|i: int|
                0 <= i < idx && appendix_vote_number((#[trigger] blocks@[i]).text@) == Some(n)),
            compact.deep_view().no_duplicates(),
            ascending(compact.deep_view()),
            forall|n: Seq<char>| compact.deep_view().contains(n) ==> compact_number_in(blocks@, n),
            paragraph.deep_view().no_duplicates(),
            ascending(paragraph.deep_view()),
            forall|n: Seq<char>| paragraph.deep_view().contains(n) ==> paragraph_number_in(blocks@, n),
            section == inv_upto(blocks@, idx as int).section,
            formal_zone == inv_upto(blocks@, idx as int).formal_zone,
            forall|n: Seq<char>| compact.deep_view().contains(n) <==> inv_upto(blocks@, idx as int).compact.contains(n),
            forall|n: Seq<char>| paragraph.deep_view().contains(n) <==> inv_upto(blocks@, idx as int).paragraph.contains(n),
            events_view(events@) == inv_upto(blocks@, idx as int).events,
        decreases blocks.len() - idx,
    {
        let cur = idx;
        idx = idx + 1;
        let block = &blocks[cur];
        assert(block.index < u32::MAX);
        let ghost st = inv_upto(blocks@, cur as int);
        let ghost ev0 = events@;
        assert(inv_upto(blocks@, idx as int) == inv_step(st, blocks@, cur as int));
        proof {
            lemma_methods_distinct();
            assert forall|n: Seq<char>| (exists|i: int|
                0 <= i < idx && appendix_vote_number((#[trigger] blocks@[i]).text@) == Some(n)) <==> ((exists|i: int|
                0 <= i < cur && appendix_vote_number((#[trigger] blocks@[i]).text@) == Some(n)) || appendix_vote_number(blocks@[cur as int].text@) == Some(n)) by {
                if exists|i: int| 0 <= i < idx && appendix_vote_number((#[trigger] blocks@[i]).text@) == Some(n) {
                    let i = choose|i: int| 0 <= i < idx && appendix_vote_number((#[trigger] blocks@[i]).text@) == Some(n);
                    if i < cur {
                        assert(0 <= i < cur && appendix_vote_number(blocks@[i].text@) == Some(n));
                    }
                }
                if exists|i: int| 0 <= i < cur && appendix_vote_number((#[trigger] blocks@[i]).text@) == Some(n) {
                    let i = choose|i: int| 0 <= i < cur && appendix_vote_number((#[trigger] blocks@[i]).text@) == Some(n);
                    assert(0 <= i < idx && appendix_vote_number(blocks@[i].text@) == Some(n));
                }
                if appendix_vote_number(blocks@[cur as int].text@) == Some(n) {
                    assert(0 <= cur < idx && appendix_vote_number(blocks@[cur as int].text@) == Some(n));
                }
            }
        }
        let text = block.text.as_str();
        let heading = votes_section_heading(text);
        if heading != VoteSectionKind::Other {
            section = heading;
        } else if block.tag == BlockTag::H1 {
            section = VoteSectionKind::Other;
            formal_zone = false;
        }
        if is_formal_vote_begin(text) {
            formal_zone = true;
        }
        match parse_appendix_vote_number(text) {
            Some(number) => {
                insert_distinct(&mut appendix, number);
                continue;
            },
            None => {},
        }
        if block.tag == BlockTag::Table {
            if section == VoteSectionKind::RollCall || formal_zone {
                match table_source_number(block) {
                    Some(number) => {
                        insert_distinct(&mut compact, number.clone());
                        let method = if table_is_language_group(block) {
                            "language_group_roll_call"
                        } else {
                            "roll_call"
                        };
                        push_event(&mut events, &mut occurrences, number, method, block.index, true, Ghost(blocks@));
                        if section != VoteSectionKind::RollCall {
                            formal_zone = false;
                        }
                        proof {
                            assert(compact_number_in(blocks@, table_number(blocks@[cur as int])->0));
                        }
                        continue;
                    },
                    None => {},
                }
            }
            if section == VoteSectionKind::SecretBallot && table_is_secret_result(block) {
                push_event(&mut events, &mut occurrences, String::new(), "secret_ballot", block.index, true, Ghost(blocks@));
                continue;
            }
        }
        if block.tag != BlockTag::P {
            continue;
        }
        let ghost s1 = InvScan { section, formal_zone, ..st };
        match parse_paragraph_vote_number(text) {
            Some(number) => {
                proof {
                    assert(paragraph_number_in(blocks@, number@));
                }
                insert_distinct(&mut paragraph, number.clone());
                let end = if blocks.len() - cur < 4 {
                    blocks.len()
                } else {
                    cur + 4
                };
                let nearby = joined_texts(blocks, cur, end);
                let start = if cur < 3 {
                    0
                } else {
                    cur - 3
                };
                let previous = joined_texts(blocks, start, cur);
                if is_reuse_question(previous.as_str()) || is_reuse_question(nearby.as_str()) {
                    push_event(&mut events, &mut occurrences, number, "reuse", block.index, false, Ghost(blocks@));
                } else if (section == VoteSectionKind::RollCall || formal_zone) && is_quorum_failure(
                    nearby.as_str(),
                ) {
                    push_event(&mut events, &mut occurrences, number, "no_quorum", block.index, true, Ghost(blocks@));
                    if section != VoteSectionKind::RollCall {
                        formal_zone = false;
                    }
                }
            },
            None => {},
        }
        let lower = to_lower(text);
        if (str_contains(lower.as_str(), "zitten en opstaan") || str_contains(lower.as_str(), "assis et levé"))
            && formal_outcome(text).is_some() {
            let duplicate = events.len() > 0 && str_eq(events[events.len() - 1].method.as_str(), "sitting_standing")
                && events[events.len() - 1].block_index < u32::MAX
                && events[events.len() - 1].block_index + 1 == block.index;
            if !duplicate {
                push_event(&mut events, &mut occurrences, String::new(), "sitting_standing", block.index, true, Ghost(blocks@));
            }
        }
    }
    proof {
        assert forall|n: Seq<char>| appendix.deep_view().contains(n) <==> appendix_number_in(blocks@, n) by {
            if appendix_number_in(blocks@, n) {
                let i = choose|i: int| 0 <= i < blocks@.len() && appendix_vote_number((#[trigger] blocks@[i]).text@) == Some(n);
            }
        }
    }
    VoteInventory {
        meeting_id: meeting_id.to_string(),
        compact_vote_numbers: compact,
        appendix_vote_numbers: appendix,
        paragraph_vote_numbers: paragraph,
        formal_events: events,
        appendix_buckets: parse_appendix_buckets(blocks),
    }
}

/// What every inventory appendix bucket satisfies: the vote number of some appendix header,
/// a yes/no/abstain position, numbered from one among that number's appendices.
pub open spec fn appendix_bucket_ok(blocks: Seq<ReportBlock>, b: AppendixBucket) -> bool {
    &&& appendix_number_in(blocks, b.vote_number@)
    &&& (b.position@ == "yes"@ || b.position@ == "no"@ || b.position@ == "abstain"@)
    &&& b.occurrence >= 1
}

/// Number of comma- or semicolon-separated parts of `text` that hold a letter.
pub open spec fn name_count(text: Seq<char>) -> nat {
    split(replace(text, seq![';'], seq![',']), ',').filter(|p: Seq<char>| has_letter(p)).len()
}

/// The trimmed part holds a letter.
pub open spec fn has_letter(p: Seq<char>) -> bool {
    exists|i: int| 0 <= i < trim(p).len() && #[trigger] alphabetic(trim(p)[i])
}

fn count_names(text: &str) -> (r: usize)
    ensures
        r == name_count(text@),
{
    let unified = replace_char_str(text, ';', ",");
    proof {
        reveal_strlit(",");
        assert(","@ =~= seq![',']);
    }
    let parts = split_str(unified.as_str(), ',');
    let ghost pred = |p: Seq<char>| has_letter(p);
    let mut n: usize = 0;
    let mut i: usize = 0;
    while i < parts.len()
        invariant
            i <= parts.len(),
            parts.deep_view() == split(replace(text@, seq![';'], seq![',']), ','),
            pred == (|p: Seq<char>| has_letter(p)),
            n == parts.deep_view().take(i as int).filter(pred).len(),
            n <= i,
        decreases parts.len() - i,
    {
        let t = trim_str(parts[i].as_str());
        let v = to_chars(t.as_str());
        let mut any = false;
        let mut j: usize = 0;
        while j < v.len()
            invariant
                j <= v.len(),
                v@ == trim(parts.deep_view()[i as int]),
                any == exists|q: int| 0 <= q < j && #[trigger] alphabetic(v@[q]),
            decreases v.len() - j,
        {
            if is_alphabetic(v[j]) {
                any = true;
            }
            j = j + 1;
        }
        proof {
            reveal(Seq::filter);
            assert(parts.deep_view().take(i + 1).drop_last() =~= parts.deep_view().take(i as int));
            assert(parts.deep_view().take(i + 1).last() == parts.deep_view()[i as int]);
            assert(any == has_letter(parts.deep_view()[i as int]));
            let s1 = parts.deep_view().take(i + 1);
            assert(s1.len() > 0);
            assert(s1.filter(pred) == (if pred(s1.last()) { s1.drop_last().filter(pred).push(s1.last()) } else { s1.drop_last().filter(pred) }));
            assert(s1.drop_last() == parts.deep_view().take(i as int));
            assert(s1.last() == parts.deep_view()[i as int]);
            assert(pred(s1.last()) == has_letter(parts.deep_view()[i as int]));
        }
        if any {
            n = n + 1;
        }
        i = i + 1;
    }
    assert(parts.deep_view().take(parts.len() as int) =~= parts.deep_view());
    n
}

fn bucket_position(label: &str) -> (r: Option<&'static str>)
    ensures
        r matches Some(p) ==> (p@ == "yes"@ || p@ == "no"@ || p@ == "abstain"@),
        match bucket_of_label(label@) {
            Some(VoteBucket::Yes) => r matches Some(p) && p@ == "yes"@,
            Some(VoteBucket::No) => r matches Some(p) && p@ == "no"@,
            Some(VoteBucket::Abstain) => r matches Some(p) && p@ == "abstain"@,
            _ => r is None,
        },
{
    match vote_bucket_label(label) {
        Some(VoteBucket::Yes) => Some("yes"),
        Some(VoteBucket::No) => Some("no"),
        Some(VoteBucket::Abstain) => Some("abstain"),
        _ => None,
    }
}

/// The value of the first cell from `i` on whose trimmed text is a `u32`; 0 when none is.
pub open spec fn first_count_from(cells: Seq<crate::report_blocks::TableCell>, i: int) -> u32
    decreases cells.len() - i,
{
    if i >= cells.len() {
        0
    } else {
        match cell_value(cells, i) {
            Some(v) => v,
            None => first_count_from(cells, i + 1),
        }
    }
}

/// The first cell after the label whose trimmed text is a `u32`; 0 when none is.
fn declared_count(row: &TableRow) -> (r: u32)
    ensures
        r == first_count_from(row.cells@, 1),
{
    let mut i: usize = 1;
    while i < row.cells.len()
        invariant
            1 <= i,
            first_count_from(row.cells@, 1) == first_count_from(row.cells@, i as int),
        decreases row.cells.len() - i,
    {
        match cell_number(&row.cells, i) {
            Some(v) => {
                return v;
            },
            None => {},
        }
        i = i + 1;
    }
    0
}

/// An inventory appendix bucket as plain values: vote number, occurrence, position,
/// declared count, collected name count.
pub type InventoryBucketView = (Seq<char>, u32, Seq<char>, u32, usize);

pub open spec fn inventory_bucket_view(b: AppendixBucket) -> InventoryBucketView {
    (b.vote_number@, b.occurrence, b.position@, b.declared_count, b.collected_name_count)
}

pub open spec fn inventory_buckets_view(bs: Seq<AppendixBucket>) -> Seq<InventoryBucketView> {
    bs.map_values(|b: AppendixBucket| inventory_bucket_view(b))
}

/// How many blocks of `blocks` are appendix headers of vote number `n`.
pub open spec fn marker_count(blocks: Seq<ReportBlock>, n: Seq<char>) -> nat
    decreases blocks.len(),
{
    if blocks.len() == 0 {
        0
    } else {
        marker_count(blocks.drop_last(), n) + if appendix_vote_number(blocks.last().text@) == Some(n) {
            1nat
        } else {
            0nat
        }
    }
}

/// The first index from `j` on that is the end of the blocks or an appendix or
/// electronic-count header.
pub open spec fn range_end(blocks: Seq<ReportBlock>, j: int) -> int
    decreases blocks.len() - j,
{
    if j >= blocks.len() || appendix_vote_number(blocks[j].text@) is Some || electronic_count_number(blocks[j].text@) is Some {
        j
    } else {
        range_end(blocks, j + 1)
    }
}

/// The position of a bucket label: yes, no or abstain.
pub open spec fn label_position(label: Seq<char>) -> Option<Seq<char>> {
    match bucket_of_label(label) {
        Some(VoteBucket::Yes) => Some("yes"@),
        Some(VoteBucket::No) => Some("no"@),
        Some(VoteBucket::Abstain) => Some("abstain"@),
        _ => None,
    }
}

/// The buckets of the rows `q..` of a table: each row whose first cell is a position label
/// opens a bucket and becomes the current one.
pub open spec fn table_scan(
    rows: Seq<TableRow>,
    q: int,
    vn: Seq<char>,
    occ: u32,
    acc: Seq<InventoryBucketView>,
    cur: Option<int>,
) -> (Seq<InventoryBucketView>, Option<int>)
    decreases rows.len() - q,
{
    if q < 0 || q >= rows.len() {
        (acc, cur)
    } else {
        let row = rows[q];
        if row.cells@.len() > 0 && label_position(row.cells@[0].text@) is Some {
            table_scan(
                rows,
                q + 1,
                vn,
                occ,
                acc.push((vn, occ, label_position(row.cells@[0].text@)->0, first_count_from(row.cells@, 1), 0usize)),
                Some(acc.len() as int),
            )
        } else {
            table_scan(rows, q + 1, vn, occ, acc, cur)
        }
    }
}

/// The buckets of blocks `j..end` of one appendix: tables open buckets; a paragraph adds its
/// name count to the current bucket (saturating).
pub open spec fn range_scan(
    blocks: Seq<ReportBlock>,
    j: int,
    end: int,
    vn: Seq<char>,
    occ: u32,
    acc: Seq<InventoryBucketView>,
    cur: Option<int>,
) -> Seq<InventoryBucketView>
    decreases end - j,
{
    if j >= end || j < 0 || j >= blocks.len() {
        acc
    } else {
        let b = blocks[j];
        match b.table_rows {
            Some(rows) => {
                let t = table_scan(rows@, 0, vn, occ, acc, cur);
                range_scan(blocks, j + 1, end, vn, occ, t.0, t.1)
            },
            None => if b.tag == BlockTag::P && cur is Some && 0 <= cur->0 < acc.len() {
                let c = cur->0;
                let total: usize = if acc[c].4 + name_count(b.text@) <= usize::MAX {
                    (acc[c].4 + name_count(b.text@)) as usize
                } else {
                    usize::MAX
                };
                range_scan(blocks, j + 1, end, vn, occ, acc.update(c, (acc[c].0, acc[c].1, acc[c].2, acc[c].3, total)), cur)
            } else {
                range_scan(blocks, j + 1, end, vn, occ, acc, cur)
            },
        }
    }
}

/// The buckets of the appendices from block `m` on, after `acc`; each appendix is numbered
/// by how many headers of its vote number come before it, from one.
pub open spec fn inventory_scan(blocks: Seq<ReportBlock>, m: int, acc: Seq<InventoryBucketView>) -> Seq<InventoryBucketView>
    decreases blocks.len() - m,
{
    if m < 0 || m >= blocks.len() {
        acc
    } else {
        match appendix_vote_number(blocks[m].text@) {
            Some(vn) => {
                let occ = (marker_count(blocks.take(m), vn) + 1) as u32;
                inventory_scan(blocks, m + 1, range_scan(blocks, m + 1, range_end(blocks, m + 1), vn, occ, acc, None))
            },
            None => inventory_scan(blocks, m + 1, acc),
        }
    }
}

proof fn lemma_marker_count_bound(blocks: Seq<ReportBlock>, n: Seq<char>)
    ensures
        marker_count(blocks, n) <= blocks.len(),
    decreases blocks.len(),
{
    if blocks.len() > 0 {
        lemma_marker_count_bound(blocks.drop_last(), n);
    }
}

fn parse_appendix_buckets(blocks: &[ReportBlock]) -> (r: Vec<AppendixBucket>)
    requires
        blocks@.len() < u32::MAX,
    ensures
        forall|k: int| 0 <= k < r@.len() ==> appendix_bucket_ok(blocks@, #[trigger] r@[k]),
        inventory_buckets_view(r@) == inventory_scan(blocks@, 0, Seq::empty()),
{
    let mut buckets: Vec<AppendixBucket> = Vec::new();
    let mut occurrences: Vec<(String, u32)> = Vec::new();
    let mut marker_idx: usize = 0;
    assert(inventory_buckets_view(buckets@) =~= Seq::<InventoryBucketView>::empty());
    while marker_idx < blocks.len()
        invariant
            marker_idx <= blocks@.len() < u32::MAX,
            forall|k: int| 0 <= k < occurrences@.len() ==> (#[trigger] occurrences@[k]).1 <= marker_idx,
            forall|k: int| 0 <= k < buckets@.len() ==> appendix_bucket_ok(blocks@, #[trigger] buckets@[k]),
            inventory_scan(blocks@, 0, Seq::empty()) == inventory_scan(blocks@, marker_idx as int, inventory_buckets_view(buckets@)),
            forall|k1: int, k2: int| 0 <= k1 < k2 < occurrences@.len() ==> (#[trigger] occurrences@[k1]).0@ != (#[trigger] occurrences@[k2]).0@,
            forall|k: int| 0 <= k < occurrences@.len() ==> (#[trigger] occurrences@[k]).1 == marker_count(blocks@.take(marker_idx as int), occurrences@[k].0@),
            forall|n: Seq<char>| #[trigger] marker_count(blocks@.take(marker_idx as int), n) > 0 ==> exists|k: int|
                0 <= k < occurrences@.len() && (#[trigger] occurrences@[k]).0@ == n,
        decreases blocks.len() - marker_idx,
    {
        let marker = &blocks[marker_idx];
        let ghost pre = blocks@.take(marker_idx as int);
        let ghost post = blocks@.take(marker_idx + 1);
        proof {
            assert(post.drop_last() =~= pre);
            assert(post.last() == blocks@[marker_idx as int]);
        }
        let vote_number = match parse_appendix_vote_number(marker.text.as_str()) {
            Some(n) => n,
            None => {
                proof {
                    assert forall|n: Seq<char>| marker_count(post, n) == marker_count(pre, n) by {}
                }
                marker_idx = marker_idx + 1;
                continue;
            },
        };
        assert(appendix_number_in(blocks@, vote_number@));
        let ghost vn = vote_number@;
        let mut found: Option<usize> = None;
        let mut i: usize = 0;
        while i < occurrences.len()
            invariant
                i <= occurrences.len(),
                found matches Some(f) ==> f < occurrences@.len() && occurrences@[f as int].0@ == vote_number@,
                found is None ==> forall|k: int| 0 <= k < i ==> (#[trigger] occurrences@[k]).0@ != vote_number@,
            decreases occurrences.len() - i,
        {
            if found.is_none() && str_eq(occurrences[i].0.as_str(), vote_number.as_str()) {
                found = Some(i);
            }
            i = i + 1;
        }
        proof {
            assert forall|n: Seq<char>| marker_count(post, n) == marker_count(pre, n) + if n == vn {
                1nat
            } else {
                0nat
            } by {}
        }
        let occurrence = match found {
            Some(f) => {
                let n = occurrences[f].1 + 1;
                let ghost before = occurrences@;
                occurrences.set(f, (vote_number.clone(), n));
                proof {
                    assert forall|k: int| 0 <= k < occurrences@.len() implies (#[trigger] occurrences@[k]).1 <= marker_idx + 1 by {
                        if k != f {
                            assert(occurrences@[k] == before[k]);
                        }
                    }
                    assert forall|k1: int, k2: int| 0 <= k1 < k2 < occurrences@.len() implies (#[trigger] occurrences@[k1]).0@
                        != (#[trigger] occurrences@[k2]).0@ by {
                        assert(occurrences@[k1].0@ == before[k1].0@);
                        assert(occurrences@[k2].0@ == before[k2].0@);
                    }
                    assert forall|k: int| 0 <= k < occurrences@.len() implies (#[trigger] occurrences@[k]).1 == marker_count(post, occurrences@[k].0@) by {
                        if k != f {
                            assert(occurrences@[k] == before[k]);
                            if k < f {
                                assert(before[k].0@ != before[f as int].0@);
                            } else {
                                assert(before[f as int].0@ != before[k].0@);
                            }
                        }
                    }
                    assert forall|m: Seq<char>| #[trigger] marker_count(post, m) > 0 implies exists|k: int|
                        0 <= k < occurrences@.len() && (#[trigger] occurrences@[k]).0@ == m by {
                        if m == vn {
                            assert(occurrences@[f as int].0@ == m);
                        } else {
                            assert(marker_count(pre, m) > 0);
                            let k = choose|k: int| 0 <= k < before.len() && (#[trigger] before[k]).0@ == m;
                            assert(occurrences@[k].0@ == before[k].0@);
                        }
                    }
                    assert(n == marker_count(pre, vn) + 1);
                }
                n
            },
            None => {
                let ghost before = occurrences@;
                occurrences.push((vote_number.clone(), 1));
                proof {
                    assert forall|k: int| 0 <= k < occurrences@.len() implies (#[trigger] occurrences@[k]).1 <= marker_idx + 1 by {
                        if k < before.len() {
                            assert(occurrences@[k] == before[k]);
                        }
                    }
                    if marker_count(pre, vn) > 0 {
                        let k = choose|k: int| 0 <= k < before.len() && (#[trigger] before[k]).0@ == vn;
                        assert(before[k].0@ != vn);
                    }
                    assert forall|k1: int, k2: int| 0 <= k1 < k2 < occurrences@.len() implies (#[trigger] occurrences@[k1]).0@
                        != (#[trigger] occurrences@[k2]).0@ by {
                        assert(occurrences@[k1] == before[k1]);
                        if k2 < before.len() {
                            assert(occurrences@[k2] == before[k2]);
                        }
                    }
                    assert forall|k: int| 0 <= k < occurrences@.len() implies (#[trigger] occurrences@[k]).1 == marker_count(post, occurrences@[k].0@) by {
                        if k < before.len() {
                            assert(occurrences@[k] == before[k]);
                        }
                    }
                    assert forall|m: Seq<char>| #[trigger] marker_count(post, m) > 0 implies exists|k: int|
                        0 <= k < occurrences@.len() && (#[trigger] occurrences@[k]).0@ == m by {
                        if m == vn {
                            assert(occurrences@[before.len() as int].0@ == m);
                        } else {
                            assert(marker_count(pre, m) > 0);
                            let k = choose|k: int| 0 <= k < before.len() && (#[trigger] before[k]).0@ == m;
                            assert(occurrences@[k] == before[k]);
                        }
                    }
                }
                1
            },
        };
        proof {
            lemma_marker_count_bound(pre, vn);
            assert(occurrence == (marker_count(pre, vn) + 1) as u32);
        }
        let mut end = marker_idx + 1;
        while end < blocks.len()
            invariant
                marker_idx < end <= blocks@.len(),
                range_end(blocks@, marker_idx + 1) == range_end(blocks@, end as int),
            ensures
                marker_idx < end <= blocks@.len(),
                range_end(blocks@, marker_idx + 1) == end,
            decreases blocks.len() - end,
        {
            if parse_appendix_vote_number(blocks[end].text.as_str()).is_some()
                || parse_electronic_count_number(blocks[end].text.as_str()).is_some() {
                break;
            }
            end = end + 1;
        }
        let ghost acc0 = inventory_buckets_view(buckets@);
        let mut current: Option<usize> = None;
        let mut j = marker_idx + 1;
        while j < end
            invariant
                marker_idx < j,
                end <= blocks@.len(),
                occurrence >= 1,
                appendix_number_in(blocks@, vote_number@),
                current matches Some(c) ==> c < buckets@.len(),
                forall|k: int| 0 <= k < buckets@.len() ==> appendix_bucket_ok(blocks@, #[trigger] buckets@[k]),
                range_scan(blocks@, marker_idx + 1, end as int, vn, occurrence, acc0, None) == range_scan(
                    blocks@,
                    j as int,
                    end as int,
                    vn,
                    occurrence,
                    inventory_buckets_view(buckets@),
                    match current {
                        Some(c) => Some(c as int),
                        None => None,
                    },
                ),
                vn == vote_number@,
            decreases end - j,
        {
            let block = &blocks[j];
            let ghost accj = inventory_buckets_view(buckets@);
            let ghost curj: Option<int> = match current {
                Some(c) => Some(c as int),
                None => None,
            };
            match &block.table_rows {
                Some(rows) => {
                    let mut q: usize = 0;
                    while q < rows.len()
                        invariant
                            q <= rows@.len(),
                            occurrence >= 1,
                            appendix_number_in(blocks@, vote_number@),
                            current matches Some(c) ==> c < buckets@.len(),
                            forall|k: int| 0 <= k < buckets@.len() ==> appendix_bucket_ok(blocks@, #[trigger] buckets@[k]),
                            vn == vote_number@,
                            table_scan(rows@, 0, vn, occurrence, accj, curj) == table_scan(
                                rows@,
                                q as int,
                                vn,
                                occurrence,
                                inventory_buckets_view(buckets@),
                                match current {
                                    Some(c) => Some(c as int),
                                    None => None,
                                },
                            ),
                        decreases rows.len() - q,
                    {
                        let row = &rows[q];
                        if row.cells.len() > 0 {
                            match bucket_position(row.cells[0].text.as_str()) {
                                Some(position) => {
                                    let ghost before = buckets@;
                                    let dc = declared_count(row);
                                    buckets.push(AppendixBucket {
                                        vote_number: vote_number.clone(),
                                        occurrence,
                                        position: position.to_string(),
                                        declared_count: dc,
                                        collected_name_count: 0,
                                    });
                                    proof {
                                        assert forall|k: int| 0 <= k < buckets@.len() implies appendix_bucket_ok(blocks@, #[trigger] buckets@[k]) by {
                                            if k < before.len() {
                                                assert(buckets@[k] == before[k]);
                                            }
                                        }
                                        assert(label_position(row.cells@[0].text@) == Some(position@));
                                        assert(inventory_buckets_view(buckets@) =~= inventory_buckets_view(before).push(
                                            (vn, occurrence, position@, first_count_from(row.cells@, 1), 0usize),
                                        ));
                                    }
                                    current = Some(buckets.len() - 1);
                                },
                                None => {
                                    assert(label_position(row.cells@[0].text@) is None);
                                },
                            }
                        }
                        q = q + 1;
                    }
                },
                None => {
                    if block.tag == BlockTag::P {
                        match current {
                            Some(c) => {
                                let add = count_names(block.text.as_str());
                                let old_count = buckets[c].collected_name_count;
                                let total = if old_count <= usize::MAX - add {
                                    old_count + add
                                } else {
                                    usize::MAX
                                };
                                let updated = AppendixBucket {
                                    vote_number: buckets[c].vote_number.clone(),
                                    occurrence: buckets[c].occurrence,
                                    position: buckets[c].position.clone(),
                                    declared_count: buckets[c].declared_count,
                                    collected_name_count: total,
                                };
                                let ghost before = buckets@;
                                buckets.set(c, updated);
                                proof {
                                    assert forall|k: int| 0 <= k < buckets@.len() implies appendix_bucket_ok(blocks@, #[trigger] buckets@[k]) by {
                                        if k != c {
                                            assert(buckets@[k] == before[k]);
                                        } else {
                                            assert(appendix_bucket_ok(blocks@, before[k]));
                                        }
                                    }
                                    let a = inventory_buckets_view(before);
                                    assert(inventory_buckets_view(buckets@) =~= a.update(c as int, (a[c as int].0, a[c as int].1, a[c as int].2, a[c as int].3, total)));
                                }
                            },
                            None => {},
                        }
                    }
                },
            }
            j = j + 1;
        }
        proof {
            lemma_marker_count_bound(pre, vn);
        }
        marker_idx = marker_idx + 1;
    }
    buckets
}

/// Every vote number of the inventory, each once: compact, then appendix, then paragraph.
pub fn inventory_vote_numbers(inv: &VoteInventory) -> (r: Vec<String>)
    ensures
        r.deep_view().no_duplicates(),
        ascending(r.deep_view()),
        forall|n: Seq<char>| r.deep_view().contains(n) <==> (inv.compact_vote_numbers.deep_view().contains(n)
            || inv.appendix_vote_numbers.deep_view().contains(n) || inv.paragraph_vote_numbers.deep_view().contains(n)),
{
    let mut all: Vec<String> = Vec::new();
    let lists: [&Vec<String>; 3] = [&inv.compact_vote_numbers, &inv.appendix_vote_numbers, &inv.paragraph_vote_numbers];
    let ghost seen_c = inv.compact_vote_numbers.deep_view();
    let ghost seen_a = inv.appendix_vote_numbers.deep_view();
    let ghost seen_p = inv.paragraph_vote_numbers.deep_view();
    let mut l: usize = 0;
    while l < 3
        invariant
            l <= 3,
            lists@[0].deep_view() == seen_c,
            lists@[1].deep_view() == seen_a,
            lists@[2].deep_view() == seen_p,
            all.deep_view().no_duplicates(),
            ascending(all.deep_view()),
            forall|n: Seq<char>| all.deep_view().contains(n) <==> ((l > 0 && seen_c.contains(n)) || (l > 1 && seen_a.contains(n)) || (l > 2 && seen_p.contains(n))),
        decreases 3 - l,
    {
        let list = lists[l];
        let ghost base = all.deep_view();
        let mut i: usize = 0;
        while i < list.len()
            invariant
                i <= list.len(),
                all.deep_view().no_duplicates(),
                ascending(all.deep_view()),
                forall|n: Seq<char>| #[trigger] all.deep_view().contains(n) <==> (base.contains(n) || list.deep_view().take(i as int).contains(n)),
            decreases list.len() - i,
        {
            let ghost before_all = all.deep_view();
            let item = list[i].clone();
            assert(item@ == list.deep_view()[i as int]);
            insert_distinct(&mut all, item);
            proof {
                let t = list.deep_view();
                assert(t.take(i + 1) =~= t.take(i as int).push(t[i as int]));
                assert forall|n: Seq<char>| t.take(i + 1).contains(n) <==> (t.take(i as int).contains(n) || n == t[i as int]) by {
                    if t.take(i + 1).contains(n) {
                        let k = choose|k: int| 0 <= k < t.take(i + 1).len() && #[trigger] t.take(i + 1)[k] == n;
                        if k < i {
                            assert(t.take(i as int)[k] == n);
                        }
                    }
                    if t.take(i as int).contains(n) {
                        let k = choose|k: int| 0 <= k < t.take(i as int).len() && #[trigger] t.take(i as int)[k] == n;
                        assert(t.take(i + 1)[k] == n);
                    }
                    if n == t[i as int] {
                        assert(t.take(i + 1)[i as int] == n);
                    }
                }
                assert forall|n: Seq<char>| all.deep_view().contains(n) <==> (base.contains(n) || t.take(i + 1).contains(n)) by {
                    assert(t.take(i + 1).contains(n) <==> (t.take(i as int).contains(n) || n == t[i as int]));
                    assert(all.deep_view().contains(n) <==> (before_all.contains(n) || n == t[i as int]));
                    assert(before_all.contains(n) <==> (base.contains(n) || t.take(i as int).contains(n)));
                }
            }
            i = i + 1;
        }
        assert(list.deep_view().take(list.len() as int) =~= list.deep_view());
        l = l + 1;
    }
    all
}

/// The numbers `1..=max` of `numbers` that it lacks, ascending; empty when `numbers` is
/// empty or its largest element is 0.
pub open spec fn gaps_from_one(numbers: Set<u32>, r: Seq<u32>) -> bool {
    &&& forall|i: int, j: int| 0 <= i < j < r.len() ==> r[i] < r[j]
    &&& forall|n: u32| r.contains(n) <==> (1 <= n && !numbers.contains(n) && exists|m: u32| numbers.contains(m) && n <= m)
}

pub fn numeric_sequence_gaps_from_one(numbers: &BTreeSet<u32>) -> (r: Vec<u32>)
    ensures
        gaps_from_one(numbers@, r@),
{
    let mut elems: Vec<u32> = Vec::new();
    for x in it: numbers.iter()
        invariant
            it.seq().unref().to_set() == numbers@,
            elems@ == it.seq().unref().take(it.index()),
    {
        elems.push(*x);
        proof {
            assert(it.seq().unref().take(it.index() + 1) =~= it.seq().unref().take(it.index()).push(*x));
        }
    }
    assert(elems@.to_set() == numbers@);
    let mut max: u32 = 0;
    let mut i: usize = 0;
    while i < elems.len()
        invariant
            i <= elems.len(),
            forall|k: int| 0 <= k < i ==> elems@[k] <= max,
            max == 0 || exists|k: int| 0 <= k < i && elems@[k] == max,
        decreases elems.len() - i,
    {
        if elems[i] > max {
            max = elems[i];
        }
        i = i + 1;
    }
    proof {
        assert forall|m: u32| numbers@.contains(m) implies m <= max by {
            assert(elems@.to_set().contains(m));
            let k = choose|k: int| 0 <= k < elems@.len() && elems@[k] == m;
        }
    }
    let mut out: Vec<u32> = Vec::new();
    if max == 0 {
        proof {
            assert forall|n: u32| out@.contains(n) <==> (1 <= n && !numbers@.contains(n) && exists|m: u32| numbers@.contains(m) && n <= m) by {
                if exists|m: u32| numbers@.contains(m) && n <= m {
                    let m = choose|m: u32| numbers@.contains(m) && n <= m;
                    assert(m <= max);
                }
            }
        }
        return out;
    }
    proof {
        let k = choose|k: int| 0 <= k < elems@.len() && elems@[k] == max;
        assert(elems@.contains(max));
        assert(elems@.to_set().contains(max));
    }
    let mut n: u64 = 1;
    while n <= max as u64
        invariant
            1 <= n <= max as u64 + 1,
            max >= 1,
            numbers@.contains(max),
            forall|m: u32| numbers@.contains(m) ==> m <= max,
            forall|i: int, j: int| 0 <= i < j < out@.len() ==> out@[i] < out@[j],
            forall|i: int| 0 <= i < out@.len() ==> out@[i] < n,
            forall|v: u32| out@.contains(v) <==> (1 <= v < n && !numbers@.contains(v)),
        decreases max as int + 1 - n as int,
    {
        let c = n as u32;
        if !numbers.contains(&c) {
            let ghost before = out@;
            out.push(c);
            proof {
                assert forall|v: u32| out@.contains(v) <==> (1 <= v < n + 1 && !numbers@.contains(v)) by {
                    if v == c {
                        assert(out@[before.len() as int] == v);
                    }
                    if out@.contains(v) && v != c {
                        let k = choose|k: int| 0 <= k < out@.len() && out@[k] == v;
                        assert(before[k] == v);
                    }
                    if before.contains(v) {
                        let k = choose|k: int| 0 <= k < before.len() && before[k] == v;
                        assert(out@[k] == v);
                    }
                }
            }
        } else {
            proof {
                assert forall|v: u32| out@.contains(v) <==> (1 <= v < n + 1 && !numbers@.contains(v)) by {
                    if out@.contains(v) {
                        let k = choose|k: int| 0 <= k < out@.len() && out@[k] == v;
                        assert(out@[k] < n);
                    }
                }
            }
        }
        n = n + 1;
    }
    proof {
        assert forall|v: u32| out@.contains(v) <==> (1 <= v && !numbers@.contains(v) && exists|m: u32| numbers@.contains(m) && v <= m) by {
            if 1 <= v && !numbers@.contains(v) && exists|m: u32| numbers@.contains(m) && v <= m {
                let m = choose|m: u32| numbers@.contains(m) && v <= m;
                assert(m <= max);
            }
            if out@.contains(v) {
                assert(numbers@.contains(max) && v <= max);
            }
        }
    }
    out
}

/// The list of a set's strings: `BTreeSet::iter`, each element cloned. The standard library
/// documents that the iterator visits every element of the set exactly once, in ascending
/// order, and that strings are ordered lexicographically, which orders their characters by
/// code point.
#[verifier::external_body]
fn set_strings(set: &BTreeSet<String>) -> (r: Vec<String>)
    ensures
        r.deep_view().no_duplicates(),
        ascending(r.deep_view()),
        r.deep_view().to_set() == set.deep_view(),
{
    set.iter().cloned().collect()
}

/// The `u32` values that the strings of `numbers` parse to.
pub open spec fn parsed_values(numbers: Set<Seq<char>>) -> Set<u32> {
    Set::new(|v: u32| exists|x: Seq<char>| numbers.contains(x) && parse_u32(x) == Some(v))
}

/// `g` lists, ascending, the numbers between the least and the greatest of `values` that
/// `values` lacks.
pub open spec fn gaps_between(values: Set<u32>, g: Seq<u32>) -> bool {
    &&& forall|i: int, j: int| 0 <= i < j < g.len() ==> g[i] < g[j]
    &&& forall|n: u32| g.contains(n) <==> (!values.contains(n) && exists|a: u32, b: u32|
        values.contains(a) && values.contains(b) && a <= n <= b)
}

/// The missing vote numbers between the least and the greatest number that parses, in
/// decimal and ascending.
#[verifier::spinoff_prover]
pub fn vote_number_gaps(numbers: &BTreeSet<String>) -> (r: Vec<String>)
    ensures
        exists|g: Seq<u32>| gaps_between(parsed_values(numbers.deep_view()), g) && r.deep_view() == g.map_values(|v: u32| decimal(v as nat)),
{
    let items = set_strings(numbers);
    let mut vals: Vec<u32> = Vec::new();
    let mut i: usize = 0;
    while i < items.len()
        invariant
            i <= items.len(),
            forall|v: u32| vals@.contains(v) <==> exists|k: int| 0 <= k < i && parse_u32(#[trigger] items.deep_view()[k]) == Some(v),
        decreases items.len() - i,
    {
        let ghost before = vals@;
        match parse_u32_str(items[i].as_str()) {
            Some(v) => {
                vals.push(v);
                proof {
                    assert forall|w: u32| vals@.contains(w) <==> exists|k: int| 0 <= k < i + 1 && parse_u32(#[trigger] items.deep_view()[k]) == Some(w) by {
                        if vals@.contains(w) && w != v {
                            let q = choose|q: int| 0 <= q < vals@.len() && vals@[q] == w;
                            assert(before[q] == w);
                        }
                        if before.contains(w) {
                            let q = choose|q: int| 0 <= q < before.len() && before[q] == w;
                            assert(vals@[q] == w);
                        }
                        if w == v {
                            assert(vals@[before.len() as int] == w);
                            assert(parse_u32(items.deep_view()[i as int]) == Some(w));
                        }
                        if exists|k: int| 0 <= k < i + 1 && parse_u32(#[trigger] items.deep_view()[k]) == Some(w) {
                            let k = choose|k: int| 0 <= k < i + 1 && parse_u32(#[trigger] items.deep_view()[k]) == Some(w);
                            if k < i {
                                assert(0 <= k < i && parse_u32(items.deep_view()[k]) == Some(w));
                            }
                        }
                    }
                }
            },
            None => {
                proof {
                    assert forall|w: u32| vals@.contains(w) <==> exists|k: int| 0 <= k < i + 1 && parse_u32(#[trigger] items.deep_view()[k]) == Some(w) by {
                        if exists|k: int| 0 <= k < i + 1 && parse_u32(#[trigger] items.deep_view()[k]) == Some(w) {
                            let k = choose|k: int| 0 <= k < i + 1 && parse_u32(#[trigger] items.deep_view()[k]) == Some(w);
                            if k < i {
                                assert(0 <= k < i && parse_u32(items.deep_view()[k]) == Some(w));
                            }
                        }
                    }
                }
            },
        }
        i = i + 1;
    }
    let ghost values = parsed_values(numbers.deep_view());
    proof {
        assert forall|v: u32| vals@.contains(v) <==> values.contains(v) by {
            if vals@.contains(v) {
                let k = choose|k: int| 0 <= k < items.len() && parse_u32(#[trigger] items.deep_view()[k]) == Some(v);
                assert(items.deep_view().to_set().contains(items.deep_view()[k]));
            }
            if values.contains(v) {
                let x = choose|x: Seq<char>| numbers.deep_view().contains(x) && parse_u32(x) == Some(v);
                assert(items.deep_view().to_set().contains(x));
                let k = choose|k: int| 0 <= k < items.deep_view().len() && items.deep_view()[k] == x;
                assert(parse_u32(items.deep_view()[k]) == Some(v));
            }
        }
    }
    let mut out: Vec<String> = Vec::new();
    if vals.len() == 0 {
        proof {
            let g = Seq::<u32>::empty();
            assert forall|n: u32| g.contains(n) <==> (!values.contains(n) && exists|a: u32, b: u32|
                values.contains(a) && values.contains(b) && a <= n <= b) by {
                if exists|a: u32, b: u32| values.contains(a) && values.contains(b) && a <= n <= b {
                    let (a, b) = choose|a: u32, b: u32| values.contains(a) && values.contains(b) && a <= n <= b;
                    assert(vals@.contains(a));
                }
            }
            assert(out.deep_view() =~= g.map_values(|v: u32| decimal(v as nat)));
            assert(gaps_between(values, g));
        }
        return out;
    }
    let mut min: u32 = vals[0];
    let mut max: u32 = vals[0];
    let mut j: usize = 1;
    while j < vals.len()
        invariant
            1 <= j <= vals.len(),
            vals@.contains(min),
            vals@.contains(max),
            forall|k: int| 0 <= k < j ==> min <= #[trigger] vals@[k] <= max,
        decreases vals.len() - j,
    {
        if vals[j] < min {
            min = vals[j];
        }
        if vals[j] > max {
            max = vals[j];
        }
        j = j + 1;
    }
    proof {
        assert forall|v: u32| values.contains(v) implies min <= v <= max by {
            assert(vals@.contains(v));
            let k = choose|k: int| 0 <= k < vals@.len() && vals@[k] == v;
        }
    }
    let ghost mut g: Seq<u32> = Seq::empty();
    let mut n: u64 = min as u64;
    while n <= max as u64
        invariant
            min as u64 <= n <= max as u64 + 1,
            values.contains(min),
            values.contains(max),
            forall|v: u32| vals@.contains(v) <==> values.contains(v),
            forall|v: u32| values.contains(v) ==> min <= v <= max,
            forall|a: int, b: int| 0 <= a < b < g.len() ==> g[a] < g[b],
            forall|a: int| 0 <= a < g.len() ==> g[a] < n,
            forall|v: u32| g.contains(v) <==> (min <= v < n && !values.contains(v)),
            out.deep_view() == g.map_values(|v: u32| decimal(v as nat)),
        decreases max as int + 1 - n as int,
    {
        let c = n as u32;
        let mut present = false;
        let mut q: usize = 0;
        while q < vals.len()
            invariant
                q <= vals.len(),
                present == vals@.take(q as int).contains(c),
            decreases vals.len() - q,
        {
            if vals[q] == c {
                present = true;
            }
            proof {
                assert(vals@.take(q + 1) =~= vals@.take(q as int).push(vals@[q as int]));
                if vals@.take(q as int).contains(c) {
                    let k = choose|k: int| 0 <= k < vals@.take(q as int).len() && #[trigger] vals@.take(q as int)[k] == c;
                    assert(vals@.take(q + 1)[k] == c);
                }
                if vals@.take(q + 1).contains(c) && vals@[q as int] != c {
                    let k = choose|k: int| 0 <= k < vals@.take(q + 1).len() && #[trigger] vals@.take(q + 1)[k] == c;
                    assert(vals@.take(q as int)[k] == c);
                }
                if vals@[q as int] == c {
                    assert(vals@.take(q + 1)[q as int] == c);
                }
            }
            q = q + 1;
        }
        assert(vals@.take(vals.len() as int) =~= vals@);
        if !present {
            let ghost before = g;
            let ghost out_before = out.deep_view();
            let text = u64_to_string(n);
            assert(c as nat == n as nat);
            out.push(text);
            proof {
                g = g.push(c);
                assert(out.deep_view() =~= out_before.push(decimal(c as nat)));
                assert(out.deep_view() =~= g.map_values(|v: u32| decimal(v as nat)));
                assert forall|v: u32| g.contains(v) <==> (min <= v < n + 1 && !values.contains(v)) by {
                    if v == c {
                        assert(g[before.len() as int] == v);
                    }
                    if g.contains(v) && v != c {
                        let k = choose|k: int| 0 <= k < g.len() && g[k] == v;
                        assert(before[k] == v);
                    }
                    if before.contains(v) {
                        let k = choose|k: int| 0 <= k < before.len() && before[k] == v;
                        assert(g[k] == v);
                    }
                }
            }
        } else {
            proof {
                assert forall|v: u32| g.contains(v) <==> (min <= v < n + 1 && !values.contains(v)) by {
                    if g.contains(v) {
                        let k = choose|k: int| 0 <= k < g.len() && g[k] == v;
                    }
                }
            }
        }
        n = n + 1;
    }
    proof {
        assert forall|v: u32| g.contains(v) <==> (!values.contains(v) && exists|a: u32, b: u32|
            values.contains(a) && values.contains(b) && a <= v <= b) by {
            if !values.contains(v) && exists|a: u32, b: u32| values.contains(a) && values.contains(b) && a <= v <= b {
                let (a, b) = choose|a: u32, b: u32| values.contains(a) && values.contains(b) && a <= v <= b;
                assert(min <= a && b <= max);
            }
            if g.contains(v) {
                assert(values.contains(min) && values.contains(max) && min <= v <= max);
            }
        }
        assert(gaps_between(values, g));
    }
    out
}


/// The position of the group of meeting `m` in `groups`, if there is one.
pub open spec fn group_index(groups: Seq<(Seq<char>, Seq<usize>)>, m: Seq<char>, i: int) -> Option<int>
    decreases groups.len() - i,
{
    if i < 0 || i >= groups.len() {
        None
    } else if groups[i].0 == m {
        Some(i)
    } else {
        group_index(groups, m, i + 1)
    }
}

/// The vote rows grouped by meeting id: one group per meeting, in order of its first row,
/// each listing the positions of its rows in order.
pub open spec fn rows_by_meeting(meetings: Seq<Seq<char>>) -> Seq<(Seq<char>, Seq<usize>)>
    decreases meetings.len(),
{
    if meetings.len() == 0 {
        Seq::empty()
    } else {
        let prev = rows_by_meeting(meetings.drop_last());
        let i = (meetings.len() - 1) as usize;
        match group_index(prev, meetings.last(), 0) {
            Some(g) => prev.update(g, (prev[g].0, prev[g].1.push(i))),
            None => prev.push((meetings.last(), seq![i])),
        }
    }
}

pub open spec fn groups_view(g: Seq<(String, Vec<usize>)>) -> Seq<(Seq<char>, Seq<usize>)> {
    g.map_values(|e: (String, Vec<usize>)| (e.0@, e.1@))
}

/// The vote rows of a table grouped by their meeting id (the second column): for each
/// meeting, in order of its first row, the positions of its rows.
pub fn votes_by_meeting_from_parquet(votes: &[(String, String, String, String, String, String)]) -> (r: Vec<(String, Vec<usize>)>)
    ensures
        groups_view(r@) == rows_by_meeting(votes@.map_values(|v: (String, String, String, String, String, String)| v.1@)),
{
    let ghost ms = votes@.map_values(|v: (String, String, String, String, String, String)| v.1@);
    let mut groups: Vec<(String, Vec<usize>)> = Vec::new();
    let mut i: usize = 0;
    while i < votes.len()
        invariant
            i <= votes@.len(),
            ms == votes@.map_values(|v: (String, String, String, String, String, String)| v.1@),
            groups_view(groups@) == rows_by_meeting(ms.take(i as int)),
        decreases votes.len() - i,
    {
        let ghost prev = groups_view(groups@);
        proof {
            assert(ms.take(i + 1).drop_last() =~= ms.take(i as int));
            assert(ms.take(i + 1).last() == votes@[i as int].1@);
        }
        let m = votes[i].1.as_str();
        let mut g: usize = 0;
        while g < groups.len() && !crate::text::str_eq(groups[g].0.as_str(), m)
            invariant
                g <= groups@.len(),
                prev == groups_view(groups@),
                group_index(prev, m@, 0) == group_index(prev, m@, g as int),
            decreases groups.len() - g,
        {
            g = g + 1;
        }
        if g < groups.len() {
            assert(group_index(prev, m@, g as int) == Some(g as int));
            let mut entry = (owned(groups[g].0.as_str()), Vec::new());
            let mut k: usize = 0;
            while k < groups[g].1.len()
                invariant
                    g < groups@.len(),
                    k <= groups@[g as int].1@.len(),
                    entry.1@ == groups@[g as int].1@.take(k as int),
                    entry.0@ == groups@[g as int].0@,
                decreases groups@[g as int].1@.len() - k,
            {
                entry.1.push(groups[g].1[k]);
                assert(entry.1@ =~= groups@[g as int].1@.take(k + 1));
                k = k + 1;
            }
            assert(entry.1@ =~= groups@[g as int].1@);
            entry.1.push(i);
            groups.set(g, entry);
            assert(groups_view(groups@) =~= prev.update(g as int, (prev[g as int].0, prev[g as int].1.push(i))));
        } else {
            let mut one: Vec<usize> = Vec::new();
            one.push(i);
            assert(one@ =~= seq![i]);
            groups.push((owned(m), one));
            assert(groups_view(groups@) =~= prev.push((m@, seq![i])));
        }
        i = i + 1;
    }
    assert(ms.take(votes@.len() as int) =~= ms);
    groups
}

} // verus!
