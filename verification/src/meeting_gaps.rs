//! Shared meeting gap schema and discovery helpers for plenary and commission.
use vstd::prelude::*;
use std::collections::{BTreeMap, BTreeSet};
use crate::source_manifest::{
    MANIFEST_STATUS_NO_RESULT, MANIFEST_STATUS_NOT_FOUND, MANIFEST_STATUS_PARSED,
    MANIFEST_STATUS_UNSUPPORTED_FORMAT,
};
use crate::text::{owned, str_eq};

verus! {

broadcast use {vstd::std_specs::btree::group_btree_axioms, vstd::laws_cmp::group_laws_cmp, vstd::seq_lib::group_seq_properties};

pub const GAP_REASON_NOT_FOUND: &'static str = "not_found";
pub const GAP_REASON_UNSUPPORTED_FORMAT: &'static str = "unsupported_format";
pub const GAP_REASON_NO_RESULT: &'static str = "no_result";

/// The gap reasons that may be published; anything else (notably `parse_failed`) must abort.
pub open spec fn accepted_gap_reason(reason: Seq<char>) -> bool {
    reason == GAP_REASON_NOT_FOUND@ || reason == GAP_REASON_UNSUPPORTED_FORMAT@
        || reason == GAP_REASON_NO_RESULT@
}

pub fn is_accepted_gap_reason(reason: &str) -> (r: bool)
    ensures
        r == accepted_gap_reason(reason@),
{
    str_eq(reason, GAP_REASON_NOT_FOUND) || str_eq(reason, GAP_REASON_UNSUPPORTED_FORMAT)
        || str_eq(reason, GAP_REASON_NO_RESULT)
}

pub struct MeetingGapRow {
    pub session_id: u32,
    pub meeting_kind: String,
    pub meeting_id: u32,
    pub reason: String,
    pub detail: String,
    pub source_url: String,
    pub cache_path: String,
    pub content_hash: String,
    pub fetched_at: String,
    pub checked_at: String,
}

impl Clone for MeetingGapRow {
    fn clone(&self) -> (r: Self)
        ensures
            r == *self,
    {
        MeetingGapRow {
            session_id: self.session_id,
            meeting_kind: self.meeting_kind.clone(),
            meeting_id: self.meeting_id,
            reason: self.reason.clone(),
            detail: self.detail.clone(),
            source_url: self.source_url.clone(),
            cache_path: self.cache_path.clone(),
            content_hash: self.content_hash.clone(),
            fetched_at: self.fetched_at.clone(),
            checked_at: self.checked_at.clone(),
        }
    }
}

impl MeetingGapRow {
    /// A gap row with empty hash and timestamps.
    pub fn new(
        session_id: u32,
        meeting_kind: &str,
        meeting_id: u32,
        reason: &str,
        detail: &str,
        source_url: &str,
        cache_path: &str,
    ) -> (r: Self)
        ensures
            r.session_id == session_id,
            r.meeting_kind@ == meeting_kind@,
            r.meeting_id == meeting_id,
            r.reason@ == reason@,
            r.detail@ == detail@,
            r.source_url@ == source_url@,
            r.cache_path@ == cache_path@,
            r.content_hash@ == Seq::<char>::empty(),
            r.fetched_at@ == Seq::<char>::empty(),
            r.checked_at@ == Seq::<char>::empty(),
    {
        MeetingGapRow {
            session_id,
            meeting_kind: owned(meeting_kind),
            meeting_id,
            reason: owned(reason),
            detail: owned(detail),
            source_url: owned(source_url),
            cache_path: owned(cache_path),
            content_hash: String::new(),
            fetched_at: String::new(),
            checked_at: String::new(),
        }
    }

    /// The same row with its content hash set.
    pub fn with_hashes(self, content_hash: &str) -> (r: Self)
        ensures
            r == (MeetingGapRow { content_hash: r.content_hash, ..self }),
            r.content_hash@ == content_hash@,
    {
        let mut s = self;
        s.content_hash = owned(content_hash);
        s
    }

    /// The same row with its fetch and check timestamps set.
    pub fn with_timestamps(self, fetched_at: &str, checked_at: &str) -> (r: Self)
        ensures
            r == (MeetingGapRow { fetched_at: r.fetched_at, checked_at: r.checked_at, ..self }),
            r.fetched_at@ == fetched_at@,
            r.checked_at@ == checked_at@,
    {
        let mut s = self;
        s.fetched_at = owned(fetched_at);
        s.checked_at = owned(checked_at);
        s
    }
}

/// Record a gap unless one is already recorded for its meeting.
pub fn record_gap(gaps: &mut BTreeMap<u32, MeetingGapRow>, gap: MeetingGapRow)
    ensures
        final(gaps)@ == if old(gaps)@.contains_key(gap.meeting_id) {
            old(gaps)@
        } else {
            old(gaps)@.insert(gap.meeting_id, gap)
        },
{
    if !gaps.contains_key(&gap.meeting_id) {
        gaps.insert(gap.meeting_id, gap);
    }
}

/// Insert or replace a gap (used when reclassifying e.g. PDF unsupported_format).
pub fn upsert_gap(gaps: &mut BTreeMap<u32, MeetingGapRow>, gap: MeetingGapRow)
    ensures
        final(gaps)@ == old(gaps)@.insert(gap.meeting_id, gap),
{
    gaps.insert(gap.meeting_id, gap);
}

/// Result of sequential ID discovery.
pub struct DiscoveryResult {
    /// Last confirmed existing meeting ID (may equal `start_id` if nothing new).
    pub last_id: u32,
    /// Interior missing IDs strictly between `start_id` and `last_id` (inclusive of holes).
    /// Trailing consecutive misses used only as the stop signal are excluded.
    pub interior_missing: Vec<u32>,
}

/// State of a forward scan after the probe answers `answers` for ids `start+1, start+2, ...`:
/// (last id found, consecutive misses, ids of the current miss streak, interior holes).
pub open spec fn discover_fold(start: u32, answers: Seq<bool>) -> (int, nat, Seq<u32>, Seq<u32>)
    decreases answers.len(),
{
    if answers.len() == 0 {
        (start as int, 0, Seq::empty(), Seq::empty())
    } else {
        let prev = discover_fold(start, answers.drop_last());
        let probe = start + answers.len();
        if answers.last() {
            (probe, 0, Seq::empty(), prev.3 + prev.2)
        } else {
            (prev.0, prev.1 + 1, prev.2.push(probe as u32), prev.3)
        }
    }
}

/// Holes lie strictly inside the scanned range: every id that a forward scan reports as
/// missing is above its start and below the last id it found, and they come in ascending
/// order; the misses after the last id found (the stop signal) are never reported.
pub proof fn lemma_discovery_holes_are_interior(start: u32, answers: Seq<bool>)
    requires
        start + answers.len() <= u32::MAX,
    ensures
        forall|k: int| 0 <= k < discover_fold(start, answers).3.len() ==>
            start < #[trigger] discover_fold(start, answers).3[k] < discover_fold(start, answers).0,
        forall|i: int, j: int| 0 <= i < j < discover_fold(start, answers).3.len() ==>
            discover_fold(start, answers).3[i] < discover_fold(start, answers).3[j],
        forall|k: int| 0 <= k < discover_fold(start, answers).2.len() ==>
            discover_fold(start, answers).0 < #[trigger] discover_fold(start, answers).2[k] <= start + answers.len(),
        forall|i: int, j: int| 0 <= i < j < discover_fold(start, answers).2.len() ==>
            discover_fold(start, answers).2[i] < discover_fold(start, answers).2[j],
        start <= discover_fold(start, answers).0 <= start + answers.len(),
    decreases answers.len(),
{
    if answers.len() > 0 {
        lemma_discovery_holes_are_interior(start, answers.drop_last());
        let prev = discover_fold(start, answers.drop_last());
        let cur = discover_fold(start, answers);
        if answers.last() {
            assert(cur.3 == prev.3 + prev.2);
            assert forall|k: int| 0 <= k < cur.3.len() implies start < #[trigger] cur.3[k] < cur.0 by {
                if k >= prev.3.len() {
                    assert(cur.3[k] == prev.2[k - prev.3.len()]);
                }
            }
            assert forall|i: int, j: int| 0 <= i < j < cur.3.len() implies cur.3[i] < cur.3[j] by {
                if j < prev.3.len() {
                } else if i >= prev.3.len() {
                    assert(cur.3[i] == prev.2[i - prev.3.len()]);
                    assert(cur.3[j] == prev.2[j - prev.3.len()]);
                } else {
                    assert(cur.3[j] == prev.2[j - prev.3.len()]);
                }
            }
        } else {
            let probe = start + answers.len();
            assert((probe as u32) as int == probe);
            assert(cur.2 == prev.2.push(probe as u32));
            assert forall|k: int| 0 <= k < cur.2.len() implies cur.0 < #[trigger] cur.2[k] <= start + answers.len() by {
                if k < prev.2.len() {
                    assert(cur.2[k] == prev.2[k]);
                }
            }
            assert forall|i: int, j: int| 0 <= i < j < cur.2.len() implies cur.2[i] < cur.2[j] by {
                assert(cur.2[i] == prev.2[i]);
                if j < prev.2.len() {
                    assert(cur.2[j] == prev.2[j]);
                }
            }
        }
    }
}

/// Id `id` was probed (it is one of `start + 1 ..= start + answers.len()`) and found missing.
pub open spec fn probed_missing(start: u32, answers: Seq<bool>, id: int) -> bool {
    start < id <= start + answers.len() && !answers[id - start - 1]
}

/// What a forward scan knows after its answers: the last id found is the start or an id
/// that was found; every id probed after it is missing, and their number is the count of
/// consecutive misses; the current miss streak is exactly the missing ids after it, and the
/// holes are exactly the missing ids before it.
pub proof fn lemma_discovery_probes(start: u32, answers: Seq<bool>)
    requires
        start + answers.len() <= u32::MAX,
    ensures
        discover_fold(start, answers).0 == start || (start < discover_fold(start, answers).0 <= start + answers.len()
            && answers[discover_fold(start, answers).0 - start - 1]),
        discover_fold(start, answers).1 == start + answers.len() - discover_fold(start, answers).0,
        forall|i: int| 0 <= i < answers.len() && discover_fold(start, answers).0 < start + 1 + i ==> !#[trigger] answers[i],
        forall|id: u32| #[trigger] discover_fold(start, answers).2.contains(id) <==> (discover_fold(start, answers).0 < id
            && probed_missing(start, answers, id as int)),
        forall|id: u32| #[trigger] discover_fold(start, answers).3.contains(id) <==> (id < discover_fold(start, answers).0
            && probed_missing(start, answers, id as int)),
    decreases answers.len(),
{
    if answers.len() > 0 {
        let prev_a = answers.drop_last();
        lemma_discovery_probes(start, prev_a);
        lemma_discovery_holes_are_interior(start, prev_a);
        let prev = discover_fold(start, prev_a);
        let cur = discover_fold(start, answers);
        let probe = start + answers.len();
        assert forall|id: int| start < id < probe implies probed_missing(start, answers, id) == probed_missing(start, prev_a, id) by {
            assert(answers[id - start - 1] == prev_a[id - start - 1]);
        }
        assert forall|i: int| 0 <= i < prev_a.len() implies answers[i] == #[trigger] prev_a[i] by {}
        if answers.last() {
            assert(answers[probe - start - 1] == answers.last());
            assert forall|id: u32| #[trigger] cur.3.contains(id) <==> (id < cur.0 && probed_missing(start, answers, id as int)) by {
                if cur.3.contains(id) {
                    let k = choose|k: int| 0 <= k < cur.3.len() && cur.3[k] == id;
                    if k < prev.3.len() {
                        assert(prev.3[k] == id);
                        assert(prev.3.contains(id));
                    } else {
                        assert(prev.2[k - prev.3.len()] == id);
                        assert(prev.2.contains(id));
                    }
                }
                if id < cur.0 && probed_missing(start, answers, id as int) {
                    assert(probed_missing(start, prev_a, id as int));
                    if id < prev.0 {
                        assert(prev.3.contains(id));
                        let k = choose|k: int| 0 <= k < prev.3.len() && prev.3[k] == id;
                        assert(cur.3[k] == id);
                    } else {
                        assert(id != prev.0);
                        assert(prev.2.contains(id));
                        let k = choose|k: int| 0 <= k < prev.2.len() && prev.2[k] == id;
                        assert(cur.3[prev.3.len() + k] == id);
                    }
                }
            }
            assert(cur.2.len() == 0);
        } else {
            assert((probe as u32) as int == probe);
            assert(!answers[probe - start - 1]);
            assert forall|id: u32| #[trigger] cur.2.contains(id) <==> (cur.0 < id && probed_missing(start, answers, id as int)) by {
                if cur.2.contains(id) {
                    let k = choose|k: int| 0 <= k < cur.2.len() && cur.2[k] == id;
                    if k < prev.2.len() {
                        assert(prev.2[k] == id);
                        assert(prev.2.contains(id));
                    }
                }
                if cur.0 < id && probed_missing(start, answers, id as int) {
                    if id < probe {
                        assert(prev.2.contains(id));
                        let k = choose|k: int| 0 <= k < prev.2.len() && prev.2[k] == id;
                        assert(cur.2[k] == id);
                    } else {
                        assert(cur.2[prev.2.len() as int] == id);
                    }
                }
            }
            assert forall|id: u32| #[trigger] cur.3.contains(id) <==> (id < cur.0 && probed_missing(start, answers, id as int)) by {
                if id < cur.0 {
                    assert(probed_missing(start, answers, id as int) == probed_missing(start, prev_a, id as int));
                }
            }
            assert forall|i: int| 0 <= i < answers.len() && cur.0 < start + 1 + i implies !#[trigger] answers[i] by {
                if i < prev_a.len() {
                    assert(answers[i] == prev_a[i]);
                    assert(!prev_a[i]);
                }
            }
        }
    }
}

/// Scan forward from `start_id`, treating `exists(probe_id)` as whether the report is online.
/// Stops after `max_consecutive_misses` consecutive missing ids (or at the last `u32` id).
///
/// Trailing boundary misses are not gaps — only interior holes are returned.
#[verifier::spinoff_prover]
pub fn discover_last_from_probes<F: Fn(u32) -> bool>(
    start_id: u32,
    max_consecutive_misses: u32,
    probe_exists: F,
) -> (r: DiscoveryResult)
    requires
        start_id < u32::MAX,
        forall|id: u32| call_requires(probe_exists, (id,)),
    ensures
        exists|answers: Seq<bool>| {
            &&& start_id + answers.len() <= u32::MAX
            &&& forall|i: int| 0 <= i < answers.len() ==> call_ensures(probe_exists, (#[trigger] ((start_id + 1 + i) as u32),), answers[i])
            &&& forall|j: int| 0 <= j < answers.len() ==> #[trigger] discover_fold(start_id, answers.take(j)).1 < max_consecutive_misses
            &&& (discover_fold(start_id, answers).1 >= max_consecutive_misses || start_id + answers.len() == u32::MAX)
            &&& r.last_id == discover_fold(start_id, answers).0
            &&& r.interior_missing@ == discover_fold(start_id, answers).3
            &&& (r.last_id == start_id || (start_id < r.last_id && answers[r.last_id - start_id - 1]))
            &&& forall|i: int| 0 <= i < answers.len() && r.last_id < start_id + 1 + i ==> !#[trigger] answers[i]
            &&& (answers.len() == r.last_id - start_id + max_consecutive_misses || start_id + answers.len() == u32::MAX)
            &&& forall|id: u32| #[trigger] r.interior_missing@.contains(id) <==> (id < r.last_id && probed_missing(start_id, answers, id as int))
        },
        forall|k: int| 0 <= k < r.interior_missing@.len() ==> start_id < #[trigger] r.interior_missing@[k] < r.last_id,
        forall|i: int, j: int| 0 <= i < j < r.interior_missing@.len() ==> r.interior_missing@[i] < r.interior_missing@[j],
{
    let mut last = start_id;
    let mut consecutive_misses: u32 = 0;
    let mut probe: u32 = start_id + 1;
    let mut missing_streak: Vec<u32> = Vec::new();
    let mut interior_missing: Vec<u32> = Vec::new();
    let ghost mut answers: Seq<bool> = Seq::empty();
    while consecutive_misses < max_consecutive_misses
        invariant
            forall|id: u32| call_requires(probe_exists, (id,)),
            probe == start_id + 1 + answers.len(),
            start_id + answers.len() < u32::MAX,
            forall|i: int| 0 <= i < answers.len() ==> call_ensures(probe_exists, (#[trigger] ((start_id + 1 + i) as u32),), answers[i]),
            forall|j: int| 0 <= j < answers.len() ==> #[trigger] discover_fold(start_id, answers.take(j)).1 < max_consecutive_misses,
            discover_fold(start_id, answers) == (last as int, consecutive_misses as nat, missing_streak@, interior_missing@),
        decreases u32::MAX - probe,
    {
        let found = probe_exists(probe);
        proof {
            let old_answers = answers;
            answers = answers.push(found);
            assert(answers.drop_last() =~= old_answers);
            assert(answers.take(old_answers.len() as int) =~= old_answers);
            assert forall|j: int| 0 <= j < old_answers.len() implies answers.take(j) == old_answers.take(j) by {
                assert(answers.take(j) =~= old_answers.take(j));
            }
            assert(((start_id + 1 + old_answers.len()) as u32) == probe);
        }
        if found {
            let ghost streak = missing_streak@;
            let ghost inter = interior_missing@;
            interior_missing.append(&mut missing_streak);
            assert(interior_missing@ == inter + streak);
            last = probe;
            consecutive_misses = 0;
        } else {
            missing_streak.push(probe);
            consecutive_misses = consecutive_misses + 1;
        }
        if probe == u32::MAX {
            proof {
                assert(start_id + answers.len() == u32::MAX);
            }
            proof {
                lemma_discovery_holes_are_interior(start_id, answers);
                lemma_discovery_probes(start_id, answers);
                assert(interior_missing@ == discover_fold(start_id, answers).3);
                assert(last as int == discover_fold(start_id, answers).0);
                let f = discover_fold(start_id, answers);
                assert forall|id: u32| #[trigger] interior_missing@.contains(id) <==> (id < last && probed_missing(start_id, answers, id as int)) by {
                    assert(f.3.contains(id) <==> (id < f.0 && probed_missing(start_id, answers, id as int)));
                }
            }
            return DiscoveryResult { last_id: last, interior_missing };
        }
        probe = probe + 1;
    }
    proof {
        lemma_discovery_holes_are_interior(start_id, answers);
        lemma_discovery_probes(start_id, answers);
        if answers.len() > 0 {
            let j = answers.len() - 1;
            assert(answers.take(j) =~= answers.drop_last());
            assert(discover_fold(start_id, answers.take(j)).1 < max_consecutive_misses);
        }
        assert(answers.len() == last - start_id + max_consecutive_misses);
        assert(last == start_id || (start_id < last && answers[last - start_id - 1]));
        let f = discover_fold(start_id, answers);
        assert(f.3 == interior_missing@);
        assert(f.0 == last as int);
        assert forall|id: u32| #[trigger] interior_missing@.contains(id) <==> (id < last && probed_missing(start_id, answers, id as int)) by {
            assert(f.3.contains(id) <==> (id < f.0 && probed_missing(start_id, answers, id as int)));
        }
    }
    DiscoveryResult { last_id: last, interior_missing }
}

/// Why a meeting coverage reconciliation refused its inputs.
pub enum CoverageError {
    /// Ids present both as parsed rows and as gaps (at most eight of them).
    Overlap(Vec<u32>),
    /// An id up to the boundary that is neither parsed nor a gap.
    Incomplete { id: u32, boundary: u32 },
    /// A gap whose reason may not be published.
    DisallowedReason { id: u32, reason: String },
    /// A gap past the discovery boundary.
    BeyondBoundary { id: u32, boundary: u32 },
}

pub open spec fn coverage_overlap(parsed: Set<u32>, gaps: Map<u32, MeetingGapRow>) -> bool {
    exists|id: u32| parsed.contains(id) && gaps.contains_key(id)
}

/// Id `id` is either parsed or an accepted gap.
pub open spec fn id_covered(id: u32, parsed: Set<u32>, gaps: Map<u32, MeetingGapRow>) -> bool {
    &&& (parsed.contains(id) || gaps.contains_key(id))
    &&& (gaps.contains_key(id) ==> accepted_gap_reason(gaps[id].reason@))
}

pub open spec fn coverage_complete(boundary: u32, parsed: Set<u32>, gaps: Map<u32, MeetingGapRow>) -> bool {
    forall|id: u32| 1 <= id <= boundary ==> #[trigger] id_covered(id, parsed, gaps)
}

pub open spec fn no_gap_beyond(boundary: u32, gaps: Map<u32, MeetingGapRow>) -> bool {
    forall|id: u32| gaps.contains_key(id) ==> id <= boundary
}

/// Every ID in `1..=boundary` must appear in exactly one of `parsed_ids` or `gaps`,
/// every gap must carry an accepted reason, and no gap may lie past the boundary.
pub open spec fn coverage_valid(boundary: u32, parsed: Set<u32>, gaps: Map<u32, MeetingGapRow>) -> bool {
    !coverage_overlap(parsed, gaps) && coverage_complete(boundary, parsed, gaps) && no_gap_beyond(boundary, gaps)
}


/// The meeting ids of `gaps`.
pub fn gap_ids_ascending(gaps: &BTreeMap<u32, MeetingGapRow>) -> (r: Vec<u32>)
    ensures
        r@.to_set() == gaps@.dom(),
{
    let mut out: Vec<u32> = Vec::new();
    for id in it: gaps.keys()
        invariant
            it.seq().unref().to_set() == gaps@.dom(),
            out@ == it.seq().unref().take(it.index()),
    {
        out.push(*id);
        proof {
            assert(it.seq().unref().take(it.index() + 1) =~= it.seq().unref().take(it.index()).push(*id));
        }
    }
    proof {
        assert(out@.to_set() == gaps@.dom());
    }
    out
}

pub fn reconcile_meeting_coverage(
    boundary: u32,
    parsed_ids: &BTreeSet<u32>,
    gaps: &BTreeMap<u32, MeetingGapRow>,
) -> (r: Result<(), CoverageError>)
    ensures
        r is Ok <==> coverage_valid(boundary, parsed_ids@, gaps@),
        coverage_overlap(parsed_ids@, gaps@) <==> r matches Err(CoverageError::Overlap(_)),
        r matches Err(CoverageError::Overlap(ids)) ==> ids@.len() > 0 && forall|k: int| 0 <= k < ids@.len()
            ==> parsed_ids@.contains(#[trigger] ids@[k]) && gaps@.contains_key(ids@[k]),
        r matches Err(CoverageError::Incomplete { id, boundary: b }) ==> {
            &&& b == boundary && 1 <= id <= boundary
            &&& !parsed_ids@.contains(id) && !gaps@.contains_key(id)
            &&& forall|k: u32| 1 <= k < id ==> #[trigger] id_covered(k, parsed_ids@, gaps@)
        },
        r matches Err(CoverageError::DisallowedReason { id, reason }) ==> {
            &&& 1 <= id <= boundary && gaps@.contains_key(id)
            &&& reason@ == gaps@[id].reason@ && !accepted_gap_reason(reason@)
            &&& forall|k: u32| 1 <= k < id ==> #[trigger] id_covered(k, parsed_ids@, gaps@)
        },
        r matches Err(CoverageError::BeyondBoundary { id, boundary: b }) ==> {
            &&& b == boundary && gaps@.contains_key(id) && id > boundary
            &&& coverage_complete(boundary, parsed_ids@, gaps@)
        },
{
    // Overlap: walk the gap ids in ascending order.
    let ids = gap_ids_ascending(gaps);
    let mut overlap: Vec<u32> = Vec::new();
    let mut i: usize = 0;
    while i < ids.len()
        invariant
            i <= ids.len(),
            ids@.to_set() == gaps@.dom(),
            forall|k: int| 0 <= k < overlap@.len() ==> parsed_ids@.contains(#[trigger] overlap@[k]) && gaps@.contains_key(overlap@[k]),
            overlap@.len() == 0 ==> forall|k: int| 0 <= k < i ==> !parsed_ids@.contains(#[trigger] ids@[k]),
            overlap@.len() <= 8,
        decreases ids.len() - i,
    {
        if overlap.len() < 8 && parsed_ids.contains(&ids[i]) {
            assert(ids@.to_set().contains(ids@[i as int]));
            overlap.push(ids[i]);
        }
        i = i + 1;
    }
    if overlap.len() > 0 {
        proof {
            assert(parsed_ids@.contains(overlap@[0]) && gaps@.contains_key(overlap@[0]));
        }
        return Err(CoverageError::Overlap(overlap));
    }
    proof {
        assert forall|id: u32| !(parsed_ids@.contains(id) && gaps@.contains_key(id)) by {
            if gaps@.contains_key(id) {
                assert(ids@.to_set().contains(id));
                let k = choose|k: int| 0 <= k < ids@.len() && ids@[k] == id;
                assert(!parsed_ids@.contains(ids@[k]));
            }
        }
    }
    let mut id: u64 = 1;
    while id <= boundary as u64
        invariant
            1 <= id <= boundary as u64 + 1,
            !coverage_overlap(parsed_ids@, gaps@),
            forall|k: u32| 1 <= k < id ==> #[trigger] id_covered(k, parsed_ids@, gaps@),
        decreases boundary as u64 + 1 - id,
    {
        let k = id as u32;
        let in_parsed = parsed_ids.contains(&k);
        let in_gaps = gaps.contains_key(&k);
        if !in_parsed && !in_gaps {
            assert(!id_covered(k, parsed_ids@, gaps@));
            return Err(CoverageError::Incomplete { id: k, boundary });
        }
        if in_gaps {
            let row = gaps.get(&k).unwrap();
            if !is_accepted_gap_reason(&row.reason) {
                assert(!id_covered(k, parsed_ids@, gaps@));
                return Err(CoverageError::DisallowedReason { id: k, reason: row.reason.clone() });
            }
        }
        assert(id_covered(k, parsed_ids@, gaps@));
        id = id + 1;
    }
    let mut j: usize = 0;
    while j < ids.len()
        invariant
            j <= ids.len(),
            ids@.to_set() == gaps@.dom(),
            coverage_complete(boundary, parsed_ids@, gaps@),
            !coverage_overlap(parsed_ids@, gaps@),
            forall|k: int| 0 <= k < j ==> #[trigger] ids@[k] <= boundary,
        decreases ids.len() - j,
    {
        if ids[j] > boundary {
            assert(ids@.to_set().contains(ids@[j as int]));
            return Err(CoverageError::BeyondBoundary { id: ids[j], boundary });
        }
        j = j + 1;
    }
    proof {
        assert forall|g: u32| gaps@.contains_key(g) implies g <= boundary by {
            assert(ids@.to_set().contains(g));
            let k = choose|k: int| 0 <= k < ids@.len() && ids@[k] == g;
            assert(ids@[k] <= boundary);
        }
    }
    Ok(())
}

/// Map a meeting gap reason onto a source-manifest status.
pub open spec fn gap_reason_status(reason: Seq<char>) -> Seq<char> {
    if reason == GAP_REASON_NOT_FOUND@ {
        MANIFEST_STATUS_NOT_FOUND@
    } else if reason == GAP_REASON_UNSUPPORTED_FORMAT@ {
        MANIFEST_STATUS_UNSUPPORTED_FORMAT@
    } else if reason == GAP_REASON_NO_RESULT@ {
        MANIFEST_STATUS_NO_RESULT@
    } else {
        MANIFEST_STATUS_NOT_FOUND@
    }
}

pub fn gap_reason_to_manifest_status(reason: &str) -> (r: &'static str)
    ensures
        r@ == gap_reason_status(reason@),
{
    if str_eq(reason, GAP_REASON_NOT_FOUND) {
        MANIFEST_STATUS_NOT_FOUND
    } else if str_eq(reason, GAP_REASON_UNSUPPORTED_FORMAT) {
        MANIFEST_STATUS_UNSUPPORTED_FORMAT
    } else if str_eq(reason, GAP_REASON_NO_RESULT) {
        MANIFEST_STATUS_NO_RESULT
    } else {
        MANIFEST_STATUS_NOT_FOUND
    }
}

pub fn manifest_status_for_parsed() -> (r: &'static str)
    ensures
        r@ == MANIFEST_STATUS_PARSED@,
{
    MANIFEST_STATUS_PARSED
}

/// The set of meeting ids that have a gap.
pub fn gap_id_set(gaps: &BTreeMap<u32, MeetingGapRow>) -> (r: BTreeSet<u32>)
    ensures
        r@ == gaps@.dom(),
{
    let ids = gap_ids_ascending(gaps);
    let mut out: BTreeSet<u32> = BTreeSet::new();
    let mut i: usize = 0;
    while i < ids.len()
        invariant
            i <= ids.len(),
            out@ == ids@.take(i as int).to_set(),
        decreases ids.len() - i,
    {
        out.insert(ids[i]);
        assert(ids@.take(i + 1) =~= ids@.take(i as int).push(ids@[i as int]));
        i = i + 1;
    }
    assert(ids@.take(ids.len() as int) =~= ids@);
    out
}

/// A gap row as plain values: session, kind, meeting, reason, detail, source URL, cache
/// path, content hash, fetched and checked timestamps.
pub type GapView = (u32, Seq<char>, u32, Seq<char>, Seq<char>, Seq<char>, Seq<char>, Seq<char>, Seq<char>, Seq<char>);

pub open spec fn gap_view(g: MeetingGapRow) -> GapView {
    (g.session_id, g.meeting_kind@, g.meeting_id, g.reason@, g.detail@, g.source_url@, g.cache_path@, g.content_hash@,
        g.fetched_at@, g.checked_at@)
}

/// What a stored gap becomes when it is loaded again: an accepted gap keeps its reason and
/// gets the session and kind where it lacks them; a legacy `parse_failed` gap becomes
/// `not_found` when its detail mentions a missing cache, `unsupported_format` when it
/// mentions a missing table or a PDF (checked after lower-casing), and takes the session and
/// kind; any other gap is dropped.
pub open spec fn migrated_gap(g: GapView, session_id: u32, meeting_kind: Seq<char>) -> Option<GapView> {
    if accepted_gap_reason(g.3) {
        Some((if g.0 == 0 { session_id } else { g.0 }, if g.1.len() == 0 { meeting_kind } else { g.1 }, g.2, g.3, g.4,
            g.5, g.6, g.7, g.8, g.9))
    } else if g.3 == "parse_failed"@ {
        let d = crate::text::lowercase(g.4);
        if crate::text::contains(d, "cache missing"@) {
            Some((session_id, meeting_kind, g.2, GAP_REASON_NOT_FOUND@, g.4, g.5, g.6, g.7, g.8, g.9))
        } else if crate::text::contains(d, "no table"@) || crate::text::contains(d, "pdf"@) {
            Some((session_id, meeting_kind, g.2, GAP_REASON_UNSUPPORTED_FORMAT@, g.4, g.5, g.6, g.7, g.8, g.9))
        } else {
            None
        }
    } else {
        None
    }
}

/// The prior gaps, by meeting, from stored rows in order: a later row for the same meeting
/// replaces an earlier one.
pub open spec fn prior_gaps_view(rows: Seq<MeetingGapRow>, session_id: u32, meeting_kind: Seq<char>) -> Map<u32, GapView>
    decreases rows.len(),
{
    if rows.len() == 0 {
        Map::empty()
    } else {
        let prev = prior_gaps_view(rows.drop_last(), session_id, meeting_kind);
        match migrated_gap(gap_view(rows.last()), session_id, meeting_kind) {
            Some(g) => prev.insert(rows.last().meeting_id, g),
            None => prev,
        }
    }
}

/// One stored gap as it is loaded again (see `migrated_gap`).
pub fn migrate_prior_gap(row: MeetingGapRow, session_id: u32, meeting_kind: &str) -> (r: Option<MeetingGapRow>)
    ensures
        match r {
            Some(g) => migrated_gap(gap_view(row), session_id, meeting_kind@) == Some(gap_view(g)),
            None => migrated_gap(gap_view(row), session_id, meeting_kind@) is None,
        },
{
    let mut row = row;
    if is_accepted_gap_reason(row.reason.as_str()) {
        if row.meeting_kind.as_str().is_empty() {
            row.meeting_kind = owned(meeting_kind);
        }
        if row.session_id == 0 {
            row.session_id = session_id;
        }
        return Some(row);
    }
    if !str_eq(row.reason.as_str(), "parse_failed") {
        return None;
    }
    let d = crate::text::to_lower(row.detail.as_str());
    let reason = if crate::text::str_contains(d.as_str(), "cache missing") {
        GAP_REASON_NOT_FOUND
    } else if crate::text::str_contains(d.as_str(), "no table") || crate::text::str_contains(d.as_str(), "pdf") {
        GAP_REASON_UNSUPPORTED_FORMAT
    } else {
        return None;
    };
    row.reason = owned(reason);
    row.session_id = session_id;
    row.meeting_kind = owned(meeting_kind);
    Some(row)
}

/// Prior accepted gaps (for cache-only reconciliation of known remote holes), from the rows
/// of a stored gap file: each row migrated (see `migrated_gap`), a later row for the same
/// meeting replacing an earlier one.
pub fn load_prior_gaps(rows: Vec<MeetingGapRow>, session_id: u32, meeting_kind: &str) -> (r: BTreeMap<u32, MeetingGapRow>)
    ensures
        r@.map_values(|g: MeetingGapRow| gap_view(g)) == prior_gaps_view(rows@, session_id, meeting_kind@),
        forall|id: u32| #[trigger] r@.contains_key(id) ==> r@[id].meeting_id == id,
{
    let mut map: BTreeMap<u32, MeetingGapRow> = BTreeMap::new();
    let ghost all = rows@;
    let n = rows.len();
    let mut i: usize = 0;
    assert(map@.map_values(|g: MeetingGapRow| gap_view(g)) =~= prior_gaps_view(all.take(0), session_id, meeting_kind@));
    while i < n
        invariant
            i <= n,
            n == all.len(),
            all == rows@,
            map@.map_values(|g: MeetingGapRow| gap_view(g)) == prior_gaps_view(all.take(i as int), session_id, meeting_kind@),
            forall|id: u32| #[trigger] map@.contains_key(id) ==> map@[id].meeting_id == id,
        decreases n - i,
    {
        let row = rows[i].clone();
        assert(row == all[i as int]);
        proof {
            assert(all.take(i + 1).drop_last() =~= all.take(i as int));
            assert(all.take(i + 1).last() == all[i as int]);
        }
        let id = row.meeting_id;
        let ghost before = map@;
        match migrate_prior_gap(row, session_id, meeting_kind) {
            Some(g) => {
                let ghost gv = gap_view(g);
                proof {
                    assert(g.meeting_id == id) by {
                        assert(gv.2 == all[i as int].meeting_id);
                    }
                }
                map.insert(id, g);
                assert(map@.map_values(|g: MeetingGapRow| gap_view(g)) =~= before.map_values(|g: MeetingGapRow| gap_view(g)).insert(id, gv));
            },
            None => {},
        }
        i = i + 1;
    }
    assert(all.take(n as int) =~= all);
    map
}

/// Drops the gaps beyond the discovery boundary.
pub fn retain_gaps_up_to(gaps: &mut BTreeMap<u32, MeetingGapRow>, boundary: u32)
    ensures
        final(gaps)@ == old(gaps)@.restrict(old(gaps)@.dom().filter(|id: u32| id <= boundary)),
{
    let ids = gap_ids_ascending(gaps);
    let ghost orig = gaps@;
    let mut i: usize = 0;
    while i < ids.len()
        invariant
            i <= ids@.len(),
            ids@.to_set() == orig.dom(),
            gaps@ == orig.restrict(orig.dom().filter(|id: u32| id <= boundary || !ids@.take(i as int).contains(id))),
        decreases ids.len() - i,
    {
        let id = ids[i];
        let ghost before = gaps@;
        if id > boundary {
            gaps.remove(&id);
        }
        assert(gaps@ =~= orig.restrict(orig.dom().filter(|x: u32| x <= boundary || !ids@.take(i + 1).contains(x)))) by {
            assert(ids@.take(i + 1) =~= ids@.take(i as int).push(id));
            assert forall|x: u32| ids@.take(i + 1).contains(x) <==> (ids@.take(i as int).contains(x) || x == id) by {
                ids@.take(i as int).lemma_push_to_set_commute(id);
                assert(ids@.take(i + 1).to_set().contains(x) <==> ids@.take(i + 1).contains(x));
                assert(ids@.take(i as int).to_set().contains(x) <==> ids@.take(i as int).contains(x));
            }
        }
        i = i + 1;
    }
    assert(ids@.take(ids@.len() as int) =~= ids@);
    assert(gaps@ =~= orig.restrict(orig.dom().filter(|id: u32| id <= boundary))) by {
        assert forall|x: u32| orig.dom().contains(x) implies ids@.contains(x) by {
            assert(ids@.to_set().contains(x));
        }
    }
}

} // verus!
