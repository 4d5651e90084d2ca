use std::collections::{BTreeMap, BTreeSet};

use crawl::meeting_gaps::{discover_last_from_probes, reconcile_meeting_coverage, MeetingGapRow, GAP_REASON_NOT_FOUND};

#[test]
fn discover_skips_gap_and_continues() {
    let exists = |id: u32| id != 67 && id <= 70;
    let result = discover_last_from_probes(66, 2, exists);
    assert_eq!(result.last_id, 70);
    assert_eq!(result.interior_missing, vec![67]);
}

#[test]
fn main_discover_stops_after_two_consecutive_misses() {
    let exists = |id: u32| id == 68;
    let result = discover_last_from_probes(66, 2, exists);
    assert_eq!(result.last_id, 68);
    assert_eq!(result.interior_missing, vec![67]);
}

#[test]
fn trailing_404_is_not_recorded_as_gap() {
    let exists = |_id: u32| false;
    let result = discover_last_from_probes(10, 2, exists);
    assert_eq!(result.last_id, 10);
    assert!(result.interior_missing.is_empty());
}

#[test]
fn discover_interior_gap_excludes_trailing_misses() {
    let exists = |id: u32| id != 67 && id <= 70;
    let result = discover_last_from_probes(66, 2, exists);
    assert_eq!(result.last_id, 70);
    assert_eq!(result.interior_missing, vec![67]);
}

#[test]
fn meeting_gaps_discover_stops_after_two_consecutive_misses() {
    let exists = |id: u32| id == 68;
    let result = discover_last_from_probes(66, 2, exists);
    assert_eq!(result.last_id, 68);
    assert_eq!(result.interior_missing, vec![67]);
}

#[test]
fn trailing_404_only_is_not_a_gap() {
    let exists = |_id: u32| false;
    let result = discover_last_from_probes(10, 2, exists);
    assert_eq!(result.last_id, 10);
    assert!(result.interior_missing.is_empty());
}

#[test]
fn reconcile_requires_full_coverage() {
    let mut parsed = BTreeSet::new();
    parsed.insert(1);
    parsed.insert(2);
    let mut gaps = BTreeMap::new();
    gaps.insert(3, MeetingGapRow::new(56, "commission", 3, GAP_REASON_NOT_FOUND, "HTTP 404", "", ""));
    assert!(reconcile_meeting_coverage(3, &parsed, &gaps).is_ok());

    // Missing id 2
    parsed.remove(&2);
    assert!(reconcile_meeting_coverage(3, &parsed, &gaps).is_err());
}

#[test]
fn reconcile_rejects_parse_failed() {
    let parsed = BTreeSet::from([1u32]);
    let mut gaps = BTreeMap::new();
    gaps.insert(2, MeetingGapRow::new(56, "commission", 2, "parse_failed", "boom", "", ""));
    assert!(reconcile_meeting_coverage(2, &parsed, &gaps).is_err());
}

#[test]
fn reconcile_rejects_overlap() {
    let parsed = BTreeSet::from([1u32]);
    let mut gaps = BTreeMap::new();
    gaps.insert(1, MeetingGapRow::new(56, "plenary", 1, GAP_REASON_NOT_FOUND, "x", "", ""));
    assert!(reconcile_meeting_coverage(1, &parsed, &gaps).is_err());
}
