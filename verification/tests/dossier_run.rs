use crawl::dossier_outputs::{
    after_dossier_fetch, cached_dossier_skip, compact_utc_stamp, dossier_ids_from_cache_filenames,
    dossier_inventory_text, dossier_versioned_cache_name, fingerprint_of_dossier, first_uncached_dossier,
    is_dossier_cache_candidate, order_discovered_ids, parse_dossier_id_tsv, reconcile_dossier_outputs, DownloadAction,
    DownloadStats, FetchedDossier, ReconcileError,
};
use crawl::dossiers::{
    DocumentStatus, DocumentType, Dossier, ScrapedDossier, ScrapedSubdocument, Subdocument,
};
use crawl::source_manifest::{SourceManifestRow, MANIFEST_STATUS_NOT_FOUND, MANIFEST_STATUS_PARSED};

fn manifest(id: &str, status: &str) -> SourceManifestRow {
    SourceManifestRow {
        source: "dossiers".into(),
        session_id: "56".into(),
        item_kind: "dossier".into(),
        native_item_id: id.into(),
        source_url: String::new(),
        cache_path: String::new(),
        status: status.into(),
        row_count: 1,
        content_type: String::new(),
        content_hash: String::new(),
        fetched_at: String::new(),
        checked_at: String::new(),
        run_mode: "live".into(),
        detail: String::new(),
    }
}

fn dossier_row(id: &str) -> ScrapedDossier {
    ScrapedDossier {
        session_id: 56,
        dossier_id: id.into(),
        last_updated: String::new(),
        title: String::new(),
        authors: String::new(),
        submission_date: String::new(),
        end_date: String::new(),
        vote_date: String::new(),
        document_type: String::new(),
        status: String::new(),
        latest_adopted_text_url: None,
        latest_report_url: None,
        eurovoc_main_descriptor: String::new(),
        eurovoc_descriptors: String::new(),
        original_text_url: None,
        source_url: String::new(),
        cache_path: String::new(),
    }
}

fn sub_row(id: &str, dossier_id: &str) -> ScrapedSubdocument {
    ScrapedSubdocument {
        dossier_id: dossier_id.into(),
        id: id.into(),
        date: String::new(),
        document_type: String::new(),
        authors: String::new(),
        file_url: None,
        source_url: String::new(),
        cache_path: String::new(),
    }
}

#[test]
fn reconcile_accepts_consistent_outputs() {
    let expected = vec!["1".to_string(), "2".to_string()];
    let rows = vec![manifest("1", MANIFEST_STATUS_PARSED), manifest("2", MANIFEST_STATUS_NOT_FOUND)];
    let result = reconcile_dossier_outputs(&expected, &[dossier_row("1")], &[sub_row("a", "1")], &rows);
    assert!(result.is_ok());
}

#[test]
fn reconcile_reports_inventory_mismatch() {
    let expected = vec!["1".to_string(), "2".to_string()];
    let rows = vec![manifest("1", MANIFEST_STATUS_PARSED), manifest("3", MANIFEST_STATUS_PARSED)];
    match reconcile_dossier_outputs(&expected, &[dossier_row("1")], &[], &rows) {
        Err(ReconcileError::InventoryMismatch { missing, extra }) => {
            assert_eq!(missing, vec!["2".to_string()]);
            assert_eq!(extra, vec!["3".to_string()]);
            let err = ReconcileError::InventoryMismatch { missing, extra };
            assert_eq!(err.message(), "dossier inventory/manifest mismatch: missing=[\"2\"] extra=[\"3\"]");
        }
        _ => panic!("expected an inventory mismatch"),
    }
}

#[test]
fn reconcile_reports_overlapping_statuses() {
    let expected = vec!["1".to_string()];
    let rows = vec![manifest("1", MANIFEST_STATUS_PARSED), manifest("1", MANIFEST_STATUS_NOT_FOUND)];
    let result = reconcile_dossier_outputs(&expected, &[dossier_row("1")], &[], &rows);
    assert!(matches!(result, Err(ReconcileError::OverlappingStatuses)));
}

#[test]
fn reconcile_reports_parsed_mismatch() {
    let expected = vec!["1".to_string(), "2".to_string()];
    let rows = vec![manifest("1", MANIFEST_STATUS_PARSED), manifest("2", MANIFEST_STATUS_PARSED)];
    match reconcile_dossier_outputs(&expected, &[dossier_row("1")], &[], &rows) {
        Err(ReconcileError::ParsedMismatch { missing, extra }) => {
            assert_eq!(missing, vec!["2".to_string()]);
            assert!(extra.is_empty());
        }
        _ => panic!("expected a parsed mismatch"),
    }
}

#[test]
fn reconcile_reports_orphan_subdocument() {
    let expected = vec!["1".to_string()];
    let rows = vec![manifest("1", MANIFEST_STATUS_PARSED)];
    match reconcile_dossier_outputs(&expected, &[dossier_row("1")], &[sub_row("a", "1"), sub_row("b", "9")], &rows) {
        Err(err @ ReconcileError::OrphanSubdocument { .. }) => {
            assert_eq!(err.message(), "subdocument b references dossier 9 outside parsed set");
        }
        _ => panic!("expected an orphan subdocument"),
    }
}

#[test]
fn inventory_text_reads_back() {
    let entries = vec![("20".to_string(), "2026-01-02".to_string()), ("3".to_string(), String::new())];
    let text = dossier_inventory_text(&entries);
    assert_eq!(text, "20\t2026-01-02\n3\t\n");
    let back = parse_dossier_id_tsv(&text);
    assert_eq!(back, vec![("20".to_string(), "2026-01-02".to_string()), ("3".to_string(), String::new())]);
}

#[test]
fn inventory_lines_are_trimmed_and_blank_lines_skipped() {
    let parsed = parse_dossier_id_tsv(" 12 \t 2025-03-04 \r\n\n   \n7\n");
    assert_eq!(parsed, vec![("12".to_string(), "2025-03-04".to_string()), ("7".to_string(), String::new())]);
}

#[test]
fn cache_file_names_give_dossier_ids_once() {
    let names = vec![
        "56_1000_20260701T120000Z_aaaaaaaa.html".to_string(),
        "56_1000_2026-07-01.html".to_string(),
        "56_12_x.html".to_string(),
        "55_1_x.html".to_string(),
        "56_1000_x.html.meta.json".to_string(),
    ];
    let mut ids = dossier_ids_from_cache_filenames(56, &names);
    ids.sort();
    assert_eq!(ids, vec!["1000".to_string(), "12".to_string()]);
}

#[test]
fn candidates_and_first_uncached() {
    assert!(is_dossier_cache_candidate("56_12_x.html", 56, "12"));
    assert!(!is_dossier_cache_candidate("56_120_x.html", 56, "12"));
    assert!(!is_dossier_cache_candidate("56_12_x.html.meta.json", 56, "12"));
    let names = vec!["56_12_x.html".to_string()];
    let ids = vec!["12".to_string(), "13".to_string()];
    assert_eq!(first_uncached_dossier(56, &ids, &names), Some(1));
    assert_eq!(first_uncached_dossier(56, &ids[..1].to_vec(), &names), None);
}

#[test]
fn versioned_cache_names_carry_stamp_and_hash() {
    assert_eq!(compact_utc_stamp("2026-07-15T19:21:00Z"), "20260715T192100Z");
    assert_eq!(
        dossier_versioned_cache_name(56, "1000", "2026-07-15T19:21:00Z", b"abc"),
        "56_1000_20260715T192100Z_ba7816bf.html"
    );
}

#[test]
fn discovered_ids_keep_first_and_sort_by_number() {
    let found = vec!["99".to_string(), "100".to_string(), "x".to_string(), "99".to_string(), "5".to_string()];
    assert_eq!(
        order_discovered_ids(&found),
        vec!["x".to_string(), "5".to_string(), "99".to_string(), "100".to_string()]
    );
}

#[test]
fn download_stats_count_each_action() {
    let mut stats = DownloadStats::new();
    stats.record(DownloadAction::SkippedFresh);
    stats.record(DownloadAction::SkippedSettled);
    stats.record(DownloadAction::Downloaded);
    stats.record(DownloadAction::SkippedFresh);
    assert_eq!(stats.skipped_fresh, 2);
    assert_eq!(stats.downloaded, 1);
    assert_eq!(stats.skipped_total(), 3);
}

#[test]
fn recheck_decisions() {
    assert_eq!(cached_dossier_skip(true, Some(3), 90), Some(DownloadAction::SkippedSettled));
    assert_eq!(cached_dossier_skip(false, Some(3), 7), Some(DownloadAction::SkippedFresh));
    assert_eq!(cached_dossier_skip(false, Some(7), 7), None);
    assert_eq!(cached_dossier_skip(false, None, 7), None);
    let kept = after_dossier_fetch(true, FetchedDossier::NotFound);
    assert_eq!(kept.action, DownloadAction::SkippedUnchanged);
    assert!(kept.touch_cached && !kept.write_version);
    let changed = after_dossier_fetch(true, FetchedDossier::Changed);
    assert_eq!(changed.action, DownloadAction::Downloaded);
    assert!(changed.write_version);
    assert_eq!(after_dossier_fetch(false, FetchedDossier::NotFound).action, DownloadAction::NotFound);
}

fn dossier(authors: Vec<&str>, subs: Vec<(&str, Vec<&str>)>) -> Dossier {
    Dossier {
        title: "Titel \"x\"".into(),
        authors: authors.into_iter().map(String::from).collect(),
        submission_date: "2025-01-02".into(),
        end_date: String::new(),
        vote_date: String::new(),
        document_type: DocumentType::Onbekend,
        status: DocumentStatus::Aangenomen,
        subdocuments: subs
            .into_iter()
            .map(|(id, a)| Subdocument {
                dossier_id: "12".into(),
                id: id.into(),
                document_type: DocumentType::Onbekend,
                date: String::new(),
                authors: a.into_iter().map(String::from).collect(),
                file_url: None,
            })
            .collect(),
        eurovoc_main_descriptor: "X".into(),
        eurovoc_descriptors: "b, a".into(),
        original_text_url: None,
    }
}

#[test]
fn fingerprint_ignores_source_order() {
    let a = fingerprint_of_dossier(&dossier(vec!["B", "A"], vec![("2", vec!["y", "x"]), ("1", vec![])]));
    let b = fingerprint_of_dossier(&dossier(vec!["A", "B"], vec![("1", vec![]), ("2", vec!["x", "y"])]));
    assert_eq!(a, b);
    assert!(a.starts_with("{\"title\":\"Titel \\\"x\\\"\",\"authors\":\"A,B\",\"status\":\"Aangenomen\""));
    assert!(a.contains("\"eurovoc_descriptors\":\"a,b\""));
    assert!(a.contains("\"subdocuments\":[{\"id\":\"1\""));
}
