use crawl::atomic_io::{commit_start, commit_step, sanitize_label, BundlePublisher, CommitAction, CommitEvent};
use crawl::cache_meta::{check_cache_write_allowed, new_artifact_metadata, now_rfc3339, refresh_needs_write, touched_metadata};
use crawl::commission_meetings::{
    fetch_step, is_pdf_response, meeting_disposition, meeting_header, start_fetch, MeetingDisposition, MeetingPage,
    ProbeOutcome,
};
use crawl::commissions::{extract_index, IndexElement};
use crawl::meeting_gaps::{load_prior_gaps, retain_gaps_up_to, MeetingGapRow, GAP_REASON_NOT_FOUND, GAP_REASON_UNSUPPORTED_FORMAT};
use crawl::qrva_text::{flatten_qrva_text, QrvaText};
use crawl::report_text::{decode_windows_1252, report_html_text};
use crawl::utils::{max_cached_meeting_id, relative_cache_path, scraping_user_agent, slugify_name};
use crawl::written_qa::{answer_node_label, merged_written_ids, oral_reference_edge_props, question_node_label, OralWrittenLink};
use std::collections::BTreeMap;

#[test]
fn slugs_spell_accents_and_drop_symbols() {
    assert_eq!(slugify_name("Zoë Genot-Österreich"), "zo-genot-oesterreich");
    assert_eq!(slugify_name("  Jean-Marie Dedecker (LDD)  "), "jean-marie-dedecker-ldd");
    assert_eq!(slugify_name("Señor Ørsted"), "senor-orsted");
}

#[test]
fn highest_cached_meeting_id() {
    let names = vec!["56-3.html".to_string(), "56-12.html".to_string(), "55-99.html".to_string(), "56-x.html".to_string()];
    assert_eq!(max_cached_meeting_id(56, &names), Some(12));
    assert_eq!(max_cached_meeting_id(57, &names), None);
}

#[test]
fn cache_paths_relative_to_root() {
    assert_eq!(relative_cache_path("/cache/sessions/56/a.html", "/cache"), "sessions/56/a.html");
    assert_eq!(relative_cache_path("/cache/sessions/56/a.html", "/cache/"), "sessions/56/a.html");
    assert_eq!(relative_cache_path("/cachex/a.html", "/cache"), "/cachex/a.html");
    assert_eq!(relative_cache_path("/cache", "/cache"), "");
}

#[test]
fn user_agent_refuses_placeholders() {
    assert_eq!(
        scraping_user_agent("civic", "civic.example.org", "me@example.org").unwrap(),
        "civic/0.1 (+civic.example.org; me@example.org)"
    );
    assert!(scraping_user_agent("yourproject", "civic.example.org", "me@example.org").is_err());
    assert!(scraping_user_agent("civic", "civic.example.org", "your@email.com").is_err());
}

#[test]
fn prior_gaps_are_migrated() {
    let rows = vec![
        MeetingGapRow::new(0, "", 4, GAP_REASON_NOT_FOUND, "HTTP 404", "", ""),
        MeetingGapRow::new(56, "commission", 5, "parse_failed", "Cache MISSING for report", "", ""),
        MeetingGapRow::new(56, "commission", 6, "parse_failed", "No table in PDF", "", ""),
        MeetingGapRow::new(56, "commission", 7, "parse_failed", "boom", "", ""),
        MeetingGapRow::new(56, "commission", 8, "something_else", "", "", ""),
    ];
    let gaps = load_prior_gaps(rows, 56, "commission");
    assert_eq!(gaps.keys().copied().collect::<Vec<_>>(), vec![4, 5, 6]);
    assert_eq!(gaps[&4].session_id, 56);
    assert_eq!(gaps[&4].meeting_kind, "commission");
    assert_eq!(gaps[&5].reason, GAP_REASON_NOT_FOUND);
    assert_eq!(gaps[&6].reason, GAP_REASON_UNSUPPORTED_FORMAT);
}

#[test]
fn gaps_beyond_boundary_are_dropped() {
    let mut gaps = BTreeMap::new();
    for id in [2u32, 5, 9] {
        gaps.insert(id, MeetingGapRow::new(56, "commission", id, GAP_REASON_NOT_FOUND, "", "", ""));
    }
    retain_gaps_up_to(&mut gaps, 5);
    assert_eq!(gaps.keys().copied().collect::<Vec<_>>(), vec![2, 5]);
}

#[test]
fn probe_loop_records_interior_gaps_only() {
    let mut state = start_fetch(10);
    let d = fetch_step(&mut state, ProbeOutcome::NotFound);
    assert!(!d.done && d.not_found_gaps.is_empty());
    let d = fetch_step(&mut state, ProbeOutcome::Found(true));
    assert_eq!(d.not_found_gaps, vec![11]);
    assert_eq!(d.pdf_gap, Some(12));
    assert_eq!(state.last, 12);
    let d = fetch_step(&mut state, ProbeOutcome::NotFound);
    assert!(!d.done);
    let d = fetch_step(&mut state, ProbeOutcome::NotFound);
    assert!(d.done && d.not_found_gaps.is_empty());
    assert_eq!(state.last, 12);
}

#[test]
fn meeting_dispositions() {
    assert_eq!(meeting_disposition(Some("not_found"), true, false), MeetingDisposition::KnownGap);
    assert_eq!(meeting_disposition(None, true, true), MeetingDisposition::PdfGap);
    assert_eq!(meeting_disposition(None, true, false), MeetingDisposition::Parse);
    assert_eq!(meeting_disposition(Some("unsupported_format"), false, false), MeetingDisposition::KnownGap);
    assert_eq!(meeting_disposition(None, false, false), MeetingDisposition::MissingCache);
    assert!(is_pdf_response(b"%PDF-1.7", "text/html"));
    assert!(is_pdf_response(b"<html>", "Application/PDF; charset=binary"));
    assert!(!is_pdf_response(b"<html>", "text/html"));
}

#[test]
fn meeting_header_without_table_fails_first_on_date() {
    let page = MeetingPage { first_table_spans: None, spans: vec![], spans_and_paragraphs: vec![] };
    assert_eq!(meeting_header(&page, 56, 1, "u", "c").err(), Some("No table found".to_string()));
}

#[test]
fn commission_index_entries() {
    let elements = vec![
        IndexElement::Link { href: Some("com.cfm?com=1".into()), text: "Ignored".into() },
        IndexElement::Heading { text: " Vaste Commissies ".into() },
        IndexElement::Link { href: Some("/comm/com.cfm?com=2".into()), text: " Justitie / Recht ".into() },
        IndexElement::Heading { text: "  ".into() },
        IndexElement::Link { href: Some("http://x/comm/com.cfm?com=3".into()), text: "Energie".into() },
    ];
    let index = extract_index(&elements, "cache/details");
    assert_eq!(index.len(), 2);
    assert_eq!(index[0].name, "justitie / recht");
    assert_eq!(index[0].ctype, "vaste commissies");
    assert_eq!(index[0].url, "https://www.dekamer.be/kvvcr//comm/com.cfm?com=2");
    assert_eq!(index[0].cache_path, "cache/details/justitie___recht.html");
    assert_eq!(index[1].url, "http://x/comm/com.cfm?com=3");
    assert_eq!(index[1].ctype, "vaste commissies");
}

#[test]
fn bundle_commit_rolls_back_in_reverse() {
    assert_eq!(sanitize_label("commission meetings/2"), "commission-meetings-2");
    let mut bundle = BundlePublisher::new("dossiers", "data", 7);
    assert_eq!(bundle.staging_root(), "data/.publish-dossiers-7");
    assert_eq!(bundle.stage_path("data/a.parquet").unwrap(), "data/.publish-dossiers-7/0_a.parquet");
    assert_eq!(bundle.stage_path("data/x/a.parquet").unwrap(), "data/.publish-dossiers-7/1_a.parquet");
    assert!(bundle.stage_path("data/").is_err());
    let (mut state, action) = commit_start(&bundle);
    assert!(matches!(action, CommitAction::CheckStaging { .. }));
    let action = commit_step(&bundle, &mut state, CommitEvent::StagingExists(true));
    assert!(matches!(action, CommitAction::PrepareFinal { .. }));
    let action = commit_step(&bundle, &mut state, CommitEvent::FinalExists(true));
    match &action {
        CommitAction::BackUp { final_path, backup } => {
            assert_eq!(final_path, "data/a.parquet");
            assert_eq!(backup, "data/a.parquet.prev");
        }
        _ => panic!("expected a backup"),
    }
    let action = commit_step(&bundle, &mut state, CommitEvent::Succeeded);
    assert!(matches!(action, CommitAction::Promote { .. }));
    let action = commit_step(&bundle, &mut state, CommitEvent::Succeeded);
    assert!(matches!(action, CommitAction::CheckStaging { .. }));
    let action = commit_step(&bundle, &mut state, CommitEvent::StagingExists(false));
    match action {
        CommitAction::RollBack { undo, error } => {
            assert_eq!(undo, vec![("data/a.parquet".to_string(), Some("data/a.parquet.prev".to_string()))]);
            assert_eq!(error, "bundle dossiers: staging file missing: data/.publish-dossiers-7/1_a.parquet");
        }
        _ => panic!("expected a rollback"),
    }
}

#[test]
fn bundle_commit_removes_new_finals_on_rollback() {
    let mut bundle = BundlePublisher::new("dossiers", "data", 7);
    bundle.stage_path("data/a.parquet").unwrap();
    bundle.stage_path("data/b.parquet").unwrap();
    let (mut state, _) = commit_start(&bundle);
    let action = commit_step(&bundle, &mut state, CommitEvent::StagingExists(true));
    assert!(matches!(action, CommitAction::PrepareFinal { .. }));
    let action = commit_step(&bundle, &mut state, CommitEvent::FinalExists(false));
    assert!(matches!(action, CommitAction::Promote { .. }));
    let action = commit_step(&bundle, &mut state, CommitEvent::Succeeded);
    assert!(matches!(action, CommitAction::CheckStaging { .. }));
    let action = commit_step(&bundle, &mut state, CommitEvent::StagingExists(false));
    match action {
        CommitAction::RollBack { undo, error } => {
            assert_eq!(undo, vec![("data/a.parquet".to_string(), None)]);
            assert_eq!(error, "bundle dossiers: staging file missing: data/.publish-dossiers-7/1_b.parquet");
        }
        _ => panic!("expected a rollback"),
    }
}

#[test]
fn bundle_commit_finishes_with_backups_only() {
    let mut bundle = BundlePublisher::new("q", "d", 3);
    bundle.stage_path("d/a.json").unwrap();
    bundle.stage_path("d/b.json").unwrap();
    let (mut state, _) = commit_start(&bundle);
    commit_step(&bundle, &mut state, CommitEvent::StagingExists(true));
    commit_step(&bundle, &mut state, CommitEvent::FinalExists(false));
    commit_step(&bundle, &mut state, CommitEvent::Succeeded);
    commit_step(&bundle, &mut state, CommitEvent::StagingExists(true));
    commit_step(&bundle, &mut state, CommitEvent::FinalExists(true));
    commit_step(&bundle, &mut state, CommitEvent::Succeeded);
    let action = commit_step(&bundle, &mut state, CommitEvent::Succeeded);
    match action {
        CommitAction::Finish { remove_backups } => assert_eq!(remove_backups, vec!["d/b.json.prev".to_string()]),
        _ => panic!("expected to finish"),
    }
}

#[test]
fn empty_bundle_finishes_at_once() {
    let bundle = BundlePublisher::new("x", "d", 1);
    let (_, action) = commit_start(&bundle);
    assert!(matches!(action, CommitAction::Finish { remove_backups } if remove_backups.is_empty()));
}

#[test]
fn cache_metadata_updates() {
    let meta = new_artifact_metadata(b"abc", "https://x", "text/html", "2026-01-01T00:00:00Z");
    assert_eq!(meta.content_hash, "ba7816bf8f01cfea414140de5dae2223b00361a396177a9cb410ff61f20015ad");
    let touched = touched_metadata(Some(meta), None, "t0", "t1");
    assert_eq!(touched.checked_at, "t1");
    assert_eq!(touched.fetched_at, "2026-01-01T00:00:00Z");
    let fresh = touched_metadata(None, Some(b"".as_slice()), "t0", "t1");
    assert_eq!(fresh.content_type, "application/octet-stream");
    assert_eq!(fresh.content_hash, "e3b0c44298fc1c149afbf4c8996fb92427ae41e4649b934ca495991b7852b855");
    assert_eq!(fresh.fetched_at, "t0");
    assert!(check_cache_write_allowed(true).is_err());
    assert!(check_cache_write_allowed(false).is_ok());
    assert!(refresh_needs_write(None, b"a"));
    assert!(!refresh_needs_write(Some(b"ab".as_slice()), b"ab"));
    assert!(refresh_needs_write(Some(b"ab".as_slice()), b"ac"));
    let now = now_rfc3339();
    assert_eq!(now.len(), 20);
    assert!(now.ends_with('Z'));
}

#[test]
fn report_text_prefers_utf8() {
    assert_eq!(report_html_text("<p>café</p>".as_bytes()), "<p>café</p>");
    assert_eq!(report_html_text(b"<p>caf\xe9</p>"), "<p>café</p>");
    assert_eq!(decode_windows_1252(b"\x80"), "€");
}

#[test]
fn qrva_text_fields_flatten() {
    assert_eq!(flatten_qrva_text(&QrvaText::Str("  a b ".into())), "a b");
    assert_eq!(
        flatten_qrva_text(&QrvaText::Object {
            br: Some(vec![Some(" x ".into()), None, Some("  ".into()), Some("y".into())]),
            text: Some("ignored".into()),
        }),
        "x\ny"
    );
    assert_eq!(flatten_qrva_text(&QrvaText::Object { br: None, text: Some(" t ".into()) }), "t");
    assert_eq!(flatten_qrva_text(&QrvaText::Null), "");
    assert_eq!(flatten_qrva_text(&QrvaText::Other), "");
}

#[test]
fn written_question_links_and_labels() {
    let link = |w: &str, c: &str, s: &str| OralWrittenLink {
        written_question_id: w.into(),
        canonical_question_id: c.into(),
        oral_ref: String::new(),
        status: s.into(),
    };
    let merged = merged_written_ids(&vec![
        link("56_written_1", "56_plenary_3_1", "exact"),
        link("56_written_2", "56_written_2", "exact"),
        link("56_written_3", "56_plenary_3_2", "fuzzy"),
        link("56_written_1", "56_plenary_3_1", "exact"),
    ]);
    assert_eq!(merged, vec!["56_written_1".to_string()]);
    let long = "x".repeat(130);
    assert_eq!(question_node_label(&long, "fr").len(), 120);
    assert_eq!(question_node_label("", "fr"), "fr");
    assert_eq!(answer_node_label("a1", "", ""), "a1");
    assert_eq!(
        oral_reference_edge_props("Q1\"", "56_written_1"),
        "{\"oral_ref\":\"Q1\\\"\",\"written_question_id\":\"56_written_1\"}"
    );
}
