use std::collections::BTreeSet;

use crawl::source_manifest::{validate_manifest_rows, SourceManifestRow, MANIFEST_STATUS_PARSED};
use crawl::speaker_parse::{base_turn_parts, detect_turn_start, parse_speaker_label, TurnStart};
use crawl::vote_inventory::{numeric_sequence_gaps_from_one, vote_number_gaps};
use crawl::vote_patterns::{
    looks_like_voter_names, parse_electronic_count_number, parse_participation, parse_reuse_marker_number,
    votes_section_heading, VoteSectionKind,
};

#[test]
fn rejects_unknown_status() {
    let rows = vec![SourceManifestRow {
        source: "commission_meetings".into(),
        session_id: "56".into(),
        item_kind: "meeting".into(),
        native_item_id: "1".into(),
        source_url: String::new(),
        cache_path: String::new(),
        status: "parse_failed".into(),
        row_count: 0,
        content_type: String::new(),
        content_hash: String::new(),
        fetched_at: String::new(),
        checked_at: String::new(),
        run_mode: "live".into(),
        detail: String::new(),
    }];
    assert!(validate_manifest_rows(&rows).is_err());
}

#[test]
fn rejects_duplicate_keys() {
    let row = SourceManifestRow {
        source: "plenary_meetings".into(),
        session_id: "56".into(),
        item_kind: "meeting".into(),
        native_item_id: "1".into(),
        source_url: String::new(),
        cache_path: String::new(),
        status: MANIFEST_STATUS_PARSED.into(),
        row_count: 1,
        content_type: String::new(),
        content_hash: String::new(),
        fetched_at: String::new(),
        checked_at: String::new(),
        run_mode: "cache_only".into(),
        detail: String::new(),
    };
    assert!(validate_manifest_rows(&[row.clone(), row]).is_err());
}

#[test]
fn detects_nbsp_turn() {
    let p = "01.01\u{00a0}Annick Ponthier (VB): Mijnheer de voorzitter";
    let (start, _) = detect_turn_start(p).unwrap();
    assert!(matches!(start, TurnStart::Numbered { .. }));
}

#[test]
fn detects_empty_colon_turn() {
    let p = "02.44\u{00a0}Greet Daems (PVDA-PTB):";
    assert!(detect_turn_start(p).is_some());
}

#[test]
fn detects_named_chair() {
    let p = "Denis Ducarme, voorzitter: Collega's";
    let (start, _) = detect_turn_start(p).unwrap();
    assert!(matches!(start, TurnStart::NamedChair { .. }));
}

#[test]
fn intervention_turn_captures_full_marker() {
    let p = "02.150 Steven Coenegrachts (Open Vld): Mijnheer de voorzitter";
    let (start, _) = detect_turn_start(p).unwrap();
    match start {
        TurnStart::Numbered { turn_number, raw_label } => {
            assert_eq!(turn_number, "02.150");
            let parsed = parse_speaker_label(&raw_label, "general_debate");
            assert_eq!(parsed.raw_speaker, "Steven Coenegrachts");
        }
        _ => panic!("expected numbered turn"),
    }
}

#[test]
fn main_turn_without_intervention_digit() {
    let p = "02.15 Stefaan Van Hecke (Groen): Mijnheer de voorzitter";
    let (start, _) = detect_turn_start(p).unwrap();
    match start {
        TurnStart::Numbered { turn_number, raw_label } => {
            assert_eq!(turn_number, "02.15");
            let parsed = parse_speaker_label(&raw_label, "general_debate");
            assert_eq!(parsed.raw_speaker, "Stefaan Van Hecke");
        }
        _ => panic!("expected numbered turn"),
    }
}

#[test]
fn intervention_turn_02_110_not_digit_speaker() {
    let p = "02.110 Steven Vandeput (N-VA): Mijnheer de voorzitter";
    let (start, _) = detect_turn_start(p).unwrap();
    match start {
        TurnStart::Numbered { turn_number, raw_label } => {
            assert_eq!(turn_number, "02.110");
            let parsed = parse_speaker_label(&raw_label, "general_debate");
            assert!(!parsed.raw_speaker.starts_with('0'));
            assert_eq!(parsed.raw_speaker, "Steven Vandeput");
        }
        _ => panic!("expected numbered turn"),
    }
}

#[test]
fn base_turn_parts_strips_intervention_digit() {
    assert_eq!(base_turn_parts("02.150"), Some(("02".to_string(), 15)));
    assert_eq!(base_turn_parts("02.15"), Some(("02".to_string(), 15)));
    assert_eq!(base_turn_parts("02.110"), Some(("02".to_string(), 11)));
}

#[test]
fn numeric_sequence_gaps_from_one_flags_missing_low_numbers() {
    let numbers = BTreeSet::from([1, 2, 4, 10]);
    assert_eq!(numeric_sequence_gaps_from_one(&numbers), vec![3, 5, 6, 7, 8, 9]);
}

#[test]
fn vote_number_gaps_uses_parsed_values() {
    let numbers = BTreeSet::from(["01".into(), "03".into(), "04".into()]);
    assert_eq!(vote_number_gaps(&numbers), vec!["2"]);
}

#[test]
fn parses_participation_count() {
    let (participated, required) = parse_participation("65/71 leden hebben deelgenomen aan de stemming.").unwrap();
    assert_eq!(participated, 65);
    assert_eq!(required, Some(71));
}

#[test]
fn parses_reuse_marker_variants() {
    assert_eq!(parse_reuse_marker_number("(Stemming/vote 1)").as_deref(), Some("1"));
    assert_eq!(parse_reuse_marker_number("(Vote/stemming 61)").as_deref(), Some("61"));
    assert_eq!(parse_reuse_marker_number("(Stemming/vote1\n)").as_deref(), Some("1"));
}

#[test]
fn votes_section_heading_matches_bilingual_secret_continuation() {
    assert_eq!(votes_section_heading("Scrutins secrets (continuation)"), VoteSectionKind::SecretBallot);
    assert_eq!(
        votes_section_heading("Ziehier de uitslag van de geheime stemming over de naturalisatieaanvragen."),
        VoteSectionKind::SecretBallot
    );
}

#[test]
fn parses_electronic_count_headers() {
    assert_eq!(
        parse_electronic_count_number("Comptage électronique – Elektronische telling: 2").as_deref(),
        Some("2")
    );
    assert_eq!(
        parse_electronic_count_number("Elektronische telling – Comptage électronique: 1").as_deref(),
        Some("1")
    );
    assert_eq!(
        parse_electronic_count_number("Elektronische telling- Comptage électronique: 1").as_deref(),
        Some("1")
    );
    assert_eq!(
        parse_electronic_count_number("Comptage électronique – Elektronische\ntelling: 2").as_deref(),
        Some("2")
    );
    assert!(!looks_like_voter_names("Comptage électronique – Elektronische telling: 2"));
}
