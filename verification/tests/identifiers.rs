use std::collections::HashMap;

use crawl::artifact_id::artifact_id;
use crawl::cache_meta::looks_like_pdf;
use crawl::freshness::{days_between_rfc3339, freshness_policy};
use crawl::provenance::{new_registry, register_artifact_with_hash, registry_size};
use crawl::qrva_text::{actr_id_to_person_id, parse_aut_actr_id, parse_oral_refs, qrva_answer_id, route_id, written_question_id};
use crawl::utils::{agenda_item_id, composite_scoped_id, ensure_question_id, is_flwb_document_id, normalize_site_ref};

#[test]
fn composite_scoped_id_includes_kind() {
    assert_eq!(composite_scoped_id(56, "plenary", 10, 0), "56_plenary_10_0");
    assert_eq!(composite_scoped_id(56, "commission", 10, 2), "56_commission_10_2");
}

#[test]
fn agenda_item_id_uses_start_block() {
    assert_eq!(agenda_item_id(56, "plenary", 42, 596), "56_plenary_42_agenda_596");
    assert_eq!(agenda_item_id(56, "commission", 15, 1), "56_commission_15_agenda_1");
}

#[test]
fn ensure_question_id_upgrades_legacy() {
    assert_eq!(ensure_question_id("56", "plenary", "56_10_0"), "56_plenary_10_0");
    assert_eq!(ensure_question_id("56", "commission", "56_10_0"), "56_commission_10_0");
}

#[test]
fn ensure_question_id_is_idempotent() {
    assert_eq!(ensure_question_id("56", "plenary", "56_plenary_10_0"), "56_plenary_10_0");
}

#[test]
fn is_flwb_document_id_rejects_dossier_subnumbers() {
    assert!(!is_flwb_document_id("1"));
    assert!(!is_flwb_document_id("10"));
    assert!(is_flwb_document_id("56K1280004"));
}

#[test]
fn normalize_site_ref_strips_q_prefix() {
    assert_eq!(normalize_site_ref("Q56001216P"), "56001216P");
    assert_eq!(normalize_site_ref("56000109I"), "56000109I");
}

#[test]
fn artifact_id_is_stable() {
    let a = artifact_id("https://example.com/a", "cache/x.html");
    let b = artifact_id("https://example.com/a", "cache/x.html");
    assert_eq!(a, b);
    assert_ne!(a, artifact_id("https://example.com/b", "cache/x.html"));
}

#[test]
fn artifact_id_matches_crawl() {
    let url = "https://example.com";
    let path = "sessions/56/meetings/plenary/56-60.html";
    assert_eq!(crawl::provenance::artifact_id(url, path), artifact_id(url, path));
}

#[test]
fn register_records_transform_hash() {
    let mut reg = HashMap::new();
    let id = register_artifact_with_hash(&mut reg, "https://x", "a.html", Some("abc"));
    assert_eq!(reg[&id].transform_content_hash.as_deref(), Some("abc"));
}

#[test]
fn fresh_registry_keeps_first_hash() {
    let mut reg = new_registry();
    assert_eq!(registry_size(&reg), 0);
    let id1 = register_artifact_with_hash(&mut reg, "https://x", "a.html", Some("abc"));
    let id2 = register_artifact_with_hash(&mut reg, "https://x", "a.html", Some("xyz"));
    assert_eq!(id1, id2);
    assert_eq!(id1, crawl::provenance::artifact_id("https://x", "a.html"));
    assert_eq!(registry_size(&reg), 1);
    assert_eq!(reg[&id1].transform_content_hash.as_deref(), Some("abc"));
    assert_eq!(reg[&id1].source_url, "https://x");
    assert_eq!(reg[&id1].cache_path, "a.html");
}

#[test]
fn merged_ids_skip_exact_oral_matches() {
    let merged = std::collections::HashSet::from(["56_written_1".to_string()]);
    assert!(merged.contains("56_written_1"));
}

#[test]
fn pdf_magic_detection() {
    assert!(looks_like_pdf(b"%PDF-1.4\n"));
    assert!(!looks_like_pdf(b"<html>"));
}

#[test]
fn policy_lookup() {
    assert_eq!(freshness_policy("lobby").unwrap().max_age_days, 30);
    assert!(freshness_policy("unknown").is_none());
}

#[test]
fn day_delta() {
    assert_eq!(days_between_rfc3339("2026-07-01T00:00:00Z", "2026-07-08T12:00:00Z"), Some(7));
}

#[test]
fn parse_actr_from_aut() {
    assert_eq!(parse_aut_actr_id("Tine\n      Gielis,\n      cd&v (07772)"), Some("7772".to_string()));
}

#[test]
fn actr_maps_to_cvview_key() {
    assert_eq!(actr_id_to_person_id("7772"), "O7772");
    assert_eq!(actr_id_to_person_id("07772"), "O7772");
}

#[test]
fn oral_refs_from_title() {
    let refs = parse_oral_refs("Federale subsidies (MV 009725C).");
    assert_eq!(refs, vec!["Q009725C".to_string()]);
}

#[test]
fn written_ids_are_stable() {
    assert_eq!(written_question_id(56, "2025202606531"), "56_written_2025202606531");
    assert_eq!(route_id(56, 316583), "56_qrva_316583");
    assert_eq!(qrva_answer_id("56_qrva_316583", 1), "56_qrva_316583_a1");
}
