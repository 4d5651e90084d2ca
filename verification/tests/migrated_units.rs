use crawl::agenda_timeline::{agenda_item_for_block, build_agenda_timeline, ItemKind, MeetingKind};
use crawl::artifact_id::BLOCK_PARSER_VERSION;
use crawl::report_blocks::{BlockTag, ReportBlock};
use crawl::source_spans::{validate_source_spans, SourceSpanDraft};
use crawl::speaker_parse::collect_base_turns_by_agenda;
use crawl::utterance_segment::segment_utterances;
use crawl::vote_assembly::discard_untitled_decisions;
use crawl::vote_types::{SpanEvidence, VoteAssemblyOutput, VoteDecisionDraft};
use crawl::vote_patterns::is_reuse_question;

fn draft(id: &str, start: u32, end: u32) -> SourceSpanDraft {
    SourceSpanDraft {
        span_id: id.to_string(),
        artifact_id: "artifact".to_string(),
        source_content_hash: "content".to_string(),
        session_id: 56,
        meeting_id: 1,
        entity_type: "Question".to_string(),
        entity_id: id.to_string(),
        span_role: "entity_title".to_string(),
        block_start: start,
        block_end: end,
        coverage_kind: "extraction".to_string(),
        field_names: "title_nl".to_string(),
        confidence_milli: 1000,
        extractor: "test".to_string(),
        block_parser_version: BLOCK_PARSER_VERSION.to_string(),
        extractor_version: "test_v1".to_string(),
        source_url: "url".to_string(),
        cache_path: "cache".to_string(),
        validation_status: String::new(),
        unresolved_reason: String::new(),
    }
}

#[test]
fn validates_half_open_bounds_and_preserves_overlaps() {
    let rows = vec![draft("left", 1, 3), draft("overlap", 2, 4), draft("empty", 3, 3), draft("past-end", 4, 6)];
    let output = validate_source_spans(rows, "artifact", "content", BLOCK_PARSER_VERSION, 5);
    assert_eq!(output.rows.len(), 4);
    assert_eq!(output.unresolved.len(), 2);
    assert_eq!(output.rows[0].validation_status, "valid");
    assert_eq!(output.rows[1].validation_status, "valid");
    assert_eq!(output.rows[2].unresolved_reason, "invalid_half_open_range");
    assert_eq!(output.rows[3].unresolved_reason, "out_of_bounds");
}

#[test]
fn reports_wrong_artifact_and_stale_metadata() {
    let mut wrong_artifact = draft("wrong-artifact", 0, 1);
    wrong_artifact.artifact_id = "other".to_string();
    let mut stale_content = draft("stale-content", 0, 1);
    stale_content.source_content_hash = "old".to_string();
    let mut stale_parser = draft("stale-parser", 0, 1);
    stale_parser.block_parser_version = "report_blocks_old".to_string();
    let output = validate_source_spans(
        vec![wrong_artifact, stale_content, stale_parser],
        "artifact",
        "content",
        BLOCK_PARSER_VERSION,
        1,
    );
    let reasons: Vec<_> = output.unresolved.iter().map(|row| row.unresolved_reason.as_str()).collect();
    assert_eq!(reasons, vec!["wrong_artifact", "stale_source_content", "stale_block_parser"]);
}

fn paragraph(index: u32, text: &str) -> ReportBlock {
    ReportBlock {
        index,
        tag: BlockTag::P,
        text: text.into(),
        inlines: Vec::new(),
        table_rows: None,
        lang: None,
        class: None,
        has_oraspr: false,
        content_hash: String::new(),
        word_count: 5,
    }
}

#[test]
fn collect_base_turns_groups_interventions() {
    let blocks = vec![
        paragraph(0, "02.15 Stefaan Van Hecke (Groen): speech"),
        paragraph(1, "02.150 Steven Coenegrachts (Open Vld): reply"),
        paragraph(2, "02.17 Annick Ponthier (VB): next"),
    ];
    let turns = collect_base_turns_by_agenda(&blocks);
    let agenda_02 = &turns.iter().find(|(agenda, _)| agenda == "02").expect("agenda 02 turns").1;
    assert!(agenda_02.contains(&15));
    assert!(agenda_02.contains(&17));
    assert_eq!(agenda_02.len(), 2);
}

#[test]
fn detects_reuse_phrase() {
    assert!(is_reuse_question("Mag de uitslag van de vorige stemming ook gelden voor deze stemming?"));
}

fn block(index: u32, tag: BlockTag, text: &str) -> ReportBlock {
    ReportBlock {
        index,
        tag,
        text: text.to_string(),
        inlines: Vec::new(),
        table_rows: None,
        lang: None,
        class: None,
        has_oraspr: false,
        content_hash: String::new(),
        word_count: 0,
    }
}

#[test]
fn plenary_joint_interpellation_bullets_become_agenda_items() {
    let blocks = vec![
        block(0, BlockTag::H1, "Interpellaties"),
        block(1, BlockTag::H2, "01 Samengevoegde interpellaties van"),
        block(2, BlockTag::H2, r#"- Vincent Van Quickenborne aan Jan Jambon over "De meerwaardetaks" (56000109I)"#),
        block(3, BlockTag::H2, "01 Interpellations jointes de"),
        block(4, BlockTag::H2, r#"- Vincent Van Quickenborne à Jan Jambon sur "La taxe sur les plus-values" (56000109I)"#),
        block(5, BlockTag::P, "01.01 Vincent Van Quickenborne: speech"),
    ];
    let items = build_agenda_timeline(&blocks, MeetingKind::Plenary, 56, 60);
    let interpellations: Vec<_> = items.iter().filter(|i| matches!(i.item_kind, ItemKind::Interpellation)).collect();
    assert_eq!(interpellations.len(), 1);
    assert_eq!(interpellations[0].agenda_id, "01");
    assert!(interpellations[0].title_nl.contains("Van Quickenborne"));
    assert!(interpellations[0].title_fr.contains("Van Quickenborne"));
    assert!(interpellations[0].internal_ids.iter().any(|id| id == "56000109I"));
    assert_eq!(interpellations[0].end_block, blocks.len() as u32);
}

#[test]
fn bilingual_h2_pair_does_not_extend_item_past_next_heading() {
    let blocks = vec![
        block(0, BlockTag::H1, "Mondelinge vragen"),
        block(1, BlockTag::H2, "01 Vraag van Jan Jansen"),
        block(2, BlockTag::H2, "01 Question de Jan Jansen"),
        block(3, BlockTag::P, "Antwoord content item 1"),
        block(4, BlockTag::H2, "02 Vraag van Piet Pieters"),
        block(5, BlockTag::H2, "02 Question de Piet Pieters"),
        block(6, BlockTag::P, "Antwoord content item 2"),
    ];
    let items = build_agenda_timeline(&blocks, MeetingKind::Plenary, 56, 1);
    assert_eq!(items.len(), 2);
    assert_eq!(items[0].start_block, 1);
    assert_eq!(items[0].end_block, 4, "item 1 must end before item 2 heading");
    assert_eq!(items[1].start_block, 4);
    assert_eq!(items[1].end_block, blocks.len() as u32);
    assert!(agenda_item_for_block(&items, 3).is_some_and(|i| i.agenda_id == "01"));
    assert!(
        agenda_item_for_block(&items, 6).is_some_and(|i| i.agenda_id == "02"),
        "paragraph after item 2 headings must belong to item 2, not item 1"
    );
    assert!(
        !agenda_item_for_block(&items, 6).is_some_and(|i| i.agenda_id == "01"),
        "item 1 range must not swallow item 2 content"
    );
}

#[test]
fn bilingual_fr_without_agenda_number_does_not_swallow_next_item() {
    let blocks = vec![
        block(0, BlockTag::H1, "Mondelinge vragen"),
        block(1, BlockTag::H2, "01 Samengevoegde vragen van"),
        block(2, BlockTag::H2, "- Jan Jansen aan minister (56000001P)"),
        block(3, BlockTag::H2, "Questions jointes de"),
        block(4, BlockTag::P, "01.01 Speaker: text"),
        block(5, BlockTag::H2, "02 Vraag van Piet Pieters"),
        block(6, BlockTag::P, "02.01 Speaker: text"),
    ];
    let items = build_agenda_timeline(&blocks, MeetingKind::Plenary, 56, 1);
    assert_eq!(items.len(), 2, "expected two agenda items");
    assert_eq!(items[0].end_block, 5);
    assert!(agenda_item_for_block(&items, 4).is_some_and(|i| i.agenda_id == "01"));
    assert!(agenda_item_for_block(&items, 6).is_some_and(|i| i.agenda_id == "02"));
}

#[test]
fn flatten_br_array() {
    let v = crawl::qrva_text::QrvaText::Object {
        br: Some(vec![Some(" line one ".to_string()), Some("line two".to_string())]),
        text: None,
    };
    assert_eq!(crawl::qrva_text::flatten_qrva_text(&v), "line one\nline two");
}

#[test]
fn procedural_heading_is_never_inside_an_utterance() {
    let blocks = vec![
        block(0, BlockTag::P, "01.01 Annick Ponthier (VB): Mijnheer de voorzitter,"),
        block(1, BlockTag::P, "ik heb een vraag."),
        block(2, BlockTag::H2, "Onderzoek van de geloofsbrieven"),
        block(3, BlockTag::P, "De eed wordt afgelegd."),
        block(4, BlockTag::P, "02.01 Greet Daems (PVDA-PTB): Dank u."),
        block(5, BlockTag::P, "Het incident is gesloten."),
        block(6, BlockTag::P, "Nog een zin."),
    ];
    let out = segment_utterances(&blocks, &[], MeetingKind::Plenary, 56, 7, "https://example.test", "r.html");
    assert_eq!(out.len(), 2);
    assert_eq!((out[0].block_start, out[0].block_end), (0, 1));
    assert_eq!(out[0].text, "Mijnheer de voorzitter, ik heb een vraag.");
    assert_eq!((out[1].block_start, out[1].block_end), (4, 4));
    assert_eq!(out[1].text, "Dank u.");
    for u in &out {
        assert!(!u.text.contains("geloofsbrieven"));
        assert!(!u.text.contains("eed wordt"));
        assert!(!u.text.contains("Nog een zin"));
    }
}

fn decision(vote_id: &str, result_id: &str, seq: u32, title_nl: &str, number: &str) -> VoteDecisionDraft {
    VoteDecisionDraft {
        vote_id: vote_id.to_string(),
        result_id: result_id.to_string(),
        session_id: 56,
        meeting_id: 60,
        date: "2020-01-01".to_string(),
        seq,
        title_nl: title_nl.to_string(),
        title_fr: String::new(),
        method: "roll_call".to_string(),
        status: "complete".to_string(),
        outcome: "adopted".to_string(),
        dossier_id: String::new(),
        document_id: String::new(),
        motion_id: String::new(),
        source_roll_call_number: number.to_string(),
        reuses_result: false,
        source_url: "url".to_string(),
        cache_path: "cache".to_string(),
    }
}

fn evidence(entity_type: &str, entity_id: &str, role: &str, start: u32, end: u32, fields: &str) -> SpanEvidence {
    SpanEvidence {
        entity_type: entity_type.to_string(),
        entity_id: entity_id.to_string(),
        span_role: role.to_string(),
        block_start: start,
        block_end: end,
        coverage_kind: "extraction".to_string(),
        field_names: fields.to_string(),
    }
}

#[test]
fn untitled_decisions_are_removed_without_removing_result_evidence() {
    let mut out = VoteAssemblyOutput::default();
    out.decisions = vec![
        decision("56-60-v1", "56-60-r1", 1, "", "1"),
        decision("56-60-v2", "56-60-r2", 2, "A titled decision", "2"),
    ];
    out.span_evidence = vec![
        evidence("Vote", "56-60-v1", "decision_title", 1, 2, "title_nl"),
        evidence("Vote", "56-60-v2", "decision_title", 3, 4, "title_nl"),
        evidence("VoteResult", "56-60-r1", "result_table", 1, 2, "yes,no"),
    ];

    discard_untitled_decisions(&mut out, 56, 60);

    assert_eq!(out.decisions.len(), 1);
    assert_eq!(out.decisions[0].vote_id, "56-60-v1");
    assert_eq!(out.decisions[0].seq, 1);
    assert!(out.span_evidence.iter().all(|span| { span.entity_type != "Vote" || span.entity_id == "56-60-v1" }));
    assert!(out
        .span_evidence
        .iter()
        .any(|span| { span.entity_type == "VoteResult" && span.entity_id == "56-60-r1" }));
}

#[test]
fn decision_span_follows_the_last_decision_with_its_old_id() {
    let mut out = VoteAssemblyOutput::default();
    out.decisions = vec![
        decision("x", "r", 1, "First", "1"),
        decision("x", "r", 2, "Second", "2"),
    ];
    out.span_evidence = vec![evidence("Vote", "x", "decision_title", 5, 6, "title_nl")];
    discard_untitled_decisions(&mut out, 56, 60);
    assert_eq!(out.decisions.len(), 2);
    assert_eq!(out.decisions[1].vote_id, "56-60-v2");
    assert_eq!(out.span_evidence.len(), 1);
    assert_eq!(out.span_evidence[0].entity_id, "56-60-v2");
}
