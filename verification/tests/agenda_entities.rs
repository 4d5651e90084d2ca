use std::collections::HashMap;

use crawl::agenda_io::materialize_agenda_items;
use crawl::agenda_timeline::{AgendaItem, ItemKind, MeetingKind};
use crawl::oral_questions::{extract_question_data, normalize_questioner_name};
use crawl::proceeding_entities::{
    classify_heading_kind, extract_proceedings_from_agenda, is_hearing_heading, is_interpellation_bullet_line,
    is_interpellation_heading, is_joint_interpellation_group_start, is_motion_conclusion_heading, is_question_heading,
    parse_interpellation_text,
};

#[test]
fn materialize_assigns_agenda_item_id_from_start_block() {
    let item = AgendaItem {
        agenda_id: "15".into(),
        item_kind: ItemKind::Proposition,
        start_block: 596,
        end_block: 700,
        title_nl: "Wetsontwerp (56/318)".into(),
        title_fr: String::new(),
        dossier_id: "56/318".into(),
        document_id: "1-9".into(),
        internal_ids: vec![],
        item_id: String::new(),
        source_section: "propositions de loi".into(),
        title_blocks: vec![596],
    };
    let rows = materialize_agenda_items(&[item], MeetingKind::Plenary, 56, 42, "https://example.test", "cache/x.html");
    assert_eq!(rows.len(), 1);
    assert_eq!(rows[0].agenda_item_id, "56_plenary_42_agenda_596");
    assert_eq!(rows[0].dossier_id, "56/318");
    assert_eq!(rows[0].item_kind, "proposition");
}

#[test]
fn normalize_questioner_strips_subquestion_header() {
    assert_eq!(normalize_questioner_name("-Vraag van Xavier Dubois"), Some("Xavier Dubois".to_string()));
    assert_eq!(normalize_questioner_name("-Natalie Eggermont"), Some("Natalie Eggermont".to_string()));
    assert_eq!(normalize_questioner_name("Question de François De Smet"), Some("François De Smet".to_string()));
    assert_eq!(normalize_questioner_name("03 Question de Michel De Maegd"), Some("Michel De Maegd".to_string()));
}

#[test]
fn plenary_questioner_strips_agenda_number_and_heading() {
    let text = "03 Question de Michel De Maegd à Alexander De Croo (test) over test";
    let data = extract_question_data(MeetingKind::Plenary, &HashMap::new(), text).unwrap();
    assert_eq!(data.questioners, vec!["Michel De Maegd".to_string()]);
}

#[test]
fn extract_question_data_parses_merged_subquestion_block() {
    let text = "-Vraag van Xavier Dubois aan Bernard Quintin (Veiligheid) over \"test topic\" (56001234C)";
    let data = extract_question_data(MeetingKind::Commission, &HashMap::new(), text).unwrap();
    assert_eq!(data.questioners, vec!["Xavier Dubois".to_string()]);
    assert_eq!(data.questionees, vec!["Bernard Quintin".to_string()]);
}

#[test]
fn question_about_audition_stays_question_not_hearing() {
    let lower = "06 question de pierre jadoul sur l'audition des mineurs".to_string();
    assert!(is_question_heading(&lower));
    assert!(!is_hearing_heading(&lower));
}

#[test]
fn formal_hearing_heading_detected() {
    let lower = "01 de cop29 en de europese uitdagingen. hoorzitting met:".to_string();
    assert!(is_hearing_heading(&lower));
}

#[test]
fn joint_interpellation_heading_detected() {
    assert!(is_interpellation_heading(&"01 Samengevoegde interpellaties van".to_lowercase()));
    assert!(is_joint_interpellation_group_start("01 Interpellations jointes de"));
    assert!(!is_interpellation_heading(
        &"06 Moties ingediend tot besluit van de interpellatie van mevrouw Greet Daems".to_lowercase()
    ));
}

#[test]
fn parse_interpellation_bullet_extracts_fields() {
    let text = r#"- Vincent Van Quickenborne aan Jan Jambon (VEM Financiën) over "De meerwaardetaks" (56000109I)"#;
    let parsed = parse_interpellation_text(text).unwrap();
    assert_eq!(parsed.interpellators[0], "Vincent Van Quickenborne");
    assert!(parsed.respondents[0].contains("Jan Jambon"));
    assert!(parsed.topics[0].contains("meerwaardetaks"));
    assert_eq!(parsed.internal_ids[0], "56000109I");
    assert!(is_interpellation_bullet_line(text));
}

#[test]
fn interpellation_heading_detected() {
    let text = "16 Interpellatie van Raoul Hedebouw aan Bart De Wever over \"De huisvestingstoelage\" (56000070I)";
    assert!(is_interpellation_heading(&text.to_lowercase()));
    assert!(is_motion_conclusion_heading(&"19 Motie ingediend tot besluit van de interpellatie".to_lowercase()));
}

#[test]
fn parse_interpellation_regex_extracts_fields() {
    let text = r#"16 Interpellatie van Raoul Hedebouw aan Bart De Wever (eerste minister) over "De huisvestingstoelage van de federale ministers" (56000070I)"#;
    let parsed = parse_interpellation_text(text).unwrap();
    assert_eq!(parsed.interpellators[0], "Raoul Hedebouw");
    assert!(parsed.respondents[0].contains("Bart De Wever"));
    assert!(parsed.topics[0].contains("huisvestingstoelage"));
    assert_eq!(parsed.internal_ids[0], "56000070I");
}

#[test]
fn merged_bilingual_interpellation_keeps_first_agenda_id() {
    let item = |item_id: &str, title: &str| AgendaItem {
        agenda_id: "01".to_string(),
        item_kind: ItemKind::Interpellation,
        start_block: 1,
        end_block: 2,
        title_nl: title.to_string(),
        title_fr: String::new(),
        dossier_id: String::new(),
        document_id: String::new(),
        internal_ids: vec!["56000027I".to_string()],
        item_id: item_id.to_string(),
        source_section: "interpellaties".to_string(),
        title_blocks: vec![1],
    };
    let (_, rows) = extract_proceedings_from_agenda(
        &[
            item("56_plenary_69_9", "- A aan M over \"Onderwerp\" (56000027I)"),
            item("56_plenary_69_17", "- A à M sur \"Sujet\" (56000027I)"),
        ],
        MeetingKind::Plenary,
        56,
        69,
        "url",
        "cache",
    );
    assert_eq!(rows.len(), 1);
    assert_eq!(rows[0].interpellation_id, "56_plenary_69_9");
}

#[test]
fn question_with_audition_in_title_is_not_hearing() {
    let kind = classify_heading_kind(
        MeetingKind::Commission,
        "",
        "06 Question de Pierre Jadoul sur \"L'audition des mineurs\" (56000853C)",
    );
    assert_eq!(kind, ItemKind::Question);
}
