use crawl::agenda_timeline::MeetingKind;
use crawl::commissions::{normalize_role_label, CommissionRole};
use crawl::corpus_policy::{classify_meeting, is_procedural_credentials_heading, whole_report_constitutive_from_blocks, CorpusClass};
use crawl::question_boundaries::{classify_question_heading_text, QuestionHeadingRole};
use crawl::report_blocks::{BlockTag, ReportBlock};
use crawl::written_oral_qa::{is_written_oral_section_heading, split_question_answer};

fn heading(tag: BlockTag, text: &str) -> ReportBlock {
    ReportBlock {
        index: 0,
        tag,
        text: text.to_string(),
        inlines: Vec::new(),
        table_rows: None,
        lang: None,
        class: None,
        has_oraspr: false,
        content_hash: String::new(),
        word_count: 0,
    }
}

#[test]
fn catalog_constitutive_meetings_suppress_coverage() {
    for id in [1, 2, 3] {
        let c = classify_meeting(56, MeetingKind::Plenary, id).unwrap();
        assert_eq!(c.class, CorpusClass::Constitutive);
        assert!(c.class.suppresses_coverage_warning());
    }
    let four = classify_meeting(56, MeetingKind::Plenary, 4).unwrap();
    assert_eq!(four.class, CorpusClass::ConstitutiveAdministrative);
    assert!(four.class.suppresses_coverage_warning());
}

#[test]
fn mixed_meeting_24_still_evaluated_for_coverage() {
    let c = classify_meeting(56, MeetingKind::Plenary, 24).unwrap();
    assert_eq!(c.class, CorpusClass::Mixed);
    assert!(!c.class.suppresses_coverage_warning());
}

#[test]
fn meeting_2_credentials_heading_in_blocks() {
    assert!(is_procedural_credentials_heading("Onderzoek van de geloofsbrieven en eedafleggingen"));
    assert!(is_procedural_credentials_heading("01 Vérification des pouvoirs et prestations de serment"));
}

#[test]
fn meeting_22_political_serment_not_credentials_heading() {
    assert!(!is_procedural_credentials_heading(
        "l'idée de gâcher ce moment important de prestation de serment pour nos futurs collègues"
    ));
}

#[test]
fn mixed_fixture_with_oath_heading_still_has_political_agenda() {
    let blocks = vec![
        heading(BlockTag::H2, "Onderzoek van de geloofsbrieven en eedafleggingen"),
        heading(BlockTag::H2, "03 Vraag van Marieke O'Hara (cd&v) over migratie"),
    ];
    assert!(!whole_report_constitutive_from_blocks(&blocks));
}

#[test]
fn whole_report_constitutive_fixture_without_political_headings() {
    let blocks = vec![
        heading(BlockTag::H2, "Onderzoek van de geloofsbrieven en eedafleggingen"),
        heading(BlockTag::H2, "Goedkeuring van de agenda"),
    ];
    assert!(whole_report_constitutive_from_blocks(&blocks));
}

#[test]
fn vote_dominated_meeting_79_cataloged() {
    let c = classify_meeting(56, MeetingKind::Plenary, 79).unwrap();
    assert_eq!(c.class, CorpusClass::VoteDominated);
    assert!(!c.class.suppresses_coverage_warning());
}

#[test]
fn normalize_voorzitter_and_ondervoorzitter_independently() {
    assert_eq!(normalize_role_label("Voorzitter(s):"), Some(CommissionRole::Chair));
    assert_eq!(normalize_role_label("Ondervoorzitters:"), Some(CommissionRole::Subchair));
    assert_eq!(normalize_role_label("Vaste Leden:"), Some(CommissionRole::Permanent));
    assert_eq!(normalize_role_label("Plaatsvervangers:"), Some(CommissionRole::Replacement));
    assert_eq!(normalize_role_label("Les Engagés:"), None);
}

#[test]
fn classifies_group_sub_and_single() {
    assert_eq!(classify_question_heading_text("01 Samengevoegde vragen van"), QuestionHeadingRole::GroupStart);
    assert_eq!(classify_question_heading_text("- Jan Jansen aan minister"), QuestionHeadingRole::SubQuestion);
    assert_eq!(classify_question_heading_text("02 Vraag van Piet Pieters"), QuestionHeadingRole::Single);
    assert_eq!(classify_question_heading_text("01 Questions jointes de"), QuestionHeadingRole::FrGroupHeader);
}

#[test]
fn subquestion_about_hearing_followup_stays_subquestion() {
    assert_eq!(
        classify_question_heading_text(
            "- Michael Freilich aan minister over \"De opvolging van de hoorzitting met Proximus\" (56001293C)"
        ),
        QuestionHeadingRole::SubQuestion
    );
}

#[test]
fn eulogy_in_questions_section_is_unrelated() {
    assert_eq!(
        classify_question_heading_text("01 Rouwhulde – de heer Geert Versnick"),
        QuestionHeadingRole::Unrelated
    );
}

#[test]
fn detects_written_section_heading() {
    assert!(is_written_oral_section_heading("Questions orales traitées par écrit"));
    assert!(is_written_oral_section_heading("Schriftelijk behandelde mondelinge vragen"));
    assert!(!is_written_oral_section_heading("Mondelinge vragen"));
}

#[test]
fn splits_on_answer_delimiter() {
    let paras = vec![
        ("Monsieur le Ministre,".to_string(), "fr".to_string()),
        ("1) Pouvez-vous…".to_string(), "fr".to_string()),
        ("Antwoord - Réponse:".to_string(), "nl".to_string()),
        ("Question 1".to_string(), "fr".to_string()),
        ("En tant que ministre…".to_string(), "fr".to_string()),
    ];
    let (q_nl, q_fr, a_nl, a_fr) = split_question_answer(&paras);
    assert!(q_fr.contains("Monsieur"));
    assert!(a_fr.contains("ministre"));
    assert!(q_nl.is_empty());
    assert!(a_nl.is_empty());
}
