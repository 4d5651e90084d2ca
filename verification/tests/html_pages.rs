use crawl::commissions::{extract_members, CommissionRole, IndexElement};
use crawl::report_html::{
    index_elements_from_html, meeting_page_from_html, report_elements, role_paragraphs_from_html,
    vote_inventory_of_report,
};

#[test]
fn report_elements_reads_blocks_in_document_order() {
    let html = "<html><body><h1>Titel</h1><p lang=\"nl\"><span class=\"x oraspr\">De voorzitter</span> spreekt</p>\
                <table><tr><td colspan=\"2\">A</td><td>B</td></tr></table><h2>Sub</h2></body></html>";
    let elements = report_elements(html);
    assert_eq!(elements.len(), 4);
    assert_eq!(elements[0].name, "h1");
    assert_eq!(elements[0].texts, vec!["Titel".to_string()]);
    assert!(!elements[0].has_oraspr);
    assert_eq!(elements[1].name, "p");
    assert_eq!(elements[1].lang.as_deref(), Some("nl"));
    assert!(elements[1].has_oraspr);
    assert!(!elements[1].inside_table);
    assert_eq!(elements[1].spans.len(), 1);
    assert_eq!(elements[1].spans[0].texts, vec!["De voorzitter".to_string()]);
    assert_eq!(elements[2].name, "table");
    assert_eq!(elements[2].rows.len(), 1);
    assert_eq!(elements[2].rows[0].len(), 2);
    assert_eq!(elements[2].rows[0][0].colspan.as_deref(), Some("2"));
    assert_eq!(elements[2].rows[0][1].texts, vec!["B".to_string()]);
    assert_eq!(elements[3].name, "h2");
}

#[test]
fn report_elements_marks_paragraphs_inside_tables() {
    let html = "<table><tr><td><p>In cel</p></td></tr></table><p>Buiten</p>";
    let elements = report_elements(html);
    assert_eq!(elements.len(), 3);
    assert_eq!(elements[0].name, "table");
    assert!(elements[1].inside_table);
    assert!(!elements[2].inside_table);
}

#[test]
fn vote_inventory_of_report_lists_numbers_ascending() {
    let html = "<h1>Naamstemmingen - Votes nominatifs</h1>\
                <table><tr><td>(Stemming/vote 2)</td></tr><tr><td>Ja</td><td>12</td></tr></table>\
                <table><tr><td>(Stemming/vote 10)</td></tr><tr><td>Ja</td><td>3</td></tr></table>\
                <table><tr><td>(Stemming/vote 1)</td></tr><tr><td>Ja</td><td>10</td></tr></table>";
    let inv = vote_inventory_of_report(html, "56_60").expect("inventory");
    assert_eq!(inv.meeting_id, "56_60");
    assert_eq!(inv.compact_vote_numbers, vec!["1".to_string(), "10".to_string(), "2".to_string()]);
    assert_eq!(inv.formal_events.len(), 3);
    assert_eq!(inv.formal_events[0].source_number, "2");
    assert_eq!(inv.formal_events[0].occurrence, 1);
    assert_eq!(inv.formal_events[0].method, "roll_call");
    assert!(inv.paragraph_vote_numbers.is_empty());
}

#[test]
fn vote_inventory_of_report_ignores_tables_outside_vote_sections() {
    let html = "<h1>Wetsontwerpen</h1><table><tr><td>(Stemming/vote 4)</td></tr></table>";
    let inv = vote_inventory_of_report(html, "56_61").expect("inventory");
    assert!(inv.compact_vote_numbers.is_empty());
    assert!(inv.formal_events.is_empty());
}

#[test]
fn meeting_page_from_html_reads_span_texts() {
    let html = "<table><tr><td><span>Maandag</span><span>10 uur</span></td></tr></table><p>Commissie</p><span>Los</span>";
    let page = meeting_page_from_html(html);
    let first = page.first_table_spans.expect("first table");
    assert_eq!(first, vec![vec!["Maandag".to_string()], vec!["10 uur".to_string()]]);
    assert_eq!(page.spans.len(), 3);
    assert_eq!(page.spans_and_paragraphs.len(), 4);
}

#[test]
fn meeting_page_from_html_without_table() {
    let page = meeting_page_from_html("<p>Geen tabel</p>");
    assert!(page.first_table_spans.is_none());
    assert!(page.spans.is_empty());
    assert_eq!(page.spans_and_paragraphs, vec![vec!["Geen tabel".to_string()]]);
}

#[test]
fn index_elements_from_html_reads_headings_and_links() {
    let html = "<h4>Vaste commissies</h4><div class=\"linklist_0\"><a href=\"/c1\">Commissie <b>Financien</b></a></div><a href=\"/x\">Los</a>";
    let elements = index_elements_from_html(html);
    assert_eq!(elements.len(), 2);
    match &elements[0] {
        IndexElement::Heading { text } => assert_eq!(text, "Vaste commissies"),
        _ => panic!("heading expected"),
    }
    match &elements[1] {
        IndexElement::Link { href, text } => {
            assert_eq!(href.as_deref(), Some("/c1"));
            assert_eq!(text, "Commissie Financien");
        },
        _ => panic!("link expected"),
    }
}

#[test]
fn role_paragraphs_from_html_reads_bold_and_links() {
    let html = "<p><b>Voorzitter</b> : <a>Jan Peeters</a></p><p>Leden: <a>A</a>, <a>B</a></p>";
    let ps = role_paragraphs_from_html(html);
    assert_eq!(ps.len(), 2);
    assert_eq!(ps[0].first_bold.as_deref(), Some("Voorzitter"));
    assert_eq!(ps[0].links, vec!["Jan Peeters".to_string()]);
    assert!(ps[1].first_bold.is_none());
    assert_eq!(ps[1].links, vec!["A".to_string(), "B".to_string()]);
}

fn report_blocks_of(html: &str) -> Vec<crawl::report_blocks::ReportBlock> {
    crawl::report_blocks::parse_report_blocks(&report_elements(html))
}

#[test]
fn roll_call_after_vote_title_makes_one_titled_decision() {
    let html = "<h1>Naamstemmingen</h1>\
                <table><tr><td>(Stemming/vote 1)</td></tr><tr><td>Ja</td><td>10</td></tr><tr><td>Nee</td><td>5</td></tr></table>\
                <p>Stemming over het geheel van het wetsontwerp (56/318)</p>\
                <table><tr><td>(Stemming/vote 2)</td></tr><tr><td>Ja</td><td>12</td></tr><tr><td>Nee</td><td>3</td></tr></table>\
                <p>Het wetsontwerp is aangenomen.</p>";
    let blocks = report_blocks_of(html);
    assert_eq!(blocks.len(), 5);
    let out = crawl::vote_assembly::assemble_votes_from_blocks(&blocks, 56, 60, "2024-01-01", "url", "cache");
    assert_eq!(out.decisions.len(), 1);
    let d = &out.decisions[0];
    assert_eq!(d.vote_id, "56-60-v1");
    assert_eq!(d.seq, 1);
    assert_eq!(d.result_id, "56-60-r2");
    assert_eq!(d.dossier_id, "56");
    assert_eq!(d.document_id, "318");
    assert_eq!(d.outcome, "adopted");
    assert_eq!(d.source_roll_call_number, "2");
    assert_eq!(out.results.len(), 2);
    assert_eq!(out.results[0].result_id, "56-60-r1");
    assert_eq!(out.tallies.len(), 4);
    assert_eq!(out.span_evidence.len(), 8);
    let vote_spans: Vec<_> = out.span_evidence.iter().filter(|s| s.entity_type == "Vote").collect();
    assert_eq!(vote_spans.len(), 1);
    assert_eq!(vote_spans[0].entity_id, "56-60-v1");
    assert_eq!(vote_spans[0].span_role, "decision_title");
    assert_eq!(vote_spans[0].block_start, 2);
    assert_eq!(vote_spans[0].block_end, 3);
}

#[test]
fn vote_shaped_table_without_markers_makes_no_votes() {
    let html = "<h1>Wetsontwerpen</h1>\
                <p>De spreker citeert een tabel.</p>\
                <table><tr><td>(Stemming/vote 1)</td></tr><tr><td>Ja</td><td>10</td></tr><tr><td>Nee</td><td>5</td></tr></table>\
                <p>Het wetsontwerp is aangenomen.</p>";
    let blocks = report_blocks_of(html);
    let out = crawl::vote_assembly::assemble_votes_from_blocks(&blocks, 56, 61, "2024-01-01", "url", "cache");
    assert!(out.decisions.is_empty());
    assert!(out.results.is_empty());
    assert!(out.tallies.is_empty());
    assert!(out.members.is_empty());
    assert!(out.span_evidence.is_empty());
}

#[test]
fn json_string_literals_are_escaped() {
    assert_eq!(crawl::json::json_string_of("a\"b\\c\nd\u{1}"), "\"a\\\"b\\\\c\\nd\\u0001\"");
    assert_eq!(crawl::json::json_string_of("plain"), "\"plain\"");
}

#[test]
fn question_items_are_counted() {
    let html = "<h1>Vragen</h1><p>01 Vraag van Jan Peeters aan de minister over \"De begroting\" (56000123P)</p>";
    let blocks = report_blocks_of(html);
    let items = crawl::agenda_timeline::build_agenda_timeline(&blocks, crawl::agenda_timeline::MeetingKind::Plenary, 56, 60);
    let n = crawl::agenda_timeline::count_question_items(&items);
    let expected = items
        .iter()
        .filter(|it| matches!(it.item_kind, crawl::agenda_timeline::ItemKind::Question))
        .count();
    assert_eq!(n, expected);
}

const JUSTITIE_ROLES_HTML: &str = r#"
    <div id="story">
        <h4>JUSTITIE </h4>
        <p><b>Voorzitter(s):</b>
            <br><b>Les Engagés:</b>
            <A HREF="cvview54.cfm?key=08161">Ismaël Nuino</A>
        </p>
        <p><b>Ondervoorzitters:</b>
            <br><b>cd&v:</b>
            <A HREF="cvview54.cfm?key=07193">Steven Matheï</A>
            <br><b>N-VA:</b>
            <A HREF="cvview54.cfm?key=06230">Kristien Van Vaerenbergh</A>
        </p>
        <p><b>Vaste Leden:</b>
            <br><b>N-VA:</b>
            <A HREF="cvview54.cfm?key=06907">Christoph D'Haese</A>
        </p>
    </div>
"#;

const NATURALISATIES_ROLES_HTML: &str = r#"
    <div id="story">
        <h4>NATURALISATIES </h4>
        <p><b>Voorzitter(s):</b>
            <br><b>PS:</b>
            <A HREF="cvview54.cfm?key=07124">Khalil Aouasti</A>
        </p>
        <p><b>Vaste Leden:</b>
            <br><b>N-VA:</b>
            <A HREF="cvview54.cfm?key=08000">Jeroen Bergers</A>
        </p>
        <p><b>Plaatsvervangers:</b>
            <br><b>VB:</b>
            <A HREF="cvview54.cfm?key=07888">Werner Somers</A>
        </p>
    </div>
"#;

#[test]
fn justitie_separates_chair_and_subchairs() {
    let doc = role_paragraphs_from_html(JUSTITIE_ROLES_HTML);
    assert_eq!(extract_members(&doc, CommissionRole::Chair), "Ismaël Nuino");
    assert_eq!(extract_members(&doc, CommissionRole::Subchair), "Steven Matheï, Kristien Van Vaerenbergh");
    assert_eq!(extract_members(&doc, CommissionRole::Permanent), "Christoph D'Haese");
}

#[test]
fn naturalisaties_has_chair_without_subchairs() {
    let doc = role_paragraphs_from_html(NATURALISATIES_ROLES_HTML);
    assert_eq!(extract_members(&doc, CommissionRole::Chair), "Khalil Aouasti");
    assert_eq!(extract_members(&doc, CommissionRole::Subchair), "");
    assert_eq!(extract_members(&doc, CommissionRole::Permanent), "Jeroen Bergers");
    assert_eq!(extract_members(&doc, CommissionRole::Replacement), "Werner Somers");
}

#[test]
fn french_appendix_heading_alone_makes_no_votes() {
    let html = "<h1>Détail du vote nominatif</h1>\
                <table><tr><td>(Stemming/vote 1)</td></tr><tr><td>Ja</td><td>10</td></tr><tr><td>Nee</td><td>5</td></tr></table>\
                <p>Het wetsontwerp is aangenomen.</p>";
    let blocks = report_blocks_of(html);
    let out = crawl::vote_assembly::assemble_votes_from_blocks(&blocks, 56, 62, "2024-01-01", "url", "cache");
    assert!(out.decisions.is_empty());
    assert!(out.results.is_empty());
    assert!(out.span_evidence.is_empty());
}

#[test]
fn vote_rows_group_by_meeting() {
    let row = |m: &str, v: &str| (v.to_string(), m.to_string(), String::new(), String::new(), String::new(), String::new());
    let votes = vec![row("60", "a"), row("61", "b"), row("60", "c")];
    let groups = crawl::vote_inventory::votes_by_meeting_from_parquet(&votes);
    assert_eq!(groups, vec![("60".to_string(), vec![0, 2]), ("61".to_string(), vec![1])]);
}

fn parse_plenary_html(html: &str, meeting_id: u32) -> crawl::meeting_parse::MeetingParseOutput {
    crawl::meeting_parse::parse_plenary_meeting_report(
        &report_elements(html),
        56,
        meeting_id,
        "2026-01-01",
        "url",
        "cache",
        &crawl::artifact_id::content_hash(html),
    )
}

#[test]
fn bilingual_disjoint_titles_emit_exact_one_block_spans() {
    let html = r#"
        <h1>Mondelinge vragen</h1>
        <h2>01 Vraag van Jan aan de minister (56000001P) over hetzelfde</h2>
        <p>01.01 Jan: vraag.</p>
        <h2>01 Question de Jan au ministre (56000001P) sur le même sujet</h2>
    "#;
    let parsed = parse_plenary_html(html, 1);
    let question = parsed
        .agenda
        .iter()
        .find(|item| matches!(item.item_kind, crawl::agenda_timeline::ItemKind::Question))
        .unwrap();
    assert_eq!(question.title_blocks, vec![1, 3]);
    let spans: Vec<_> = parsed
        .source_spans
        .iter()
        .filter(|span| span.entity_type == "Question" && span.entity_id == question.item_id && span.span_role == "entity_title")
        .collect();
    assert_eq!(spans.len(), 2);
    assert_eq!((spans[0].block_start, spans[0].block_end), (1, 2));
    assert_eq!((spans[1].block_start, spans[1].block_end), (3, 4));
    assert!(parsed.source_spans.iter().any(|span| {
        span.entity_type == "Question"
            && span.entity_id == question.item_id
            && span.span_role == "question_participants"
            && span.field_names == "questioners,respondents"
    }));
    assert!(parsed.source_spans.iter().all(|span| span.validation_status == "valid"));
}

#[test]
fn proceedings_emit_staged_participant_and_body_roles() {
    let html = r#"
        <h1>Hoorzittingen</h1>
        <h2>01 Hoorzitting met: Alice Expert</h2>
        <p>Alice Expert geeft een toelichting.</p>
        <h1>Interpellaties</h1>
        <h2>02 Interpellatie van Jan Jansen aan Minister X over "Onderwerp" (56000001I)</h2>
        <p>02.01 Jan Jansen: Mijn interpellatie.</p>
    "#;
    let parsed = parse_plenary_html(html, 2);
    let hearing = parsed.hearings.first().expect("hearing");
    let interpellation = parsed.interpellations.first().expect("interpellation");
    for (entity_type, entity_id, participant_role, body_role) in [
        ("Hearing", hearing.hearing_id.as_str(), "hearing_participants", "hearing_body"),
        (
            "Interpellation",
            interpellation.interpellation_id.as_str(),
            "interpellation_participants",
            "interpellation_body",
        ),
    ] {
        assert!(parsed.source_spans.iter().any(|span| {
            span.entity_type == entity_type
                && span.entity_id == entity_id
                && span.span_role == participant_role
                && span.coverage_kind == "extraction"
        }));
        assert!(parsed.source_spans.iter().any(|span| {
            span.entity_type == entity_type
                && span.entity_id == entity_id
                && span.span_role == body_role
                && span.coverage_kind == "scope"
        }));
    }
}

#[test]
fn repeated_title_text_keeps_distinct_source_occurrences() {
    let html = r#"
        <h1>Voorstellen</h1>
        <h2><span>01</span><span>Zelfde titel (56/1)</span></h2>
        <h2><span>Zelfde titel (56/1)</span></h2>
    "#;
    let parsed = parse_plenary_html(html, 1);
    let title_spans: Vec<_> = parsed
        .source_spans
        .iter()
        .filter(|span| span.entity_type == "Proposition" && span.span_role == "entity_title")
        .map(|span| (span.block_start, span.block_end))
        .collect();
    assert_eq!(title_spans, vec![(1, 2), (2, 3)]);
}

#[test]
fn content_hash_covers_canonical_block_structure() {
    let first = report_blocks_of(r#"<p class="Normal" lang="NL"><span class="oraspr">Zelfde tekst</span></p>"#);
    let reordered = report_blocks_of(r#"<p lang="NL" class="Normal"><span class="oraspr">Zelfde tekst</span></p>"#);
    let without_oraspr = report_blocks_of(r#"<p lang="NL" class="Normal"><span>Zelfde tekst</span></p>"#);
    let first_block = &first[0];
    let reordered_block = &reordered[0];
    let plain_block = &without_oraspr[0];
    assert_eq!(first_block.content_hash, reordered_block.content_hash);
    assert_ne!(first_block.content_hash, plain_block.content_hash);
    assert!(first_block.has_oraspr);
}
