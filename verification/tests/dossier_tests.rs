use crawl::dossier_outputs::dossier_content_fingerprint;
use crawl::dossiers::{recheck_max_age_days, ACTIVE_RECHECK_DAYS, DEFAULT_RECHECK_DAYS, SETTLED_RECHECK_DAYS};
use crawl::dossiers::{
    canonical_document_id, extract_flwb_dossier_ids, extract_list_from_to_urls, normalize_dossier_id,
    select_newest_dossier_cache,
};

#[test]
fn normalize_dossier_id_strips_leading_zeros() {
    assert_eq!(normalize_dossier_id("0099"), "99");
    assert_eq!(normalize_dossier_id("0001"), "1");
    assert_eq!(normalize_dossier_id("297"), "297");
    assert_eq!(normalize_dossier_id("0000"), "0");
}

#[test]
fn canonical_document_id_uses_full_flwb_id_from_pdf_url() {
    assert_eq!(
        canonical_document_id("1243", "2", Some("https://www.dekamer.be/FLWB/PDF/56/1243/56K1243002.pdf")),
        "56K1243002"
    );
    assert_eq!(canonical_document_id("1243", "2", None), "56K1243002");
}

#[test]
fn extract_list_from_to_urls_finds_ranges() {
    let html = r#"
            <A HREF="showpage.cfm?section=/flwb&language=nl&amp;cfm=ListFromTo.cfm?legislat=56&amp;from=0&amp;to=99">Van 99 tot 0</A>
            <A HREF="showpage.cfm?section=/flwb&language=nl&cfm=ListFromTo.cfm?legislat=56&from=100&to=199">Van 199 tot 100</A>
            <A HREF="showpage.cfm?section=/flwb&language=nl&cfm=ListFromTo.cfm?legislat=55&from=0&to=99">Other session</A>
        "#;
    let urls = extract_list_from_to_urls(html, 56);
    assert_eq!(urls.len(), 2);
    assert!(urls[0].contains("from=0&to=99"));
    assert!(urls[1].contains("from=100&to=199"));
}

#[test]
fn extract_flwb_dossier_ids_from_range_page() {
    let html = r#"
            <A HREF="showpage.cfm?section=/flwb&language=nl&cfm=/site/wwwcfm/flwb/flwbn.cfm?lang=N&legislat=56&dossierID=0099">99</A>
            <A HREF="showpage.cfm?section=/flwb&language=nl&cfm=/site/wwwcfm/flwb/flwbn.cfm?lang=N&legislat=56&dossierID=0098">98</A>
            <A HREF="/site/wwwcfm/flwb/lastpdf.cfm?lang=N&dossierID=4">skip</A>
        "#;
    let ids = extract_flwb_dossier_ids(html);
    assert_eq!(ids, vec!["99".to_string(), "98".to_string()]);
}

#[test]
fn select_newest_dossier_cache_picks_lexicographically_latest() {
    let older = "56_1000_20260701T120000Z_aaaaaaaa.html".to_string();
    let newer = "56_1000_20260715T120000Z_bbbbbbbb.html".to_string();
    let legacy = "56_1000_2026-07-01.html".to_string();
    let selected = select_newest_dossier_cache(&[older.clone(), newer.clone(), legacy]);
    assert_eq!(selected, Some(newer));
}

#[test]
fn select_newest_dossier_cache_reads_names_as_paths_do() {
    let plain = "cache/56_1000_20260701T120000Z_aaaaaaaa.html".to_string();
    let trailing = "cache/56_1000_20260715T120000Z_bbbbbbbb.html/".to_string();
    let selected = select_newest_dossier_cache(&[plain.clone(), trailing.clone()]);
    assert_eq!(selected, Some(trailing));
}

fn sample_dossier_html(
    title: &str,
    authors_html: &str,
    eurovoc_main: &str,
    eurovoc_descriptors: &str,
    file_url: &str,
    status: &str,
    end_date: &str,
) -> String {
    format!(
        r#"
        <div id="story"><h4><center>{title}</center></h4></div>
        <table><tbody>
            <tr>
                <td>Document Kamer</td>
                <td>
                    <a href="{file_url}">56K0999001</a>
                    <br>WETSVOORSTEL - KAMER
                </td>
            </tr>
            <tr><td>Indieningsdatum</td><td>22/07/2024</td></tr>
            <tr><td>Einddatum</td><td>{end_date}</td></tr>
            <tr><td>Document type</td><td>05 WETSVOORSTEL</td></tr>
            <tr><td>Status</td><td>{status}</td></tr>
            <tr><td>Auteur(s)</td><td>{authors_html}</td></tr>
            <tr><td>Eurovoc-hoofddescriptor</td><td>{eurovoc_main}</td></tr>
            <tr><td>Eurovoc descriptoren</td><td>{eurovoc_descriptors}</td></tr>
        </tbody></table>
        "#
    )
}

#[test]
fn scrape_dossier_includes_top_level_primary_document() {
    let html = r#"
        <div id="story"><h4><center>Voorbeeld-dossier</center></h4></div>
        <table><tbody>
            <tr>
                <td>Document Kamer</td>
                <td>
                    <a href="/FLWB/PDF/56/0062/56K0062001.pdf">56K0062001</a>
                    <br>WETSVOORSTEL - KAMER
                </td>
            </tr>
            <tr><td>Indieningsdatum</td><td>22/07/2024</td></tr>
            <tr><td>Document type</td><td>05 WETSVOORSTEL</td></tr>
            <tr>
                <td>Auteur(s)</td>
                <td><a>Nathalie, Muylle</a><a>Els, Van Hoof</a></td>
            </tr>
            <tr>
                <td>Gekoppeld(e)/verbonden document(en)</td>
                <td><a href="/FLWB/PDF/56/0415/56K0415001.pdf">56K0415001</a></td>
            </tr>
        </tbody></table>
    "#;

    let dossier = crawl::dossier_html::scrape_dossier_html("62", html).expect("scrape dossier");
    assert_eq!(dossier.subdocuments.len(), 1);
    let primary = &dossier.subdocuments[0];
    assert_eq!(primary.id, "56K0062001");
    assert_eq!(primary.date, "2024-07-22");
    assert_eq!(primary.document_type.as_str(), "WetsVoorstel");
    assert_eq!(primary.authors, vec!["Nathalie Muylle", "Els Van Hoof"]);
    assert_eq!(
        primary.file_url.as_deref(),
        Some("https://www.dekamer.be/FLWB/PDF/56/0062/56K0062001.pdf")
    );
}

#[test]
fn scrape_dossier_retains_primary_document_without_metadata_rows() {
    let html = r#"
        <table><tbody>
            <tr>
                <td>Document Kamer</td>
                <td><a href="/FLWB/PDF/56/1506/56K1506001.pdf">56K1506001</a></td>
            </tr>
            <tr><td>Document type</td><td>00</td></tr>
        </tbody></table>
    "#;

    let dossier = crawl::dossier_html::scrape_dossier_html("1506", html).expect("scrape dossier");
    assert_eq!(dossier.subdocuments.len(), 1);
    let primary = &dossier.subdocuments[0];
    assert_eq!(primary.id, "56K1506001");
    assert!(primary.date.is_empty());
    assert_eq!(primary.document_type.as_str(), "Onbekend");
}

#[test]
fn recheck_max_age_uses_shorter_window_for_recent_plenary_meeting() {
    let today = chrono::Local::now().naive_local().date();
    let recent = (today - chrono::Duration::days(2)).format("%Y-%m-%d").to_string();
    let old = (today - chrono::Duration::days(30)).format("%Y-%m-%d").to_string();
    assert_eq!(recheck_max_age_days(&recent, false), ACTIVE_RECHECK_DAYS);
    assert_eq!(recheck_max_age_days(&old, false), DEFAULT_RECHECK_DAYS);
    assert_eq!(recheck_max_age_days("", false), DEFAULT_RECHECK_DAYS);
    assert_eq!(recheck_max_age_days(&recent, true), SETTLED_RECHECK_DAYS);
    assert_eq!(recheck_max_age_days("", true), SETTLED_RECHECK_DAYS);
}

#[test]
fn adopted_dossier_with_old_end_date_is_settled() {
    let today = chrono::Local::now().naive_local().date();
    let end = (today - chrono::Duration::days(30)).format("%d/%m/%Y").to_string();
    let html = sample_dossier_html(
        "Settled dossier",
        "<a>Alice, A</a>",
        "LAW",
        "JUSTICE | RIGHTS",
        "/FLWB/PDF/56/0999/56K0999001.pdf",
        "Aangenomen",
        &end,
    );
    let dossier = crawl::dossier_html::scrape_dossier_html("999", &html).expect("scrape");
    assert!(crawl::dossiers::is_settled_dossier(&dossier));
}

#[test]
fn open_dossier_is_not_settled() {
    let html = sample_dossier_html(
        "Open dossier",
        "<a>Alice, A</a>",
        "LAW",
        "JUSTICE",
        "/FLWB/PDF/56/0999/56K0999001.pdf",
        "Hangend Kamer",
        "",
    );
    let dossier = crawl::dossier_html::scrape_dossier_html("999", &html).expect("scrape");
    assert!(!crawl::dossiers::is_settled_dossier(&dossier));
}

#[test]
fn fingerprint_changes_when_title_authors_eurovoc_or_file_url_change() {
    let base = sample_dossier_html(
        "Title A",
        "<a>Bob, B</a><a>Alice, A</a>",
        "LAW",
        "JUSTICE | RIGHTS",
        "/FLWB/PDF/56/0999/56K0999001.pdf",
        "Hangend Kamer",
        "",
    );
    let base_fp = dossier_content_fingerprint(&base, "999").expect("fp");

    let title_changed = sample_dossier_html(
        "Title B",
        "<a>Bob, B</a><a>Alice, A</a>",
        "LAW",
        "JUSTICE | RIGHTS",
        "/FLWB/PDF/56/0999/56K0999001.pdf",
        "Hangend Kamer",
        "",
    );
    assert_ne!(base_fp, dossier_content_fingerprint(&title_changed, "999").unwrap());

    let authors_changed = sample_dossier_html(
        "Title A",
        "<a>Bob, B</a><a>Carol, C</a>",
        "LAW",
        "JUSTICE | RIGHTS",
        "/FLWB/PDF/56/0999/56K0999001.pdf",
        "Hangend Kamer",
        "",
    );
    assert_ne!(base_fp, dossier_content_fingerprint(&authors_changed, "999").unwrap());

    let eurovoc_changed = sample_dossier_html(
        "Title A",
        "<a>Bob, B</a><a>Alice, A</a>",
        "LAW",
        "JUSTICE | HEALTH",
        "/FLWB/PDF/56/0999/56K0999001.pdf",
        "Hangend Kamer",
        "",
    );
    assert_ne!(base_fp, dossier_content_fingerprint(&eurovoc_changed, "999").unwrap());

    let file_url_changed = sample_dossier_html(
        "Title A",
        "<a>Bob, B</a><a>Alice, A</a>",
        "LAW",
        "JUSTICE | RIGHTS",
        "/FLWB/PDF/56/0999/56K0999002.pdf",
        "Hangend Kamer",
        "",
    );
    assert_ne!(base_fp, dossier_content_fingerprint(&file_url_changed, "999").unwrap());
}

#[test]
fn fingerprint_stable_when_only_author_order_changes() {
    let order_a = sample_dossier_html(
        "Title A",
        "<a>Bob, B</a><a>Alice, A</a>",
        "LAW",
        "RIGHTS | JUSTICE",
        "/FLWB/PDF/56/0999/56K0999001.pdf",
        "Hangend Kamer",
        "",
    );
    let order_b = sample_dossier_html(
        "Title A",
        "<a>Alice, A</a><a>Bob, B</a>",
        "LAW",
        "JUSTICE | RIGHTS",
        "/FLWB/PDF/56/0999/56K0999001.pdf",
        "Hangend Kamer",
        "",
    );
    assert_eq!(
        dossier_content_fingerprint(&order_a, "999").unwrap(),
        dossier_content_fingerprint(&order_b, "999").unwrap()
    );
}

#[test]
fn dossier_page_reads_nested_subdocument_rows() {
    let html = r#"
        <table><tbody>
            <tr><td>Subdocumenten</td><td>
                <table><tr><td><a href="/x/1.pdf">1</a></td><td><font>WETSVOORSTEL</font></td></tr></table>
            </td></tr>
            <tr><td>Status</td><td>Aangenomen</td></tr>
        </tbody></table>
    "#;
    let page = crawl::dossier_html::dossier_page_from_html(html);
    assert!(page.title.is_none());
    let rows = page.table_rows.expect("table").expect("tbody");
    assert_eq!(rows.len(), 2);
    assert_eq!(rows[0].len(), 4);
    let nested = rows[0][1].nested_rows.as_ref().expect("nested table");
    assert_eq!(nested.len(), 1);
    assert_eq!(nested[0].len(), 2);
    assert_eq!(nested[0][0].links.len(), 1);
    assert_eq!(nested[0][0].links[0].first_text.as_deref(), Some("1"));
    assert_eq!(nested[0][0].links[0].href.as_deref(), Some("/x/1.pdf"));
    assert_eq!(nested[0][1].fonts, vec![vec!["WETSVOORSTEL".to_string()]]);
    assert!(rows[1][1].nested_rows.is_none());
}

#[test]
fn dossier_page_without_table_has_no_rows() {
    let page = crawl::dossier_html::dossier_page_from_html("<div id=\"story\"><h4><center>T</center></h4></div>");
    assert_eq!(page.title.as_deref(), Some("T"));
    assert!(page.table_rows.is_none());
    assert!(crawl::dossier_html::scrape_dossier_html("5", "<p>x</p>").is_err());
}
