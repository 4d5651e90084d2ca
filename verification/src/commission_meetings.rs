//! Commission meeting reports: the meeting's header facts (date, time of day, start and end
//! time, chair, commission), the rows of a meeting, and the decisions of the probe loop
//! that finds new meetings.
use vstd::prelude::*;
use crate::meeting_gaps::{gap_reason_status, gap_reason_to_manifest_status, MeetingGapRow, GAP_REASON_UNSUPPORTED_FORMAT};
use crate::oral_questions::OralQuestionDraft;
use crate::pattern::{capture, capture_text, re_remove_all, regex_remove_all};
use crate::source_manifest::SourceManifestRow;
use crate::text::{
    contains, decimal, first_occurrence, from_char_range, join, join_strs, lowercase, occurs_at, owned, parse_u32,
    parse_u32_str, push_char, push_decimal, push_str, replace, replace_char_str, str_contains, str_eq, to_chars,
    to_lower, trim, trim_str, words, words_str, find_chars, lemma_occurs_at_bound,
};

verus! {

pub const MEETING_KIND: &'static str = "commission";
pub const SOURCE_NAME: &'static str = "commission_meetings";

/// A time such as `14.13 uur` or `14:13 uur`.
pub const TIME_PATTERN: &'static str = r"(\d{1,2})[.:](\d{2})\s*uur\b";
/// A date such as `12 maart 2025`.
pub const DATE_PATTERN: &'static str = r"(\d{1,2})\s+([a-zA-Z]+)\s+(\d{4})";
/// The titles in front of a chair's name.
pub const CHAIR_TITLES_PATTERN: &'static str = r"(?i)\b(?:de\s+)?(?:mevrouw|heer|mevrouwen|heren)\b";
/// The sentence that names the chair: `voorgezeten door …`.
pub const CHAIR_PATTERN: &'static str = r"(?i)voorgezeten\s+door\s+([^\.]+?)\s*(?:\.|$)";

#[derive(Debug, Clone, Copy, PartialEq, Eq, Structural)]
pub enum Commission {
    Landsverdediging,
    Justitie,
    BuitenlandseBetrekkingen,
    FinancienEnBegroting,
    SocialeZakenWerkEnPensioenen,
    BinnenlandseZakenVeiligheidMigratieEnBestuurszaken,
    EconomieConsumentenBeschermingEnDigitalisering,
    MobiliteitOverheidsbedrijvenEnFederaleInstellingen,
    GezondheidEnGelijkeKansen,
    EnergieLeefmilieuEnKlimaat,
    InterparlementaireKlimaatdialoog,
    GrondwetEnInstitutioneleVernieuwing,
    Onbekend,
}

impl Commission {
    /// The commission's name as the meeting rows carry it.
    pub open spec fn name(self) -> Seq<char> {
        match self {
            Commission::BinnenlandseZakenVeiligheidMigratieEnBestuurszaken => "binnenlandse zaken, veiligheid, migratie en bestuurszaken"@,
            Commission::Landsverdediging => "landsverdediging"@,
            Commission::Justitie => "justitie"@,
            Commission::BuitenlandseBetrekkingen => "buitenlandse betrekkingen"@,
            Commission::FinancienEnBegroting => "financiën en begroting"@,
            Commission::SocialeZakenWerkEnPensioenen => "sociale zaken, werk en pensioenen"@,
            Commission::EconomieConsumentenBeschermingEnDigitalisering => "economie, consumentenbescherming en digitalisering"@,
            Commission::MobiliteitOverheidsbedrijvenEnFederaleInstellingen => "mobiliteit, overheidsbedrijven en federale instellingen"@,
            Commission::GezondheidEnGelijkeKansen => "gezondheid en gelijke kansen"@,
            Commission::EnergieLeefmilieuEnKlimaat => "energie, leefmilieu en klimaat"@,
            Commission::InterparlementaireKlimaatdialoog => "interparlementaire klimaatdialoog"@,
            Commission::GrondwetEnInstitutioneleVernieuwing => "grondwet en institutionele vernieuwing"@,
            Commission::Onbekend => "onbekend"@,
        }
    }

    pub fn as_str(self) -> (r: &'static str)
        ensures
            r@ == self.name(),
    {
        match self {
            Commission::BinnenlandseZakenVeiligheidMigratieEnBestuurszaken => "binnenlandse zaken, veiligheid, migratie en bestuurszaken",
            Commission::Landsverdediging => "landsverdediging",
            Commission::Justitie => "justitie",
            Commission::BuitenlandseBetrekkingen => "buitenlandse betrekkingen",
            Commission::FinancienEnBegroting => "financiën en begroting",
            Commission::SocialeZakenWerkEnPensioenen => "sociale zaken, werk en pensioenen",
            Commission::EconomieConsumentenBeschermingEnDigitalisering => "economie, consumentenbescherming en digitalisering",
            Commission::MobiliteitOverheidsbedrijvenEnFederaleInstellingen => "mobiliteit, overheidsbedrijven en federale instellingen",
            Commission::GezondheidEnGelijkeKansen => "gezondheid en gelijke kansen",
            Commission::EnergieLeefmilieuEnKlimaat => "energie, leefmilieu en klimaat",
            Commission::InterparlementaireKlimaatdialoog => "interparlementaire klimaatdialoog",
            Commission::GrondwetEnInstitutioneleVernieuwing => "grondwet en institutionele vernieuwing",
            Commission::Onbekend => "onbekend",
        }
    }
}

/// The commission a header names: the first of its keywords that the lower-cased,
/// trimmed text holds.
pub open spec fn commission_of(raw: Seq<char>) -> Commission {
    let s = lowercase(trim(raw));
    if contains(s, "binnenlandse"@) {
        Commission::BinnenlandseZakenVeiligheidMigratieEnBestuurszaken
    } else if contains(s, "justitie"@) {
        Commission::Justitie
    } else if contains(s, "gezondheid"@) {
        Commission::GezondheidEnGelijkeKansen
    } else if contains(s, "economie"@) {
        Commission::EconomieConsumentenBeschermingEnDigitalisering
    } else if contains(s, "buitenlandse"@) {
        Commission::BuitenlandseBetrekkingen
    } else if contains(s, "mobiliteit"@) {
        Commission::MobiliteitOverheidsbedrijvenEnFederaleInstellingen
    } else if contains(s, "landsverdediging"@) {
        Commission::Landsverdediging
    } else if contains(s, "energie"@) {
        Commission::EnergieLeefmilieuEnKlimaat
    } else if contains(s, "sociale"@) {
        Commission::SocialeZakenWerkEnPensioenen
    } else if contains(s, "begroting"@) {
        Commission::FinancienEnBegroting
    } else if contains(s, "klimaatdialoog"@) {
        Commission::InterparlementaireKlimaatdialoog
    } else if contains(s, "grondwet"@) {
        Commission::GrondwetEnInstitutioneleVernieuwing
    } else {
        Commission::Onbekend
    }
}

pub fn parse_commission_type(raw: &str) -> (r: Commission)
    ensures
        r == commission_of(raw@),
{
    let t = trim_str(raw);
    let s = to_lower(t.as_str());
    let s = s.as_str();
    if str_contains(s, "binnenlandse") {
        Commission::BinnenlandseZakenVeiligheidMigratieEnBestuurszaken
    } else if str_contains(s, "justitie") {
        Commission::Justitie
    } else if str_contains(s, "gezondheid") {
        Commission::GezondheidEnGelijkeKansen
    } else if str_contains(s, "economie") {
        Commission::EconomieConsumentenBeschermingEnDigitalisering
    } else if str_contains(s, "buitenlandse") {
        Commission::BuitenlandseBetrekkingen
    } else if str_contains(s, "mobiliteit") {
        Commission::MobiliteitOverheidsbedrijvenEnFederaleInstellingen
    } else if str_contains(s, "landsverdediging") {
        Commission::Landsverdediging
    } else if str_contains(s, "energie") {
        Commission::EnergieLeefmilieuEnKlimaat
    } else if str_contains(s, "sociale") {
        Commission::SocialeZakenWerkEnPensioenen
    } else if str_contains(s, "begroting") {
        Commission::FinancienEnBegroting
    } else if str_contains(s, "klimaatdialoog") {
        Commission::InterparlementaireKlimaatdialoog
    } else if str_contains(s, "grondwet") {
        Commission::GrondwetEnInstitutioneleVernieuwing
    } else {
        Commission::Onbekend
    }
}

/// `n` in decimal, padded with zeros to at least `width` digits.
pub open spec fn zero_padded(n: nat, width: nat) -> Seq<char> {
    if decimal(n).len() < width {
        Seq::new((width - decimal(n).len()) as nat, |_i: int| '0') + decimal(n)
    } else {
        decimal(n)
    }
}

fn push_zero_padded(out: &mut String, n: u32, width: usize)
    ensures
        final(out)@ == old(out)@ + zero_padded(n as nat, width as nat),
{
    let mut digits = String::new();
    push_decimal(&mut digits, n as u64);
    let len = digits.as_str().unicode_len();
    assert(digits@.len() == len);
    if len < width {
        let pad = width - len;
        let mut k: usize = 0;
        while k < pad
            invariant
                k <= pad,
                pad == width - len,
                out@ == old(out)@ + Seq::new(k as nat, |_i: int| '0'),
            decreases pad - k,
        {
            push_char(out, '0');
            assert(Seq::new((k + 1) as nat, |_i: int| '0') =~= Seq::new(k as nat, |_i: int| '0').push('0'));
            k = k + 1;
        }
    }
    push_str(out, digits.as_str());
    proof {
        if len < width {
            assert(out@ =~= old(out)@ + zero_padded(n as nat, width as nat));
        } else {
            assert(out@ =~= old(out)@ + zero_padded(n as nat, width as nat));
        }
    }
}

/// `https://www.dekamer.be/doc/CCRI/html/{session}/ic{meeting:03}x.html`.
pub open spec fn meeting_url_spec(session_id: u32, meeting_id: u32) -> Seq<char> {
    "https://www.dekamer.be/doc/CCRI/html/"@ + decimal(session_id as nat) + "/ic"@ + zero_padded(meeting_id as nat, 3)
        + "x.html"@
}

pub fn meeting_url(session_id: u32, meeting_id: u32) -> (r: String)
    ensures
        r@ == meeting_url_spec(session_id, meeting_id),
{
    let mut s = owned("https://www.dekamer.be/doc/CCRI/html/");
    push_decimal(&mut s, session_id as u64);
    push_str(&mut s, "/ic");
    push_zero_padded(&mut s, meeting_id, 3);
    push_str(&mut s, "x.html");
    s
}

/// `sessions/{session}/meetings/commission/{session}-{meeting}.html`, below the cache root.
pub open spec fn meeting_cache_rel_spec(session_id: u32, meeting_id: u32) -> Seq<char> {
    "sessions/"@ + decimal(session_id as nat) + "/meetings/commission/"@ + decimal(session_id as nat) + seq!['-']
        + decimal(meeting_id as nat) + ".html"@
}

/// The cache file of a meeting, relative to the cache root.
pub fn meeting_cache_file(session_id: u32, meeting_id: u32) -> (r: String)
    ensures
        r@ == meeting_cache_rel_spec(session_id, meeting_id),
{
    let mut s = owned("sessions/");
    push_decimal(&mut s, session_id as u64);
    push_str(&mut s, "/meetings/commission/");
    push_decimal(&mut s, session_id as u64);
    push_char(&mut s, '-');
    push_decimal(&mut s, meeting_id as u64);
    push_str(&mut s, ".html");
    s
}

/// The manifest row of a meeting recorded as a gap.
pub open spec fn gap_manifest_ok(r: SourceManifestRow, session_id: u32, meeting_id: u32, gap: MeetingGapRow, run_mode: Seq<char>) -> bool {
    &&& r.source@ == SOURCE_NAME@
    &&& r.session_id@ == decimal(session_id as nat)
    &&& r.item_kind@ == "meeting"@
    &&& r.native_item_id@ == decimal(meeting_id as nat)
    &&& r.source_url@ == gap.source_url@
    &&& r.cache_path@ == gap.cache_path@
    &&& r.status@ == gap_reason_status(gap.reason@)
    &&& r.row_count == 0
    &&& r.content_type@ == (if gap.reason@ == GAP_REASON_UNSUPPORTED_FORMAT@ { "application/pdf"@ } else { Seq::<char>::empty() })
    &&& r.content_hash@ == gap.content_hash@
    &&& r.fetched_at@ == gap.fetched_at@
    &&& r.checked_at@ == gap.checked_at@
    &&& r.run_mode@ == run_mode
    &&& r.detail@ == gap.detail@
}

/// Appends the manifest row of a meeting recorded as a gap.
pub fn push_gap_manifest(rows: &mut Vec<SourceManifestRow>, session_id: u32, meeting_id: u32, gap: &MeetingGapRow, run_mode: &str)
    ensures
        final(rows)@.len() == old(rows)@.len() + 1,
        forall|k: int| 0 <= k < old(rows)@.len() ==> final(rows)@[k] == old(rows)@[k],
        gap_manifest_ok(final(rows)@.last(), session_id, meeting_id, *gap, run_mode@),
{
    let mut sid = String::new();
    push_decimal(&mut sid, session_id as u64);
    let mut mid = String::new();
    push_decimal(&mut mid, meeting_id as u64);
    let content_type = if str_eq(gap.reason.as_str(), GAP_REASON_UNSUPPORTED_FORMAT) {
        owned("application/pdf")
    } else {
        String::new()
    };
    rows.push(SourceManifestRow {
        source: owned(SOURCE_NAME),
        session_id: sid,
        item_kind: owned("meeting"),
        native_item_id: mid,
        source_url: gap.source_url.clone(),
        cache_path: gap.cache_path.clone(),
        status: owned(gap_reason_to_manifest_status(gap.reason.as_str())),
        row_count: 0,
        content_type,
        content_hash: gap.content_hash.clone(),
        fetched_at: gap.fetched_at.clone(),
        checked_at: gap.checked_at.clone(),
        run_mode: owned(run_mode),
        detail: gap.detail.clone(),
    });
}

pub struct ScrapedMeeting {
    pub session_id: u32,
    pub meeting_id: u32,
    pub date: String,
    pub time_of_day: String,
    pub start_time: String,
    pub end_time: String,
    pub commission: String,
    pub chair: String,
    pub source_url: String,
    pub cache_path: String,
}

pub struct ScrapedQuestion {
    pub question_id: String,
    pub session_id: u32,
    pub meeting_id: u32,
    pub questioners: String,
    pub respondents: String,
    pub topics_nl: String,
    pub topics_fr: String,
    pub internal_ids: String,
    pub question_body_nl: String,
    pub question_body_fr: String,
    pub treatment_mode: String,
    pub source_url: String,
    pub cache_path: String,
}

/// The question row of an oral question draft: the addressees named in its heading stand
/// as respondents; body and treatment mode stay empty.
pub fn scraped_question_from_draft(draft: OralQuestionDraft) -> (r: ScrapedQuestion)
    ensures
        r.question_id == draft.question_id,
        r.session_id == draft.session_id,
        r.meeting_id == draft.meeting_id,
        r.questioners == draft.questioners,
        r.respondents == draft.questionees,
        r.topics_nl == draft.topics_nl,
        r.topics_fr == draft.topics_fr,
        r.internal_ids == draft.internal_ids,
        r.question_body_nl@ == Seq::<char>::empty(),
        r.question_body_fr@ == Seq::<char>::empty(),
        r.treatment_mode@ == Seq::<char>::empty(),
        r.source_url == draft.source_url,
        r.cache_path == draft.cache_path,
{
    ScrapedQuestion {
        question_id: draft.question_id,
        session_id: draft.session_id,
        meeting_id: draft.meeting_id,
        questioners: draft.questioners,
        respondents: draft.questionees,
        topics_nl: draft.topics_nl,
        topics_fr: draft.topics_fr,
        internal_ids: draft.internal_ids,
        question_body_nl: String::new(),
        question_body_fr: String::new(),
        treatment_mode: String::new(),
        source_url: draft.source_url,
        cache_path: draft.cache_path,
    }
}

// ---------------------------------------------------------------------------
// Header facts of a meeting report page
// ---------------------------------------------------------------------------

/// The text nodes that the header facts are read from, as plain values: those of each
/// `span` of the page's first `table` (when it has one), those of each `span`, and those
/// of each `span` or `p`, in document order.
pub struct MeetingPage {
    pub first_table_spans: Option<Vec<Vec<String>>>,
    pub spans: Vec<Vec<String>>,
    pub spans_and_paragraphs: Vec<Vec<String>>,
}

pub open spec fn texts_view(v: Seq<Vec<String>>) -> Seq<Seq<Seq<char>>> {
    v.map_values(|t: Vec<String>| t.deep_view())
}

pub open spec fn res_view(r: Result<String, String>) -> Result<Seq<char>, Seq<char>> {
    match r {
        Ok(s) => Ok(s@),
        Err(e) => Err(e@),
    }
}

/// Text nodes joined by spaces.
pub open spec fn node_text(texts: Seq<Seq<char>>) -> Seq<char> {
    join(texts, seq![' '])
}

fn node_text_exec(texts: &Vec<String>) -> (r: String)
    ensures
        r@ == node_text(texts.deep_view()),
{
    proof {
        reveal_strlit(" ");
        assert(" "@ =~= seq![' ']);
    }
    join_strs(texts.as_slice(), " ")
}

/// The date of a header text: `{year}-{month:02}-{day:02}` from `12 maart 2025`.
pub open spec fn date_of_text(text: Seq<char>) -> Result<Seq<char>, Seq<char>> {
    match crate::pattern::regex_captures(DATE_PATTERN@, text) {
        None => Err("Could not find date in document"@),
        Some(caps) => match parse_u32(crate::pattern::group_text(caps, 1)) {
            Some(day) if day <= 255 => match crate::utils::dutch_month_number_of_lower(lowercase(crate::pattern::group_text(caps, 2))) {
                Some(month) => Ok(crate::pattern::group_text(caps, 3) + seq!['-'] + zero_padded(month as nat, 2) + seq!['-']
                    + zero_padded(day as nat, 2)),
                None => Err("Invalid month name"@),
            },
            _ => Err("invalid digit found in string"@),
        },
    }
}

fn flatten_nodes(nodes: &Vec<Vec<String>>) -> (r: Vec<String>)
    ensures
        r.deep_view() == texts_view(nodes@).flatten(),
{
    let mut out: Vec<String> = Vec::new();
    let mut i: usize = 0;
    while i < nodes.len()
        invariant
            i <= nodes@.len(),
            out.deep_view() == texts_view(nodes@).take(i as int).flatten(),
        decreases nodes.len() - i,
    {
        let ghost base = out.deep_view();
        let mut j: usize = 0;
        while j < nodes[i].len()
            invariant
                j <= nodes@[i as int]@.len(),
                i < nodes@.len(),
                out.deep_view() == base + nodes@[i as int].deep_view().take(j as int),
            decreases nodes@[i as int]@.len() - j,
        {
            let ghost before = out.deep_view();
            out.push(nodes[i][j].clone());
            assert(out.deep_view() =~= before.push(nodes@[i as int].deep_view()[j as int]));
            assert(nodes@[i as int].deep_view().take(j + 1) =~= nodes@[i as int].deep_view().take(j as int).push(nodes@[i as int].deep_view()[j as int]));
            j = j + 1;
        }
        proof {
            assert(nodes@[i as int].deep_view().take(nodes@[i as int]@.len() as int) =~= nodes@[i as int].deep_view());
            let tv = texts_view(nodes@);
            assert(tv.take(i + 1).drop_last() =~= tv.take(i as int));
            assert(tv.take(i + 1).last() == nodes@[i as int].deep_view());
            tv.take(i as int).lemma_flatten_push(tv[i as int]);
            assert(tv.take(i as int).push(tv[i as int]) =~= tv.take(i + 1));
        }
        i = i + 1;
    }
    assert(texts_view(nodes@).take(nodes@.len() as int) =~= texts_view(nodes@));
    out
}

/// The date of a meeting: from the spans of the first table.
/// The meeting date of a page, or why it has none.
pub open spec fn date_result(page: MeetingPage) -> Result<Seq<char>, Seq<char>> {
    match page.first_table_spans {
        None => Err("No table found"@),
        Some(spans) => date_of_text(node_text(texts_view(spans@).flatten())),
    }
}

pub fn extract_date_from_document(page: &MeetingPage) -> (r: Result<String, String>)
    ensures
        res_view(r) == date_result(*page),
{
    let spans = match &page.first_table_spans {
        Some(s) => s,
        None => return Err(owned("No table found")),
    };
    let all = flatten_nodes(spans);
    let text = node_text_exec(&all);
    let caps = match crate::pattern::re_captures(DATE_PATTERN, text.as_str()) {
        Some(c) => c,
        None => return Err(owned("Could not find date in document")),
    };
    let ghost cv = caps.deep_view();
    assert(crate::pattern::regex_captures(DATE_PATTERN@, text@) == Some(cv));
    let d = match crate::pattern::group_at(&caps, 1) { Some(g) => g, None => String::new() };
    assert(d@ == crate::pattern::group_text(cv, 1));
    let day = match parse_u32_str(d.as_str()) {
        Some(v) => {
            if v <= 255 {
                v
            } else {
                return Err(owned("invalid digit found in string"));
            }
        },
        None => return Err(owned("invalid digit found in string")),
    };
    let m = match crate::pattern::group_at(&caps, 2) { Some(g) => g, None => String::new() };
    assert(m@ == crate::pattern::group_text(cv, 2));
    let ml = to_lower(m.as_str());
    let month = match crate::utils::month_number_of_lower(ml.as_str()) {
        Some(n) => n,
        None => return Err(owned("Invalid month name")),
    };
    let mut out = match crate::pattern::group_at(&caps, 3) { Some(g) => g, None => String::new() };
    assert(out@ == crate::pattern::group_text(cv, 3));
    push_char(&mut out, '-');
    push_zero_padded(&mut out, month, 2);
    push_char(&mut out, '-');
    push_zero_padded(&mut out, day, 2);
    assert(out@ =~= crate::pattern::group_text(cv, 3) + seq!['-'] + zero_padded(month as nat, 2) + seq!['-'] + zero_padded(day as nat, 2));
    Ok(out)
}

/// The part of the day that a span names exactly.
pub open spec fn time_of_day_name(text: Seq<char>) -> Option<Seq<char>> {
    if text == "namiddag"@ {
        Some("afternoon"@)
    } else if text == "voormiddag"@ {
        Some("morning"@)
    } else if text == "avond"@ {
        Some("evening"@)
    } else {
        None
    }
}

/// The part of the day named by the first span that names one.
pub open spec fn time_of_day_in(spans: Seq<Seq<Seq<char>>>) -> Option<Seq<char>>
    decreases spans.len(),
{
    if spans.len() == 0 {
        None
    } else {
        match time_of_day_name(lowercase(trim(node_text(spans[0])))) {
            Some(t) => Some(t),
            None => time_of_day_in(spans.drop_first()),
        }
    }
}

/// The time of day of a page, or why it has none.
pub open spec fn time_of_day_result(page: MeetingPage) -> Result<Seq<char>, Seq<char>> {
    match time_of_day_in(texts_view(page.spans@)) {
        Some(t) => Ok(t),
        None => Err("Could not extract time of day from the document"@),
    }
}

pub fn extract_time_of_day_from_document(page: &MeetingPage) -> (r: Result<String, String>)
    ensures
        res_view(r) == time_of_day_result(*page),
{
    let mut i: usize = 0;
    assert(texts_view(page.spans@).skip(0) =~= texts_view(page.spans@));
    while i < page.spans.len()
        invariant
            i <= page.spans@.len(),
            time_of_day_in(texts_view(page.spans@)) == time_of_day_in(texts_view(page.spans@).skip(i as int)),
        decreases page.spans.len() - i,
    {
        let joined = node_text_exec(&page.spans[i]);
        let t = trim_str(joined.as_str());
        let text = to_lower(t.as_str());
        proof {
            let tv = texts_view(page.spans@).skip(i as int);
            assert(tv[0] == page.spans@[i as int].deep_view());
            assert(tv.drop_first() =~= texts_view(page.spans@).skip(i + 1));
        }
        if str_eq(text.as_str(), "namiddag") {
            return Ok(owned("afternoon"));
        } else if str_eq(text.as_str(), "voormiddag") {
            return Ok(owned("morning"));
        } else if str_eq(text.as_str(), "avond") {
            return Ok(owned("evening"));
        }
        i = i + 1;
    }
    assert(texts_view(page.spans@).skip(page.spans@.len() as int) =~= Seq::<Seq<Seq<char>>>::empty());
    Err(owned("Could not extract time of day from the document"))
}

/// A node's text with line breaks read as spaces.
pub open spec fn flat_text(texts: Seq<Seq<char>>) -> Seq<char> {
    replace(node_text(texts), seq!['\n'], seq![' '])
}

pub open spec fn any_keyword(text: Seq<char>, keywords: Seq<Seq<char>>) -> bool {
    exists|k: int| 0 <= k < keywords.len() && contains(text, #[trigger] keywords[k])
}

/// The time of the last node that holds one of the keywords and a time (`{h}h{mm}`).
pub open spec fn time_in(nodes: Seq<Seq<Seq<char>>>, keywords: Seq<Seq<char>>) -> Option<Seq<char>>
    decreases nodes.len(),
{
    if nodes.len() == 0 {
        None
    } else {
        let prev = time_in(nodes.drop_last(), keywords);
        let text = flat_text(nodes.last());
        if any_keyword(text, keywords) {
            match crate::pattern::regex_captures(TIME_PATTERN@, text) {
                Some(caps) => Some(crate::pattern::group_text(caps, 1) + seq!['h'] + crate::pattern::group_text(caps, 2)),
                None => prev,
            }
        } else {
            prev
        }
    }
}

pub open spec fn keywords_view(k: Seq<&str>) -> Seq<Seq<char>> {
    k.map_values(|s: &str| s@)
}

fn any_keyword_exec(text: &str, keywords: &[&str]) -> (r: bool)
    ensures
        r == any_keyword(text@, keywords_view(keywords@)),
{
    let mut i: usize = 0;
    while i < keywords.len()
        invariant
            i <= keywords@.len(),
            forall|k: int| 0 <= k < i ==> !contains(text@, #[trigger] keywords_view(keywords@)[k]),
        decreases keywords.len() - i,
    {
        if str_contains(text, keywords[i]) {
            assert(contains(text@, keywords_view(keywords@)[i as int]));
            return true;
        }
        i = i + 1;
    }
    false
}

/// The time of the last `span` or `p` that holds one of the keywords and a time.
pub fn extract_time_from_document(page: &MeetingPage, keywords: &[&str]) -> (r: Option<String>)
    ensures
        r.deep_view() == time_in(texts_view(page.spans_and_paragraphs@), keywords_view(keywords@)),
{
    let mut last_time: Option<String> = None;
    let mut i: usize = 0;
    while i < page.spans_and_paragraphs.len()
        invariant
            i <= page.spans_and_paragraphs@.len(),
            last_time.deep_view() == time_in(texts_view(page.spans_and_paragraphs@).take(i as int), keywords_view(keywords@)),
        decreases page.spans_and_paragraphs.len() - i,
    {
        proof {
            let tv = texts_view(page.spans_and_paragraphs@);
            assert(tv.take(i + 1).drop_last() =~= tv.take(i as int));
            assert(tv.take(i + 1).last() == page.spans_and_paragraphs@[i as int].deep_view());
        }
        let joined = node_text_exec(&page.spans_and_paragraphs[i]);
        let text = replace_char_str(joined.as_str(), '\n', " ");
        proof {
            reveal_strlit(" ");
            assert(" "@ =~= seq![' ']);
        }
        if any_keyword_exec(text.as_str(), keywords) {
            match crate::pattern::re_captures(TIME_PATTERN, text.as_str()) {
                Some(caps) => {
                    let mut t = match crate::pattern::group_at(&caps, 1) { Some(g) => g, None => String::new() };
                    push_char(&mut t, 'h');
                    let m = match crate::pattern::group_at(&caps, 2) { Some(g) => g, None => String::new() };
                    push_str(&mut t, m.as_str());
                    last_time = Some(t);
                },
                None => {},
            }
        }
        i = i + 1;
    }
    assert(texts_view(page.spans_and_paragraphs@).take(page.spans_and_paragraphs@.len() as int) =~= texts_view(page.spans_and_paragraphs@));
    last_time
}

pub open spec fn start_keywords() -> Seq<Seq<char>> {
    seq![
        "De behandeling van de"@,
        "De behandeling van de vragen en de interpellatie vangt aan om"@,
        "De behandeling van de vragen en interpellaties vangt aan"@,
        "De behandeling van de vragen en van de interpellatie vangt aan om"@,
        "De openbare commissievergadering wordt geopend"@,
        "De vergadering wordt geopend"@,
        "De behandeling van de vragen vangt aan"@,
        "De gedachtewisseling vangt aan"@,
        "De behandeling van de interpellatie vangt"@,
    ]
}

pub open spec fn end_keywords() -> Seq<Seq<char>> {
    seq![
        "De openbare commissievergadering wordt gesloten"@,
        "De gedachtewisseling met de ministers eindigt"@,
        "De behandeling van de vragen eindigt"@,
        "De gedachtewisseling eindigt"@,
        "De vergadering wordt gesloten"@,
        "De behandeling van de interpellatie eindigt"@,
        "De behandeling van de interpellaties eindigt"@,
        "De behandeling van de vragen en interpellaties eindigt om"@,
    ]
}

/// The opening time of a meeting. (Commission 270 wrote `14:13 uur` with a colon.)
/// The start time of a page, or why it has none.
pub open spec fn start_time_result(page: MeetingPage) -> Result<Seq<char>, Seq<char>> {
    match time_in(texts_view(page.spans_and_paragraphs@), start_keywords()) {
        Some(t) => Ok(t),
        None => Err("Could not extract start time from the document"@),
    }
}

pub fn extract_start_time_from_document(page: &MeetingPage) -> (r: Result<String, String>)
    ensures
        res_view(r) == start_time_result(*page),
{
    let keywords: [&str; 9] = [
        "De behandeling van de",
        "De behandeling van de vragen en de interpellatie vangt aan om",
        "De behandeling van de vragen en interpellaties vangt aan",
        "De behandeling van de vragen en van de interpellatie vangt aan om",
        "De openbare commissievergadering wordt geopend",
        "De vergadering wordt geopend",
        "De behandeling van de vragen vangt aan",
        "De gedachtewisseling vangt aan",
        "De behandeling van de interpellatie vangt",
    ];
    assert(keywords_view(keywords@) =~= start_keywords());
    match extract_time_from_document(page, &keywords) {
        Some(t) => Ok(t),
        None => Err(owned("Could not extract start time from the document")),
    }
}

/// The closing time of a meeting.
/// The end time of a page, or why it has none.
pub open spec fn end_time_result(page: MeetingPage) -> Result<Seq<char>, Seq<char>> {
    match time_in(texts_view(page.spans_and_paragraphs@), end_keywords()) {
        Some(t) => Ok(t),
        None => Err("Could not extract end time from the document"@),
    }
}

pub fn extract_end_time_from_document(page: &MeetingPage) -> (r: Result<String, String>)
    ensures
        res_view(r) == end_time_result(*page),
{
    let keywords: [&str; 8] = [
        "De openbare commissievergadering wordt gesloten",
        "De gedachtewisseling met de ministers eindigt",
        "De behandeling van de vragen eindigt",
        "De gedachtewisseling eindigt",
        "De vergadering wordt gesloten",
        "De behandeling van de interpellatie eindigt",
        "De behandeling van de interpellaties eindigt",
        "De behandeling van de vragen en interpellaties eindigt om",
    ];
    assert(keywords_view(keywords@) =~= end_keywords());
    match extract_time_from_document(page, &keywords) {
        Some(t) => Ok(t),
        None => Err(owned("Could not extract end time from the document")),
    }
}

/// The commission of a meeting: the words of the first span of the first table.
/// The commission of a page, or why it has none.
pub open spec fn commission_result(page: MeetingPage) -> Result<Seq<char>, Seq<char>> {
    match page.first_table_spans {
        None => Err("No table found"@),
        Some(spans) => if spans@.len() == 0 {
            Err("No span in first table"@)
        } else {
            Ok(commission_of(join(crate::text::words(node_text(spans@[0].deep_view())), seq![' '])).name())
        },
    }
}

pub fn extract_commission_from_document(page: &MeetingPage) -> (r: Result<String, String>)
    ensures
        res_view(r) == commission_result(*page),
{
    let spans = match &page.first_table_spans {
        Some(s) => s,
        None => return Err(owned("No table found")),
    };
    if spans.len() == 0 {
        return Err(owned("No span in first table"));
    }
    let joined = node_text_exec(&spans[0]);
    let ws = words_str(joined.as_str());
    let raw = node_text_exec(&ws);
    Ok(owned(parse_commission_type(raw.as_str()).as_str()))
}

/// The names of a chair sentence: its captured part, non-breaking spaces read as spaces,
/// trimmed, split at ` en `, each piece without its titles (`de heer`, `mevrouw`, …) and
/// trimmed, the empty ones dropped.
pub open spec fn chair_names(chunk: Seq<char>) -> Seq<Seq<char>> {
    crate::text::split_on(trim(replace(chunk, seq!['\u{a0}'], seq![' '])), " en "@)
        .map_values(|p: Seq<char>| trim(regex_remove_all(CHAIR_TITLES_PATTERN@, trim(p))))
        .filter(|n: Seq<char>| n.len() > 0)
}

/// The chair named by the first `span` or `p` whose chair sentence yields names, the
/// names joined by `, `.
pub open spec fn chair_in(nodes: Seq<Seq<Seq<char>>>) -> Option<Seq<char>>
    decreases nodes.len(),
{
    if nodes.len() == 0 {
        None
    } else {
        match crate::pattern::regex_captures(CHAIR_PATTERN@, flat_text(nodes[0])) {
            Some(caps) => if chair_names(crate::pattern::group_text(caps, 1)).len() > 0 {
                Some(join(chair_names(crate::pattern::group_text(caps, 1)), ", "@))
            } else {
                chair_in(nodes.drop_first())
            },
            None => chair_in(nodes.drop_first()),
        }
    }
}

fn chair_names_exec(chunk: &str) -> (r: Vec<String>)
    ensures
        r.deep_view() == chair_names(chunk@),
{
    proof {
        reveal_strlit(" ");
        assert(" "@ =~= seq![' ']);
        reveal_strlit(" en ");
    }
    let a = replace_char_str(chunk, '\u{a0}', " ");
    let t = trim_str(a.as_str());
    let parts = crate::text::split_on_str(t.as_str(), " en ");
    let ghost mapped = parts.deep_view().map_values(|p: Seq<char>| trim(regex_remove_all(CHAIR_TITLES_PATTERN@, trim(p))));
    let ghost npred = |n: Seq<char>| n.len() > 0;
    let mut names: Vec<String> = Vec::new();
    let mut i: usize = 0;
    while i < parts.len()
        invariant
            i <= parts@.len(),
            mapped == parts.deep_view().map_values(|p: Seq<char>| trim(regex_remove_all(CHAIR_TITLES_PATTERN@, trim(p)))),
            npred == (|n: Seq<char>| n.len() > 0),
            names.deep_view() == mapped.take(i as int).filter(npred),
        decreases parts.len() - i,
    {
        proof {
            reveal(Seq::filter);
            assert(mapped.take(i + 1).drop_last() =~= mapped.take(i as int));
        }
        let p = trim_str(parts[i].as_str());
        let cleaned = re_remove_all(CHAIR_TITLES_PATTERN, p.as_str());
        let clean = trim_str(cleaned.as_str());
        if !clean.as_str().is_empty() {
            let ghost before = names.deep_view();
            names.push(clean);
            assert(names.deep_view() =~= before.push(mapped[i as int]));
        }
        i = i + 1;
    }
    assert(mapped.take(parts@.len() as int) =~= mapped);
    names
}

/// The chair of a meeting.
/// The chair of a page, or why it has none.
pub open spec fn chair_result(page: MeetingPage) -> Result<Seq<char>, Seq<char>> {
    match chair_in(texts_view(page.spans_and_paragraphs@)) {
        Some(c) => Ok(c),
        None => Err("Could not extract chair"@),
    }
}

pub fn extract_chair_from_document(page: &MeetingPage) -> (r: Result<String, String>)
    ensures
        res_view(r) == chair_result(*page),
{
    let mut i: usize = 0;
    assert(texts_view(page.spans_and_paragraphs@).skip(0) =~= texts_view(page.spans_and_paragraphs@));
    while i < page.spans_and_paragraphs.len()
        invariant
            i <= page.spans_and_paragraphs@.len(),
            chair_in(texts_view(page.spans_and_paragraphs@)) == chair_in(texts_view(page.spans_and_paragraphs@).skip(i as int)),
        decreases page.spans_and_paragraphs.len() - i,
    {
        proof {
            let tv = texts_view(page.spans_and_paragraphs@).skip(i as int);
            assert(tv[0] == page.spans_and_paragraphs@[i as int].deep_view());
            assert(tv.drop_first() =~= texts_view(page.spans_and_paragraphs@).skip(i + 1));
            reveal_strlit(" ");
            assert(" "@ =~= seq![' ']);
        }
        let joined = node_text_exec(&page.spans_and_paragraphs[i]);
        let text = replace_char_str(joined.as_str(), '\n', " ");
        match crate::pattern::re_captures(CHAIR_PATTERN, text.as_str()) {
            Some(caps) => {
                let g = match crate::pattern::group_at(&caps, 1) { Some(g) => g, None => String::new() };
                let names = chair_names_exec(g.as_str());
                if names.len() > 0 {
                    return Ok(join_strs(names.as_slice(), ", "));
                }
            },
            None => {},
        }
        i = i + 1;
    }
    assert(texts_view(page.spans_and_paragraphs@).skip(page.spans_and_paragraphs@.len() as int) =~= Seq::<Seq<Seq<char>>>::empty());
    Err(owned("Could not extract chair"))
}

// ---------------------------------------------------------------------------
// Probing for new meetings
// ---------------------------------------------------------------------------

/// What a probe of one meeting number found.
#[derive(Debug, Clone, Copy, PartialEq, Eq, Structural)]
pub enum ProbeOutcome {
    /// The meeting exists (downloaded now or cached before); whether it is a PDF report.
    Found(bool),
    NotFound,
}

/// The state of the probe loop: last meeting found, misses in a row, next number to
/// probe, and the missing numbers since the last meeting found.
pub struct FetchState {
    pub last: u32,
    pub consecutive_misses: u32,
    pub probe: u32,
    pub missing_streak: Vec<u32>,
}

/// What the probe loop does after one probe: record these numbers as not-found gaps,
/// record this number as an unsupported-format (PDF) gap, and whether to stop probing.
pub struct ProbeDecision {
    pub not_found_gaps: Vec<u32>,
    pub pdf_gap: Option<u32>,
    pub done: bool,
}

/// The probe state is consistent: the numbers between the last meeting found and the next
/// probe are exactly the missing streak, in order.
pub open spec fn fetch_state_ok(s: FetchState) -> bool {
    &&& s.last < s.probe
    &&& s.consecutive_misses == s.probe - s.last - 1
    &&& s.missing_streak@.len() == s.consecutive_misses
    &&& forall|k: int| 0 <= k < s.missing_streak@.len() ==> #[trigger] s.missing_streak@[k] == s.last + 1 + k
}

/// Probing starts right after the last known meeting.
pub fn start_fetch(current_id: u32) -> (r: FetchState)
    requires
        current_id < u32::MAX,
    ensures
        r.last == current_id,
        r.consecutive_misses == 0,
        r.probe == current_id + 1,
        r.missing_streak@.len() == 0,
        fetch_state_ok(r),
{
    FetchState { last: current_id, consecutive_misses: 0, probe: current_id + 1, missing_streak: Vec::new() }
}

/// One step of the probe loop. A found meeting turns the missing numbers before it into
/// not-found gaps (interior gaps), becomes the last meeting, and is a PDF gap when it is a
/// PDF report. A missing meeting joins the streak; two misses in a row end the loop, and
/// the misses of that final streak are never recorded as gaps.
pub fn fetch_step(state: &mut FetchState, outcome: ProbeOutcome) -> (d: ProbeDecision)
    requires
        old(state).probe < u32::MAX,
        old(state).consecutive_misses < 2,
    ensures
        final(state).probe == old(state).probe + 1,
        match outcome {
            ProbeOutcome::Found(is_pdf) => {
                &&& d.not_found_gaps@ == old(state).missing_streak@
                &&& d.pdf_gap == (if is_pdf { Some(old(state).probe) } else { None })
                &&& final(state).last == old(state).probe
                &&& final(state).consecutive_misses == 0
                &&& final(state).missing_streak@.len() == 0
                &&& !d.done
            },
            ProbeOutcome::NotFound => {
                &&& d.not_found_gaps@.len() == 0
                &&& d.pdf_gap is None
                &&& final(state).last == old(state).last
                &&& final(state).consecutive_misses == old(state).consecutive_misses + 1
                &&& final(state).missing_streak@ == old(state).missing_streak@.push(old(state).probe)
                &&& d.done == (final(state).consecutive_misses >= 2)
            },
        },
        fetch_state_ok(*old(state)) ==> fetch_state_ok(*final(state)),
        fetch_state_ok(*old(state)) ==> forall|k: int| 0 <= k < d.not_found_gaps@.len() ==>
            old(state).last < #[trigger] d.not_found_gaps@[k] < final(state).last,
{
    let probe = state.probe;
    let d = match outcome {
        ProbeOutcome::Found(is_pdf) => {
            let mut gaps: Vec<u32> = Vec::new();
            std::mem::swap(&mut gaps, &mut state.missing_streak);
            state.last = probe;
            state.consecutive_misses = 0;
            ProbeDecision { not_found_gaps: gaps, pdf_gap: if is_pdf { Some(probe) } else { None }, done: false }
        },
        ProbeOutcome::NotFound => {
            state.missing_streak.push(probe);
            state.consecutive_misses = state.consecutive_misses + 1;
            ProbeDecision { not_found_gaps: Vec::new(), pdf_gap: None, done: state.consecutive_misses >= 2 }
        },
    };
    state.probe = probe + 1;
    d
}

/// The header row of a meeting page: date, time of day, start and end time, chair and
/// commission, read in that order; the first that fails gives the error.
pub fn meeting_header(page: &MeetingPage, session_id: u32, meeting_id: u32, source_url: &str, cache_path: &str)
    -> (r: Result<ScrapedMeeting, String>)
    ensures
        match r {
            Ok(m) => {
                &&& date_result(*page) == Ok::<Seq<char>, Seq<char>>(m.date@)
                &&& time_of_day_result(*page) == Ok::<Seq<char>, Seq<char>>(m.time_of_day@)
                &&& start_time_result(*page) == Ok::<Seq<char>, Seq<char>>(m.start_time@)
                &&& end_time_result(*page) == Ok::<Seq<char>, Seq<char>>(m.end_time@)
                &&& chair_result(*page) == Ok::<Seq<char>, Seq<char>>(m.chair@)
                &&& commission_result(*page) == Ok::<Seq<char>, Seq<char>>(m.commission@)
                &&& m.session_id == session_id && m.meeting_id == meeting_id
                &&& m.source_url@ == source_url@ && m.cache_path@ == cache_path@
            },
            Err(e) => {
                ||| date_result(*page) == Err::<Seq<char>, Seq<char>>(e@)
                ||| (date_result(*page) is Ok && time_of_day_result(*page) == Err::<Seq<char>, Seq<char>>(e@))
                ||| (date_result(*page) is Ok && time_of_day_result(*page) is Ok
                    && start_time_result(*page) == Err::<Seq<char>, Seq<char>>(e@))
                ||| (date_result(*page) is Ok && time_of_day_result(*page) is Ok && start_time_result(*page) is Ok
                    && end_time_result(*page) == Err::<Seq<char>, Seq<char>>(e@))
                ||| (date_result(*page) is Ok && time_of_day_result(*page) is Ok && start_time_result(*page) is Ok
                    && end_time_result(*page) is Ok && chair_result(*page) == Err::<Seq<char>, Seq<char>>(e@))
                ||| (date_result(*page) is Ok && time_of_day_result(*page) is Ok && start_time_result(*page) is Ok
                    && end_time_result(*page) is Ok && chair_result(*page) is Ok
                    && commission_result(*page) == Err::<Seq<char>, Seq<char>>(e@))
            },
        },
{
    let date = extract_date_from_document(page)?;
    let time_of_day = extract_time_of_day_from_document(page)?;
    let start_time = extract_start_time_from_document(page)?;
    let end_time = extract_end_time_from_document(page)?;
    let chair = extract_chair_from_document(page)?;
    let commission = extract_commission_from_document(page)?;
    Ok(ScrapedMeeting {
        session_id,
        meeting_id,
        date,
        time_of_day,
        start_time,
        end_time,
        commission,
        chair,
        source_url: owned(source_url),
        cache_path: owned(cache_path),
    })
}

/// Whether a downloaded meeting report is a PDF: its bytes start with `%PDF`, or its content
/// type, lower-cased, mentions `application/pdf`.
pub fn is_pdf_response(bytes: &[u8], content_type: &str) -> (r: bool)
    ensures
        r == ((bytes@.len() >= 4 && bytes@.take(4) == seq![0x25u8, 0x50u8, 0x44u8, 0x46u8])
            || contains(crate::utils::ascii_lower(content_type@), "application/pdf"@)),
{
    crate::cache_meta::looks_like_pdf(bytes)
        || str_contains(crate::utils::to_ascii_lower(content_type).as_str(), "application/pdf")
}

/// What the parse pass does with one meeting number.
#[derive(Debug, Clone, Copy, PartialEq, Eq, Structural)]
pub enum MeetingDisposition {
    /// A known gap: record its manifest row and go on.
    KnownGap,
    /// The cached report is a PDF: record it as an unsupported-format gap and go on.
    PdfGap,
    /// The cached report is missing and no gap explains it: abort.
    MissingCache,
    /// Parse the cached report.
    Parse,
}

/// The disposition of a meeting: a recorded `not_found` gap is kept; a cached report is
/// parsed, or recorded as a gap when it is a PDF; without a cached report a recorded
/// `unsupported_format` gap is kept, and anything else is a missing cache.
pub fn meeting_disposition(gap_reason: Option<&str>, cache_exists: bool, is_pdf: bool) -> (r: MeetingDisposition)
    ensures
        r == (if gap_reason matches Some(g) && g@ == crate::meeting_gaps::GAP_REASON_NOT_FOUND@ {
            MeetingDisposition::KnownGap
        } else if cache_exists {
            if is_pdf { MeetingDisposition::PdfGap } else { MeetingDisposition::Parse }
        } else if gap_reason matches Some(g) && g@ == GAP_REASON_UNSUPPORTED_FORMAT@ {
            MeetingDisposition::KnownGap
        } else {
            MeetingDisposition::MissingCache
        }),
{
    let not_found = match gap_reason {
        Some(g) => str_eq(g, crate::meeting_gaps::GAP_REASON_NOT_FOUND),
        None => false,
    };
    if not_found {
        return MeetingDisposition::KnownGap;
    }
    if cache_exists {
        return if is_pdf { MeetingDisposition::PdfGap } else { MeetingDisposition::Parse };
    }
    let unsupported = match gap_reason {
        Some(g) => str_eq(g, GAP_REASON_UNSUPPORTED_FORMAT),
        None => false,
    };
    if unsupported { MeetingDisposition::KnownGap } else { MeetingDisposition::MissingCache }
}

} // verus!
