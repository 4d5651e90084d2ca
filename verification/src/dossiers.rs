//! Parliamentary dossiers (FLWB): identifiers, discovery pages, document classification and
//! recheck cadence.
use vstd::prelude::*;
use chrono::Datelike;
use crate::freshness::{days_from_civil, days_from_civil_spec};
use crate::source_manifest::{SourceManifestRow, MANIFEST_STATUS_NOT_FOUND, MANIFEST_STATUS_PARSED};
use crate::pattern::{group, group_at, group_text, re_captures, re_captures_all, regex_captures, regex_captures_all};
use crate::text::{
    contains, decimal, join, join_strs, lowercase, owned, parse_u32, parse_u32_str, push_char, push_decimal,
    push_str, replace, replace_char_str, replace_str, seq_less, split, split_str, str_contains, str_eq, str_less,
    strip_leading, strip_leading_str, strings_contain, to_lower, to_upper, trim, trim_str, uppercase, words,
    words_str, lemma_seq_less_asym, lemma_seq_less_irrefl, lemma_seq_less_not_less_trans, lemma_seq_less_total,
    lemma_seq_less_trans,
};

verus! {

pub const DEKAMER_BASE: &'static str = "https://www.dekamer.be";
pub const SESSION_ID: u32 = 56;
pub const SOURCE_NAME: &'static str = "dossiers";
pub const DEFAULT_RECHECK_DAYS: i64 = 7;
pub const ACTIVE_RECHECK_DAYS: i64 = 1;
pub const SETTLED_RECHECK_DAYS: i64 = 90;

/// A link to a range page of the dossier list: `ListFromTo.cfm?legislat=…&from=…&to=…`.
pub const LIST_FROM_TO_PATTERN: &'static str = r"(?i)ListFromTo\.cfm\?legislat=(\d+)&from=(\d+)&to=(\d+)";
/// A link to a dossier page: `flwbn.cfm…dossierID=…`.
pub const FLWB_DOSSIER_ID_PATTERN: &'static str = r#"(?i)flwbn\.cfm[^"'<>]*dossierID=(\d+)"#;
/// The document id at the end of a dossier PDF link: `/56K1243002.pdf`.
pub const FLWB_DOCUMENT_ID_PATTERN: &'static str = r"(?i)/(\d{2}K\d{7})\.pdf(?:[?#].*)?$";

/// The status of a document which is linked to a dossier.
#[derive(Debug, Clone, Copy, PartialEq, Eq, Structural)]
pub enum DocumentStatus {
    Aangenomen,
    HangendKamer,
    Verworpen,
    ZonderVoorwerp,
    Onbekend,
}

impl DocumentStatus {
    /// The status as the dossier rows carry it (its variant name).
    pub open spec fn name(self) -> Seq<char> {
        match self {
            DocumentStatus::Aangenomen => "Aangenomen"@,
            DocumentStatus::HangendKamer => "HangendKamer"@,
            DocumentStatus::Verworpen => "Verworpen"@,
            DocumentStatus::ZonderVoorwerp => "ZonderVoorwerp"@,
            DocumentStatus::Onbekend => "Onbekend"@,
        }
    }

    pub fn as_str(self) -> (r: &'static str)
        ensures
            r@ == self.name(),
    {
        match self {
            DocumentStatus::Aangenomen => "Aangenomen",
            DocumentStatus::HangendKamer => "HangendKamer",
            DocumentStatus::Verworpen => "Verworpen",
            DocumentStatus::ZonderVoorwerp => "ZonderVoorwerp",
            DocumentStatus::Onbekend => "Onbekend",
        }
    }
}

/// The type of a document which is linked to a dossier.
#[derive(Debug, Clone, Copy, PartialEq, Eq, Structural)]
pub enum DocumentType {
    AangenomenMotie,
    AangenomenTekst,
    AanvullendVerslag,
    Advies,
    AdviesVanDeRaadVanState,
    Amendement,
    ArtikelenAangenomenInPlenum,
    ArtikelenBijEersteStemmingAangenomen,
    ArtikelenInTweedeLezingAangenomen,
    Begroting,
    Bijlage,
    Errata,
    Kaft,
    Naturalisatielijsten,
    NietGeevoceerdOntwerp,
    OpmerkingenVanHetRekenhof,
    OvergezondenOntwerp,
    TabellenOfLijsten,
    Verantwoording,
    Verslag,
    VerslagVerwijzend,
    VoorstelOnderzoekscommissie,
    VoorstelReglement,
    VoorstelTotHerziening,
    VoorstelVanResolutie,
    VoorstelVanMotie,
    VoorstelVanNaturalisatieAkte,
    VoorstelVanVerklaring,
    WetsOntwerp,
    WetsVoorstel,
    Onbekend,
}

impl DocumentType {
    /// The type as the dossier rows carry it (its variant name).
    pub open spec fn name(self) -> Seq<char> {
        match self {
            DocumentType::AangenomenMotie => "AangenomenMotie"@,
            DocumentType::AangenomenTekst => "AangenomenTekst"@,
            DocumentType::AanvullendVerslag => "AanvullendVerslag"@,
            DocumentType::Advies => "Advies"@,
            DocumentType::AdviesVanDeRaadVanState => "AdviesVanDeRaadVanState"@,
            DocumentType::Amendement => "Amendement"@,
            DocumentType::ArtikelenAangenomenInPlenum => "ArtikelenAangenomenInPlenum"@,
            DocumentType::ArtikelenBijEersteStemmingAangenomen => "ArtikelenBijEersteStemmingAangenomen"@,
            DocumentType::ArtikelenInTweedeLezingAangenomen => "ArtikelenInTweedeLezingAangenomen"@,
            DocumentType::Begroting => "Begroting"@,
            DocumentType::Bijlage => "Bijlage"@,
            DocumentType::Errata => "Errata"@,
            DocumentType::Kaft => "Kaft"@,
            DocumentType::Naturalisatielijsten => "Naturalisatielijsten"@,
            DocumentType::NietGeevoceerdOntwerp => "NietGeevoceerdOntwerp"@,
            DocumentType::OpmerkingenVanHetRekenhof => "OpmerkingenVanHetRekenhof"@,
            DocumentType::OvergezondenOntwerp => "OvergezondenOntwerp"@,
            DocumentType::TabellenOfLijsten => "TabellenOfLijsten"@,
            DocumentType::Verantwoording => "Verantwoording"@,
            DocumentType::Verslag => "Verslag"@,
            DocumentType::VerslagVerwijzend => "VerslagVerwijzend"@,
            DocumentType::VoorstelOnderzoekscommissie => "VoorstelOnderzoekscommissie"@,
            DocumentType::VoorstelReglement => "VoorstelReglement"@,
            DocumentType::VoorstelTotHerziening => "VoorstelTotHerziening"@,
            DocumentType::VoorstelVanResolutie => "VoorstelVanResolutie"@,
            DocumentType::VoorstelVanMotie => "VoorstelVanMotie"@,
            DocumentType::VoorstelVanNaturalisatieAkte => "VoorstelVanNaturalisatieAkte"@,
            DocumentType::VoorstelVanVerklaring => "VoorstelVanVerklaring"@,
            DocumentType::WetsOntwerp => "WetsOntwerp"@,
            DocumentType::WetsVoorstel => "WetsVoorstel"@,
            DocumentType::Onbekend => "Onbekend"@,
        }
    }

    pub fn as_str(self) -> (r: &'static str)
        ensures
            r@ == self.name(),
    {
        match self {
            DocumentType::AangenomenMotie => "AangenomenMotie",
            DocumentType::AangenomenTekst => "AangenomenTekst",
            DocumentType::AanvullendVerslag => "AanvullendVerslag",
            DocumentType::Advies => "Advies",
            DocumentType::AdviesVanDeRaadVanState => "AdviesVanDeRaadVanState",
            DocumentType::Amendement => "Amendement",
            DocumentType::ArtikelenAangenomenInPlenum => "ArtikelenAangenomenInPlenum",
            DocumentType::ArtikelenBijEersteStemmingAangenomen => "ArtikelenBijEersteStemmingAangenomen",
            DocumentType::ArtikelenInTweedeLezingAangenomen => "ArtikelenInTweedeLezingAangenomen",
            DocumentType::Begroting => "Begroting",
            DocumentType::Bijlage => "Bijlage",
            DocumentType::Errata => "Errata",
            DocumentType::Kaft => "Kaft",
            DocumentType::Naturalisatielijsten => "Naturalisatielijsten",
            DocumentType::NietGeevoceerdOntwerp => "NietGeevoceerdOntwerp",
            DocumentType::OpmerkingenVanHetRekenhof => "OpmerkingenVanHetRekenhof",
            DocumentType::OvergezondenOntwerp => "OvergezondenOntwerp",
            DocumentType::TabellenOfLijsten => "TabellenOfLijsten",
            DocumentType::Verantwoording => "Verantwoording",
            DocumentType::Verslag => "Verslag",
            DocumentType::VerslagVerwijzend => "VerslagVerwijzend",
            DocumentType::VoorstelOnderzoekscommissie => "VoorstelOnderzoekscommissie",
            DocumentType::VoorstelReglement => "VoorstelReglement",
            DocumentType::VoorstelTotHerziening => "VoorstelTotHerziening",
            DocumentType::VoorstelVanResolutie => "VoorstelVanResolutie",
            DocumentType::VoorstelVanMotie => "VoorstelVanMotie",
            DocumentType::VoorstelVanNaturalisatieAkte => "VoorstelVanNaturalisatieAkte",
            DocumentType::VoorstelVanVerklaring => "VoorstelVanVerklaring",
            DocumentType::WetsOntwerp => "WetsOntwerp",
            DocumentType::WetsVoorstel => "WetsVoorstel",
            DocumentType::Onbekend => "Onbekend",
        }
    }
}

/// The status that a status text names: the first of its keywords in the lower-cased,
/// trimmed text.
pub open spec fn document_status_of(raw: Seq<char>) -> DocumentStatus {
    let r = lowercase(trim(raw));
    if contains(r, "aangenomen"@) {
        DocumentStatus::Aangenomen
    } else if contains(r, "verworpen"@) {
        DocumentStatus::Verworpen
    } else if contains(r, "zonder voorwerp"@) {
        DocumentStatus::ZonderVoorwerp
    } else if contains(r, "hangend"@) {
        DocumentStatus::HangendKamer
    } else {
        DocumentStatus::Onbekend
    }
}

/// Parse the document status from the given raw text.
pub fn parse_document_status(raw: &str) -> (r: DocumentStatus)
    ensures
        r == document_status_of(raw@),
{
    let t = trim_str(raw);
    let l = to_lower(t.as_str());
    let r = l.as_str();
    if str_contains(r, "aangenomen") {
        DocumentStatus::Aangenomen
    } else if str_contains(r, "verworpen") {
        DocumentStatus::Verworpen
    } else if str_contains(r, "zonder voorwerp") {
        DocumentStatus::ZonderVoorwerp
    } else if str_contains(r, "hangend") {
        DocumentStatus::HangendKamer
    } else {
        DocumentStatus::Onbekend
    }
}

/// The type that a type text names: the first of its keywords, in this order, in the
/// lower-cased, trimmed text.
pub open spec fn document_type_of(raw: Seq<char>) -> DocumentType {
    let r = lowercase(trim(raw));
    if contains(r, "voorstel van resolutie"@) { DocumentType::VoorstelVanResolutie }
    else if contains(r, "aanvullend verslag"@) { DocumentType::AanvullendVerslag }
    else if contains(r, "amendement"@) { DocumentType::Amendement }
    else if contains(r, "voorstel tot herziening"@) { DocumentType::VoorstelTotHerziening }
    else if contains(r, "wetsvoorstel"@) { DocumentType::WetsVoorstel }
    else if contains(r, "wetsontwerp"@) { DocumentType::WetsOntwerp }
    else if contains(r, "tabellen of lijsten"@) { DocumentType::TabellenOfLijsten }
    else if contains(r, "verantwoording"@) { DocumentType::Verantwoording }
    else if contains(r, "overgezonden ontwerp"@) { DocumentType::OvergezondenOntwerp }
    else if contains(r, "verslag (verwijzend)"@) { DocumentType::VerslagVerwijzend }
    else if contains(r, "bijlage"@) { DocumentType::Bijlage }
    else if contains(r, "opmerkingen van het rekenhof"@) { DocumentType::OpmerkingenVanHetRekenhof }
    else if contains(r, "verslag"@) { DocumentType::Verslag }
    else if contains(r, "advies van de raad van state"@) { DocumentType::AdviesVanDeRaadVanState }
    else if contains(r, "motie aangenomen"@) { DocumentType::AangenomenMotie }
    else if contains(r, "voorstel van motie"@) { DocumentType::VoorstelVanMotie }
    else if contains(r, "voorstel van naturalisatieakte"@) { DocumentType::VoorstelVanNaturalisatieAkte }
    else if contains(r, "voorstel van verklaring"@) { DocumentType::VoorstelVanVerklaring }
    else if contains(r, "aangenomen tekst"@) { DocumentType::AangenomenTekst }
    else if contains(r, "advies"@) { DocumentType::Advies }
    else if contains(r, "voorstel onderzoekscommissie"@) { DocumentType::VoorstelOnderzoekscommissie }
    else if contains(r, "voorstel reglement"@) { DocumentType::VoorstelReglement }
    else if contains(r, "artikelen bij 1e stemming aangenomen"@) { DocumentType::ArtikelenBijEersteStemmingAangenomen }
    else if contains(r, "artikelen aangenomen in plenum"@) { DocumentType::ArtikelenAangenomenInPlenum }
    else if contains(r, "artikelen in 2e lezing aangenomen"@) { DocumentType::ArtikelenInTweedeLezingAangenomen }
    else if contains(r, "errata"@) { DocumentType::Errata }
    else if contains(r, "begroting"@) { DocumentType::Begroting }
    else if contains(r, "niet-geevoceerd ontwerp"@) { DocumentType::NietGeevoceerdOntwerp }
    else if contains(r, "kaft"@) { DocumentType::Kaft }
    else if contains(r, "naturalisatielijsten"@) { DocumentType::Naturalisatielijsten }
    else { DocumentType::Onbekend }
}

/// Parse the document type from the given raw text.
pub fn parse_document_type(raw: &str) -> (r: DocumentType)
    ensures
        r == document_type_of(raw@),
{
    let t = trim_str(raw);
    let l = to_lower(t.as_str());
    let r = l.as_str();
    if str_contains(r, "voorstel van resolutie") { DocumentType::VoorstelVanResolutie }
    else if str_contains(r, "aanvullend verslag") { DocumentType::AanvullendVerslag }
    else if str_contains(r, "amendement") { DocumentType::Amendement }
    else if str_contains(r, "voorstel tot herziening") { DocumentType::VoorstelTotHerziening }
    else if str_contains(r, "wetsvoorstel") { DocumentType::WetsVoorstel }
    else if str_contains(r, "wetsontwerp") { DocumentType::WetsOntwerp }
    else if str_contains(r, "tabellen of lijsten") { DocumentType::TabellenOfLijsten }
    else if str_contains(r, "verantwoording") { DocumentType::Verantwoording }
    else if str_contains(r, "overgezonden ontwerp") { DocumentType::OvergezondenOntwerp }
    else if str_contains(r, "verslag (verwijzend)") { DocumentType::VerslagVerwijzend }
    else if str_contains(r, "bijlage") { DocumentType::Bijlage }
    else if str_contains(r, "opmerkingen van het rekenhof") { DocumentType::OpmerkingenVanHetRekenhof }
    else if str_contains(r, "verslag") { DocumentType::Verslag }
    else if str_contains(r, "advies van de raad van state") { DocumentType::AdviesVanDeRaadVanState }
    else if str_contains(r, "motie aangenomen") { DocumentType::AangenomenMotie }
    else if str_contains(r, "voorstel van motie") { DocumentType::VoorstelVanMotie }
    else if str_contains(r, "voorstel van naturalisatieakte") { DocumentType::VoorstelVanNaturalisatieAkte }
    else if str_contains(r, "voorstel van verklaring") { DocumentType::VoorstelVanVerklaring }
    else if str_contains(r, "aangenomen tekst") { DocumentType::AangenomenTekst }
    else if str_contains(r, "advies") { DocumentType::Advies }
    else if str_contains(r, "voorstel onderzoekscommissie") { DocumentType::VoorstelOnderzoekscommissie }
    else if str_contains(r, "voorstel reglement") { DocumentType::VoorstelReglement }
    else if str_contains(r, "artikelen bij 1e stemming aangenomen") { DocumentType::ArtikelenBijEersteStemmingAangenomen }
    else if str_contains(r, "artikelen aangenomen in plenum") { DocumentType::ArtikelenAangenomenInPlenum }
    else if str_contains(r, "artikelen in 2e lezing aangenomen") { DocumentType::ArtikelenInTweedeLezingAangenomen }
    else if str_contains(r, "errata") { DocumentType::Errata }
    else if str_contains(r, "begroting") { DocumentType::Begroting }
    else if str_contains(r, "niet-geevoceerd ontwerp") { DocumentType::NietGeevoceerdOntwerp }
    else if str_contains(r, "kaft") { DocumentType::Kaft }
    else if str_contains(r, "naturalisatielijsten") { DocumentType::Naturalisatielijsten }
    else { DocumentType::Onbekend }
}

/// A dossier id without surrounding blanks and leading zeros; `0` when nothing is left.
pub open spec fn normalized_dossier_id(raw: Seq<char>) -> Seq<char> {
    if strip_leading(trim(raw), '0').len() == 0 { seq!['0'] } else { strip_leading(trim(raw), '0') }
}

pub fn normalize_dossier_id(raw: &str) -> (r: String)
    ensures
        r@ == normalized_dossier_id(raw@),
{
    let t = trim_str(raw);
    let s = strip_leading_str(t.as_str(), '0');
    if s.as_str().is_empty() {
        let mut z = String::new();
        push_char(&mut z, '0');
        z
    } else {
        s
    }
}

/// `&amp;` read as `&`.
pub open spec fn decoded_entities(raw: Seq<char>) -> Seq<char> {
    replace(raw, "&amp;"@, "&"@)
}

pub fn decode_html_entities(raw: &str) -> (r: String)
    ensures
        r@ == decoded_entities(raw@),
{
    proof {
        reveal_strlit("&amp;");
    }
    replace_str(raw, "&amp;", "&")
}

/// The dossier list URL of one range.
pub open spec fn range_url(session_id: u32, from: Seq<char>, to: Seq<char>) -> Seq<char> {
    DEKAMER_BASE@ + "/kvvcr/showpage.cfm?section=/flwb&language=nl&cfm=ListFromTo.cfm?legislat="@
        + decimal(session_id as nat) + "&from="@ + from + "&to="@ + to
}

/// The range URLs of a list page, for the given session, in order of first appearance,
/// once each.
pub open spec fn range_urls_fold(all: Seq<Seq<Option<Seq<char>>>>, session_id: u32) -> Seq<Seq<char>>
    decreases all.len(),
{
    if all.len() == 0 {
        Seq::empty()
    } else {
        let prev = range_urls_fold(all.drop_last(), session_id);
        let caps = all.last();
        let legislat = match parse_u32(group_text(caps, 1)) {
            Some(v) => v,
            None => 0u32,
        };
        if legislat != session_id {
            prev
        } else {
            let url = range_url(session_id, group_text(caps, 2), group_text(caps, 3));
            if prev.contains(url) { prev } else { prev.push(url) }
        }
    }
}

/// The range pages that a dossier list page links to, for the given session.
pub fn extract_list_from_to_urls(html: &str, session_id: u32) -> (r: Vec<String>)
    ensures
        r.deep_view() == range_urls_fold(regex_captures_all(LIST_FROM_TO_PATTERN@, decoded_entities(html@)), session_id),
{
    let decoded = decode_html_entities(html);
    let all = re_captures_all(LIST_FROM_TO_PATTERN, decoded.as_str());
    let mut urls: Vec<String> = Vec::new();
    let mut i: usize = 0;
    while i < all.len()
        invariant
            i <= all@.len(),
            all.deep_view() == regex_captures_all(LIST_FROM_TO_PATTERN@, decoded_entities(html@)),
            urls.deep_view() == range_urls_fold(all.deep_view().take(i as int), session_id),
        decreases all.len() - i,
    {
        let caps = &all[i];
        proof {
            assert(all.deep_view().take(i + 1).drop_last() =~= all.deep_view().take(i as int));
            assert(all.deep_view().take(i + 1).last() == caps.deep_view());
        }
        let l = match group_at(caps, 1) { Some(g) => g, None => String::new() };
        let legislat: u32 = match parse_u32_str(l.as_str()) { Some(v) => v, None => 0 };
        if legislat == session_id {
            let from = match group_at(caps, 2) { Some(g) => g, None => String::new() };
            let to = match group_at(caps, 3) { Some(g) => g, None => String::new() };
            let mut url = owned(DEKAMER_BASE);
            push_str(&mut url, "/kvvcr/showpage.cfm?section=/flwb&language=nl&cfm=ListFromTo.cfm?legislat=");
            push_decimal(&mut url, session_id as u64);
            push_str(&mut url, "&from=");
            push_str(&mut url, from.as_str());
            push_str(&mut url, "&to=");
            push_str(&mut url, to.as_str());
            if !strings_contain(&urls, url.as_str()) {
                let ghost before = urls.deep_view();
                urls.push(url);
                assert(urls.deep_view() =~= before.push(url@));
            }
        }
        i = i + 1;
    }
    assert(all.deep_view().take(all@.len() as int) =~= all.deep_view());
    urls
}

/// The dossier ids of a range page, normalized, in order of first appearance, once each.
pub open spec fn dossier_ids_fold(all: Seq<Seq<Option<Seq<char>>>>) -> Seq<Seq<char>>
    decreases all.len(),
{
    if all.len() == 0 {
        Seq::empty()
    } else {
        let prev = dossier_ids_fold(all.drop_last());
        let id = normalized_dossier_id(group_text(all.last(), 1));
        if prev.contains(id) { prev } else { prev.push(id) }
    }
}

/// The dossiers that a range page links to.
pub fn extract_flwb_dossier_ids(html: &str) -> (r: Vec<String>)
    ensures
        r.deep_view() == dossier_ids_fold(regex_captures_all(FLWB_DOSSIER_ID_PATTERN@, decoded_entities(html@))),
{
    let decoded = decode_html_entities(html);
    let all = re_captures_all(FLWB_DOSSIER_ID_PATTERN, decoded.as_str());
    let mut ids: Vec<String> = Vec::new();
    let mut i: usize = 0;
    while i < all.len()
        invariant
            i <= all@.len(),
            all.deep_view() == regex_captures_all(FLWB_DOSSIER_ID_PATTERN@, decoded_entities(html@)),
            ids.deep_view() == dossier_ids_fold(all.deep_view().take(i as int)),
        decreases all.len() - i,
    {
        let caps = &all[i];
        proof {
            assert(all.deep_view().take(i + 1).drop_last() =~= all.deep_view().take(i as int));
            assert(all.deep_view().take(i + 1).last() == caps.deep_view());
        }
        let raw = match group_at(caps, 1) { Some(g) => g, None => String::new() };
        let id = normalize_dossier_id(raw.as_str());
        if !strings_contain(&ids, id.as_str()) {
            let ghost before = ids.deep_view();
            ids.push(id);
            assert(ids.deep_view() =~= before.push(id@));
        }
        i = i + 1;
    }
    assert(all.deep_view().take(all@.len() as int) =~= all.deep_view());
    ids
}

/// `s` padded on the left with `0` to `width` characters (`{:0>width}`).
pub open spec fn left_zero_padded(s: Seq<char>, width: nat) -> Seq<char> {
    if s.len() < width { Seq::new((width - s.len()) as nat, |_i: int| '0') + s } else { s }
}

fn push_left_zero_padded(out: &mut String, s: &str, width: usize)
    ensures
        final(out)@ == old(out)@ + left_zero_padded(s@, width as nat),
{
    let n = s.unicode_len();
    assert(s@.len() == n);
    if n < width {
        let pad = width - n;
        let mut k: usize = 0;
        while k < pad
            invariant
                k <= pad,
                out@ == old(out)@ + Seq::new(k as nat, |_i: int| '0'),
            decreases pad - k,
        {
            push_char(out, '0');
            assert(Seq::new((k + 1) as nat, |_i: int| '0') =~= Seq::new(k as nat, |_i: int| '0').push('0'));
            k = k + 1;
        }
    }
    push_str(out, s);
    assert(out@ =~= old(out)@ + left_zero_padded(s@, width as nat));
}

/// The full FLWB id of a document: the id in its PDF link when the link has one, else
/// `56K` + the dossier number on four digits + the document number on three digits.
pub open spec fn canonical_document_id_spec(dossier_id: Seq<char>, document_number: Seq<char>, file_url: Option<Seq<char>>) -> Seq<char> {
    match file_url {
        Some(url) if regex_captures(FLWB_DOCUMENT_ID_PATTERN@, url) is Some =>
            uppercase(group_text(regex_captures(FLWB_DOCUMENT_ID_PATTERN@, url)->0, 1)),
        _ => "56K"@ + left_zero_padded(normalized_dossier_id(dossier_id), 4)
            + left_zero_padded(strip_leading(trim(document_number), '0'), 3),
    }
}

pub fn canonical_document_id(dossier_id: &str, document_number: &str, file_url: Option<&str>) -> (r: String)
    ensures
        r@ == canonical_document_id_spec(dossier_id@, document_number@, match file_url { Some(u) => Some(u@), None => None }),
{
    match file_url {
        Some(url) => {
            match re_captures(FLWB_DOCUMENT_ID_PATTERN, url) {
                Some(caps) => {
                    let g = match group_at(&caps, 1) { Some(g) => g, None => String::new() };
                    return to_upper(g.as_str());
                },
                None => {},
            }
        },
        None => {},
    }
    let mut s = owned("56K");
    let nd = normalize_dossier_id(dossier_id);
    push_left_zero_padded(&mut s, nd.as_str(), 4);
    let t = trim_str(document_number);
    let num = strip_leading_str(t.as_str(), '0');
    push_left_zero_padded(&mut s, num.as_str(), 3);
    s
}

/// An author as the rows carry it: `government` for the government, else the trimmed name
/// without commas.
pub open spec fn normalized_author(name: Seq<char>) -> Seq<char> {
    let lower = lowercase(trim(name));
    if contains(lower, "gouvernment"@) || contains(lower, "regering"@) {
        "government"@
    } else {
        replace(trim(name), seq![','], Seq::empty())
    }
}

pub fn normalize_author(name: &str) -> (r: String)
    ensures
        r@ == normalized_author(name@),
{
    let t = trim_str(name);
    let lower = to_lower(t.as_str());
    if str_contains(lower.as_str(), "gouvernment") || str_contains(lower.as_str(), "regering") {
        owned("government")
    } else {
        let r = replace_char_str(t.as_str(), ',', "");
        proof {
            reveal_strlit("");
            assert(""@ =~= Seq::<char>::empty());
        }
        r
    }
}

/// A row label: its words joined by single spaces, lower-cased.
pub open spec fn normalized_label(text: Seq<char>) -> Seq<char> {
    lowercase(join(words(text), seq![' ']))
}

pub fn normalize_label(text: String) -> (r: String)
    ensures
        r@ == normalized_label(text@),
{
    let ws = words_str(text.as_str());
    proof {
        reveal_strlit(" ");
        assert(" "@ =~= seq![' ']);
    }
    let j = join_strs(ws.as_slice(), " ");
    to_lower(j.as_str())
}

/// The dossier page URL.
pub open spec fn dossier_url_spec(session_id: u32, dossier_id: Seq<char>) -> Seq<char> {
    "https://www.dekamer.be/kvvcr/showpage.cfm?section=/flwb&language=nl&cfm=/site/wwwcfm/flwb/flwbn.cfm?lang=N&legislat="@
        + decimal(session_id as nat) + "&dossierID="@ + dossier_id
}

pub fn dossier_url(session_id: u32, dossier_id: &str) -> (r: String)
    ensures
        r@ == dossier_url_spec(session_id, dossier_id@),
{
    let mut s = owned("https://www.dekamer.be/kvvcr/showpage.cfm?section=/flwb&language=nl&cfm=/site/wwwcfm/flwb/flwbn.cfm?lang=N&legislat=");
    push_decimal(&mut s, session_id as u64);
    push_str(&mut s, "&dossierID=");
    push_str(&mut s, dossier_id);
    s
}

// ---------------------------------------------------------------------------
// Dates
// ---------------------------------------------------------------------------

/// The calendar date (year, month, day) that `NaiveDate::parse_from_str(s, "%d/%m/%Y")`
/// reads from `s`; `None` when it reads none.
pub uninterp spec fn dmy_date(s: Seq<char>) -> Option<(int, int, int)>;

/// The calendar date that `NaiveDate::parse_from_str(s, "%Y-%m-%d")` reads from `s`.
pub uninterp spec fn ymd_date(s: Seq<char>) -> Option<(int, int, int)>;

/// A date that `chrono` can hold: months 1–12, days 1–31, years −262143 to 262142.
pub open spec fn chrono_date(y: int, m: int, d: int) -> bool {
    &&& 1 <= m <= 12
    &&& 1 <= d <= 31
    &&& -262143 <= y <= 262142
}

/// `NaiveDate::parse_from_str(s, "%d/%m/%Y")`, as year, month and day.
#[verifier::external_body]
fn parse_dmy(s: &str) -> (r: Option<(i32, u32, u32)>)
    ensures
        match r {
            Some((y, m, d)) => dmy_date(s@) == Some((y as int, m as int, d as int)) && chrono_date(y as int, m as int, d as int),
            None => dmy_date(s@) is None,
        },
{
    chrono::NaiveDate::parse_from_str(s, "%d/%m/%Y").ok().map(|d| (d.year(), d.month(), d.day()))
}

/// `NaiveDate::parse_from_str(s, "%Y-%m-%d")`, as year, month and day.
#[verifier::external_body]
fn parse_ymd(s: &str) -> (r: Option<(i32, u32, u32)>)
    ensures
        match r {
            Some((y, m, d)) => ymd_date(s@) == Some((y as int, m as int, d as int)) && chrono_date(y as int, m as int, d as int),
            None => ymd_date(s@) is None,
        },
{
    chrono::NaiveDate::parse_from_str(s, "%Y-%m-%d").ok().map(|d| (d.year(), d.month(), d.day()))
}

/// `Local::now().naive_local().date()`: today in the machine's time zone, as year, month
/// and day. Which day it is depends on the clock and the time zone; only that it is a date
/// `chrono` can hold is stated.
#[verifier::external_body]
fn today_local() -> (r: (i32, u32, u32))
    ensures
        chrono_date(r.0 as int, r.1 as int, r.2 as int),
{
    let d = chrono::Local::now().naive_local().date();
    (d.year(), d.month(), d.day())
}

/// `{:0width}` of a natural number.
pub open spec fn zero_pad(n: nat, width: nat) -> Seq<char> {
    if decimal(n).len() < width { Seq::new((width - decimal(n).len()) as nat, |_i: int| '0') + decimal(n) } else { decimal(n) }
}

/// `%Y-%m-%d` as `chrono` formats it: years 0–9999 on four digits, others signed.
pub open spec fn iso_date(y: int, m: int, d: int) -> Seq<char> {
    (if 0 <= y <= 9999 {
        zero_pad(y as nat, 4)
    } else if y < 0 {
        seq!['-'] + zero_pad((-y) as nat, 4)
    } else {
        seq!['+'] + zero_pad(y as nat, 4)
    }) + seq!['-'] + zero_pad(m as nat, 2) + seq!['-'] + zero_pad(d as nat, 2)
}

fn push_zero_pad(out: &mut String, n: u32, width: usize)
    ensures
        final(out)@ == old(out)@ + zero_pad(n as nat, width as nat),
{
    let mut digits = String::new();
    push_decimal(&mut digits, n as u64);
    let len = digits.as_str().unicode_len();
    assert(digits@.len() == len);
    if len < width {
        let pad = width - len;
        let mut k: usize = 0;
        while k < pad
            invariant
                k <= pad,
                out@ == old(out)@ + Seq::new(k as nat, |_i: int| '0'),
            decreases pad - k,
        {
            push_char(out, '0');
            assert(Seq::new((k + 1) as nat, |_i: int| '0') =~= Seq::new(k as nat, |_i: int| '0').push('0'));
            k = k + 1;
        }
    }
    push_str(out, digits.as_str());
    assert(out@ =~= old(out)@ + zero_pad(n as nat, width as nat));
}

fn format_iso_date(y: i32, m: u32, d: u32) -> (r: String)
    requires
        chrono_date(y as int, m as int, d as int),
    ensures
        r@ == iso_date(y as int, m as int, d as int),
{
    let mut s = String::new();
    if 0 <= y && y <= 9999 {
        push_zero_pad(&mut s, y as u32, 4);
    } else if y < 0 {
        push_char(&mut s, '-');
        push_zero_pad(&mut s, (-y) as u32, 4);
    } else {
        push_char(&mut s, '+');
        push_zero_pad(&mut s, y as u32, 4);
    }
    push_char(&mut s, '-');
    push_zero_pad(&mut s, m, 2);
    push_char(&mut s, '-');
    push_zero_pad(&mut s, d, 2);
    assert(s@ =~= iso_date(y as int, m as int, d as int));
    s
}

/// A `dd/mm/yyyy` date as `yyyy-mm-dd`; any other text unchanged.
pub open spec fn normalized_date(date: Seq<char>) -> Seq<char> {
    match dmy_date(trim(date)) {
        Some((y, m, d)) => iso_date(y, m, d),
        None => date,
    }
}

pub fn normalize_date(date: &str) -> (r: String)
    ensures
        r@ == normalized_date(date@),
{
    let t = trim_str(date);
    match parse_dmy(t.as_str()) {
        Some((y, m, d)) => format_iso_date(y, m, d),
        None => owned(date),
    }
}

/// Days between two dates: `later - earlier`.
pub open spec fn days_between(later: (int, int, int), earlier: (int, int, int)) -> int {
    days_from_civil_spec(later.0, later.1, later.2) - days_from_civil_spec(earlier.0, earlier.1, earlier.2)
}

fn days_between_exec(later: (i32, u32, u32), earlier: (i32, u32, u32)) -> (r: i64)
    requires
        chrono_date(later.0 as int, later.1 as int, later.2 as int),
        chrono_date(earlier.0 as int, earlier.1 as int, earlier.2 as int),
    ensures
        r == days_between((later.0 as int, later.1 as int, later.2 as int), (earlier.0 as int, earlier.1 as int, earlier.2 as int)),
{
    let a = days_from_civil(later.0 as i64, later.1 as i64, later.2 as i64);
    let b = days_from_civil(earlier.0 as i64, earlier.1 as i64, earlier.2 as i64);
    assert(-200000000 <= a <= 200000000) by (nonlinear_arith)
        requires
            a == days_from_civil_spec(later.0 as int, later.1 as int, later.2 as int),
            chrono_date(later.0 as int, later.1 as int, later.2 as int);
    assert(-200000000 <= b <= 200000000) by (nonlinear_arith)
        requires
            b == days_from_civil_spec(earlier.0 as int, earlier.1 as int, earlier.2 as int),
            chrono_date(earlier.0 as int, earlier.1 as int, earlier.2 as int);
    a - b
}

/// How many days a cached dossier may age before it is checked again, on day `today`:
/// long for a settled dossier; short when it belongs to a plenary meeting within a week of
/// today; otherwise a week.
pub open spec fn recheck_days(latest_meeting_date: Seq<char>, settled: bool, today: (int, int, int)) -> i64 {
    if settled {
        SETTLED_RECHECK_DAYS
    } else if latest_meeting_date.len() == 0 {
        DEFAULT_RECHECK_DAYS
    } else {
        match ymd_date(latest_meeting_date) {
            None => DEFAULT_RECHECK_DAYS,
            Some(md) => {
                let delta = days_between(today, md);
                if -DEFAULT_RECHECK_DAYS < delta < DEFAULT_RECHECK_DAYS { ACTIVE_RECHECK_DAYS } else { DEFAULT_RECHECK_DAYS }
            },
        }
    }
}

/// The recheck window on a given day.
pub fn recheck_max_age_days_on(latest_meeting_date: &str, settled: bool, today: (i32, u32, u32)) -> (r: i64)
    requires
        chrono_date(today.0 as int, today.1 as int, today.2 as int),
    ensures
        r == recheck_days(latest_meeting_date@, settled, (today.0 as int, today.1 as int, today.2 as int)),
{
    if settled {
        return SETTLED_RECHECK_DAYS;
    }
    if latest_meeting_date.is_empty() {
        return DEFAULT_RECHECK_DAYS;
    }
    match parse_ymd(latest_meeting_date) {
        None => DEFAULT_RECHECK_DAYS,
        Some(md) => {
            let delta = days_between_exec(today, md);
            if -DEFAULT_RECHECK_DAYS < delta && delta < DEFAULT_RECHECK_DAYS {
                ACTIVE_RECHECK_DAYS
            } else {
                DEFAULT_RECHECK_DAYS
            }
        },
    }
}

/// The recheck window today: the window of `recheck_max_age_days_on` for the machine's
/// current date.
pub fn recheck_max_age_days(latest_meeting_date: &str, settled: bool) -> (r: i64)
    ensures
        exists|y: int, m: int, d: int| chrono_date(y, m, d) && r == recheck_days(latest_meeting_date@, settled, (y, m, d)),
        settled ==> r == SETTLED_RECHECK_DAYS,
        !settled ==> (r == ACTIVE_RECHECK_DAYS || r == DEFAULT_RECHECK_DAYS),
        !settled && (latest_meeting_date@.len() == 0 || ymd_date(latest_meeting_date@) is None) ==> r == DEFAULT_RECHECK_DAYS,
{
    let today = today_local();
    let r = recheck_max_age_days_on(latest_meeting_date, settled, today);
    assert(chrono_date(today.0 as int, today.1 as int, today.2 as int)
        && r == recheck_days(latest_meeting_date@, settled, (today.0 as int, today.1 as int, today.2 as int)));
    r
}

// ---------------------------------------------------------------------------
// Sorting
// ---------------------------------------------------------------------------

/// `x` inserted into a sorted list after every element that does not sort after it.
pub open spec fn insert_sorted(s: Seq<Seq<char>>, x: Seq<char>) -> Seq<Seq<char>>
    decreases s.len(),
{
    if s.len() == 0 {
        seq![x]
    } else if seq_less(x, s.last()) {
        insert_sorted(s.drop_last(), x).push(s.last())
    } else {
        s.push(x)
    }
}

/// The strings sorted as `slice::sort` sorts them (stable, duplicates kept).
pub open spec fn sorted_strings(v: Seq<Seq<char>>) -> Seq<Seq<char>>
    decreases v.len(),
{
    if v.len() == 0 {
        Seq::empty()
    } else {
        insert_sorted(sorted_strings(v.drop_last()), v.last())
    }
}

proof fn lemma_insert_sorted_split(s: Seq<Seq<char>>, x: Seq<char>, j: int)
    requires
        0 <= j <= s.len(),
        forall|k: int| j <= k < s.len() ==> seq_less(x, #[trigger] s[k]),
        j == 0 || !seq_less(x, s[j - 1]),
    ensures
        insert_sorted(s, x) == s.take(j).push(x) + s.skip(j),
    decreases s.len(),
{
    if s.len() == 0 {
        assert(s.take(j).push(x) + s.skip(j) =~= seq![x]);
    } else if j == s.len() {
        assert(s.take(j) =~= s);
        assert(s.take(j).push(x) + s.skip(j) =~= s.push(x));
    } else {
        assert(seq_less(x, s.last()));
        lemma_insert_sorted_split(s.drop_last(), x, j);
        assert(s.drop_last().take(j) =~= s.take(j));
        assert(s.take(j).push(x) + s.skip(j) =~= (s.drop_last().take(j).push(x) + s.drop_last().skip(j)).push(s.last()));
    }
}

/// Inserts `x` into a list that `sorted_strings` produced.
fn insert_sorted_exec(out: &mut Vec<String>, x: String)
    ensures
        final(out).deep_view() == insert_sorted(old(out).deep_view(), x@),
{
    let mut j: usize = out.len();
    while j > 0
        invariant
            j <= out@.len(),
            *out == *old(out),
            forall|k: int| j <= k < out@.len() ==> seq_less(x@, #[trigger] out.deep_view()[k]),
        ensures
            j <= out@.len(),
            *out == *old(out),
            forall|k: int| j <= k < out@.len() ==> seq_less(x@, #[trigger] out.deep_view()[k]),
            j == 0 || !seq_less(x@, out.deep_view()[j - 1]),
        decreases j,
    {
        if str_less(x.as_str(), out[j - 1].as_str()) {
            j = j - 1;
        } else {
            break;
        }
    }
    proof {
        lemma_insert_sorted_split(out.deep_view(), x@, j as int);
    }
    let ghost before = out.deep_view();
    out.insert(j, x);
    assert(out.deep_view() =~= before.take(j as int).push(x@) + before.skip(j as int));
}

/// The strings sorted, duplicates kept.
pub fn sort_strings(v: &Vec<String>) -> (r: Vec<String>)
    ensures
        r.deep_view() == sorted_strings(v.deep_view()),
{
    let mut out: Vec<String> = Vec::new();
    let mut i: usize = 0;
    while i < v.len()
        invariant
            i <= v@.len(),
            out.deep_view() == sorted_strings(v.deep_view().take(i as int)),
        decreases v.len() - i,
    {
        proof {
            assert(v.deep_view().take(i + 1).drop_last() =~= v.deep_view().take(i as int));
        }
        insert_sorted_exec(&mut out, v[i].clone());
        i = i + 1;
    }
    assert(v.deep_view().take(v@.len() as int) =~= v.deep_view());
    out
}

/// The list is in the order of `seq_less`, equal strings side by side.
pub open spec fn sorted_seq(s: Seq<Seq<char>>) -> bool {
    forall|i: int, j: int| 0 <= i < j < s.len() ==> !seq_less(#[trigger] s[j], #[trigger] s[i])
}

/// Where `insert_sorted` puts `x`: after the last element that does not sort after it.
pub open spec fn insert_position(s: Seq<Seq<char>>, x: Seq<char>) -> int
    decreases s.len(),
{
    if s.len() == 0 {
        0
    } else if seq_less(x, s.last()) {
        insert_position(s.drop_last(), x)
    } else {
        s.len() as int
    }
}

/// `insert_sorted` splits the list at `insert_position`.
pub proof fn lemma_insert_position(s: Seq<Seq<char>>, x: Seq<char>)
    ensures
        0 <= insert_position(s, x) <= s.len(),
        insert_sorted(s, x) == s.take(insert_position(s, x)).push(x) + s.skip(insert_position(s, x)),
        forall|k: int| insert_position(s, x) <= k < s.len() ==> seq_less(x, #[trigger] s[k]),
        insert_position(s, x) > 0 ==> !seq_less(x, s[insert_position(s, x) - 1]),
    decreases s.len(),
{
    if s.len() == 0 {
        assert(s.take(0).push(x) + s.skip(0) =~= seq![x]);
    } else if seq_less(x, s.last()) {
        lemma_insert_position(s.drop_last(), x);
        let j = insert_position(s, x);
        assert(s.drop_last().take(j) =~= s.take(j));
        assert(s.take(j).push(x) + s.skip(j) =~= (s.drop_last().take(j).push(x) + s.drop_last().skip(j)).push(s.last()));
        assert forall|k: int| j <= k < s.len() implies seq_less(x, #[trigger] s[k]) by {
            if k < s.len() - 1 {
                assert(s[k] == s.drop_last()[k]);
            }
        }
        if j > 0 {
            assert(s[j - 1] == s.drop_last()[j - 1]);
        }
    } else {
        assert(s.take(s.len() as int) =~= s);
        assert(s.take(s.len() as int).push(x) + s.skip(s.len() as int) =~= s.push(x));
    }
}

/// In a sorted list, the insert position of `x` splits the elements that do not sort after
/// `x` from those that do.
proof fn lemma_insert_position_sorted(s: Seq<Seq<char>>, x: Seq<char>)
    requires
        sorted_seq(s),
    ensures
        forall|k: int| 0 <= k < insert_position(s, x) ==> !seq_less(x, #[trigger] s[k]),
        forall|k: int| insert_position(s, x) <= k < s.len() ==> seq_less(x, #[trigger] s[k]),
{
    lemma_insert_position(s, x);
    let j = insert_position(s, x);
    assert forall|k: int| 0 <= k < j implies !seq_less(x, #[trigger] s[k]) by {
        if k < j - 1 {
            assert(!seq_less(s[j - 1], s[k]));
            lemma_seq_less_not_less_trans(x, s[j - 1], s[k]);
        }
    }
}

/// A split point with the same property is the insert position.
proof fn lemma_insert_position_unique(s: Seq<Seq<char>>, x: Seq<char>, j: int)
    requires
        sorted_seq(s),
        0 <= j <= s.len(),
        forall|k: int| 0 <= k < j ==> !seq_less(x, #[trigger] s[k]),
        forall|k: int| j <= k < s.len() ==> seq_less(x, #[trigger] s[k]),
    ensures
        insert_position(s, x) == j,
{
    lemma_insert_position_sorted(s, x);
    let p = insert_position(s, x);
    lemma_insert_position(s, x);
    if p < j {
        assert(seq_less(x, s[p]));
        assert(!seq_less(x, s[p]));
    }
    if j < p {
        assert(seq_less(x, s[j]));
        assert(!seq_less(x, s[j]));
    }
}

/// Inserting into a sorted list keeps it sorted.
proof fn lemma_insert_sorted_keeps_order(s: Seq<Seq<char>>, x: Seq<char>)
    requires
        sorted_seq(s),
    ensures
        sorted_seq(insert_sorted(s, x)),
{
    lemma_insert_position(s, x);
    lemma_insert_position_sorted(s, x);
    let j = insert_position(s, x);
    let r = insert_sorted(s, x);
    assert forall|a: int, b: int| 0 <= a < b < r.len() implies !seq_less(#[trigger] r[b], #[trigger] r[a]) by {
        if b < j {
            assert(r[a] == s[a] && r[b] == s[b]);
        } else if b == j {
            assert(r[b] == x && r[a] == s[a]);
        } else if a < j {
            assert(r[a] == s[a] && r[b] == s[b - 1]);
            assert(seq_less(x, s[b - 1]));
            assert(!seq_less(x, s[a]));
            if seq_less(s[b - 1], s[a]) {
                lemma_seq_less_trans(x, s[b - 1], s[a]);
            }
        } else if a == j {
            assert(r[a] == x && r[b] == s[b - 1]);
            lemma_seq_less_asym(x, s[b - 1]);
        } else {
            assert(r[a] == s[a - 1] && r[b] == s[b - 1]);
        }
    }
}

proof fn lemma_sorted_strings_sorted(v: Seq<Seq<char>>)
    ensures
        sorted_seq(sorted_strings(v)),
    decreases v.len(),
{
    if v.len() > 0 {
        lemma_sorted_strings_sorted(v.drop_last());
        lemma_insert_sorted_keeps_order(sorted_strings(v.drop_last()), v.last());
    }
}

/// Inserting two strings into a sorted list gives the same list in either order.
proof fn lemma_insert_sorted_commutes(s: Seq<Seq<char>>, a: Seq<char>, b: Seq<char>)
    requires
        sorted_seq(s),
    ensures
        insert_sorted(insert_sorted(s, a), b) == insert_sorted(insert_sorted(s, b), a),
{
    if a != b {
        if seq_less(b, a) {
            lemma_insert_sorted_commutes_ordered(s, b, a);
        } else {
            lemma_seq_less_total(a, b);
            lemma_insert_sorted_commutes_ordered(s, a, b);
        }
    }
}

proof fn lemma_insert_sorted_commutes_ordered(s: Seq<Seq<char>>, a: Seq<char>, b: Seq<char>)
    requires
        sorted_seq(s),
        seq_less(a, b),
    ensures
        insert_sorted(insert_sorted(s, a), b) == insert_sorted(insert_sorted(s, b), a),
{
    lemma_insert_position(s, a);
    lemma_insert_position(s, b);
    lemma_insert_position_sorted(s, a);
    lemma_insert_position_sorted(s, b);
    let ja = insert_position(s, a);
    let jb = insert_position(s, b);
    lemma_seq_less_asym(a, b);
    // Every element that does not sort after `a` does not sort after `b` either.
    assert(ja <= jb) by {
        if jb < ja {
            assert(!seq_less(a, s[jb]));
            assert(seq_less(b, s[jb]));
            lemma_seq_less_not_less_trans(b, a, s[jb]);
        }
    }
    let s1 = insert_sorted(s, a);
    let s2 = insert_sorted(s, b);
    lemma_insert_sorted_keeps_order(s, a);
    lemma_insert_sorted_keeps_order(s, b);
    assert forall|k: int| 0 <= k < jb + 1 implies !seq_less(b, #[trigger] s1[k]) by {
        if k < ja {
            assert(s1[k] == s[k]);
        } else if k == ja {
            assert(s1[k] == a);
        } else {
            assert(s1[k] == s[k - 1]);
        }
    }
    assert forall|k: int| jb + 1 <= k < s1.len() implies seq_less(b, #[trigger] s1[k]) by {
        assert(s1[k] == s[k - 1]);
    }
    lemma_insert_position_unique(s1, b, jb + 1);
    assert forall|k: int| 0 <= k < ja implies !seq_less(a, #[trigger] s2[k]) by {
        assert(s2[k] == s[k]);
    }
    assert forall|k: int| ja <= k < s2.len() implies seq_less(a, #[trigger] s2[k]) by {
        if k < jb {
            assert(s2[k] == s[k]);
        } else if k == jb {
            assert(s2[k] == b);
        } else {
            assert(s2[k] == s[k - 1]);
        }
    }
    lemma_insert_position_unique(s2, a, ja);
    lemma_insert_position(s1, b);
    lemma_insert_position(s2, a);
    let expected = s.take(ja).push(a) + s.subrange(ja, jb).push(b) + s.skip(jb);
    assert(insert_sorted(s1, b) =~= expected);
    assert(insert_sorted(s2, a) =~= expected);
}

/// The remaining strings inserted one by one, left to right.
pub open spec fn insert_all(s: Seq<Seq<char>>, t: Seq<Seq<char>>) -> Seq<Seq<char>>
    decreases t.len(),
{
    if t.len() == 0 { s } else { insert_sorted(insert_all(s, t.drop_last()), t.last()) }
}

proof fn lemma_sorted_strings_append(x: Seq<Seq<char>>, t: Seq<Seq<char>>)
    ensures
        sorted_strings(x + t) == insert_all(sorted_strings(x), t),
    decreases t.len(),
{
    if t.len() == 0 {
        assert(x + t =~= x);
    } else {
        lemma_sorted_strings_append(x, t.drop_last());
        assert((x + t).drop_last() =~= x + t.drop_last());
        assert((x + t).last() == t.last());
    }
}

/// Sorting does not see the source order: swapping two neighbouring strings of a list
/// leaves its sorted form unchanged (so any reordering does, being a series of such swaps).
pub proof fn lemma_sorted_strings_swap(p: Seq<Seq<char>>, a: Seq<char>, b: Seq<char>, t: Seq<Seq<char>>)
    ensures
        sorted_strings(p + seq![a, b] + t) == sorted_strings(p + seq![b, a] + t),
{
    lemma_sorted_strings_sorted(p);
    lemma_insert_sorted_commutes(sorted_strings(p), a, b);
    let pab = p + seq![a, b];
    let pba = p + seq![b, a];
    assert(pab.drop_last() =~= p.push(a));
    assert(pab.drop_last().drop_last() =~= p);
    assert(pba.drop_last() =~= p.push(b));
    assert(pba.drop_last().drop_last() =~= p);
    assert(p.push(a).drop_last() =~= p);
    assert(p.push(b).drop_last() =~= p);
    assert(pab.last() == b && pba.last() == a);
    assert(p.push(a).last() == a && p.push(b).last() == b);
    assert(sorted_strings(p.push(a)) == insert_sorted(sorted_strings(p), a));
    assert(sorted_strings(p.push(b)) == insert_sorted(sorted_strings(p), b));
    assert(sorted_strings(pab) == insert_sorted(sorted_strings(p.push(a)), b));
    assert(sorted_strings(pba) == insert_sorted(sorted_strings(p.push(b)), a));
    lemma_sorted_strings_append(pab, t);
    lemma_sorted_strings_append(pba, t);
}

/// Values sorted and joined by commas.
pub fn sorted_csv(values: &Vec<String>) -> (r: String)
    ensures
        r@ == join(sorted_strings(values.deep_view()), seq![',']),
{
    let sorted = sort_strings(values);
    proof {
        reveal_strlit(",");
        assert(","@ =~= seq![',']);
    }
    join_strs(sorted.as_slice(), ",")
}

/// A comma-separated list with its items trimmed, empty ones dropped, sorted.
pub open spec fn sorted_comma_separated_spec(raw: Seq<char>) -> Seq<char> {
    join(sorted_strings(split(raw, ',').map_values(|s: Seq<char>| trim(s)).filter(|s: Seq<char>| s.len() > 0)), seq![','])
}

pub fn sorted_comma_separated(raw: &str) -> (r: String)
    ensures
        r@ == sorted_comma_separated_spec(raw@),
{
    let parts = crate::text::split_str(raw, ',');
    let ghost trimmed = parts.deep_view().map_values(|s: Seq<char>| trim(s));
    let ghost npred = |s: Seq<char>| s.len() > 0;
    let mut kept: Vec<String> = Vec::new();
    let mut i: usize = 0;
    while i < parts.len()
        invariant
            i <= parts@.len(),
            trimmed == parts.deep_view().map_values(|s: Seq<char>| trim(s)),
            npred == (|s: Seq<char>| s.len() > 0),
            kept.deep_view() == trimmed.take(i as int).filter(npred),
        decreases parts.len() - i,
    {
        proof {
            reveal(Seq::filter);
            assert(trimmed.take(i + 1).drop_last() =~= trimmed.take(i as int));
        }
        let t = trim_str(parts[i].as_str());
        if !t.as_str().is_empty() {
            let ghost before = kept.deep_view();
            kept.push(t);
            assert(kept.deep_view() =~= before.push(trimmed[i as int]));
        }
        i = i + 1;
    }
    assert(trimmed.take(parts@.len() as int) =~= trimmed);
    sorted_csv(&kept)
}

// ---------------------------------------------------------------------------
// Cache versions
// ---------------------------------------------------------------------------

/// The text after the last `/` of a path.
pub open spec fn last_component(path: Seq<char>) -> Seq<char>
    decreases path.len(),
{
    if path.len() == 0 {
        Seq::empty()
    } else if path.last() == '/' {
        Seq::empty()
    } else {
        last_component(path.drop_last()).push(path.last())
    }
}

/// A path without its trailing separators and trailing `.` components.
pub open spec fn trimmed_path(path: Seq<char>) -> Seq<char>
    decreases path.len(),
{
    if path.len() > 0 && path.last() == '/' {
        trimmed_path(path.drop_last())
    } else if path.len() >= 2 && path.last() == '.' && path[path.len() - 2] == '/' {
        trimmed_path(path.drop_last())
    } else {
        path
    }
}

/// The file name of a cache path, as `Path::file_name` reads it: its last component once
/// trailing separators and `.` components are set aside, or nothing where that component is
/// `.` or `..` or there is none.
pub open spec fn file_name_of(path: Seq<char>) -> Seq<char> {
    let n = last_component(trimmed_path(path));
    if n == seq!['.'] || n == seq!['.', '.'] {
        Seq::empty()
    } else {
        n
    }
}

fn file_name_exec(path: &str) -> (r: String)
    ensures
        r@ == file_name_of(path@),
{
    let v = crate::text::to_chars(path);
    let mut end: usize = v.len();
    assert(v@.take(end as int) =~= path@);
    while end > 0 && (v[end - 1] == '/' || (end >= 2 && v[end - 1] == '.' && v[end - 2] == '/'))
        invariant
            end <= v@.len(),
            v@ == path@,
            trimmed_path(v@.take(end as int)) == trimmed_path(path@),
        decreases end,
    {
        assert(v@.take(end as int).drop_last() =~= v@.take(end - 1));
        end = end - 1;
    }
    let ghost t = v@.take(end as int);
    assert(trimmed_path(t) == t);
    let mut start: usize = end;
    while start > 0 && v[start - 1] != '/'
        invariant
            start <= end <= v@.len(),
            v@ == path@,
            forall|k: int| start <= k < end ==> v@[k] != '/',
        decreases start,
    {
        start = start - 1;
    }
    let r = crate::text::from_char_range(&v, start, end);
    proof {
        lemma_file_name_suffix(t, start as int);
        assert(t.subrange(start as int, end as int) =~= v@.subrange(start as int, end as int));
    }
    let n = end - start;
    if (n == 1 || n == 2) && v[start] == '.' && (n == 1 || v[start + 1] == '.') {
        proof {
            assert(r@ =~= seq!['.'] || r@ =~= seq!['.', '.']);
        }
        return String::new();
    }
    proof {
        if r@ == seq!['.'] {
            assert(r@[0] == v@[start as int]);
        }
        if r@ == seq!['.', '.'] {
            assert(r@[0] == v@[start as int]);
            assert(r@[1] == v@[start + 1]);
        }
    }
    r
}

proof fn lemma_file_name_suffix(path: Seq<char>, start: int)
    requires
        0 <= start <= path.len(),
        forall|k: int| start <= k < path.len() ==> path[k] != '/',
        start == 0 || path[start - 1] == '/',
    ensures
        last_component(path) == path.subrange(start, path.len() as int),
    decreases path.len(),
{
    if path.len() == 0 {
    } else if start == path.len() {
        assert(path.subrange(start, path.len() as int) =~= Seq::<char>::empty());
    } else {
        lemma_file_name_suffix(path.drop_last(), start);
        assert(path.subrange(start, path.len() as int) =~= path.drop_last().subrange(start, path.len() - 1).push(path.last()));
    }
}

/// The candidate whose file name sorts last; of several such, the last one.
pub open spec fn newest_cache_ok(candidates: Seq<Seq<char>>, r: Option<Seq<char>>) -> bool {
    match r {
        None => candidates.len() == 0,
        Some(p) => exists|k: int| 0 <= k < candidates.len() && candidates[k] == p
            && (forall|j: int| 0 <= j < candidates.len() ==> !seq_less(file_name_of(p), file_name_of(#[trigger] candidates[j])))
            && (forall|j: int| k < j < candidates.len() ==> seq_less(file_name_of(#[trigger] candidates[j]), file_name_of(p))),
    }
}

/// Deterministically pick the newest retained dossier HTML version: the candidate path
/// whose file name sorts last (version names carry a UTC stamp).
pub fn select_newest_dossier_cache(candidates: &[String]) -> (r: Option<String>)
    ensures
        newest_cache_ok(candidates@.map_values(|c: String| c@), r.deep_view()),
{
    let ghost cv = candidates@.map_values(|c: String| c@);
    if candidates.len() == 0 {
        return None;
    }
    let mut best: usize = 0;
    let mut best_key = file_name_exec(candidates[0].as_str());
    let mut i: usize = 1;
    while i < candidates.len()
        invariant
            1 <= i <= candidates@.len(),
            best < i,
            cv == candidates@.map_values(|c: String| c@),
            best_key@ == file_name_of(cv[best as int]),
            forall|j: int| 0 <= j < i ==> !seq_less(best_key@, file_name_of(#[trigger] cv[j])),
            forall|j: int| best < j < i ==> seq_less(file_name_of(#[trigger] cv[j]), best_key@),
        decreases candidates.len() - i,
    {
        let key = file_name_exec(candidates[i].as_str());
        if !str_less(key.as_str(), best_key.as_str()) {
            proof {
                assert forall|j: int| 0 <= j < i + 1 implies !seq_less(key@, file_name_of(#[trigger] cv[j])) by {
                    if j < i {
                        lemma_seq_less_not_less_trans(key@, best_key@, file_name_of(cv[j]));
                    } else {
                        lemma_seq_less_irrefl(key@);
                    }
                }
            }
            best = i;
            best_key = key;
        } else {
            proof {
                assert(!seq_less(best_key@, key@)) by {
                    lemma_seq_less_asym(key@, best_key@);
                }
            }
        }
        i = i + 1;
    }
    let r = candidates[best].clone();
    assert(newest_cache_ok(cv, Some(r@)));
    Some(r)
}

// ---------------------------------------------------------------------------
// Dossier pages
// ---------------------------------------------------------------------------

/// An `a` element: its first text node and its `href`.
pub struct HtmlLink {
    pub first_text: Option<String>,
    pub href: Option<String>,
}

/// What the parsers read of a `td`: its text nodes, its links and the text nodes of each
/// of its `font` elements, in document order.
pub struct CellContent {
    pub texts: Vec<String>,
    pub links: Vec<HtmlLink>,
    pub fonts: Vec<Vec<String>>,
}

/// A cell of the dossier table, with the rows (`tr`, each with its `td`s) of the first
/// table nested in it, if there is one.
pub struct DossierCell {
    pub content: CellContent,
    pub nested_rows: Option<Vec<Vec<CellContent>>>,
}

/// A dossier page as plain values: the first text node of `#story h4 center`, and the
/// first `table`: `None` when the page has none, `Some(None)` when it has no `tbody`,
/// else the rows whose parent is its first `tbody`, each with its `td`s.
pub struct DossierPage {
    pub title: Option<String>,
    pub table_rows: Option<Option<Vec<Vec<DossierCell>>>>,
}

pub struct Subdocument {
    pub dossier_id: String,
    pub id: String,
    pub document_type: DocumentType,
    pub date: String,
    pub authors: Vec<String>,
    pub file_url: Option<String>,
}

/// A subdocument as plain values: dossier id, id, type, date, authors, file URL.
pub type SubView = (Seq<char>, Seq<char>, DocumentType, Seq<char>, Seq<Seq<char>>, Option<Seq<char>>);

pub open spec fn sub_view(s: Subdocument) -> SubView {
    (s.dossier_id@, s.id@, s.document_type, s.date@, s.authors.deep_view(), s.file_url.deep_view())
}

pub open spec fn subs_view(v: Seq<Subdocument>) -> Seq<SubView> {
    v.map_values(|s: Subdocument| sub_view(s))
}

/// Text nodes concatenated (`text().collect::<String>()`).
pub open spec fn concat_texts(texts: Seq<Seq<char>>) -> Seq<char> {
    join(texts, Seq::empty())
}

fn concat_texts_exec(texts: &Vec<String>) -> (r: String)
    ensures
        r@ == concat_texts(texts.deep_view()),
{
    proof {
        reveal_strlit("");
        assert(""@ =~= Seq::<char>::empty());
    }
    join_strs(texts.as_slice(), "")
}

/// A link target made absolute on the Chamber site.
pub open spec fn absolute_href(href: Seq<char>) -> Seq<char> {
    if crate::text::starts_with(href, "http"@) { href } else { DEKAMER_BASE@ + href }
}

fn absolute_href_exec(href: &str) -> (r: String)
    ensures
        r@ == absolute_href(href@),
{
    if crate::text::str_starts_with(href, "http") {
        owned(href)
    } else {
        let mut s = owned(DEKAMER_BASE);
        push_str(&mut s, href);
        s
    }
}

pub open spec fn links_hrefs(links: Seq<HtmlLink>) -> Seq<Option<Seq<char>>> {
    links.map_values(|l: HtmlLink| l.href.deep_view())
}

/// The last link of a cell whose target is a dossier PDF, made absolute.
pub open spec fn pdf_url_of(links: Seq<HtmlLink>) -> Option<Seq<char>>
    decreases links.len(),
{
    if links.len() == 0 {
        None
    } else {
        match links.last().href.deep_view() {
            Some(h) if crate::pattern::regex_is_match(FLWB_DOCUMENT_ID_PATTERN@, h) => Some(absolute_href(h)),
            _ => pdf_url_of(links.drop_last()),
        }
    }
}

fn pdf_url_from_cell(cell: &CellContent) -> (r: Option<String>)
    ensures
        r.deep_view() == pdf_url_of(cell.links@),
{
    let mut i: usize = cell.links.len();
    assert(cell.links@.take(i as int) =~= cell.links@);
    while i > 0
        invariant
            i <= cell.links@.len(),
            pdf_url_of(cell.links@) == pdf_url_of(cell.links@.take(i as int)),
        decreases i,
    {
        proof {
            assert(cell.links@.take(i as int).drop_last() =~= cell.links@.take(i - 1));
            assert(cell.links@.take(i as int).last() == cell.links@[i - 1]);
        }
        match &cell.links[i - 1].href {
            Some(h) => {
                if crate::pattern::re_is_match(FLWB_DOCUMENT_ID_PATTERN, h.as_str()) {
                    return Some(absolute_href_exec(h.as_str()));
                }
            },
            None => {},
        }
        i = i - 1;
    }
    assert(cell.links@.take(0) =~= Seq::<HtmlLink>::empty());
    None
}

/// Subdocument parse: id, type, date, authors, file URL, reading authors, complete, and the
/// subdocuments emitted so far.
pub type SubState = (Seq<char>, DocumentType, Seq<char>, Seq<Seq<char>>, Option<Seq<char>>, bool, bool, Seq<SubView>);

/// The subdocument that the state holds, under its canonical id.
pub open spec fn emitted(dossier_id: Seq<char>, st: SubState) -> SubView {
    (dossier_id, canonical_document_id_spec(dossier_id, st.0, st.4), st.1, st.2, st.3, st.4)
}

/// The number of a subdocument header cell: the first text of its last link, else its first
/// word, without leading zeros; unchanged when it has neither.
pub open spec fn header_number(c1: CellContent, current: Seq<char>) -> Seq<char> {
    if current.len() > 0 {
        current
    } else if c1.links@.len() > 0 {
        match c1.links@.last().first_text.deep_view() {
            Some(t) => strip_leading(trim(t), '0'),
            None => current,
        }
    } else if words(concat_texts(c1.texts.deep_view())).len() > 0 {
        strip_leading(trim(words(concat_texts(c1.texts.deep_view()))[0]), '0')
    } else {
        current
    }
}

/// One row of the nested subdocument table. A row with fewer than two cells separates
/// subdocuments: a complete one is emitted and the fields start afresh (the type carries
/// over). Otherwise the row may set the number, the type and file URL (from a `font`), the
/// unavailable marker, the date, the start of the author rows, and one author.
pub open spec fn sub_step(dossier_id: Seq<char>, st: SubState, row: Seq<CellContent>) -> SubState {
    if row.len() < 2 {
        if st.6 {
            (Seq::empty(), st.1, Seq::empty(), Seq::empty(), None, false, false, st.7.push(emitted(dossier_id, st)))
        } else {
            st
        }
    } else {
        let c1 = row[0];
        let c2 = row[1];
        let c1_text = concat_texts(c1.texts.deep_view());
        let label = trim(lowercase(c1_text));
        let value = trim(lowercase(concat_texts(c2.texts.deep_view())));
        let id = header_number(c1, st.0);
        let ty = if c2.fonts@.len() > 0 { document_type_of(trim(concat_texts(c2.fonts@[0].deep_view()))) } else { st.1 };
        let url1 = if c2.fonts@.len() > 0 && pdf_url_of(c1.links@) is Some { pdf_url_of(c1.links@) } else { st.4 };
        let url = if contains(lowercase(c1_text), "niet beschikbaar"@) { Some("NIET_BESCHIKBAAR"@) } else { url1 };
        let date = if contains(label, "datum ronddeling"@) { normalized_date(value) } else { st.2 };
        let parsing = st.5 || contains(label, "auteur(s)"@);
        let authors = if parsing && c2.links@.len() > 0 && c2.links@[0].first_text is Some {
            st.3.push(normalized_author(c2.links@[0].first_text.deep_view()->0))
        } else {
            st.3
        };
        let complete = st.6 || (id.len() > 0 && date.len() > 0);
        (id, ty, date, authors, url, parsing, complete, st.7)
    }
}

pub open spec fn sub_fold(dossier_id: Seq<char>, rows: Seq<Seq<CellContent>>) -> SubState
    decreases rows.len(),
{
    if rows.len() == 0 {
        (Seq::empty(), DocumentType::Onbekend, Seq::empty(), Seq::empty(), None, false, false, Seq::empty())
    } else {
        sub_step(dossier_id, sub_fold(dossier_id, rows.drop_last()), rows.last())
    }
}

/// The subdocuments of a `Subdocumenten` cell: those its nested table lists, plus the
/// last one when it is complete.
pub open spec fn subdocuments_of(dossier_id: Seq<char>, cell: DossierCell) -> Seq<SubView> {
    match cell.nested_rows {
        None => Seq::empty(),
        Some(rows) => {
            let st = sub_fold(dossier_id, rows@.map_values(|r: Vec<CellContent>| r@));
            if st.6 { st.7.push(emitted(dossier_id, st)) } else { st.7 }
        },
    }
}

fn opt_string_view(o: &Option<String>) -> (r: Option<String>)
    ensures
        r.deep_view() == o.deep_view(),
{
    match o {
        Some(s) => Some(s.clone()),
        None => None,
    }
}

fn make_subdocument(dossier_id: &str, id: &String, ty: DocumentType, date: &String, authors: &Vec<String>, file_url: &Option<String>) -> (r: Subdocument)
    ensures
        sub_view(r) == (dossier_id@, canonical_document_id_spec(dossier_id@, id@, file_url.deep_view()), ty, date@, authors.deep_view(), file_url.deep_view()),
{
    let fu: Option<&str> = match file_url {
        Some(u) => Some(u.as_str()),
        None => None,
    };
    let cid = canonical_document_id(dossier_id, id.as_str(), fu);
    let a = authors.clone();
    assert(a.deep_view() =~= authors.deep_view()) by {
        assert(a@ == authors@);
    }
    Subdocument {
        dossier_id: owned(dossier_id),
        id: cid,
        document_type: ty,
        date: date.clone(),
        authors: a,
        file_url: opt_string_view(file_url),
    }
}

/// The subdocuments listed in the nested table of a `Subdocumenten` cell.
pub fn parse_subdocuments(dossier_id: &str, cell: &DossierCell) -> (r: Vec<Subdocument>)
    ensures
        subs_view(r@) == subdocuments_of(dossier_id@, *cell),
{
    let rows = match &cell.nested_rows {
        Some(rows) => rows,
        None => {
            let r: Vec<Subdocument> = Vec::new();
            assert(subs_view(r@) =~= Seq::<SubView>::empty());
            return r;
        },
    };
    let ghost rv = rows@.map_values(|r: Vec<CellContent>| r@);
    let mut out: Vec<Subdocument> = Vec::new();
    let mut document_id = String::new();
    let mut document_type = DocumentType::Onbekend;
    let mut document_date = String::new();
    let mut document_authors: Vec<String> = Vec::new();
    let mut file_url: Option<String> = None;
    let mut parsing_authors = false;
    let mut complete = false;
    let mut i: usize = 0;
    while i < rows.len()
        invariant
            i <= rows@.len(),
            rv == rows@.map_values(|r: Vec<CellContent>| r@),
            (document_id@, document_type, document_date@, document_authors.deep_view(), file_url.deep_view(),
                parsing_authors, complete, subs_view(out@)) == sub_fold(dossier_id@, rv.take(i as int)),
        decreases rows.len() - i,
    {
        proof {
            assert(rv.take(i + 1).drop_last() =~= rv.take(i as int));
            assert(rv.take(i + 1).last() == rows@[i as int]@);
        }
        let row = &rows[i];
        let ghost st = sub_fold(dossier_id@, rv.take(i as int));
        if row.len() < 2 {
            if complete {
                let sd = make_subdocument(dossier_id, &document_id, document_type, &document_date, &document_authors, &file_url);
                let ghost before = out@;
                out.push(sd);
                assert(subs_view(out@) =~= subs_view(before).push(emitted(dossier_id@, st)));
                document_id = String::new();
                document_date = String::new();
                document_authors = Vec::new();
                file_url = None;
                complete = false;
                parsing_authors = false;
                assert(document_authors.deep_view() =~= Seq::<Seq<char>>::empty());
            }
        } else {
            let c1 = &row[0];
            let c2 = &row[1];
            let c1_text = concat_texts_exec(&c1.texts);
            let l1 = to_lower(c1_text.as_str());
            let label = trim_str(l1.as_str());
            let c2_text = concat_texts_exec(&c2.texts);
            let l2 = to_lower(c2_text.as_str());
            let value = trim_str(l2.as_str());
            if document_id.as_str().is_empty() {
                if c1.links.len() > 0 {
                    match &c1.links[c1.links.len() - 1].first_text {
                        Some(t) => {
                            let tt = trim_str(t.as_str());
                            document_id = strip_leading_str(tt.as_str(), '0');
                        },
                        None => {},
                    }
                } else {
                    let ws = words_str(c1_text.as_str());
                    if ws.len() > 0 {
                        let tt = trim_str(ws[0].as_str());
                        document_id = strip_leading_str(tt.as_str(), '0');
                    }
                }
            }
            assert(document_id@ == header_number(*c1, st.0));
            if c2.fonts.len() > 0 {
                let raw_type = concat_texts_exec(&c2.fonts[0]);
                let rt = trim_str(raw_type.as_str());
                document_type = parse_document_type(rt.as_str());
                let pdf = pdf_url_from_cell(c1);
                if pdf.is_some() {
                    file_url = pdf;
                }
            }
            if str_contains(l1.as_str(), "niet beschikbaar") {
                file_url = Some(owned("NIET_BESCHIKBAAR"));
            }
            if str_contains(label.as_str(), "datum ronddeling") {
                document_date = normalize_date(value.as_str());
            }
            if str_contains(label.as_str(), "auteur(s)") {
                parsing_authors = true;
            }
            if parsing_authors && c2.links.len() > 0 {
                match &c2.links[0].first_text {
                    Some(name) => {
                        let ghost before = document_authors.deep_view();
                        document_authors.push(normalize_author(name.as_str()));
                        assert(document_authors.deep_view() =~= before.push(normalized_author(name@)));
                    },
                    None => {},
                }
            }
            if !document_id.as_str().is_empty() && !document_date.as_str().is_empty() {
                complete = true;
            }
        }
        i = i + 1;
    }
    assert(rv.take(rows@.len() as int) =~= rv);
    if complete {
        let ghost st = sub_fold(dossier_id@, rv);
        let sd = make_subdocument(dossier_id, &document_id, document_type, &document_date, &document_authors, &file_url);
        let ghost before = out@;
        out.push(sd);
        assert(subs_view(out@) =~= subs_view(before).push(emitted(dossier_id@, st)));
    }
    out
}

/// The authors named by the first text of each link.
pub open spec fn link_authors(links: Seq<HtmlLink>) -> Seq<Seq<char>>
    decreases links.len(),
{
    if links.len() == 0 {
        Seq::empty()
    } else {
        let prev = link_authors(links.drop_last());
        match links.last().first_text.deep_view() {
            Some(t) => prev.push(normalized_author(t)),
            None => prev,
        }
    }
}

fn push_link_authors(authors: &mut Vec<String>, links: &Vec<HtmlLink>)
    ensures
        final(authors).deep_view() == old(authors).deep_view() + link_authors(links@),
{
    let mut i: usize = 0;
    while i < links.len()
        invariant
            i <= links@.len(),
            authors.deep_view() == old(authors).deep_view() + link_authors(links@.take(i as int)),
        decreases links.len() - i,
    {
        proof {
            assert(links@.take(i + 1).drop_last() =~= links@.take(i as int));
            assert(links@.take(i + 1).last() == links@[i as int]);
        }
        match &links[i].first_text {
            Some(t) => {
                let ghost before = authors.deep_view();
                authors.push(normalize_author(t.as_str()));
                assert(authors.deep_view() =~= before.push(normalized_author(t@)));
            },
            None => {},
        }
        i = i + 1;
    }
    assert(links@.take(links@.len() as int) =~= links@);
}

/// The id prefix of the primary document of a dossier: `56K` and the dossier number on
/// four digits.
pub open spec fn primary_prefix(dossier_id: Seq<char>) -> Seq<char> {
    "56K"@ + left_zero_padded(normalized_dossier_id(dossier_id), 4)
}

/// Primary document parse: id, type, date, authors, file URL, past the document row.
pub type PrimaryState = (Seq<char>, DocumentType, Seq<char>, Seq<Seq<char>>, Option<Seq<char>>, bool);

/// One row of the dossier table, for the primary `/001` document: until it is found, a
/// `Document …` row (not a linked one) whose PDF belongs to this dossier names it; after
/// it, the first submission date, the document type and the authors are its own.
pub open spec fn primary_step(prefix: Seq<char>, st: PrimaryState, row: Seq<DossierCell>) -> PrimaryState {
    if row.len() < 2 {
        st
    } else {
        let c1 = row[0].content;
        let c2 = row[1].content;
        let label = trim(lowercase(concat_texts(c1.texts.deep_view())));
        let value = trim(concat_texts(c2.texts.deep_view()));
        if !st.5 {
            match pdf_url_of(c2.links@) {
                None => st,
                Some(pdf) => match regex_captures(FLWB_DOCUMENT_ID_PATTERN@, pdf) {
                    None => st,
                    Some(caps) => {
                        let src = uppercase(group_text(caps, 1));
                        if contains(label, "document"@) && !contains(label, "gekoppeld"@) && crate::text::starts_with(src, prefix) {
                            (src, st.1, st.2, st.3, Some(pdf), true)
                        } else {
                            st
                        }
                    },
                },
            }
        } else if contains(label, "indieningsdatum"@) && st.2.len() == 0 {
            (st.0, st.1, normalized_date(value), st.3, st.4, st.5)
        } else if contains(label, "document type"@) {
            (st.0, document_type_of(value), st.2, st.3, st.4, st.5)
        } else if contains(label, "auteur(s)"@) {
            (st.0, st.1, st.2, st.3 + link_authors(c2.links@), st.4, st.5)
        } else {
            st
        }
    }
}

pub open spec fn primary_fold(prefix: Seq<char>, rows: Seq<Seq<DossierCell>>) -> PrimaryState
    decreases rows.len(),
{
    if rows.len() == 0 {
        (Seq::empty(), DocumentType::Onbekend, Seq::empty(), Seq::empty(), None, false)
    } else {
        primary_step(prefix, primary_fold(prefix, rows.drop_last()), rows.last())
    }
}

pub open spec fn rows_view(rows: Seq<Vec<DossierCell>>) -> Seq<Seq<DossierCell>> {
    rows.map_values(|r: Vec<DossierCell>| r@)
}

/// The primary document of a dossier table, if its rows name one.
pub open spec fn primary_document_of(dossier_id: Seq<char>, rows: Seq<Seq<DossierCell>>) -> Option<SubView> {
    let st = primary_fold(primary_prefix(dossier_id), rows);
    if st.0.len() == 0 { None } else { Some((dossier_id, st.0, st.1, st.2, st.3, st.4)) }
}

/// Parse the primary `/001` document from the top-level dossier table. Only a PDF whose FLWB
/// id belongs to this dossier is accepted, so linked documents of another dossier are not
/// taken in; a primary document with no other rows is kept with what it has.
pub fn parse_primary_document(dossier_id: &str, rows: &Vec<Vec<DossierCell>>) -> (r: Option<Subdocument>)
    ensures
        match r {
            Some(sd) => primary_document_of(dossier_id@, rows_view(rows@)) == Some(sub_view(sd)),
            None => primary_document_of(dossier_id@, rows_view(rows@)) is None,
        },
{
    let ghost rv = rows_view(rows@);
    let nd = normalize_dossier_id(dossier_id);
    let mut prefix = owned("56K");
    push_left_zero_padded(&mut prefix, nd.as_str(), 4);
    assert(prefix@ == primary_prefix(dossier_id@));
    let mut document_id = String::new();
    let mut document_type = DocumentType::Onbekend;
    let mut document_date = String::new();
    let mut document_authors: Vec<String> = Vec::new();
    let mut file_url: Option<String> = None;
    let mut parsing_primary = false;
    let mut i: usize = 0;
    while i < rows.len()
        invariant
            i <= rows@.len(),
            rv == rows_view(rows@),
            prefix@ == primary_prefix(dossier_id@),
            (document_id@, document_type, document_date@, document_authors.deep_view(), file_url.deep_view(), parsing_primary)
                == primary_fold(prefix@, rv.take(i as int)),
        decreases rows.len() - i,
    {
        proof {
            assert(rv.take(i + 1).drop_last() =~= rv.take(i as int));
            assert(rv.take(i + 1).last() == rows@[i as int]@);
        }
        let row = &rows[i];
        if row.len() >= 2 {
            let c1 = &row[0].content;
            let c2 = &row[1].content;
            let t1 = concat_texts_exec(&c1.texts);
            let l1 = to_lower(t1.as_str());
            let label = trim_str(l1.as_str());
            let t2 = concat_texts_exec(&c2.texts);
            let value = trim_str(t2.as_str());
            if !parsing_primary {
                match pdf_url_from_cell(c2) {
                    Some(pdf) => {
                        match re_captures(FLWB_DOCUMENT_ID_PATTERN, pdf.as_str()) {
                            Some(caps) => {
                                let g = match group_at(&caps, 1) { Some(g) => g, None => String::new() };
                                let src = to_upper(g.as_str());
                                if str_contains(label.as_str(), "document") && !str_contains(label.as_str(), "gekoppeld")
                                    && crate::text::str_starts_with(src.as_str(), prefix.as_str()) {
                                    document_id = src;
                                    file_url = Some(pdf);
                                    parsing_primary = true;
                                }
                            },
                            None => {},
                        }
                    },
                    None => {},
                }
            } else if str_contains(label.as_str(), "indieningsdatum") && document_date.as_str().is_empty() {
                document_date = normalize_date(value.as_str());
            } else if str_contains(label.as_str(), "document type") {
                document_type = parse_document_type(value.as_str());
            } else if str_contains(label.as_str(), "auteur(s)") {
                push_link_authors(&mut document_authors, &c2.links);
            }
        }
        i = i + 1;
    }
    assert(rv.take(rows@.len() as int) =~= rv);
    if document_id.as_str().is_empty() {
        return None;
    }
    Some(Subdocument {
        dossier_id: owned(dossier_id),
        id: document_id,
        document_type,
        date: document_date,
        authors: document_authors,
        file_url,
    })
}

pub struct Dossier {
    pub title: String,
    pub authors: Vec<String>,
    pub submission_date: String,
    pub end_date: String,
    pub vote_date: String,
    pub document_type: DocumentType,
    pub status: DocumentStatus,
    pub subdocuments: Vec<Subdocument>,
    pub eurovoc_main_descriptor: String,
    pub eurovoc_descriptors: String,
    pub original_text_url: Option<String>,
}

/// Dossier parse: submission, vote and end date, authors, type, status, subdocuments,
/// Eurovoc main descriptor and descriptors, original text URL.
pub type DossierState = (
    Seq<char>,
    Seq<char>,
    Seq<char>,
    Seq<Seq<char>>,
    DocumentType,
    DocumentStatus,
    Seq<SubView>,
    Seq<char>,
    Seq<char>,
    Option<Seq<char>>,
);

/// The first link of a cell whose target ends in `.pdf`, made absolute.
pub open spec fn first_pdf_href(links: Seq<HtmlLink>) -> Option<Seq<char>>
    decreases links.len(),
{
    if links.len() == 0 {
        None
    } else {
        match links[0].href.deep_view() {
            Some(h) if crate::text::ends_with(h, ".pdf"@) => Some(absolute_href(h)),
            _ => first_pdf_href(links.drop_first()),
        }
    }
}

/// The Eurovoc descriptors of a row: the `|`-separated items, trimmed, the empty ones
/// dropped, joined by commas.
pub open spec fn eurovoc_list(value: Seq<char>) -> Seq<char> {
    join(split(value, '|').map_values(|s: Seq<char>| trim(s)).filter(|s: Seq<char>| s.len() > 0), seq![','])
}

/// The authors of an `Auteur(s)` row: the first text of each link; when the dossier still
/// has no author after that, each non-blank text node of the cell.
pub open spec fn row_authors(authors: Seq<Seq<char>>, c2: CellContent) -> Seq<Seq<char>> {
    let with_links = authors + link_authors(c2.links@);
    if with_links.len() == 0 {
        c2.texts.deep_view().map_values(|t: Seq<char>| trim(t)).filter(|t: Seq<char>| t.len() > 0)
            .map_values(|t: Seq<char>| normalized_author(t))
    } else {
        with_links
    }
}

/// One row of the dossier table, read by its label.
pub open spec fn dossier_step(dossier_id: Seq<char>, st: DossierState, row: Seq<DossierCell>) -> DossierState {
    if row.len() < 2 {
        st
    } else {
        let c2 = row[1].content;
        let label = normalized_label(concat_texts(row[0].content.texts.deep_view()));
        let value = trim(concat_texts(c2.texts.deep_view()));
        let value_lower = lowercase(value);
        let (sub, vote, end, authors, ty, status, subs, emain, edescs, orig) = st;
        if contains(label, "indieningsdatum"@) {
            (normalized_date(value_lower), vote, end, authors, ty, status, subs, emain, edescs, orig)
        } else if contains(label, "stemming kamer"@) {
            (sub, normalized_date(value_lower), end, authors, ty, status, subs, emain, edescs, orig)
        } else if contains(label, "einddatum"@) {
            (sub, vote, normalized_date(value_lower), authors, ty, status, subs, emain, edescs, orig)
        } else if contains(label, "auteur(s)"@) {
            (sub, vote, end, row_authors(authors, c2), ty, status, subs, emain, edescs, orig)
        } else if contains(label, "document type"@) {
            (sub, vote, end, authors, document_type_of(value_lower), status, subs, emain, edescs, orig)
        } else if contains(label, "status"@) {
            (sub, vote, end, authors, ty, document_status_of(value_lower), subs, emain, edescs, orig)
        } else if contains(label, "subdocumenten"@) {
            (sub, vote, end, authors, ty, status, subdocuments_of(dossier_id, row[1]), emain, edescs, orig)
        } else if trim(label).len() == 0 {
            let candidate = document_status_of(value_lower);
            (sub, vote, end, authors, ty, if candidate != DocumentStatus::Onbekend { candidate } else { status },
                subs, emain, edescs, orig)
        } else if contains(label, "document kamer"@) {
            (sub, vote, end, authors, ty, status, subs, emain, edescs, if orig is None { first_pdf_href(c2.links@) } else { orig })
        } else if contains(label, "eurovoc-hoofddescriptor"@) {
            (sub, vote, end, authors, ty, status, subs, uppercase(trim(value)), edescs, orig)
        } else if contains(label, "eurovoc descriptoren"@) || contains(label, "eurovoc kandidaat-descriptoren"@) {
            (sub, vote, end, authors, ty, status, subs, emain, eurovoc_list(value), orig)
        } else {
            st
        }
    }
}

pub open spec fn dossier_fold(dossier_id: Seq<char>, rows: Seq<Seq<DossierCell>>) -> DossierState
    decreases rows.len(),
{
    if rows.len() == 0 {
        (Seq::empty(), Seq::empty(), Seq::empty(), Seq::empty(), DocumentType::Onbekend, DocumentStatus::Onbekend,
            Seq::empty(), Seq::empty(), Seq::empty(), None)
    } else {
        dossier_step(dossier_id, dossier_fold(dossier_id, rows.drop_last()), rows.last())
    }
}

/// The index of the first subdocument with id `id`.
pub open spec fn first_with_id(subs: Seq<SubView>, id: Seq<char>) -> Option<int>
    decreases subs.len(),
{
    if subs.len() == 0 {
        None
    } else if subs[0].1 == id {
        Some(0)
    } else {
        match first_with_id(subs.drop_first(), id) {
            Some(k) => Some(k + 1),
            None => None,
        }
    }
}

/// The subdocuments of a dossier: those of the `Subdocumenten` table, the primary document
/// first when that table lacks it; then the document numbered `1` takes the original text
/// URL when it has no file of its own, or, when there is no subdocument at all but an
/// original text or a submission date, a document `1` is made from the dossier's fields.
pub open spec fn final_subdocuments(dossier_id: Seq<char>, st: DossierState, primary: Option<SubView>) -> Seq<SubView> {
    let subs1 = match primary {
        Some(p) if first_with_id(st.6, p.1) is None => seq![p] + st.6,
        _ => st.6,
    };
    match first_with_id(subs1, "1"@) {
        Some(k) => if subs1[k].5 is None {
            subs1.update(k, (subs1[k].0, subs1[k].1, subs1[k].2, subs1[k].3, subs1[k].4, st.9))
        } else {
            subs1
        },
        None => if subs1.len() == 0 && (st.9 is Some || st.0.len() > 0) {
            seq![(dossier_id, "1"@, st.4, st.0, st.3, st.9)]
        } else {
            subs1
        },
    }
}

/// `d` is the dossier that a page with these table rows and title describes.
pub open spec fn dossier_ok(d: Dossier, dossier_id: Seq<char>, title: Option<Seq<char>>, rows: Option<Seq<Seq<DossierCell>>>) -> bool {
    let st = match rows {
        Some(r) => dossier_fold(dossier_id, r),
        None => dossier_fold(dossier_id, Seq::empty()),
    };
    let primary = match rows {
        Some(r) => primary_document_of(dossier_id, r),
        None => None,
    };
    &&& d.title@ == trim(match title { Some(t) => t, None => Seq::empty() })
    &&& d.submission_date@ == st.0
    &&& d.vote_date@ == st.1
    &&& d.end_date@ == st.2
    &&& d.authors.deep_view() == st.3
    &&& d.document_type == st.4
    &&& d.status == st.5
    &&& subs_view(d.subdocuments@) == final_subdocuments(dossier_id, st, primary)
    &&& d.eurovoc_main_descriptor@ == st.7
    &&& d.eurovoc_descriptors@ == st.8
    &&& d.original_text_url.deep_view() == st.9
}

fn first_pdf_href_exec(links: &Vec<HtmlLink>) -> (r: Option<String>)
    ensures
        r.deep_view() == first_pdf_href(links@),
{
    let mut i: usize = 0;
    assert(links@.skip(0) =~= links@);
    while i < links.len()
        invariant
            i <= links@.len(),
            first_pdf_href(links@) == first_pdf_href(links@.skip(i as int)),
        decreases links.len() - i,
    {
        proof {
            assert(links@.skip(i as int)[0] == links@[i as int]);
            assert(links@.skip(i as int).drop_first() =~= links@.skip(i + 1));
        }
        match &links[i].href {
            Some(h) => {
                if crate::text::str_ends_with(h.as_str(), ".pdf") {
                    return Some(absolute_href_exec(h.as_str()));
                }
            },
            None => {},
        }
        i = i + 1;
    }
    assert(links@.skip(links@.len() as int) =~= Seq::<HtmlLink>::empty());
    None
}

fn eurovoc_list_exec(value: &str) -> (r: String)
    ensures
        r@ == eurovoc_list(value@),
{
    let parts = crate::text::split_str(value, '|');
    let ghost trimmed = parts.deep_view().map_values(|s: Seq<char>| trim(s));
    let ghost npred = |s: Seq<char>| s.len() > 0;
    let mut kept: Vec<String> = Vec::new();
    let mut i: usize = 0;
    while i < parts.len()
        invariant
            i <= parts@.len(),
            trimmed == parts.deep_view().map_values(|s: Seq<char>| trim(s)),
            npred == (|s: Seq<char>| s.len() > 0),
            kept.deep_view() == trimmed.take(i as int).filter(npred),
        decreases parts.len() - i,
    {
        proof {
            reveal(Seq::filter);
            assert(trimmed.take(i + 1).drop_last() =~= trimmed.take(i as int));
        }
        let t = trim_str(parts[i].as_str());
        if !t.as_str().is_empty() {
            let ghost before = kept.deep_view();
            kept.push(t);
            assert(kept.deep_view() =~= before.push(trimmed[i as int]));
        }
        i = i + 1;
    }
    assert(trimmed.take(parts@.len() as int) =~= trimmed);
    proof {
        reveal_strlit(",");
        assert(","@ =~= seq![',']);
    }
    join_strs(kept.as_slice(), ",")
}

fn text_node_authors(texts: &Vec<String>) -> (r: Vec<String>)
    ensures
        r.deep_view() == texts.deep_view().map_values(|t: Seq<char>| trim(t)).filter(|t: Seq<char>| t.len() > 0)
            .map_values(|t: Seq<char>| normalized_author(t)),
{
    let ghost trimmed = texts.deep_view().map_values(|t: Seq<char>| trim(t));
    let ghost npred = |t: Seq<char>| t.len() > 0;
    let mut names: Vec<String> = Vec::new();
    let mut i: usize = 0;
    while i < texts.len()
        invariant
            i <= texts@.len(),
            trimmed == texts.deep_view().map_values(|t: Seq<char>| trim(t)),
            npred == (|t: Seq<char>| t.len() > 0),
            names.deep_view() == trimmed.take(i as int).filter(npred).map_values(|t: Seq<char>| normalized_author(t)),
        decreases texts.len() - i,
    {
        proof {
            reveal(Seq::filter);
            assert(trimmed.take(i + 1).drop_last() =~= trimmed.take(i as int));
        }
        let name = trim_str(texts[i].as_str());
        if !name.as_str().is_empty() {
            let ghost before = names.deep_view();
            names.push(normalize_author(name.as_str()));
            assert(names.deep_view() =~= before.push(normalized_author(trimmed[i as int])));
            assert(trimmed.take(i + 1).filter(npred) == trimmed.take(i as int).filter(npred).push(trimmed[i as int]));
            assert(trimmed.take(i as int).filter(npred).push(trimmed[i as int]).map_values(|t: Seq<char>| normalized_author(t))
                =~= trimmed.take(i as int).filter(npred).map_values(|t: Seq<char>| normalized_author(t)).push(normalized_author(trimmed[i as int])));
            assert(names.deep_view() =~= trimmed.take(i + 1).filter(npred).map_values(|t: Seq<char>| normalized_author(t)));
        } else {
            assert(trimmed.take(i + 1).filter(npred) == trimmed.take(i as int).filter(npred));
        }
        i = i + 1;
    }
    assert(trimmed.take(texts@.len() as int) =~= trimmed);
    names
}

fn copy_strings(v: &Vec<String>) -> (r: Vec<String>)
    ensures
        r.deep_view() == v.deep_view(),
{
    let r = v.clone();
    assert(r.deep_view() =~= v.deep_view()) by {
        assert(r@ == v@);
    }
    r
}

/// Whether some subdocument has id `id`; where the first one is.
fn find_subdocument(subs: &Vec<Subdocument>, id: &str) -> (r: Option<usize>)
    ensures
        match r {
            Some(k) => first_with_id(subs_view(subs@), id@) == Some(k as int) && k < subs@.len(),
            None => first_with_id(subs_view(subs@), id@) is None,
        },
{
    let ghost sv = subs_view(subs@);
    let mut i: usize = 0;
    assert(sv.skip(0) =~= sv);
    while i < subs.len()
        invariant
            i <= subs@.len(),
            sv == subs_view(subs@),
            first_with_id(sv, id@) == match first_with_id(sv.skip(i as int), id@) {
                Some(k) => Some(k + i),
                None => None::<int>,
            },
        decreases subs.len() - i,
    {
        proof {
            assert(sv.skip(i as int)[0] == sub_view(subs@[i as int]));
            assert(sv.skip(i as int).drop_first() =~= sv.skip(i + 1));
        }
        if str_eq(subs[i].id.as_str(), id) {
            return Some(i);
        }
        i = i + 1;
    }
    assert(sv.skip(subs@.len() as int) =~= Seq::<SubView>::empty());
    None
}

/// What scraping a dossier page gives: the dossier its title and rows describe, or, for a
/// page without a table, the error that says so.
pub open spec fn scrape_result_ok(dossier_id: Seq<char>, page: DossierPage, r: Result<Dossier, String>) -> bool {
    match r {
        Ok(d) => page.table_rows is Some && dossier_ok(d, dossier_id, page.title.deep_view(),
            match page.table_rows { Some(Some(rows)) => Some(rows_view(rows@)), _ => None }),
        Err(e) => page.table_rows is None && e@ == "no table found in dossier "@ + dossier_id,
    }
}

/// Scrape a dossier page: its title, dates, authors, type, status, subdocuments, Eurovoc
/// descriptors and original text link; an error when the page has no table.
#[verifier::rlimit(40)]
#[verifier::spinoff_prover]
pub fn scrape_dossier(dossier_id: &str, page: &DossierPage) -> (r: Result<Dossier, String>)
    ensures
        scrape_result_ok(dossier_id@, *page, r),
{
    let title = match &page.title {
        Some(t) => trim_str(t.as_str()),
        None => String::new(),
    };
    let table = match &page.table_rows {
        Some(t) => t,
        None => {
            let mut e = owned("no table found in dossier ");
            push_str(&mut e, dossier_id);
            return Err(e);
        },
    };
    let mut submission_date = String::new();
    let mut vote_date = String::new();
    let mut end_date = String::new();
    let mut dossier_authors: Vec<String> = Vec::new();
    let mut document_type = DocumentType::Onbekend;
    let mut status = DocumentStatus::Onbekend;
    let mut subdocuments: Vec<Subdocument> = Vec::new();
    let mut eurovoc_main_descriptor = String::new();
    let mut eurovoc_descriptors = String::new();
    let mut original_text_url: Option<String> = None;
    let ghost rv: Seq<Seq<DossierCell>> = match table { Some(rows) => rows_view(rows@), None => Seq::empty() };
    match table {
        Some(rows) => {
            let mut i: usize = 0;
            while i < rows.len()
                invariant
                    i <= rows@.len(),
                    rv == rows_view(rows@),
                    (submission_date@, vote_date@, end_date@, dossier_authors.deep_view(), document_type, status,
                        subs_view(subdocuments@), eurovoc_main_descriptor@, eurovoc_descriptors@, original_text_url.deep_view())
                        == dossier_fold(dossier_id@, rv.take(i as int)),
                decreases rows.len() - i,
            {
                proof {
                    assert(rv.take(i + 1).drop_last() =~= rv.take(i as int));
                    assert(rv.take(i + 1).last() == rows@[i as int]@);
                }
                let row = &rows[i];
                if row.len() >= 2 {
                    let c2 = &row[1].content;
                    let t1 = concat_texts_exec(&row[0].content.texts);
                    let label = normalize_label(t1);
                    let t2 = concat_texts_exec(&c2.texts);
                    let value = trim_str(t2.as_str());
                    let value_lower = to_lower(value.as_str());
                    let l = label.as_str();
                    if str_contains(l, "indieningsdatum") {
                        submission_date = normalize_date(value_lower.as_str());
                    } else if str_contains(l, "stemming kamer") {
                        vote_date = normalize_date(value_lower.as_str());
                    } else if str_contains(l, "einddatum") {
                        end_date = normalize_date(value_lower.as_str());
                    } else if str_contains(l, "auteur(s)") {
                        push_link_authors(&mut dossier_authors, &c2.links);
                        if dossier_authors.len() == 0 {
                            dossier_authors = text_node_authors(&c2.texts);
                        }
                    } else if str_contains(l, "document type") {
                        document_type = parse_document_type(value_lower.as_str());
                    } else if str_contains(l, "status") {
                        status = parse_document_status(value_lower.as_str());
                    } else if str_contains(l, "subdocumenten") {
                        subdocuments = parse_subdocuments(dossier_id, &row[1]);
                    } else if trim_str(l).as_str().is_empty() {
                        let candidate = parse_document_status(value_lower.as_str());
                        if candidate != DocumentStatus::Onbekend {
                            status = candidate;
                        }
                    } else if str_contains(l, "document kamer") {
                        if original_text_url.is_none() {
                            original_text_url = first_pdf_href_exec(&c2.links);
                        }
                    } else if str_contains(l, "eurovoc-hoofddescriptor") {
                        let tv = trim_str(value.as_str());
                        eurovoc_main_descriptor = to_upper(tv.as_str());
                    } else if str_contains(l, "eurovoc descriptoren") || str_contains(l, "eurovoc kandidaat-descriptoren") {
                        eurovoc_descriptors = eurovoc_list_exec(value.as_str());
                    }
                }
                i = i + 1;
            }
            assert(rv.take(rows@.len() as int) =~= rv);
        },
        None => {},
    }
    let ghost st = dossier_fold(dossier_id@, rv);
    let primary = match table {
        Some(rows) => parse_primary_document(dossier_id, rows),
        None => None,
    };
    let ghost subs0 = subs_view(subdocuments@);
    let ghost pview: Option<SubView> = match &primary { Some(p) => Some(sub_view(*p)), None => None };
    match primary {
        Some(p) => {
            if find_subdocument(&subdocuments, p.id.as_str()).is_none() {
                let ghost pv = sub_view(p);
                subdocuments.insert(0, p);
                assert(subs_view(subdocuments@) =~= seq![pv] + subs0);
            }
        },
        None => {},
    }
    let ghost subs1 = subs_view(subdocuments@);
    proof {
        reveal_strlit("1");
    }
    match find_subdocument(&subdocuments, "1") {
        Some(k) => {
            if subdocuments[k].file_url.is_none() {
                let mut sd = subdocuments.remove(k);
                sd.file_url = opt_string_view(&original_text_url);
                let ghost sdv = sub_view(sd);
                subdocuments.insert(k, sd);
                assert(subs_view(subdocuments@) =~= subs1.update(k as int, sdv));
            }
        },
        None => {
            if subdocuments.len() == 0 && (original_text_url.is_some() || !submission_date.as_str().is_empty()) {
                let mut one = String::new();
                push_char(&mut one, '1');
                assert(one@ =~= "1"@);
                let sd = Subdocument {
                    dossier_id: owned(dossier_id),
                    id: one,
                    document_type,
                    date: submission_date.clone(),
                    authors: copy_strings(&dossier_authors),
                    file_url: opt_string_view(&original_text_url),
                };
                subdocuments.insert(0, sd);
            }
        },
    }
    proof {
        let primary_spec = match &page.table_rows { Some(Some(rows)) => primary_document_of(dossier_id@, rows_view(rows@)), _ => None };
        assert(primary_spec == pview);
        assert(subs_view(subdocuments@) == final_subdocuments(dossier_id@, st, primary_spec));
        let rows_spec = match &page.table_rows { Some(Some(rows)) => Some(rows_view(rows@)), _ => None };
        let st2 = match rows_spec { Some(r) => dossier_fold(dossier_id@, r), None => dossier_fold(dossier_id@, Seq::empty()) };
        assert(st2 == st);
        assert(title@ == trim(match page.title.deep_view() { Some(t) => t, None => Seq::empty() }));
        assert(submission_date@ == st.0);
        assert(dossier_authors.deep_view() == st.3);
        assert(original_text_url.deep_view() == st.9);
    }
    let d = Dossier {
        title,
        authors: dossier_authors,
        submission_date,
        end_date,
        vote_date,
        document_type,
        status,
        subdocuments,
        eurovoc_main_descriptor,
        eurovoc_descriptors,
        original_text_url,
    };
    Ok(d)
}

// ---------------------------------------------------------------------------
// Recheck cadence
// ---------------------------------------------------------------------------

/// The date a dossier's cadence goes by: its end date, else its vote date, whichever is
/// the first non-empty one that reads as `yyyy-mm-dd`.
pub open spec fn reference_date(end_date: Seq<char>, vote_date: Seq<char>) -> Option<(int, int, int)> {
    if end_date.len() > 0 && ymd_date(end_date) is Some {
        ymd_date(end_date)
    } else if vote_date.len() > 0 && ymd_date(vote_date) is Some {
        ymd_date(vote_date)
    } else {
        None
    }
}

pub fn dossier_reference_date(dossier: &Dossier) -> (r: Option<(i32, u32, u32)>)
    ensures
        match r {
            Some((y, m, d)) => reference_date(dossier.end_date@, dossier.vote_date@) == Some((y as int, m as int, d as int))
                && chrono_date(y as int, m as int, d as int),
            None => reference_date(dossier.end_date@, dossier.vote_date@) is None,
        },
{
    if !dossier.end_date.as_str().is_empty() {
        match parse_ymd(dossier.end_date.as_str()) {
            Some(d) => return Some(d),
            None => {},
        }
    }
    if !dossier.vote_date.as_str().is_empty() {
        match parse_ymd(dossier.vote_date.as_str()) {
            Some(d) => return Some(d),
            None => {},
        }
    }
    None
}

/// A dossier is settled on day `today` when it was adopted, rejected or dropped and its
/// reference date lies at least a week back.
pub open spec fn settled_on(status: DocumentStatus, end_date: Seq<char>, vote_date: Seq<char>, today: (int, int, int)) -> bool {
    &&& (status == DocumentStatus::Aangenomen || status == DocumentStatus::Verworpen || status == DocumentStatus::ZonderVoorwerp)
    &&& match reference_date(end_date, vote_date) {
        Some(rd) => days_between(today, rd) >= DEFAULT_RECHECK_DAYS,
        None => false,
    }
}

pub fn is_settled_dossier_on(dossier: &Dossier, today: (i32, u32, u32)) -> (r: bool)
    requires
        chrono_date(today.0 as int, today.1 as int, today.2 as int),
    ensures
        r == settled_on(dossier.status, dossier.end_date@, dossier.vote_date@, (today.0 as int, today.1 as int, today.2 as int)),
{
    let terminal = dossier.status == DocumentStatus::Aangenomen || dossier.status == DocumentStatus::Verworpen
        || dossier.status == DocumentStatus::ZonderVoorwerp;
    if !terminal {
        return false;
    }
    match dossier_reference_date(dossier) {
        Some(rd) => days_between_exec(today, rd) >= DEFAULT_RECHECK_DAYS,
        None => false,
    }
}

/// Terminal dossiers with an end/vote date more than a week ago use the slower recheck
/// cadence; which dates count as past depends on the machine's current date.
pub fn is_settled_dossier(dossier: &Dossier) -> (r: bool)
    ensures
        exists|y: int, m: int, d: int| chrono_date(y, m, d) && r == settled_on(dossier.status, dossier.end_date@, dossier.vote_date@, (y, m, d)),
        r ==> (dossier.status == DocumentStatus::Aangenomen || dossier.status == DocumentStatus::Verworpen
            || dossier.status == DocumentStatus::ZonderVoorwerp),
        r ==> reference_date(dossier.end_date@, dossier.vote_date@) is Some,
{
    let today = today_local();
    let r = is_settled_dossier_on(dossier, today);
    assert(chrono_date(today.0 as int, today.1 as int, today.2 as int)
        && r == settled_on(dossier.status, dossier.end_date@, dossier.vote_date@, (today.0 as int, today.1 as int, today.2 as int)));
    r
}

// ---------------------------------------------------------------------------
// Output rows
// ---------------------------------------------------------------------------

/// A scraped dossier row.
pub struct ScrapedDossier {
    pub session_id: u32,
    pub dossier_id: String,
    pub last_updated: String,
    pub title: String,
    pub authors: String,
    pub submission_date: String,
    pub end_date: String,
    pub vote_date: String,
    pub document_type: String,
    pub status: String,
    pub latest_adopted_text_url: Option<String>,
    pub latest_report_url: Option<String>,
    pub eurovoc_main_descriptor: String,
    pub eurovoc_descriptors: String,
    pub original_text_url: Option<String>,
    pub source_url: String,
    pub cache_path: String,
}

/// A scraped subdocument row.
pub struct ScrapedSubdocument {
    pub dossier_id: String,
    pub id: String,
    pub date: String,
    pub document_type: String,
    pub authors: String,
    pub file_url: Option<String>,
    pub source_url: String,
    pub cache_path: String,
}

/// An adopted text ranks by whether it is the text adopted in plenary, then by its id.
pub open spec fn adopted_key_less(a: SubView, b: SubView) -> bool {
    ||| (a.2 != DocumentType::ArtikelenAangenomenInPlenum && b.2 == DocumentType::ArtikelenAangenomenInPlenum)
    ||| ((a.2 == DocumentType::ArtikelenAangenomenInPlenum) == (b.2 == DocumentType::ArtikelenAangenomenInPlenum)
        && seq_less(a.1, b.1))
}

pub open spec fn is_adopted_text(s: SubView) -> bool {
    s.5 is Some && (s.2 == DocumentType::ArtikelenAangenomenInPlenum || s.2 == DocumentType::AangenomenTekst)
}

/// The highest-ranked adopted text with a file (the last of equals), as `max_by_key` picks it.
pub open spec fn latest_adopted(subs: Seq<SubView>) -> Option<SubView>
    decreases subs.len(),
{
    if subs.len() == 0 {
        None
    } else {
        let prev = latest_adopted(subs.drop_last());
        let s = subs.last();
        if !is_adopted_text(s) {
            prev
        } else {
            match prev {
                Some(b) => if adopted_key_less(s, b) { prev } else { Some(s) },
                None => Some(s),
            }
        }
    }
}

/// The file of the last report (`Verslag`) that has one.
pub open spec fn latest_report(subs: Seq<SubView>) -> Option<Seq<char>>
    decreases subs.len(),
{
    if subs.len() == 0 {
        None
    } else {
        let s = subs.last();
        if s.2 == DocumentType::Verslag && s.5 is Some { s.5 } else { latest_report(subs.drop_last()) }
    }
}

fn latest_urls(subs: &Vec<Subdocument>) -> (r: (Option<String>, Option<String>))
    ensures
        r.0.deep_view() == match latest_adopted(subs_view(subs@)) { Some(s) => s.5, None => None },
        r.1.deep_view() == latest_report(subs_view(subs@)),
{
    let ghost sv = subs_view(subs@);
    let mut best: Option<usize> = None;
    let mut report: Option<usize> = None;
    let mut i: usize = 0;
    while i < subs.len()
        invariant
            i <= subs@.len(),
            sv == subs_view(subs@),
            match best {
                Some(k) => k < i && latest_adopted(sv.take(i as int)) == Some(sv[k as int]),
                None => latest_adopted(sv.take(i as int)) is None,
            },
            match report {
                Some(k) => k < i && latest_report(sv.take(i as int)) == sv[k as int].5 && sv[k as int].5 is Some,
                None => latest_report(sv.take(i as int)) is None,
            },
        decreases subs.len() - i,
    {
        proof {
            assert(sv.take(i + 1).drop_last() =~= sv.take(i as int));
            assert(sv.take(i + 1).last() == sv[i as int]);
        }
        let s = &subs[i];
        let adopted = s.file_url.is_some()
            && (s.document_type == DocumentType::ArtikelenAangenomenInPlenum || s.document_type == DocumentType::AangenomenTekst);
        if adopted {
            match best {
                Some(k) => {
                    let b = &subs[k];
                    let s_plenum = s.document_type == DocumentType::ArtikelenAangenomenInPlenum;
                    let b_plenum = b.document_type == DocumentType::ArtikelenAangenomenInPlenum;
                    let less = (!s_plenum && b_plenum) || (s_plenum == b_plenum && str_less(s.id.as_str(), b.id.as_str()));
                    if !less {
                        best = Some(i);
                    }
                },
                None => {
                    best = Some(i);
                },
            }
        }
        if s.document_type == DocumentType::Verslag && s.file_url.is_some() {
            report = Some(i);
        }
        i = i + 1;
    }
    assert(sv.take(subs@.len() as int) =~= sv);
    let a = match best {
        Some(k) => opt_string_view(&subs[k].file_url),
        None => None,
    };
    let r = match report {
        Some(k) => opt_string_view(&subs[k].file_url),
        None => None,
    };
    (a, r)
}

/// The version part of a cache file stem: what follows `{session}_{dossier}_`, or the whole
/// stem when it does not start so.
pub open spec fn last_updated_of(session_id: u32, dossier_id: Seq<char>, stem: Seq<char>) -> Seq<char> {
    let prefix = decimal(session_id as nat) + seq!['_'] + dossier_id + seq!['_'];
    if crate::text::starts_with(stem, prefix) { stem.skip(prefix.len() as int) } else { stem }
}

fn last_updated_exec(session_id: u32, dossier_id: &str, stem: &str) -> (r: String)
    ensures
        r@ == last_updated_of(session_id, dossier_id@, stem@),
{
    let mut prefix = String::new();
    push_decimal(&mut prefix, session_id as u64);
    push_char(&mut prefix, '_');
    push_str(&mut prefix, dossier_id);
    push_char(&mut prefix, '_');
    let ghost expected = decimal(session_id as nat) + seq!['_'] + dossier_id@ + seq!['_'];
    assert(prefix@ =~= expected);
    if crate::text::str_starts_with(stem, prefix.as_str()) {
        let v = crate::text::to_chars(stem);
        let n = prefix.as_str().unicode_len();
        assert(prefix@.len() == n);
        let r = crate::text::from_char_range(&v, n, v.len());
        assert(r@ =~= stem@.skip(prefix@.len() as int));
        r
    } else {
        owned(stem)
    }
}

/// The subdocument row of a subdocument.
pub open spec fn sub_row_ok(r: ScrapedSubdocument, s: SubView, source_url: Seq<char>, cache_path: Seq<char>) -> bool {
    &&& r.dossier_id@ == s.0
    &&& r.id@ == s.1
    &&& r.date@ == s.3
    &&& r.document_type@ == s.2.name()
    &&& r.authors@ == join(s.4, seq![','])
    &&& r.file_url.deep_view() == s.5
    &&& r.source_url@ == source_url
    &&& r.cache_path@ == cache_path
}

/// The dossier row of a scraped dossier.
pub open spec fn dossier_row_ok(r: ScrapedDossier, d: Dossier, session_id: u32, dossier_id: Seq<char>, stem: Seq<char>,
    source_url: Seq<char>, cache_path: Seq<char>) -> bool {
    &&& r.session_id == session_id
    &&& r.dossier_id@ == dossier_id
    &&& r.last_updated@ == last_updated_of(session_id, dossier_id, stem)
    &&& r.title@ == d.title@
    &&& r.authors@ == join(d.authors.deep_view(), seq![','])
    &&& r.submission_date@ == d.submission_date@
    &&& r.end_date@ == d.end_date@
    &&& r.vote_date@ == d.vote_date@
    &&& r.document_type@ == d.document_type.name()
    &&& r.status@ == d.status.name()
    &&& r.latest_adopted_text_url.deep_view() == match latest_adopted(subs_view(d.subdocuments@)) { Some(s) => s.5, None => None }
    &&& r.latest_report_url.deep_view() == latest_report(subs_view(d.subdocuments@))
    &&& r.eurovoc_main_descriptor@ == d.eurovoc_main_descriptor@
    &&& r.eurovoc_descriptors@ == d.eurovoc_descriptors@
    &&& r.original_text_url.deep_view() == d.original_text_url.deep_view()
    &&& r.source_url@ == source_url
    &&& r.cache_path@ == cache_path
}

/// The manifest row of a parsed dossier.
pub open spec fn parsed_manifest_ok(r: SourceManifestRow, session_id: u32, dossier_id: Seq<char>, subdocument_count: nat,
    source_url: Seq<char>, cache_path: Seq<char>, content_hash: Seq<char>, fetched_at: Seq<char>, checked_at: Seq<char>,
    run_mode: Seq<char>) -> bool {
    &&& r.source@ == SOURCE_NAME@
    &&& r.session_id@ == decimal(session_id as nat)
    &&& r.item_kind@ == "dossier"@
    &&& r.native_item_id@ == dossier_id
    &&& r.source_url@ == source_url
    &&& r.cache_path@ == cache_path
    &&& r.status@ == MANIFEST_STATUS_PARSED@
    &&& r.row_count == 1 + subdocument_count
    &&& r.content_type@ == "text/html"@
    &&& r.content_hash@ == content_hash
    &&& r.fetched_at@ == fetched_at
    &&& r.checked_at@ == checked_at
    &&& r.run_mode@ == run_mode
    &&& r.detail@ == Seq::<char>::empty()
}

/// The rows of one parsed dossier: its dossier row, one row per subdocument (in order), and
/// its manifest row.
pub fn dossier_rows(
    session_id: u32,
    dossier_id: &str,
    dossier: Dossier,
    stem: &str,
    source_url: &str,
    cache_path: &str,
    content_hash: &str,
    fetched_at: &str,
    checked_at: &str,
    run_mode: &str,
) -> (r: (ScrapedDossier, Vec<ScrapedSubdocument>, SourceManifestRow))
    requires
        dossier.subdocuments@.len() < u32::MAX,
    ensures
        dossier_row_ok(r.0, dossier, session_id, dossier_id@, stem@, source_url@, cache_path@),
        r.1@.len() == dossier.subdocuments@.len(),
        forall|k: int| 0 <= k < r.1@.len() ==> sub_row_ok(#[trigger] r.1@[k], sub_view(dossier.subdocuments@[k]), source_url@, cache_path@),
        parsed_manifest_ok(r.2, session_id, dossier_id@, dossier.subdocuments@.len(), source_url@, cache_path@, content_hash@,
            fetched_at@, checked_at@, run_mode@),
{
    let (adopted, report) = latest_urls(&dossier.subdocuments);
    proof {
        reveal_strlit(",");
        assert(","@ =~= seq![',']);
    }
    let mut subs: Vec<ScrapedSubdocument> = Vec::new();
    let mut i: usize = 0;
    while i < dossier.subdocuments.len()
        invariant
            i <= dossier.subdocuments@.len(),
            subs@.len() == i,
            ","@ =~= seq![','],
            forall|k: int| 0 <= k < i ==> sub_row_ok(#[trigger] subs@[k], sub_view(dossier.subdocuments@[k]), source_url@, cache_path@),
        decreases dossier.subdocuments.len() - i,
    {
        let sd = &dossier.subdocuments[i];
        let row = ScrapedSubdocument {
            dossier_id: sd.dossier_id.clone(),
            id: sd.id.clone(),
            date: sd.date.clone(),
            document_type: owned(sd.document_type.as_str()),
            authors: join_strs(sd.authors.as_slice(), ","),
            file_url: opt_string_view(&sd.file_url),
            source_url: owned(source_url),
            cache_path: owned(cache_path),
        };
        assert(row.authors@ == join(sd.authors.deep_view(), seq![',']));
        assert(sub_row_ok(row, sub_view(dossier.subdocuments@[i as int]), source_url@, cache_path@));
        subs.push(row);
        i = i + 1;
    }
    let count = dossier.subdocuments.len() as u32;
    let mut sid = String::new();
    push_decimal(&mut sid, session_id as u64);
    let manifest = SourceManifestRow {
        source: owned(SOURCE_NAME),
        session_id: sid,
        item_kind: owned("dossier"),
        native_item_id: owned(dossier_id),
        source_url: owned(source_url),
        cache_path: owned(cache_path),
        status: owned(MANIFEST_STATUS_PARSED),
        row_count: 1 + count,
        content_type: owned("text/html"),
        content_hash: owned(content_hash),
        fetched_at: owned(fetched_at),
        checked_at: owned(checked_at),
        run_mode: owned(run_mode),
        detail: String::new(),
    };
    let row = ScrapedDossier {
        session_id,
        dossier_id: owned(dossier_id),
        last_updated: last_updated_exec(session_id, dossier_id, stem),
        title: dossier.title,
        authors: join_strs(dossier.authors.as_slice(), ","),
        submission_date: dossier.submission_date,
        end_date: dossier.end_date,
        vote_date: dossier.vote_date,
        document_type: owned(dossier.document_type.as_str()),
        status: owned(dossier.status.as_str()),
        latest_adopted_text_url: adopted,
        latest_report_url: report,
        eurovoc_main_descriptor: dossier.eurovoc_main_descriptor,
        eurovoc_descriptors: dossier.eurovoc_descriptors,
        original_text_url: dossier.original_text_url,
        source_url: owned(source_url),
        cache_path: owned(cache_path),
    };
    (row, subs, manifest)
}

/// The manifest row of an expected dossier that the site answered with 404.
pub fn not_found_manifest_row(session_id: u32, dossier_id: &str, source_url: &str, checked_at: &str, run_mode: &str) -> (r: SourceManifestRow)
    ensures
        r.source@ == SOURCE_NAME@,
        r.session_id@ == decimal(session_id as nat),
        r.item_kind@ == "dossier"@,
        r.native_item_id@ == dossier_id@,
        r.source_url@ == source_url@,
        r.cache_path@ == Seq::<char>::empty(),
        r.status@ == MANIFEST_STATUS_NOT_FOUND@,
        r.row_count == 0,
        r.content_type@ == Seq::<char>::empty(),
        r.content_hash@ == Seq::<char>::empty(),
        r.fetched_at@ == Seq::<char>::empty(),
        r.checked_at@ == checked_at@,
        r.run_mode@ == run_mode@,
        r.detail@ == "HTTP 404"@,
{
    let mut sid = String::new();
    push_decimal(&mut sid, session_id as u64);
    SourceManifestRow {
        source: owned(SOURCE_NAME),
        session_id: sid,
        item_kind: owned("dossier"),
        native_item_id: owned(dossier_id),
        source_url: owned(source_url),
        cache_path: String::new(),
        status: owned(MANIFEST_STATUS_NOT_FOUND),
        row_count: 0,
        content_type: String::new(),
        content_hash: String::new(),
        fetched_at: String::new(),
        checked_at: owned(checked_at),
        run_mode: owned(run_mode),
        detail: owned("HTTP 404"),
    }
}

/// The numeric value of a dossier id, `0` when it does not read as a number.
pub open spec fn id_number(id: Seq<char>) -> u32 {
    match parse_u32(id) {
        Some(v) => v,
        None => 0u32,
    }
}

/// `x` inserted into a list ordered by id number after every id whose number is not
/// larger.
pub open spec fn insert_by_number(s: Seq<Seq<char>>, x: Seq<char>) -> Seq<Seq<char>>
    decreases s.len(),
{
    if s.len() == 0 {
        seq![x]
    } else if id_number(x) < id_number(s.last()) {
        insert_by_number(s.drop_last(), x).push(s.last())
    } else {
        s.push(x)
    }
}

/// The ids in order of their numbers, equal numbers keeping their order (a stable sort).
pub open spec fn ids_by_number(v: Seq<Seq<char>>) -> Seq<Seq<char>>
    decreases v.len(),
{
    if v.len() == 0 {
        Seq::empty()
    } else {
        insert_by_number(ids_by_number(v.drop_last()), v.last())
    }
}

proof fn lemma_insert_by_number_split(s: Seq<Seq<char>>, x: Seq<char>, j: int)
    requires
        0 <= j <= s.len(),
        forall|k: int| j <= k < s.len() ==> id_number(x) < id_number(#[trigger] s[k]),
        j == 0 || id_number(x) >= id_number(s[j - 1]),
    ensures
        insert_by_number(s, x) == s.take(j).push(x) + s.skip(j),
    decreases s.len(),
{
    if s.len() == 0 {
        assert(s.take(j).push(x) + s.skip(j) =~= seq![x]);
    } else if j == s.len() {
        assert(s.take(j) =~= s);
        assert(s.take(j).push(x) + s.skip(j) =~= s.push(x));
    } else {
        lemma_insert_by_number_split(s.drop_last(), x, j);
        assert(s.drop_last().take(j) =~= s.take(j));
        assert(s.take(j).push(x) + s.skip(j) =~= (s.drop_last().take(j).push(x) + s.drop_last().skip(j)).push(s.last()));
    }
}

/// The ids are in the order of their numbers.
pub open spec fn ordered_by_number(s: Seq<Seq<char>>) -> bool {
    forall|i: int, j: int| 0 <= i < j < s.len() ==> id_number(#[trigger] s[i]) <= id_number(#[trigger] s[j])
}

proof fn lemma_insert_by_number_ordered(s: Seq<Seq<char>>, x: Seq<char>)
    requires
        ordered_by_number(s),
    ensures
        ordered_by_number(insert_by_number(s, x)),
        insert_by_number(s, x).len() == s.len() + 1,
        forall|k: int| 0 <= k < insert_by_number(s, x).len() ==>
            #[trigger] insert_by_number(s, x)[k] == x || s.contains(insert_by_number(s, x)[k]),
    decreases s.len(),
{
    let r = insert_by_number(s, x);
    if s.len() == 0 {
    } else if id_number(x) < id_number(s.last()) {
        let d = s.drop_last();
        assert forall|i: int, j: int| 0 <= i < j < d.len() implies id_number(#[trigger] d[i]) <= id_number(#[trigger] d[j]) by {
            assert(d[i] == s[i] && d[j] == s[j]);
        }
        lemma_insert_by_number_ordered(d, x);
        let q = insert_by_number(d, x);
        assert forall|k: int| 0 <= k < q.len() implies id_number(#[trigger] q[k]) <= id_number(s.last()) by {
            if q[k] != x {
                let w = choose|w: int| 0 <= w < d.len() && d[w] == q[k];
                assert(s[w] == d[w]);
                assert(id_number(s[w]) <= id_number(s[s.len() - 1]));
            }
        }
        assert forall|i: int, j: int| 0 <= i < j < r.len() implies id_number(#[trigger] r[i]) <= id_number(#[trigger] r[j]) by {
            assert(r[i] == q[i]);
            if j < q.len() {
                assert(r[j] == q[j]);
            }
        }
        assert forall|k: int| 0 <= k < r.len() implies #[trigger] r[k] == x || s.contains(r[k]) by {
            if k < q.len() {
                assert(r[k] == q[k]);
                if q[k] != x {
                    let w = choose|w: int| 0 <= w < d.len() && d[w] == q[k];
                    assert(s[w] == d[w]);
                }
            } else {
                assert(r[k] == s[s.len() - 1]);
            }
        }
    } else {
        assert forall|k: int| 0 <= k < r.len() implies #[trigger] r[k] == x || s.contains(r[k]) by {
            if k < s.len() {
                assert(r[k] == s[k]);
            }
        }
        assert forall|i: int, j: int| 0 <= i < j < r.len() implies id_number(#[trigger] r[i]) <= id_number(#[trigger] r[j]) by {
            assert(r[i] == s[i]);
            if j < s.len() {
                assert(r[j] == s[j]);
            } else {
                assert(id_number(s[i]) <= id_number(s[s.len() - 1]) || i == s.len() - 1);
            }
        }
    }
}

/// Sorting by number orders the ids by their numbers.
pub proof fn lemma_ids_by_number_ordered(v: Seq<Seq<char>>)
    ensures
        ordered_by_number(ids_by_number(v)),
    decreases v.len(),
{
    if v.len() > 0 {
        lemma_ids_by_number_ordered(v.drop_last());
        lemma_insert_by_number_ordered(ids_by_number(v.drop_last()), v.last());
    }
}

/// The expected dossier ids, in numeric order.
pub fn sort_ids_by_number(ids: &Vec<String>) -> (r: Vec<String>)
    ensures
        r.deep_view() == ids_by_number(ids.deep_view()),
        ordered_by_number(r.deep_view()),
{
    proof {
        lemma_ids_by_number_ordered(ids.deep_view());
    }
    let mut out: Vec<String> = Vec::new();
    let mut nums: Vec<u32> = Vec::new();
    let mut i: usize = 0;
    while i < ids.len()
        invariant
            i <= ids@.len(),
            out.deep_view() == ids_by_number(ids.deep_view().take(i as int)),
            nums@.len() == out@.len(),
            forall|k: int| 0 <= k < nums@.len() ==> nums@[k] == id_number(#[trigger] out.deep_view()[k]),
        decreases ids.len() - i,
    {
        proof {
            assert(ids.deep_view().take(i + 1).drop_last() =~= ids.deep_view().take(i as int));
        }
        let x = ids[i].clone();
        let n: u32 = match parse_u32_str(x.as_str()) { Some(v) => v, None => 0 };
        let mut j: usize = out.len();
        while j > 0
            invariant
                j <= out@.len(),
                nums@.len() == out@.len(),
                forall|k: int| 0 <= k < nums@.len() ==> nums@[k] == id_number(#[trigger] out.deep_view()[k]),
                n == id_number(x@),
                forall|k: int| j <= k < out@.len() ==> id_number(x@) < id_number(#[trigger] out.deep_view()[k]),
            ensures
                j <= out@.len(),
                forall|k: int| j <= k < out@.len() ==> id_number(x@) < id_number(#[trigger] out.deep_view()[k]),
                j == 0 || id_number(x@) >= id_number(out.deep_view()[j - 1]),
            decreases j,
        {
            if n < nums[j - 1] {
                j = j - 1;
            } else {
                break;
            }
        }
        proof {
            lemma_insert_by_number_split(out.deep_view(), x@, j as int);
        }
        let ghost before = out.deep_view();
        let ghost nbefore = nums@;
        out.insert(j, x);
        nums.insert(j, n);
        assert(out.deep_view() =~= before.take(j as int).push(ids.deep_view()[i as int]) + before.skip(j as int));
        assert forall|k: int| 0 <= k < nums@.len() implies nums@[k] == id_number(#[trigger] out.deep_view()[k]) by {
            if k < j {
                assert(nums@[k] == nbefore[k]);
                assert(out.deep_view()[k] == before[k]);
            } else if k == j {
            } else {
                assert(nums@[k] == nbefore[k - 1]);
                assert(out.deep_view()[k] == before[k - 1]);
            }
        }
        i = i + 1;
    }
    assert(ids.deep_view().take(ids@.len() as int) =~= ids.deep_view());
    out
}

} // verus!
