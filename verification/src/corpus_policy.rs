//! Central catalog for plenary meeting-report corpus policy.
//!
//! Raw HTML and the report blocks remain canonical evidence even when text is not
//! promoted to utterance rows.
use vstd::prelude::*;
use crate::agenda_timeline::MeetingKind;
use crate::report_blocks::{BlockTag, ReportBlock};
use crate::text::{contains, lowercase, str_contains, to_lower};

verus! {

/// Human-readable policy document path (repo-relative).
pub const POLICY_DOC: &'static str = "docs/meeting-report-corpus-policy.md";

#[derive(Debug, Clone, Copy, PartialEq, Eq, Structural)]
pub enum CorpusClass {
    /// Opening session, credentials verification, agenda adoption.
    Constitutive,
    /// Constitutive plus funeral tributes, appointments, admin comms.
    ConstitutiveAdministrative,
    /// Contains procedural oath/credentials items but substantial political content.
    Mixed,
    /// Ordinary session opening with bureau/commission appointments.
    SessionOpening,
    /// Vote-dominated sitting; vote QA is the primary completeness metric.
    VoteDominated,
}

impl CorpusClass {
    pub open spec fn name(self) -> Seq<char> {
        match self {
            CorpusClass::Constitutive => "constitutive"@,
            CorpusClass::ConstitutiveAdministrative => "constitutive_administrative"@,
            CorpusClass::Mixed => "mixed"@,
            CorpusClass::SessionOpening => "session_opening"@,
            CorpusClass::VoteDominated => "vote_dominated"@,
        }
    }

    pub fn as_str(self) -> (r: &'static str)
        ensures
            r@ == self.name(),
    {
        match self {
            CorpusClass::Constitutive => "constitutive",
            CorpusClass::ConstitutiveAdministrative => "constitutive_administrative",
            CorpusClass::Mixed => "mixed",
            CorpusClass::SessionOpening => "session_opening",
            CorpusClass::VoteDominated => "vote_dominated",
        }
    }

    /// Whole-report classes where low speech-coverage is expected by policy.
    pub fn suppresses_coverage_warning(self) -> (r: bool)
        ensures
            r == (self == CorpusClass::Constitutive || self == CorpusClass::ConstitutiveAdministrative),
    {
        match self {
            CorpusClass::Constitutive | CorpusClass::ConstitutiveAdministrative => true,
            _ => false,
        }
    }
}

pub struct CorpusClassification {
    pub class: CorpusClass,
    /// Short note surfaced in QA detail rows.
    pub note: &'static str,
}

/// The catalogued class of a meeting (session 56 plenary meetings), if it has one.
pub open spec fn catalog_class(session_id: u32, meeting_kind: MeetingKind, meeting_id: u32) -> Option<CorpusClass> {
    if session_id != 56 || meeting_kind != MeetingKind::Plenary {
        None
    } else if meeting_id == 1 || meeting_id == 2 || meeting_id == 3 {
        Some(CorpusClass::Constitutive)
    } else if meeting_id == 4 {
        Some(CorpusClass::ConstitutiveAdministrative)
    } else if meeting_id == 7 || meeting_id == 15 || meeting_id == 24 || meeting_id == 35 || meeting_id == 63
        || meeting_id == 69 || meeting_id == 93 || meeting_id == 119 {
        Some(CorpusClass::Mixed)
    } else if meeting_id == 67 {
        Some(CorpusClass::SessionOpening)
    } else if meeting_id == 79 {
        Some(CorpusClass::VoteDominated)
    } else {
        None
    }
}

/// The explicit session catalog. Prefer this over heuristics for known meetings.
pub fn classify_meeting(session_id: u32, meeting_kind: MeetingKind, meeting_id: u32) -> (r: Option<CorpusClassification>)
    ensures
        match r {
            Some(c) => catalog_class(session_id, meeting_kind, meeting_id) == Some(c.class),
            None => catalog_class(session_id, meeting_kind, meeting_id) is None,
        },
{
    if session_id != 56 || meeting_kind != MeetingKind::Plenary {
        return None;
    }
    let (class, note) = if meeting_id == 1 {
        (CorpusClass::Constitutive, "opening extraordinary session; credentials verification; agenda adoption")
    } else if meeting_id == 2 {
        (CorpusClass::Constitutive, "credentials reports, admission votes, constitutional oaths (56-2.html)")
    } else if meeting_id == 3 {
        (CorpusClass::Constitutive, "admission, credentials verification, oath report (56-3.html)")
    } else if meeting_id == 4 {
        (CorpusClass::ConstitutiveAdministrative, "oaths, tributes, appointments, administrative communications (56-4.html)")
    } else if meeting_id == 24 {
        (CorpusClass::Mixed, "successor oaths plus government declaration and confidence motion")
    } else if meeting_id == 7 || meeting_id == 15 || meeting_id == 35 || meeting_id == 63 || meeting_id == 69
        || meeting_id == 93 || meeting_id == 119 {
        (CorpusClass::Mixed, "contains oath/credentials item plus substantive debate")
    } else if meeting_id == 67 {
        (CorpusClass::SessionOpening, "ordinary session opening, bureau/commission appointments, chair address")
    } else if meeting_id == 79 {
        (CorpusClass::VoteDominated, "confidence and motion votes dominate; speech coverage is secondary")
    } else {
        return None;
    };
    Some(CorpusClassification { class, note })
}

pub open spec fn credentials_heading(text: Seq<char>) -> bool {
    let folded = lowercase(text);
    contains(folded, "onderzoek van de geloofsbrieven"@) || contains(
        folded,
        "vérification des pouvoirs et prestations de serment"@,
    ) || contains(folded, "verification des pouvoirs et prestations de serment"@)
}

/// Procedural credentials/oath agenda headings (h1/h2), not debate prose.
pub fn is_procedural_credentials_heading(text: &str) -> (r: bool)
    ensures
        r == credentials_heading(text@),
{
    let folded = to_lower(text);
    let f = folded.as_str();
    str_contains(f, "onderzoek van de geloofsbrieven") || str_contains(
        f,
        "vérification des pouvoirs et prestations de serment",
    ) || str_contains(f, "verification des pouvoirs et prestations de serment")
}

pub open spec fn political_agenda_heading(text: Seq<char>) -> bool {
    let f = lowercase(text);
    contains(f, "interpellatie"@) || contains(f, "interpellation"@) || contains(f, " mondelinge vragen"@)
        || contains(f, " questions orales"@) || contains(f, "regeringsverklaring"@) || contains(
        f,
        "déclaration gouvernementale"@,
    ) || contains(f, "motie van vertrouwen"@) || contains(f, "motion de confiance"@) || contains(
        f,
        "algemeen debat"@,
    ) || contains(f, "débat d'actualité"@) || contains(f, " vraag van "@) || contains(f, " question de "@)
}

fn is_political_agenda_heading(text: &str) -> (r: bool)
    ensures
        r == political_agenda_heading(text@),
{
    let folded = to_lower(text);
    let f = folded.as_str();
    str_contains(f, "interpellatie") || str_contains(f, "interpellation") || str_contains(f, " mondelinge vragen")
        || str_contains(f, " questions orales") || str_contains(f, "regeringsverklaring") || str_contains(
        f,
        "déclaration gouvernementale",
    ) || str_contains(f, "motie van vertrouwen") || str_contains(f, "motion de confiance") || str_contains(
        f,
        "algemeen debat",
    ) || str_contains(f, "débat d'actualité") || str_contains(f, " vraag van ") || str_contains(f, " question de ")
}

pub open spec fn is_heading_block(b: ReportBlock) -> bool {
    b.tag == BlockTag::H1 || b.tag == BlockTag::H2
}

/// A whole-report constitutive session: some H1/H2 is a credentials heading, and no H1/H2
/// that is not one is a political agenda heading.
pub open spec fn whole_report_constitutive(blocks: Seq<ReportBlock>) -> bool {
    (exists|i: int| 0 <= i < blocks.len() && is_heading_block(blocks[i]) && #[trigger] credentials_heading(blocks[i].text@))
        && !(exists|i: int|
        0 <= i < blocks.len() && is_heading_block(blocks[i]) && !credentials_heading(blocks[i].text@)
            && #[trigger] political_agenda_heading(blocks[i].text@))
}

pub fn whole_report_constitutive_from_blocks(blocks: &[ReportBlock]) -> (r: bool)
    ensures
        r == whole_report_constitutive(blocks@),
{
    let mut has_credentials_heading = false;
    let mut has_political_agenda = false;
    let mut i: usize = 0;
    while i < blocks.len()
        invariant
            i <= blocks.len(),
            has_credentials_heading == exists|k: int|
                0 <= k < i && is_heading_block(blocks@[k]) && #[trigger] credentials_heading(blocks@[k].text@),
            has_political_agenda == exists|k: int|
                0 <= k < i && is_heading_block(blocks@[k]) && !credentials_heading(blocks@[k].text@)
                    && #[trigger] political_agenda_heading(blocks@[k].text@),
        decreases blocks.len() - i,
    {
        let block = &blocks[i];
        if block.tag == BlockTag::H1 || block.tag == BlockTag::H2 {
            if is_procedural_credentials_heading(block.text.as_str()) {
                has_credentials_heading = true;
            } else if is_political_agenda_heading(block.text.as_str()) {
                has_political_agenda = true;
            }
        }
        i = i + 1;
    }
    has_credentials_heading && !has_political_agenda
}

} // verus!
