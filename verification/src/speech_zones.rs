//! Shared speech / vote-appendix zone predicates for segmentation and QA coverage.
use vstd::prelude::*;
use crate::pattern::{re_is_match, regex_is_match};

verus! {

/// Phrases after which a speaker turn cannot continue.
pub const HARD_BOUNDARY_PATTERN: &'static str = r"(?i)(?:Het incident is gesloten|L'incident est clos|DETAIL VAN DE NAAMSTEMMINGEN)";
/// The heading of the roll-call detail appendix.
pub const VOTE_APPENDIX_PATTERN: &'static str = r"(?i)DETAIL VAN DE NAAMSTEMMINGEN";
/// A paragraph that is only a stage direction.
pub const STAGE_DIRECTION_PATTERN: &'static str = r"(?i)^(?:Hervatting van de algemene bespreking|Reprise de la discussion générale)$";
/// The header of one roll call in the appendix.
pub const VOTE_APPENDIX_BUCKET_PATTERN: &'static str = r"(?i)Naamstemming\s*-\s*Vote\s*nominatif\s*:\s*\d+";

pub fn is_vote_appendix_heading(text: &str) -> (r: bool)
    ensures
        r == regex_is_match(VOTE_APPENDIX_PATTERN@, text@),
{
    re_is_match(VOTE_APPENDIX_PATTERN, text)
}

pub fn is_hard_boundary(text: &str) -> (r: bool)
    ensures
        r == regex_is_match(HARD_BOUNDARY_PATTERN@, text@),
{
    re_is_match(HARD_BOUNDARY_PATTERN, text)
}

pub fn is_stage_direction(text: &str) -> (r: bool)
    ensures
        r == regex_is_match(STAGE_DIRECTION_PATTERN@, text@),
{
    re_is_match(STAGE_DIRECTION_PATTERN, text)
}

pub fn is_vote_appendix_bucket_header(text: &str) -> (r: bool)
    ensures
        r == regex_is_match(VOTE_APPENDIX_BUCKET_PATTERN@, text@),
{
    re_is_match(VOTE_APPENDIX_BUCKET_PATTERN, text)
}

} // verus!
