//! Verified core of the Belgian parliament report crawler.
pub mod text;
pub mod pattern;
pub mod utils;
pub mod source_manifest;
pub mod meeting_gaps;
pub mod freshness;
pub mod cache_meta;
pub mod report_blocks;
pub mod report_html;
pub mod vote_patterns;
pub mod vote_types;
pub mod vote_events;
pub mod vote_assembly;
pub mod vote_inventory;
pub mod question_boundaries;
pub mod agenda_timeline;
pub mod proceeding_entities;
pub mod corpus_policy;
pub mod speech_zones;
pub mod speaker_parse;
pub mod utterance_segment;
pub mod oral_questions;
pub mod qrva_text;
pub mod answer_io;
pub mod written_oral_qa;
pub mod artifact_id;
pub mod provenance;
pub mod source_spans;
pub mod meeting_report;
pub mod json;
pub mod report_blocks_io;
pub mod meeting_parse;
pub mod agenda_io;
pub mod qa_coverage;
pub mod qa_markers;
pub mod commissions;
pub mod commission_meetings;
pub mod dossiers;
pub mod dossier_html;
pub mod dossier_outputs;
pub mod written_qa;
pub mod atomic_io;
pub mod report_text;
