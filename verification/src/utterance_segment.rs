//! Speaker turns of a meeting report cut into utterances.
use vstd::prelude::*;
use crate::agenda_timeline::{AgendaItem, MeetingKind, agenda_item_for_block, item_covers};
use crate::pattern::regex_is_match;
use crate::speaker_parse::{language_of_class, turn_speaker, turn_start_of, turn_view};
use crate::speech_zones::{HARD_BOUNDARY_PATTERN, STAGE_DIRECTION_PATTERN, VOTE_APPENDIX_PATTERN};
use crate::utils::agenda_item_id_spec;
use crate::report_blocks::{BlockTag, ReportBlock};
use crate::speaker_parse::{SpeakerRole, TurnStart, detect_turn_start, language_from_class, parse_turn_start};
use crate::speech_zones::{is_hard_boundary, is_stage_direction, is_vote_appendix_heading};
use crate::text::{
    decimal, join, join_strs, lowercase, split, owned, push_char, push_decimal, push_str, replace,
    replace_char_str, split_str, str_eq, to_lower, trim, trim_str,
};
use crate::utils::agenda_item_id;
use vstd::utf8::{decode_utf8, encode_utf8, is_char_boundary};

verus! {

pub struct UtteranceDraft {
    pub utterance_id: String,
    pub session_id: u32,
    pub meeting_id: u32,
    pub meeting_kind: MeetingKind,
    pub agenda_id: String,
    pub agenda_item_id: String,
    pub turn_number: String,
    pub seq: u32,
    pub item_kind: String,
    pub item_id: String,
    pub question_ids: String,
    pub dossier_id: String,
    pub document_id: String,
    pub motion_id: String,
    pub vote_id: String,
    pub raw_speaker: String,
    pub speaker_role: String,
    pub text: String,
    pub language: String,
    pub block_start: u32,
    pub block_end: u32,
    pub source_section: String,
    pub source_url: String,
    pub cache_path: String,
}

struct OpenTurn {
    turn_number: String,
    raw_speaker: String,
    speaker_role: SpeakerRole,
    text: String,
    language: String,
    block_start: u32,
    block_end: u32,
    agenda_id: String,
    agenda_item_id: String,
    item_kind: String,
    item_id: String,
    question_ids: String,
    dossier_id: String,
    document_id: String,
    source_section: String,
}

/// A speaker turn as plain values.
pub struct TurnSpec {
    pub turn_number: Seq<char>,
    pub raw_speaker: Seq<char>,
    pub speaker_role: SpeakerRole,
    pub text: Seq<char>,
    pub language: Seq<char>,
    pub block_start: u32,
    pub block_end: u32,
    pub agenda_id: Seq<char>,
    pub agenda_item_id: Seq<char>,
    pub item_kind: Seq<char>,
    pub item_id: Seq<char>,
    pub question_ids: Seq<char>,
    pub dossier_id: Seq<char>,
    pub document_id: Seq<char>,
    pub source_section: Seq<char>,
}

spec fn turn_spec(t: OpenTurn) -> TurnSpec {
    TurnSpec {
        turn_number: t.turn_number@,
        raw_speaker: t.raw_speaker@,
        speaker_role: t.speaker_role,
        text: t.text@,
        language: t.language@,
        block_start: t.block_start,
        block_end: t.block_end,
        agenda_id: t.agenda_id@,
        agenda_item_id: t.agenda_item_id@,
        item_kind: t.item_kind@,
        item_id: t.item_id@,
        question_ids: t.question_ids@,
        dossier_id: t.dossier_id@,
        document_id: t.document_id@,
        source_section: t.source_section@,
    }
}

/// The key under which bilingual renderings of one turn collapse.
pub open spec fn turn_key(u: UtteranceDraft) -> (Seq<char>, Seq<char>, Seq<char>) {
    (u.agenda_id@, u.turn_number@, lowercase(u.raw_speaker@))
}

/// `{session}_{kind}_{meeting}_{agenda}_{turn}` with the dots of the turn made underscores;
/// a turn without a number is `chair_{n}`, `n` its position among the meeting's turns.
pub open spec fn utterance_id_of(
    session_id: u32,
    kind: Seq<char>,
    meeting_id: u32,
    agenda_id: Seq<char>,
    turn_number: Seq<char>,
    seq: u32,
) -> Seq<char> {
    let key = if turn_number.len() == 0 { "chair_"@ + decimal((seq - 1) as nat) } else { turn_number };
    decimal(session_id as nat) + seq!['_'] + kind + seq!['_'] + decimal(meeting_id as nat) + seq!['_'] + agenda_id
        + seq!['_'] + replace(key, seq!['.'], seq!['_'])
}

/// What every utterance of a meeting satisfies.
pub open spec fn utterance_ok(
    u: UtteranceDraft,
    meeting_kind: MeetingKind,
    session_id: u32,
    meeting_id: u32,
    source_url: Seq<char>,
    cache_path: Seq<char>,
) -> bool {
    &&& u.session_id == session_id && u.meeting_id == meeting_id && u.meeting_kind == meeting_kind
    &&& u.seq >= 1
    &&& u.utterance_id@ == utterance_id_of(session_id, meeting_kind.name(), meeting_id, u.agenda_id@, u.turn_number@, u.seq)
    &&& u.source_url@ == source_url && u.cache_path@ == cache_path
}

/// A turn is kept unless both its text (trimmed) and its speaker are empty.
pub open spec fn turn_kept(turn: TurnSpec) -> bool {
    !(trim(turn.text).len() == 0 && turn.raw_speaker.len() == 0)
}

/// The utterance `u` is turn `turn` of the meeting, numbered `seq`.
pub open spec fn utterance_of_turn(
    u: UtteranceDraft,
    turn: TurnSpec,
    meeting_kind: MeetingKind,
    session_id: u32,
    meeting_id: u32,
    source_url: Seq<char>,
    cache_path: Seq<char>,
    seq: u32,
) -> bool {
    &&& utterance_ok(u, meeting_kind, session_id, meeting_id, source_url, cache_path)
    &&& u.seq == seq
    &&& u.agenda_id@ == turn.agenda_id
    &&& u.agenda_item_id@ == turn.agenda_item_id
    &&& u.turn_number@ == turn.turn_number
    &&& u.item_kind@ == turn.item_kind
    &&& u.item_id@ == turn.item_id
    &&& u.question_ids@ == turn.question_ids
    &&& u.dossier_id@ == turn.dossier_id
    &&& u.document_id@ == turn.document_id
    &&& u.motion_id@.len() == 0
    &&& u.vote_id@.len() == 0
    &&& u.raw_speaker@ == turn.raw_speaker
    &&& u.speaker_role@ == turn.speaker_role.name()
    &&& u.text@ == trim(turn.text)
    &&& u.language@ == turn.language
    &&& u.block_start == turn.block_start
    &&& u.block_end == turn.block_end
    &&& u.source_section@ == turn.source_section
}

fn push_turn(
    utterances: &mut Vec<UtteranceDraft>,
    turn: OpenTurn,
    meeting_kind: MeetingKind,
    session_id: u32,
    meeting_id: u32,
    source_url: &str,
    cache_path: &str,
    seq: &mut u32,
)
    requires
        *old(seq) < u32::MAX,
        forall|k: int| 0 <= k < old(utterances)@.len() ==> utterance_ok(#[trigger] old(utterances)@[k], meeting_kind, session_id, meeting_id, source_url@, cache_path@),
    ensures
        *final(seq) <= *old(seq) + 1,
        forall|k: int| 0 <= k < final(utterances)@.len() ==> utterance_ok(#[trigger] final(utterances)@[k], meeting_kind, session_id, meeting_id, source_url@, cache_path@),
        !turn_kept(turn_spec(turn)) ==> final(utterances)@ == old(utterances)@ && *final(seq) == *old(seq),
        turn_kept(turn_spec(turn)) ==> {
            &&& *final(seq) == *old(seq) + 1
            &&& final(utterances)@ == old(utterances)@.push(final(utterances)@.last())
            &&& utterance_of_turn(final(utterances)@.last(), turn_spec(turn), meeting_kind, session_id, meeting_id, source_url@, cache_path@, *final(seq))
        },
{
    let ghost turn0 = turn;
    let trimmed = trim_str(turn.text.as_str());
    if trimmed.as_str().is_empty() && turn.raw_speaker.as_str().is_empty() {
        return;
    }
    let turn_key = if turn.turn_number.as_str().is_empty() {
        let mut k = owned("chair_");
        push_decimal(&mut k, *seq as u64);
        k
    } else {
        turn.turn_number.clone()
    };
    proof {
        reveal_strlit("_");
    }
    let slug = replace_char_str(turn_key.as_str(), '.', "_");
    assert("_"@ =~= seq!['_']);
    let mut utterance_id = String::new();
    push_decimal(&mut utterance_id, session_id as u64);
    push_char(&mut utterance_id, '_');
    push_str(&mut utterance_id, meeting_kind.as_str());
    push_char(&mut utterance_id, '_');
    push_decimal(&mut utterance_id, meeting_id as u64);
    push_char(&mut utterance_id, '_');
    push_str(&mut utterance_id, turn.agenda_id.as_str());
    push_char(&mut utterance_id, '_');
    push_str(&mut utterance_id, slug.as_str());
    *seq = *seq + 1;
    let ghost before = utterances@;
    let u = UtteranceDraft {
        utterance_id,
        session_id,
        meeting_id,
        meeting_kind,
        agenda_id: turn.agenda_id,
        agenda_item_id: turn.agenda_item_id,
        turn_number: turn.turn_number,
        seq: *seq,
        item_kind: turn.item_kind,
        item_id: turn.item_id,
        question_ids: turn.question_ids,
        dossier_id: turn.dossier_id,
        document_id: turn.document_id,
        motion_id: String::new(),
        vote_id: String::new(),
        raw_speaker: turn.raw_speaker,
        speaker_role: turn.speaker_role.as_str().to_string(),
        text: trimmed,
        language: turn.language,
        block_start: turn.block_start,
        block_end: turn.block_end,
        source_section: turn.source_section,
        source_url: source_url.to_string(),
        cache_path: cache_path.to_string(),
    };
    assert(u.utterance_id@ =~= utterance_id_of(session_id, meeting_kind.name(), meeting_id, u.agenda_id@, u.turn_number@, u.seq));
    assert(utterance_of_turn(u, turn_spec(turn0), meeting_kind, session_id, meeting_id, source_url@, cache_path@, *seq));
    utterances.push(u);
    proof {
        assert forall|k: int| 0 <= k < utterances@.len() implies utterance_ok(#[trigger] utterances@[k], meeting_kind, session_id, meeting_id, source_url@, cache_path@) by {
            if k < before.len() {
                assert(utterances@[k] == before[k]);
            }
        }
    }
}

/// The byte length of an utterance's text, as `str::len` gives it.
pub open spec fn text_bytes(u: UtteranceDraft) -> usize {
    encode_utf8(u.text@).len() as usize
}

/// Add `u` to utterances with distinct turn keys: a new key is appended; a known key keeps
/// its position and takes `u` when `u`'s text is longer in bytes.
pub open spec fn dedupe_step(r: Seq<UtteranceDraft>, u: UtteranceDraft) -> Seq<UtteranceDraft> {
    if exists|f: int| 0 <= f < r.len() && turn_key(#[trigger] r[f]) == turn_key(u) {
        let f = choose|f: int| 0 <= f < r.len() && turn_key(#[trigger] r[f]) == turn_key(u);
        if text_bytes(u) > text_bytes(r[f]) {
            r.update(f, u)
        } else {
            r
        }
    } else {
        r.push(u)
    }
}

/// The utterances of `s` with one per turn key.
pub open spec fn deduped(s: Seq<UtteranceDraft>) -> Seq<UtteranceDraft>
    decreases s.len(),
{
    if s.len() == 0 {
        Seq::empty()
    } else {
        dedupe_step(deduped(s.drop_last()), s.last())
    }
}

/// Keep one utterance per turn key: the first position, with the longest text.
fn dedupe_bilingual_turns(
    utterances: Vec<UtteranceDraft>,
    meeting_kind: Ghost<MeetingKind>,
    session_id: Ghost<u32>,
    meeting_id: Ghost<u32>,
    source_url: Ghost<Seq<char>>,
    cache_path: Ghost<Seq<char>>,
) -> (r: Vec<UtteranceDraft>)
    requires
        forall|k: int| 0 <= k < utterances@.len() ==> utterance_ok(#[trigger] utterances@[k], meeting_kind@, session_id@, meeting_id@, source_url@, cache_path@),
    ensures
        forall|k: int| 0 <= k < r@.len() ==> utterance_ok(#[trigger] r@[k], meeting_kind@, session_id@, meeting_id@, source_url@, cache_path@),
        forall|a: int, b: int| 0 <= a < b < r@.len() ==> turn_key(r@[a]) != turn_key(r@[b]),
        r@ == deduped(utterances@),
{
    let mut result: Vec<UtteranceDraft> = Vec::new();
    let mut keys: Vec<(String, String, String)> = Vec::new();
    let mut rest = utterances;
    let mut taken: Vec<UtteranceDraft> = Vec::new();
    let ghost all = rest@;
    let ghost mut consumed: int = 0;
    while rest.len() > 0
        invariant
            0 <= consumed <= all.len(),
            all == utterances@,
            rest@ == all.subrange(consumed, all.len() as int),
            result@ == deduped(all.take(consumed)),
            keys@.len() == result@.len(),
            forall|k: int| 0 <= k < keys@.len() ==> (keys@[k].0@, keys@[k].1@, keys@[k].2@) == turn_key(#[trigger] result@[k]),
            forall|k: int| 0 <= k < rest@.len() ==> utterance_ok(#[trigger] rest@[k], meeting_kind@, session_id@, meeting_id@, source_url@, cache_path@),
            forall|k: int| 0 <= k < result@.len() ==> utterance_ok(#[trigger] result@[k], meeting_kind@, session_id@, meeting_id@, source_url@, cache_path@),
            forall|a: int, b: int| 0 <= a < b < result@.len() ==> turn_key(result@[a]) != turn_key(result@[b]),
        decreases rest.len(),
    {
        let u = rest.remove(0);
        assert(utterance_ok(u, meeting_kind@, session_id@, meeting_id@, source_url@, cache_path@));
        let ghost prev = result@;
        proof {
            assert(u == all[consumed]);
            assert(all.take(consumed + 1).drop_last() =~= all.take(consumed));
            assert(all.take(consumed + 1).last() == u);
            assert(deduped(all.take(consumed + 1)) == dedupe_step(prev, u));
            consumed = consumed + 1;
            assert(rest@ =~= all.subrange(consumed, all.len() as int));
        }
        let lower = to_lower(u.raw_speaker.as_str());
        let mut found: Option<usize> = None;
        let mut q: usize = 0;
        while q < keys.len()
            invariant
                q <= keys.len(),
                found matches Some(f) ==> f < keys@.len() && (keys@[f as int].0@, keys@[f as int].1@, keys@[f as int].2@) == (u.agenda_id@, u.turn_number@, lower@),
                found is None ==> forall|k: int| 0 <= k < q ==> (keys@[k].0@, keys@[k].1@, keys@[k].2@) != (u.agenda_id@, u.turn_number@, lower@),
            decreases keys.len() - q,
        {
            if found.is_none() && str_eq(keys[q].0.as_str(), u.agenda_id.as_str()) && str_eq(keys[q].1.as_str(), u.turn_number.as_str())
                && str_eq(keys[q].2.as_str(), lower.as_str()) {
                found = Some(q);
            }
            q = q + 1;
        }
        proof {
            match found {
                Some(f) => {
                    assert(turn_key(prev[f as int]) == turn_key(u));
                    let g = choose|g: int| 0 <= g < prev.len() && turn_key(#[trigger] prev[g]) == turn_key(u);
                    if g != f as int {
                        if g < f {
                            assert(turn_key(prev[g]) != turn_key(prev[f as int]));
                        } else {
                            assert(turn_key(prev[f as int]) != turn_key(prev[g]));
                        }
                    }
                    assert(g == f as int);
                    assert(dedupe_step(prev, u) == if text_bytes(u) > text_bytes(prev[f as int]) {
                        prev.update(f as int, u)
                    } else {
                        prev
                    });
                },
                None => {
                    assert forall|g: int| 0 <= g < prev.len() implies turn_key(#[trigger] prev[g]) != turn_key(u) by {
                        assert((keys@[g].0@, keys@[g].1@, keys@[g].2@) == turn_key(result@[g]));
                    }
                    assert(dedupe_step(prev, u) == prev.push(u));
                },
            }
        }
        let ghost gu = u;
        match found {
            Some(f) => {
                let longer = u.text.as_str().len() > result[f].text.as_str().len();
                assert(longer == (text_bytes(gu) > text_bytes(prev[f as int])));
                if longer {
                    let ghost before = result@;
                    assert(turn_key(u) == turn_key(before[f as int]));
                    result.set(f, u);
                    assert(result@ == dedupe_step(prev, gu));
                    proof {
                        assert forall|a: int, b: int| 0 <= a < b < result@.len() implies turn_key(result@[a]) != turn_key(result@[b]) by {
                            assert(turn_key(result@[a]) == turn_key(before[a]));
                            assert(turn_key(result@[b]) == turn_key(before[b]));
                        }
                        assert forall|k: int| 0 <= k < keys@.len() implies (keys@[k].0@, keys@[k].1@, keys@[k].2@) == turn_key(#[trigger] result@[k]) by {
                            assert(turn_key(result@[k]) == turn_key(before[k]));
                        }
                        assert forall|k: int| 0 <= k < result@.len() implies utterance_ok(#[trigger] result@[k], meeting_kind@, session_id@, meeting_id@, source_url@, cache_path@) by {
                            if k != f {
                                assert(result@[k] == before[k]);
                            }
                        }
                    }
                }
            },
            None => {
                let ghost before = result@;
                let ghost kbefore = keys@;
                keys.push((u.agenda_id.clone(), u.turn_number.clone(), lower));
                result.push(u);
                assert(result@ == dedupe_step(prev, gu));
                proof {
                    assert forall|a: int, b: int| 0 <= a < b < result@.len() implies turn_key(result@[a]) != turn_key(result@[b]) by {
                        if b == before.len() {
                            assert(result@[a] == before[a]);
                            assert((kbefore[a].0@, kbefore[a].1@, kbefore[a].2@) == turn_key(before[a]));
                        } else {
                            assert(result@[a] == before[a] && result@[b] == before[b]);
                        }
                    }
                    assert forall|k: int| 0 <= k < keys@.len() implies (keys@[k].0@, keys@[k].1@, keys@[k].2@) == turn_key(#[trigger] result@[k]) by {
                        if k < before.len() {
                            assert(result@[k] == before[k] && keys@[k] == kbefore[k]);
                        }
                    }
                    assert forall|k: int| 0 <= k < result@.len() implies utterance_ok(#[trigger] result@[k], meeting_kind@, session_id@, meeting_id@, source_url@, cache_path@) by {
                        if k < before.len() {
                            assert(result@[k] == before[k]);
                        }
                    }
                }
            },
        }
    }
    assert(all.take(all.len() as int) =~= all);
    result
}

/// The agenda prefix of a turn: the item's, else the part of the turn number before its
/// first dot.
fn turn_agenda_id(turn_number: &str, item: Option<&AgendaItem>) -> (r: String)
    ensures
        r@ == match item {
            Some(it) => it.agenda_id@,
            None => if split(turn_number@, '.').len() > 0 {
                split(turn_number@, '.')[0]
            } else {
                "00"@
            },
        },
{
    match item {
        Some(item) => item.agenda_id.clone(),
        None => {
            let parts = split_str(turn_number, '.');
            if parts.len() > 0 {
                parts[0].clone()
            } else {
                "00".to_string()
            }
        },
    }
}

/// The text after the turn marker: the block text from byte `start` on, trimmed; empty
/// when `start` is not a character boundary of the text.
/// The text from byte `start` on, trimmed; empty when `start` is not a character boundary.
pub open spec fn text_after_spec(text: Seq<char>, start: int) -> Seq<char> {
    if is_char_boundary(encode_utf8(text), start) {
        trim(decode_utf8(encode_utf8(text).subrange(start, encode_utf8(text).len() as int)))
    } else {
        Seq::empty()
    }
}

fn text_after(text: &str, start: usize) -> (r: String)
    ensures
        r@ == text_after_spec(text@, start as int),
{
    if text.is_char_boundary(start) {
        let (_, rest) = text.split_at(start);
        proof {
            vstd::utf8::encode_utf8_decode_utf8(rest@);
        }
        trim_str(rest)
    } else {
        String::new()
    }
}

/// The last agenda item among the first `n` whose block range holds `b`.
pub open spec fn last_cover_from(items: Seq<AgendaItem>, b: u32, n: int) -> Option<int>
    decreases n,
{
    if n <= 0 || n > items.len() {
        None
    } else if item_covers(items[n - 1], b) {
        Some(n - 1)
    } else {
        last_cover_from(items, b, n - 1)
    }
}

proof fn lemma_last_cover(items: Seq<AgendaItem>, b: u32, n: int)
    requires
        0 <= n <= items.len(),
    ensures
        match last_cover_from(items, b, n) {
            Some(k) => 0 <= k < n && item_covers(items[k], b) && forall|j: int| k < j < n ==> !item_covers(#[trigger] items[j], b),
            None => forall|j: int| 0 <= j < n ==> !item_covers(#[trigger] items[j], b),
        },
    decreases n,
{
    if n > 0 {
        lemma_last_cover(items, b, n - 1);
    }
}

/// The state of the segmentation: the closed turns, the open turn, and whether the
/// roll-call appendix has begun.
pub struct SegState {
    pub turns: Seq<TurnSpec>,
    pub open: Option<TurnSpec>,
    pub in_appendix: bool,
}

/// The closed turns once the open turn is closed (kept only when it has text or a speaker).
pub open spec fn close_open(turns: Seq<TurnSpec>, open: Option<TurnSpec>) -> Seq<TurnSpec> {
    match open {
        Some(t) => if turn_kept(t) {
            turns.push(t)
        } else {
            turns
        },
        None => turns,
    }
}

/// The turn opened at `block` by the turn start `tv` whose text begins at byte `cs`, in the
/// agenda item `k` when there is one.
pub open spec fn new_turn(
    block: ReportBlock,
    tv: (int, Seq<char>, Seq<char>),
    cs: int,
    agenda: Seq<AgendaItem>,
    k: Option<int>,
    meeting_kind: MeetingKind,
    session_id: u32,
    meeting_id: u32,
) -> TurnSpec {
    let item_kind = match k {
        Some(i) => agenda[i].item_kind.name(),
        None => "unknown"@,
    };
    let sp = turn_speaker(tv, item_kind);
    let turn_number = if tv.0 == 0 {
        tv.1
    } else {
        Seq::empty()
    };
    TurnSpec {
        turn_number,
        raw_speaker: sp.0,
        speaker_role: sp.1,
        text: text_after_spec(block.text@, cs),
        language: language_of_class(
            match block.class {
                Some(c) => Some(c@),
                None => None,
            },
        ),
        block_start: block.index,
        block_end: block.index,
        agenda_id: match k {
            Some(i) => agenda[i].agenda_id@,
            None => if split(turn_number, '.').len() > 0 {
                split(turn_number, '.')[0]
            } else {
                "00"@
            },
        },
        agenda_item_id: match k {
            Some(i) => agenda_item_id_spec(session_id, meeting_kind.name(), meeting_id, agenda[i].start_block),
            None => Seq::empty(),
        },
        item_kind,
        item_id: match k {
            Some(i) => agenda[i].item_id@,
            None => Seq::empty(),
        },
        question_ids: match k {
            Some(i) => join(agenda[i].internal_ids.deep_view(), ","@),
            None => Seq::empty(),
        },
        dossier_id: match k {
            Some(i) => agenda[i].dossier_id@,
            None => Seq::empty(),
        },
        document_id: match k {
            Some(i) => agenda[i].document_id@,
            None => Seq::empty(),
        },
        source_section: match k {
            Some(i) => agenda[i].source_section@,
            None => Seq::empty(),
        },
    }
}

/// The open turn continued by a paragraph: its trimmed text is appended (after a space)
/// and the turn now ends at that block.
pub open spec fn extend_turn(t: TurnSpec, trimmed: Seq<char>, index: u32) -> TurnSpec {
    if trimmed.len() > 0 {
        TurnSpec {
            text: if t.text.len() == 0 {
                trimmed
            } else {
                t.text.push(' ') + trimmed
            },
            block_end: index,
            ..t
        }
    } else {
        t
    }
}

/// One block of the report read by the segmentation.
pub open spec fn seg_step(
    st: SegState,
    block: ReportBlock,
    agenda: Seq<AgendaItem>,
    meeting_kind: MeetingKind,
    session_id: u32,
    meeting_id: u32,
) -> SegState {
    let text = block.text@;
    let closed = close_open(st.turns, st.open);
    if block.tag == BlockTag::Table || block.tag == BlockTag::H1 || block.tag == BlockTag::H2 {
        SegState {
            turns: closed,
            open: None,
            in_appendix: st.in_appendix || (block.tag == BlockTag::H1 && regex_is_match(VOTE_APPENDIX_PATTERN@, text)),
        }
    } else if block.tag != BlockTag::P {
        st
    } else if st.in_appendix || regex_is_match(VOTE_APPENDIX_PATTERN@, text) {
        SegState { turns: closed, open: None, in_appendix: true }
    } else if regex_is_match(HARD_BOUNDARY_PATTERN@, text) {
        SegState { turns: closed, open: None, in_appendix: st.in_appendix }
    } else if regex_is_match(STAGE_DIRECTION_PATTERN@, trim(text)) {
        st
    } else {
        match turn_start_of(text) {
            Some((tv, cs)) => SegState {
                turns: closed,
                open: Some(
                    new_turn(
                        block,
                        tv,
                        cs,
                        agenda,
                        last_cover_from(agenda, block.index, agenda.len() as int),
                        meeting_kind,
                        session_id,
                        meeting_id,
                    ),
                ),
                in_appendix: st.in_appendix,
            },
            None => match st.open {
                Some(t) => SegState { turns: st.turns, open: Some(extend_turn(t, trim(text), block.index)), in_appendix: st.in_appendix },
                None => st,
            },
        }
    }
}

/// The segmentation state after the first `n` blocks.
pub open spec fn seg_upto(
    blocks: Seq<ReportBlock>,
    agenda: Seq<AgendaItem>,
    n: int,
    meeting_kind: MeetingKind,
    session_id: u32,
    meeting_id: u32,
) -> SegState
    decreases n,
{
    if n <= 0 || n > blocks.len() {
        SegState { turns: Seq::empty(), open: None, in_appendix: false }
    } else {
        seg_step(seg_upto(blocks, agenda, n - 1, meeting_kind, session_id, meeting_id), blocks[n - 1], agenda, meeting_kind, session_id, meeting_id)
    }
}

/// The kept speaker turns of a report, in order.
pub open spec fn segment_turns(
    blocks: Seq<ReportBlock>,
    agenda: Seq<AgendaItem>,
    meeting_kind: MeetingKind,
    session_id: u32,
    meeting_id: u32,
) -> Seq<TurnSpec> {
    let st = seg_upto(blocks, agenda, blocks.len() as int, meeting_kind, session_id, meeting_id);
    close_open(st.turns, st.open)
}

/// A block that opens the roll-call appendix: an `h1` or a paragraph naming it.
pub open spec fn opens_appendix(b: ReportBlock) -> bool {
    (b.tag == BlockTag::H1 || b.tag == BlockTag::P) && regex_is_match(VOTE_APPENDIX_PATTERN@, b.text@)
}

/// The agenda item id a turn starting at block `b` is stamped with: that of the last
/// agenda item whose range holds `b`, none outside every item.
pub open spec fn stamped_item_id(agenda: Seq<AgendaItem>, b: u32, meeting_kind: MeetingKind, session_id: u32, meeting_id: u32) -> Seq<char> {
    match last_cover_from(agenda, b, agenda.len() as int) {
        Some(i) => agenda_item_id_spec(session_id, meeting_kind.name(), meeting_id, agenda[i].start_block),
        None => Seq::empty(),
    }
}

/// The block indices rise through the report.
pub open spec fn indices_rising(blocks: Seq<ReportBlock>) -> bool {
    forall|i: int, j: int| 0 <= i < j < blocks.len() ==> (#[trigger] blocks[i]).index < (#[trigger] blocks[j]).index
}

/// A block that closes the open turn and starts none: a table, an `h1` or `h2` heading
/// (an agenda heading, such as a credentials or oath item), or a paragraph that ends an
/// incident.
pub open spec fn breaks_turn(b: ReportBlock) -> bool {
    b.tag == BlockTag::Table || b.tag == BlockTag::H1 || b.tag == BlockTag::H2 || (b.tag == BlockTag::P
        && regex_is_match(HARD_BOUNDARY_PATTERN@, b.text@))
}

/// A turn read from the first `n` blocks: it starts at one of them and ends at one no
/// earlier, ends before every block that opens the roll-call appendix, holds no block of
/// them that breaks a turn, and carries the agenda item id of its first block.
pub open spec fn turn_placed(
    t: TurnSpec,
    blocks: Seq<ReportBlock>,
    n: int,
    agenda: Seq<AgendaItem>,
    meeting_kind: MeetingKind,
    session_id: u32,
    meeting_id: u32,
) -> bool {
    &&& exists|j: int| 0 <= j < n && #[trigger] blocks[j].index == t.block_start
    &&& exists|j: int| 0 <= j < n && #[trigger] blocks[j].index == t.block_end
    &&& t.block_start <= t.block_end
    &&& forall|p: int| 0 <= p < blocks.len() && opens_appendix(#[trigger] blocks[p]) ==> t.block_end < blocks[p].index
    &&& forall|p: int| 0 <= p < n && breaks_turn(#[trigger] blocks[p]) ==> blocks[p].index < t.block_start || t.block_end < blocks[p].index
    &&& t.agenda_item_id == stamped_item_id(agenda, t.block_start, meeting_kind, session_id, meeting_id)
}

/// Every block of the first `n` that breaks a turn comes before the open turn.
spec fn open_clear(t: TurnSpec, blocks: Seq<ReportBlock>, n: int) -> bool {
    forall|p: int| 0 <= p < n && breaks_turn(#[trigger] blocks[p]) ==> blocks[p].index < t.block_start
}

spec fn seg_placed(
    st: SegState,
    blocks: Seq<ReportBlock>,
    n: int,
    agenda: Seq<AgendaItem>,
    meeting_kind: MeetingKind,
    session_id: u32,
    meeting_id: u32,
) -> bool {
    &&& st.in_appendix <==> exists|m: int| 0 <= m < n && opens_appendix(#[trigger] blocks[m])
    &&& st.in_appendix ==> st.open is None
    &&& forall|k: int| 0 <= k < st.turns.len() ==> turn_placed(#[trigger] st.turns[k], blocks, n, agenda, meeting_kind, session_id, meeting_id)
    &&& st.open matches Some(t) ==> turn_placed(t, blocks, n, agenda, meeting_kind, session_id, meeting_id) && open_clear(t, blocks, n)
}

proof fn lemma_placed_grows(
    t: TurnSpec,
    blocks: Seq<ReportBlock>,
    n: int,
    agenda: Seq<AgendaItem>,
    meeting_kind: MeetingKind,
    session_id: u32,
    meeting_id: u32,
)
    requires
        indices_rising(blocks),
        0 <= n < blocks.len(),
        turn_placed(t, blocks, n, agenda, meeting_kind, session_id, meeting_id),
    ensures
        turn_placed(t, blocks, n + 1, agenda, meeting_kind, session_id, meeting_id),
{
    let j = choose|j: int| 0 <= j < n && #[trigger] blocks[j].index == t.block_start;
    assert(0 <= j < n + 1 && blocks[j].index == t.block_start);
    let e = choose|e: int| 0 <= e < n && #[trigger] blocks[e].index == t.block_end;
    assert(0 <= e < n + 1 && blocks[e].index == t.block_end);
    assert(blocks[e].index < blocks[n].index);
}

proof fn lemma_seg_placed(
    blocks: Seq<ReportBlock>,
    agenda: Seq<AgendaItem>,
    n: int,
    meeting_kind: MeetingKind,
    session_id: u32,
    meeting_id: u32,
)
    requires
        indices_rising(blocks),
        0 <= n <= blocks.len(),
    ensures
        seg_placed(seg_upto(blocks, agenda, n, meeting_kind, session_id, meeting_id), blocks, n, agenda, meeting_kind, session_id, meeting_id),
    decreases n,
{
    if n > 0 {
        lemma_seg_placed(blocks, agenda, n - 1, meeting_kind, session_id, meeting_id);
        let st = seg_upto(blocks, agenda, n - 1, meeting_kind, session_id, meeting_id);
        let b = blocks[n - 1];
        let next = seg_upto(blocks, agenda, n, meeting_kind, session_id, meeting_id);
        assert(next == seg_step(st, b, agenda, meeting_kind, session_id, meeting_id));
        let closed = close_open(st.turns, st.open);
        assert forall|k: int| 0 <= k < closed.len() implies turn_placed(#[trigger] closed[k], blocks, n, agenda, meeting_kind, session_id, meeting_id) by {
            if k < st.turns.len() {
                lemma_placed_grows(st.turns[k], blocks, n - 1, agenda, meeting_kind, session_id, meeting_id);
            } else {
                lemma_placed_grows(st.open->0, blocks, n - 1, agenda, meeting_kind, session_id, meeting_id);
            }
        }
        assert forall|k: int| 0 <= k < st.turns.len() implies turn_placed(#[trigger] st.turns[k], blocks, n, agenda, meeting_kind, session_id, meeting_id) by {
            lemma_placed_grows(st.turns[k], blocks, n - 1, agenda, meeting_kind, session_id, meeting_id);
        }
        if st.open is Some {
            lemma_placed_grows(st.open->0, blocks, n - 1, agenda, meeting_kind, session_id, meeting_id);
        }
        // The appendix flag after this block.
        assert forall|m: int| 0 <= m < n - 1 implies !opens_appendix(#[trigger] blocks[m]) || st.in_appendix by {}
        if !st.in_appendix && !opens_appendix(b) {
            // A turn opened or extended here ends before every block that opens the appendix.
            assert forall|p: int| 0 <= p < blocks.len() && opens_appendix(#[trigger] blocks[p]) implies b.index < blocks[p].index by {
                if p < n - 1 {
                    assert(exists|m: int| 0 <= m < n - 1 && opens_appendix(#[trigger] blocks[m]));
                } else if p == n - 1 {
                } else {
                    assert(blocks[n - 1].index < blocks[p].index);
                }
            }
        }
        if b.tag == BlockTag::Table || b.tag == BlockTag::H1 || b.tag == BlockTag::H2 {
            if next.in_appendix {
                if !st.in_appendix {
                    assert(opens_appendix(blocks[n - 1]));
                }
            }
        } else if b.tag != BlockTag::P {
        } else if st.in_appendix || regex_is_match(VOTE_APPENDIX_PATTERN@, b.text@) {
            if !st.in_appendix {
                assert(opens_appendix(blocks[n - 1]));
            }
        } else if regex_is_match(HARD_BOUNDARY_PATTERN@, b.text@) {
        } else {
            assert(!opens_appendix(b));
            assert(!breaks_turn(b));
            match st.open {
                Some(t) => {
                    let j = choose|j: int| 0 <= j < n - 1 && #[trigger] blocks[j].index == t.block_start;
                    assert(blocks[j].index < blocks[n - 1].index);
                },
                None => {},
            }
            assert(0 <= n - 1 < n && blocks[n - 1].index == b.index);
            assert forall|p: int| 0 <= p < n - 1 implies (#[trigger] blocks[p]).index < b.index by {
                assert(blocks[p].index < blocks[n - 1].index);
            }
        }
    }
}

/// The laws of the segmentation, for a report whose block indices rise: every turn starts
/// at a block of the report and ends at one no earlier; it ends before any block that opens
/// the roll-call appendix (nothing is taken from the appendix on); no table, `h1`/`h2`
/// heading or incident-closing paragraph lies inside it; and it is stamped with the agenda
/// item id of the last agenda item whose range holds its first block.
pub proof fn lemma_segment_turns_placed(
    blocks: Seq<ReportBlock>,
    agenda: Seq<AgendaItem>,
    meeting_kind: MeetingKind,
    session_id: u32,
    meeting_id: u32,
)
    requires
        indices_rising(blocks),
    ensures
        forall|k: int|
            0 <= k < segment_turns(blocks, agenda, meeting_kind, session_id, meeting_id).len() ==> turn_placed(
                #[trigger] segment_turns(blocks, agenda, meeting_kind, session_id, meeting_id)[k],
                blocks,
                blocks.len() as int,
                agenda,
                meeting_kind,
                session_id,
                meeting_id,
            ),
{
    lemma_seg_placed(blocks, agenda, blocks.len() as int, meeting_kind, session_id, meeting_id);
}

proof fn lemma_deduped_from(s: Seq<UtteranceDraft>)
    ensures
        forall|k: int| 0 <= k < deduped(s).len() ==> s.contains(#[trigger] deduped(s)[k]),
    decreases s.len(),
{
    if s.len() > 0 {
        lemma_deduped_from(s.drop_last());
        let prev = deduped(s.drop_last());
        assert forall|k: int| 0 <= k < deduped(s).len() implies s.contains(#[trigger] deduped(s)[k]) by {
            if k < prev.len() && deduped(s)[k] == prev[k] {
                let q = choose|q: int| 0 <= q < s.drop_last().len() && s.drop_last()[q] == prev[k];
                assert(s[q] == prev[k]);
            } else {
                assert(s[s.len() - 1] == s.last());
            }
        }
    }
}

/// The segmentation laws carried to the utterances of a report with rising block indices:
/// every utterance starts at a block of the report and ends no earlier, ends before any
/// block that opens the roll-call appendix, spans no table, `h1`/`h2` heading or
/// incident-closing paragraph (procedural agenda headings never fall inside an utterance),
/// and carries the agenda item id of the last agenda item whose range holds its first block.
pub proof fn lemma_utterances_placed(
    blocks: Seq<ReportBlock>,
    agenda: Seq<AgendaItem>,
    meeting_kind: MeetingKind,
    session_id: u32,
    meeting_id: u32,
    source_url: Seq<char>,
    cache_path: Seq<char>,
    u: Seq<UtteranceDraft>,
)
    requires
        indices_rising(blocks),
        utterances_of(u, segment_turns(blocks, agenda, meeting_kind, session_id, meeting_id), meeting_kind, session_id, meeting_id, source_url, cache_path),
    ensures
        forall|k: int|
            0 <= k < deduped(u).len() ==> {
                &&& (exists|j: int| 0 <= j < blocks.len() && #[trigger] blocks[j].index == (#[trigger] deduped(u)[k]).block_start)
                &&& deduped(u)[k].block_start <= deduped(u)[k].block_end
                &&& forall|p: int| 0 <= p < blocks.len() && opens_appendix(#[trigger] blocks[p]) ==> deduped(u)[k].block_end < blocks[p].index
                &&& forall|p: int| 0 <= p < blocks.len() && breaks_turn(#[trigger] blocks[p]) ==> blocks[p].index < deduped(u)[k].block_start || deduped(u)[k].block_end < blocks[p].index
                &&& deduped(u)[k].agenda_item_id@ == stamped_item_id(agenda, deduped(u)[k].block_start, meeting_kind, session_id, meeting_id)
            },
{
    let turns = segment_turns(blocks, agenda, meeting_kind, session_id, meeting_id);
    lemma_segment_turns_placed(blocks, agenda, meeting_kind, session_id, meeting_id);
    lemma_deduped_from(u);
    assert forall|k: int| 0 <= k < deduped(u).len() implies {
        &&& (exists|j: int| 0 <= j < blocks.len() && #[trigger] blocks[j].index == (#[trigger] deduped(u)[k]).block_start)
        &&& deduped(u)[k].block_start <= deduped(u)[k].block_end
        &&& forall|p: int| 0 <= p < blocks.len() && opens_appendix(#[trigger] blocks[p]) ==> deduped(u)[k].block_end < blocks[p].index
        &&& forall|p: int| 0 <= p < blocks.len() && breaks_turn(#[trigger] blocks[p]) ==> blocks[p].index < deduped(u)[k].block_start || deduped(u)[k].block_end < blocks[p].index
        &&& deduped(u)[k].agenda_item_id@ == stamped_item_id(agenda, deduped(u)[k].block_start, meeting_kind, session_id, meeting_id)
    } by {
        let x = deduped(u)[k];
        assert(u.contains(x));
        let i = choose|i: int| 0 <= i < u.len() && u[i] == x;
        assert(utterance_of_turn(u[i], turns[i], meeting_kind, session_id, meeting_id, source_url, cache_path, (i + 1) as u32));
        assert(turn_placed(turns[i], blocks, blocks.len() as int, agenda, meeting_kind, session_id, meeting_id));
        let j = choose|j: int| 0 <= j < blocks.len() && #[trigger] blocks[j].index == turns[i].block_start;
        assert(blocks[j].index == x.block_start);
    }
}

/// `u` holds one utterance per turn of `turns`, numbered from one in order.
pub open spec fn utterances_of(
    u: Seq<UtteranceDraft>,
    turns: Seq<TurnSpec>,
    meeting_kind: MeetingKind,
    session_id: u32,
    meeting_id: u32,
    source_url: Seq<char>,
    cache_path: Seq<char>,
) -> bool {
    &&& u.len() == turns.len()
    &&& forall|i: int|
        0 <= i < u.len() ==> utterance_of_turn(
            #[trigger] u[i],
            turns[i],
            meeting_kind,
            session_id,
            meeting_id,
            source_url,
            cache_path,
            (i + 1) as u32,
        )
}

spec fn open_view(o: Option<OpenTurn>) -> Option<TurnSpec> {
    match o {
        Some(t) => Some(turn_spec(t)),
        None => None,
    }
}

/// Close the open turn, if any: it becomes an utterance unless it is empty.
fn close_turn(
    utterances: &mut Vec<UtteranceDraft>,
    open: &mut Option<OpenTurn>,
    meeting_kind: MeetingKind,
    session_id: u32,
    meeting_id: u32,
    source_url: &str,
    cache_path: &str,
    seq: &mut u32,
    turns: Ghost<Seq<TurnSpec>>,
)
    requires
        *old(seq) < u32::MAX,
        *old(seq) == turns@.len(),
        utterances_of(old(utterances)@, turns@, meeting_kind, session_id, meeting_id, source_url@, cache_path@),
    ensures
        *final(open) is None,
        *final(seq) <= *old(seq) + 1,
        *final(seq) == close_open(turns@, open_view(*old(open))).len(),
        utterances_of(final(utterances)@, close_open(turns@, open_view(*old(open))), meeting_kind, session_id, meeting_id, source_url@, cache_path@),
{
    let taken = open.take();
    match taken {
        Some(turn) => {
            let ghost ts = turn_spec(turn);
            let ghost u0 = utterances@;
            proof {
                assert forall|k: int| 0 <= k < u0.len() implies utterance_ok(#[trigger] u0[k], meeting_kind, session_id, meeting_id, source_url@, cache_path@) by {
                    assert(utterance_of_turn(u0[k], turns@[k], meeting_kind, session_id, meeting_id, source_url@, cache_path@, (k + 1) as u32));
                }
            }
            push_turn(utterances, turn, meeting_kind, session_id, meeting_id, source_url, cache_path, seq);
            proof {
                if turn_kept(ts) {
                    let t2 = turns@.push(ts);
                    assert forall|i: int| 0 <= i < utterances@.len() implies utterance_of_turn(
                        #[trigger] utterances@[i],
                        t2[i],
                        meeting_kind,
                        session_id,
                        meeting_id,
                        source_url@,
                        cache_path@,
                        (i + 1) as u32,
                    ) by {
                        if i < u0.len() {
                            assert(utterances@[i] == u0[i]);
                        }
                    }
                }
            }
        },
        None => {},
    }
}

/// Cut a report into utterances: a turn starts at a paragraph with a turn marker and runs
/// over the following paragraphs until a heading, a table, a hard boundary or the next
/// marker; nothing is taken from the roll-call appendix on.
pub fn segment_utterances(
    blocks: &[ReportBlock],
    agenda: &[AgendaItem],
    meeting_kind: MeetingKind,
    session_id: u32,
    meeting_id: u32,
    source_url: &str,
    cache_path: &str,
) -> (r: Vec<UtteranceDraft>)
    requires
        blocks@.len() < u32::MAX,
    ensures
        forall|k: int| 0 <= k < r@.len() ==> utterance_ok(#[trigger] r@[k], meeting_kind, session_id, meeting_id, source_url@, cache_path@),
        forall|a: int, b: int| 0 <= a < b < r@.len() ==> turn_key(r@[a]) != turn_key(r@[b]),
        exists|u: Seq<UtteranceDraft>|
            utterances_of(u, segment_turns(blocks@, agenda@, meeting_kind, session_id, meeting_id), meeting_kind, session_id, meeting_id, source_url@, cache_path@)
                && r@ == deduped(u),
{
    let mut utterances: Vec<UtteranceDraft> = Vec::new();
    let mut open: Option<OpenTurn> = None;
    let mut seq: u32 = 0;
    let mut in_vote_appendix = false;
    let mut bi: usize = 0;
    while bi < blocks.len()
        invariant
            bi <= blocks@.len() < u32::MAX,
            seq <= bi,
            ({
                let st = seg_upto(blocks@, agenda@, bi as int, meeting_kind, session_id, meeting_id);
                &&& utterances_of(utterances@, st.turns, meeting_kind, session_id, meeting_id, source_url@, cache_path@)
                &&& seq == st.turns.len()
                &&& open_view(open) == st.open
                &&& in_vote_appendix == st.in_appendix
            }),
        decreases blocks.len() - bi,
    {
        let block = &blocks[bi];
        let ghost st = seg_upto(blocks@, agenda@, bi as int, meeting_kind, session_id, meeting_id);
        let ghost next = seg_step(st, *block, agenda@, meeting_kind, session_id, meeting_id);
        proof {
            assert(seg_upto(blocks@, agenda@, bi + 1, meeting_kind, session_id, meeting_id) == next);
        }
        bi = bi + 1;
        if block.tag == BlockTag::Table || block.tag == BlockTag::H1 || block.tag == BlockTag::H2 {
            close_turn(&mut utterances, &mut open, meeting_kind, session_id, meeting_id, source_url, cache_path, &mut seq, Ghost(st.turns));
            if block.tag == BlockTag::H1 && is_vote_appendix_heading(block.text.as_str()) {
                in_vote_appendix = true;
            }
            continue;
        }
        if block.tag != BlockTag::P {
            continue;
        }
        if in_vote_appendix || is_vote_appendix_heading(block.text.as_str()) {
            in_vote_appendix = true;
            close_turn(&mut utterances, &mut open, meeting_kind, session_id, meeting_id, source_url, cache_path, &mut seq, Ghost(st.turns));
            continue;
        }
        if is_hard_boundary(block.text.as_str()) {
            close_turn(&mut utterances, &mut open, meeting_kind, session_id, meeting_id, source_url, cache_path, &mut seq, Ghost(st.turns));
            continue;
        }
        let trimmed = trim_str(block.text.as_str());
        if is_stage_direction(trimmed.as_str()) {
            continue;
        }
        let item = agenda_item_for_block(agenda, block.index);
        let ghost k = last_cover_from(agenda@, block.index, agenda@.len() as int);
        proof {
            lemma_last_cover(agenda@, block.index, agenda@.len() as int);
            match item {
                Some(it) => {
                    let kk = choose|kk: int|
                        0 <= kk < agenda@.len() && agenda@[kk] == *it && item_covers(agenda@[kk], block.index)
                            && forall|j: int| kk < j < agenda@.len() ==> !item_covers(#[trigger] agenda@[j], block.index);
                    match k {
                        Some(k0) => {
                            if k0 < kk {
                                assert(!item_covers(agenda@[kk], block.index));
                            } else if kk < k0 {
                                assert(!item_covers(agenda@[k0], block.index));
                            }
                        },
                        None => {
                            assert(!item_covers(agenda@[kk], block.index));
                        },
                    }
                    assert(k == Some(kk));
                },
                None => {
                    match k {
                        Some(k0) => {
                            assert(!item_covers(agenda@[k0], block.index));
                        },
                        None => {},
                    }
                },
            }
        }
        let item_kind = match item {
            Some(i) => i.item_kind.as_str().to_string(),
            None => "unknown".to_string(),
        };
        match detect_turn_start(block.text.as_str()) {
            Some((start, content_start)) => {
                close_turn(&mut utterances, &mut open, meeting_kind, session_id, meeting_id, source_url, cache_path, &mut seq, Ghost(st.turns));
                let (raw_speaker, speaker_role) = parse_turn_start(&start, item_kind.as_str());
                let turn_number = match &start {
                    TurnStart::Numbered { turn_number, .. } => turn_number.clone(),
                    _ => String::new(),
                };
                let agenda_id = turn_agenda_id(turn_number.as_str(), item);
                let stamped = match item {
                    Some(i) => agenda_item_id(session_id, meeting_kind.as_str(), meeting_id, i.start_block),
                    None => String::new(),
                };
                let text = text_after(block.text.as_str(), content_start);
                let class = match &block.class {
                    Some(c) => Some(c.as_str()),
                    None => None,
                };
                let language = language_from_class(class);
                let item_id = match item {
                    Some(i) => i.item_id.clone(),
                    None => String::new(),
                };
                let question_ids = match item {
                    Some(i) => join_strs(&i.internal_ids, ","),
                    None => String::new(),
                };
                let dossier_id = match item {
                    Some(i) => i.dossier_id.clone(),
                    None => String::new(),
                };
                let document_id = match item {
                    Some(i) => i.document_id.clone(),
                    None => String::new(),
                };
                let source_section = match item {
                    Some(i) => i.source_section.clone(),
                    None => String::new(),
                };
                let turn = OpenTurn {
                    turn_number,
                    raw_speaker,
                    speaker_role,
                    text,
                    language,
                    block_start: block.index,
                    block_end: block.index,
                    agenda_id,
                    agenda_item_id: stamped,
                    item_kind,
                    item_id,
                    question_ids,
                    dossier_id,
                    document_id,
                    source_section,
                };
                proof {
                    let tv = turn_view(start);
                    assert(turn_start_of(block.text@) == Some((tv, content_start as int)));
                    assert(class matches Some(c) ==> block.class matches Some(bc) && c@ == bc@);
                    assert(turn_spec(turn) == new_turn(*block, tv, content_start as int, agenda@, k, meeting_kind, session_id, meeting_id));
                }
                open = Some(turn);
            },
            None => {
                let taken = open.take();
                match taken {
                    Some(mut turn) => {
                        let ghost t0 = turn_spec(turn);
                        if !trimmed.as_str().is_empty() {
                            if !turn.text.as_str().is_empty() {
                                push_char(&mut turn.text, ' ');
                            }
                            push_str(&mut turn.text, trimmed.as_str());
                            turn.block_end = block.index;
                        }
                        assert(turn_spec(turn) == extend_turn(t0, trim(block.text@), block.index));
                        open = Some(turn);
                    },
                    None => {},
                }
            },
        }
    }
    let ghost st = seg_upto(blocks@, agenda@, blocks@.len() as int, meeting_kind, session_id, meeting_id);
    close_turn(&mut utterances, &mut open, meeting_kind, session_id, meeting_id, source_url, cache_path, &mut seq, Ghost(st.turns));
    let ghost u = utterances@;
    proof {
        assert forall|k: int| 0 <= k < u.len() implies utterance_ok(#[trigger] u[k], meeting_kind, session_id, meeting_id, source_url@, cache_path@) by {
            let ts = segment_turns(blocks@, agenda@, meeting_kind, session_id, meeting_id);
            assert(utterance_of_turn(u[k], ts[k], meeting_kind, session_id, meeting_id, source_url@, cache_path@, (k + 1) as u32));
        }
    }
    dedupe_bilingual_turns(utterances, Ghost(meeting_kind), Ghost(session_id), Ghost(meeting_id), Ghost(source_url@), Ghost(cache_path@))
}

} // verus!
