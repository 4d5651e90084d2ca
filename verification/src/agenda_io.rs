//! Agenda item rows of a meeting.
use vstd::prelude::*;
use crate::agenda_timeline::{AgendaItem, MeetingKind};
use crate::json::lemma_join_take_step;
use crate::text::{decimal, join, join_strs, owned, push_char, push_decimal};
use crate::utils::{agenda_item_id, agenda_item_id_spec};

verus! {

pub struct AgendaItemDraft {
    pub agenda_item_id: String,
    pub session_id: u32,
    pub meeting_id: u32,
    pub meeting_kind: MeetingKind,
    pub agenda_id: String,
    pub item_kind: String,
    pub item_id: String,
    pub title_nl: String,
    pub title_fr: String,
    pub dossier_id: String,
    pub document_id: String,
    pub internal_ids: String,
    pub start_block: u32,
    pub end_block: u32,
    pub title_blocks: String,
    pub source_section: String,
    pub source_url: String,
    pub cache_path: String,
}

/// Block indices in decimal, joined by commas.
pub open spec fn blocks_csv(bs: Seq<u32>) -> Seq<char> {
    join(bs.map_values(|b: u32| decimal(b as nat)), seq![','])
}

fn blocks_csv_exec(bs: &Vec<u32>) -> (r: String)
    ensures
        r@ == blocks_csv(bs@),
{
    let ghost parts = bs@.map_values(|b: u32| decimal(b as nat));
    let mut out = String::new();
    let mut i: usize = 0;
    while i < bs.len()
        invariant
            i <= bs@.len(),
            parts == bs@.map_values(|b: u32| decimal(b as nat)),
            out@ == join(parts.take(i as int), seq![',']),
        decreases bs.len() - i,
    {
        proof {
            lemma_join_take_step(parts, seq![','], i as int);
        }
        if i > 0 {
            push_char(&mut out, ',');
        }
        push_decimal(&mut out, bs[i] as u64);
        assert(out@ =~= join(parts.take(i + 1), seq![',']));
        i = i + 1;
    }
    assert(parts.take(bs@.len() as int) =~= parts);
    out
}

/// The row of agenda item `item`.
pub open spec fn agenda_row_ok(
    r: AgendaItemDraft,
    item: AgendaItem,
    meeting_kind: MeetingKind,
    session_id: u32,
    meeting_id: u32,
    source_url: Seq<char>,
    cache_path: Seq<char>,
) -> bool {
    &&& r.agenda_item_id@ == agenda_item_id_spec(session_id, meeting_kind.name(), meeting_id, item.start_block)
    &&& r.session_id == session_id
    &&& r.meeting_id == meeting_id
    &&& r.meeting_kind == meeting_kind
    &&& r.agenda_id@ == item.agenda_id@
    &&& r.item_kind@ == item.item_kind.name()
    &&& r.item_id@ == item.item_id@
    &&& r.title_nl@ == item.title_nl@
    &&& r.title_fr@ == item.title_fr@
    &&& r.dossier_id@ == item.dossier_id@
    &&& r.document_id@ == item.document_id@
    &&& r.internal_ids@ == join(item.internal_ids.deep_view(), seq![','])
    &&& r.start_block == item.start_block
    &&& r.end_block == item.end_block
    &&& r.title_blocks@ == blocks_csv(item.title_blocks@)
    &&& r.source_section@ == item.source_section@
    &&& r.source_url@ == source_url
    &&& r.cache_path@ == cache_path
}

/// One row per agenda item, in order.
pub fn materialize_agenda_items(
    agenda: &[AgendaItem],
    meeting_kind: MeetingKind,
    session_id: u32,
    meeting_id: u32,
    source_url: &str,
    cache_path: &str,
) -> (r: Vec<AgendaItemDraft>)
    ensures
        r@.len() == agenda@.len(),
        forall|k: int| 0 <= k < r@.len() ==> agenda_row_ok(
            #[trigger] r@[k],
            agenda@[k],
            meeting_kind,
            session_id,
            meeting_id,
            source_url@,
            cache_path@,
        ),
{
    let mut rows: Vec<AgendaItemDraft> = Vec::new();
    let mut i: usize = 0;
    while i < agenda.len()
        invariant
            i <= agenda@.len(),
            rows@.len() == i,
            forall|k: int| 0 <= k < i ==> agenda_row_ok(
                #[trigger] rows@[k],
                agenda@[k],
                meeting_kind,
                session_id,
                meeting_id,
                source_url@,
                cache_path@,
            ),
        decreases agenda.len() - i,
    {
        let item = &agenda[i];
        proof {
            reveal_strlit(",");
            assert(","@ =~= seq![',']);
        }
        let row = AgendaItemDraft {
            agenda_item_id: agenda_item_id(session_id, meeting_kind.as_str(), meeting_id, item.start_block),
            session_id,
            meeting_id,
            meeting_kind,
            agenda_id: item.agenda_id.clone(),
            item_kind: owned(item.item_kind.as_str()),
            item_id: item.item_id.clone(),
            title_nl: item.title_nl.clone(),
            title_fr: item.title_fr.clone(),
            dossier_id: item.dossier_id.clone(),
            document_id: item.document_id.clone(),
            internal_ids: join_strs(item.internal_ids.as_slice(), ","),
            start_block: item.start_block,
            end_block: item.end_block,
            title_blocks: blocks_csv_exec(&item.title_blocks),
            source_section: item.source_section.clone(),
            source_url: owned(source_url),
            cache_path: owned(cache_path),
        };
        rows.push(row);
        i = i + 1;
    }
    rows
}

} // verus!
