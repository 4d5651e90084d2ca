//! Written questions and answers in the graph: which written questions are merged into an
//! oral one, node labels, and the properties of oral-reference edges.
use vstd::prelude::*;
use crate::json::{json_member, json_member_of, json_object, json_object_of, json_string, json_string_of};
use crate::text::{from_char_range, str_eq, strings_contain, to_chars};

verus! {

/// A row of the oral/written link table: written question id, canonical question id, oral
/// reference, and match status.
pub struct OralWrittenLink {
    pub written_question_id: String,
    pub canonical_question_id: String,
    pub oral_ref: String,
    pub status: String,
}

/// Whether a link merges its written question into another (canonical) question: an exact
/// match whose ids differ.
pub open spec fn is_merging_link(l: OralWrittenLink) -> bool {
    l.status@ == "exact"@ && l.written_question_id@ != l.canonical_question_id@
}

/// The written question ids that exact oral matches merge away.
pub open spec fn merged_written_id_set(links: Seq<OralWrittenLink>) -> Set<Seq<char>> {
    Set::new(|id: Seq<char>| exists|k: int| 0 <= k < links.len() && is_merging_link(#[trigger] links[k])
        && links[k].written_question_id@ == id)
}

fn is_merging_link_exec(l: &OralWrittenLink) -> (r: bool)
    ensures
        r == is_merging_link(*l),
{
    str_eq(l.status.as_str(), "exact") && !str_eq(l.written_question_id.as_str(), l.canonical_question_id.as_str())
}

/// The written question ids that exact oral matches merge away, each once.
pub fn merged_written_ids(links: &Vec<OralWrittenLink>) -> (r: Vec<String>)
    ensures
        r.deep_view().to_set() == merged_written_id_set(links@),
        r.deep_view().no_duplicates(),
{
    let mut out: Vec<String> = Vec::new();
    let mut i: usize = 0;
    while i < links.len()
        invariant
            i <= links@.len(),
            out.deep_view().to_set() == merged_written_id_set(links@.take(i as int)),
            out.deep_view().no_duplicates(),
        decreases links.len() - i,
    {
        let l = &links[i];
        let ghost lv = links@.take(i + 1);
        proof {
            assert(lv =~= links@.take(i as int).push(links@[i as int]));
        }
        if is_merging_link_exec(l) && !strings_contain(&out, l.written_question_id.as_str()) {
            let ghost before = out.deep_view();
            out.push(l.written_question_id.clone());
            proof {
                assert(out.deep_view() =~= before.push(l.written_question_id@));
                before.lemma_push_to_set_commute(l.written_question_id@);
                assert forall|a: int, b: int| 0 <= a < b < out.deep_view().len()
                    implies out.deep_view()[a] != out.deep_view()[b] by {
                    if b == before.len() {
                        assert(before.contains(before[a]));
                    }
                }
            }
        }
        assert(out.deep_view().to_set() =~= merged_written_id_set(lv)) by {
            assert forall|x: Seq<char>| merged_written_id_set(lv).contains(x) implies out.deep_view().to_set().contains(x) by {
                let k = choose|k: int| 0 <= k < lv.len() && is_merging_link(#[trigger] lv[k]) && lv[k].written_question_id@ == x;
                if k < i {
                    assert(links@.take(i as int)[k] == lv[k]);
                    assert(merged_written_id_set(links@.take(i as int)).contains(x));
                }
            }
            assert forall|x: Seq<char>| out.deep_view().to_set().contains(x) implies merged_written_id_set(lv).contains(x) by {
                if merged_written_id_set(links@.take(i as int)).contains(x) {
                    let k = choose|k: int| 0 <= k < links@.take(i as int).len()
                        && is_merging_link(#[trigger] links@.take(i as int)[k]) && links@.take(i as int)[k].written_question_id@ == x;
                    assert(lv[k] == links@.take(i as int)[k]);
                } else {
                    assert(lv[i as int] == links@[i as int]);
                }
            }
        }
        i = i + 1;
    }
    assert(links@.take(links@.len() as int) =~= links@);
    out
}

/// The first 120 characters of a text.
pub open spec fn excerpt(s: Seq<char>) -> Seq<char> {
    if s.len() <= 120 { s } else { s.take(120) }
}

fn excerpt_exec(s: &str) -> (r: String)
    ensures
        r@ == excerpt(s@),
{
    let v = to_chars(s);
    let n = if v.len() <= 120 { v.len() } else { 120 };
    let r = from_char_range(&v, 0, n);
    assert(r@ =~= excerpt(s@));
    r
}

/// The label of a written question node: the first 120 characters of its Dutch title, or of
/// its French one when the Dutch title is empty.
pub fn question_node_label(title_nl: &str, title_fr: &str) -> (r: String)
    ensures
        r@ == if title_nl@.len() > 0 { excerpt(title_nl@) } else { excerpt(title_fr@) },
{
    if title_nl.unicode_len() > 0 { excerpt_exec(title_nl) } else { excerpt_exec(title_fr) }
}

/// The label of an answer node: the first 120 characters of its Dutch text (or of its
/// French one when the Dutch text is empty), or its id when that excerpt is empty.
pub fn answer_node_label(answer_id: &str, text_nl: &str, text_fr: &str) -> (r: String)
    ensures
        r@ == ({
            let e = if text_nl@.len() > 0 { excerpt(text_nl@) } else { excerpt(text_fr@) };
            if e.len() == 0 { answer_id@ } else { e }
        }),
{
    let e = question_node_label(text_nl, text_fr);
    if e.unicode_len() == 0 { crate::text::owned(answer_id) } else { e }
}

/// The properties of an oral-reference edge: `{"oral_ref":…,"written_question_id":…}`.
pub open spec fn oral_reference_props(oral_ref: Seq<char>, written_question_id: Seq<char>) -> Seq<char> {
    json_object(seq![json_member("oral_ref"@, json_string(oral_ref)), json_member("written_question_id"@, json_string(written_question_id))])
}

pub fn oral_reference_edge_props(oral_ref: &str, written_question_id: &str) -> (r: String)
    ensures
        r@ == oral_reference_props(oral_ref@, written_question_id@),
{
    let mut members: Vec<String> = Vec::new();
    members.push(json_member_of("oral_ref", json_string_of(oral_ref).as_str()));
    members.push(json_member_of("written_question_id", json_string_of(written_question_id).as_str()));
    let r = json_object_of(&members);
    assert(members.deep_view() =~= seq![json_member("oral_ref"@, json_string(oral_ref@)),
        json_member("written_question_id"@, json_string(written_question_id@))]);
    r
}

} // verus!
