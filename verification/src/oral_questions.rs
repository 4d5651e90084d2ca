//! Oral question rows derived from agenda timeline items.
use vstd::prelude::*;
use std::collections::HashMap;
use crate::agenda_timeline::{AgendaItem, ItemKind, MeetingKind};
use crate::pattern::{group_at, group_text, re_captures_all, re_remove_first, regex_captures_all, regex_remove_first};
use crate::text::{
    join, join_strs, owned, push_str, replace, replace_str, sort_dedup_strings, sorted_distinct,
    strings_contain, strip_leading, strip_leading_str, strip_trailing, strip_trailing_str, trim,
    trim_str,
};

verus! {

pub struct OralQuestionDraft {
    pub question_id: String,
    pub session_id: u32,
    pub meeting_id: u32,
    pub questioners: String,
    /// Addressee(s) parsed from the question heading ("Vraag van X aan Y"). The actual
    /// respondents are derived from discussion speakers and may differ from the addressee.
    pub questionees: String,
    pub topics_nl: String,
    pub topics_fr: String,
    pub internal_ids: String,
    pub source_url: String,
    pub cache_path: String,
}

/// The questioners, addressees, topics and site ids read from a question heading.
pub struct QuestionData {
    pub questioners: Vec<String>,
    pub questionees: Vec<String>,
    pub topics: Vec<String>,
    pub internal_ids: Vec<String>,
}

/// A plenary question heading, with ids such as `(56001442P)`.
pub const PLENARY_QUESTION_PATTERN: &'static str = r#"(?m)(?:(?:Vraag van|Question de)\s)?([^\n]+?)\s+(?:aan|à)\s+([^\n]+?)\s*\([^)]*\)\s*(?:over|sur)\s*(.+?)(?:\s*\((\d{8}[A-Z])\))?\s*$"#;
/// A commission question heading, with ids such as `(56002763C)`, `(nr. 6003263c)` and
/// `(n° 6003263c)`, either quote style, and possibly no addressee.
pub const COMMISSION_QUESTION_PATTERN: &'static str = r#"(?m)(?:(?:Vraag van|Question de)\s)?([^\n]+?)(?:\s+(?:aan|à|au)\s+([^\n]+?))?(?:\s*\(.*?\))?\s*(?:over|sur)\s*["'“”](.+?)["'“”]\s*\(?(?:n[°ro]\.?\s*)?(\d{6,8}[A-Za-z])\)?"#;
/// The words that open a question heading.
pub const QUESTION_PREFIX_PATTERN: &'static str = r"(?i)^(?:vraag van|question de)\s+";
/// A two-digit agenda number and the space after it.
pub const AGENDA_PREFIX_PATTERN: &'static str = r"^\d{2}\s+";

/// A questioner field with scrape artefacts removed: sub-question dashes, the agenda
/// number, the opening words, `- ` and `de heer `; `None` when nothing is left.
pub open spec fn questioner_name(raw: Seq<char>) -> Option<Seq<char>> {
    let n1 = trim(strip_leading(trim(raw), '-'));
    let n3 = trim(regex_remove_first(QUESTION_PREFIX_PATTERN@, trim(regex_remove_first(AGENDA_PREFIX_PATTERN@, n1))));
    let n5 = trim(strip_trailing(trim(replace(replace(n3, "- "@, Seq::empty()), "de heer "@, Seq::empty())), '-'));
    if n1.len() == 0 || n3.len() == 0 || n5.len() == 0 {
        None
    } else {
        Some(n5)
    }
}

/// Strip scrape artefacts from a captured questioner field (commission sub-question lines).
pub fn normalize_questioner_name(raw: &str) -> (r: Option<String>)
    ensures
        r.deep_view() == questioner_name(raw@),
{
    let t = trim_str(raw);
    let s = strip_leading_str(t.as_str(), '-');
    let n1 = trim_str(s.as_str());
    if n1.as_str().is_empty() {
        return None;
    }
    let a = re_remove_first(AGENDA_PREFIX_PATTERN, n1.as_str());
    let n2 = trim_str(a.as_str());
    let b = re_remove_first(QUESTION_PREFIX_PATTERN, n2.as_str());
    let n3 = trim_str(b.as_str());
    if n3.as_str().is_empty() {
        return None;
    }
    proof {
        reveal_strlit("- ");
        reveal_strlit("de heer ");
        reveal_strlit("");
    }
    let c = replace_str(n3.as_str(), "- ", "");
    let d = replace_str(c.as_str(), "de heer ", "");
    assert(""@ =~= Seq::<char>::empty());
    let e = trim_str(d.as_str());
    let f = strip_trailing_str(e.as_str(), '-');
    let n5 = trim_str(f.as_str());
    if n5.as_str().is_empty() {
        return None;
    }
    Some(n5)
}

/// The value that a typo map holds for `name`, or `name` itself when it holds none.
pub open spec fn typo_fixed(map: Map<String, String>, name: Seq<char>) -> Seq<char> {
    if exists|k: String| map.contains_key(k) && k@ == name {
        map[choose|k: String| map.contains_key(k) && k@ == name]@
    } else {
        name
    }
}

/// `HashMap::get` on a typo map, cloned: the value of the key with the characters of
/// `name`, or `None` when no key has them. The map is keyed by `String`, whose equality and
/// hash follow its characters, so at most one key has the characters of `name`.
#[verifier::external_body]
fn typo_lookup(typo_map: &HashMap<String, String>, name: &str) -> (r: Option<String>)
    ensures
        match r {
            Some(v) => (exists|k: String| typo_map@.contains_key(k) && k@ == name@) && v@ == typo_fixed(typo_map@, name@),
            None => !(exists|k: String| typo_map@.contains_key(k) && k@ == name@),
        },
{
    typo_map.get(name).cloned()
}

/// The value that a typo map gives a name, or the name itself.
fn corrected_name(typo_map: &HashMap<String, String>, name: String) -> (r: String)
    ensures
        r@ == typo_fixed(typo_map@, name@),
{
    match typo_lookup(typo_map, name.as_str()) {
        Some(v) => v,
        None => name,
    }
}

pub open spec fn data_view(d: QuestionData) -> (Seq<Seq<char>>, Seq<Seq<char>>, Seq<Seq<char>>, Seq<Seq<char>>) {
    (d.questioners.deep_view(), d.questionees.deep_view(), d.topics.deep_view(), d.internal_ids.deep_view())
}

/// One commission match: its questioner (when it normalises), its addressee (`Onbekend`
/// when missing, kept once), its topic and `Q` + its site id.
pub open spec fn commission_step(
    st: (Seq<Seq<char>>, Seq<Seq<char>>, Seq<Seq<char>>, Seq<Seq<char>>),
    caps: Seq<Option<Seq<char>>>,
) -> (Seq<Seq<char>>, Seq<Seq<char>>, Seq<Seq<char>>, Seq<Seq<char>>) {
    match questioner_name(group_text(caps, 1)) {
        None => st,
        Some(q) => {
            let questionee = match crate::pattern::group(caps, 2) {
                Some(g) => trim(g),
                None => "Onbekend"@,
            };
            (
                st.0.push(q),
                if st.1.contains(questionee) { st.1 } else { st.1.push(questionee) },
                st.2.push(trim(group_text(caps, 3))),
                st.3.push(seq!['Q'] + trim(group_text(caps, 4))),
            )
        },
    }
}

pub open spec fn commission_fold(all: Seq<Seq<Option<Seq<char>>>>) -> (Seq<Seq<char>>, Seq<Seq<char>>, Seq<Seq<char>>, Seq<Seq<char>>)
    decreases all.len(),
{
    if all.len() == 0 {
        (Seq::empty(), Seq::empty(), Seq::empty(), Seq::empty())
    } else {
        commission_step(commission_fold(all.drop_last()), all.last())
    }
}

/// A commission match is kept when its questioner (group 1) normalises to a name.
pub open spec fn commission_kept(caps: Seq<Option<Seq<char>>>) -> bool {
    questioner_name(group_text(caps, 1)) is Some
}

/// The commission matches that are kept, in order.
pub open spec fn kept_commission_matches(all: Seq<Seq<Option<Seq<char>>>>) -> Seq<Seq<Option<Seq<char>>>> {
    all.filter(|c: Seq<Option<Seq<char>>>| commission_kept(c))
}

/// The addressee a commission match names: its trimmed group 2, `Onbekend` without one.
pub open spec fn commission_addressee(caps: Seq<Option<Seq<char>>>) -> Seq<char> {
    match crate::pattern::group(caps, 2) {
        Some(g) => trim(g),
        None => "Onbekend"@,
    }
}

/// Every addressee of `names` is that of one of `kept`.
pub open spec fn addressees_from(names: Seq<Seq<char>>, kept: Seq<Seq<Option<Seq<char>>>>) -> bool {
    forall|e: int| 0 <= e < names.len() ==> #[trigger] addressee_named(kept, names[e])
}

/// `a` is the addressee of one of `kept`.
pub open spec fn addressee_named(kept: Seq<Seq<Option<Seq<char>>>>, a: Seq<char>) -> bool {
    exists|k: int| #![trigger kept[k]] 0 <= k < kept.len() && a == commission_addressee(kept[k])
}

proof fn lemma_addressee_step(names: Seq<Seq<char>>, kept: Seq<Seq<Option<Seq<char>>>>, c: Seq<Option<Seq<char>>>)
    requires
        addressees_from(names, kept),
    ensures
        addressees_from(
            if names.contains(commission_addressee(c)) { names } else { names.push(commission_addressee(c)) },
            kept.push(c),
        ),
{
    let a = commission_addressee(c);
    let n2 = if names.contains(a) { names } else { names.push(a) };
    let k2 = kept.push(c);
    assert forall|e: int| 0 <= e < n2.len() implies #[trigger] addressee_named(k2, n2[e]) by {
        if e < names.len() {
            assert(n2[e] == names[e]);
            assert(addressee_named(kept, names[e]));
            let k = choose|k: int| #![trigger kept[k]] 0 <= k < kept.len() && names[e] == commission_addressee(kept[k]);
            assert(k2[k] == kept[k]);
        } else {
            let k = kept.len() as int;
            assert(k2[k] == c);
        }
    }
}

/// What the commission reading gives for each kept match, in order: the normalised
/// questioner of group 1, the topic as the trimmed quoted text of group 3 (never the site
/// id), and the internal id `Q` followed by the trimmed site id of group 4; one questioner,
/// topic and id per kept match, and every addressee is that of some kept match.
pub proof fn lemma_commission_data_law(all: Seq<Seq<Option<Seq<char>>>>)
    ensures
        ({
            let r = commission_fold(all);
            let kept = kept_commission_matches(all);
            &&& r.0.len() == kept.len() && r.2.len() == kept.len() && r.3.len() == kept.len()
            &&& forall|k: int| 0 <= k < kept.len() ==> {
                &&& Some(r.0[k]) == questioner_name(group_text(#[trigger] kept[k], 1))
                &&& r.2[k] == trim(group_text(kept[k], 3))
                &&& r.3[k] == seq!['Q'] + trim(group_text(kept[k], 4))
            }
            &&& addressees_from(r.1, kept)
        }),
    decreases all.len(),
{
    reveal(Seq::filter);
    if all.len() > 0 {
        let prev = all.drop_last();
        lemma_commission_data_law(prev);
        let kp = kept_commission_matches(prev);
        let kept = kept_commission_matches(all);
        assert(kept == if commission_kept(all.last()) { kp.push(all.last()) } else { kp });
        let r0 = commission_fold(prev);
        let r = commission_fold(all);
        assert(r == commission_step(r0, all.last()));
        if commission_kept(all.last()) {
            let c = all.last();
            assert(r.0 == r0.0.push(questioner_name(group_text(c, 1))->0));
            assert(r.2 == r0.2.push(trim(group_text(c, 3))));
            assert(r.3 == r0.3.push(seq!['Q'] + trim(group_text(c, 4))));
            assert forall|k: int| 0 <= k < kept.len() implies {
                &&& Some(r.0[k]) == questioner_name(group_text(#[trigger] kept[k], 1))
                &&& r.2[k] == trim(group_text(kept[k], 3))
                &&& r.3[k] == seq!['Q'] + trim(group_text(kept[k], 4))
            } by {
                if k < kp.len() {
                    assert(kept[k] == kp[k]);
                    assert(r.0[k] == r0.0[k] && r.2[k] == r0.2[k] && r.3[k] == r0.3[k]);
                } else {
                    assert(kept[k] == c);
                }
            }
            let a = commission_addressee(c);
            assert(r.1 == if r0.1.contains(a) { r0.1 } else { r0.1.push(a) });
            lemma_addressee_step(r0.1, kp, c);
        } else {
            assert(r == r0);
            assert(kept == kp);
        }
    } else {
        assert(commission_fold(all).1.len() == 0);
    }
}

/// The commission law read on a question heading: the data of a commission heading are,
/// match by kept match of the commission question pattern, its questioner, its quoted topic
/// (group 3, trimmed) and `Q` with its site id (group 4, trimmed).
pub proof fn lemma_commission_question_data(map: Map<String, String>, text: Seq<char>)
    ensures
        ({
            let r = question_data_of(MeetingKind::Commission, map, text);
            let kept = kept_commission_matches(regex_captures_all(COMMISSION_QUESTION_PATTERN@, text));
            &&& r.0.len() == kept.len() && r.2.len() == kept.len() && r.3.len() == kept.len()
            &&& forall|k: int| 0 <= k < kept.len() ==> {
                &&& Some(r.0[k]) == questioner_name(group_text(#[trigger] kept[k], 1))
                &&& r.2[k] == trim(group_text(kept[k], 3))
                &&& r.3[k] == seq!['Q'] + trim(group_text(kept[k], 4))
            }
            &&& addressees_from(r.1, kept)
        }),
{
    lemma_commission_data_law(regex_captures_all(COMMISSION_QUESTION_PATTERN@, text));
}

/// One plenary match: its questioner (when it normalises, then corrected by the typo
/// map), its addressee (kept once), the first of groups 3, 4, 5 that matched as topic,
/// and `Q` + group 4 as site id (empty when group 4 did not match).
pub open spec fn plenary_step(
    map: Map<String, String>,
    st: (Seq<Seq<char>>, Seq<Seq<char>>, Seq<Seq<char>>, Seq<Seq<char>>),
    caps: Seq<Option<Seq<char>>>,
) -> (Seq<Seq<char>>, Seq<Seq<char>>, Seq<Seq<char>>, Seq<Seq<char>>) {
    match questioner_name(group_text(caps, 1)) {
        None => st,
        Some(q) => {
            let questionee = trim(group_text(caps, 2));
            let topic = match crate::pattern::group(caps, 3) {
                Some(g) => trim(g),
                None => match crate::pattern::group(caps, 4) {
                    Some(g) => trim(g),
                    None => match crate::pattern::group(caps, 5) {
                        Some(g) => trim(g),
                        None => Seq::empty(),
                    },
                },
            };
            let id = match crate::pattern::group(caps, 4) {
                Some(g) => seq!['Q'] + trim(g),
                None => Seq::empty(),
            };
            (
                st.0.push(typo_fixed(map, q)),
                if st.1.contains(questionee) { st.1 } else { st.1.push(questionee) },
                st.2.push(topic),
                st.3.push(id),
            )
        },
    }
}

pub open spec fn plenary_fold(map: Map<String, String>, all: Seq<Seq<Option<Seq<char>>>>) -> (Seq<Seq<char>>, Seq<Seq<char>>, Seq<Seq<char>>, Seq<Seq<char>>)
    decreases all.len(),
{
    if all.len() == 0 {
        (Seq::empty(), Seq::empty(), Seq::empty(), Seq::empty())
    } else {
        plenary_step(map, plenary_fold(map, all.drop_last()), all.last())
    }
}

/// The plenary matches that are kept (their questioner normalises), in order.
pub open spec fn kept_plenary_matches(all: Seq<Seq<Option<Seq<char>>>>) -> Seq<Seq<Option<Seq<char>>>> {
    all.filter(|c: Seq<Option<Seq<char>>>| commission_kept(c))
}

/// Every name of `names` is the trimmed group 2 of one of `kept`.
pub open spec fn plenary_addressees_from(names: Seq<Seq<char>>, kept: Seq<Seq<Option<Seq<char>>>>) -> bool {
    forall|e: int| 0 <= e < names.len() ==> #[trigger] plenary_addressee_named(kept, names[e])
}

/// `a` is the trimmed group 2 of one of `kept`.
pub open spec fn plenary_addressee_named(kept: Seq<Seq<Option<Seq<char>>>>, a: Seq<char>) -> bool {
    exists|k: int| #![trigger kept[k]] 0 <= k < kept.len() && a == trim(group_text(kept[k], 2))
}

proof fn lemma_plenary_addressee_step(names: Seq<Seq<char>>, kept: Seq<Seq<Option<Seq<char>>>>, c: Seq<Option<Seq<char>>>)
    requires
        plenary_addressees_from(names, kept),
    ensures
        plenary_addressees_from(
            if names.contains(trim(group_text(c, 2))) { names } else { names.push(trim(group_text(c, 2))) },
            kept.push(c),
        ),
{
    let a = trim(group_text(c, 2));
    let n2 = if names.contains(a) { names } else { names.push(a) };
    let k2 = kept.push(c);
    assert forall|e: int| 0 <= e < n2.len() implies #[trigger] plenary_addressee_named(k2, n2[e]) by {
        if e < names.len() {
            assert(n2[e] == names[e]);
            assert(plenary_addressee_named(kept, names[e]));
            let k = choose|k: int| #![trigger kept[k]] 0 <= k < kept.len() && names[e] == trim(group_text(kept[k], 2));
            assert(k2[k] == kept[k]);
        } else {
            let k = kept.len() as int;
            assert(k2[k] == c);
        }
    }
}

/// What the plenary reading gives for each kept match, in order: the normalised questioner
/// of group 1 as the typo map corrects it; the topic as the trimmed text of the first of
/// groups 3, 4, 5 that matched (empty when none did); the internal id `Q` followed by the
/// trimmed group 4, empty when group 4 did not match; one questioner, topic and id per kept
/// match, and every addressee is the trimmed group 2 of some kept match.
pub proof fn lemma_plenary_data_law(map: Map<String, String>, all: Seq<Seq<Option<Seq<char>>>>)
    ensures
        ({
            let r = plenary_fold(map, all);
            let kept = kept_plenary_matches(all);
            &&& r.0.len() == kept.len() && r.2.len() == kept.len() && r.3.len() == kept.len()
            &&& forall|k: int| 0 <= k < kept.len() ==> {
                &&& Some(r.0[k]) == (match questioner_name(group_text(#[trigger] kept[k], 1)) {
                    Some(q) => Some(typo_fixed(map, q)),
                    None => None,
                })
                &&& (crate::pattern::group(kept[k], 3) matches Some(g) ==> r.2[k] == trim(g))
                &&& (crate::pattern::group(kept[k], 3) is None ==> (crate::pattern::group(kept[k], 4) matches Some(g) ==> r.2[k] == trim(g)))
                &&& (crate::pattern::group(kept[k], 3) is None && crate::pattern::group(kept[k], 4) is None
                    ==> r.2[k] == match crate::pattern::group(kept[k], 5) {
                        Some(g) => trim(g),
                        None => Seq::<char>::empty(),
                    })
                &&& (crate::pattern::group(kept[k], 4) matches Some(g) ==> r.3[k] == seq!['Q'] + trim(g))
                &&& (crate::pattern::group(kept[k], 4) is None ==> r.3[k].len() == 0)
            }
            &&& plenary_addressees_from(r.1, kept)
        }),
    decreases all.len(),
{
    reveal(Seq::filter);
    if all.len() > 0 {
        let prev = all.drop_last();
        lemma_plenary_data_law(map, prev);
        let kp = kept_plenary_matches(prev);
        let kept = kept_plenary_matches(all);
        assert(kept == if commission_kept(all.last()) { kp.push(all.last()) } else { kp });
        let r0 = plenary_fold(map, prev);
        let r = plenary_fold(map, all);
        assert(r == plenary_step(map, r0, all.last()));
        if commission_kept(all.last()) {
            let c = all.last();
            assert(r.0.len() == r0.0.len() + 1 && r.2.len() == r0.2.len() + 1 && r.3.len() == r0.3.len() + 1);
            assert forall|k: int| 0 <= k < kept.len() implies {
                &&& Some(r.0[k]) == (match questioner_name(group_text(#[trigger] kept[k], 1)) {
                    Some(q) => Some(typo_fixed(map, q)),
                    None => None,
                })
                &&& (crate::pattern::group(kept[k], 3) matches Some(g) ==> r.2[k] == trim(g))
                &&& (crate::pattern::group(kept[k], 3) is None ==> (crate::pattern::group(kept[k], 4) matches Some(g) ==> r.2[k] == trim(g)))
                &&& (crate::pattern::group(kept[k], 3) is None && crate::pattern::group(kept[k], 4) is None
                    ==> r.2[k] == match crate::pattern::group(kept[k], 5) {
                        Some(g) => trim(g),
                        None => Seq::<char>::empty(),
                    })
                &&& (crate::pattern::group(kept[k], 4) matches Some(g) ==> r.3[k] == seq!['Q'] + trim(g))
                &&& (crate::pattern::group(kept[k], 4) is None ==> r.3[k].len() == 0)
            } by {
                if k < kp.len() {
                    assert(kept[k] == kp[k]);
                    assert(r.0[k] == r0.0[k] && r.2[k] == r0.2[k] && r.3[k] == r0.3[k]);
                } else {
                    assert(kept[k] == c);
                }
            }
            let a = trim(group_text(c, 2));
            assert(r.1 == if r0.1.contains(a) { r0.1 } else { r0.1.push(a) });
            lemma_plenary_addressee_step(r0.1, kp, c);
        } else {
            assert(r == r0);
            assert(kept == kp);
        }
    } else {
        assert(plenary_fold(map, all).1.len() == 0);
    }
}

/// The fields of a question heading: every match of the meeting kind's heading form,
/// read in order by `plenary_fold` or `commission_fold`.
pub open spec fn question_data_of(meeting_kind: MeetingKind, map: Map<String, String>, text: Seq<char>) -> (Seq<Seq<char>>, Seq<Seq<char>>, Seq<Seq<char>>, Seq<Seq<char>>) {
    match meeting_kind {
        MeetingKind::Commission => commission_fold(regex_captures_all(COMMISSION_QUESTION_PATTERN@, text)),
        MeetingKind::Plenary => plenary_fold(map, regex_captures_all(PLENARY_QUESTION_PATTERN@, text)),
    }
}

fn push_question(data: &mut QuestionData, questioner: String, questionee: String, topic: String, internal_id: String)
    ensures
        data_view(*final(data)) == (
            data_view(*old(data)).0.push(questioner@),
            if data_view(*old(data)).1.contains(questionee@) { data_view(*old(data)).1 } else { data_view(*old(data)).1.push(questionee@) },
            data_view(*old(data)).2.push(topic@),
            data_view(*old(data)).3.push(internal_id@),
        ),
{
    let ghost before = data_view(*data);
    data.questioners.push(questioner);
    if !strings_contain(&data.questionees, questionee.as_str()) {
        data.questionees.push(questionee);
        assert(data.questionees.deep_view() =~= before.1.push(questionee@));
    }
    data.topics.push(topic);
    data.internal_ids.push(internal_id);
    assert(data.questioners.deep_view() =~= before.0.push(questioner@));
    assert(data.topics.deep_view() =~= before.2.push(topic@));
    assert(data.internal_ids.deep_view() =~= before.3.push(internal_id@));
}

fn group_string(caps: &Vec<Option<String>>, k: usize) -> (r: String)
    ensures
        r@ == group_text(caps.deep_view(), k as int),
{
    match group_at(caps, k) {
        Some(g) => g,
        None => String::new(),
    }
}

/// The questioners, addressees, topics and site ids of a question heading.
pub fn extract_question_data(
    meeting_kind: MeetingKind,
    typo_map: &HashMap<String, String>,
    question_text: &str,
) -> (r: Result<QuestionData, String>)
    ensures
        r matches Ok(d) && data_view(d) == question_data_of(meeting_kind, typo_map@, question_text@),
{
    let mut data = QuestionData {
        questioners: Vec::new(),
        questionees: Vec::new(),
        topics: Vec::new(),
        internal_ids: Vec::new(),
    };
    assert(data_view(data) == (Seq::<Seq<char>>::empty(), Seq::<Seq<char>>::empty(), Seq::<Seq<char>>::empty(), Seq::<Seq<char>>::empty()));
    match meeting_kind {
        MeetingKind::Plenary => {
            let all = re_captures_all(PLENARY_QUESTION_PATTERN, question_text);
            let mut i: usize = 0;
            while i < all.len()
                invariant
                    i <= all.len(),
                    all.deep_view() == regex_captures_all(PLENARY_QUESTION_PATTERN@, question_text@),
                    data_view(data) == plenary_fold(typo_map@, all.deep_view().take(i as int)),
                decreases all.len() - i,
            {
                let caps = &all[i];
                proof {
                    assert(all.deep_view().take(i + 1).drop_last() =~= all.deep_view().take(i as int));
                    assert(all.deep_view().take(i + 1).last() == caps.deep_view());
                }
                match normalize_questioner_name(group_string(caps, 1).as_str()) {
                    Some(raw) => {
                        let questioner = corrected_name(typo_map, raw);
                        let questionee = trim_str(group_string(caps, 2).as_str());
                        let topic = match group_at(caps, 3) {
                            Some(g) => trim_str(g.as_str()),
                            None => match group_at(caps, 4) {
                                Some(g) => trim_str(g.as_str()),
                                None => match group_at(caps, 5) {
                                    Some(g) => trim_str(g.as_str()),
                                    None => String::new(),
                                },
                            },
                        };
                        let internal_id = match group_at(caps, 4) {
                            Some(g) => {
                                let mut id = owned("Q");
                                proof {
                                    reveal_strlit("Q");
                                }
                                let t = trim_str(g.as_str());
                                push_str(&mut id, t.as_str());
                                assert(id@ =~= seq!['Q'] + t@);
                                id
                            },
                            None => String::new(),
                        };
                        push_question(&mut data, questioner, questionee, topic, internal_id);
                    },
                    None => {},
                }
                i = i + 1;
            }
            assert(all.deep_view().take(all.len() as int) =~= all.deep_view());
        },
        MeetingKind::Commission => {
            let all = re_captures_all(COMMISSION_QUESTION_PATTERN, question_text);
            let mut i: usize = 0;
            while i < all.len()
                invariant
                    i <= all.len(),
                    all.deep_view() == regex_captures_all(COMMISSION_QUESTION_PATTERN@, question_text@),
                    data_view(data) == commission_fold(all.deep_view().take(i as int)),
                decreases all.len() - i,
            {
                let caps = &all[i];
                proof {
                    assert(all.deep_view().take(i + 1).drop_last() =~= all.deep_view().take(i as int));
                    assert(all.deep_view().take(i + 1).last() == caps.deep_view());
                }
                match normalize_questioner_name(group_string(caps, 1).as_str()) {
                    Some(questioner) => {
                        let questionee = match group_at(caps, 2) {
                            Some(g) => trim_str(g.as_str()),
                            None => "Onbekend".to_string(),
                        };
                        let topic = trim_str(group_string(caps, 3).as_str());
                        let mut internal_id = String::new();
                        crate::text::push_char(&mut internal_id, 'Q');
                        let t = trim_str(group_string(caps, 4).as_str());
                        push_str(&mut internal_id, t.as_str());
                        assert(internal_id@ =~= seq!['Q'] + t@);
                        push_question(&mut data, questioner, questionee, topic, internal_id);
                    },
                    None => {},
                }
                i = i + 1;
            }
            assert(all.deep_view().take(all.len() as int) =~= all.deep_view());
        },
    }
    Ok(data)
}

/// `ids` lists, in ascending order and once each, the strings that occur in `src`.
pub open spec fn sorted_unique_of(ids: Seq<Seq<char>>, src: Seq<Seq<char>>) -> bool {
    &&& sorted_distinct(ids)
    &&& forall|x: Seq<char>| ids.contains(x) <==> src.contains(x)
}

/// The oral question row of a question item: its id, the questioners, addressees and
/// Dutch topics of its Dutch heading, the French topics of its French heading, and its
/// own site ids together with those of both headings, sorted, once each.
pub open spec fn question_draft_ok(
    d: OralQuestionDraft,
    item: AgendaItem,
    meeting_kind: MeetingKind,
    map: Map<String, String>,
    session_id: u32,
    meeting_id: u32,
    source_url: Seq<char>,
    cache_path: Seq<char>,
) -> bool {
    let nl = question_data_of(meeting_kind, map, item.title_nl@);
    let fr = question_data_of(meeting_kind, map, item.title_fr@);
    &&& d.question_id@ == item.item_id@
    &&& d.session_id == session_id
    &&& d.meeting_id == meeting_id
    &&& d.questioners@ == join(nl.0, ","@)
    &&& d.questionees@ == join(nl.1, ","@)
    &&& d.topics_nl@ == join(nl.2, ";"@)
    &&& d.topics_fr@ == join(fr.2, ";"@)
    &&& exists|ids: Seq<Seq<char>>| sorted_unique_of(ids, item.internal_ids.deep_view() + nl.3 + fr.3)
        && d.internal_ids@ == #[trigger] join(ids, ","@)
    &&& d.source_url@ == source_url
    &&& d.cache_path@ == cache_path
}

pub open spec fn is_question_item(item: AgendaItem) -> bool {
    item.item_kind == ItemKind::Question
}

fn question_row(
    item: &AgendaItem,
    meeting_kind: MeetingKind,
    session_id: u32,
    meeting_id: u32,
    typo_map: &HashMap<String, String>,
    source_url: &str,
    cache_path: &str,
) -> (r: OralQuestionDraft)
    ensures
        question_draft_ok(r, *item, meeting_kind, typo_map@, session_id, meeting_id, source_url@, cache_path@),
{
    let data_nl = match extract_question_data(meeting_kind, typo_map, item.title_nl.as_str()) {
        Ok(d) => d,
        Err(_) => QuestionData { questioners: Vec::new(), questionees: Vec::new(), topics: Vec::new(), internal_ids: Vec::new() },
    };
    let data_fr = match extract_question_data(meeting_kind, typo_map, item.title_fr.as_str()) {
        Ok(d) => d,
        Err(_) => QuestionData { questioners: Vec::new(), questionees: Vec::new(), topics: Vec::new(), internal_ids: Vec::new() },
    };
    let mut all_ids: Vec<String> = Vec::new();
    let mut i: usize = 0;
    while i < item.internal_ids.len()
        invariant
            i <= item.internal_ids.len(),
            all_ids.deep_view() == item.internal_ids.deep_view().take(i as int),
        decreases item.internal_ids.len() - i,
    {
        all_ids.push(item.internal_ids[i].clone());
        proof {
            assert(item.internal_ids.deep_view().take(i + 1) =~= item.internal_ids.deep_view().take(i as int).push(item.internal_ids.deep_view()[i as int]));
        }
        i = i + 1;
    }
    let ghost base = all_ids.deep_view();
    assert(base =~= item.internal_ids.deep_view());
    let mut j: usize = 0;
    while j < data_nl.internal_ids.len()
        invariant
            j <= data_nl.internal_ids.len(),
            all_ids.deep_view() == base + data_nl.internal_ids.deep_view().take(j as int),
        decreases data_nl.internal_ids.len() - j,
    {
        let ghost prev = all_ids.deep_view();
        let x = data_nl.internal_ids[j].clone();
        all_ids.push(x);
        proof {
            assert(all_ids.deep_view() =~= prev.push(data_nl.internal_ids.deep_view()[j as int]));
            assert(data_nl.internal_ids.deep_view().take(j + 1) =~= data_nl.internal_ids.deep_view().take(j as int).push(data_nl.internal_ids.deep_view()[j as int]));
            assert(all_ids.deep_view() =~= base + data_nl.internal_ids.deep_view().take(j + 1));
        }
        j = j + 1;
    }
    assert(data_nl.internal_ids.deep_view().take(data_nl.internal_ids.len() as int) =~= data_nl.internal_ids.deep_view());
    let ghost mid = all_ids.deep_view();
    let mut k: usize = 0;
    while k < data_fr.internal_ids.len()
        invariant
            k <= data_fr.internal_ids.len(),
            all_ids.deep_view() == mid + data_fr.internal_ids.deep_view().take(k as int),
        decreases data_fr.internal_ids.len() - k,
    {
        let ghost prev = all_ids.deep_view();
        let x = data_fr.internal_ids[k].clone();
        all_ids.push(x);
        proof {
            assert(all_ids.deep_view() =~= prev.push(data_fr.internal_ids.deep_view()[k as int]));
            assert(data_fr.internal_ids.deep_view().take(k + 1) =~= data_fr.internal_ids.deep_view().take(k as int).push(data_fr.internal_ids.deep_view()[k as int]));
            assert(all_ids.deep_view() =~= mid + data_fr.internal_ids.deep_view().take(k + 1));
        }
        k = k + 1;
    }
    assert(data_fr.internal_ids.deep_view().take(data_fr.internal_ids.len() as int) =~= data_fr.internal_ids.deep_view());
    let ids = sort_dedup_strings(&all_ids);
    proof {
        reveal_strlit(",");
        reveal_strlit(";");
    }
    let joined = join_strs(ids.as_slice(), ",");
    assert(sorted_unique_of(ids.deep_view(), item.internal_ids.deep_view() + data_view(data_nl).3 + data_view(data_fr).3));
    OralQuestionDraft {
        question_id: item.item_id.clone(),
        session_id,
        meeting_id,
        questioners: join_strs(data_nl.questioners.as_slice(), ","),
        questionees: join_strs(data_nl.questionees.as_slice(), ","),
        topics_nl: join_strs(data_nl.topics.as_slice(), ";"),
        topics_fr: join_strs(data_fr.topics.as_slice(), ";"),
        internal_ids: joined,
        source_url: owned(source_url),
        cache_path: owned(cache_path),
    }
}

/// One oral question row per question item of the agenda, in agenda order.
pub fn extract_questions_from_agenda(
    agenda: &[AgendaItem],
    meeting_kind: MeetingKind,
    session_id: u32,
    meeting_id: u32,
    typo_map: &HashMap<String, String>,
    source_url: &str,
    cache_path: &str,
) -> (r: Result<Vec<OralQuestionDraft>, String>)
    ensures
        r matches Ok(v) && v@.len() == agenda@.filter(|it: AgendaItem| is_question_item(it)).len()
            && forall|k: int| 0 <= k < v@.len() ==> question_draft_ok(
                #[trigger] v@[k],
                agenda@.filter(|it: AgendaItem| is_question_item(it))[k],
                meeting_kind,
                typo_map@,
                session_id,
                meeting_id,
                source_url@,
                cache_path@,
            ),
{
    let ghost qpred = |it: AgendaItem| is_question_item(it);
    let mut out: Vec<OralQuestionDraft> = Vec::new();
    let mut i: usize = 0;
    while i < agenda.len()
        invariant
            i <= agenda.len(),
            qpred == (|it: AgendaItem| is_question_item(it)),
            out@.len() == agenda@.take(i as int).filter(qpred).len(),
            forall|k: int| 0 <= k < out@.len() ==> question_draft_ok(
                #[trigger] out@[k],
                agenda@.take(i as int).filter(qpred)[k],
                meeting_kind,
                typo_map@,
                session_id,
                meeting_id,
                source_url@,
                cache_path@,
            ),
        decreases agenda.len() - i,
    {
        let item = &agenda[i];
        proof {
            reveal(Seq::filter);
            assert(agenda@.take(i + 1).drop_last() =~= agenda@.take(i as int));
            assert(agenda@.take(i + 1).last() == agenda@[i as int]);
        }
        if item.item_kind == ItemKind::Question {
            let row = question_row(item, meeting_kind, session_id, meeting_id, typo_map, source_url, cache_path);
            let ghost before = out@;
            out.push(row);
            proof {
                assert(agenda@.take(i + 1).filter(qpred) == agenda@.take(i as int).filter(qpred).push(agenda@[i as int]));
                assert forall|k: int| 0 <= k < out@.len() implies question_draft_ok(
                    #[trigger] out@[k],
                    agenda@.take(i + 1).filter(qpred)[k],
                    meeting_kind,
                    typo_map@,
                    session_id,
                    meeting_id,
                    source_url@,
                    cache_path@,
                ) by {
                    if k < before.len() {
                        assert(out@[k] == before[k]);
                    }
                }
            }
        } else {
            assert(agenda@.take(i + 1).filter(qpred) == agenda@.take(i as int).filter(qpred));
        }
        i = i + 1;
    }
    assert(agenda@.take(agenda.len() as int) =~= agenda@);
    Ok(out)
}

} // verus!
