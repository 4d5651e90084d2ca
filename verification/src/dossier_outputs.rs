//! Dossier run bookkeeping: the inventory file, cache file names, download decisions and
//! counts, content fingerprints, and the check that ties a run's outputs to its inventory.
use vstd::prelude::*;
use crate::dossiers::{
    dossier_ok, ids_by_number, scrape_result_ok, rows_view, scrape_dossier, sort_ids_by_number, sorted_comma_separated, sorted_comma_separated_spec, sorted_csv, sorted_strings,
    sub_view, subs_view, Dossier, DossierPage, ScrapedDossier, ScrapedSubdocument, SubView, Subdocument,
};
use crate::json::{json_array, json_array_of, json_member, json_member_of, json_object, json_object_of, json_string, json_string_of};
use crate::source_manifest::{SourceManifestRow, MANIFEST_STATUS_NOT_FOUND, MANIFEST_STATUS_PARSED};
use crate::text::{
    decimal, ends_with, join, owned, push_char, push_decimal, push_str, split, split_str, starts_with, str_ends_with,
    seq_less, split_from, str_eq, str_starts_with, strings_contain, to_chars, trim, trim_str,
};

verus! {

/// The ids of the manifest rows of kind `dossier`, in row order.
pub open spec fn manifest_dossier_ids(rows: Seq<SourceManifestRow>) -> Seq<Seq<char>>
    decreases rows.len(),
{
    if rows.len() == 0 {
        Seq::empty()
    } else {
        let rest = manifest_dossier_ids(rows.drop_last());
        if rows.last().item_kind@ == "dossier"@ { rest.push(rows.last().native_item_id@) } else { rest }
    }
}

/// The ids of the manifest rows with the given status, in row order.
pub open spec fn manifest_ids_with_status(rows: Seq<SourceManifestRow>, status: Seq<char>) -> Seq<Seq<char>>
    decreases rows.len(),
{
    if rows.len() == 0 {
        Seq::empty()
    } else {
        let rest = manifest_ids_with_status(rows.drop_last(), status);
        if rows.last().status@ == status { rest.push(rows.last().native_item_id@) } else { rest }
    }
}

/// The ids of the dossier rows, in order.
pub open spec fn dossier_row_ids(ds: Seq<ScrapedDossier>) -> Seq<Seq<char>> {
    ds.map_values(|d: ScrapedDossier| d.dossier_id@)
}

/// The ids that the manifest marks as parsed.
pub open spec fn parsed_ids(rows: Seq<SourceManifestRow>) -> Set<Seq<char>> {
    manifest_ids_with_status(rows, MANIFEST_STATUS_PARSED@).to_set()
}

/// The ids that the manifest marks as not found.
pub open spec fn not_found_ids(rows: Seq<SourceManifestRow>) -> Set<Seq<char>> {
    manifest_ids_with_status(rows, MANIFEST_STATUS_NOT_FOUND@).to_set()
}

/// The first `k` subdocuments all belong to a dossier of `parsed`.
pub open spec fn subdocuments_owned_upto(subs: Seq<ScrapedSubdocument>, parsed: Set<Seq<char>>, k: int) -> bool {
    forall|j: int| 0 <= j < k ==> parsed.contains(#[trigger] subs[j].dossier_id@)
}

/// The outputs agree with the inventory: the manifest's dossier rows are exactly the
/// expected ids, no id is both parsed and not found, the dossier rows are exactly the parsed
/// ids, and every subdocument belongs to a parsed dossier.
pub open spec fn outputs_consistent(expected: Seq<Seq<char>>, dossiers: Seq<ScrapedDossier>,
    subs: Seq<ScrapedSubdocument>, rows: Seq<SourceManifestRow>) -> bool {
    &&& expected.to_set() == manifest_dossier_ids(rows).to_set()
    &&& parsed_ids(rows).disjoint(not_found_ids(rows))
    &&& dossier_row_ids(dossiers).to_set() == parsed_ids(rows)
    &&& subdocuments_owned_upto(subs, parsed_ids(rows), subs.len() as int)
}

/// Why a dossier run's outputs were refused.
pub enum ReconcileError {
    /// The manifest's dossier rows differ from the inventory.
    InventoryMismatch { missing: Vec<String>, extra: Vec<String> },
    /// Some id is both parsed and not found.
    OverlappingStatuses,
    /// The dossier rows differ from the ids marked as parsed.
    ParsedMismatch { missing: Vec<String>, extra: Vec<String> },
    /// A subdocument belongs to no parsed dossier.
    OrphanSubdocument { id: String, dossier_id: String },
}

/// A bracketed, quoted list of ids.
pub open spec fn quoted_list(ids: Seq<Seq<char>>) -> Seq<char> {
    seq!['['] + crate::text::join(ids.map_values(|s: Seq<char>| seq!['"'] + s + seq!['"']), seq![',', ' ']) + seq![']']
}

impl ReconcileError {
    /// The error's text.
    pub open spec fn text(self) -> Seq<char> {
        match self {
            ReconcileError::InventoryMismatch { missing, extra } =>
                "dossier inventory/manifest mismatch: missing="@ + quoted_list(missing.deep_view())
                    + " extra="@ + quoted_list(extra.deep_view()),
            ReconcileError::OverlappingStatuses => "dossier manifest has overlapping parsed and not_found ids"@,
            ReconcileError::ParsedMismatch { missing, extra } =>
                "parsed dossiers mismatch manifest: missing="@ + quoted_list(missing.deep_view())
                    + " extra="@ + quoted_list(extra.deep_view()),
            ReconcileError::OrphanSubdocument { id, dossier_id } =>
                "subdocument "@ + id@ + " references dossier "@ + dossier_id@ + " outside parsed set"@,
        }
    }

    /// The error's text.
    pub fn message(&self) -> (r: String)
        ensures
            r@ == self.text(),
    {
        let mut out = String::new();
        match self {
            ReconcileError::InventoryMismatch { missing, extra } => {
                crate::text::push_str(&mut out, "dossier inventory/manifest mismatch: missing=");
                push_quoted_list(&mut out, missing);
                crate::text::push_str(&mut out, " extra=");
                push_quoted_list(&mut out, extra);
            },
            ReconcileError::OverlappingStatuses => {
                crate::text::push_str(&mut out, "dossier manifest has overlapping parsed and not_found ids");
            },
            ReconcileError::ParsedMismatch { missing, extra } => {
                crate::text::push_str(&mut out, "parsed dossiers mismatch manifest: missing=");
                push_quoted_list(&mut out, missing);
                crate::text::push_str(&mut out, " extra=");
                push_quoted_list(&mut out, extra);
            },
            ReconcileError::OrphanSubdocument { id, dossier_id } => {
                crate::text::push_str(&mut out, "subdocument ");
                crate::text::push_str(&mut out, id.as_str());
                crate::text::push_str(&mut out, " references dossier ");
                crate::text::push_str(&mut out, dossier_id.as_str());
                crate::text::push_str(&mut out, " outside parsed set");
            },
        }
        assert(out@ =~= self.text());
        out
    }
}

fn push_quoted_list(out: &mut String, ids: &Vec<String>)
    ensures
        final(out)@ == old(out)@ + quoted_list(ids.deep_view()),
{
    let mut quoted: Vec<String> = Vec::new();
    let mut i: usize = 0;
    let ghost f = |s: Seq<char>| seq!['"'] + s + seq!['"'];
    while i < ids.len()
        invariant
            i <= ids@.len(),
            quoted.deep_view() == ids.deep_view().take(i as int).map_values(f),
            f == (|s: Seq<char>| seq!['"'] + s + seq!['"']),
        decreases ids.len() - i,
    {
        let mut q = String::new();
        crate::text::push_char(&mut q, '"');
        crate::text::push_str(&mut q, ids[i].as_str());
        crate::text::push_char(&mut q, '"');
        assert(q@ =~= f(ids.deep_view()[i as int]));
        let ghost before = quoted.deep_view();
        quoted.push(q);
        assert(quoted.deep_view() =~= before.push(f(ids.deep_view()[i as int])));
        assert(ids.deep_view().take(i + 1) =~= ids.deep_view().take(i as int).push(ids.deep_view()[i as int]));
        assert(quoted.deep_view() =~= ids.deep_view().take(i + 1).map_values(f));
        i = i + 1;
    }
    assert(ids.deep_view().take(ids@.len() as int) =~= ids.deep_view());
    let joined = crate::text::join_strs(quoted.as_slice(), ", ");
    proof {
        reveal_strlit(", ");
        assert(", "@ =~= seq![',', ' ']);
    }
    crate::text::push_char(out, '[');
    crate::text::push_str(out, joined.as_str());
    crate::text::push_char(out, ']');
    assert(final(out)@ =~= old(out)@ + quoted_list(ids.deep_view()));
}

fn manifest_dossier_ids_exec(rows: &[SourceManifestRow]) -> (r: Vec<String>)
    ensures
        r.deep_view() == manifest_dossier_ids(rows@),
{
    let mut out: Vec<String> = Vec::new();
    let mut i: usize = 0;
    while i < rows.len()
        invariant
            i <= rows@.len(),
            out.deep_view() == manifest_dossier_ids(rows@.take(i as int)),
        decreases rows.len() - i,
    {
        proof {
            assert(rows@.take(i + 1).drop_last() =~= rows@.take(i as int));
        }
        if str_eq(rows[i].item_kind.as_str(), "dossier") {
            let ghost before = out.deep_view();
            out.push(rows[i].native_item_id.clone());
            assert(out.deep_view() =~= before.push(rows@[i as int].native_item_id@));
        }
        i = i + 1;
    }
    assert(rows@.take(rows@.len() as int) =~= rows@);
    out
}

fn manifest_ids_with_status_exec(rows: &[SourceManifestRow], status: &str) -> (r: Vec<String>)
    ensures
        r.deep_view() == manifest_ids_with_status(rows@, status@),
{
    let mut out: Vec<String> = Vec::new();
    let mut i: usize = 0;
    while i < rows.len()
        invariant
            i <= rows@.len(),
            out.deep_view() == manifest_ids_with_status(rows@.take(i as int), status@),
        decreases rows.len() - i,
    {
        proof {
            assert(rows@.take(i + 1).drop_last() =~= rows@.take(i as int));
        }
        if str_eq(rows[i].status.as_str(), status) {
            let ghost before = out.deep_view();
            out.push(rows[i].native_item_id.clone());
            assert(out.deep_view() =~= before.push(rows@[i as int].native_item_id@));
        }
        i = i + 1;
    }
    assert(rows@.take(rows@.len() as int) =~= rows@);
    out
}

fn dossier_row_ids_exec(ds: &[ScrapedDossier]) -> (r: Vec<String>)
    ensures
        r.deep_view() == dossier_row_ids(ds@),
{
    let mut out: Vec<String> = Vec::new();
    let mut i: usize = 0;
    while i < ds.len()
        invariant
            i <= ds@.len(),
            out.deep_view() == dossier_row_ids(ds@.take(i as int)),
        decreases ds.len() - i,
    {
        let ghost before = out.deep_view();
        out.push(ds[i].dossier_id.clone());
        assert(out.deep_view() =~= before.push(ds@[i as int].dossier_id@));
        assert(ds@.take(i + 1) =~= ds@.take(i as int).push(ds@[i as int]));
        assert(out.deep_view() =~= dossier_row_ids(ds@.take(i + 1)));
        i = i + 1;
    }
    assert(ds@.take(ds@.len() as int) =~= ds@);
    out
}

/// The strings of `a` that `b` does not hold, in the order of `a`.
fn strings_difference(a: &Vec<String>, b: &Vec<String>) -> (r: Vec<String>)
    ensures
        r.deep_view().to_set() == a.deep_view().to_set().difference(b.deep_view().to_set()),
{
    let mut out: Vec<String> = Vec::new();
    let mut i: usize = 0;
    let ghost bs = b.deep_view().to_set();
    while i < a.len()
        invariant
            i <= a@.len(),
            bs == b.deep_view().to_set(),
            out.deep_view().to_set() == a.deep_view().take(i as int).to_set().difference(bs),
        decreases a.len() - i,
    {
        let ghost x = a.deep_view()[i as int];
        proof {
            assert(a.deep_view().take(i + 1) =~= a.deep_view().take(i as int).push(x));
            a.deep_view().take(i as int).lemma_push_to_set_commute(x);
        }
        if !strings_contain(b, a[i].as_str()) {
            let ghost before = out.deep_view();
            out.push(a[i].clone());
            proof {
                assert(out.deep_view() =~= before.push(x));
                before.lemma_push_to_set_commute(x);
            }
            assert(out.deep_view().to_set() =~= a.deep_view().take(i + 1).to_set().difference(bs));
        } else {
            assert(bs.contains(x));
            assert(out.deep_view().to_set() =~= a.deep_view().take(i + 1).to_set().difference(bs));
        }
        i = i + 1;
    }
    assert(a.deep_view().take(a@.len() as int) =~= a.deep_view());
    out
}

proof fn lemma_empty_differences_equal(a: Set<Seq<char>>, b: Set<Seq<char>>)
    requires
        a.difference(b) =~= Set::empty(),
        b.difference(a) =~= Set::empty(),
    ensures
        a == b,
{
    assert forall|x: Seq<char>| a.contains(x) implies b.contains(x) by {
        assert(!a.difference(b).contains(x));
    }
    assert forall|x: Seq<char>| b.contains(x) implies a.contains(x) by {
        assert(!b.difference(a).contains(x));
    }
    assert(a =~= b);
}

proof fn lemma_empty_vec_set(v: Vec<String>)
    requires
        v@.len() == 0,
    ensures
        v.deep_view().to_set() =~= Set::<Seq<char>>::empty(),
{
    assert forall|x: Seq<char>| !v.deep_view().to_set().contains(x) by {
        if v.deep_view().contains(x) {
            let k = choose|k: int| 0 <= k < v.deep_view().len() && v.deep_view()[k] == x;
        }
    }
}

proof fn lemma_nonempty_vec_set(v: Vec<String>)
    requires
        v@.len() > 0,
    ensures
        v.deep_view().to_set().contains(v.deep_view()[0]),
{
    assert(v.deep_view().contains(v.deep_view()[0]));
}

/// Compares two lists of names as sets: `(missing, extra)` are what each holds that the
/// other does not; both are empty exactly when the sets are equal.
pub fn compare_sets(expected: &Vec<String>, actual: &Vec<String>) -> (r: (Vec<String>, Vec<String>))
    ensures
        r.0.deep_view().to_set() == expected.deep_view().to_set().difference(actual.deep_view().to_set()),
        r.1.deep_view().to_set() == actual.deep_view().to_set().difference(expected.deep_view().to_set()),
        (r.0@.len() == 0 && r.1@.len() == 0) <==> expected.deep_view().to_set() == actual.deep_view().to_set(),
{
    let missing = strings_difference(expected, actual);
    let extra = strings_difference(actual, expected);
    let ghost e = expected.deep_view().to_set();
    let ghost a = actual.deep_view().to_set();
    proof {
        if missing@.len() == 0 && extra@.len() == 0 {
            lemma_empty_vec_set(missing);
            lemma_empty_vec_set(extra);
            lemma_empty_differences_equal(e, a);
        }
        if missing@.len() > 0 {
            lemma_nonempty_vec_set(missing);
            assert(e.difference(a).contains(missing.deep_view()[0]));
        }
        if extra@.len() > 0 {
            lemma_nonempty_vec_set(extra);
            assert(a.difference(e).contains(extra.deep_view()[0]));
        }
    }
    (missing, extra)
}

/// Checks that a dossier run's outputs agree with its inventory (`expected`, the inventory's
/// ids): the first failed check gives the error.
pub fn reconcile_dossier_outputs(
    expected: &Vec<String>,
    dossiers: &[ScrapedDossier],
    subdocuments: &[ScrapedSubdocument],
    manifest_rows: &[SourceManifestRow],
) -> (r: Result<(), ReconcileError>)
    ensures
        r is Ok <==> outputs_consistent(expected.deep_view(), dossiers@, subdocuments@, manifest_rows@),
        match r {
            Ok(()) => true,
            Err(ReconcileError::InventoryMismatch { missing, extra }) => {
                &&& expected.deep_view().to_set() != manifest_dossier_ids(manifest_rows@).to_set()
                &&& missing.deep_view().to_set() == expected.deep_view().to_set().difference(manifest_dossier_ids(manifest_rows@).to_set())
                &&& extra.deep_view().to_set() == manifest_dossier_ids(manifest_rows@).to_set().difference(expected.deep_view().to_set())
            },
            Err(ReconcileError::OverlappingStatuses) => {
                &&& expected.deep_view().to_set() == manifest_dossier_ids(manifest_rows@).to_set()
                &&& !parsed_ids(manifest_rows@).disjoint(not_found_ids(manifest_rows@))
            },
            Err(ReconcileError::ParsedMismatch { missing, extra }) => {
                &&& expected.deep_view().to_set() == manifest_dossier_ids(manifest_rows@).to_set()
                &&& parsed_ids(manifest_rows@).disjoint(not_found_ids(manifest_rows@))
                &&& dossier_row_ids(dossiers@).to_set() != parsed_ids(manifest_rows@)
                &&& missing.deep_view().to_set() == parsed_ids(manifest_rows@).difference(dossier_row_ids(dossiers@).to_set())
                &&& extra.deep_view().to_set() == dossier_row_ids(dossiers@).to_set().difference(parsed_ids(manifest_rows@))
            },
            Err(ReconcileError::OrphanSubdocument { id, dossier_id }) => {
                &&& expected.deep_view().to_set() == manifest_dossier_ids(manifest_rows@).to_set()
                &&& parsed_ids(manifest_rows@).disjoint(not_found_ids(manifest_rows@))
                &&& dossier_row_ids(dossiers@).to_set() == parsed_ids(manifest_rows@)
                &&& exists|k: int| 0 <= k < subdocuments@.len()
                    && subdocuments_owned_upto(subdocuments@, parsed_ids(manifest_rows@), k)
                    && !parsed_ids(manifest_rows@).contains(#[trigger] subdocuments@[k].dossier_id@)
                    && id@ == subdocuments@[k].id@ && dossier_id@ == subdocuments@[k].dossier_id@
            },
        },
{
    let keys = manifest_dossier_ids_exec(manifest_rows);
    let (missing, extra) = compare_sets(expected, &keys);
    if missing.len() > 0 || extra.len() > 0 {
        return Err(ReconcileError::InventoryMismatch { missing, extra });
    }
    let parsed = manifest_ids_with_status_exec(manifest_rows, MANIFEST_STATUS_PARSED);
    let not_found = manifest_ids_with_status_exec(manifest_rows, MANIFEST_STATUS_NOT_FOUND);
    let ghost ps = parsed.deep_view().to_set();
    let ghost ns = not_found.deep_view().to_set();
    let mut i: usize = 0;
    while i < parsed.len()
        invariant
            i <= parsed@.len(),
            expected.deep_view().to_set() == manifest_dossier_ids(manifest_rows@).to_set(),
            parsed.deep_view() == manifest_ids_with_status(manifest_rows@, MANIFEST_STATUS_PARSED@),
            not_found.deep_view() == manifest_ids_with_status(manifest_rows@, MANIFEST_STATUS_NOT_FOUND@),
            ps == parsed.deep_view().to_set(),
            ns == not_found.deep_view().to_set(),
            forall|k: int| 0 <= k < i ==> !ns.contains(#[trigger] parsed.deep_view()[k]),
        decreases parsed.len() - i,
    {
        if strings_contain(&not_found, parsed[i].as_str()) {
            assert(ps.contains(parsed.deep_view()[i as int]));
            return Err(ReconcileError::OverlappingStatuses);
        }
        i = i + 1;
    }
    assert forall|x: Seq<char>| ps.contains(x) implies !ns.contains(x) by {
        let k = choose|k: int| 0 <= k < parsed.deep_view().len() && parsed.deep_view()[k] == x;
    }
    let ids = dossier_row_ids_exec(dossiers);
    let (missing2, extra2) = compare_sets(&parsed, &ids);
    if missing2.len() > 0 || extra2.len() > 0 {
        return Err(ReconcileError::ParsedMismatch { missing: missing2, extra: extra2 });
    }
    let mut j: usize = 0;
    while j < subdocuments.len()
        invariant
            j <= subdocuments@.len(),
            ps == parsed.deep_view().to_set(),
            ps == parsed_ids(manifest_rows@),
            expected.deep_view().to_set() == manifest_dossier_ids(manifest_rows@).to_set(),
            parsed_ids(manifest_rows@).disjoint(not_found_ids(manifest_rows@)),
            dossier_row_ids(dossiers@).to_set() == parsed_ids(manifest_rows@),
            subdocuments_owned_upto(subdocuments@, ps, j as int),
        decreases subdocuments.len() - j,
    {
        if !strings_contain(&parsed, subdocuments[j].dossier_id.as_str()) {
            return Err(ReconcileError::OrphanSubdocument {
                id: subdocuments[j].id.clone(),
                dossier_id: subdocuments[j].dossier_id.clone(),
            });
        }
        j = j + 1;
    }
    Ok(())
}


/// The index of the first `c` in `s`, if any.
pub open spec fn first_char_index(s: Seq<char>, c: char) -> Option<int> {
    if exists|i: int| 0 <= i < s.len() && s[i] == c {
        Some(choose|i: int| 0 <= i < s.len() && s[i] == c && forall|j: int| 0 <= j < i ==> s[j] != c)
    } else {
        None
    }
}

/// One inventory line read as `(id, date)`: the text before the first tab and the text
/// after it (empty without a tab), each trimmed.
pub open spec fn tsv_entry(line: Seq<char>) -> (Seq<char>, Seq<char>) {
    match first_char_index(line, '\t') {
        Some(i) => (trim(line.take(i)), trim(line.skip(i + 1))),
        None => (trim(line), Seq::empty()),
    }
}

/// The entries of an inventory file: one per line that is not blank, in order. A later
/// entry for the same id replaces an earlier one when they are put into a map in order.
pub open spec fn tsv_entries(content: Seq<char>) -> Seq<(Seq<char>, Seq<char>)> {
    split(content, '\n').filter(|l: Seq<char>| trim(l).len() > 0).map_values(|l: Seq<char>| tsv_entry(l))
}

fn tsv_entry_exec(line: &str) -> (r: (String, String))
    ensures
        (r.0@, r.1@) == tsv_entry(line@),
{
    let v = to_chars(line);
    let mut i: usize = 0;
    while i < v.len()
        invariant
            i <= v@.len(),
            v@ == line@,
            forall|j: int| 0 <= j < i ==> v@[j] != '\t',
        decreases v.len() - i,
    {
        if v[i] == '\t' {
            let ghost wit = i as int;
            assert(0 <= wit < line@.len() && line@[wit] == '\t');
            let ghost ix = choose|k: int| 0 <= k < line@.len() && line@[k] == '\t' && forall|j: int| 0 <= j < k ==> line@[j] != '\t';
            assert(ix == i) by {
                if ix < i {
                    assert(v@[ix] != '\t');
                }
                if ix > i {
                    assert(line@[i as int] != '\t');
                }
            }
            let id = crate::text::from_char_range(&v, 0, i);
            let date = crate::text::from_char_range(&v, i + 1, v.len());
            assert(id@ =~= line@.take(i as int));
            assert(date@ =~= line@.skip(i + 1));
            return (trim_str(id.as_str()), trim_str(date.as_str()));
        }
        i = i + 1;
    }
    (trim_str(line), String::new())
}

/// The entries of an inventory file (`dossier_inventory.tsv` or the plenary sidecar): one
/// `(id, date)` per line that is not blank, in line order.
pub fn parse_dossier_id_tsv(content: &str) -> (r: Vec<(String, String)>)
    ensures
        r@.map_values(|e: (String, String)| (e.0@, e.1@)) == tsv_entries(content@),
{
    let lines = split_str(content, '\n');
    let ghost lv = lines.deep_view();
    let ghost pred = |l: Seq<char>| trim(l).len() > 0;
    let ghost f = |l: Seq<char>| tsv_entry(l);
    let ghost g = |e: (String, String)| (e.0@, e.1@);
    let mut out: Vec<(String, String)> = Vec::new();
    let mut i: usize = 0;
    while i < lines.len()
        invariant
            i <= lines@.len(),
            lv == lines.deep_view(),
            lv == split(content@, '\n'),
            pred == (|l: Seq<char>| trim(l).len() > 0),
            f == (|l: Seq<char>| tsv_entry(l)),
            g == (|e: (String, String)| (e.0@, e.1@)),
            out@.map_values(g) == lv.take(i as int).filter(pred).map_values(f),
        decreases lines.len() - i,
    {
        proof {
            assert(lv.take(i + 1).drop_last() =~= lv.take(i as int));
            reveal_with_fuel(Seq::filter, 1);
        }
        let t = trim_str(lines[i].as_str());
        if t.unicode_len() > 0 {
            let e = tsv_entry_exec(lines[i].as_str());
            let ghost before = out@;
            out.push(e);
            assert(out@ =~= before.push(e));
            assert(out@.map_values(g) =~= before.map_values(g).push(g(e)));
            assert(lv.take(i + 1).filter(pred) =~= lv.take(i as int).filter(pred).push(lv[i as int]));
            assert(out@.map_values(g) =~= lv.take(i + 1).filter(pred).map_values(f));
        } else {
            assert(lv.take(i + 1).filter(pred) =~= lv.take(i as int).filter(pred));
        }
        i = i + 1;
    }
    assert(lv.take(lines@.len() as int) =~= lv);
    out
}

/// The dossier id that a cache file name carries: for `{session}_{id}_{version}.html`, the
/// text between the session prefix and the next underscore, when the name has that form and
/// the id is not empty.
pub open spec fn cache_file_dossier_id(session_id: u32, name: Seq<char>) -> Option<Seq<char>> {
    let prefix = decimal(session_id as nat) + seq!['_'];
    if ends_with(name, ".html"@) && starts_with(name.take(name.len() - 5), prefix) {
        let rest = name.take(name.len() - 5).skip(prefix.len() as int);
        let id = split(rest, '_')[0];
        if id.len() > 0 { Some(id) } else { None }
    } else {
        None
    }
}

fn cache_file_dossier_id_exec(session_id: u32, name: &str) -> (r: Option<String>)
    ensures
        r.deep_view() == cache_file_dossier_id(session_id, name@),
{
    let mut prefix = String::new();
    push_decimal(&mut prefix, session_id as u64);
    push_char(&mut prefix, '_');
    assert(prefix@ =~= decimal(session_id as nat) + seq!['_']);
    proof {
        reveal_strlit(".html");
    }
    if !str_ends_with(name, ".html") {
        return None;
    }
    let v = to_chars(name);
    let n = v.len();
    assert(n >= 5) by {
        assert(".html"@.len() == 5);
    }
    let stem = crate::text::from_char_range(&v, 0, n - 5);
    assert(stem@ =~= name@.take(name@.len() - 5));
    if !str_starts_with(stem.as_str(), prefix.as_str()) {
        return None;
    }
    let sv = to_chars(stem.as_str());
    let p = prefix.as_str().unicode_len();
    let rest = crate::text::from_char_range(&sv, p, sv.len());
    assert(rest@ =~= stem@.skip(prefix@.len() as int));
    let parts = split_str(rest.as_str(), '_');
    proof {
        crate::text::lemma_split_nonempty(rest@, '_');
    }
    let id = parts[0].clone();
    assert(id@ == split(rest@, '_')[0]);
    if id.unicode_len() > 0 {
        Some(id)
    } else {
        None
    }
}

/// The dossier ids that the cache file names of a session carry, each once.
pub open spec fn cached_dossier_ids(session_id: u32, names: Seq<Seq<char>>) -> Set<Seq<char>> {
    Set::new(|id: Seq<char>| exists|k: int| 0 <= k < names.len() && cache_file_dossier_id(session_id, #[trigger] names[k]) == Some(id))
}

/// The dossier ids carried by the names of the files in a session's dossier cache, each once.
pub fn dossier_ids_from_cache_filenames(session_id: u32, names: &Vec<String>) -> (r: Vec<String>)
    ensures
        r.deep_view().to_set() == cached_dossier_ids(session_id, names.deep_view()),
        r.deep_view().no_duplicates(),
{
    let mut out: Vec<String> = Vec::new();
    let mut i: usize = 0;
    while i < names.len()
        invariant
            i <= names@.len(),
            out.deep_view().to_set() == cached_dossier_ids(session_id, names.deep_view().take(i as int)),
            out.deep_view().no_duplicates(),
        decreases names.len() - i,
    {
        let ghost nv = names.deep_view();
        proof {
            assert(nv.take(i + 1) =~= nv.take(i as int).push(nv[i as int]));
        }
        match cache_file_dossier_id_exec(session_id, names[i].as_str()) {
            Some(id) => {
                if !strings_contain(&out, id.as_str()) {
                    let ghost before = out.deep_view();
                    out.push(id);
                    proof {
                        assert(out.deep_view() =~= before.push(id@));
                        before.lemma_push_to_set_commute(id@);
                        assert forall|a: int, b: int| 0 <= a < b < out.deep_view().len()
                            implies out.deep_view()[a] != out.deep_view()[b] by {
                            if b == before.len() {
                                assert(before.contains(before[a]));
                            }
                        }
                    }
                }
                assert(out.deep_view().to_set() =~= cached_dossier_ids(session_id, nv.take(i + 1))) by {
                    assert(nv.take(i + 1)[i as int] == nv[i as int]);
                    assert forall|x: Seq<char>| cached_dossier_ids(session_id, nv.take(i + 1)).contains(x)
                        implies out.deep_view().to_set().contains(x) by {
                        let k = choose|k: int| 0 <= k < nv.take(i + 1).len()
                            && cache_file_dossier_id(session_id, #[trigger] nv.take(i + 1)[k]) == Some(x);
                        if k < i {
                            assert(nv.take(i as int)[k] == nv.take(i + 1)[k]);
                            assert(cached_dossier_ids(session_id, nv.take(i as int)).contains(x));
                        }
                    }
                    assert forall|x: Seq<char>| out.deep_view().to_set().contains(x)
                        implies cached_dossier_ids(session_id, nv.take(i + 1)).contains(x) by {
                        if x != id@ {
                            assert(cached_dossier_ids(session_id, nv.take(i as int)).contains(x));
                            let k = choose|k: int| 0 <= k < nv.take(i as int).len()
                                && cache_file_dossier_id(session_id, #[trigger] nv.take(i as int)[k]) == Some(x);
                            assert(nv.take(i + 1)[k] == nv.take(i as int)[k]);
                        } else {
                            assert(cache_file_dossier_id(session_id, nv.take(i + 1)[i as int]) == Some(x));
                        }
                    }
                }
            },
            None => {
                assert(out.deep_view().to_set() =~= cached_dossier_ids(session_id, nv.take(i + 1))) by {
                    assert forall|x: Seq<char>| cached_dossier_ids(session_id, nv.take(i + 1)).contains(x)
                        implies cached_dossier_ids(session_id, nv.take(i as int)).contains(x) by {
                        let k = choose|k: int| 0 <= k < nv.take(i + 1).len()
                            && cache_file_dossier_id(session_id, #[trigger] nv.take(i + 1)[k]) == Some(x);
                        assert(k != i);
                        assert(nv.take(i as int)[k] == nv.take(i + 1)[k]);
                    }
                    assert forall|x: Seq<char>| cached_dossier_ids(session_id, nv.take(i as int)).contains(x)
                        implies cached_dossier_ids(session_id, nv.take(i + 1)).contains(x) by {
                        let k = choose|k: int| 0 <= k < nv.take(i as int).len()
                            && cache_file_dossier_id(session_id, #[trigger] nv.take(i as int)[k]) == Some(x);
                        assert(nv.take(i + 1)[k] == nv.take(i as int)[k]);
                    }
                }
            },
        }
        i = i + 1;
    }
    assert(names.deep_view().take(names@.len() as int) =~= names.deep_view());
    out
}

/// Whether a file name is a cached version of the given dossier:
/// `{session}_{dossier}_…html`.
pub open spec fn is_dossier_cache_candidate_spec(name: Seq<char>, session_id: u32, dossier_id: Seq<char>) -> bool {
    starts_with(name, decimal(session_id as nat) + seq!['_'] + dossier_id + seq!['_']) && ends_with(name, ".html"@)
}

/// Whether a file name is a cached version of the given dossier.
pub fn is_dossier_cache_candidate(name: &str, session_id: u32, dossier_id: &str) -> (r: bool)
    ensures
        r == is_dossier_cache_candidate_spec(name@, session_id, dossier_id@),
{
    let mut prefix = String::new();
    push_decimal(&mut prefix, session_id as u64);
    push_char(&mut prefix, '_');
    push_str(&mut prefix, dossier_id);
    push_char(&mut prefix, '_');
    assert(prefix@ =~= decimal(session_id as nat) + seq!['_'] + dossier_id@ + seq!['_']);
    str_starts_with(name, prefix.as_str()) && str_ends_with(name, ".html")
}

/// An RFC 3339 stamp without its `-` and `:` (`2026-07-15T19:21:00Z` gives
/// `20260715T192100Z`).
pub open spec fn compact_stamp(rfc3339: Seq<char>) -> Seq<char> {
    rfc3339.filter(|c: char| c != '-' && c != ':')
}

pub fn compact_utc_stamp(rfc3339: &str) -> (r: String)
    ensures
        r@ == compact_stamp(rfc3339@),
{
    let v = to_chars(rfc3339);
    let ghost pred = |c: char| c != '-' && c != ':';
    let mut out = String::new();
    let mut i: usize = 0;
    while i < v.len()
        invariant
            i <= v@.len(),
            v@ == rfc3339@,
            pred == (|c: char| c != '-' && c != ':'),
            out@ == v@.take(i as int).filter(pred),
        decreases v.len() - i,
    {
        proof {
            assert(v@.take(i + 1).drop_last() =~= v@.take(i as int));
            reveal_with_fuel(Seq::filter, 1);
        }
        if v[i] != '-' && v[i] != ':' {
            push_char(&mut out, v[i]);
        }
        i = i + 1;
    }
    assert(v@.take(v@.len() as int) =~= v@);
    out
}

/// The name of a new cached version of a dossier page:
/// `{session}_{dossier}_{compact stamp}_{first 8 hex digits of the content hash}.html`.
pub open spec fn versioned_cache_name(session_id: u32, dossier_id: Seq<char>, stamp: Seq<char>, bytes: Seq<u8>) -> Seq<char> {
    decimal(session_id as nat) + seq!['_'] + dossier_id + seq!['_'] + compact_stamp(stamp) + seq!['_']
        + crate::artifact_id::hex_lower(crate::artifact_id::sha256(bytes)).take(8) + ".html"@
}

/// The name of a new cached version of a dossier page, stamped with `now` (RFC 3339).
pub fn dossier_versioned_cache_name(session_id: u32, dossier_id: &str, now: &str, bytes: &[u8]) -> (r: String)
    ensures
        r@ == versioned_cache_name(session_id, dossier_id@, now@, bytes@),
{
    let hash = crate::artifact_id::content_hash_bytes(bytes);
    let hv = to_chars(hash.as_str());
    let hash8 = crate::text::from_char_range(&hv, 0, 8);
    let mut out = String::new();
    push_decimal(&mut out, session_id as u64);
    push_char(&mut out, '_');
    push_str(&mut out, dossier_id);
    push_char(&mut out, '_');
    let stamp = compact_utc_stamp(now);
    push_str(&mut out, stamp.as_str());
    push_char(&mut out, '_');
    push_str(&mut out, hash8.as_str());
    push_str(&mut out, ".html");
    assert(hash8@ =~= hash@.take(8));
    assert(out@ =~= versioned_cache_name(session_id, dossier_id@, now@, bytes@));
    out
}

/// What became of one expected dossier during a download pass.
#[derive(Debug, Clone, Copy, PartialEq, Eq, Structural)]
pub enum DownloadAction {
    SkippedSettled,
    SkippedFresh,
    SkippedUnchanged,
    Downloaded,
    NotFound,
}

/// Counts of the download actions of a pass.
#[derive(Debug, Clone, Copy, PartialEq, Eq, Structural)]
pub struct DownloadStats {
    pub skipped_settled: u32,
    pub skipped_fresh: u32,
    pub skipped_unchanged: u32,
    pub downloaded: u32,
    pub not_found: u32,
}

impl DownloadStats {
    /// All counts zero.
    pub fn new() -> (r: Self)
        ensures
            r == (DownloadStats { skipped_settled: 0, skipped_fresh: 0, skipped_unchanged: 0, downloaded: 0, not_found: 0 }),
    {
        DownloadStats { skipped_settled: 0, skipped_fresh: 0, skipped_unchanged: 0, downloaded: 0, not_found: 0 }
    }

    /// The count that an action adds to.
    pub open spec fn count_of(self, action: DownloadAction) -> u32 {
        match action {
            DownloadAction::SkippedSettled => self.skipped_settled,
            DownloadAction::SkippedFresh => self.skipped_fresh,
            DownloadAction::SkippedUnchanged => self.skipped_unchanged,
            DownloadAction::Downloaded => self.downloaded,
            DownloadAction::NotFound => self.not_found,
        }
    }

    /// Counts one action: its count grows by one, the others stay.
    pub fn record(&mut self, action: DownloadAction)
        requires
            old(self).count_of(action) < u32::MAX,
        ensures
            final(self).count_of(action) == old(self).count_of(action) + 1,
            forall|a: DownloadAction| a != action ==> final(self).count_of(a) == old(self).count_of(a),
    {
        match action {
            DownloadAction::SkippedSettled => self.skipped_settled = self.skipped_settled + 1,
            DownloadAction::SkippedFresh => self.skipped_fresh = self.skipped_fresh + 1,
            DownloadAction::SkippedUnchanged => self.skipped_unchanged = self.skipped_unchanged + 1,
            DownloadAction::Downloaded => self.downloaded = self.downloaded + 1,
            DownloadAction::NotFound => self.not_found = self.not_found + 1,
        }
    }

    /// The dossiers that were skipped, for whatever reason.
    pub fn skipped_total(&self) -> (r: u32)
        requires
            self.skipped_settled + self.skipped_fresh + self.skipped_unchanged <= u32::MAX,
        ensures
            r == self.skipped_settled + self.skipped_fresh + self.skipped_unchanged,
    {
        self.skipped_settled + self.skipped_fresh + self.skipped_unchanged
    }
}

/// For a dossier with a cached version: the skip that the cache allows, when it was checked
/// fewer than `max_age` days ago (`age_days`, `None` when unknown), else `None` (fetch it).
pub fn cached_dossier_skip(settled: bool, age_days: Option<i64>, max_age: i64) -> (r: Option<DownloadAction>)
    ensures
        r == (match age_days {
            Some(age) if age < max_age =>
                Some(if settled { DownloadAction::SkippedSettled } else { DownloadAction::SkippedFresh }),
            _ => None,
        }),
{
    match age_days {
        Some(age) => {
            if age < max_age {
                if settled { Some(DownloadAction::SkippedSettled) } else { Some(DownloadAction::SkippedFresh) }
            } else {
                None
            }
        },
        None => None,
    }
}

/// What a fetch of a dossier page gave, held against the cached version if any.
#[derive(Debug, Clone, Copy, PartialEq, Eq, Structural)]
pub enum FetchedDossier {
    /// The site answered 404.
    NotFound,
    /// A page whose content fingerprint equals the cached version's.
    Unchanged,
    /// A page with no cached version, or whose fingerprint differs from it.
    Changed,
}

/// What to do after fetching a dossier page.
#[derive(Debug, Clone, Copy, PartialEq, Eq, Structural)]
pub struct FetchEffects {
    pub action: DownloadAction,
    /// Mark the cached version as checked now.
    pub touch_cached: bool,
    /// Store the fetched page as a new cached version.
    pub write_version: bool,
}

/// After a fetch: with a cached version, a 404 or an unchanged page keeps it (marked as
/// checked) and counts as unchanged; a changed page, or any page without a cached version,
/// is stored as a new version; a 404 without a cached version counts as not found.
pub fn after_dossier_fetch(had_cache: bool, fetched: FetchedDossier) -> (r: FetchEffects)
    ensures
        r == (if had_cache {
            match fetched {
                FetchedDossier::Changed =>
                    FetchEffects { action: DownloadAction::Downloaded, touch_cached: false, write_version: true },
                _ => FetchEffects { action: DownloadAction::SkippedUnchanged, touch_cached: true, write_version: false },
            }
        } else {
            match fetched {
                FetchedDossier::NotFound =>
                    FetchEffects { action: DownloadAction::NotFound, touch_cached: false, write_version: false },
                _ => FetchEffects { action: DownloadAction::Downloaded, touch_cached: false, write_version: true },
            }
        }),
{
    if had_cache {
        match fetched {
            FetchedDossier::Changed =>
                FetchEffects { action: DownloadAction::Downloaded, touch_cached: false, write_version: true },
            _ => FetchEffects { action: DownloadAction::SkippedUnchanged, touch_cached: true, write_version: false },
        }
    } else {
        match fetched {
            FetchedDossier::NotFound =>
                FetchEffects { action: DownloadAction::NotFound, touch_cached: false, write_version: false },
            _ => FetchEffects { action: DownloadAction::Downloaded, touch_cached: false, write_version: true },
        }
    }
}

/// The fingerprint object of one subdocument: id, date, type, sorted authors, file URL
/// (empty without one).
pub open spec fn subdocument_fingerprint(s: SubView) -> Seq<char> {
    json_object(seq![
        json_member("id"@, json_string(s.1)),
        json_member("date"@, json_string(s.3)),
        json_member("document_type"@, json_string(s.2.name())),
        json_member("authors"@, json_string(join(sorted_strings(s.4), seq![',']))),
        json_member("file_url"@, json_string(match s.5 { Some(u) => u, None => Seq::empty() })),
    ])
}

/// `x` inserted into a list of `(key, value)` pairs sorted by key, after every pair whose
/// key is not larger.
pub open spec fn insert_pair_by_key(s: Seq<(Seq<char>, Seq<char>)>, x: (Seq<char>, Seq<char>)) -> Seq<(Seq<char>, Seq<char>)>
    decreases s.len(),
{
    if s.len() == 0 {
        seq![x]
    } else if seq_less(x.0, s.last().0) {
        insert_pair_by_key(s.drop_last(), x).push(s.last())
    } else {
        s.push(x)
    }
}

/// Pairs sorted by key, equal keys keeping their order (a stable sort by key).
pub open spec fn pairs_by_key(v: Seq<(Seq<char>, Seq<char>)>) -> Seq<(Seq<char>, Seq<char>)>
    decreases v.len(),
{
    if v.len() == 0 {
        Seq::empty()
    } else {
        insert_pair_by_key(pairs_by_key(v.drop_last()), v.last())
    }
}

proof fn lemma_insert_pair_split(s: Seq<(Seq<char>, Seq<char>)>, x: (Seq<char>, Seq<char>), j: int)
    requires
        0 <= j <= s.len(),
        forall|k: int| j <= k < s.len() ==> seq_less(x.0, (#[trigger] s[k]).0),
        j == 0 || !seq_less(x.0, s[j - 1].0),
    ensures
        insert_pair_by_key(s, x) == s.take(j).push(x) + s.skip(j),
    decreases s.len(),
{
    if s.len() == 0 {
        assert(s.take(j).push(x) + s.skip(j) =~= seq![x]);
    } else if j == s.len() {
        assert(s.take(j) =~= s);
        assert(s.take(j).push(x) + s.skip(j) =~= s.push(x));
    } else {
        assert(seq_less(x.0, s.last().0));
        lemma_insert_pair_split(s.drop_last(), x, j);
        assert(s.drop_last().take(j) =~= s.take(j));
        assert(s.take(j).push(x) + s.skip(j) =~= (s.drop_last().take(j).push(x) + s.drop_last().skip(j)).push(s.last()));
    }
}

/// The pairs are in the order of their keys.
pub open spec fn pairs_sorted(s: Seq<(Seq<char>, Seq<char>)>) -> bool {
    forall|i: int, j: int| 0 <= i < j < s.len() ==> !seq_less((#[trigger] s[j]).0, (#[trigger] s[i]).0)
}

/// Where `insert_pair_by_key` puts `x`.
pub open spec fn pair_insert_position(s: Seq<(Seq<char>, Seq<char>)>, x: (Seq<char>, Seq<char>)) -> int
    decreases s.len(),
{
    if s.len() == 0 {
        0
    } else if seq_less(x.0, s.last().0) {
        pair_insert_position(s.drop_last(), x)
    } else {
        s.len() as int
    }
}

proof fn lemma_pair_insert_position(s: Seq<(Seq<char>, Seq<char>)>, x: (Seq<char>, Seq<char>))
    ensures
        0 <= pair_insert_position(s, x) <= s.len(),
        insert_pair_by_key(s, x) == s.take(pair_insert_position(s, x)).push(x) + s.skip(pair_insert_position(s, x)),
        forall|k: int| pair_insert_position(s, x) <= k < s.len() ==> seq_less(x.0, (#[trigger] s[k]).0),
        pair_insert_position(s, x) > 0 ==> !seq_less(x.0, s[pair_insert_position(s, x) - 1].0),
    decreases s.len(),
{
    if s.len() == 0 {
        assert(s.take(0).push(x) + s.skip(0) =~= seq![x]);
    } else if seq_less(x.0, s.last().0) {
        lemma_pair_insert_position(s.drop_last(), x);
        let j = pair_insert_position(s, x);
        assert(s.drop_last().take(j) =~= s.take(j));
        assert(s.take(j).push(x) + s.skip(j) =~= (s.drop_last().take(j).push(x) + s.drop_last().skip(j)).push(s.last()));
        assert forall|k: int| j <= k < s.len() implies seq_less(x.0, (#[trigger] s[k]).0) by {
            if k < s.len() - 1 {
                assert(s[k] == s.drop_last()[k]);
            }
        }
        if j > 0 {
            assert(s[j - 1] == s.drop_last()[j - 1]);
        }
    } else {
        assert(s.take(s.len() as int) =~= s);
        assert(s.take(s.len() as int).push(x) + s.skip(s.len() as int) =~= s.push(x));
    }
}

proof fn lemma_pair_insert_position_sorted(s: Seq<(Seq<char>, Seq<char>)>, x: (Seq<char>, Seq<char>))
    requires
        pairs_sorted(s),
    ensures
        forall|k: int| 0 <= k < pair_insert_position(s, x) ==> !seq_less(x.0, (#[trigger] s[k]).0),
{
    lemma_pair_insert_position(s, x);
    let j = pair_insert_position(s, x);
    assert forall|k: int| 0 <= k < j implies !seq_less(x.0, (#[trigger] s[k]).0) by {
        if k < j - 1 {
            assert(!seq_less(s[j - 1].0, s[k].0));
            crate::text::lemma_seq_less_not_less_trans(x.0, s[j - 1].0, s[k].0);
        }
    }
}

proof fn lemma_pair_insert_position_unique(s: Seq<(Seq<char>, Seq<char>)>, x: (Seq<char>, Seq<char>), j: int)
    requires
        pairs_sorted(s),
        0 <= j <= s.len(),
        forall|k: int| 0 <= k < j ==> !seq_less(x.0, (#[trigger] s[k]).0),
        forall|k: int| j <= k < s.len() ==> seq_less(x.0, (#[trigger] s[k]).0),
    ensures
        pair_insert_position(s, x) == j,
{
    lemma_pair_insert_position_sorted(s, x);
    lemma_pair_insert_position(s, x);
    let p = pair_insert_position(s, x);
    if p < j {
        assert(seq_less(x.0, s[p].0));
        assert(!seq_less(x.0, s[p].0));
    }
    if j < p {
        assert(seq_less(x.0, s[j].0));
        assert(!seq_less(x.0, s[j].0));
    }
}

proof fn lemma_insert_pair_keeps_order(s: Seq<(Seq<char>, Seq<char>)>, x: (Seq<char>, Seq<char>))
    requires
        pairs_sorted(s),
    ensures
        pairs_sorted(insert_pair_by_key(s, x)),
{
    lemma_pair_insert_position(s, x);
    lemma_pair_insert_position_sorted(s, x);
    let j = pair_insert_position(s, x);
    let r = insert_pair_by_key(s, x);
    assert forall|a: int, b: int| 0 <= a < b < r.len() implies !seq_less((#[trigger] r[b]).0, (#[trigger] r[a]).0) by {
        if b < j {
            assert(r[a] == s[a] && r[b] == s[b]);
        } else if b == j {
            assert(r[b] == x && r[a] == s[a]);
        } else if a < j {
            assert(r[a] == s[a] && r[b] == s[b - 1]);
            if seq_less(s[b - 1].0, s[a].0) {
                crate::text::lemma_seq_less_trans(x.0, s[b - 1].0, s[a].0);
            }
        } else if a == j {
            assert(r[a] == x && r[b] == s[b - 1]);
            crate::text::lemma_seq_less_asym(x.0, s[b - 1].0);
        } else {
            assert(r[a] == s[a - 1] && r[b] == s[b - 1]);
        }
    }
}

proof fn lemma_pairs_by_key_sorted(v: Seq<(Seq<char>, Seq<char>)>)
    ensures
        pairs_sorted(pairs_by_key(v)),
    decreases v.len(),
{
    if v.len() > 0 {
        lemma_pairs_by_key_sorted(v.drop_last());
        lemma_insert_pair_keeps_order(pairs_by_key(v.drop_last()), v.last());
    }
}

proof fn lemma_insert_pair_commutes_ordered(s: Seq<(Seq<char>, Seq<char>)>, a: (Seq<char>, Seq<char>), b: (Seq<char>, Seq<char>))
    requires
        pairs_sorted(s),
        seq_less(a.0, b.0),
    ensures
        insert_pair_by_key(insert_pair_by_key(s, a), b) == insert_pair_by_key(insert_pair_by_key(s, b), a),
{
    lemma_pair_insert_position(s, a);
    lemma_pair_insert_position(s, b);
    lemma_pair_insert_position_sorted(s, a);
    lemma_pair_insert_position_sorted(s, b);
    let ja = pair_insert_position(s, a);
    let jb = pair_insert_position(s, b);
    crate::text::lemma_seq_less_asym(a.0, b.0);
    assert(ja <= jb) by {
        if jb < ja {
            assert(!seq_less(a.0, s[jb].0));
            assert(seq_less(b.0, s[jb].0));
            crate::text::lemma_seq_less_not_less_trans(b.0, a.0, s[jb].0);
        }
    }
    let s1 = insert_pair_by_key(s, a);
    let s2 = insert_pair_by_key(s, b);
    lemma_insert_pair_keeps_order(s, a);
    lemma_insert_pair_keeps_order(s, b);
    assert forall|k: int| 0 <= k < jb + 1 implies !seq_less(b.0, (#[trigger] s1[k]).0) by {
        if k < ja {
            assert(s1[k] == s[k]);
        } else if k == ja {
            assert(s1[k] == a);
        } else {
            assert(s1[k] == s[k - 1]);
        }
    }
    assert forall|k: int| jb + 1 <= k < s1.len() implies seq_less(b.0, (#[trigger] s1[k]).0) by {
        assert(s1[k] == s[k - 1]);
    }
    lemma_pair_insert_position_unique(s1, b, jb + 1);
    assert forall|k: int| 0 <= k < ja implies !seq_less(a.0, (#[trigger] s2[k]).0) by {
        assert(s2[k] == s[k]);
    }
    assert forall|k: int| ja <= k < s2.len() implies seq_less(a.0, (#[trigger] s2[k]).0) by {
        if k < jb {
            assert(s2[k] == s[k]);
        } else if k == jb {
            assert(s2[k] == b);
        } else {
            assert(s2[k] == s[k - 1]);
        }
    }
    lemma_pair_insert_position_unique(s2, a, ja);
    lemma_pair_insert_position(s1, b);
    lemma_pair_insert_position(s2, a);
    let expected = s.take(ja).push(a) + s.subrange(ja, jb).push(b) + s.skip(jb);
    assert(insert_pair_by_key(s1, b) =~= expected);
    assert(insert_pair_by_key(s2, a) =~= expected);
}

/// The pairs inserted one by one, left to right.
pub open spec fn insert_all_pairs(s: Seq<(Seq<char>, Seq<char>)>, t: Seq<(Seq<char>, Seq<char>)>) -> Seq<(Seq<char>, Seq<char>)>
    decreases t.len(),
{
    if t.len() == 0 { s } else { insert_pair_by_key(insert_all_pairs(s, t.drop_last()), t.last()) }
}

proof fn lemma_pairs_by_key_append(x: Seq<(Seq<char>, Seq<char>)>, t: Seq<(Seq<char>, Seq<char>)>)
    ensures
        pairs_by_key(x + t) == insert_all_pairs(pairs_by_key(x), t),
    decreases t.len(),
{
    if t.len() == 0 {
        assert(x + t =~= x);
    } else {
        lemma_pairs_by_key_append(x, t.drop_last());
        assert((x + t).drop_last() =~= x + t.drop_last());
        assert((x + t).last() == t.last());
    }
}

/// Sorting pairs by key does not see the source order of pairs with different keys:
/// swapping two neighbouring pairs whose keys differ leaves the sorted list unchanged.
pub proof fn lemma_pairs_by_key_swap(p: Seq<(Seq<char>, Seq<char>)>, a: (Seq<char>, Seq<char>), b: (Seq<char>, Seq<char>),
    t: Seq<(Seq<char>, Seq<char>)>)
    requires
        a.0 != b.0,
    ensures
        pairs_by_key(p + seq![a, b] + t) == pairs_by_key(p + seq![b, a] + t),
{
    lemma_pairs_by_key_sorted(p);
    crate::text::lemma_seq_less_total(a.0, b.0);
    if seq_less(a.0, b.0) {
        lemma_insert_pair_commutes_ordered(pairs_by_key(p), a, b);
    } else {
        lemma_insert_pair_commutes_ordered(pairs_by_key(p), b, a);
    }
    let pab = p + seq![a, b];
    let pba = p + seq![b, a];
    assert(pab.drop_last() =~= p.push(a));
    assert(pba.drop_last() =~= p.push(b));
    assert(p.push(a).drop_last() =~= p);
    assert(p.push(b).drop_last() =~= p);
    assert(pab.last() == b && pba.last() == a);
    assert(p.push(a).last() == a && p.push(b).last() == b);
    assert(pairs_by_key(p.push(a)) == insert_pair_by_key(pairs_by_key(p), a));
    assert(pairs_by_key(p.push(b)) == insert_pair_by_key(pairs_by_key(p), b));
    assert(pairs_by_key(pab) == insert_pair_by_key(pairs_by_key(p.push(a)), b));
    assert(pairs_by_key(pba) == insert_pair_by_key(pairs_by_key(p.push(b)), a));
    lemma_pairs_by_key_append(pab, t);
    lemma_pairs_by_key_append(pba, t);
}

/// The plain view of a list of string pairs.
pub open spec fn pairs_view(v: Seq<(String, String)>) -> Seq<(Seq<char>, Seq<char>)> {
    v.map_values(|p: (String, String)| (p.0@, p.1@))
}

fn sort_pairs_by_key(v: Vec<(String, String)>) -> (r: Vec<(String, String)>)
    ensures
        pairs_view(r@) == pairs_by_key(pairs_view(v@)),
{
    let mut out: Vec<(String, String)> = Vec::new();
    let mut i: usize = 0;
    while i < v.len()
        invariant
            i <= v@.len(),
            pairs_view(out@) == pairs_by_key(pairs_view(v@).take(i as int)),
        decreases v.len() - i,
    {
        proof {
            assert(pairs_view(v@).take(i + 1).drop_last() =~= pairs_view(v@).take(i as int));
        }
        let x = (v[i].0.clone(), v[i].1.clone());
        let ghost xv = (x.0@, x.1@);
        assert(xv == pairs_view(v@)[i as int]);
        let mut j: usize = out.len();
        while j > 0
            invariant
                j <= out@.len(),
                forall|k: int| j <= k < out@.len() ==> seq_less(xv.0, (#[trigger] pairs_view(out@)[k]).0),
                xv == (x.0@, x.1@),
            ensures
                j <= out@.len(),
                forall|k: int| j <= k < out@.len() ==> seq_less(xv.0, (#[trigger] pairs_view(out@)[k]).0),
                j == 0 || !seq_less(xv.0, pairs_view(out@)[j - 1].0),
            decreases j,
        {
            if crate::text::str_less(x.0.as_str(), out[j - 1].0.as_str()) {
                j = j - 1;
            } else {
                break;
            }
        }
        proof {
            lemma_insert_pair_split(pairs_view(out@), xv, j as int);
        }
        let ghost before = pairs_view(out@);
        out.insert(j, x);
        assert(pairs_view(out@) =~= before.take(j as int).push(xv) + before.skip(j as int));
        i = i + 1;
    }
    assert(pairs_view(v@).take(v@.len() as int) =~= pairs_view(v@));
    out
}

/// The fingerprint of a dossier's output fields: a JSON object of title, sorted authors,
/// status, dates, type, Eurovoc main descriptor, sorted Eurovoc descriptors, and the
/// subdocument fingerprints in order of id. Reordering authors, descriptors or subdocuments
/// leaves it unchanged.
pub open spec fn dossier_fingerprint(d: Dossier) -> Seq<char> {
    let subs = subs_view(d.subdocuments@).map_values(|s: SubView| (s.1, subdocument_fingerprint(s)));
    json_object(seq![
        json_member("title"@, json_string(d.title@)),
        json_member("authors"@, json_string(join(sorted_strings(d.authors.deep_view()), seq![',']))),
        json_member("status"@, json_string(d.status.name())),
        json_member("submission_date"@, json_string(d.submission_date@)),
        json_member("end_date"@, json_string(d.end_date@)),
        json_member("vote_date"@, json_string(d.vote_date@)),
        json_member("document_type"@, json_string(d.document_type.name())),
        json_member("eurovoc_main_descriptor"@, json_string(d.eurovoc_main_descriptor@)),
        json_member("eurovoc_descriptors"@, json_string(sorted_comma_separated_spec(d.eurovoc_descriptors@))),
        json_member("subdocuments"@, json_array(pairs_by_key(subs).map_values(|p: (Seq<char>, Seq<char>)| p.1))),
    ])
}

/// Listing a dossier's authors in another order leaves its fingerprint unchanged: swapping two
/// neighbouring authors (of which any reordering is a series) does not change it.
pub proof fn lemma_fingerprint_ignores_author_order(d: Dossier, e: Dossier, p: Seq<Seq<char>>, a: Seq<char>,
    b: Seq<char>, t: Seq<Seq<char>>)
    requires
        d.authors.deep_view() == p + seq![a, b] + t,
        e.authors.deep_view() == p + seq![b, a] + t,
        e == (Dossier { authors: e.authors, ..d }),
    ensures
        dossier_fingerprint(d) == dossier_fingerprint(e),
{
    crate::dossiers::lemma_sorted_strings_swap(p, a, b, t);
}

/// Listing a dossier's subdocuments in another order leaves its fingerprint unchanged when
/// their ids differ: swapping two neighbouring subdocuments with different ids does not change
/// it.
pub proof fn lemma_fingerprint_ignores_subdocument_order(d: Dossier, e: Dossier, p: Seq<SubView>, a: SubView,
    b: SubView, t: Seq<SubView>)
    requires
        subs_view(d.subdocuments@) == p + seq![a, b] + t,
        subs_view(e.subdocuments@) == p + seq![b, a] + t,
        a.1 != b.1,
        e == (Dossier { subdocuments: e.subdocuments, ..d }),
    ensures
        dossier_fingerprint(d) == dossier_fingerprint(e),
{
    let f = |s: SubView| (s.1, subdocument_fingerprint(s));
    assert((p + seq![a, b] + t).map_values(f) =~= p.map_values(f) + seq![f(a), f(b)] + t.map_values(f));
    assert((p + seq![b, a] + t).map_values(f) =~= p.map_values(f) + seq![f(b), f(a)] + t.map_values(f));
    lemma_pairs_by_key_swap(p.map_values(f), f(a), f(b), t.map_values(f));
}

fn subdocument_fingerprint_exec(s: &Subdocument) -> (r: String)
    ensures
        r@ == subdocument_fingerprint(sub_view(*s)),
{
    let mut members: Vec<String> = Vec::new();
    members.push(json_member_of("id", json_string_of(s.id.as_str()).as_str()));
    members.push(json_member_of("date", json_string_of(s.date.as_str()).as_str()));
    members.push(json_member_of("document_type", json_string_of(s.document_type.as_str()).as_str()));
    members.push(json_member_of("authors", json_string_of(sorted_csv(&s.authors).as_str()).as_str()));
    let url = match &s.file_url {
        Some(u) => u.clone(),
        None => String::new(),
    };
    assert(url@ == match s.file_url.deep_view() { Some(u) => u, None => Seq::<char>::empty() });
    members.push(json_member_of("file_url", json_string_of(url.as_str()).as_str()));
    proof {
        reveal_strlit("id");
        reveal_strlit("date");
        reveal_strlit("document_type");
        reveal_strlit("authors");
        reveal_strlit("file_url");
    }
    let r = json_object_of(&members);
    assert(sub_view(*s).4 == s.authors.deep_view());
    assert(sub_view(*s).5 == s.file_url.deep_view());
    assert(members.deep_view() =~= seq![
        json_member("id"@, json_string(s.id@)),
        json_member("date"@, json_string(s.date@)),
        json_member("document_type"@, json_string(s.document_type.name())),
        json_member("authors"@, json_string(join(sorted_strings(s.authors.deep_view()), seq![',']))),
        json_member("file_url"@, json_string(match s.file_url.deep_view() { Some(u) => u, None => Seq::empty() })),
    ]);
    let ghost sv = sub_view(*s);
    assert(sv.1 == s.id@ && sv.3 == s.date@ && sv.2 == s.document_type);
    assert(members.deep_view() =~= seq![
        json_member("id"@, json_string(sv.1)),
        json_member("date"@, json_string(sv.3)),
        json_member("document_type"@, json_string(sv.2.name())),
        json_member("authors"@, json_string(join(sorted_strings(sv.4), seq![',']))),
        json_member("file_url"@, json_string(match sv.5 { Some(u) => u, None => Seq::empty() })),
    ]);
    r
}

/// The fingerprint of a dossier's output fields.
pub fn fingerprint_of_dossier(d: &Dossier) -> (r: String)
    ensures
        r@ == dossier_fingerprint(*d),
{
    let mut pairs: Vec<(String, String)> = Vec::new();
    let ghost f = |s: SubView| (s.1, subdocument_fingerprint(s));
    let mut i: usize = 0;
    while i < d.subdocuments.len()
        invariant
            i <= d.subdocuments@.len(),
            f == (|s: SubView| (s.1, subdocument_fingerprint(s))),
            pairs_view(pairs@) == subs_view(d.subdocuments@).take(i as int).map_values(f),
        decreases d.subdocuments.len() - i,
    {
        let sd = &d.subdocuments[i];
        let p = (sd.id.clone(), subdocument_fingerprint_exec(sd));
        let ghost before = pairs_view(pairs@);
        pairs.push(p);
        assert(pairs_view(pairs@) =~= before.push(f(sub_view(d.subdocuments@[i as int]))));
        assert(subs_view(d.subdocuments@).take(i + 1) =~= subs_view(d.subdocuments@).take(i as int).push(sub_view(d.subdocuments@[i as int])));
        assert(pairs_view(pairs@) =~= subs_view(d.subdocuments@).take(i + 1).map_values(f));
        i = i + 1;
    }
    assert(subs_view(d.subdocuments@).take(d.subdocuments@.len() as int) =~= subs_view(d.subdocuments@));
    let sorted = sort_pairs_by_key(pairs);
    let mut items: Vec<String> = Vec::new();
    let ghost g = |p: (Seq<char>, Seq<char>)| p.1;
    let mut k: usize = 0;
    while k < sorted.len()
        invariant
            k <= sorted@.len(),
            g == (|p: (Seq<char>, Seq<char>)| p.1),
            items.deep_view() == pairs_view(sorted@).take(k as int).map_values(g),
        decreases sorted.len() - k,
    {
        let ghost before = items.deep_view();
        items.push(sorted[k].1.clone());
        assert(items.deep_view() =~= before.push(pairs_view(sorted@)[k as int].1));
        assert(pairs_view(sorted@).take(k + 1) =~= pairs_view(sorted@).take(k as int).push(pairs_view(sorted@)[k as int]));
        assert(items.deep_view() =~= pairs_view(sorted@).take(k + 1).map_values(g));
        k = k + 1;
    }
    assert(pairs_view(sorted@).take(sorted@.len() as int) =~= pairs_view(sorted@));
    let mut members: Vec<String> = Vec::new();
    members.push(json_member_of("title", json_string_of(d.title.as_str()).as_str()));
    members.push(json_member_of("authors", json_string_of(sorted_csv(&d.authors).as_str()).as_str()));
    members.push(json_member_of("status", json_string_of(d.status.as_str()).as_str()));
    members.push(json_member_of("submission_date", json_string_of(d.submission_date.as_str()).as_str()));
    members.push(json_member_of("end_date", json_string_of(d.end_date.as_str()).as_str()));
    members.push(json_member_of("vote_date", json_string_of(d.vote_date.as_str()).as_str()));
    members.push(json_member_of("document_type", json_string_of(d.document_type.as_str()).as_str()));
    members.push(json_member_of("eurovoc_main_descriptor", json_string_of(d.eurovoc_main_descriptor.as_str()).as_str()));
    members.push(json_member_of("eurovoc_descriptors",
        json_string_of(sorted_comma_separated(d.eurovoc_descriptors.as_str()).as_str()).as_str()));
    members.push(json_member_of("subdocuments", json_array_of(&items).as_str()));
    proof {
        reveal_strlit("title");
        reveal_strlit("authors");
        reveal_strlit("status");
        reveal_strlit("submission_date");
        reveal_strlit("end_date");
        reveal_strlit("vote_date");
        reveal_strlit("document_type");
        reveal_strlit("eurovoc_main_descriptor");
        reveal_strlit("eurovoc_descriptors");
        reveal_strlit("subdocuments");
    }
    let r = json_object_of(&members);
    assert(members.deep_view() =~= seq![
        json_member("title"@, json_string(d.title@)),
        json_member("authors"@, json_string(join(sorted_strings(d.authors.deep_view()), seq![',']))),
        json_member("status"@, json_string(d.status.name())),
        json_member("submission_date"@, json_string(d.submission_date@)),
        json_member("end_date"@, json_string(d.end_date@)),
        json_member("vote_date"@, json_string(d.vote_date@)),
        json_member("document_type"@, json_string(d.document_type.name())),
        json_member("eurovoc_main_descriptor"@, json_string(d.eurovoc_main_descriptor@)),
        json_member("eurovoc_descriptors"@, json_string(sorted_comma_separated_spec(d.eurovoc_descriptors@))),
        json_member("subdocuments"@, json_array(pairs_by_key(subs_view(d.subdocuments@).map_values(f)).map_values(g))),
    ]);
    r
}

/// The content fingerprint of a dossier page given as HTML: that of the dossier read from
/// it, or the error that reading it gives.
pub fn dossier_content_fingerprint(html: &str, dossier_id: &str) -> (r: Result<String, String>)
    ensures
        exists|p: DossierPage| #[trigger] crate::dossier_html::page_view(p) == crate::dossier_html::dossier_page_of(html@) && match r {
            Ok(fp) => exists|d: Dossier| #[trigger] dossier_fingerprint(d) == fp@ && scrape_result_ok(dossier_id@, p, Ok(d)),
            Err(e) => scrape_result_ok(dossier_id@, p, Err(e)),
        },
{
    let page = crate::dossier_html::dossier_page_from_html(html);
    match scrape_dossier(dossier_id, &page) {
        Ok(d) => {
            let fp = fingerprint_of_dossier(&d);
            assert(dossier_fingerprint(d) == fp@);
            assert(crate::dossier_html::page_view(page) == crate::dossier_html::dossier_page_of(html@));
            Ok(fp)
        },
        Err(e) => {
            assert(crate::dossier_html::page_view(page) == crate::dossier_html::dossier_page_of(html@));
            Err(e)
        },
    }
}

/// The ids in order of first appearance, each once.
pub open spec fn first_appearances(s: Seq<Seq<char>>) -> Seq<Seq<char>>
    decreases s.len(),
{
    if s.len() == 0 {
        Seq::empty()
    } else {
        let p = first_appearances(s.drop_last());
        if p.contains(s.last()) { p } else { p.push(s.last()) }
    }
}

/// The dossier ids found on the discovery range pages (in page order), each kept once at
/// its first appearance, then ordered by number (a stable sort; an id that does not read as
/// a number counts as 0).
pub fn order_discovered_ids(ids: &Vec<String>) -> (r: Vec<String>)
    ensures
        r.deep_view() == ids_by_number(first_appearances(ids.deep_view())),
{
    let mut seen: Vec<String> = Vec::new();
    let mut i: usize = 0;
    while i < ids.len()
        invariant
            i <= ids@.len(),
            seen.deep_view() == first_appearances(ids.deep_view().take(i as int)),
        decreases ids.len() - i,
    {
        proof {
            assert(ids.deep_view().take(i + 1).drop_last() =~= ids.deep_view().take(i as int));
        }
        if !strings_contain(&seen, ids[i].as_str()) {
            let ghost before = seen.deep_view();
            seen.push(ids[i].clone());
            assert(seen.deep_view() =~= before.push(ids.deep_view()[i as int]));
        }
        i = i + 1;
    }
    assert(ids.deep_view().take(ids@.len() as int) =~= ids.deep_view());
    sort_ids_by_number(&seen)
}

/// The text of a dossier inventory file: one `{id}\t{date}` line per entry, the lines
/// sorted, each ended by a line break.
pub open spec fn inventory_text(entries: Seq<(Seq<char>, Seq<char>)>) -> Seq<char> {
    join(sorted_strings(entries.map_values(|e: (Seq<char>, Seq<char>)| e.0 + seq!['\t'] + e.1)), seq!['\n']) + seq!['\n']
}

/// A line of an inventory file: `{id}\t{date}`.
pub open spec fn inventory_line(e: (Seq<char>, Seq<char>)) -> Seq<char> {
    e.0 + seq!['\t'] + e.1
}

/// An entry that an inventory file can hold and give back: an id that is not blank, and an id
/// and a date without surrounding blanks, the id without tabs, neither with a line break.
pub open spec fn storable_entry(e: (Seq<char>, Seq<char>)) -> bool {
    &&& e.0.len() > 0
    &&& trim(e.0) == e.0
    &&& trim(e.1) == e.1
    &&& forall|i: int| 0 <= i < e.0.len() ==> #[trigger] e.0[i] != '\t' && e.0[i] != '\n'
    &&& forall|i: int| 0 <= i < e.1.len() ==> #[trigger] e.1[i] != '\n'
}

/// Lines joined, each ended by `c`.
pub open spec fn terminated(lines: Seq<Seq<char>>, c: char) -> Seq<char>
    decreases lines.len(),
{
    if lines.len() == 0 { Seq::empty() } else { lines[0] + seq![c] + terminated(lines.drop_first(), c) }
}

proof fn lemma_join_front(lines: Seq<Seq<char>>, sep: Seq<char>)
    requires
        lines.len() >= 2,
    ensures
        join(lines, sep) == lines[0] + sep + join(lines.drop_first(), sep),
    decreases lines.len(),
{
    if lines.len() == 2 {
        assert(lines.drop_last() =~= seq![lines[0]]);
        assert(lines.drop_first() =~= seq![lines[1]]);
        assert(join(lines.drop_first(), sep) == lines[1]);
        assert(join(lines.drop_last(), sep) == lines[0]);
    } else {
        lemma_join_front(lines.drop_last(), sep);
        assert(lines.drop_last().drop_first() =~= lines.drop_first().drop_last());
        assert(lines.drop_first().last() == lines.last());
        assert(lines.drop_last()[0] == lines[0]);
    }
}

proof fn lemma_join_terminated(lines: Seq<Seq<char>>, c: char)
    requires
        lines.len() >= 1,
    ensures
        join(lines, seq![c]) + seq![c] == terminated(lines, c),
    decreases lines.len(),
{
    assert(terminated(lines, c) == lines[0] + seq![c] + terminated(lines.drop_first(), c));
    if lines.len() == 1 {
        assert(lines.drop_first() =~= Seq::<Seq<char>>::empty());
        assert(join(lines, seq![c]) == lines[0]);
        assert(terminated(lines.drop_first(), c) == Seq::<char>::empty());
        assert(lines[0] + seq![c] + Seq::<char>::empty() =~= lines[0] + seq![c]);
    } else {
        lemma_join_front(lines, seq![c]);
        lemma_join_terminated(lines.drop_first(), c);
        assert(join(lines, seq![c]) + seq![c] =~= lines[0] + seq![c] + (join(lines.drop_first(), seq![c]) + seq![c]));
    }
}

proof fn lemma_split_from_piece(cur: Seq<char>, l: Seq<char>, rest: Seq<char>, c: char)
    requires
        forall|i: int| 0 <= i < l.len() ==> #[trigger] l[i] != c,
    ensures
        split_from(cur, l + seq![c] + rest, c) == seq![cur + l] + split_from(Seq::empty(), rest, c),
    decreases l.len(),
{
    let s = l + seq![c] + rest;
    if l.len() == 0 {
        assert(s[0] == c);
        assert(s.drop_first() =~= rest);
        assert(cur + l =~= cur);
    } else {
        assert(s[0] == l[0]);
        assert(s.drop_first() =~= l.drop_first() + seq![c] + rest);
        lemma_split_from_piece(cur.push(l[0]), l.drop_first(), rest, c);
        assert(cur.push(l[0]) + l.drop_first() =~= cur + l);
    }
}

proof fn lemma_split_terminated(lines: Seq<Seq<char>>, c: char)
    requires
        forall|k: int, i: int| 0 <= k < lines.len() && 0 <= i < lines[k].len() ==> #[trigger] lines[k][i] != c,
    ensures
        split(terminated(lines, c), c) == lines.push(Seq::empty()),
    decreases lines.len(),
{
    if lines.len() == 0 {
        assert(split(Seq::<char>::empty(), c) =~= seq![Seq::<char>::empty()]);
    } else {
        let l = lines[0];
        assert forall|i: int| 0 <= i < l.len() implies #[trigger] l[i] != c by {
            assert(lines[0][i] != c);
        }
        lemma_split_from_piece(Seq::empty(), l, terminated(lines.drop_first(), c), c);
        assert forall|k: int, i: int| 0 <= k < lines.drop_first().len() && 0 <= i < lines.drop_first()[k].len()
            implies #[trigger] lines.drop_first()[k][i] != c by {
            assert(lines.drop_first()[k] == lines[k + 1]);
        }
        lemma_split_terminated(lines.drop_first(), c);
        assert(Seq::<char>::empty() + l =~= l);
        assert(seq![l] + lines.drop_first().push(Seq::<char>::empty()) =~= lines.push(Seq::empty()));
    }
}

/// Every string of a sorted list comes from the list that was sorted.
proof fn lemma_sorted_strings_from(v: Seq<Seq<char>>, k: int)
    requires
        0 <= k < sorted_strings(v).len(),
    ensures
        sorted_strings(v).len() == v.len(),
        v.contains(sorted_strings(v)[k]),
    decreases v.len(),
{
    if v.len() == 0 {
        assert(sorted_strings(v).len() == 0);
    } else {
        let prev = sorted_strings(v.drop_last());
        crate::dossiers::lemma_insert_position(prev, v.last());
        let j = crate::dossiers::insert_position(prev, v.last());
        let r = sorted_strings(v);
        if k == j {
            assert(r[k] == v.last());
            assert(v[v.len() - 1] == v.last());
        } else {
            let k2 = if k < j { k } else { k - 1 };
            assert(r[k] == prev[k2]);
            lemma_sorted_strings_from(v.drop_last(), k2);
            let w = choose|w: int| 0 <= w < v.drop_last().len() && v.drop_last()[w] == prev[k2];
            assert(v[w] == v.drop_last()[w]);
        }
        if prev.len() > 0 {
            lemma_sorted_strings_from(v.drop_last(), 0);
        } else {
            lemma_sorted_strings_len(v.drop_last());
        }
    }
}

proof fn lemma_sorted_strings_len(v: Seq<Seq<char>>)
    ensures
        sorted_strings(v).len() == v.len(),
    decreases v.len(),
{
    if v.len() > 0 {
        lemma_sorted_strings_len(v.drop_last());
        crate::dossiers::lemma_insert_position(sorted_strings(v.drop_last()), v.last());
    }
}

proof fn lemma_filter_keeps_all(s: Seq<Seq<char>>, pred: spec_fn(Seq<char>) -> bool)
    requires
        forall|k: int| 0 <= k < s.len() ==> pred(#[trigger] s[k]),
    ensures
        s.filter(pred) == s,
    decreases s.len(),
{
    reveal_with_fuel(Seq::filter, 1);
    if s.len() > 0 {
        assert forall|k: int| 0 <= k < s.drop_last().len() implies pred(#[trigger] s.drop_last()[k]) by {
            assert(s.drop_last()[k] == s[k]);
        }
        lemma_filter_keeps_all(s.drop_last(), pred);
        assert(pred(s[s.len() - 1]));
        assert(s.drop_last().push(s.last()) =~= s);
    }
}

proof fn lemma_tsv_entry_of_line(e: (Seq<char>, Seq<char>))
    requires
        storable_entry(e),
    ensures
        tsv_entry(inventory_line(e)) == e,
{
    let l = inventory_line(e);
    let n = e.0.len() as int;
    assert(l[n] == '\t');
    let i = choose|i: int| 0 <= i < l.len() && l[i] == '\t' && forall|j: int| 0 <= j < i ==> l[j] != '\t';
    assert(i == n) by {
        if i < n {
            assert(l[i] == e.0[i]);
        }
        if n < i {
            assert(l[n] == '\t');
        }
    }
    assert(l.take(n) =~= e.0);
    assert(l.skip(n + 1) =~= e.1);
}

/// What a dossier inventory file gives back is what was written: reading the text written
/// for storable entries yields, line by line in the order of the written (sorted) lines, the
/// entry each line was written for.
pub proof fn lemma_inventory_reads_back(entries: Seq<(Seq<char>, Seq<char>)>)
    requires
        forall|k: int| 0 <= k < entries.len() ==> storable_entry(#[trigger] entries[k]),
    ensures
        tsv_entries(inventory_text(entries))
            == sorted_strings(entries.map_values(|e: (Seq<char>, Seq<char>)| inventory_line(e)))
                .map_values(|l: Seq<char>| tsv_entry(l)),
        forall|k: int| 0 <= k < entries.len() ==> tsv_entry(inventory_line(#[trigger] entries[k])) == entries[k],
{
    let lines = entries.map_values(|e: (Seq<char>, Seq<char>)| e.0 + seq!['\t'] + e.1);
    assert(lines =~= entries.map_values(|e: (Seq<char>, Seq<char>)| inventory_line(e)));
    let sorted = sorted_strings(lines);
    lemma_sorted_strings_len(lines);
    let pred = |l: Seq<char>| trim(l).len() > 0;
    // Every sorted line is the line of some entry: it has no line break and is not blank.
    assert forall|k: int, i: int| 0 <= k < sorted.len() && 0 <= i < sorted[k].len() implies #[trigger] sorted[k][i] != '\n' by {
        lemma_sorted_strings_from(lines, k);
        let w = choose|w: int| 0 <= w < lines.len() && lines[w] == sorted[k];
        let e = entries[w];
        assert(storable_entry(e));
        if i < e.0.len() {
            assert(sorted[k][i] == e.0[i]);
        } else if i > e.0.len() {
            assert(sorted[k][i] == e.1[i - e.0.len() - 1]);
        }
    }
    assert forall|k: int| 0 <= k < sorted.len() implies pred(#[trigger] sorted[k]) by {
        lemma_sorted_strings_from(lines, k);
        let w = choose|w: int| 0 <= w < lines.len() && lines[w] == sorted[k];
        let e = entries[w];
        assert(storable_entry(e));
        assert(lines[w] == e.0 + seq!['\t'] + e.1);
        assert((e.0 + seq!['\t'] + e.1).take(e.0.len() as int) =~= e.0);
        lemma_trim_keeps_nonblank(sorted[k], e.0);
    }
    if sorted.len() == 0 {
        assert(inventory_text(entries) =~= seq!['\n']);
        reveal_with_fuel(Seq::filter, 2);
        let nl = seq!['\n'];
        assert(nl[0] == '\n');
        assert(nl.drop_first() =~= Seq::<char>::empty());
        assert(split_from(Seq::empty(), nl, '\n') == seq![Seq::<char>::empty()] + split_from(Seq::empty(), Seq::empty(), '\n'));
        assert(split(seq!['\n'], '\n') =~= seq![Seq::<char>::empty(), Seq::<char>::empty()]);
        assert(trim(Seq::<char>::empty()).len() == 0);
        assert(split(seq!['\n'], '\n').filter(pred) =~= Seq::<Seq<char>>::empty());
    } else {
        lemma_join_terminated(sorted, '\n');
        lemma_split_terminated(sorted, '\n');
        assert(inventory_text(entries) == terminated(sorted, '\n'));
        reveal_with_fuel(Seq::filter, 1);
        lemma_filter_keeps_all(sorted, pred);
        assert(trim(Seq::<char>::empty()).len() == 0);
        assert(sorted.push(Seq::empty()).drop_last() =~= sorted);
        assert(sorted.push(Seq::empty()).filter(pred) == sorted);
    }
    assert forall|k: int| 0 <= k < entries.len() implies tsv_entry(inventory_line(#[trigger] entries[k])) == entries[k] by {
        lemma_tsv_entry_of_line(entries[k]);
    }
}

/// A string that starts with a non-blank string followed by anything is not blank once trimmed.
proof fn lemma_trim_keeps_nonblank(l: Seq<char>, id: Seq<char>)
    requires
        id.len() > 0,
        trim(id) == id,
        l.len() >= id.len(),
        l.take(id.len() as int) == id,
    ensures
        trim(l).len() > 0,
{
    crate::text::lemma_trimmed_first_not_blank(id);
    assert(l[0] == id[0]);
    crate::text::lemma_trim_nonblank(l, 0);
}

/// The text of a dossier inventory file for the given `(id, date)` entries.
pub fn dossier_inventory_text(entries: &Vec<(String, String)>) -> (r: String)
    ensures
        r@ == inventory_text(entries@.map_values(|e: (String, String)| (e.0@, e.1@))),
{
    let ghost ev = entries@.map_values(|e: (String, String)| (e.0@, e.1@));
    let ghost f = |e: (Seq<char>, Seq<char>)| e.0 + seq!['\t'] + e.1;
    let mut lines: Vec<String> = Vec::new();
    let mut i: usize = 0;
    while i < entries.len()
        invariant
            i <= entries@.len(),
            ev == entries@.map_values(|e: (String, String)| (e.0@, e.1@)),
            f == (|e: (Seq<char>, Seq<char>)| e.0 + seq!['\t'] + e.1),
            lines.deep_view() == ev.take(i as int).map_values(f),
        decreases entries.len() - i,
    {
        let mut line = entries[i].0.clone();
        push_char(&mut line, '\t');
        push_str(&mut line, entries[i].1.as_str());
        let ghost before = lines.deep_view();
        assert(line@ == f(ev[i as int]));
        lines.push(line);
        assert(lines.deep_view() =~= before.push(f(ev[i as int])));
        assert(ev.take(i + 1) =~= ev.take(i as int).push(ev[i as int]));
        assert(lines.deep_view() =~= ev.take(i + 1).map_values(f));
        i = i + 1;
    }
    assert(ev.take(entries@.len() as int) =~= ev);
    let sorted = crate::dossiers::sort_strings(&lines);
    let body = crate::text::join_strs(sorted.as_slice(), "\n");
    proof {
        reveal_strlit("\n");
        assert("\n"@ =~= seq!['\n']);
    }
    let mut out = body;
    push_char(&mut out, '\n');
    out
}

/// Whether one of the file names is a cached version of the dossier.
pub open spec fn has_cached_version(session_id: u32, names: Seq<Seq<char>>, dossier_id: Seq<char>) -> bool {
    exists|j: int| 0 <= j < names.len() && is_dossier_cache_candidate_spec(#[trigger] names[j], session_id, dossier_id)
}

/// The first expected dossier (in the given order) with no cached version among the names of
/// the files in the session's dossier cache, if any.
pub fn first_uncached_dossier(session_id: u32, ids: &Vec<String>, names: &Vec<String>) -> (r: Option<usize>)
    ensures
        match r {
            Some(k) => k < ids@.len() && !has_cached_version(session_id, names.deep_view(), ids.deep_view()[k as int])
                && forall|m: int| 0 <= m < k ==> has_cached_version(session_id, names.deep_view(), #[trigger] ids.deep_view()[m]),
            None => forall|m: int| 0 <= m < ids@.len() ==> has_cached_version(session_id, names.deep_view(), #[trigger] ids.deep_view()[m]),
        },
{
    let ghost nv = names.deep_view();
    let mut k: usize = 0;
    while k < ids.len()
        invariant
            k <= ids@.len(),
            nv == names.deep_view(),
            forall|m: int| 0 <= m < k ==> has_cached_version(session_id, nv, #[trigger] ids.deep_view()[m]),
        decreases ids.len() - k,
    {
        let ghost id = ids.deep_view()[k as int];
        assert(id == ids@[k as int]@);
        let mut j: usize = 0;
        let mut found = false;
        while j < names.len()
            invariant
                j <= names@.len(),
                k < ids@.len(),
                nv == names.deep_view(),
                id == ids@[k as int]@,
                !found ==> forall|q: int| 0 <= q < j ==> !is_dossier_cache_candidate_spec(#[trigger] nv[q], session_id, id),
                found ==> has_cached_version(session_id, nv, id),
            decreases names.len() - j,
        {
            if !found && is_dossier_cache_candidate(names[j].as_str(), session_id, ids[k].as_str()) {
                assert(nv[j as int] == names@[j as int]@);
                assert(is_dossier_cache_candidate_spec(nv[j as int], session_id, id));
                found = true;
            }
            j = j + 1;
        }
        if !found {
            return Some(k);
        }
        k = k + 1;
    }
    None
}

} // verus!
