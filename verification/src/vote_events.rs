//! Block-native vote event detection helpers.
use vstd::prelude::*;
use crate::report_blocks::{BlockTag, ReportBlock, TableCell, TableRow, cell_texts};
use crate::text::{join, join_strs, parse_u32, parse_u32_str, split_str, trim, trim_str};
use crate::vote_patterns::{
    VoteBucket, appendix_vote_number, bucket_of_label, compact_vote_number,
    electronic_count_number, is_language_group_header, language_group_header,
    looks_like_voter_names, paragraph_vote_number, parse_appendix_vote_number,
    parse_compact_vote_number, parse_electronic_count_number, parse_paragraph_vote_number,
    vote_bucket_label, voter_names,
};

verus! {

#[derive(Debug, Clone, Copy, PartialEq, Eq, Structural)]
pub enum RollCallTableShape {
    Standard,
    LanguageGroup,
}

#[derive(Debug, Clone, Copy, PartialEq, Eq, Structural)]
pub struct RollCallCounts {
    pub yes: Option<u32>,
    pub no: Option<u32>,
    pub abstain: Option<u32>,
    pub yes_nl: Option<u32>,
    pub yes_fr: Option<u32>,
    pub no_nl: Option<u32>,
    pub no_fr: Option<u32>,
    pub abstain_nl: Option<u32>,
    pub abstain_fr: Option<u32>,
}

pub struct ParsedRollCallTable {
    pub source_number: String,
    pub shape: RollCallTableShape,
    pub counts: RollCallCounts,
    pub invalid_language_group_buckets: Vec<String>,
}

#[derive(Debug, Clone, Copy, PartialEq, Eq, Structural)]
pub struct ParsedSecretTable {
    pub voters: Option<u32>,
    pub valid: Option<u32>,
    pub blank_invalid: Option<u32>,
    pub majority_threshold: Option<u32>,
}

pub struct AppendixBucket {
    pub position: String,
    pub count: u32,
    pub names: Vec<String>,
    pub count_block: u32,
    pub name_blocks: Vec<u32>,
}

pub open spec fn no_counts() -> RollCallCounts {
    RollCallCounts {
        yes: None,
        no: None,
        abstain: None,
        yes_nl: None,
        yes_fr: None,
        no_nl: None,
        no_fr: None,
        abstain_nl: None,
        abstain_fr: None,
    }
}

/// The number in cell `k`, trimmed; `None` when there is no such cell or it is no `u32`.
pub open spec fn cell_value(cells: Seq<TableCell>, k: int) -> Option<u32> {
    if 0 <= k < cells.len() {
        parse_u32(trim(cells[k].text@))
    } else {
        None
    }
}

pub open spec fn apply_standard(c: RollCallCounts, b: VoteBucket, v: u32) -> RollCallCounts {
    match b {
        VoteBucket::Yes => RollCallCounts { yes: Some(v), ..c },
        VoteBucket::No => RollCallCounts { no: Some(v), ..c },
        VoteBucket::Abstain => RollCallCounts { abstain: Some(v), ..c },
        _ => c,
    }
}

pub open spec fn apply_group(c: RollCallCounts, b: VoteBucket, nl: u32, total: u32, fr: u32) -> RollCallCounts {
    match b {
        VoteBucket::Yes => RollCallCounts { yes: Some(total), yes_nl: Some(nl), yes_fr: Some(fr), ..c },
        VoteBucket::No => RollCallCounts { no: Some(total), no_nl: Some(nl), no_fr: Some(fr), ..c },
        VoteBucket::Abstain => RollCallCounts {
            abstain: Some(total),
            abstain_nl: Some(nl),
            abstain_fr: Some(fr),
            ..c
        },
        _ => c,
    }
}

pub open spec fn bucket_name(b: VoteBucket) -> Seq<char> {
    match b {
        VoteBucket::Yes => "yes"@,
        VoteBucket::No => "no"@,
        VoteBucket::Abstain => "abstain"@,
        _ => "unknown"@,
    }
}

/// One count row of a roll-call table: a labelled bucket (not the total) with its numbers
/// updates the counts; in a language-group table a row whose groups do not add up to its
/// total is recorded by bucket name instead.
pub open spec fn roll_call_step(
    st: (RollCallCounts, Seq<Seq<char>>),
    row: TableRow,
    shape: RollCallTableShape,
) -> (RollCallCounts, Seq<Seq<char>>) {
    let cells = row.cells@;
    if cells.len() == 0 {
        st
    } else {
        match bucket_of_label(cells[0].text@) {
            None => st,
            Some(b) => if b == VoteBucket::Total {
                st
            } else {
                match shape {
                    RollCallTableShape::Standard => match cell_value(cells, 1) {
                        Some(v) => (apply_standard(st.0, b, v), st.1),
                        None => st,
                    },
                    RollCallTableShape::LanguageGroup => match (
                        cell_value(cells, 1),
                        cell_value(cells, 2),
                        cell_value(cells, 3),
                    ) {
                        (Some(nl), Some(total), Some(fr)) => if nl + fr != total {
                            (st.0, st.1.push(bucket_name(b)))
                        } else {
                            (apply_group(st.0, b, nl, total, fr), st.1)
                        },
                        _ => st,
                    },
                }
            },
        }
    }
}

pub open spec fn roll_call_fold(rows: Seq<TableRow>, shape: RollCallTableShape) -> (
    RollCallCounts,
    Seq<Seq<char>>,
)
    decreases rows.len(),
{
    if rows.len() == 0 {
        (no_counts(), Seq::empty())
    } else {
        roll_call_step(roll_call_fold(rows.drop_last(), shape), rows.last(), shape)
    }
}

/// The shape of a roll-call table: language-group when its second row is an N/TOT/F header.
pub open spec fn table_shape(rows: Seq<TableRow>) -> RollCallTableShape {
    if rows.len() > 1 && language_group_header(cell_texts(rows[1].cells@)) {
        RollCallTableShape::LanguageGroup
    } else {
        RollCallTableShape::Standard
    }
}

/// A roll-call table: its first row carries `(Stemming/vote N)`; the other rows are counts.
pub open spec fn roll_call_table(rows: Seq<TableRow>) -> Option<(Seq<char>, RollCallTableShape, RollCallCounts, Seq<Seq<char>>)> {
    if rows.len() == 0 {
        None
    } else {
        match compact_vote_number(join(cell_texts(rows[0].cells@), " "@)) {
            None => None,
            Some(n) => {
                let shape = table_shape(rows);
                let folded = roll_call_fold(rows.drop_first(), shape);
                Some((n, shape, folded.0, folded.1))
            },
        }
    }
}

/// The counts agree with the table's shape: a standard table has no language-group counts;
/// in a language-group table every overall count comes with its Dutch and French counts,
/// which add up to it.
pub open spec fn counts_fit_shape(c: RollCallCounts, shape: RollCallTableShape) -> bool {
    match shape {
        RollCallTableShape::Standard => c.yes_nl is None && c.yes_fr is None && c.no_nl is None && c.no_fr is None
            && c.abstain_nl is None && c.abstain_fr is None,
        RollCallTableShape::LanguageGroup => {
            &&& (c.yes matches Some(t) ==> (c.yes_nl matches Some(n) && c.yes_fr matches Some(f) && n + f == t))
            &&& (c.no matches Some(t) ==> (c.no_nl matches Some(n) && c.no_fr matches Some(f) && n + f == t))
            &&& (c.abstain matches Some(t) ==> (c.abstain_nl matches Some(n) && c.abstain_fr matches Some(f) && n + f == t))
        },
    }
}

proof fn lemma_fold_fits_shape(rows: Seq<TableRow>, shape: RollCallTableShape)
    ensures
        counts_fit_shape(roll_call_fold(rows, shape).0, shape),
    decreases rows.len(),
{
    if rows.len() > 0 {
        lemma_fold_fits_shape(rows.drop_last(), shape);
    }
}

/// What a roll-call table gives: nothing exactly when it has no rows or its first row
/// carries no `(Stemming/vote N)`; else that number, the language-group shape exactly when
/// its second row is an N/TOT/F header, and counts that fit the shape (Dutch and French
/// adding up to each overall count of a language-group table).
pub proof fn lemma_roll_call_table_law(rows: Seq<TableRow>)
    ensures
        roll_call_table(rows) is None <==> (rows.len() == 0 || compact_vote_number(join(cell_texts(rows[0].cells@), " "@)) is None),
        roll_call_table(rows) matches Some(p) ==> {
            &&& Some(p.0) == compact_vote_number(join(cell_texts(rows[0].cells@), " "@))
            &&& (p.1 == RollCallTableShape::LanguageGroup <==> (rows.len() > 1 && language_group_header(cell_texts(rows[1].cells@))))
            &&& counts_fit_shape(p.2, p.1)
        },
{
    if rows.len() > 0 {
        lemma_fold_fits_shape(rows.drop_first(), table_shape(rows));
    }
}

/// The bucket named by the first cell of a row, when it has one.
pub open spec fn row_bucket(row: TableRow) -> Option<VoteBucket> {
    if row.cells@.len() > 0 {
        bucket_of_label(row.cells@[0].text@)
    } else {
        None
    }
}

/// The overall number a count row gives in a table of the shape: the second cell of a
/// standard table; the total (third cell) of a language-group table whose Dutch and French
/// numbers add up to it.
pub open spec fn row_number(row: TableRow, shape: RollCallTableShape) -> Option<u32> {
    let cells = row.cells@;
    match shape {
        RollCallTableShape::Standard => cell_value(cells, 1),
        RollCallTableShape::LanguageGroup => match (cell_value(cells, 1), cell_value(cells, 2), cell_value(cells, 3)) {
            (Some(nl), Some(total), Some(fr)) => if nl + fr == total { Some(total) } else { None },
            _ => None,
        },
    }
}

/// The overall count of bucket `b` (yes, no or abstain).
pub open spec fn count_for(c: RollCallCounts, b: VoteBucket) -> Option<u32> {
    match b {
        VoteBucket::Yes => c.yes,
        VoteBucket::No => c.no,
        _ => c.abstain,
    }
}

/// The Dutch and French counts of bucket `b` (yes, no or abstain).
pub open spec fn group_counts_for(c: RollCallCounts, b: VoteBucket) -> (Option<u32>, Option<u32>) {
    match b {
        VoteBucket::Yes => (c.yes_nl, c.yes_fr),
        VoteBucket::No => (c.no_nl, c.no_fr),
        _ => (c.abstain_nl, c.abstain_fr),
    }
}

/// The Dutch and French numbers a count row gives: none in a standard table; its second
/// and fourth cells in a language-group table.
pub open spec fn row_groups(row: TableRow, shape: RollCallTableShape) -> (Option<u32>, Option<u32>) {
    match shape {
        RollCallTableShape::Standard => (None, None),
        RollCallTableShape::LanguageGroup => (cell_value(row.cells@, 1), cell_value(row.cells@, 3)),
    }
}

/// Row `k` of `rows` counts for bucket `b`: it is labelled `b` and gives a number.
pub open spec fn counts_row(rows: Seq<TableRow>, k: int, b: VoteBucket, shape: RollCallTableShape) -> bool {
    row_bucket(rows[k]) == Some(b) && row_number(rows[k], shape) is Some
}

/// The count of bucket `b` after the rows `rows`: none when no row counts for it, else the
/// number of the last row that does.
spec fn fold_count_law(rows: Seq<TableRow>, b: VoteBucket, shape: RollCallTableShape) -> bool {
    &&& (count_for(roll_call_fold(rows, shape).0, b) is None <==> forall|k: int| 0 <= k < rows.len() ==> !counts_row(rows, k, b, shape))
    &&& (count_for(roll_call_fold(rows, shape).0, b) matches Some(v) ==> exists|k: int|
        0 <= k < rows.len() && #[trigger] counts_row(rows, k, b, shape) && row_number(rows[k], shape) == Some(v)
            && group_counts_for(roll_call_fold(rows, shape).0, b) == row_groups(rows[k], shape)
            && forall|q: int| k < q < rows.len() ==> !counts_row(rows, q, b, shape))
    &&& (count_for(roll_call_fold(rows, shape).0, b) is None ==> group_counts_for(roll_call_fold(rows, shape).0, b) == (None::<u32>, None::<u32>))
}

proof fn lemma_step_count(st: (RollCallCounts, Seq<Seq<char>>), row: TableRow, b: VoteBucket, shape: RollCallTableShape)
    requires
        b == VoteBucket::Yes || b == VoteBucket::No || b == VoteBucket::Abstain,
        shape == RollCallTableShape::Standard ==> group_counts_for(st.0, b) == (None::<u32>, None::<u32>),
    ensures
        ({
            let c = roll_call_step(st, row, shape).0;
            if row_bucket(row) == Some(b) && row_number(row, shape) is Some {
                count_for(c, b) == row_number(row, shape) && group_counts_for(c, b) == row_groups(row, shape)
            } else {
                count_for(c, b) == count_for(st.0, b) && group_counts_for(c, b) == group_counts_for(st.0, b)
            }
        }),
{
    let cells = row.cells@;
    if cells.len() > 0 {
        match bucket_of_label(cells[0].text@) {
            None => {},
            Some(rb) => {
                match shape {
                    RollCallTableShape::Standard => {
                        assert(row_number(row, shape) == cell_value(cells, 1));
                    },
                    RollCallTableShape::LanguageGroup => {},
                }
            },
        }
    }
}

proof fn lemma_fold_count(rows: Seq<TableRow>, b: VoteBucket, shape: RollCallTableShape)
    requires
        b == VoteBucket::Yes || b == VoteBucket::No || b == VoteBucket::Abstain,
    ensures
        fold_count_law(rows, b, shape),
    decreases rows.len(),
{
    if rows.len() > 0 {
        let prev = rows.drop_last();
        lemma_fold_count(prev, b, shape);
        let n = rows.len() - 1;
        assert forall|k: int| 0 <= k < prev.len() implies (counts_row(rows, k, b, shape) == counts_row(prev, k, b, shape)) by {
            assert(rows[k] == prev[k]);
        }
        let c0 = roll_call_fold(prev, shape).0;
        let c1 = roll_call_fold(rows, shape).0;
        assert(c1 == roll_call_step(roll_call_fold(prev, shape), rows[n], shape).0);
        lemma_fold_fits_shape(prev, shape);
        lemma_step_count(roll_call_fold(prev, shape), rows[n], b, shape);
        if counts_row(rows, n, b, shape) {
            assert(count_for(c1, b) == row_number(rows[n], shape));
            assert(group_counts_for(c1, b) == row_groups(rows[n], shape));
        } else {
            assert(count_for(c1, b) == count_for(c0, b));
            assert(group_counts_for(c1, b) == group_counts_for(c0, b));
            if count_for(c0, b) is Some {
                let k = choose|k: int|
                    0 <= k < prev.len() && #[trigger] counts_row(prev, k, b, shape) && row_number(prev[k], shape) == count_for(c0, b)
                        && group_counts_for(c0, b) == row_groups(prev[k], shape)
                        && forall|q: int| k < q < prev.len() ==> !counts_row(prev, q, b, shape);
                assert(counts_row(rows, k, b, shape) && rows[k] == prev[k]);
            }
        }
    }
}

/// The counts of a roll-call table: for each of yes, no and abstain, the count is absent
/// exactly when no count row (after the first row) is labelled with that bucket and gives a
/// number, and otherwise it is the number of the last such row. In a standard table the
/// number is the row's second cell (and there are no Dutch and French counts); in a
/// language-group table it is the row's total when its Dutch and French numbers add up to
/// it, and those two numbers are the bucket's Dutch and French counts. So the yes count
/// never comes from a `Nee` row, nor the no count from a `Ja` row.
pub proof fn lemma_roll_call_counts_law(rows: Seq<TableRow>, b: VoteBucket)
    requires
        b == VoteBucket::Yes || b == VoteBucket::No || b == VoteBucket::Abstain,
    ensures
        roll_call_table(rows) matches Some(p) ==> {
            &&& (count_for(p.2, b) is None <==> forall|k: int| 1 <= k < rows.len() ==> !counts_row(rows, k, b, p.1))
            &&& (count_for(p.2, b) matches Some(v) ==> exists|k: int|
                1 <= k < rows.len() && #[trigger] counts_row(rows, k, b, p.1) && row_number(rows[k], p.1) == Some(v)
                    && group_counts_for(p.2, b) == row_groups(rows[k], p.1)
                    && forall|q: int| k < q < rows.len() ==> !counts_row(rows, q, b, p.1))
            &&& (count_for(p.2, b) is None ==> group_counts_for(p.2, b) == (None::<u32>, None::<u32>))
        },
{
    if rows.len() > 0 {
        let shape = table_shape(rows);
        let rest = rows.drop_first();
        lemma_fold_count(rest, b, shape);
        assert forall|k: int| 0 <= k < rest.len() implies (counts_row(rest, k, b, shape) == counts_row(rows, k + 1, b, shape)) by {
            assert(rest[k] == rows[k + 1]);
        }
        if roll_call_table(rows) is Some {
            let c = roll_call_fold(rest, shape).0;
            let p = roll_call_table(rows)->0;
            assert(p.1 == shape && p.2 == c);
            if forall|q: int| 1 <= q < rows.len() ==> !counts_row(rows, q, b, shape) {
                assert forall|k: int| 0 <= k < rest.len() implies !counts_row(rest, k, b, shape) by {
                    assert(!counts_row(rows, k + 1, b, shape));
                }
            }
            if count_for(c, b) is None {
                assert forall|k: int| 1 <= k < rows.len() implies !counts_row(rows, k, b, shape) by {
                    assert(!counts_row(rest, k - 1, b, shape));
                }
            } else {
                let j = choose|j: int| 0 <= j < rest.len() && #[trigger] counts_row(rest, j, b, shape) && row_number(rest[j], shape) == count_for(c, b)
                    && group_counts_for(c, b) == row_groups(rest[j], shape)
                    && forall|q: int| j < q < rest.len() ==> !counts_row(rest, q, b, shape);
                assert(counts_row(rows, j + 1, b, shape) && rows[j + 1] == rest[j]);
                assert forall|q: int| j + 1 < q < rows.len() implies !counts_row(rows, q, b, shape) by {
                    assert(!counts_row(rest, q - 1, b, shape));
                }
                if forall|q: int| 1 <= q < rows.len() ==> !counts_row(rows, q, b, shape) {
                    assert(!counts_row(rows, j + 1, b, shape));
                }
            }
        }
    }
}

pub open spec fn parsed_roll_call_view(p: ParsedRollCallTable) -> (Seq<char>, RollCallTableShape, RollCallCounts, Seq<Seq<char>>) {
    (p.source_number@, p.shape, p.counts, p.invalid_language_group_buckets.deep_view())
}

fn apply_row(
    counts: &mut RollCallCounts,
    invalid: &mut Vec<String>,
    row: &TableRow,
    shape: RollCallTableShape,
)
    ensures
        (*final(counts), final(invalid).deep_view()) == roll_call_step(
            (*old(counts), old(invalid).deep_view()),
            *row,
            shape,
        ),
{
    if row.cells.len() == 0 {
        return;
    }
    let bucket = match vote_bucket_label(row.cells[0].text.as_str()) {
        Some(b) => b,
        None => return ,
    };
    if bucket == VoteBucket::Total {
        return;
    }
    match shape {
        RollCallTableShape::Standard => {
            let value = match cell_number(&row.cells, 1) {
                Some(v) => v,
                None => return ,
            };
            match bucket {
                VoteBucket::Yes => counts.yes = Some(value),
                VoteBucket::No => counts.no = Some(value),
                VoteBucket::Abstain => counts.abstain = Some(value),
                _ => {},
            }
        },
        RollCallTableShape::LanguageGroup => {
            let nl = match cell_number(&row.cells, 1) {
                Some(v) => v,
                None => return ,
            };
            let total = match cell_number(&row.cells, 2) {
                Some(v) => v,
                None => return ,
            };
            let fr = match cell_number(&row.cells, 3) {
                Some(v) => v,
                None => return ,
            };
            if nl as u64 + fr as u64 != total as u64 {
                let ghost before = invalid.deep_view();
                invalid.push(bucket_key(bucket).to_string());
                assert(invalid.deep_view() =~= before.push(bucket_name(bucket)));
                return;
            }
            match bucket {
                VoteBucket::Yes => {
                    counts.yes = Some(total);
                    counts.yes_nl = Some(nl);
                    counts.yes_fr = Some(fr);
                },
                VoteBucket::No => {
                    counts.no = Some(total);
                    counts.no_nl = Some(nl);
                    counts.no_fr = Some(fr);
                },
                VoteBucket::Abstain => {
                    counts.abstain = Some(total);
                    counts.abstain_nl = Some(nl);
                    counts.abstain_fr = Some(fr);
                },
                _ => {},
            }
        },
    }
}

fn bucket_key(bucket: VoteBucket) -> (r: &'static str)
    ensures
        r@ == bucket_name(bucket),
{
    match bucket {
        VoteBucket::Yes => "yes",
        VoteBucket::No => "no",
        VoteBucket::Abstain => "abstain",
        _ => "unknown",
    }
}

/// The trimmed number in cell `k`, as `cell_value` states it.
pub fn cell_number(cells: &Vec<TableCell>, k: usize) -> (r: Option<u32>)
    ensures
        r == cell_value(cells@, k as int),
{
    if k < cells.len() {
        let t = trim_str(cells[k].text.as_str());
        parse_u32_str(t.as_str())
    } else {
        None
    }
}

fn cell_strs(cells: &Vec<TableCell>) -> (r: Vec<&str>)
    ensures
        r@.map_values(|c: &str| c@) == cell_texts(cells@),
{
    let mut out: Vec<&str> = Vec::new();
    let mut i: usize = 0;
    while i < cells.len()
        invariant
            i <= cells.len(),
            out@.map_values(|c: &str| c@) == cell_texts(cells@.take(i as int)),
        decreases cells.len() - i,
    {
        let ghost before = out@;
        out.push(cells[i].text.as_str());
        assert(cells@.take(i + 1) =~= cells@.take(i as int).push(cells@[i as int]));
        assert(cell_texts(cells@.take(i + 1)) =~= cell_texts(cells@.take(i as int)).push(cells@[i as int].text@));
        assert(out@.map_values(|c: &str| c@) =~= before.map_values(|c: &str| c@).push(cells@[i as int].text@));
        assert(out@.map_values(|c: &str| c@) =~= cell_texts(cells@.take(i + 1)));
        i = i + 1;
    }
    assert(cells@.take(cells@.len() as int) =~= cells@);
    out
}

fn cell_strings(cells: &Vec<TableCell>) -> (r: Vec<String>)
    ensures
        r.deep_view() == cell_texts(cells@),
{
    let mut out: Vec<String> = Vec::new();
    let mut i: usize = 0;
    while i < cells.len()
        invariant
            i <= cells.len(),
            out.deep_view() == cell_texts(cells@.take(i as int)),
        decreases cells.len() - i,
    {
        out.push(cells[i].text.clone());
        assert(cells@.take(i + 1) =~= cells@.take(i as int).push(cells@[i as int]));
        assert(cell_texts(cells@.take(i + 1)) =~= cell_texts(cells@.take(i as int)).push(cells@[i as int].text@));
        assert(out.deep_view() =~= cell_texts(cells@.take(i + 1)));
        i = i + 1;
    }
    assert(cells@.take(cells@.len() as int) =~= cells@);
    out
}

pub fn parse_roll_call_table(block: &ReportBlock) -> (r: Option<ParsedRollCallTable>)
    ensures
        match block.table_rows {
            None => r is None,
            Some(rows) => match r {
                None => roll_call_table(rows@) is None,
                Some(p) => roll_call_table(rows@) == Some(parsed_roll_call_view(p)),
            },
        },
{
    let rows = match &block.table_rows {
        Some(rows) => rows,
        None => return None,
    };
    if rows.len() == 0 {
        return None;
    }
    let first = cell_strings(&rows[0].cells);
    let joined = join_strs(&first, " ");
    let source_number = match parse_compact_vote_number(joined.as_str()) {
        Some(n) => n,
        None => return None,
    };
    let shape = if rows.len() > 1 {
        let labels = cell_strs(&rows[1].cells);
        if is_language_group_header(labels.as_slice()) {
            RollCallTableShape::LanguageGroup
        } else {
            RollCallTableShape::Standard
        }
    } else {
        RollCallTableShape::Standard
    };
    assert(shape == table_shape(rows@));
    let mut counts = RollCallCounts {
        yes: None,
        no: None,
        abstain: None,
        yes_nl: None,
        yes_fr: None,
        no_nl: None,
        no_fr: None,
        abstain_nl: None,
        abstain_fr: None,
    };
    let mut invalid: Vec<String> = Vec::new();
    let mut i: usize = 1;
    assert(rows@.subrange(1, 1) =~= Seq::<TableRow>::empty());
    while i < rows.len()
        invariant
            1 <= i <= rows.len(),
            (counts, invalid.deep_view()) == roll_call_fold(rows@.subrange(1, i as int), shape),
        decreases rows.len() - i,
    {
        assert(rows@.subrange(1, i + 1).drop_last() =~= rows@.subrange(1, i as int));
        apply_row(&mut counts, &mut invalid, &rows[i], shape);
        i = i + 1;
    }
    assert(rows@.subrange(1, rows@.len() as int) =~= rows@.drop_first());
    Some(ParsedRollCallTable {
        source_number,
        shape,
        counts,
        invalid_language_group_buckets: invalid,
    })
}

pub open spec fn no_statistics() -> ParsedSecretTable {
    ParsedSecretTable { voters: None, valid: None, blank_invalid: None, majority_threshold: None }
}

/// One row of a secret-ballot statistics table: a labelled statistic takes the row's number.
pub open spec fn secret_step(p: ParsedSecretTable, row: TableRow) -> ParsedSecretTable {
    let cells = row.cells@;
    if cells.len() == 0 {
        p
    } else {
        let value = cell_value(cells, 1);
        match bucket_of_label(cells[0].text@) {
            Some(VoteBucket::Voters) => ParsedSecretTable { voters: value, ..p },
            Some(VoteBucket::Valid) => ParsedSecretTable { valid: value, ..p },
            Some(VoteBucket::BlankInvalid) => ParsedSecretTable { blank_invalid: value, ..p },
            Some(VoteBucket::MajorityThreshold) => ParsedSecretTable { majority_threshold: value, ..p },
            _ => p,
        }
    }
}

pub open spec fn secret_fold(rows: Seq<TableRow>) -> ParsedSecretTable
    decreases rows.len(),
{
    if rows.len() == 0 {
        no_statistics()
    } else {
        secret_step(secret_fold(rows.drop_last()), rows.last())
    }
}

pub fn parse_secret_ballot_table(block: &ReportBlock) -> (r: ParsedSecretTable)
    ensures
        r == match block.table_rows {
            None => no_statistics(),
            Some(rows) => secret_fold(rows@),
        },
{
    let mut parsed = ParsedSecretTable {
        voters: None,
        valid: None,
        blank_invalid: None,
        majority_threshold: None,
    };
    let rows = match &block.table_rows {
        Some(rows) => rows,
        None => return parsed,
    };
    let mut i: usize = 0;
    while i < rows.len()
        invariant
            i <= rows.len(),
            parsed == secret_fold(rows@.take(i as int)),
        decreases rows.len() - i,
    {
        assert(rows@.take(i + 1).drop_last() =~= rows@.take(i as int));
        let row = &rows[i];
        if row.cells.len() > 0 {
            let value = cell_number(&row.cells, 1);
            match vote_bucket_label(row.cells[0].text.as_str()) {
                Some(VoteBucket::Voters) => parsed.voters = value,
                Some(VoteBucket::Valid) => parsed.valid = value,
                Some(VoteBucket::BlankInvalid) => parsed.blank_invalid = value,
                Some(VoteBucket::MajorityThreshold) => parsed.majority_threshold = value,
                _ => {},
            }
        }
        i = i + 1;
    }
    assert(rows@.take(rows@.len() as int) =~= rows@);
    parsed
}

/// A yes/no/abstain row of an appendix table and its count.
pub open spec fn appendix_bucket_row(row: TableRow) -> Option<(Seq<char>, u32)> {
    let cells = row.cells@;
    if cells.len() < 2 {
        None
    } else {
        match bucket_of_label(cells[0].text@) {
            Some(VoteBucket::Yes) => match cell_value(cells, 1) {
                Some(n) => Some(("yes"@, n)),
                None => None,
            },
            Some(VoteBucket::No) => match cell_value(cells, 1) {
                Some(n) => Some(("no"@, n)),
                None => None,
            },
            Some(VoteBucket::Abstain) => match cell_value(cells, 1) {
                Some(n) => Some(("abstain"@, n)),
                None => None,
            },
            _ => None,
        }
    }
}

/// An appendix count row names its position by its label: a row with a label and a number
/// gives a bucket exactly when the label is a yes, no or abstain label; the bucket's count
/// is the row's second cell and its position is `yes` for a yes label (`Ja`, `Oui`), `no`
/// for a no label (`Nee`, `Non`) and `abstain` for an abstention label.
pub proof fn lemma_appendix_bucket_row_law(row: TableRow)
    ensures
        appendix_bucket_row(row) is Some <==> (row.cells@.len() >= 2 && cell_value(row.cells@, 1) is Some && (row_bucket(row)
            == Some(VoteBucket::Yes) || row_bucket(row) == Some(VoteBucket::No) || row_bucket(row) == Some(VoteBucket::Abstain))),
        appendix_bucket_row(row) matches Some((p, n)) ==> {
            &&& cell_value(row.cells@, 1) == Some(n)
            &&& (row_bucket(row) == Some(VoteBucket::Yes) ==> p == "yes"@)
            &&& (row_bucket(row) == Some(VoteBucket::No) ==> p == "no"@)
            &&& (row_bucket(row) == Some(VoteBucket::Abstain) ==> p == "abstain"@)
        },
{
}

pub fn parse_appendix_bucket_row(row: &TableRow) -> (r: Option<(String, u32)>)
    ensures
        match r {
            Some((p, n)) => appendix_bucket_row(*row) == Some((p@, n)),
            None => appendix_bucket_row(*row) is None,
        },
{
    if row.cells.len() < 2 {
        return None;
    }
    let bucket = match vote_bucket_label(row.cells[0].text.as_str()) {
        Some(b) => b,
        None => return None,
    };
    let position = match bucket {
        VoteBucket::Yes => "yes",
        VoteBucket::No => "no",
        VoteBucket::Abstain => "abstain",
        _ => return None,
    };
    let count = match cell_number(&row.cells, 1) {
        Some(n) => n,
        None => return None,
    };
    Some((position.to_string(), count))
}

/// The vote number a block refers to: compact, paragraph or appendix marker, in that order.
pub open spec fn source_number_of(text: Seq<char>) -> Option<Seq<char>> {
    match compact_vote_number(text) {
        Some(n) => Some(n),
        None => match paragraph_vote_number(text) {
            Some(n) => Some(n),
            None => appendix_vote_number(text),
        },
    }
}

pub fn block_source_number(block: &ReportBlock) -> (r: Option<String>)
    ensures
        r.deep_view() == source_number_of(block.text@),
{
    match parse_compact_vote_number(block.text.as_str()) {
        Some(n) => Some(n),
        None => match parse_paragraph_vote_number(block.text.as_str()) {
            Some(n) => Some(n),
            None => parse_appendix_vote_number(block.text.as_str()),
        },
    }
}

/// The comma-separated names of a paragraph, trimmed, empty ones dropped.
pub open spec fn names_in(text: Seq<char>) -> Seq<Seq<char>> {
    crate::text::split(text, ',').map_values(|s: Seq<char>| trim(s)).filter(|s: Seq<char>| s.len() > 0)
}

fn push_names(names: &mut Vec<String>, text: &str)
    ensures
        final(names).deep_view() == old(names).deep_view() + names_in(text@),
{
    let parts = split_str(text, ',');
    let ghost trimmed = parts.deep_view().map_values(|s: Seq<char>| trim(s));
    let ghost base = names.deep_view();
    let mut i: usize = 0;
    while i < parts.len()
        invariant
            i <= parts.len(),
            trimmed == parts.deep_view().map_values(|s: Seq<char>| trim(s)),
            parts.deep_view() == crate::text::split(text@, ','),
            names.deep_view() == base + trimmed.take(i as int).filter(|s: Seq<char>| s.len() > 0),
        decreases parts.len() - i,
    {
        let t = trim_str(parts[i].as_str());
        let ghost pred = |s: Seq<char>| s.len() > 0;
        proof {
            assert(t@ == trimmed[i as int]);
            reveal(Seq::filter);
            assert(trimmed.take(i + 1).drop_last() =~= trimmed.take(i as int));
            assert(trimmed.take(i + 1).last() == trimmed[i as int]);
            if t@.len() > 0 {
                assert(trimmed.take(i + 1).filter(pred) == trimmed.take(i as int).filter(pred).push(t@));
            } else {
                assert(trimmed.take(i + 1).filter(pred) == trimmed.take(i as int).filter(pred));
            }
        }
        if !t.as_str().is_empty() {
            let ghost before = names.deep_view();
            names.push(t);
            assert(names.deep_view() =~= before.push(t@));
            assert(names.deep_view() =~= base + trimmed.take(i + 1).filter(pred));
        } else {
            assert(names.deep_view() =~= base + trimmed.take(i + 1).filter(pred));
        }
        i = i + 1;
    }
    assert(trimmed.take(parts.len() as int) =~= trimmed);
}

/// Every block index leaves room for the half-open span `[index, index + 1)`.
pub open spec fn indices_below_max(blocks: Seq<ReportBlock>) -> bool {
    forall|i: int| 0 <= i < blocks.len() ==> (#[trigger] blocks[i]).index < u32::MAX
}

/// An appendix bucket's blocks leave room for one-block spans.
pub open spec fn bucket_small(b: AppendixBucket) -> bool {
    &&& b.count_block < u32::MAX
    &&& forall|k: int| 0 <= k < b.name_blocks@.len() ==> #[trigger] b.name_blocks@[k] < u32::MAX
}

/// `n` is the index of a voter-name paragraph after `start`.
pub open spec fn name_block_ok(blocks: Seq<ReportBlock>, start: int, n: u32) -> bool {
    exists|j: int|
        #![trigger blocks[j]]
        start < j < blocks.len() && blocks[j].tag == BlockTag::P && blocks[j].index == n
            && voter_names(blocks[j].text@)
}

/// What every appendix bucket satisfies: a yes/no/abstain position counted in a table block
/// after `start`, names taken only from voter-name paragraphs after that table.
pub open spec fn appendix_bucket_ok(blocks: Seq<ReportBlock>, start: int, b: AppendixBucket) -> bool {
    &&& (b.position@ == "yes"@ || b.position@ == "no"@ || b.position@ == "abstain"@)
    &&& exists|t: int|
        #![trigger blocks[t]]
        start < t < blocks.len() && blocks[t].index == b.count_block
            && blocks[t].table_rows is Some && (exists|r: int|
            0 <= r < blocks[t].table_rows->0@.len() && #[trigger] appendix_bucket_row(
                blocks[t].table_rows->0@[r],
            ) == Some((b.position@, b.count)))
    &&& forall|k: int| 0 <= k < b.name_blocks@.len() ==> name_block_ok(blocks, start, #[trigger] b.name_blocks@[k])
    &&& forall|k: int| 0 <= k < b.names@.len() ==> (#[trigger] b.names@[k])@.len() > 0
}

/// An appendix bucket as plain values: position, count, names, count block, name blocks.
pub type BucketView = (Seq<char>, u32, Seq<Seq<char>>, u32, Seq<u32>);

pub open spec fn bucket_view(b: AppendixBucket) -> BucketView {
    (b.position@, b.count, b.names.deep_view(), b.count_block, b.name_blocks@)
}

pub open spec fn buckets_view(bs: Seq<AppendixBucket>) -> Seq<BucketView> {
    bs.map_values(|b: AppendixBucket| bucket_view(b))
}

/// A block that ends a run of voter-name paragraphs (besides a block that is not one).
pub open spec fn names_stop(b: ReportBlock) -> bool {
    b.tag == BlockTag::Table || appendix_vote_number(b.text@) is Some || electronic_count_number(b.text@) is Some
}

/// The run of voter-name paragraphs from block `j` on: their names, their block indices, and
/// the index of the first block after the run.
pub open spec fn names_scan(blocks: Seq<ReportBlock>, j: int) -> (Seq<Seq<char>>, Seq<u32>, int)
    decreases blocks.len() - j,
{
    if j < 0 || j >= blocks.len() {
        (Seq::empty(), Seq::empty(), j)
    } else {
        let b = blocks[j];
        if !names_stop(b) && b.tag == BlockTag::P && voter_names(b.text@) {
            let rest = names_scan(blocks, j + 1);
            (names_in(b.text@) + rest.0, seq![b.index] + rest.1, rest.2)
        } else {
            (Seq::empty(), Seq::empty(), j)
        }
    }
}

/// The buckets of the rows `r..` of the table at `table_idx`: each bucket row takes the run
/// of voter names after the current position `idx`, and the position moves to the last
/// block of that run.
pub open spec fn rows_scan(
    blocks: Seq<ReportBlock>,
    table_idx: int,
    rows: Seq<TableRow>,
    r: int,
    idx: int,
    acc: Seq<BucketView>,
) -> (Seq<BucketView>, int)
    decreases rows.len() - r,
{
    if r < 0 || r >= rows.len() {
        (acc, idx)
    } else {
        match appendix_bucket_row(rows[r]) {
            Some((p, c)) => {
                let n = names_scan(blocks, idx + 1);
                rows_scan(blocks, table_idx, rows, r + 1, n.2 - 1, acc.push((p, c, n.0, blocks[table_idx].index, n.1)))
            },
            None => rows_scan(blocks, table_idx, rows, r + 1, idx, acc),
        }
    }
}

/// The buckets found from block `idx` on, after those of `acc`, up to an H1, appendix header
/// or electronic-count header.
pub open spec fn appendix_scan(blocks: Seq<ReportBlock>, idx: int, acc: Seq<BucketView>) -> Seq<BucketView>
    decreases blocks.len() - idx,
{
    if idx < 0 || idx >= blocks.len() {
        acc
    } else {
        let b = blocks[idx];
        if b.tag == BlockTag::H1 || appendix_vote_number(b.text@) is Some || electronic_count_number(b.text@) is Some {
            acc
        } else {
            match b.table_rows {
                Some(rows) => {
                    let (acc2, idx2) = rows_scan(blocks, idx, rows@, 0, idx, acc);
                    if idx2 < idx || idx2 >= blocks.len() {
                        acc2
                    } else {
                        appendix_scan(blocks, idx2 + 1, acc2)
                    }
                },
                None => appendix_scan(blocks, idx + 1, acc),
            }
        }
    }
}

proof fn lemma_names_scan_end(blocks: Seq<ReportBlock>, j: int)
    requires
        0 <= j,
    ensures
        j <= names_scan(blocks, j).2,
        names_scan(blocks, j).2 <= if j < blocks.len() { blocks.len() as int } else { j },
    decreases blocks.len() - j,
{
    if j < blocks.len() {
        lemma_names_scan_end(blocks, j + 1);
    }
}

/// Appendix buckets (yes/no/abstain counts with their voter names) after the appendix
/// header at `start`, up to the next H1, appendix header or electronic-count header.
pub fn parse_appendix_from_blocks(blocks: &[ReportBlock], start: usize, _vote_number: &str) -> (r: Vec<
    AppendixBucket,
>)
    ensures
        forall|k: int| 0 <= k < r@.len() ==> appendix_bucket_ok(blocks@, start as int, #[trigger] r@[k]),
        indices_below_max(blocks@) ==> forall|k: int| 0 <= k < r@.len() ==> bucket_small(#[trigger] r@[k]),
        buckets_view(r@) == if start < blocks@.len() {
            appendix_scan(blocks@, start + 1, Seq::empty())
        } else {
            Seq::empty()
        },
{
    let mut buckets: Vec<AppendixBucket> = Vec::new();
    if start >= blocks.len() {
        assert(buckets_view(buckets@) =~= Seq::<BucketView>::empty());
        return buckets;
    }
    let mut idx: usize = start + 1;
    assert(buckets_view(buckets@) =~= Seq::<BucketView>::empty());
    while idx < blocks.len()
        invariant
            start < blocks.len(),
            start < idx,
            forall|k: int| 0 <= k < buckets@.len() ==> appendix_bucket_ok(blocks@, start as int, #[trigger] buckets@[k]),
            indices_below_max(blocks@) ==> forall|k: int| 0 <= k < buckets@.len() ==> bucket_small(#[trigger] buckets@[k]),
            appendix_scan(blocks@, start + 1, Seq::empty()) == appendix_scan(blocks@, idx as int, buckets_view(buckets@)),
        ensures
            forall|k: int| 0 <= k < buckets@.len() ==> appendix_bucket_ok(blocks@, start as int, #[trigger] buckets@[k]),
            indices_below_max(blocks@) ==> forall|k: int| 0 <= k < buckets@.len() ==> bucket_small(#[trigger] buckets@[k]),
            appendix_scan(blocks@, start + 1, Seq::empty()) == buckets_view(buckets@),
        decreases blocks.len() - idx,
    {
        let block = &blocks[idx];
        if block.tag == BlockTag::H1 {
            break;
        }
        if parse_appendix_vote_number(block.text.as_str()).is_some() {
            break;
        }
        if parse_electronic_count_number(block.text.as_str()).is_some() {
            break;
        }
        let table_idx = idx;
        let ghost acc0 = buckets_view(buckets@);
        match &block.table_rows {
            Some(rows) => {
                let mut r: usize = 0;
                while r < rows.len()
                    invariant
                        start < table_idx < blocks.len(),
                        start < idx,
                        table_idx <= idx,
                        idx < blocks.len(),
                        blocks@[table_idx as int].table_rows == Some(*rows),
                        *block == blocks@[table_idx as int],
                        forall|k: int| 0 <= k < buckets@.len() ==> appendix_bucket_ok(blocks@, start as int, #[trigger] buckets@[k]),
                        indices_below_max(blocks@) ==> forall|k: int| 0 <= k < buckets@.len() ==> bucket_small(#[trigger] buckets@[k]),
                        rows_scan(blocks@, table_idx as int, rows@, 0, table_idx as int, acc0) == rows_scan(
                            blocks@,
                            table_idx as int,
                            rows@,
                            r as int,
                            idx as int,
                            buckets_view(buckets@),
                        ),
                    decreases rows.len() - r,
                {
                    match parse_appendix_bucket_row(&rows[r]) {
                        Some((position, count)) => {
                            let mut names: Vec<String> = Vec::new();
                            let mut name_blocks: Vec<u32> = Vec::new();
                            let mut name_idx: usize = idx + 1;
                            let ghost n0 = names_scan(blocks@, idx + 1);
                            proof {
                                assert(names.deep_view() =~= Seq::<Seq<char>>::empty());
                                assert(Seq::<Seq<char>>::empty() + n0.0 =~= n0.0);
                                assert(Seq::<u32>::empty() + n0.1 =~= n0.1);
                            }
                            while name_idx < blocks.len()
                                invariant
                                    start < idx < name_idx,
                                    name_idx <= blocks.len(),
                                    forall|k: int| 0 <= k < names@.len() ==> (#[trigger] names@[k])@.len() > 0,
                                    forall|k: int|
                                        0 <= k < name_blocks@.len() ==> name_block_ok(blocks@, start as int, #[trigger] name_blocks@[k]),
                                    indices_below_max(blocks@) ==> forall|k: int| 0 <= k < name_blocks@.len() ==> #[trigger] name_blocks@[k] < u32::MAX,
                                    n0 == names_scan(blocks@, idx + 1),
                                    names.deep_view() + names_scan(blocks@, name_idx as int).0 == n0.0,
                                    name_blocks@ + names_scan(blocks@, name_idx as int).1 == n0.1,
                                    names_scan(blocks@, name_idx as int).2 == n0.2,
                                ensures
                                    start < idx < name_idx <= blocks.len(),
                                    forall|k: int| 0 <= k < names@.len() ==> (#[trigger] names@[k])@.len() > 0,
                                    forall|k: int|
                                        0 <= k < name_blocks@.len() ==> name_block_ok(blocks@, start as int, #[trigger] name_blocks@[k]),
                                    indices_below_max(blocks@) ==> forall|k: int| 0 <= k < name_blocks@.len() ==> #[trigger] name_blocks@[k] < u32::MAX,
                                    names.deep_view() == n0.0,
                                    name_blocks@ == n0.1,
                                    name_idx == n0.2,
                                decreases blocks.len() - name_idx,
                            {
                                let name_block = &blocks[name_idx];
                                if name_block.tag == BlockTag::Table || parse_appendix_vote_number(
                                    name_block.text.as_str(),
                                ).is_some() || parse_electronic_count_number(
                                    name_block.text.as_str(),
                                ).is_some() {
                                    proof {
                                        assert(names.deep_view() + Seq::<Seq<char>>::empty() =~= names.deep_view());
                                        assert(name_blocks@ + Seq::<u32>::empty() =~= name_blocks@);
                                    }
                                    break;
                                }
                                if name_block.tag == BlockTag::P && looks_like_voter_names(
                                    name_block.text.as_str(),
                                ) {
                                    let ghost nb_before = name_blocks@;
                                    name_blocks.push(name_block.index);
                                    let ghost before = names.deep_view();
                                    push_names(&mut names, name_block.text.as_str());
                                    proof {
                                        let ghost added = names_in(name_block.text@);
                                        assert(names.deep_view() == before + added);
                                        assert forall|k: int| 0 <= k < names@.len() implies (#[trigger] names@[k])@.len() > 0 by {
                                            assert(names.deep_view()[k] == names@[k]@);
                                            if k >= before.len() {
                                                assert(names.deep_view()[k] == added[k - before.len()]);
                                                crate::text::split(name_block.text@, ',').map_values(|s: Seq<char>| trim(s)).lemma_filter_pred(|s: Seq<char>| s.len() > 0, k - before.len());
                                            } else {
                                                assert(names.deep_view()[k] == before[k]);
                                            }
                                        }
                                        assert(blocks@[name_idx as int].index == name_blocks@[name_blocks@.len() - 1]);
                                        assert(name_block_ok(blocks@, start as int, name_blocks@[name_blocks@.len() - 1]));
                                        let rest = names_scan(blocks@, name_idx + 1);
                                        assert(names_scan(blocks@, name_idx as int) == (added + rest.0, seq![name_block.index] + rest.1, rest.2));
                                        assert(before + (added + rest.0) =~= (before + added) + rest.0);
                                        assert(nb_before + (seq![name_block.index] + rest.1) =~= name_blocks@ + rest.1);
                                    }
                                    name_idx = name_idx + 1;
                                } else {
                                    proof {
                                        assert(names.deep_view() + Seq::<Seq<char>>::empty() =~= names.deep_view());
                                        assert(name_blocks@ + Seq::<u32>::empty() =~= name_blocks@);
                                    }
                                    break;
                                }
                            }
                            proof {
                                if name_idx >= blocks.len() {
                                    assert(names.deep_view() + Seq::<Seq<char>>::empty() =~= names.deep_view());
                                    assert(name_blocks@ + Seq::<u32>::empty() =~= name_blocks@);
                                }
                                assert(appendix_bucket_row(rows@[r as int]) == Some((position@, count)));
                            }
                            let bucket = AppendixBucket {
                                position,
                                count,
                                names,
                                count_block: block.index,
                                name_blocks,
                            };
                            proof {
                                let rs = blocks@[table_idx as int].table_rows->0@;
                                assert(rs[r as int] == rows@[r as int]);
                                assert(appendix_bucket_row(rs[r as int]) == Some((bucket.position@, bucket.count)));
                                assert(blocks@[table_idx as int].index == bucket.count_block);
                                assert(forall|k: int| 0 <= k < bucket.names@.len() ==> (#[trigger] bucket.names@[k])@.len() > 0);
                                assert(bucket.position@ == "yes"@ || bucket.position@ == "no"@ || bucket.position@ == "abstain"@);
                                assert(exists|t: int|
                                    #![trigger blocks@[t]]
                                    start < t < blocks@.len() && blocks@[t].index == bucket.count_block
                                        && blocks@[t].table_rows is Some && (exists|r: int|
                                        0 <= r < blocks@[t].table_rows->0@.len() && #[trigger] appendix_bucket_row(
                                            blocks@[t].table_rows->0@[r],
                                        ) == Some((bucket.position@, bucket.count))));
                            }
                            assert(appendix_bucket_ok(blocks@, start as int, bucket));
                            assert(indices_below_max(blocks@) ==> bucket.count_block == blocks@[table_idx as int].index && bucket.count_block < u32::MAX);
                            let ghost bv_before = buckets_view(buckets@);
                            let ghost bk = bucket_view(bucket);
                            buckets.push(bucket);
                            proof {
                                assert(buckets_view(buckets@) =~= bv_before.push(bk));
                                assert(bk == (position@, count, n0.0, blocks@[table_idx as int].index, n0.1));
                            }
                            idx = name_idx - 1;
                        },
                        None => {},
                    }
                    r = r + 1;
                }
                proof {
                    assert(appendix_scan(blocks@, table_idx as int, acc0) == appendix_scan(blocks@, idx + 1, buckets_view(buckets@)));
                }
            },
            None => {},
        }
        idx = idx + 1;
    }
    buckets
}

} // verus!
