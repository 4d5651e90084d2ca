//! Ordered blocks of a meeting report (headings, paragraphs, tables) and the
//! table helpers that the vote parsers read them with.
use vstd::prelude::*;
use crate::text::{
    decimal, join, join_strs, parse_u32, parse_u32_str, push_char, push_str, replace, replace_char_str, str_eq,
    trim, trim_str, words, words_str,
};
use crate::utils::{clean_text, clean_text_spec};
use crate::artifact_id::{content_hash, hex_lower, sha256};
use vstd::utf8::encode_utf8;
use crate::json::{
    json_array, json_bool, json_member, json_object, json_opt_string, json_string, lemma_join_take_step,
    push_json_bool, push_json_key, push_json_opt_string, push_json_string, push_json_u32,
};

verus! {

#[derive(Debug, Clone, Copy, PartialEq, Eq, Structural)]
pub enum BlockTag {
    H1,
    H2,
    P,
    Table,
}

impl BlockTag {
    pub open spec fn name(self) -> Seq<char> {
        match self {
            BlockTag::H1 => "h1"@,
            BlockTag::H2 => "h2"@,
            BlockTag::P => "p"@,
            BlockTag::Table => "table"@,
        }
    }

    pub fn as_str(self) -> (r: &'static str)
        ensures
            r@ == self.name(),
    {
        match self {
            BlockTag::H1 => "h1",
            BlockTag::H2 => "h2",
            BlockTag::P => "p",
            BlockTag::Table => "table",
        }
    }
}

pub struct InlineSpan {
    pub lang: Option<String>,
    pub text: String,
}

pub struct TableCell {
    pub text: String,
    pub colspan: u32,
}

pub struct TableRow {
    pub cells: Vec<TableCell>,
}

pub struct ReportBlock {
    pub index: u32,
    pub tag: BlockTag,
    /// Full normalized text for QA coverage and search.
    pub text: String,
    pub inlines: Vec<InlineSpan>,
    pub table_rows: Option<Vec<TableRow>>,
    pub lang: Option<String>,
    pub class: Option<String>,
    pub has_oraspr: bool,
    pub content_hash: String,
    pub word_count: u32,
}

impl Clone for InlineSpan {
    fn clone(&self) -> (r: Self)
        ensures
            r == *self,
    {
        InlineSpan { lang: self.lang.clone(), text: self.text.clone() }
    }
}

impl Clone for TableCell {
    fn clone(&self) -> (r: Self)
        ensures
            r == *self,
    {
        TableCell { text: self.text.clone(), colspan: self.colspan }
    }
}

impl Clone for TableRow {
    fn clone(&self) -> (r: Self)
        ensures
            r.cells@ == self.cells@,
    {
        let cells = self.cells.clone();
        assert(cells@ =~= self.cells@);
        TableRow { cells }
    }
}

/// The non-empty texts among `cells`, in order.
pub open spec fn nonempty_cell_texts(cells: Seq<TableCell>) -> Seq<Seq<char>>
    decreases cells.len(),
{
    if cells.len() == 0 {
        Seq::empty()
    } else {
        nonempty_cell_texts(cells.drop_last()) + if cells.last().text@.len() > 0 {
            seq![cells.last().text@]
        } else {
            Seq::empty()
        }
    }
}

/// The non-empty cell texts of all rows, row by row.
pub open spec fn nonempty_row_texts(rows: Seq<TableRow>) -> Seq<Seq<char>>
    decreases rows.len(),
{
    if rows.len() == 0 {
        Seq::empty()
    } else {
        nonempty_row_texts(rows.drop_last()) + nonempty_cell_texts(rows.last().cells@)
    }
}

/// Plain text of a table: the non-empty cell texts joined by single spaces.
pub open spec fn table_text(rows: Seq<TableRow>) -> Seq<char> {
    join(nonempty_row_texts(rows), " "@)
}

pub fn table_rows_text(rows: &[TableRow]) -> (r: String)
    ensures
        r@ == table_text(rows@),
{
    let mut parts: Vec<String> = Vec::new();
    let mut i: usize = 0;
    while i < rows.len()
        invariant
            i <= rows.len(),
            parts.deep_view() == nonempty_row_texts(rows@.take(i as int)),
        decreases rows.len() - i,
    {
        let cells = &rows[i].cells;
        let ghost base = parts.deep_view();
        let mut j: usize = 0;
        while j < cells.len()
            invariant
                j <= cells.len(),
                *cells == rows@[i as int].cells,
                parts.deep_view() == base + nonempty_cell_texts(cells@.take(j as int)),
            decreases cells.len() - j,
        {
            proof {
                assert(cells@.take(j + 1).drop_last() =~= cells@.take(j as int));
            }
            if !cells[j].text.as_str().is_empty() {
                let ghost before = parts.deep_view();
                parts.push(cells[j].text.clone());
                assert(parts.deep_view() =~= before.push(cells[j as int].text@));
                assert(parts.deep_view() =~= base + nonempty_cell_texts(cells@.take(j + 1)));
            } else {
                assert(nonempty_cell_texts(cells@.take(j + 1)) =~= nonempty_cell_texts(cells@.take(j as int)));
            }
            j = j + 1;
        }
        proof {
            assert(cells@.take(cells@.len() as int) =~= cells@);
            assert(rows@.take(i + 1).drop_last() =~= rows@.take(i as int));
        }
        i = i + 1;
    }
    proof {
        assert(rows@.take(rows@.len() as int) =~= rows@);
    }
    join_strs(&parts, " ")
}

pub open spec fn cell_texts(cells: Seq<TableCell>) -> Seq<Seq<char>> {
    cells.map_values(|c: TableCell| c.text@)
}

/// The text of every cell of `row`, in order.
pub fn table_row_labels(row: &TableRow) -> (r: Vec<String>)
    ensures
        r.deep_view() == cell_texts(row.cells@),
{
    let mut out: Vec<String> = Vec::new();
    let mut i: usize = 0;
    while i < row.cells.len()
        invariant
            i <= row.cells.len(),
            out.deep_view() == cell_texts(row.cells@.take(i as int)),
        decreases row.cells.len() - i,
    {
        let ghost before = out.deep_view();
        out.push(row.cells[i].text.clone());
        assert(row.cells@.take(i + 1) =~= row.cells@.take(i as int).push(row.cells@[i as int]));
        assert(cell_texts(row.cells@.take(i + 1)) =~= cell_texts(row.cells@.take(i as int)).push(row.cells@[i as int].text@));
        assert(out.deep_view() =~= cell_texts(row.cells@.take(i + 1)));
        i = i + 1;
    }
    assert(row.cells@.take(row.cells@.len() as int) =~= row.cells@);
    out
}

/// The cells of `row` whose trimmed text parses as a `u32`, as numbers.
pub open spec fn numeric_cells(cells: Seq<TableCell>) -> Seq<u32>
    decreases cells.len(),
{
    if cells.len() == 0 {
        Seq::empty()
    } else {
        numeric_cells(cells.drop_last()) + match parse_u32(trim(cells.last().text@)) {
            Some(v) => seq![v],
            None => Seq::empty(),
        }
    }
}

pub fn table_row_numeric_cells(row: &TableRow) -> (r: Vec<u32>)
    ensures
        r@ == numeric_cells(row.cells@),
{
    let mut out: Vec<u32> = Vec::new();
    let mut i: usize = 0;
    while i < row.cells.len()
        invariant
            i <= row.cells.len(),
            out@ == numeric_cells(row.cells@.take(i as int)),
        decreases row.cells.len() - i,
    {
        proof {
            assert(row.cells@.take(i + 1).drop_last() =~= row.cells@.take(i as int));
        }
        let t = trim_str(row.cells[i].text.as_str());
        match parse_u32_str(t.as_str()) {
            Some(v) => {
                out.push(v);
            },
            None => {},
        }
        assert(out@ =~= numeric_cells(row.cells@.take(i + 1)));
        i = i + 1;
    }
    assert(row.cells@.take(row.cells@.len() as int) =~= row.cells@);
    out
}

/// `{"lang":…,"text":…}`.
pub open spec fn inline_json(s: InlineSpan) -> Seq<char> {
    json_object(seq![json_member("lang"@, json_opt_string(s.lang.deep_view())), json_member("text"@, json_string(s.text@))])
}

pub open spec fn inlines_json(v: Seq<InlineSpan>) -> Seq<char> {
    json_array(v.map_values(|s: InlineSpan| inline_json(s)))
}

/// `{"colspan":…,"text":…}`.
pub open spec fn cell_json(c: TableCell) -> Seq<char> {
    json_object(seq![json_member("colspan"@, decimal(c.colspan as nat)), json_member("text"@, json_string(c.text@))])
}

/// `{"cells":[…]}`.
pub open spec fn row_json(r: TableRow) -> Seq<char> {
    json_object(seq![json_member("cells"@, json_array(r.cells@.map_values(|c: TableCell| cell_json(c))))])
}

/// The rows of a table as a JSON array; `null` for a block that is no table.
pub open spec fn rows_json(o: Option<Seq<TableRow>>) -> Seq<char> {
    match o {
        Some(rows) => json_array(rows.map_values(|r: TableRow| row_json(r))),
        None => "null"@,
    }
}

pub open spec fn table_rows_view(o: Option<Vec<TableRow>>) -> Option<Seq<TableRow>> {
    match o {
        Some(v) => Some(v@),
        None => None,
    }
}

fn push_inline_json(out: &mut String, s: &InlineSpan)
    ensures
        final(out)@ == old(out)@ + inline_json(*s),
{
    push_char(out, '{');
    push_json_key(out, "lang");
    push_json_opt_string(out, &s.lang);
    push_char(out, ',');
    push_json_key(out, "text");
    push_json_string(out, s.text.as_str());
    push_char(out, '}');
    proof {
        let m = seq![json_member("lang"@, json_opt_string(s.lang.deep_view())), json_member("text"@, json_string(s.text@))];
        assert(m.drop_last() =~= seq![m[0]]);
        assert(join(m.drop_last(), seq![',']) == m[0]);
        assert(m.last() == m[1]);
        assert(join(m, seq![',']) == m[0] + seq![','] + m[1]);
    }
    assert(out@ =~= old(out)@ + inline_json(*s));
}

/// Appends the JSON array of a block's inline spans.
pub fn push_inlines_json(out: &mut String, v: &Vec<InlineSpan>)
    ensures
        final(out)@ == old(out)@ + inlines_json(v@),
{
    let ghost items = v@.map_values(|s: InlineSpan| inline_json(s));
    push_char(out, '[');
    let mut i: usize = 0;
    while i < v.len()
        invariant
            i <= v@.len(),
            items == v@.map_values(|s: InlineSpan| inline_json(s)),
            out@ == old(out)@ + seq!['['] + join(items.take(i as int), seq![',']),
        decreases v.len() - i,
    {
        proof {
            lemma_join_take_step(items, seq![','], i as int);
        }
        let ghost before = out@;
        if i > 0 {
            push_char(out, ',');
        }
        push_inline_json(out, &v[i]);
        assert(items[i as int] == inline_json(v@[i as int]));
        if i == 0 {
            assert(out@ =~= old(out)@ + seq!['['] + join(items.take(i + 1), seq![',']));
        } else {
            assert(out@ =~= old(out)@ + seq!['['] + join(items.take(i + 1), seq![',']));
        }
        i = i + 1;
    }
    assert(items.take(v@.len() as int) =~= items);
    push_char(out, ']');
    assert(out@ =~= old(out)@ + inlines_json(v@));
}

fn push_cell_json(out: &mut String, c: &TableCell)
    ensures
        final(out)@ == old(out)@ + cell_json(*c),
{
    push_char(out, '{');
    push_json_key(out, "colspan");
    push_json_u32(out, c.colspan);
    push_char(out, ',');
    push_json_key(out, "text");
    push_json_string(out, c.text.as_str());
    push_char(out, '}');
    proof {
        let m = seq![json_member("colspan"@, decimal(c.colspan as nat)), json_member("text"@, json_string(c.text@))];
        assert(m.drop_last() =~= seq![m[0]]);
        assert(join(m.drop_last(), seq![',']) == m[0]);
        assert(m.last() == m[1]);
        assert(join(m, seq![',']) == m[0] + seq![','] + m[1]);
    }
    assert(out@ =~= old(out)@ + cell_json(*c));
}

fn push_row_json(out: &mut String, r: &TableRow)
    ensures
        final(out)@ == old(out)@ + row_json(*r),
{
    let ghost items = r.cells@.map_values(|c: TableCell| cell_json(c));
    push_char(out, '{');
    push_json_key(out, "cells");
    let ghost start = out@;
    push_char(out, '[');
    let mut i: usize = 0;
    while i < r.cells.len()
        invariant
            i <= r.cells@.len(),
            items == r.cells@.map_values(|c: TableCell| cell_json(c)),
            out@ == start + seq!['['] + join(items.take(i as int), seq![',']),
        decreases r.cells.len() - i,
    {
        proof {
            lemma_join_take_step(items, seq![','], i as int);
        }
        if i > 0 {
            push_char(out, ',');
        }
        push_cell_json(out, &r.cells[i]);
        assert(items[i as int] == cell_json(r.cells@[i as int]));
        assert(out@ =~= start + seq!['['] + join(items.take(i + 1), seq![',']));
        i = i + 1;
    }
    assert(items.take(r.cells@.len() as int) =~= items);
    push_char(out, ']');
    push_char(out, '}');
    proof {
        let m = seq![json_member("cells"@, json_array(items))];
        assert(join(m, seq![',']) == m[0]);
    }
    assert(out@ =~= old(out)@ + row_json(*r));
}

/// Appends the JSON array of a table's rows, or `null`.
pub fn push_rows_json(out: &mut String, o: &Option<Vec<TableRow>>)
    ensures
        final(out)@ == old(out)@ + rows_json(table_rows_view(*o)),
{
    match o {
        None => {
            push_str(out, "null");
        },
        Some(rows) => {
            let ghost items = rows@.map_values(|r: TableRow| row_json(r));
            push_char(out, '[');
            let mut i: usize = 0;
            while i < rows.len()
                invariant
                    i <= rows@.len(),
                    items == rows@.map_values(|r: TableRow| row_json(r)),
                    out@ == old(out)@ + seq!['['] + join(items.take(i as int), seq![',']),
                decreases rows.len() - i,
            {
                proof {
                    lemma_join_take_step(items, seq![','], i as int);
                }
                if i > 0 {
                    push_char(out, ',');
                }
                push_row_json(out, &rows[i]);
                assert(items[i as int] == row_json(rows@[i as int]));
                assert(out@ =~= old(out)@ + seq!['['] + join(items.take(i + 1), seq![',']));
                i = i + 1;
            }
            assert(items.take(rows@.len() as int) =~= items);
            push_char(out, ']');
            assert(out@ =~= old(out)@ + rows_json(table_rows_view(*o)));
        },
    }
}

// ---------------------------------------------------------------------------
// Blocks from the elements of a report page
// ---------------------------------------------------------------------------

/// A `span` of a block element: its `lang` attribute and its text nodes, in order.
pub struct HtmlSpan {
    pub lang: Option<String>,
    pub texts: Vec<String>,
}

/// A `td` or `th` of a table row: its text nodes and its `colspan` attribute.
pub struct HtmlCell {
    pub texts: Vec<String>,
    pub colspan: Option<String>,
}

/// An `h1`, `h2`, `p` or `table` element of a report page, in document order, as plain
/// values: its name, whether a `table` encloses it, its text nodes, its `lang` and `class`
/// attributes, whether it holds a `span.oraspr`, its `span`s and its rows (`tr`, each with
/// its `td`/`th` cells).
pub struct HtmlElement {
    pub name: String,
    pub inside_table: bool,
    pub texts: Vec<String>,
    pub lang: Option<String>,
    pub class: Option<String>,
    pub has_oraspr: bool,
    pub spans: Vec<HtmlSpan>,
    pub rows: Vec<Vec<HtmlCell>>,
}

pub open spec fn tag_of(name: Seq<char>) -> Option<BlockTag> {
    if name == "h1"@ {
        Some(BlockTag::H1)
    } else if name == "h2"@ {
        Some(BlockTag::H2)
    } else if name == "p"@ {
        Some(BlockTag::P)
    } else if name == "table"@ {
        Some(BlockTag::Table)
    } else {
        None
    }
}

/// Text nodes joined by spaces and cleaned.
pub open spec fn node_text(texts: Seq<Seq<char>>) -> Seq<char> {
    clean_text_spec(join(texts, seq![' ']))
}

/// The inline spans of an element as (language, text): every `span` with text; when none
/// has any, the whole element, if it has text.
pub open spec fn span_views(spans: Seq<HtmlSpan>) -> Seq<(Option<Seq<char>>, Seq<char>)>
    decreases spans.len(),
{
    if spans.len() == 0 {
        Seq::empty()
    } else {
        let prev = span_views(spans.drop_last());
        let t = node_text(spans.last().texts.deep_view());
        if t.len() > 0 { prev.push((spans.last().lang.deep_view(), t)) } else { prev }
    }
}

pub open spec fn inline_views_of(e: HtmlElement) -> Seq<(Option<Seq<char>>, Seq<char>)> {
    let from_spans = span_views(e.spans@);
    if from_spans.len() > 0 {
        from_spans
    } else if node_text(e.texts.deep_view()).len() > 0 {
        seq![(e.lang.deep_view(), node_text(e.texts.deep_view()))]
    } else {
        Seq::empty()
    }
}

pub open spec fn inline_views(v: Seq<InlineSpan>) -> Seq<(Option<Seq<char>>, Seq<char>)> {
    v.map_values(|s: InlineSpan| (s.lang.deep_view(), s.text@))
}

/// A cell as (colspan, text): the `colspan` attribute when it parses, else 1.
pub open spec fn cell_view_of(c: HtmlCell) -> (u32, Seq<char>) {
    let span = match c.colspan {
        Some(a) => match parse_u32(a@) {
            Some(n) => n,
            None => 1u32,
        },
        None => 1u32,
    };
    (span, node_text(c.texts.deep_view()))
}

pub open spec fn cells_view_of(cells: Seq<HtmlCell>) -> Seq<(u32, Seq<char>)> {
    cells.map_values(|c: HtmlCell| cell_view_of(c))
}

/// The rows of a table element: every `tr` that has cells.
pub open spec fn row_views_of(rows: Seq<Vec<HtmlCell>>) -> Seq<Seq<(u32, Seq<char>)>>
    decreases rows.len(),
{
    if rows.len() == 0 {
        Seq::empty()
    } else {
        let prev = row_views_of(rows.drop_last());
        if rows.last()@.len() > 0 { prev.push(cells_view_of(rows.last()@)) } else { prev }
    }
}

pub open spec fn table_cell_views(rows: Seq<TableRow>) -> Seq<Seq<(u32, Seq<char>)>> {
    rows.map_values(|r: TableRow| r.cells@.map_values(|c: TableCell| (c.colspan, c.text@)))
}

/// The text of a block: a table's cell texts, else the element's text nodes.
pub open spec fn element_text(e: HtmlElement, tag: BlockTag, rows: Seq<TableRow>) -> Seq<char> {
    if tag == BlockTag::Table {
        table_text(rows)
    } else {
        clean_text_spec(replace(join(e.texts.deep_view(), seq![' ']), seq!['\n'], seq![' ']))
    }
}

/// The JSON text whose hash identifies a block's content.
pub open spec fn block_canonical_json(b: ReportBlock) -> Seq<char> {
    seq!['{'] + json_member("block_type"@, json_string(b.tag.name())) + seq![',']
        + json_member("class_name"@, json_opt_string(b.class.deep_view())) + seq![',']
        + json_member("has_oraspr"@, json_bool(b.has_oraspr)) + seq![',']
        + json_member("inlines"@, inlines_json(b.inlines@)) + seq![',']
        + json_member("language"@, json_opt_string(b.lang.deep_view())) + seq![',']
        + json_member("table_rows"@, rows_json(table_rows_view(b.table_rows))) + seq![',']
        + json_member("text"@, json_string(b.text@)) + seq!['}']
}

/// `b` is the block read from `e`, numbered `index`.
pub open spec fn block_from_element(b: ReportBlock, e: HtmlElement, index: u32) -> bool {
    &&& tag_of(e.name@) == Some(b.tag)
    &&& b.index == index
    &&& inline_views(b.inlines@) == inline_views_of(e)
    &&& (b.tag == BlockTag::Table <==> b.table_rows is Some)
    &&& (b.table_rows matches Some(rows) ==> table_cell_views(rows@) == row_views_of(e.rows@))
    &&& b.text@ == element_text(e, b.tag, match b.table_rows { Some(rows) => rows@, None => Seq::empty() })
    &&& b.lang.deep_view() == e.lang.deep_view()
    &&& b.class.deep_view() == e.class.deep_view()
    &&& b.has_oraspr == e.has_oraspr
    &&& b.word_count == words(b.text@).len() as u32
    &&& b.content_hash@ == hex_lower(sha256(encode_utf8(block_canonical_json(b))))
}

/// The text that an element would give as a block; empty for an element that is no block.
pub open spec fn element_block_text(e: HtmlElement) -> Seq<char> {
    match tag_of(e.name@) {
        Some(tag) => {
            let cells = row_views_of(e.rows@);
            if tag == BlockTag::Table {
                join(nonempty_texts_of_rows(cells), " "@)
            } else {
                element_text(e, tag, Seq::empty())
            }
        },
        None => Seq::empty(),
    }
}

pub open spec fn nonempty_texts_of_cells(cells: Seq<(u32, Seq<char>)>) -> Seq<Seq<char>>
    decreases cells.len(),
{
    if cells.len() == 0 {
        Seq::empty()
    } else {
        nonempty_texts_of_cells(cells.drop_last()) + if cells.last().1.len() > 0 { seq![cells.last().1] } else { Seq::empty() }
    }
}

pub open spec fn nonempty_texts_of_rows(rows: Seq<Seq<(u32, Seq<char>)>>) -> Seq<Seq<char>>
    decreases rows.len(),
{
    if rows.len() == 0 {
        Seq::empty()
    } else {
        nonempty_texts_of_rows(rows.drop_last()) + nonempty_texts_of_cells(rows.last())
    }
}

/// An element gives a block: it is an `h1`, `h2`, `p` or `table`, it is no paragraph
/// inside a table, and its text is not empty.
pub open spec fn element_kept(e: HtmlElement) -> bool {
    &&& tag_of(e.name@) is Some
    &&& !(tag_of(e.name@) == Some(BlockTag::P) && e.inside_table)
    &&& element_block_text(e).len() > 0
}

/// The non-empty cell texts, read through the cell views.
pub proof fn lemma_row_texts_views(rows: Seq<TableRow>)
    ensures
        nonempty_row_texts(rows) == nonempty_texts_of_rows(table_cell_views(rows)),
    decreases rows.len(),
{
    if rows.len() > 0 {
        lemma_row_texts_views(rows.drop_last());
        assert(table_cell_views(rows.drop_last()) =~= table_cell_views(rows).drop_last());
        lemma_cell_texts_views(rows.last().cells@);
    }
}

pub proof fn lemma_cell_texts_views(cells: Seq<TableCell>)
    ensures
        nonempty_cell_texts(cells) == nonempty_texts_of_cells(cells.map_values(|c: TableCell| (c.colspan, c.text@))),
    decreases cells.len(),
{
    if cells.len() > 0 {
        lemma_cell_texts_views(cells.drop_last());
        assert(cells.drop_last().map_values(|c: TableCell| (c.colspan, c.text@))
            =~= cells.map_values(|c: TableCell| (c.colspan, c.text@)).drop_last());
    }
}

fn node_text_exec(texts: &Vec<String>) -> (r: String)
    ensures
        r@ == node_text(texts.deep_view()),
{
    let joined = join_strs(texts.as_slice(), " ");
    proof {
        reveal_strlit(" ");
        assert(" "@ =~= seq![' ']);
    }
    clean_text(joined.as_str())
}

fn clone_opt(o: &Option<String>) -> (r: Option<String>)
    ensures
        r.deep_view() == o.deep_view(),
{
    match o {
        Some(s) => Some(s.clone()),
        None => None,
    }
}

/// The inline spans of an element.
fn parse_inlines(e: &HtmlElement) -> (r: Vec<InlineSpan>)
    ensures
        inline_views(r@) == inline_views_of(*e),
{
    let mut spans: Vec<InlineSpan> = Vec::new();
    let mut i: usize = 0;
    while i < e.spans.len()
        invariant
            i <= e.spans@.len(),
            inline_views(spans@) == span_views(e.spans@.take(i as int)),
        decreases e.spans.len() - i,
    {
        proof {
            assert(e.spans@.take(i + 1).drop_last() =~= e.spans@.take(i as int));
            assert(e.spans@.take(i + 1).last() == e.spans@[i as int]);
        }
        let text = node_text_exec(&e.spans[i].texts);
        if !text.as_str().is_empty() {
            let ghost before = spans@;
            spans.push(InlineSpan { lang: clone_opt(&e.spans[i].lang), text });
            assert(inline_views(spans@) =~= inline_views(before).push((e.spans@[i as int].lang.deep_view(), text@)));
        }
        i = i + 1;
    }
    assert(e.spans@.take(e.spans@.len() as int) =~= e.spans@);
    if spans.len() == 0 {
        let text = node_text_exec(&e.texts);
        if !text.as_str().is_empty() {
            spans.push(InlineSpan { lang: clone_opt(&e.lang), text });
            assert(inline_views(spans@) =~= seq![(e.lang.deep_view(), node_text(e.texts.deep_view()))]);
        } else {
            assert(inline_views(spans@) =~= Seq::<(Option<Seq<char>>, Seq<char>)>::empty());
        }
    }
    spans
}

fn parse_cell(c: &HtmlCell) -> (r: TableCell)
    ensures
        (r.colspan, r.text@) == cell_view_of(*c),
{
    let text = node_text_exec(&c.texts);
    let colspan: u32 = match &c.colspan {
        Some(a) => match parse_u32_str(a.as_str()) {
            Some(n) => n,
            None => 1,
        },
        None => 1,
    };
    TableCell { text, colspan }
}

/// The rows of a table element.
fn parse_table_rows(e: &HtmlElement) -> (r: Vec<TableRow>)
    ensures
        table_cell_views(r@) == row_views_of(e.rows@),
{
    let mut rows: Vec<TableRow> = Vec::new();
    let mut i: usize = 0;
    while i < e.rows.len()
        invariant
            i <= e.rows@.len(),
            table_cell_views(rows@) == row_views_of(e.rows@.take(i as int)),
        decreases e.rows.len() - i,
    {
        proof {
            assert(e.rows@.take(i + 1).drop_last() =~= e.rows@.take(i as int));
            assert(e.rows@.take(i + 1).last() == e.rows@[i as int]);
        }
        let tr = &e.rows[i];
        let mut cells: Vec<TableCell> = Vec::new();
        let mut j: usize = 0;
        while j < tr.len()
            invariant
                j <= tr@.len(),
                cells@.map_values(|c: TableCell| (c.colspan, c.text@)) == cells_view_of(tr@.take(j as int)),
            decreases tr.len() - j,
        {
            let ghost before = cells@;
            let cell = parse_cell(&tr[j]);
            cells.push(cell);
            assert(cells@.map_values(|c: TableCell| (c.colspan, c.text@))
                =~= before.map_values(|c: TableCell| (c.colspan, c.text@)).push(cell_view_of(tr@[j as int])));
            assert(cells_view_of(tr@.take(j + 1)) =~= cells_view_of(tr@.take(j as int)).push(cell_view_of(tr@[j as int])));
            j = j + 1;
        }
        assert(tr@.take(tr@.len() as int) =~= tr@);
        if cells.len() > 0 {
            let ghost before = rows@;
            rows.push(TableRow { cells });
            assert(table_cell_views(rows@) =~= table_cell_views(before).push(cells_view_of(tr@)));
        }
        i = i + 1;
    }
    assert(e.rows@.take(e.rows@.len() as int) =~= e.rows@);
    rows
}

fn push_member_sep(out: &mut String)
    ensures
        final(out)@ == old(out)@ + seq![','],
{
    push_char(out, ',');
}

/// The JSON text whose hash identifies a block's content.
#[verifier::rlimit(30)]
fn canonical_json(b: &ReportBlock) -> (r: String)
    ensures
        r@ == block_canonical_json(*b),
{
    let mut out = String::new();
    push_char(&mut out, '{');
    let ghost p0 = seq!['{'];
    assert(out@ =~= p0);
    push_json_key(&mut out, "block_type");
    push_json_string(&mut out, b.tag.as_str());
    push_member_sep(&mut out);
    let ghost p1 = p0 + json_member("block_type"@, json_string(b.tag.name())) + seq![','];
    assert(out@ =~= p1);
    push_json_key(&mut out, "class_name");
    push_json_opt_string(&mut out, &b.class);
    push_member_sep(&mut out);
    let ghost p2 = p1 + json_member("class_name"@, json_opt_string(b.class.deep_view())) + seq![','];
    assert(out@ =~= p2);
    push_json_key(&mut out, "has_oraspr");
    push_json_bool(&mut out, b.has_oraspr);
    push_member_sep(&mut out);
    let ghost p3 = p2 + json_member("has_oraspr"@, json_bool(b.has_oraspr)) + seq![','];
    assert(out@ =~= p3);
    push_json_key(&mut out, "inlines");
    push_inlines_json(&mut out, &b.inlines);
    push_member_sep(&mut out);
    let ghost p4 = p3 + json_member("inlines"@, inlines_json(b.inlines@)) + seq![','];
    assert(out@ =~= p4);
    push_json_key(&mut out, "language");
    push_json_opt_string(&mut out, &b.lang);
    push_member_sep(&mut out);
    let ghost p5 = p4 + json_member("language"@, json_opt_string(b.lang.deep_view())) + seq![','];
    assert(out@ =~= p5);
    push_json_key(&mut out, "table_rows");
    push_rows_json(&mut out, &b.table_rows);
    push_member_sep(&mut out);
    let ghost p6 = p5 + json_member("table_rows"@, rows_json(table_rows_view(b.table_rows))) + seq![','];
    assert(out@ =~= p6);
    push_json_key(&mut out, "text");
    push_json_string(&mut out, b.text.as_str());
    push_char(&mut out, '}');
    assert(out@ =~= p6 + json_member("text"@, json_string(b.text@)) + seq!['}']);
    out
}

fn count_words(text: &str) -> (r: u32)
    ensures
        r == words(text@).len() as u32,
{
    let w = words_str(text);
    w.len() as u32
}

/// The blocks of a report page: one per element that `element_kept` admits, numbered
/// from 0 in document order.
pub fn parse_report_blocks(elements: &[HtmlElement]) -> (r: Vec<ReportBlock>)
    requires
        elements@.len() <= u32::MAX,
    ensures
        r@.len() == elements@.filter(|e: HtmlElement| element_kept(e)).len(),
        forall|k: int| 0 <= k < r@.len() ==> block_from_element(
            #[trigger] r@[k],
            elements@.filter(|e: HtmlElement| element_kept(e))[k],
            k as u32,
        ),
{
    let ghost kept = |e: HtmlElement| element_kept(e);
    let mut blocks: Vec<ReportBlock> = Vec::new();
    let mut index: u32 = 0;
    let mut i: usize = 0;
    while i < elements.len()
        invariant
            i <= elements@.len() <= u32::MAX,
            kept == (|e: HtmlElement| element_kept(e)),
            blocks@.len() == elements@.take(i as int).filter(kept).len(),
            index as int == blocks@.len(),
            index <= i,
            forall|k: int| 0 <= k < blocks@.len() ==> block_from_element(
                #[trigger] blocks@[k],
                elements@.take(i as int).filter(kept)[k],
                k as u32,
            ),
        decreases elements.len() - i,
    {
        let e = &elements[i];
        proof {
            reveal(Seq::filter);
            assert(elements@.take(i + 1).drop_last() =~= elements@.take(i as int));
            assert(elements@.take(i + 1).last() == elements@[i as int]);
        }
        let tag: Option<BlockTag> = if str_eq(e.name.as_str(), "h1") {
            Some(BlockTag::H1)
        } else if str_eq(e.name.as_str(), "h2") {
            Some(BlockTag::H2)
        } else if str_eq(e.name.as_str(), "p") {
            Some(BlockTag::P)
        } else if str_eq(e.name.as_str(), "table") {
            Some(BlockTag::Table)
        } else {
            None
        };
        assert(tag == tag_of(e.name@));
        let mut pushed = false;
        match tag {
            Some(tag) => {
                if !(tag == BlockTag::P && e.inside_table) {
                    let inlines = parse_inlines(e);
                    let table_rows: Option<Vec<TableRow>> = if tag == BlockTag::Table {
                        Some(parse_table_rows(e))
                    } else {
                        None
                    };
                    let text = match &table_rows {
                        Some(rows) => table_rows_text(rows.as_slice()),
                        None => {
                            let joined = join_strs(e.texts.as_slice(), " ");
                            proof {
                                reveal_strlit(" ");
                                assert(" "@ =~= seq![' ']);
                            }
                            let mut space = String::new();
                            push_char(&mut space, ' ');
                            let flat = replace_char_str(joined.as_str(), '\n', space.as_str());
                            clean_text(flat.as_str())
                        },
                    };
                    proof {
                        match &table_rows {
                            Some(rows) => {
                                lemma_row_texts_views(rows@);
                                reveal_strlit(" ");
                            },
                            None => {},
                        }
                    }
                    assert(text@ == element_block_text(*e));
                    if !text.as_str().is_empty() {
                        let word_count = count_words(text.as_str());
                        let mut b = ReportBlock {
                            index,
                            tag,
                            text,
                            inlines,
                            table_rows,
                            lang: clone_opt(&e.lang),
                            class: clone_opt(&e.class),
                            has_oraspr: e.has_oraspr,
                            content_hash: String::new(),
                            word_count,
                        };
                        let canonical = canonical_json(&b);
                        b.content_hash = content_hash(canonical.as_str());
                        assert(block_from_element(b, *e, index));
                        let ghost before = blocks@;
                        blocks.push(b);
                        pushed = true;
                        proof {
                            assert(kept(elements@[i as int]));
                            assert(elements@.take(i + 1).filter(kept) == elements@.take(i as int).filter(kept).push(elements@[i as int]));
                            assert forall|k: int| 0 <= k < blocks@.len() implies block_from_element(
                                #[trigger] blocks@[k],
                                elements@.take(i + 1).filter(kept)[k],
                                k as u32,
                            ) by {
                                if k < before.len() {
                                    assert(blocks@[k] == before[k]);
                                }
                            }
                        }
                        index = index + 1;
                    }
                }
            },
            None => {},
        }
        if !pushed {
            assert(!kept(elements@[i as int]));
            assert(elements@.take(i + 1).filter(kept) == elements@.take(i as int).filter(kept));
        }
        i = i + 1;
    }
    assert(elements@.take(elements@.len() as int) =~= elements@);
    blocks
}

/// Block indices of parsed blocks are their positions.
pub proof fn lemma_parsed_block_indices(blocks: Seq<ReportBlock>, elements: Seq<HtmlElement>)
    requires
        elements.len() < 0x7fff_ffff,
        blocks.len() == elements.filter(|e: HtmlElement| element_kept(e)).len(),
        forall|k: int| 0 <= k < blocks.len() ==> block_from_element(
            #[trigger] blocks[k],
            elements.filter(|e: HtmlElement| element_kept(e))[k],
            k as u32,
        ),
    ensures
        crate::vote_events::indices_below_max(blocks),
        blocks.len() < 0x7fff_ffff,
{
    assert forall|i: int| 0 <= i < blocks.len() implies (#[trigger] blocks[i]).index < u32::MAX by {
        assert(block_from_element(blocks[i], elements.filter(|e: HtmlElement| element_kept(e))[i], i as u32));
    }
    elements.lemma_filter_len(|e: HtmlElement| element_kept(e));
}

/// `blocks` are the blocks that `parse_report_blocks` reads from `elements`.
pub open spec fn blocks_of_elements(blocks: Seq<ReportBlock>, elements: Seq<HtmlElement>) -> bool {
    &&& blocks.len() == elements.filter(|e: HtmlElement| element_kept(e)).len()
    &&& forall|k: int| 0 <= k < blocks.len() ==> block_from_element(
        #[trigger] blocks[k],
        elements.filter(|e: HtmlElement| element_kept(e))[k],
        k as u32,
    )
}

} // verus!
