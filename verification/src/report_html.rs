//! Reading the elements of a page out of its HTML: the parser gives, for the elements that
//! a CSS selector picks, their names, text nodes, attributes, enclosing elements and the
//! descendants that inner selectors pick; the library puts them together.
use vstd::prelude::*;
use scraper::{ElementRef, Html, Selector};
use crate::report_blocks::{HtmlCell, HtmlElement, HtmlSpan};
use crate::text::{join, join_strs, words, words_str, strings_contain};
use crate::commission_meetings::{MeetingPage, texts_view};
use crate::commissions::{IndexElement, RoleParagraph};
use crate::report_blocks::{element_kept, lemma_parsed_block_indices, parse_report_blocks, ReportBlock};
use crate::vote_inventory::{parse_vote_inventory_blocks, inv_upto, ascending, appendix_number_in, events_view, inventory_buckets_view, inventory_scan, VoteInventory};

verus! {

/// The names of the elements that `css` picks in the page, in document order (none where
/// `css` is not a selector).
pub uninterp spec fn html_select_names(html: Seq<char>, css: Seq<char>) -> Seq<Seq<char>>;

/// The text nodes of each element that `css` picks.
pub uninterp spec fn html_select_texts(html: Seq<char>, css: Seq<char>) -> Seq<Seq<Seq<char>>>;

/// The `attr` attribute of each element that `css` picks.
pub uninterp spec fn html_select_attrs(html: Seq<char>, css: Seq<char>, attr: Seq<char>) -> Seq<Option<Seq<char>>>;

/// The names of the elements enclosing each element that `css` picks, innermost first.
pub uninterp spec fn html_select_ancestors(html: Seq<char>, css: Seq<char>) -> Seq<Seq<Seq<char>>>;

/// For each element that `css` picks, the text nodes of each descendant that `inner` picks.
pub uninterp spec fn html_inner_texts(html: Seq<char>, css: Seq<char>, inner: Seq<char>) -> Seq<Seq<Seq<Seq<char>>>>;

/// For each element that `css` picks, the `attr` attribute of each descendant that `inner`
/// picks.
pub uninterp spec fn html_inner_attrs(html: Seq<char>, css: Seq<char>, inner: Seq<char>, attr: Seq<char>) -> Seq<
    Seq<Option<Seq<char>>>,
>;

/// For each element that `css` picks, each descendant that `row` picks, and each of its
/// descendants that `cell` picks: its text nodes.
pub uninterp spec fn html_cell_texts(html: Seq<char>, css: Seq<char>, row: Seq<char>, cell: Seq<char>) -> Seq<
    Seq<Seq<Seq<Seq<char>>>>,
>;

/// For each element that `css` picks, each descendant that `row` picks, and each of its
/// descendants that `cell` picks: its `attr` attribute.
pub uninterp spec fn html_cell_attrs(
    html: Seq<char>,
    css: Seq<char>,
    row: Seq<char>,
    cell: Seq<char>,
    attr: Seq<char>,
) -> Seq<Seq<Seq<Option<Seq<char>>>>>;

/// `scraper`'s `Html::parse_document`, `Selector::parse` and `Html::select`: the names of
/// the selected elements (`Element::name`). The claim is only that the result is a function
/// of the page and the selector.
#[verifier::external_body]
pub(crate) fn select_names(html: &str, css: &str) -> (r: Vec<String>)
    ensures
        r.deep_view() == html_select_names(html@, css@),
{
    let doc = Html::parse_document(html);
    match Selector::parse(css) {
        Ok(sel) => doc.select(&sel).map(|e| e.value().name().to_string()).collect(),
        Err(_) => Vec::new(),
    }
}

/// `scraper`'s selection, then `ElementRef::text` of each selected element, each text node
/// as a string. The claim is only that the result is a function of the page and the
/// selector.
#[verifier::external_body]
pub(crate) fn select_texts(html: &str, css: &str) -> (r: Vec<Vec<String>>)
    ensures
        r.deep_view() == html_select_texts(html@, css@),
{
    let doc = Html::parse_document(html);
    match Selector::parse(css) {
        Ok(sel) => doc.select(&sel).map(|e| e.text().map(str::to_string).collect()).collect(),
        Err(_) => Vec::new(),
    }
}

/// `scraper`'s selection, then `ElementRef::attr` of each selected element. The claim is
/// only that the result is a function of the page, the selector and the attribute name.
#[verifier::external_body]
pub(crate) fn select_attrs(html: &str, css: &str, attr: &str) -> (r: Vec<Option<String>>)
    ensures
        r.deep_view() == html_select_attrs(html@, css@, attr@),
{
    let doc = Html::parse_document(html);
    match Selector::parse(css) {
        Ok(sel) => doc.select(&sel).map(|e| e.attr(attr).map(str::to_string)).collect(),
        Err(_) => Vec::new(),
    }
}

/// `scraper`'s selection, then the element names of each selected element's ancestors
/// (`ancestors`, with `ElementRef::wrap` telling elements from other nodes). The claim is
/// only that the result is a function of the page and the selector.
#[verifier::external_body]
pub(crate) fn select_ancestors(html: &str, css: &str) -> (r: Vec<Vec<String>>)
    ensures
        r.deep_view() == html_select_ancestors(html@, css@),
{
    let doc = Html::parse_document(html);
    match Selector::parse(css) {
        Ok(sel) => doc.select(&sel).map(|e| {
            e.ancestors().filter_map(ElementRef::wrap).map(|a| a.value().name().to_string()).collect()
        }).collect(),
        Err(_) => Vec::new(),
    }
}

/// `scraper`'s selection, then `ElementRef::select` with `inner` in each selected element
/// and the text nodes of each descendant found. The claim is only that the result is a
/// function of the page and the two selectors.
#[verifier::external_body]
pub(crate) fn inner_texts(html: &str, css: &str, inner: &str) -> (r: Vec<Vec<Vec<String>>>)
    ensures
        r.deep_view() == html_inner_texts(html@, css@, inner@),
{
    let doc = Html::parse_document(html);
    match (Selector::parse(css), Selector::parse(inner)) {
        (Ok(sel), Ok(isel)) => doc.select(&sel).map(|e| {
            e.select(&isel).map(|d| d.text().map(str::to_string).collect()).collect()
        }).collect(),
        _ => Vec::new(),
    }
}

/// `scraper`'s selection, then `ElementRef::select` with `inner` in each selected element
/// and the `attr` attribute of each descendant found. The claim is only that the result is
/// a function of the page, the selectors and the attribute name.
#[verifier::external_body]
pub(crate) fn inner_attrs(html: &str, css: &str, inner: &str, attr: &str) -> (r: Vec<Vec<Option<String>>>)
    ensures
        r.deep_view() == html_inner_attrs(html@, css@, inner@, attr@),
{
    let doc = Html::parse_document(html);
    match (Selector::parse(css), Selector::parse(inner)) {
        (Ok(sel), Ok(isel)) => doc.select(&sel).map(|e| {
            e.select(&isel).map(|d| d.attr(attr).map(str::to_string)).collect()
        }).collect(),
        _ => Vec::new(),
    }
}

/// `scraper`'s selection, then, in each selected element, the descendants that `row` picks
/// and in each of those the descendants that `cell` picks, with their text nodes. The claim
/// is only that the result is a function of the page and the three selectors.
#[verifier::external_body]
pub(crate) fn cell_texts(html: &str, css: &str, row: &str, cell: &str) -> (r: Vec<Vec<Vec<Vec<String>>>>)
    ensures
        r.deep_view() == html_cell_texts(html@, css@, row@, cell@),
{
    let doc = Html::parse_document(html);
    match (Selector::parse(css), Selector::parse(row), Selector::parse(cell)) {
        (Ok(s), Ok(rs), Ok(cs)) => doc.select(&s).map(|e| {
            e.select(&rs).map(|r| r.select(&cs).map(|c| c.text().map(str::to_string).collect()).collect()).collect()
        }).collect(),
        _ => Vec::new(),
    }
}

/// `scraper`'s selection, then, in each selected element, the descendants that `row` picks
/// and in each of those the descendants that `cell` picks, with their `attr` attribute. The
/// claim is only that the result is a function of the page, the selectors and the attribute
/// name.
#[verifier::external_body]
pub(crate) fn cell_attrs(html: &str, css: &str, row: &str, cell: &str, attr: &str) -> (r: Vec<Vec<Vec<Option<String>>>>)
    ensures
        r.deep_view() == html_cell_attrs(html@, css@, row@, cell@, attr@),
{
    let doc = Html::parse_document(html);
    match (Selector::parse(css), Selector::parse(row), Selector::parse(cell)) {
        (Ok(s), Ok(rs), Ok(cs)) => doc.select(&s).map(|e| {
            e.select(&rs).map(|r| r.select(&cs).map(|c| c.attr(attr).map(str::to_string)).collect()).collect()
        }).collect(),
        _ => Vec::new(),
    }
}

/// For each element that `a` picks, each descendant of it that `b` picks, each of that
/// one's descendants that `c` picks and each of those one's descendants that `d` picks: its
/// text nodes.
pub uninterp spec fn html_path4_texts(html: Seq<char>, a: Seq<char>, b: Seq<char>, c: Seq<char>, d: Seq<char>) -> Seq<
    Seq<Seq<Seq<Seq<Seq<char>>>>>,
>;

/// As `html_path4_texts`, the `attr` attribute of each element at the last step.
pub uninterp spec fn html_path4_attrs(
    html: Seq<char>,
    a: Seq<char>,
    b: Seq<char>,
    c: Seq<char>,
    d: Seq<char>,
    attr: Seq<char>,
) -> Seq<Seq<Seq<Seq<Option<Seq<char>>>>>>;

/// As `html_path4_texts` with a fifth step `e`: the text nodes of each element it picks.
pub uninterp spec fn html_path5_texts(
    html: Seq<char>,
    a: Seq<char>,
    b: Seq<char>,
    c: Seq<char>,
    d: Seq<char>,
    e: Seq<char>,
) -> Seq<Seq<Seq<Seq<Seq<Seq<Seq<char>>>>>>>;

/// As `html_path5_texts`, the `attr` attribute of each element at the last step.
pub uninterp spec fn html_path5_attrs(
    html: Seq<char>,
    a: Seq<char>,
    b: Seq<char>,
    c: Seq<char>,
    d: Seq<char>,
    e: Seq<char>,
    attr: Seq<char>,
) -> Seq<Seq<Seq<Seq<Seq<Option<Seq<char>>>>>>>;

/// As `html_path5_texts`, the HTML of each element at the last step (the element itself
/// included).
pub uninterp spec fn html_path5_html(
    html: Seq<char>,
    a: Seq<char>,
    b: Seq<char>,
    c: Seq<char>,
    d: Seq<char>,
    e: Seq<char>,
) -> Seq<Seq<Seq<Seq<Seq<Seq<char>>>>>>;

/// `scraper`'s selection followed down four steps (`Html::select`, then
/// `ElementRef::select` from each element found), then `ElementRef::text` of each element
/// at the last step. The claim is only that the result is a function of the page and the
/// four selectors.
#[verifier::external_body]
pub(crate) fn path4_texts(html: &str, a: &str, b: &str, c: &str, d: &str) -> (r: Vec<Vec<Vec<Vec<Vec<String>>>>>)
    ensures
        r.deep_view() == html_path4_texts(html@, a@, b@, c@, d@),
{
    let doc = Html::parse_document(html);
    match (Selector::parse(a), Selector::parse(b), Selector::parse(c), Selector::parse(d)) {
        (Ok(a), Ok(b), Ok(c), Ok(d)) => doc.select(&a).map(|x| x.select(&b).map(|y| y.select(&c).map(|z| {
            z.select(&d).map(|w| w.text().map(str::to_string).collect()).collect()
        }).collect()).collect()).collect(),
        _ => Vec::new(),
    }
}

/// The same walk as `path4_texts`, then `ElementRef::attr` of each element at the last
/// step. The claim is only that the result is a function of the page, the selectors and the
/// attribute name.
#[verifier::external_body]
pub(crate) fn path4_attrs(html: &str, a: &str, b: &str, c: &str, d: &str, attr: &str) -> (r: Vec<Vec<Vec<Vec<Option<String>>>>>)
    ensures
        r.deep_view() == html_path4_attrs(html@, a@, b@, c@, d@, attr@),
{
    let doc = Html::parse_document(html);
    match (Selector::parse(a), Selector::parse(b), Selector::parse(c), Selector::parse(d)) {
        (Ok(a), Ok(b), Ok(c), Ok(d)) => doc.select(&a).map(|x| x.select(&b).map(|y| y.select(&c).map(|z| {
            z.select(&d).map(|w| w.attr(attr).map(str::to_string)).collect()
        }).collect()).collect()).collect(),
        _ => Vec::new(),
    }
}

/// `scraper`'s selection followed down five steps, then `ElementRef::text` of each element
/// at the last step. The claim is only that the result is a function of the page and the
/// five selectors.
#[verifier::external_body]
pub(crate) fn path5_texts(html: &str, a: &str, b: &str, c: &str, d: &str, e: &str) -> (r: Vec<Vec<Vec<Vec<Vec<Vec<String>>>>>>)
    ensures
        r.deep_view() == html_path5_texts(html@, a@, b@, c@, d@, e@),
{
    let doc = Html::parse_document(html);
    match (
        Selector::parse(a),
        Selector::parse(b),
        Selector::parse(c),
        Selector::parse(d),
        Selector::parse(e),
    ) {
        (Ok(a), Ok(b), Ok(c), Ok(d), Ok(e)) => doc.select(&a).map(|x| x.select(&b).map(|y| y.select(&c).map(|z| {
            z.select(&d).map(|w| w.select(&e).map(|v| v.text().map(str::to_string).collect()).collect()).collect()
        }).collect()).collect()).collect(),
        _ => Vec::new(),
    }
}

/// The same walk as `path5_texts`, then `ElementRef::attr` of each element at the last
/// step. The claim is only that the result is a function of the page, the selectors and the
/// attribute name.
#[verifier::external_body]
pub(crate) fn path5_attrs(html: &str, a: &str, b: &str, c: &str, d: &str, e: &str, attr: &str) -> (r: Vec<Vec<Vec<Vec<Vec<Option<String>>>>>>)
    ensures
        r.deep_view() == html_path5_attrs(html@, a@, b@, c@, d@, e@, attr@),
{
    let doc = Html::parse_document(html);
    match (
        Selector::parse(a),
        Selector::parse(b),
        Selector::parse(c),
        Selector::parse(d),
        Selector::parse(e),
    ) {
        (Ok(a), Ok(b), Ok(c), Ok(d), Ok(e)) => doc.select(&a).map(|x| x.select(&b).map(|y| y.select(&c).map(|z| {
            z.select(&d).map(|w| w.select(&e).map(|v| v.attr(attr).map(str::to_string)).collect()).collect()
        }).collect()).collect()).collect(),
        _ => Vec::new(),
    }
}

/// The same walk as `path5_texts`, then `ElementRef::html` (the element's own HTML, itself
/// included) of each element at the last step. The claim is only that the result is a
/// function of the page and the selectors.
#[verifier::external_body]
pub(crate) fn path5_html(html: &str, a: &str, b: &str, c: &str, d: &str, e: &str) -> (r: Vec<Vec<Vec<Vec<Vec<String>>>>>)
    ensures
        r.deep_view() == html_path5_html(html@, a@, b@, c@, d@, e@),
{
    let doc = Html::parse_document(html);
    match (
        Selector::parse(a),
        Selector::parse(b),
        Selector::parse(c),
        Selector::parse(d),
        Selector::parse(e),
    ) {
        (Ok(a), Ok(b), Ok(c), Ok(d), Ok(e)) => doc.select(&a).map(|x| x.select(&b).map(|y| y.select(&c).map(|z| {
            z.select(&d).map(|w| w.select(&e).map(|v| v.html()).collect()).collect()
        }).collect()).collect()).collect(),
        _ => Vec::new(),
    }
}

/// The selector of the block elements of a report page.
pub open spec fn block_css() -> Seq<char> {
    "h1, h2, p, table"@
}

/// `c` is a class list naming `name`.
pub open spec fn class_has(c: Option<Seq<char>>, name: Seq<char>) -> bool {
    match c {
        Some(list) => words(list).contains(name),
        None => false,
    }
}

/// The smaller of two lengths.
pub open spec fn min_len(a: nat, b: nat) -> nat {
    if a < b {
        a
    } else {
        b
    }
}

/// The number of block elements of a page: the parser's lists of them, which all follow
/// the same selection, taken together.
pub open spec fn page_block_count(html: Seq<char>) -> nat {
    let css = block_css();
    min_len(
        min_len(
            min_len(html_select_names(html, css).len(), html_select_texts(html, css).len()),
            min_len(html_select_attrs(html, css, "lang"@).len(), html_select_attrs(html, css, "class"@).len()),
        ),
        min_len(
            min_len(html_select_ancestors(html, css).len(), html_inner_texts(html, css, "span"@).len()),
            min_len(
                min_len(html_inner_attrs(html, css, "span"@, "lang"@).len(), html_inner_attrs(html, css, "span"@, "class"@).len()),
                min_len(html_cell_texts(html, css, "tr"@, "td, th"@).len(), html_cell_attrs(html, css, "tr"@, "td, th"@, "colspan"@).len()),
            ),
        ),
    )
}

/// The spans of a block from the languages and text nodes of its `span`s.
pub open spec fn spans_match(spans: Seq<HtmlSpan>, langs: Seq<Option<Seq<char>>>, texts: Seq<Seq<Seq<char>>>) -> bool {
    &&& spans.len() == min_len(langs.len(), texts.len())
    &&& forall|j: int| 0 <= j < spans.len() ==> (#[trigger] spans[j]).lang.deep_view() == langs[j] && spans[j].texts.deep_view() == texts[j]
}

/// The cells of a row from the text nodes and `colspan`s of its `td`/`th`s.
pub open spec fn cells_match(cells: Seq<HtmlCell>, texts: Seq<Seq<Seq<char>>>, colspans: Seq<Option<Seq<char>>>) -> bool {
    &&& cells.len() == min_len(texts.len(), colspans.len())
    &&& forall|j: int| 0 <= j < cells.len() ==> (#[trigger] cells[j]).texts.deep_view() == texts[j] && cells[j].colspan.deep_view() == colspans[j]
}

/// The rows of a block from its `tr`s.
pub open spec fn rows_match(rows: Seq<Vec<HtmlCell>>, texts: Seq<Seq<Seq<Seq<char>>>>, colspans: Seq<Seq<Option<Seq<char>>>>) -> bool {
    &&& rows.len() == min_len(texts.len(), colspans.len())
    &&& forall|j: int| 0 <= j < rows.len() ==> cells_match((#[trigger] rows[j])@, texts[j], colspans[j])
}

/// Block `k` of a page, as the parser gives it.
pub open spec fn element_from_page(e: HtmlElement, html: Seq<char>, k: int) -> bool {
    let css = block_css();
    &&& e.name@ == html_select_names(html, css)[k]
    &&& e.inside_table == html_select_ancestors(html, css)[k].contains("table"@)
    &&& e.texts.deep_view() == html_select_texts(html, css)[k]
    &&& e.lang.deep_view() == html_select_attrs(html, css, "lang"@)[k]
    &&& e.class.deep_view() == html_select_attrs(html, css, "class"@)[k]
    &&& e.has_oraspr == exists|j: int|
        0 <= j < html_inner_attrs(html, css, "span"@, "class"@)[k].len() && class_has(
            #[trigger] html_inner_attrs(html, css, "span"@, "class"@)[k][j],
            "oraspr"@,
        )
    &&& spans_match(e.spans@, html_inner_attrs(html, css, "span"@, "lang"@)[k], html_inner_texts(html, css, "span"@)[k])
    &&& rows_match(e.rows@, html_cell_texts(html, css, "tr"@, "td, th"@)[k], html_cell_attrs(html, css, "tr"@, "td, th"@, "colspan"@)[k])
}

fn copy_strings(v: &Vec<String>) -> (r: Vec<String>)
    ensures
        r.deep_view() == v.deep_view(),
{
    let mut out: Vec<String> = Vec::new();
    let mut i: usize = 0;
    while i < v.len()
        invariant
            i <= v.len(),
            out.deep_view() == v.deep_view().take(i as int),
        decreases v.len() - i,
    {
        let ghost before = out.deep_view();
        let x = v[i].clone();
        out.push(x);
        assert(out.deep_view() =~= before.push(v.deep_view()[i as int]));
        assert(v.deep_view().take(i + 1) =~= v.deep_view().take(i as int).push(v.deep_view()[i as int]));
        i = i + 1;
    }
    assert(v.deep_view().take(v.len() as int) =~= v.deep_view());
    out
}

fn copy_opt(o: &Option<String>) -> (r: Option<String>)
    ensures
        r.deep_view() == o.deep_view(),
{
    match o {
        Some(s) => Some(s.clone()),
        None => None,
    }
}

fn lesser(a: usize, b: usize) -> (r: usize)
    ensures
        r == min_len(a as nat, b as nat),
{
    if a < b {
        a
    } else {
        b
    }
}

fn zip_spans(langs: &Vec<Option<String>>, texts: &Vec<Vec<String>>) -> (r: Vec<HtmlSpan>)
    ensures
        spans_match(r@, langs.deep_view(), texts.deep_view()),
{
    let n = lesser(langs.len(), texts.len());
    let mut out: Vec<HtmlSpan> = Vec::new();
    let mut j: usize = 0;
    while j < n
        invariant
            j <= n,
            n == min_len(langs.len() as nat, texts.len() as nat),
            out@.len() == j,
            forall|q: int| 0 <= q < j ==> (#[trigger] out@[q]).lang.deep_view() == langs.deep_view()[q] && out@[q].texts.deep_view() == texts.deep_view()[q],
        decreases n - j,
    {
        out.push(HtmlSpan { lang: copy_opt(&langs[j]), texts: copy_strings(&texts[j]) });
        j = j + 1;
    }
    out
}

fn zip_cells(texts: &Vec<Vec<String>>, colspans: &Vec<Option<String>>) -> (r: Vec<HtmlCell>)
    ensures
        cells_match(r@, texts.deep_view(), colspans.deep_view()),
{
    let n = lesser(texts.len(), colspans.len());
    let mut out: Vec<HtmlCell> = Vec::new();
    let mut j: usize = 0;
    while j < n
        invariant
            j <= n,
            n == min_len(texts.len() as nat, colspans.len() as nat),
            out@.len() == j,
            forall|q: int| 0 <= q < j ==> (#[trigger] out@[q]).texts.deep_view() == texts.deep_view()[q] && out@[q].colspan.deep_view() == colspans.deep_view()[q],
        decreases n - j,
    {
        out.push(HtmlCell { texts: copy_strings(&texts[j]), colspan: copy_opt(&colspans[j]) });
        j = j + 1;
    }
    out
}

fn zip_rows(texts: &Vec<Vec<Vec<String>>>, colspans: &Vec<Vec<Option<String>>>) -> (r: Vec<Vec<HtmlCell>>)
    ensures
        rows_match(r@, texts.deep_view(), colspans.deep_view()),
{
    let n = lesser(texts.len(), colspans.len());
    let mut out: Vec<Vec<HtmlCell>> = Vec::new();
    let mut j: usize = 0;
    while j < n
        invariant
            j <= n,
            n == min_len(texts.len() as nat, colspans.len() as nat),
            out@.len() == j,
            forall|q: int| 0 <= q < j ==> cells_match((#[trigger] out@[q])@, texts.deep_view()[q], colspans.deep_view()[q]),
        decreases n - j,
    {
        out.push(zip_cells(&texts[j], &colspans[j]));
        j = j + 1;
    }
    out
}

fn names_class(classes: &Vec<Option<String>>, name: &str) -> (r: bool)
    ensures
        r == exists|j: int| 0 <= j < classes.deep_view().len() && class_has(#[trigger] classes.deep_view()[j], name@),
{
    let mut j: usize = 0;
    while j < classes.len()
        invariant
            j <= classes.len(),
            forall|q: int| 0 <= q < j ==> !class_has(#[trigger] classes.deep_view()[q], name@),
        decreases classes.len() - j,
    {
        match &classes[j] {
            Some(c) => {
                let parts = words_str(c.as_str());
                if strings_contain(&parts, name) {
                    assert(class_has(classes.deep_view()[j as int], name@));
                    return true;
                }
            },
            None => {},
        }
        assert(!class_has(classes.deep_view()[j as int], name@));
        j = j + 1;
    }
    false
}

/// The `h1`, `h2`, `p` and `table` elements of a report page, in document order, as the
/// HTML parser reads them.
pub fn report_elements(html: &str) -> (r: Vec<HtmlElement>)
    ensures
        r@.len() == page_block_count(html@),
        forall|k: int| 0 <= k < r@.len() ==> element_from_page(#[trigger] r@[k], html@, k),
{
    let css = "h1, h2, p, table";
    proof {
        assert(css@ == block_css());
    }
    let names = select_names(html, css);
    let texts = select_texts(html, css);
    let langs = select_attrs(html, css, "lang");
    let classes = select_attrs(html, css, "class");
    let ancestors = select_ancestors(html, css);
    let span_texts = inner_texts(html, css, "span");
    let span_langs = inner_attrs(html, css, "span", "lang");
    let span_classes = inner_attrs(html, css, "span", "class");
    let row_texts = cell_texts(html, css, "tr", "td, th");
    let row_spans = cell_attrs(html, css, "tr", "td, th", "colspan");
    let n = lesser(
        lesser(lesser(names.len(), texts.len()), lesser(langs.len(), classes.len())),
        lesser(
            lesser(ancestors.len(), span_texts.len()),
            lesser(lesser(span_langs.len(), span_classes.len()), lesser(row_texts.len(), row_spans.len())),
        ),
    );
    let mut out: Vec<HtmlElement> = Vec::new();
    let mut k: usize = 0;
    while k < n
        invariant
            k <= n,
            n == page_block_count(html@),
            names.deep_view() == html_select_names(html@, block_css()),
            texts.deep_view() == html_select_texts(html@, block_css()),
            langs.deep_view() == html_select_attrs(html@, block_css(), "lang"@),
            classes.deep_view() == html_select_attrs(html@, block_css(), "class"@),
            ancestors.deep_view() == html_select_ancestors(html@, block_css()),
            span_texts.deep_view() == html_inner_texts(html@, block_css(), "span"@),
            span_langs.deep_view() == html_inner_attrs(html@, block_css(), "span"@, "lang"@),
            span_classes.deep_view() == html_inner_attrs(html@, block_css(), "span"@, "class"@),
            row_texts.deep_view() == html_cell_texts(html@, block_css(), "tr"@, "td, th"@),
            row_spans.deep_view() == html_cell_attrs(html@, block_css(), "tr"@, "td, th"@, "colspan"@),
            out@.len() == k,
            forall|q: int| 0 <= q < k ==> element_from_page(#[trigger] out@[q], html@, q),
        decreases n - k,
    {
        let inside = strings_contain(&ancestors[k], "table");
        let oraspr = names_class(&span_classes[k], "oraspr");
        let e = HtmlElement {
            name: names[k].clone(),
            inside_table: inside,
            texts: copy_strings(&texts[k]),
            lang: copy_opt(&langs[k]),
            class: copy_opt(&classes[k]),
            has_oraspr: oraspr,
            spans: zip_spans(&span_langs[k], &span_texts[k]),
            rows: zip_rows(&row_texts[k], &row_spans[k]),
        };
        proof {
            assert(ancestors.deep_view()[k as int] == ancestors@[k as int].deep_view());
            assert(texts.deep_view()[k as int] == texts@[k as int].deep_view());
            assert(langs.deep_view()[k as int] == langs@[k as int].deep_view());
            assert(classes.deep_view()[k as int] == classes@[k as int].deep_view());
            assert(names.deep_view()[k as int] == names@[k as int]@);
            assert(span_texts.deep_view()[k as int] == span_texts@[k as int].deep_view());
            assert(span_langs.deep_view()[k as int] == span_langs@[k as int].deep_view());
            assert(span_classes.deep_view()[k as int] == span_classes@[k as int].deep_view());
            assert(row_texts.deep_view()[k as int] == row_texts@[k as int].deep_view());
            assert(row_spans.deep_view()[k as int] == row_spans@[k as int].deep_view());
        }
        assert(element_from_page(e, html@, k as int));
        out.push(e);
        k = k + 1;
    }
    out
}

/// The elements of a page as the parser reads them, and the blocks parsed from them.
pub open spec fn page_blocks(html: Seq<char>, elements: Seq<HtmlElement>, blocks: Seq<ReportBlock>) -> bool {
    &&& elements.len() == page_block_count(html)
    &&& forall|k: int| 0 <= k < elements.len() ==> element_from_page(#[trigger] elements[k], html, k)
    &&& blocks.len() == elements.filter(|e: HtmlElement| element_kept(e)).len()
    &&& forall|k: int| 0 <= k < blocks.len() ==> crate::report_blocks::block_from_element(
        #[trigger] blocks[k],
        elements.filter(|e: HtmlElement| element_kept(e))[k],
        k as u32,
    )
}

/// The QA vote inventory of a report page: its blocks, read from its HTML, then the
/// inventory of those blocks; none for a page of more blocks than the inventory counts.
pub fn vote_inventory_of_report(html: &str, meeting_id: &str) -> (r: Option<VoteInventory>)
    ensures
        r is Some <==> page_block_count(html@) < 0x7fff_ffff,
        r matches Some(inv) ==> exists|elements: Seq<HtmlElement>, blocks: Seq<ReportBlock>| {
            &&& #[trigger] page_blocks(html@, elements, blocks)
            &&& inv.meeting_id@ == meeting_id@
            &&& ascending(inv.appendix_vote_numbers.deep_view())
            &&& (forall|n: Seq<char>| inv.appendix_vote_numbers.deep_view().contains(n) <==> appendix_number_in(blocks, n))
            &&& ascending(inv.compact_vote_numbers.deep_view())
            &&& (forall|n: Seq<char>| inv.compact_vote_numbers.deep_view().contains(n) <==> inv_upto(blocks, blocks.len() as int).compact.contains(n))
            &&& ascending(inv.paragraph_vote_numbers.deep_view())
            &&& (forall|n: Seq<char>| inv.paragraph_vote_numbers.deep_view().contains(n) <==> inv_upto(blocks, blocks.len() as int).paragraph.contains(n))
            &&& events_view(inv.formal_events@) == inv_upto(blocks, blocks.len() as int).events
            &&& inventory_buckets_view(inv.appendix_buckets@) == inventory_scan(blocks, 0, Seq::empty())
        },
{
    let elements = report_elements(html);
    if elements.len() >= 0x7fff_ffff {
        return None;
    }
    let blocks = parse_report_blocks(elements.as_slice());
    proof {
        lemma_parsed_block_indices(blocks@, elements@);
    }
    let inv = parse_vote_inventory_blocks(blocks.as_slice(), meeting_id);
    assert(page_blocks(html@, elements@, blocks@));
    Some(inv)
}

fn copy_texts(v: &Vec<Vec<String>>) -> (r: Vec<Vec<String>>)
    ensures
        texts_view(r@) == v.deep_view(),
{
    let mut out: Vec<Vec<String>> = Vec::new();
    let mut i: usize = 0;
    while i < v.len()
        invariant
            i <= v.len(),
            out@.len() == i,
            forall|q: int| 0 <= q < i ==> (#[trigger] out@[q]).deep_view() == v.deep_view()[q],
        decreases v.len() - i,
    {
        out.push(copy_strings(&v[i]));
        i = i + 1;
    }
    assert(texts_view(out@) =~= v.deep_view());
    out
}

/// The header facts' text nodes of a commission meeting report page: those of the `span`s
/// of its first table (none without a table), of every `span`, and of every `span` and `p`.
pub fn meeting_page_from_html(html: &str) -> (r: MeetingPage)
    ensures
        match r.first_table_spans {
            Some(v) => html_inner_texts(html@, "table"@, "span"@).len() > 0 && texts_view(v@) == html_inner_texts(html@, "table"@, "span"@)[0],
            None => html_inner_texts(html@, "table"@, "span"@).len() == 0,
        },
        texts_view(r.spans@) == html_select_texts(html@, "span"@),
        texts_view(r.spans_and_paragraphs@) == html_select_texts(html@, "span, p"@),
{
    let tables = inner_texts(html, "table", "span");
    let first_table_spans = if tables.len() > 0 {
        assert(tables.deep_view()[0] == tables@[0].deep_view());
        Some(copy_texts(&tables[0]))
    } else {
        None
    };
    let spans = select_texts(html, "span");
    let spans_and_paragraphs = select_texts(html, "span, p");
    MeetingPage { first_table_spans, spans: copy_texts(&spans), spans_and_paragraphs: copy_texts(&spans_and_paragraphs) }
}

/// The selector of the commission index's type headings and links.
pub open spec fn index_css() -> Seq<char> {
    "div.linklist_0 > a, h4"@
}

/// The index elements from the names, text nodes and `href`s of the selected elements: a
/// heading for an `h4`, a link for an `a`, each with its text nodes run together.
pub open spec fn index_from(names: Seq<Seq<char>>, texts: Seq<Seq<Seq<char>>>, hrefs: Seq<Option<Seq<char>>>, n: int) -> Seq<
    (bool, Option<Seq<char>>, Seq<char>),
>
    decreases n,
{
    if n <= 0 {
        Seq::empty()
    } else {
        let prev = index_from(names, texts, hrefs, n - 1);
        let t = join(texts[n - 1], ""@);
        if names[n - 1] == "h4"@ {
            prev.push((true, None, t))
        } else if names[n - 1] == "a"@ {
            prev.push((false, hrefs[n - 1], t))
        } else {
            prev
        }
    }
}

pub open spec fn index_view(es: Seq<IndexElement>) -> Seq<(bool, Option<Seq<char>>, Seq<char>)> {
    es.map_values(
        |e: IndexElement|
            match e {
                IndexElement::Heading { text } => (true, None, text@),
                IndexElement::Link { href, text } => (false, href.deep_view(), text@),
            },
    )
}

/// The type headings and links of the commission index page, in document order.
pub fn index_elements_from_html(html: &str) -> (r: Vec<IndexElement>)
    ensures
        index_view(r@) == index_from(
            html_select_names(html@, index_css()),
            html_select_texts(html@, index_css()),
            html_select_attrs(html@, index_css(), "href"@),
            min_len(
                html_select_names(html@, index_css()).len(),
                min_len(html_select_texts(html@, index_css()).len(), html_select_attrs(html@, index_css(), "href"@).len()),
            ) as int,
        ),
{
    let css = "div.linklist_0 > a, h4";
    proof {
        reveal_strlit("");
        assert(css@ == index_css());
    }
    let names = select_names(html, css);
    let texts = select_texts(html, css);
    let hrefs = select_attrs(html, css, "href");
    let n = lesser(names.len(), lesser(texts.len(), hrefs.len()));
    let mut out: Vec<IndexElement> = Vec::new();
    let mut k: usize = 0;
    while k < n
        invariant
            k <= n <= names@.len(),
            n <= texts@.len() && n <= hrefs@.len(),
            names.deep_view() == html_select_names(html@, index_css()),
            texts.deep_view() == html_select_texts(html@, index_css()),
            hrefs.deep_view() == html_select_attrs(html@, index_css(), "href"@),
            index_view(out@) == index_from(names.deep_view(), texts.deep_view(), hrefs.deep_view(), k as int),
        decreases n - k,
    {
        let text = join_strs(texts[k].as_slice(), "");
        assert(texts.deep_view()[k as int] == texts@[k as int].deep_view());
        assert(names.deep_view()[k as int] == names@[k as int]@);
        assert(hrefs.deep_view()[k as int] == hrefs@[k as int].deep_view());
        let ghost before = out@;
        if str_is(names[k].as_str(), "h4") {
            out.push(IndexElement::Heading { text });
            assert(index_view(out@) =~= index_view(before).push((true, None, text@)));
        } else if str_is(names[k].as_str(), "a") {
            let href = copy_opt(&hrefs[k]);
            out.push(IndexElement::Link { href, text });
            assert(index_view(out@) =~= index_view(before).push((false, href.deep_view(), text@)));
        }
        k = k + 1;
    }
    out
}

fn str_is(a: &str, b: &str) -> (r: bool)
    ensures
        r == (a@ == b@),
{
    crate::text::str_eq(a, b)
}

/// The paragraphs of a commission detail page: for each `p`, the text of its first `b`, run
/// together, and the text of each of its `a`s.
pub fn role_paragraphs_from_html(html: &str) -> (r: Vec<RoleParagraph>)
    ensures
        r@.len() == min_len(html_inner_texts(html@, "p"@, "b"@).len(), html_inner_texts(html@, "p"@, "a"@).len()),
        forall|k: int|
            0 <= k < r@.len() ==> {
                &&& (#[trigger] r@[k]).first_bold.deep_view() == if html_inner_texts(html@, "p"@, "b"@)[k].len() > 0 {
                    Some(join(html_inner_texts(html@, "p"@, "b"@)[k][0], ""@))
                } else {
                    None
                }
                &&& r@[k].links.deep_view() == html_inner_texts(html@, "p"@, "a"@)[k].map_values(|t: Seq<Seq<char>>| join(t, ""@))
            },
{
    let bolds = inner_texts(html, "p", "b");
    let links = inner_texts(html, "p", "a");
    let n = lesser(bolds.len(), links.len());
    let mut out: Vec<RoleParagraph> = Vec::new();
    let mut k: usize = 0;
    while k < n
        invariant
            k <= n,
            n == min_len(bolds.deep_view().len(), links.deep_view().len()),
            n <= bolds@.len() && n <= links@.len(),
            bolds.deep_view() == html_inner_texts(html@, "p"@, "b"@),
            links.deep_view() == html_inner_texts(html@, "p"@, "a"@),
            out@.len() == k,
            forall|q: int|
                0 <= q < k ==> {
                    &&& (#[trigger] out@[q]).first_bold.deep_view() == if bolds.deep_view()[q].len() > 0 {
                        Some(join(bolds.deep_view()[q][0], ""@))
                    } else {
                        None
                    }
                    &&& out@[q].links.deep_view() == links.deep_view()[q].map_values(|t: Seq<Seq<char>>| join(t, ""@))
                },
        decreases n - k,
    {
        assert(bolds.deep_view()[k as int] == bolds@[k as int].deep_view());
        assert(links.deep_view()[k as int] == links@[k as int].deep_view());
        let first_bold = if bolds[k].len() > 0 {
            assert(bolds@[k as int].deep_view()[0] == bolds@[k as int]@[0].deep_view());
            Some(join_strs(bolds[k][0].as_slice(), ""))
        } else {
            None
        };
        let mut ls: Vec<String> = Vec::new();
        let mut j: usize = 0;
        while j < links[k].len()
            invariant
                k < links@.len(),
                j <= links@[k as int]@.len(),
                ls@.len() == j,
                forall|q: int| 0 <= q < j ==> (#[trigger] ls@[q])@ == join(links@[k as int]@[q].deep_view(), ""@),
            decreases links@[k as int]@.len() - j,
        {
            ls.push(join_strs(links[k][j].as_slice(), ""));
            j = j + 1;
        }
        proof {
            assert forall|q: int| 0 <= q < ls@.len() implies ls.deep_view()[q] == links.deep_view()[k as int].map_values(|t: Seq<Seq<char>>| join(t, ""@))[q] by {
                assert(links.deep_view()[k as int][q] == links@[k as int]@[q].deep_view());
            }
            assert(ls.deep_view() =~= links.deep_view()[k as int].map_values(|t: Seq<Seq<char>>| join(t, ""@)));
        }
        out.push(RoleParagraph { first_bold, links: ls });
        k = k + 1;
    }
    out
}

} // verus!
