//! Reading a dossier page out of its HTML: its title and the cells of the rows directly
//! under the first `tbody` of its first table, each with the rows of the first table nested
//! in it.
use vstd::prelude::*;
use crate::dossiers::{scrape_dossier, scrape_result_ok, CellContent, Dossier, DossierCell, DossierPage, HtmlLink};
use crate::report_html::{
    cell_texts, html_cell_texts, html_inner_texts, html_path4_attrs, html_path4_texts, html_path5_attrs,
    html_path5_html, html_path5_texts, html_select_names, html_select_texts, inner_texts, path4_attrs,
    path4_texts, path5_attrs, path5_html, path5_texts, select_names, select_texts,
};
use crate::text::owned;

verus! {

/// A link by its first text node and its `href`.
pub type LinkView = (Option<Seq<char>>, Option<Seq<char>>);

/// A cell's content by its text nodes, links and `font` text nodes.
pub type ContentView = (Seq<Seq<char>>, Seq<LinkView>, Seq<Seq<Seq<char>>>);

/// A cell of the dossier table by its content and the rows of its nested table.
pub type CellView = (ContentView, Option<Seq<Seq<ContentView>>>);

/// A dossier page by its title and the rows of its first table.
pub type PageView = (Option<Seq<char>>, Option<Option<Seq<Seq<CellView>>>>);

pub open spec fn content_view(c: CellContent) -> ContentView {
    (c.texts.deep_view(), c.links@.map_values(|l: HtmlLink| (l.first_text.deep_view(), l.href.deep_view())), c.fonts.deep_view())
}

pub open spec fn content_rows_view(rows: Seq<Vec<CellContent>>) -> Seq<Seq<ContentView>> {
    rows.map_values(|r: Vec<CellContent>| r@.map_values(|c: CellContent| content_view(c)))
}

pub open spec fn cell_view(c: DossierCell) -> CellView {
    (
        content_view(c.content),
        match c.nested_rows {
            Some(rows) => Some(content_rows_view(rows@)),
            None => None,
        },
    )
}

pub open spec fn cell_rows_view(rows: Seq<Vec<DossierCell>>) -> Seq<Seq<CellView>> {
    rows.map_values(|r: Vec<DossierCell>| r@.map_values(|c: DossierCell| cell_view(c)))
}

pub open spec fn page_view(p: DossierPage) -> PageView {
    (
        p.title.deep_view(),
        match p.table_rows {
            None => None,
            Some(None) => Some(None),
            Some(Some(rows)) => Some(Some(cell_rows_view(rows@))),
        },
    )
}

/// Element `i` of `s`, or `d` when there is none.
pub open spec fn nth_or<A>(s: Seq<A>, i: int, d: A) -> A {
    if 0 <= i < s.len() {
        s[i]
    } else {
        d
    }
}

/// Element `(i, j)` of a nested list, or an empty list when there is none.
pub open spec fn nth2<A>(s: Seq<Seq<Seq<A>>>, i: int, j: int) -> Seq<A> {
    nth_or(nth_or(s, i, Seq::empty()), j, Seq::empty())
}

/// A cell's content from its text nodes, the text nodes and `href`s of its links, and the
/// text nodes of its `font`s.
pub open spec fn content_of(
    texts: Seq<Seq<char>>,
    link_texts: Seq<Seq<Seq<char>>>,
    link_hrefs: Seq<Option<Seq<char>>>,
    fonts: Seq<Seq<Seq<char>>>,
) -> ContentView {
    (
        texts,
        Seq::new(
            link_texts.len(),
            |k: int| (if link_texts[k].len() > 0 { Some(link_texts[k][0]) } else { None }, nth_or(link_hrefs, k, None)),
        ),
        fonts,
    )
}

/// The rows of the first table of a page (given as its own HTML): for each `tr` the
/// content of each of its `td`s.
pub open spec fn nested_rows_of(h: Seq<char>) -> Seq<Seq<ContentView>> {
    let ts = nth_or(html_cell_texts(h, "table"@, "tr"@, "td"@), 0, Seq::empty());
    let ats = nth_or(html_path4_texts(h, "table"@, "tr"@, "td"@, "a"@), 0, Seq::empty());
    let ahs = nth_or(html_path4_attrs(h, "table"@, "tr"@, "td"@, "a"@, "href"@), 0, Seq::empty());
    let fs = nth_or(html_path4_texts(h, "table"@, "tr"@, "td"@, "font"@), 0, Seq::empty());
    Seq::new(
        ts.len(),
        |r: int| Seq::new(ts[r].len(), |c: int| content_of(ts[r][c], nth2(ats, r, c), nth2(ahs, r, c), nth2(fs, r, c))),
    )
}

/// The selectors that walk from the page to the cells of the first table's body rows.
pub open spec fn first_body_cells(html: Seq<char>) -> Seq<Seq<Seq<Seq<char>>>> {
    nth2(html_path4_texts(html, "table"@, "tbody"@, ":scope > tr"@, "td"@), 0, 0)
}

/// The rows directly under the first `tbody` of the first table: for each the content of
/// each of its `td`s and the rows of the first table nested in it.
pub open spec fn body_rows_of(html: Seq<char>) -> Seq<Seq<CellView>> {
    let ts = first_body_cells(html);
    let ats = nth2(html_path5_texts(html, "table"@, "tbody"@, ":scope > tr"@, "td"@, "a"@), 0, 0);
    let ahs = nth2(html_path5_attrs(html, "table"@, "tbody"@, ":scope > tr"@, "td"@, "a"@, "href"@), 0, 0);
    let fs = nth2(html_path5_texts(html, "table"@, "tbody"@, ":scope > tr"@, "td"@, "font"@), 0, 0);
    let ns = nth2(html_path5_html(html, "table"@, "tbody"@, ":scope > tr"@, "td"@, "table"@), 0, 0);
    Seq::new(
        ts.len(),
        |r: int|
            Seq::new(
                ts[r].len(),
                |c: int|
                    (
                        content_of(ts[r][c], nth2(ats, r, c), nth2(ahs, r, c), nth2(fs, r, c)),
                        if nth2(ns, r, c).len() > 0 {
                            Some(nested_rows_of(nth2(ns, r, c)[0]))
                        } else {
                            None
                        },
                    ),
            ),
    )
}

/// A dossier page read from its HTML: the first text node of `#story h4 center`; no rows
/// without a table, none under a table without `tbody`, else the body rows.
pub open spec fn dossier_page_of(html: Seq<char>) -> PageView {
    let titles = html_select_texts(html, "#story h4 center"@);
    let bodies = html_inner_texts(html, "table"@, "tbody"@);
    (
        if titles.len() > 0 && titles[0].len() > 0 {
            Some(titles[0][0])
        } else {
            None
        },
        if html_select_names(html, "table"@).len() == 0 {
            None
        } else if bodies.len() == 0 || bodies[0].len() == 0 {
            Some(None)
        } else {
            Some(Some(body_rows_of(html)))
        },
    )
}

fn copy_strings(v: &Vec<String>) -> (r: Vec<String>)
    ensures
        r.deep_view() == v.deep_view(),
{
    let mut out: Vec<String> = Vec::new();
    let mut i: usize = 0;
    while i < v.len()
        invariant
            i <= v.len(),
            out.deep_view() == v.deep_view().take(i as int),
        decreases v.len() - i,
    {
        let ghost before = out.deep_view();
        out.push(owned(v[i].as_str()));
        assert(out.deep_view() =~= before.push(v.deep_view()[i as int]));
        assert(v.deep_view().take(i + 1) =~= v.deep_view().take(i as int).push(v.deep_view()[i as int]));
        i = i + 1;
    }
    assert(v.deep_view().take(v.len() as int) =~= v.deep_view());
    out
}

fn copy_texts(v: &Vec<Vec<String>>) -> (r: Vec<Vec<String>>)
    ensures
        r.deep_view() == v.deep_view(),
{
    let mut out: Vec<Vec<String>> = Vec::new();
    let mut i: usize = 0;
    while i < v.len()
        invariant
            i <= v.len(),
            out.deep_view() == v.deep_view().take(i as int),
        decreases v.len() - i,
    {
        let ghost before = out.deep_view();
        out.push(copy_strings(&v[i]));
        assert(out.deep_view() =~= before.push(v.deep_view()[i as int]));
        assert(v.deep_view().take(i + 1) =~= v.deep_view().take(i as int).push(v.deep_view()[i as int]));
        i = i + 1;
    }
    assert(v.deep_view().take(v.len() as int) =~= v.deep_view());
    out
}

fn copy_opt(o: &Option<String>) -> (r: Option<String>)
    ensures
        r.deep_view() == o.deep_view(),
{
    match o {
        Some(s) => Some(owned(s.as_str())),
        None => None,
    }
}

/// A cell's content from its read parts.
fn content_from(
    texts: &Vec<String>,
    link_texts: &Vec<Vec<String>>,
    link_hrefs: &Vec<Option<String>>,
    fonts: &Vec<Vec<String>>,
) -> (r: CellContent)
    ensures
        content_view(r) == content_of(texts.deep_view(), link_texts.deep_view(), link_hrefs.deep_view(), fonts.deep_view()),
{
    let ghost spec = content_of(texts.deep_view(), link_texts.deep_view(), link_hrefs.deep_view(), fonts.deep_view());
    let mut links: Vec<HtmlLink> = Vec::new();
    let mut k: usize = 0;
    while k < link_texts.len()
        invariant
            k <= link_texts.len(),
            spec == content_of(texts.deep_view(), link_texts.deep_view(), link_hrefs.deep_view(), fonts.deep_view()),
            links@.len() == k,
            forall|q: int| 0 <= q < k ==> (#[trigger] links@[q]).first_text.deep_view() == spec.1[q].0 && links@[q].href.deep_view() == spec.1[q].1,
        decreases link_texts.len() - k,
    {
        assert(link_texts.deep_view()[k as int] == link_texts@[k as int].deep_view());
        let first_text = if link_texts[k].len() > 0 {
            assert(link_texts@[k as int].deep_view()[0] == link_texts@[k as int]@[0]@);
            Some(owned(link_texts[k][0].as_str()))
        } else {
            None
        };
        let href = if k < link_hrefs.len() {
            assert(link_hrefs.deep_view()[k as int] == link_hrefs@[k as int].deep_view());
            copy_opt(&link_hrefs[k])
        } else {
            None
        };
        links.push(HtmlLink { first_text, href });
        k = k + 1;
    }
    let r = CellContent { texts: copy_strings(texts), links, fonts: copy_texts(fonts) };
    assert(content_view(r).1 =~= spec.1);
    r
}

/// Part `(i, j)` of a nested list read from a page, or nothing.
fn nth2_texts(v: &Vec<Vec<Vec<Vec<String>>>>, i: usize, j: usize) -> (r: Vec<Vec<String>>)
    ensures
        r.deep_view() == nth2(v.deep_view(), i as int, j as int),
{
    if i < v.len() && j < v[i].len() {
        assert(v.deep_view()[i as int] == v@[i as int].deep_view());
        assert(v@[i as int].deep_view()[j as int] == v@[i as int]@[j as int].deep_view());
        copy_texts(&v[i][j])
    } else {
        let r: Vec<Vec<String>> = Vec::new();
        assert(r.deep_view() =~= Seq::<Seq<Seq<char>>>::empty());
        r
    }
}

fn nth2_strings(v: &Vec<Vec<Vec<String>>>, i: usize, j: usize) -> (r: Vec<String>)
    ensures
        r.deep_view() == nth2(v.deep_view(), i as int, j as int),
{
    if i < v.len() && j < v[i].len() {
        assert(v.deep_view()[i as int] == v@[i as int].deep_view());
        assert(v@[i as int].deep_view()[j as int] == v@[i as int]@[j as int].deep_view());
        copy_strings(&v[i][j])
    } else {
        let r: Vec<String> = Vec::new();
        assert(r.deep_view() =~= Seq::<Seq<char>>::empty());
        r
    }
}

fn nth2_opts(v: &Vec<Vec<Vec<Option<String>>>>, i: usize, j: usize) -> (r: Vec<Option<String>>)
    ensures
        r.deep_view() == nth2(v.deep_view(), i as int, j as int),
{
    let mut out: Vec<Option<String>> = Vec::new();
    if i < v.len() && j < v[i].len() {
        assert(v.deep_view()[i as int] == v@[i as int].deep_view());
        assert(v@[i as int].deep_view()[j as int] == v@[i as int]@[j as int].deep_view());
        let src = &v[i][j];
        let mut k: usize = 0;
        while k < src.len()
            invariant
                k <= src.len(),
                out.deep_view() == src.deep_view().take(k as int),
            decreases src.len() - k,
        {
            let ghost before = out.deep_view();
            out.push(copy_opt(&src[k]));
            assert(out.deep_view() =~= before.push(src.deep_view()[k as int]));
            assert(src.deep_view().take(k + 1) =~= src.deep_view().take(k as int).push(src.deep_view()[k as int]));
            k = k + 1;
        }
        assert(src.deep_view().take(src.len() as int) =~= src.deep_view());
    } else {
        assert(out.deep_view() =~= Seq::<Option<Seq<char>>>::empty());
    }
    out
}

/// The rows of the first table of a page given as its own HTML.
fn nested_rows_from(h: &str) -> (r: Vec<Vec<CellContent>>)
    ensures
        content_rows_view(r@) == nested_rows_of(h@),
{
    let all_ts = cell_texts(h, "table", "tr", "td");
    let all_ats = path4_texts(h, "table", "tr", "td", "a");
    let all_ahs = path4_attrs(h, "table", "tr", "td", "a", "href");
    let all_fs = path4_texts(h, "table", "tr", "td", "font");
    let e_ts: Vec<Vec<Vec<String>>> = Vec::new();
    let e_as: Vec<Vec<Vec<Vec<String>>>> = Vec::new();
    let e_hs: Vec<Vec<Vec<Option<String>>>> = Vec::new();
    let ts = if all_ts.len() > 0 { &all_ts[0] } else { &e_ts };
    let ats = if all_ats.len() > 0 { &all_ats[0] } else { &e_as };
    let ahs = if all_ahs.len() > 0 { &all_ahs[0] } else { &e_hs };
    let fs = if all_fs.len() > 0 { &all_fs[0] } else { &e_as };
    proof {
        assert(e_ts.deep_view() =~= Seq::<Seq<Seq<Seq<char>>>>::empty());
        assert(e_as.deep_view() =~= Seq::<Seq<Seq<Seq<Seq<char>>>>>::empty());
        assert(e_hs.deep_view() =~= Seq::<Seq<Seq<Option<Seq<char>>>>>::empty());
        if all_ts.len() > 0 {
            assert(all_ts.deep_view()[0] == all_ts@[0].deep_view());
        }
        if all_ats.len() > 0 {
            assert(all_ats.deep_view()[0] == all_ats@[0].deep_view());
        }
        if all_ahs.len() > 0 {
            assert(all_ahs.deep_view()[0] == all_ahs@[0].deep_view());
        }
        if all_fs.len() > 0 {
            assert(all_fs.deep_view()[0] == all_fs@[0].deep_view());
        }
    }
    let ghost spec = nested_rows_of(h@);
    assert(ts.deep_view() == nth_or(html_cell_texts(h@, "table"@, "tr"@, "td"@), 0, Seq::empty()));
    let mut out: Vec<Vec<CellContent>> = Vec::new();
    let mut r: usize = 0;
    while r < ts.len()
        invariant
            r <= ts.len(),
            spec == nested_rows_of(h@),
            spec.len() == ts.deep_view().len(),
            ts.deep_view() == nth_or(html_cell_texts(h@, "table"@, "tr"@, "td"@), 0, Seq::empty()),
            ats.deep_view() == nth_or(html_path4_texts(h@, "table"@, "tr"@, "td"@, "a"@), 0, Seq::empty()),
            ahs.deep_view() == nth_or(html_path4_attrs(h@, "table"@, "tr"@, "td"@, "a"@, "href"@), 0, Seq::empty()),
            fs.deep_view() == nth_or(html_path4_texts(h@, "table"@, "tr"@, "td"@, "font"@), 0, Seq::empty()),
            out@.len() == r,
            forall|q: int| 0 <= q < r ==> (#[trigger] out@[q])@.map_values(|c: CellContent| content_view(c)) == spec[q],
        decreases ts.len() - r,
    {
        assert(ts.deep_view()[r as int] == ts@[r as int].deep_view());
        let row = &ts[r];
        let mut cells: Vec<CellContent> = Vec::new();
        let mut c: usize = 0;
        while c < row.len()
            invariant
                r < ts.len(),
                row == ts@[r as int],
                c <= row.len(),
                spec == nested_rows_of(h@),
                ts.deep_view() == nth_or(html_cell_texts(h@, "table"@, "tr"@, "td"@), 0, Seq::empty()),
                ats.deep_view() == nth_or(html_path4_texts(h@, "table"@, "tr"@, "td"@, "a"@), 0, Seq::empty()),
                ahs.deep_view() == nth_or(html_path4_attrs(h@, "table"@, "tr"@, "td"@, "a"@, "href"@), 0, Seq::empty()),
                fs.deep_view() == nth_or(html_path4_texts(h@, "table"@, "tr"@, "td"@, "font"@), 0, Seq::empty()),
                cells@.len() == c,
                forall|q: int| 0 <= q < c ==> content_view(#[trigger] cells@[q]) == spec[r as int][q],
            decreases row.len() - c,
        {
            assert(ts.deep_view()[r as int] == ts@[r as int].deep_view());
            assert(row.deep_view()[c as int] == row@[c as int].deep_view());
            let a = nth2_texts(ats, r, c);
            let hs = nth2_opts(ahs, r, c);
            let f = nth2_texts(fs, r, c);
            cells.push(content_from(&row[c], &a, &hs, &f));
            c = c + 1;
        }
        assert(cells@.map_values(|x: CellContent| content_view(x)) =~= spec[r as int]);
        out.push(cells);
        r = r + 1;
    }
    assert(content_rows_view(out@) =~= spec);
    out
}

/// The rows directly under the first `tbody` of the first table of a page.
#[verifier::rlimit(60)]
fn body_rows_from(html: &str) -> (r: Vec<Vec<DossierCell>>)
    ensures
        cell_rows_view(r@) == body_rows_of(html@),
{
    let t4 = path4_texts(html, "table", "tbody", ":scope > tr", "td");
    let a5 = path5_texts(html, "table", "tbody", ":scope > tr", "td", "a");
    let h5 = path5_attrs(html, "table", "tbody", ":scope > tr", "td", "a", "href");
    let f5 = path5_texts(html, "table", "tbody", ":scope > tr", "td", "font");
    let n5 = path5_html(html, "table", "tbody", ":scope > tr", "td", "table");
    let e_ts: Vec<Vec<Vec<String>>> = Vec::new();
    let e_as: Vec<Vec<Vec<Vec<String>>>> = Vec::new();
    let e_hs: Vec<Vec<Vec<Option<String>>>> = Vec::new();
    proof {
        assert(e_ts.deep_view() =~= Seq::<Seq<Seq<Seq<char>>>>::empty());
        assert(e_as.deep_view() =~= Seq::<Seq<Seq<Seq<Seq<char>>>>>::empty());
        assert(e_hs.deep_view() =~= Seq::<Seq<Seq<Option<Seq<char>>>>>::empty());
    }
    let ts = if t4.len() > 0 && t4[0].len() > 0 { &t4[0][0] } else { &e_ts };
    let ats = if a5.len() > 0 && a5[0].len() > 0 { &a5[0][0] } else { &e_as };
    let ahs = if h5.len() > 0 && h5[0].len() > 0 { &h5[0][0] } else { &e_hs };
    let fs = if f5.len() > 0 && f5[0].len() > 0 { &f5[0][0] } else { &e_as };
    let ns = if n5.len() > 0 && n5[0].len() > 0 { &n5[0][0] } else { &e_ts };
    proof {
        if t4.len() > 0 && t4[0].len() > 0 {
            assert(t4.deep_view()[0] == t4@[0].deep_view());
            assert(t4@[0].deep_view()[0] == t4@[0]@[0].deep_view());
        }
        if a5.len() > 0 && a5[0].len() > 0 {
            assert(a5.deep_view()[0] == a5@[0].deep_view());
            assert(a5@[0].deep_view()[0] == a5@[0]@[0].deep_view());
        }
        if h5.len() > 0 && h5[0].len() > 0 {
            assert(h5.deep_view()[0] == h5@[0].deep_view());
            assert(h5@[0].deep_view()[0] == h5@[0]@[0].deep_view());
        }
        if f5.len() > 0 && f5[0].len() > 0 {
            assert(f5.deep_view()[0] == f5@[0].deep_view());
            assert(f5@[0].deep_view()[0] == f5@[0]@[0].deep_view());
        }
        if n5.len() > 0 && n5[0].len() > 0 {
            assert(n5.deep_view()[0] == n5@[0].deep_view());
            assert(n5@[0].deep_view()[0] == n5@[0]@[0].deep_view());
        }
    }
    let ghost spec = body_rows_of(html@);
    let ghost g_ats = nth2(html_path5_texts(html@, "table"@, "tbody"@, ":scope > tr"@, "td"@, "a"@), 0, 0);
    let ghost g_ahs = nth2(html_path5_attrs(html@, "table"@, "tbody"@, ":scope > tr"@, "td"@, "a"@, "href"@), 0, 0);
    let ghost g_fs = nth2(html_path5_texts(html@, "table"@, "tbody"@, ":scope > tr"@, "td"@, "font"@), 0, 0);
    let ghost g_ns = nth2(html_path5_html(html@, "table"@, "tbody"@, ":scope > tr"@, "td"@, "table"@), 0, 0);
    assert(ts.deep_view() == first_body_cells(html@));
    assert(ats.deep_view() == g_ats);
    assert(ahs.deep_view() == g_ahs);
    assert(fs.deep_view() == g_fs);
    assert(ns.deep_view() == g_ns);
    let mut out: Vec<Vec<DossierCell>> = Vec::new();
    let mut r: usize = 0;
    while r < ts.len()
        invariant
            r <= ts.len(),
            spec == body_rows_of(html@),
            spec.len() == ts.deep_view().len(),
            ts.deep_view() == first_body_cells(html@),
            ats.deep_view() == g_ats,
            ahs.deep_view() == g_ahs,
            fs.deep_view() == g_fs,
            ns.deep_view() == g_ns,
            g_ats == nth2(html_path5_texts(html@, "table"@, "tbody"@, ":scope > tr"@, "td"@, "a"@), 0, 0),
            g_ahs == nth2(html_path5_attrs(html@, "table"@, "tbody"@, ":scope > tr"@, "td"@, "a"@, "href"@), 0, 0),
            g_fs == nth2(html_path5_texts(html@, "table"@, "tbody"@, ":scope > tr"@, "td"@, "font"@), 0, 0),
            g_ns == nth2(html_path5_html(html@, "table"@, "tbody"@, ":scope > tr"@, "td"@, "table"@), 0, 0),
            out@.len() == r,
            forall|q: int| 0 <= q < r ==> (#[trigger] out@[q])@.map_values(|c: DossierCell| cell_view(c)) == spec[q],
        decreases ts.len() - r,
    {
        assert(ts.deep_view()[r as int] == ts@[r as int].deep_view());
        let row = &ts[r];
        let mut cells: Vec<DossierCell> = Vec::new();
        let mut c: usize = 0;
        while c < row.len()
            invariant
                r < ts.len(),
                row == ts@[r as int],
                c <= row.len(),
                spec == body_rows_of(html@),
                ts.deep_view() == first_body_cells(html@),
                ats.deep_view() == g_ats,
                ahs.deep_view() == g_ahs,
                fs.deep_view() == g_fs,
                ns.deep_view() == g_ns,
                g_ats == nth2(html_path5_texts(html@, "table"@, "tbody"@, ":scope > tr"@, "td"@, "a"@), 0, 0),
                g_ahs == nth2(html_path5_attrs(html@, "table"@, "tbody"@, ":scope > tr"@, "td"@, "a"@, "href"@), 0, 0),
                g_fs == nth2(html_path5_texts(html@, "table"@, "tbody"@, ":scope > tr"@, "td"@, "font"@), 0, 0),
                g_ns == nth2(html_path5_html(html@, "table"@, "tbody"@, ":scope > tr"@, "td"@, "table"@), 0, 0),
                cells@.len() == c,
                forall|q: int| 0 <= q < c ==> cell_view(#[trigger] cells@[q]) == spec[r as int][q],
            decreases row.len() - c,
        {
            assert(ts.deep_view()[r as int] == ts@[r as int].deep_view());
            assert(row.deep_view()[c as int] == row@[c as int].deep_view());
            let a = nth2_texts(ats, r, c);
            let hs = nth2_opts(ahs, r, c);
            let f = nth2_texts(fs, r, c);
            let tables = nth2_strings(ns, r, c);
            let content = content_from(&row[c], &a, &hs, &f);
            let nested_rows = if tables.len() > 0 {
                assert(tables.deep_view()[0] == tables@[0]@);
                Some(nested_rows_from(tables[0].as_str()))
            } else {
                None
            };
            let cell = DossierCell { content, nested_rows };
            assert(cell_view(cell) == spec[r as int][c as int]);
            cells.push(cell);
            c = c + 1;
        }
        assert(cells@.map_values(|x: DossierCell| cell_view(x)) =~= spec[r as int]);
        out.push(cells);
        r = r + 1;
    }
    assert(cell_rows_view(out@) =~= spec);
    out
}

/// A dossier page read from its HTML.
pub fn dossier_page_from_html(html: &str) -> (r: DossierPage)
    ensures
        page_view(r) == dossier_page_of(html@),
{
    let titles = select_texts(html, "#story h4 center");
    let title = if titles.len() > 0 && titles[0].len() > 0 {
        assert(titles.deep_view()[0] == titles@[0].deep_view());
        Some(owned(titles[0][0].as_str()))
    } else {
        None
    };
    let tables = select_names(html, "table");
    let table_rows = if tables.len() == 0 {
        None
    } else {
        let bodies = inner_texts(html, "table", "tbody");
        if bodies.len() == 0 || bodies[0].len() == 0 {
            proof {
                if bodies.len() > 0 {
                    assert(bodies.deep_view()[0] == bodies@[0].deep_view());
                }
            }
            Some(None)
        } else {
            assert(bodies.deep_view()[0] == bodies@[0].deep_view());
            Some(Some(body_rows_from(html)))
        }
    };
    DossierPage { title, table_rows }
}


/// Scrape a dossier page given as HTML: the page read from it, then scraped.
pub fn scrape_dossier_html(dossier_id: &str, html: &str) -> (r: Result<Dossier, String>)
    ensures
        exists|p: DossierPage| #[trigger] page_view(p) == dossier_page_of(html@) && scrape_result_ok(dossier_id@, p, r),
{
    let page = dossier_page_from_html(html);
    let r = scrape_dossier(dossier_id, &page);
    assert(page_view(page) == dossier_page_of(html@) && scrape_result_ok(dossier_id@, page, r));
    r
}

} // verus!
