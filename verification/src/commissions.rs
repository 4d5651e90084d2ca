//! Membership roles of the commission detail pages.
use vstd::prelude::*;
use crate::text::{join, join_strs, lowercase, replace, str_eq, to_chars, to_lower, trim, trim_str, words, words_str};

verus! {

/// Canonical commission membership role from a detail-page bold label.
#[derive(Debug, Clone, Copy, PartialEq, Eq, Structural)]
pub enum CommissionRole {
    Chair,
    Subchair,
    Permanent,
    Replacement,
}

/// Whether `char::is_alphanumeric` holds (Unicode `Alphabetic` or `Numeric`).
pub uninterp spec fn alphanumeric(c: char) -> bool;

/// `char::is_alphanumeric`; the result is named by `alphanumeric`.
#[verifier::external_body]
fn is_alphanumeric(c: char) -> (r: bool)
    ensures
        r == alphanumeric(c),
{
    c.is_alphanumeric()
}

/// Every character that is not alphanumeric becomes a space.
pub open spec fn blank_non_alphanumeric(s: Seq<char>) -> Seq<char> {
    s.map_values(|c: char| if alphanumeric(c) { c } else { ' ' })
}

/// The words of a label, lower-cased, brackets and other punctuation read as spaces,
/// without the plural marker `s`.
pub open spec fn role_key(label: Seq<char>) -> Seq<char> {
    let s = blank_non_alphanumeric(replace(replace(lowercase(label), seq!['('], seq![' ']), seq![')'], seq![' ']));
    join(words(s).filter(|t: Seq<char>| t != seq!['s']), seq![' '])
}

pub open spec fn role_of_key(key: Seq<char>) -> Option<CommissionRole> {
    if key == "voorzitter"@ || key == "voorzitters"@ {
        Some(CommissionRole::Chair)
    } else if key == "ondervoorzitter"@ || key == "ondervoorzitters"@ {
        Some(CommissionRole::Subchair)
    } else if key == "vaste leden"@ {
        Some(CommissionRole::Permanent)
    } else if key == "plaatsvervangers"@ {
        Some(CommissionRole::Replacement)
    } else {
        None
    }
}

fn blank_punctuation(s: &str) -> (r: String)
    ensures
        r@ == blank_non_alphanumeric(s@),
{
    let v = to_chars(s);
    let mut out = String::new();
    let mut i: usize = 0;
    while i < v.len()
        invariant
            i <= v@.len(),
            v@ == s@,
            out@ == blank_non_alphanumeric(s@.take(i as int)),
        decreases v.len() - i,
    {
        let c = v[i];
        let d = if is_alphanumeric(c) { c } else { ' ' };
        crate::text::push_char(&mut out, d);
        assert(out@ =~= blank_non_alphanumeric(s@.take(i + 1)));
        i = i + 1;
    }
    assert(s@.take(s@.len() as int) =~= s@);
    out
}

/// Normalize the first bold role label on a commission detail page to a canonical token.
///
/// Source labels look like `Voorzitter(s):` / `Ondervoorzitters:`. Matching is exact after
/// normalization — substring matching would treat `Ondervoorzitters` as `Voorzitter`.
pub fn normalize_role_label(label: &str) -> (r: Option<CommissionRole>)
    ensures
        r == role_of_key(role_key(label@)),
{
    let lower = to_lower(label);
    let a = crate::text::replace_char_str(lower.as_str(), '(', " ");
    let b = crate::text::replace_char_str(a.as_str(), ')', " ");
    proof {
        reveal_strlit(" ");
        assert(" "@ =~= seq![' ']);
    }
    let s = blank_punctuation(b.as_str());
    let all = words_str(s.as_str());
    let ghost spred = |t: Seq<char>| t != seq!['s'];
    let mut kept: Vec<String> = Vec::new();
    let mut i: usize = 0;
    while i < all.len()
        invariant
            i <= all@.len(),
            spred == (|t: Seq<char>| t != seq!['s']),
            kept.deep_view() == all.deep_view().take(i as int).filter(spred),
        decreases all.len() - i,
    {
        proof {
            reveal(Seq::filter);
            assert(all.deep_view().take(i + 1).drop_last() =~= all.deep_view().take(i as int));
            reveal_strlit("s");
            assert("s"@ =~= seq!['s']);
        }
        if !str_eq(all[i].as_str(), "s") {
            let ghost before = kept.deep_view();
            kept.push(all[i].clone());
            assert(kept.deep_view() =~= before.push(all.deep_view()[i as int]));
        }
        i = i + 1;
    }
    assert(all.deep_view().take(all@.len() as int) =~= all.deep_view());
    let key = join_strs(kept.as_slice(), " ");
    assert(key@ == role_key(label@));
    let k = key.as_str();
    if str_eq(k, "voorzitter") || str_eq(k, "voorzitters") {
        Some(CommissionRole::Chair)
    } else if str_eq(k, "ondervoorzitter") || str_eq(k, "ondervoorzitters") {
        Some(CommissionRole::Subchair)
    } else if str_eq(k, "vaste leden") {
        Some(CommissionRole::Permanent)
    } else if str_eq(k, "plaatsvervangers") {
        Some(CommissionRole::Replacement)
    } else {
        None
    }
}

/// A `p` of a commission detail page: the text of its first `b`, if it has one, and the
/// text of each of its links.
pub struct RoleParagraph {
    pub first_bold: Option<String>,
    pub links: Vec<String>,
}

/// The trimmed, non-empty link texts of the paragraphs labelled with `role`, in order.
pub open spec fn members_of(ps: Seq<RoleParagraph>, role: CommissionRole) -> Seq<Seq<char>>
    decreases ps.len(),
{
    if ps.len() == 0 {
        Seq::empty()
    } else {
        let prev = members_of(ps.drop_last(), role);
        let p = ps.last();
        match p.first_bold {
            Some(label) => if role_of_key(role_key(label@)) == Some(role) {
                prev + p.links.deep_view().map_values(|t: Seq<char>| trim(t)).filter(|t: Seq<char>| t.len() > 0)
            } else {
                prev
            },
            None => prev,
        }
    }
}

/// Extract member display names for a single role from the paragraphs of a commission
/// detail page, joined by `, `.
pub fn extract_members(paragraphs: &[RoleParagraph], role: CommissionRole) -> (r: String)
    ensures
        r@ == join(members_of(paragraphs@, role), ", "@),
{
    let mut names: Vec<String> = Vec::new();
    let mut i: usize = 0;
    while i < paragraphs.len()
        invariant
            i <= paragraphs@.len(),
            names.deep_view() == members_of(paragraphs@.take(i as int), role),
        decreases paragraphs.len() - i,
    {
        let p = &paragraphs[i];
        proof {
            assert(paragraphs@.take(i + 1).drop_last() =~= paragraphs@.take(i as int));
            assert(paragraphs@.take(i + 1).last() == paragraphs@[i as int]);
        }
        let matches = match &p.first_bold {
            Some(label) => normalize_role_label(label.as_str()) == Some(role),
            None => false,
        };
        if matches {
            let ghost base = names.deep_view();
            let ghost trimmed = p.links.deep_view().map_values(|t: Seq<char>| trim(t));
            let ghost npred = |t: Seq<char>| t.len() > 0;
            let mut j: usize = 0;
            while j < p.links.len()
                invariant
                    j <= p.links@.len(),
                    trimmed == p.links.deep_view().map_values(|t: Seq<char>| trim(t)),
                    npred == (|t: Seq<char>| t.len() > 0),
                    names.deep_view() == base + trimmed.take(j as int).filter(npred),
                decreases p.links.len() - j,
            {
                proof {
                    reveal(Seq::filter);
                    assert(trimmed.take(j + 1).drop_last() =~= trimmed.take(j as int));
                }
                let name = trim_str(p.links[j].as_str());
                if !name.as_str().is_empty() {
                    let ghost before = names.deep_view();
                    names.push(name);
                    assert(names.deep_view() =~= before.push(trimmed[j as int]));
                }
                j = j + 1;
            }
            assert(trimmed.take(p.links@.len() as int) =~= trimmed);
        }
        i = i + 1;
    }
    assert(paragraphs@.take(paragraphs@.len() as int) =~= paragraphs@);
    join_strs(names.as_slice(), ", ")
}

/// An element of the commission index page, in document order: a type heading (`h4`) or a
/// link (`a`), each with its text nodes concatenated.
pub enum IndexElement {
    Heading { text: String },
    Link { href: Option<String>, text: String },
}

/// One commission listed on the index page.
pub struct CommissionIndex {
    pub name: String,
    pub ctype: String,
    pub url: String,
    pub cache_path: String,
}

/// The absolute URL of an index link: kept when it starts with `http`, else under the
/// chamber's `kvvcr/` path.
pub open spec fn index_url(href: Seq<char>) -> Seq<char> {
    if crate::text::starts_with(href, "http"@) { href } else { "https://www.dekamer.be/kvvcr/"@ + href }
}

/// The cache file of a commission: its name with spaces and slashes made underscores, under
/// the detail directory.
pub open spec fn index_cache_path(detail_dir: Seq<char>, name: Seq<char>) -> Seq<char> {
    detail_dir + seq!['/'] + replace(replace(name, " "@, "_"@), "/"@, "_"@) + ".html"@
}

/// Whether an index link names a commission: it has an `href` holding `/comm/com.cfm?com=`
/// and a text that is not blank.
pub open spec fn is_commission_link(href: Option<Seq<char>>, text: Seq<char>) -> bool {
    &&& href is Some
    &&& crate::text::contains(href->0, "/comm/com.cfm?com="@)
    &&& lowercase(trim(text)).len() > 0
}

/// The commission type in force after the first `k` elements: the lower-cased text of the
/// last heading with a text that is not blank, `unknown` before any.
pub open spec fn index_type_upto(elements: Seq<IndexElement>, k: int) -> Seq<char>
    decreases k,
{
    if k <= 0 {
        "unknown"@
    } else {
        match elements[k - 1] {
            IndexElement::Heading { text } =>
                if trim(text@).len() > 0 { lowercase(trim(text@)) } else { index_type_upto(elements, k - 1) },
            _ => index_type_upto(elements, k - 1),
        }
    }
}

/// The entries that the first `k` elements give: one per commission link, with the type in
/// force at it.
pub open spec fn index_entries_upto(elements: Seq<IndexElement>, k: int, detail_dir: Seq<char>)
    -> Seq<(Seq<char>, Seq<char>, Seq<char>, Seq<char>)>
    decreases k,
{
    if k <= 0 {
        Seq::empty()
    } else {
        let prev = index_entries_upto(elements, k - 1, detail_dir);
        match elements[k - 1] {
            IndexElement::Link { href, text } =>
                if is_commission_link(href.deep_view(), text@) {
                    let name = lowercase(trim(text@));
                    prev.push((name, index_type_upto(elements, k - 1), index_url(href->0@), index_cache_path(detail_dir, name)))
                } else {
                    prev
                },
            _ => prev,
        }
    }
}

pub open spec fn index_view(e: CommissionIndex) -> (Seq<char>, Seq<char>, Seq<char>, Seq<char>) {
    (e.name@, e.ctype@, e.url@, e.cache_path@)
}

/// The commissions listed on the index page, with their type, URL and cache file.
pub fn extract_index(elements: &Vec<IndexElement>, detail_dir: &str) -> (r: Vec<CommissionIndex>)
    ensures
        r@.map_values(|e: CommissionIndex| index_view(e)) == index_entries_upto(elements@, elements@.len() as int, detail_dir@),
{
    proof {
        reveal_strlit("unknown");
        reveal_strlit("http");
        reveal_strlit(" ");
        reveal_strlit("_");
        reveal_strlit("/");
        reveal_strlit(".html");
    }
    let mut entries: Vec<CommissionIndex> = Vec::new();
    let mut current_type = crate::text::owned("unknown");
    let mut i: usize = 0;
    while i < elements.len()
        invariant
            i <= elements@.len(),
            current_type@ == index_type_upto(elements@, i as int),
            entries@.map_values(|e: CommissionIndex| index_view(e)) == index_entries_upto(elements@, i as int, detail_dir@),
        decreases elements.len() - i,
    {
        proof {
            reveal_strlit("http");
            reveal_strlit(" ");
            reveal_strlit("_");
            reveal_strlit("/");
            reveal_strlit(".html");
        }
        match &elements[i] {
            IndexElement::Heading { text } => {
                let t = trim_str(text.as_str());
                if t.as_str().unicode_len() > 0 {
                    current_type = to_lower(t.as_str());
                }
            },
            IndexElement::Link { href, text } => {
                match href {
                    Some(h) => {
                        if crate::text::str_contains(h.as_str(), "/comm/com.cfm?com=") {
                            let name = to_lower(trim_str(text.as_str()).as_str());
                            if name.as_str().unicode_len() > 0 {
                                let url = if crate::text::str_starts_with(h.as_str(), "http") {
                                    h.clone()
                                } else {
                                    crate::text::concat("https://www.dekamer.be/kvvcr/", h.as_str())
                                };
                                let safe1 = crate::text::replace_str(name.as_str(), " ", "_");
                                let safe = crate::text::replace_str(safe1.as_str(), "/", "_");
                                let mut cache_path = crate::text::owned(detail_dir);
                                crate::text::push_char(&mut cache_path, '/');
                                crate::text::push_str(&mut cache_path, safe.as_str());
                                crate::text::push_str(&mut cache_path, ".html");
                                assert(cache_path@ =~= index_cache_path(detail_dir@, name@));
                                assert(url@ == index_url(h@));
                                assert(is_commission_link(href.deep_view(), text@));
                                let e = CommissionIndex { name, ctype: current_type.clone(), url, cache_path };
                                assert(index_view(e) == (lowercase(trim(text@)), index_type_upto(elements@, i as int),
                                    index_url(h@), index_cache_path(detail_dir@, lowercase(trim(text@)))));
                                let ghost before = entries@.map_values(|e: CommissionIndex| index_view(e));
                                entries.push(e);
                                assert(entries@.map_values(|e: CommissionIndex| index_view(e)) =~= before.push(index_view(e)));
                            }
                        }
                    },
                    None => {},
                }
            },
        }
        i = i + 1;
    }
    entries
}

} // verus!
