//! Identifier formats and small text normalisations shared by the scrapers.
use vstd::prelude::*;
use crate::text::{
    decimal, decimal_int, from_char_range, from_chars, i64_to_string, is_ascii_alpha, lowercase, owned,
    push_char, push_decimal, push_str, replace, replace_char_str, starts_with, str_eq, str_starts_with,
    strip_leading, strip_leading_str, to_chars, to_lower, to_upper, trim, trim_str, u64_to_string,
    uppercase,
};

verus! {

/// The line break that report text folds to a space.
pub const NEWLINE: char = '\n';
/// The soft hyphen that report text drops.
pub const SOFT_HYPHEN: char = '\u{ad}';
/// The non-breaking space that report text folds to a space.
pub const NON_BREAKING_SPACE: char = '\u{a0}';

pub open spec fn underscore() -> Seq<char> {
    seq!['_']
}

/// `{session_id}_{meeting_id}_{seq}`.
pub open spec fn composite_id_spec(session_id: u32, meeting_id: u32, seq: i32) -> Seq<char> {
    decimal(session_id as nat) + underscore() + decimal(meeting_id as nat) + underscore()
        + decimal_int(seq as int)
}

/// `{session_id}_{scope}_{meeting_id}_{seq}`.
pub open spec fn composite_scoped_id_spec(session_id: u32, scope: Seq<char>, meeting_id: u32, seq: i32) -> Seq<char> {
    decimal(session_id as nat) + underscore() + scope + underscore() + decimal(meeting_id as nat)
        + underscore() + decimal_int(seq as int)
}

/// `{session}_{kind}_{meeting}_agenda_{start_block}`.
pub open spec fn agenda_item_id_spec(session_id: u32, kind: Seq<char>, meeting_id: u32, start_block: u32) -> Seq<char> {
    decimal(session_id as nat) + underscore() + kind + underscore() + decimal(meeting_id as nat)
        + seq!['_', 'a', 'g', 'e', 'n', 'd', 'a', '_'] + decimal(start_block as nat)
}

/// Stable staging id: `{session_id}_{meeting_id}_{seq}` (seq is 0-based per meeting).
pub fn composite_id(session_id: u32, meeting_id: u32, seq: i32) -> (r: String)
    ensures
        r@ == composite_id_spec(session_id, meeting_id, seq),
{
    let mut s = u64_to_string(session_id as u64);
    push_char(&mut s, '_');
    push_decimal(&mut s, meeting_id as u64);
    push_char(&mut s, '_');
    let t = i64_to_string(seq as i64);
    push_str(&mut s, &t);
    s
}

/// Meeting-kind-scoped id: `{session_id}_{scope}_{meeting_id}_{seq}`.
/// Used for questions so plenary and commission meeting numbers do not collide.
pub fn composite_scoped_id(session_id: u32, scope: &str, meeting_id: u32, seq: i32) -> (r: String)
    ensures
        r@ == composite_scoped_id_spec(session_id, scope@, meeting_id, seq),
{
    let mut s = u64_to_string(session_id as u64);
    push_char(&mut s, '_');
    push_str(&mut s, scope);
    push_char(&mut s, '_');
    push_decimal(&mut s, meeting_id as u64);
    push_char(&mut s, '_');
    let t = i64_to_string(seq as i64);
    push_str(&mut s, &t);
    s
}

/// Stable AgendaItem node id: `{session}_{kind}_{meeting}_agenda_{start_block}`.
///
/// Printed agenda numbers (`"15"`) are not unique within a meeting; the timeline
/// `start_block` is. Example: `56_plenary_42_agenda_596`.
pub fn agenda_item_id(session_id: u32, meeting_kind: &str, meeting_id: u32, start_block: u32) -> (r: String)
    ensures
        r@ == agenda_item_id_spec(session_id, meeting_kind@, meeting_id, start_block),
{
    let mut s = u64_to_string(session_id as u64);
    push_char(&mut s, '_');
    push_str(&mut s, meeting_kind);
    push_char(&mut s, '_');
    push_decimal(&mut s, meeting_id as u64);
    push_char(&mut s, '_');
    push_char(&mut s, 'a');
    push_char(&mut s, 'g');
    push_char(&mut s, 'e');
    push_char(&mut s, 'n');
    push_char(&mut s, 'd');
    push_char(&mut s, 'a');
    push_char(&mut s, '_');
    push_decimal(&mut s, start_block as u64);
    s
}

/// Whether some ASCII letter occurs in `s`.
pub open spec fn has_ascii_alpha(s: Seq<char>) -> bool {
    exists|i: int| 0 <= i < s.len() && is_ascii_alpha(s[i])
}

/// True when `id` looks like a site-native FLWB document key (e.g. `56K1280004`), not a
/// dossier sub-number from vote title parentheses like `(297/10)`.
pub open spec fn is_flwb_document_id_spec(id: Seq<char>) -> bool {
    (vstd::utf8::encode_utf8(trim(id)).len() as usize) >= 8 && has_ascii_alpha(trim(id))
}

pub fn is_flwb_document_id(id: &str) -> (r: bool)
    ensures
        r == is_flwb_document_id_spec(id@),
{
    let t = trim_str(id);
    if t.as_str().len() < 8 {
        return false;
    }
    let v = to_chars(t.as_str());
    let mut i: usize = 0;
    while i < v.len()
        invariant
            i <= v.len(),
            v@ == trim(id@),
            (vstd::utf8::encode_utf8(trim(id@)).len() as usize) >= 8,
            forall|j: int| 0 <= j < i ==> !is_ascii_alpha(v@[j]),
        decreases v.len() - i,
    {
        let c = v[i];
        if ('a' <= c && c <= 'z') || ('A' <= c && c <= 'Z') {
            assert(is_ascii_alpha(v@[i as int]));
            return true;
        }
        i = i + 1;
    }
    false
}

/// Normalise oral-question / interpellation site refs for lookup (`Q56001216P` or `56001216P`):
/// trimmed, leading `Q`s then `q`s removed, upper-cased, any remaining `i` made `I`.
pub open spec fn normalize_site_ref_spec(raw: Seq<char>) -> Seq<char> {
    replace(uppercase(strip_leading(strip_leading(trim(raw), 'Q'), 'q')), seq!['i'], seq!['I'])
}

pub fn normalize_site_ref(raw: &str) -> (r: String)
    ensures
        r@ == normalize_site_ref_spec(raw@),
{
    let t = trim_str(raw);
    let a = strip_leading_str(&t, 'Q');
    let b = strip_leading_str(&a, 'q');
    let up = to_upper(&b);
    let mut cap = String::new();
    push_char(&mut cap, 'I');
    assert(cap@ =~= seq!['I']);
    replace_char_str(&up, 'i', &cap)
}

/// Upgrade legacy question ids (`{session}_{meeting}_{seq}`) using meeting kind from context.
pub open spec fn ensure_question_id_spec(session_id: Seq<char>, meeting_kind: Seq<char>, question_id: Seq<char>) -> Seq<char> {
    let scoped = session_id + underscore() + meeting_kind + underscore();
    let session_prefix = session_id + underscore();
    if starts_with(question_id, scoped) {
        question_id
    } else {
        let rest = if starts_with(question_id, session_prefix) {
            question_id.skip(session_prefix.len() as int)
        } else {
            question_id
        };
        scoped + rest
    }
}

pub fn ensure_question_id(session_id: &str, meeting_kind: &str, question_id: &str) -> (r: String)
    ensures
        r@ == ensure_question_id_spec(session_id@, meeting_kind@, question_id@),
{
    let mut scoped = owned(session_id);
    push_char(&mut scoped, '_');
    push_str(&mut scoped, meeting_kind);
    push_char(&mut scoped, '_');
    assert(scoped@ =~= session_id@ + underscore() + meeting_kind@ + underscore());
    if str_starts_with(question_id, &scoped) {
        return owned(question_id);
    }
    let mut session_prefix = owned(session_id);
    push_char(&mut session_prefix, '_');
    assert(session_prefix@ =~= session_id@ + underscore());
    let q = to_chars(question_id);
    let rest = if str_starts_with(question_id, &session_prefix) {
        let n = to_chars(&session_prefix).len();
        let r = from_char_range(&q, n, q.len());
        assert(q@.subrange(n as int, q.len() as int) =~= question_id@.skip(n as int));
        r
    } else {
        owned(question_id)
    };
    let ghost sc = scoped@;
    push_str(&mut scoped, &rest);
    assert(scoped@ == sc + rest@);
    scoped
}

/// Upgrading a question id twice gives what upgrading it once gives.
pub proof fn lemma_ensure_question_id_idempotent(session_id: Seq<char>, meeting_kind: Seq<char>, question_id: Seq<char>)
    ensures
        ensure_question_id_spec(session_id, meeting_kind, ensure_question_id_spec(session_id, meeting_kind, question_id))
            == ensure_question_id_spec(session_id, meeting_kind, question_id),
{
    let scoped = session_id + underscore() + meeting_kind + underscore();
    let once = ensure_question_id_spec(session_id, meeting_kind, question_id);
    if !starts_with(question_id, scoped) {
        let session_prefix = session_id + underscore();
        let rest = if starts_with(question_id, session_prefix) {
            question_id.skip(session_prefix.len() as int)
        } else {
            question_id
        };
        assert(once == scoped + rest);
        assert((scoped + rest).take(scoped.len() as int) =~= scoped);
    }
    assert(starts_with(once, scoped));
}

/// Month number of a Dutch month name, compared after Unicode lower-casing.
pub open spec fn dutch_month_number_of_lower(m: Seq<char>) -> Option<u32> {
    if m == "januari"@ { Some(1u32) }
    else if m == "februari"@ { Some(2u32) }
    else if m == "maart"@ { Some(3u32) }
    else if m == "april"@ { Some(4u32) }
    else if m == "mei"@ { Some(5u32) }
    else if m == "juni"@ { Some(6u32) }
    else if m == "juli"@ { Some(7u32) }
    else if m == "augustus"@ { Some(8u32) }
    else if m == "september"@ { Some(9u32) }
    else if m == "oktober"@ { Some(10u32) }
    else if m == "november"@ { Some(11u32) }
    else if m == "december"@ { Some(12u32) }
    else { None }
}

/// The month number of an already lower-cased Dutch month name.
pub fn month_number_of_lower(m: &str) -> (r: Option<u32>)
    ensures
        r == dutch_month_number_of_lower(m@),
{
    if str_eq(m, "januari") { Some(1) }
    else if str_eq(m, "februari") { Some(2) }
    else if str_eq(m, "maart") { Some(3) }
    else if str_eq(m, "april") { Some(4) }
    else if str_eq(m, "mei") { Some(5) }
    else if str_eq(m, "juni") { Some(6) }
    else if str_eq(m, "juli") { Some(7) }
    else if str_eq(m, "augustus") { Some(8) }
    else if str_eq(m, "september") { Some(9) }
    else if str_eq(m, "oktober") { Some(10) }
    else if str_eq(m, "november") { Some(11) }
    else if str_eq(m, "december") { Some(12) }
    else { None }
}

pub fn dutch_month_to_number(month: &str) -> (r: Option<u32>)
    ensures
        r == dutch_month_number_of_lower(lowercase(month@)),
{
    let lower = to_lower(month);
    month_number_of_lower(&lower)
}

/// ASCII lower-casing of one character (`char::to_ascii_lowercase`).
pub open spec fn ascii_lower_char(c: char) -> char {
    if 'A' <= c && c <= 'Z' { (c as int + 32) as char } else { c }
}

/// `str::to_ascii_lowercase`.
pub open spec fn ascii_lower(s: Seq<char>) -> Seq<char> {
    s.map_values(|c: char| ascii_lower_char(c))
}

pub fn to_ascii_lower(s: &str) -> (r: String)
    ensures
        r@ == ascii_lower(s@),
{
    let v = to_chars(s);
    let mut out: Vec<char> = Vec::new();
    let mut i: usize = 0;
    while i < v.len()
        invariant
            i <= v.len(),
            v@ == s@,
            out@ == ascii_lower(s@).take(i as int),
        decreases v.len() - i,
    {
        let c = v[i];
        let d = if 'A' <= c && c <= 'Z' { ((c as u8) + 32) as char } else { c };
        out.push(d);
        assert(ascii_lower(s@).take(i + 1) =~= ascii_lower(s@).take(i as int).push(d));
        i = i + 1;
    }
    assert(ascii_lower(s@).take(v.len() as int) =~= ascii_lower(s@));
    from_chars(&out)
}

pub open spec fn dutch_language_code_spec(language: Seq<char>) -> Option<Seq<char>> {
    let l = ascii_lower(language);
    if l == "nederlands"@ { Some("NL"@) } else if l == "frans"@ { Some("FR"@) } else { None }
}

pub fn dutch_language_to_language_code(language: &str) -> (r: Option<&'static str>)
    ensures
        match r {
            Some(code) => dutch_language_code_spec(language@) == Some(code@),
            None => dutch_language_code_spec(language@) is None,
        },
{
    let l = to_ascii_lower(language);
    if str_eq(&l, "nederlands") {
        Some("NL")
    } else if str_eq(&l, "frans") {
        Some("FR")
    } else {
        None
    }
}

/// Report text cleanup: line breaks and non-breaking spaces become spaces, soft hyphens
/// disappear, and the result is trimmed.
pub open spec fn clean_text_spec(raw: Seq<char>) -> Seq<char> {
    trim(replace(replace(replace(raw, seq![NEWLINE], seq![' ']), seq![SOFT_HYPHEN], Seq::empty()),
        seq![NON_BREAKING_SPACE], seq![' ']))
}

pub fn clean_text(raw: &str) -> (r: String)
    ensures
        r@ == clean_text_spec(raw@),
{
    let mut space = String::new();
    push_char(&mut space, ' ');
    assert(space@ =~= seq![' ']);
    let empty = String::new();
    let a = replace_char_str(raw, NEWLINE, &space);
    let b = replace_char_str(&a, SOFT_HYPHEN, &empty);
    let c = replace_char_str(&b, NON_BREAKING_SPACE, &space);
    trim_str(&c)
}

/// The pattern of what a slug drops: anything but ASCII lower-case letters, digits,
/// whitespace and hyphens.
pub const SLUG_DROP_PATTERN: &'static str = r"[^a-z0-9\s-]";

/// The letters that a slug spells in ASCII, in the order they are replaced.
pub open spec fn slug_transliterated(s: Seq<char>) -> Seq<char> {
    replace(replace(replace(replace(replace(replace(replace(replace(replace(replace(s,
        "ä"@, "ae"@), "ö"@, "oe"@), "ü"@, "ue"@), "ß"@, "ss"@), "é"@, "e"@), "è"@, "e"@),
        "à"@, "a"@), "ç"@, "c"@), "ñ"@, "n"@), "ø"@, "o"@)
}

/// A slug of a name: lower-cased, common accented letters spelled in ASCII, everything but
/// ASCII letters, digits, whitespace and hyphens dropped, trimmed, and each space made a
/// hyphen.
pub open spec fn slug_of(name: Seq<char>) -> Seq<char> {
    replace(trim(crate::pattern::regex_remove_all(SLUG_DROP_PATTERN@, slug_transliterated(lowercase(name)))), " "@, "-"@)
}

pub fn slugify_name(name: &str) -> (r: String)
    ensures
        r@ == slug_of(name@),
{
    proof {
        reveal_strlit("ä");
        reveal_strlit("ö");
        reveal_strlit("ü");
        reveal_strlit("ß");
        reveal_strlit("é");
        reveal_strlit("è");
        reveal_strlit("à");
        reveal_strlit("ç");
        reveal_strlit("ñ");
        reveal_strlit("ø");
        reveal_strlit(" ");
    }
    let lower = to_lower(name);
    let t = crate::text::replace_str(lower.as_str(), "ä", "ae");
    let t = crate::text::replace_str(t.as_str(), "ö", "oe");
    let t = crate::text::replace_str(t.as_str(), "ü", "ue");
    let t = crate::text::replace_str(t.as_str(), "ß", "ss");
    let t = crate::text::replace_str(t.as_str(), "é", "e");
    let t = crate::text::replace_str(t.as_str(), "è", "e");
    let t = crate::text::replace_str(t.as_str(), "à", "a");
    let t = crate::text::replace_str(t.as_str(), "ç", "c");
    let t = crate::text::replace_str(t.as_str(), "ñ", "n");
    let t = crate::text::replace_str(t.as_str(), "ø", "o");
    let cleaned = crate::pattern::re_remove_all(SLUG_DROP_PATTERN, t.as_str());
    let trimmed = trim_str(cleaned.as_str());
    crate::text::replace_str(trimmed.as_str(), " ", "-")
}

/// The meeting id that a cached meeting file name carries: `{session}-{n}.html` with `n`
/// read as a `u32`.
pub open spec fn cached_meeting_id(session_id: u32, name: Seq<char>) -> Option<u32> {
    let prefix = decimal(session_id as nat) + seq!['-'];
    if starts_with(name, prefix) && crate::text::ends_with(name, ".html"@) && name.len() >= prefix.len() + 5 {
        crate::text::parse_u32(name.subrange(prefix.len() as int, name.len() - 5))
    } else {
        None
    }
}

/// The largest of the meeting ids carried by `names`, from the first `k` names.
pub open spec fn max_meeting_id_upto(session_id: u32, names: Seq<Seq<char>>, k: int) -> Option<u32>
    decreases k,
{
    if k <= 0 {
        None
    } else {
        let rest = max_meeting_id_upto(session_id, names, k - 1);
        match cached_meeting_id(session_id, names[k - 1]) {
            Some(id) => match rest {
                Some(m) => Some(if m >= id { m } else { id }),
                None => Some(id),
            },
            None => rest,
        }
    }
}

/// The highest meeting id among the names of the files in a meeting cache directory
/// (`{session}-{n}.html`), `None` when no name has that form.
pub fn max_cached_meeting_id(session_id: u32, names: &Vec<String>) -> (r: Option<u32>)
    ensures
        r == max_meeting_id_upto(session_id, names.deep_view(), names@.len() as int),
{
    let mut prefix = String::new();
    push_decimal(&mut prefix, session_id as u64);
    push_char(&mut prefix, '-');
    let ghost pv = decimal(session_id as nat) + seq!['-'];
    assert(prefix@ =~= pv);
    proof {
        reveal_strlit(".html");
    }
    let mut best: Option<u32> = None;
    let mut i: usize = 0;
    while i < names.len()
        invariant
            i <= names@.len(),
            prefix@ == pv,
            pv == decimal(session_id as nat) + seq!['-'],
            ".html"@.len() == 5,
            best == max_meeting_id_upto(session_id, names.deep_view(), i as int),
        decreases names.len() - i,
    {
        let name = names[i].as_str();
        let mut id: Option<u32> = None;
        if str_starts_with(name, prefix.as_str()) && crate::text::str_ends_with(name, ".html") {
            let v = to_chars(name);
            let p = prefix.as_str().unicode_len();
            if v.len() >= 5 && v.len() - 5 >= p {
                let mid = from_char_range(&v, p, v.len() - 5);
                id = crate::text::parse_u32_str(mid.as_str());
            }
        }
        assert(id == cached_meeting_id(session_id, names.deep_view()[i as int]));
        match id {
            Some(n) => {
                best = match best {
                    Some(m) => Some(if m >= n { m } else { n }),
                    None => Some(n),
                };
            },
            None => {},
        }
        i = i + 1;
    }
    best
}

/// A cache path made relative to the cache root: what follows the root and a `/` (further
/// leading `/` dropped), empty for the root itself, the path unchanged outside the root. The
/// root is taken without its trailing `/`.
pub open spec fn relative_path(full: Seq<char>, root: Seq<char>) -> Seq<char> {
    let r = crate::text::strip_trailing(root, '/');
    if full == r {
        Seq::empty()
    } else if starts_with(full, r.push('/')) {
        strip_leading(full.skip(r.len() as int + 1), '/')
    } else {
        full
    }
}

/// A cache path relative to the cache root, for portable provenance columns.
pub fn relative_cache_path(full_path: &str, cache_root: &str) -> (r: String)
    ensures
        r@ == relative_path(full_path@, cache_root@),
{
    let root = crate::text::strip_trailing_str(cache_root, '/');
    if str_eq(full_path, root.as_str()) {
        return String::new();
    }
    let mut with_sep = root.clone();
    push_char(&mut with_sep, '/');
    if str_starts_with(full_path, with_sep.as_str()) {
        let v = to_chars(full_path);
        let n = with_sep.as_str().unicode_len();
        let rest = from_char_range(&v, n, v.len());
        assert(rest@ =~= full_path@.skip(root@.len() as int + 1));
        strip_leading_str(rest.as_str(), '/')
    } else {
        owned(full_path)
    }
}

/// A path written under the cache root reads back relative to it: for a root that does not
/// end in `/` and a relative path that does not start with `/`, the path of
/// `{root}/{path}` relative to the root is `path`.
pub proof fn lemma_relative_path_of_joined(root: Seq<char>, path: Seq<char>)
    requires
        root.len() > 0 && root.last() != '/',
        path.len() == 0 || path[0] != '/',
    ensures
        relative_path(root + seq!['/'] + path, root) == path,
{
    assert(crate::text::strip_trailing(root, '/') == root);
    let full = root + seq!['/'] + path;
    assert(full.len() > root.len());
    assert(full != root);
    assert(full.take(root.len() as int + 1) =~= root.push('/'));
    assert(full.skip(root.len() as int + 1) =~= path);
    assert(strip_leading(path, '/') == path);
}

/// The placeholder values of the example environment file.
pub const PLACEHOLDER_PROJECT_NAME: &'static str = "yourproject";
pub const PLACEHOLDER_PROJECT_URL: &'static str = "yourproject.example";
pub const PLACEHOLDER_CONTACT_EMAIL: &'static str = "your@email.com";

/// The user agent that identifies the scraper: `{name}/0.1 (+{url}; {email})`.
pub open spec fn user_agent_of(project_name: Seq<char>, project_url: Seq<char>, contact_email: Seq<char>) -> Seq<char> {
    project_name + "/0.1 (+"@ + project_url + "; "@ + contact_email + seq![')']
}

/// The scraper's user agent, refused while any identity value is still its placeholder.
pub fn scraping_user_agent(project_name: &str, project_url: &str, contact_email: &str) -> (r: Result<String, String>)
    ensures
        r is Err <==> (project_name@ == PLACEHOLDER_PROJECT_NAME@ || project_url@ == PLACEHOLDER_PROJECT_URL@
            || contact_email@ == PLACEHOLDER_CONTACT_EMAIL@),
        r matches Ok(ua) ==> ua@ == user_agent_of(project_name@, project_url@, contact_email@),
{
    if str_eq(project_name, PLACEHOLDER_PROJECT_NAME) || str_eq(project_url, PLACEHOLDER_PROJECT_URL)
        || str_eq(contact_email, PLACEHOLDER_CONTACT_EMAIL) {
        let mut msg = owned("SCRAPER_PROJECT_NAME, SCRAPER_PROJECT_URL or SCRAPER_CONTACT_EMAIL is still set to the placeholder value from .env.example (got url=");
        push_str(&mut msg, project_url);
        push_str(&mut msg, ", email=");
        push_str(&mut msg, contact_email);
        push_str(&mut msg, "). Set real values before scraping.");
        return Err(msg);
    }
    let mut ua = owned(project_name);
    push_str(&mut ua, "/0.1 (+");
    push_str(&mut ua, project_url);
    push_str(&mut ua, "; ");
    push_str(&mut ua, contact_email);
    push_char(&mut ua, ')');
    assert(ua@ =~= user_agent_of(project_name@, project_url@, contact_email@));
    Ok(ua)
}

} // verus!
