//! Character-level text model shared by all parsers.
//!
//! Every string operation used by the crawler is specified here over the
//! character sequence (`Seq<char>`) that a `&str` or `String` views as.
use vstd::prelude::*;

verus! {

broadcast use vstd::string::group_string_axioms;

// ---------------------------------------------------------------------------
// Specifications
// ---------------------------------------------------------------------------

/// Unicode `White_Space`, the property behind `char::is_whitespace`.
pub open spec fn is_ws(c: char) -> bool {
    ||| ('\u{9}' <= c && c <= '\u{d}')
    ||| c == ' '
    ||| c == '\u{85}'
    ||| c == '\u{a0}'
    ||| c == '\u{1680}'
    ||| ('\u{2000}' <= c && c <= '\u{200a}')
    ||| c == '\u{2028}'
    ||| c == '\u{2029}'
    ||| c == '\u{202f}'
    ||| c == '\u{205f}'
    ||| c == '\u{3000}'
}

pub open spec fn is_digit(c: char) -> bool {
    '0' <= c && c <= '9'
}

pub open spec fn is_ascii_alpha(c: char) -> bool {
    ('a' <= c && c <= 'z') || ('A' <= c && c <= 'Z')
}

/// `s` with leading whitespace removed.
pub open spec fn trim_start(s: Seq<char>) -> Seq<char>
    decreases s.len(),
{
    if s.len() > 0 && is_ws(s[0]) {
        trim_start(s.drop_first())
    } else {
        s
    }
}

/// `s` with trailing whitespace removed.
pub open spec fn trim_end(s: Seq<char>) -> Seq<char>
    decreases s.len(),
{
    if s.len() > 0 && is_ws(s.last()) {
        trim_end(s.drop_last())
    } else {
        s
    }
}

/// `str::trim`.
pub open spec fn trim(s: Seq<char>) -> Seq<char> {
    trim_end(trim_start(s))
}

proof fn lemma_trim_start_len(s: Seq<char>)
    ensures
        trim_start(s).len() <= s.len(),
        trim_start(s).len() > 0 ==> !is_ws(trim_start(s)[0]),
    decreases s.len(),
{
    if s.len() > 0 && is_ws(s[0]) {
        lemma_trim_start_len(s.drop_first());
    }
}

proof fn lemma_trim_end_len(s: Seq<char>)
    ensures
        trim_end(s).len() <= s.len(),
        s.len() > 0 && !is_ws(s[0]) ==> trim_end(s).len() > 0,
    decreases s.len(),
{
    if s.len() > 0 && is_ws(s.last()) {
        lemma_trim_end_len(s.drop_last());
        if s.len() > 1 && !is_ws(s[0]) {
            assert(s.drop_last()[0] == s[0]);
        }
    }
}

proof fn lemma_trim_start_nonblank(s: Seq<char>, i: int)
    requires
        0 <= i < s.len(),
        !is_ws(s[i]),
    ensures
        trim_start(s).len() > 0,
    decreases s.len(),
{
    if is_ws(s[0]) {
        assert(s.drop_first()[i - 1] == s[i]);
        lemma_trim_start_nonblank(s.drop_first(), i - 1);
    }
}

/// A string with a character that is not blank stays non-empty once trimmed.
pub proof fn lemma_trim_nonblank(s: Seq<char>, i: int)
    requires
        0 <= i < s.len(),
        !is_ws(s[i]),
    ensures
        trim(s).len() > 0,
{
    lemma_trim_start_nonblank(s, i);
    lemma_trim_start_len(s);
    lemma_trim_end_len(trim_start(s));
}

/// A trimmed, non-empty string does not start with a blank.
pub proof fn lemma_trimmed_first_not_blank(s: Seq<char>)
    requires
        s.len() > 0,
        trim(s) == s,
    ensures
        !is_ws(s[0]),
{
    if is_ws(s[0]) {
        lemma_trim_start_len(s.drop_first());
        assert(trim_start(s) == trim_start(s.drop_first()));
        lemma_trim_end_len(trim_start(s));
    }
}

/// `s` with every leading occurrence of `c` removed (`trim_start_matches(c)`).
pub open spec fn strip_leading(s: Seq<char>, c: char) -> Seq<char>
    decreases s.len(),
{
    if s.len() > 0 && s[0] == c {
        strip_leading(s.drop_first(), c)
    } else {
        s
    }
}

/// `s` with every trailing occurrence of `c` removed (`trim_end_matches(c)`).
pub open spec fn strip_trailing(s: Seq<char>, c: char) -> Seq<char>
    decreases s.len(),
{
    if s.len() > 0 && s.last() == c {
        strip_trailing(s.drop_last(), c)
    } else {
        s
    }
}

pub open spec fn occurs_at(h: Seq<char>, n: Seq<char>, i: int) -> bool {
    0 <= i && i + n.len() <= h.len() && h.subrange(i, i + n.len()) == n
}

/// An occurrence ends within the text.
pub proof fn lemma_occurs_at_bound(h: Seq<char>, n: Seq<char>, i: int)
    requires
        occurs_at(h, n, i),
    ensures
        i + n.len() <= h.len(),
{
}

/// `str::contains` with a string pattern.
pub open spec fn contains(h: Seq<char>, n: Seq<char>) -> bool {
    exists|i: int| #[trigger] occurs_at(h, n, i)
}

pub open spec fn starts_with(h: Seq<char>, n: Seq<char>) -> bool {
    n.len() <= h.len() && h.take(n.len() as int) == n
}

pub open spec fn ends_with(h: Seq<char>, n: Seq<char>) -> bool {
    n.len() <= h.len() && h.skip(h.len() - n.len()) == n
}

/// Whether character `c` occurs in `s`.
pub open spec fn has_char(s: Seq<char>, c: char) -> bool {
    exists|i: int| 0 <= i < s.len() && s[i] == c
}

/// Index of the first occurrence of `n` in `h`, as `str::find` gives it (in characters).
pub open spec fn first_occurrence(h: Seq<char>, n: Seq<char>) -> Option<int> {
    if contains(h, n) {
        Some(choose|i: int| occurs_at(h, n, i) && forall|j: int| 0 <= j < i ==> !occurs_at(h, n, j))
    } else {
        None
    }
}

/// Left-to-right, non-overlapping replacement of the non-empty pattern `p` by `r` (`str::replace`).
pub open spec fn replace(s: Seq<char>, p: Seq<char>, r: Seq<char>) -> Seq<char>
    decreases s.len(),
{
    if p.len() == 0 || s.len() < p.len() {
        s
    } else if s.take(p.len() as int) == p {
        r + replace(s.skip(p.len() as int), p, r)
    } else {
        seq![s[0]] + replace(s.drop_first(), p, r)
    }
}

/// Pieces of `cur + s` split at every `c` (`str::split(c)`), where `cur` is the piece in progress.
pub open spec fn split_from(cur: Seq<char>, s: Seq<char>, c: char) -> Seq<Seq<char>>
    decreases s.len(),
{
    if s.len() == 0 {
        seq![cur]
    } else if s[0] == c {
        seq![cur] + split_from(Seq::empty(), s.drop_first(), c)
    } else {
        split_from(cur.push(s[0]), s.drop_first(), c)
    }
}

/// A split yields at least one piece.
pub proof fn lemma_split_from_nonempty(cur: Seq<char>, s: Seq<char>, c: char)
    ensures
        split_from(cur, s, c).len() >= 1,
    decreases s.len(),
{
    if s.len() > 0 {
        if s[0] == c {
            lemma_split_from_nonempty(Seq::empty(), s.drop_first(), c);
        } else {
            lemma_split_from_nonempty(cur.push(s[0]), s.drop_first(), c);
        }
    }
}

/// `str::split` yields at least one piece.
pub proof fn lemma_split_nonempty(s: Seq<char>, c: char)
    ensures
        split(s, c).len() >= 1,
{
    lemma_split_from_nonempty(Seq::empty(), s, c);
}

/// `str::split(c)`.
pub open spec fn split(s: Seq<char>, c: char) -> Seq<Seq<char>> {
    split_from(Seq::empty(), s, c)
}

/// Words of `cur + s` (`str::split_whitespace`), where `cur` is a word in progress.
pub open spec fn words_from(cur: Seq<char>, s: Seq<char>) -> Seq<Seq<char>>
    decreases s.len(),
{
    if s.len() == 0 {
        if cur.len() > 0 { seq![cur] } else { Seq::empty() }
    } else if is_ws(s[0]) {
        (if cur.len() > 0 { seq![cur] } else { Seq::empty() }) + words_from(Seq::empty(), s.drop_first())
    } else {
        words_from(cur.push(s[0]), s.drop_first())
    }
}

/// `str::split_whitespace`.
pub open spec fn words(s: Seq<char>) -> Seq<Seq<char>> {
    words_from(Seq::empty(), s)
}

/// `parts.join(sep)`.
pub open spec fn join(parts: Seq<Seq<char>>, sep: Seq<char>) -> Seq<char>
    decreases parts.len(),
{
    if parts.len() == 0 {
        Seq::empty()
    } else if parts.len() == 1 {
        parts[0]
    } else {
        join(parts.drop_last(), sep) + sep + parts.last()
    }
}

pub open spec fn digit_char(d: nat) -> char {
    if d == 0 { '0' } else if d == 1 { '1' } else if d == 2 { '2' } else if d == 3 { '3' }
    else if d == 4 { '4' } else if d == 5 { '5' } else if d == 6 { '6' } else if d == 7 { '7' }
    else if d == 8 { '8' } else { '9' }
}

pub open spec fn digit_value(c: char) -> nat {
    (c as int - '0' as int) as nat
}

/// Decimal rendering of a natural number, as `Display` prints it.
pub open spec fn decimal(n: nat) -> Seq<char>
    decreases n,
{
    if n < 10 {
        seq![digit_char(n)]
    } else {
        decimal(n / 10).push(digit_char(n % 10))
    }
}

/// Decimal rendering of a signed integer.
pub open spec fn decimal_int(n: int) -> Seq<char> {
    if n < 0 { seq!['-'] + decimal((-n) as nat) } else { decimal(n as nat) }
}

pub open spec fn all_digits(s: Seq<char>) -> bool {
    forall|i: int| 0 <= i < s.len() ==> is_digit(#[trigger] s[i])
}

/// Value of a string of decimal digits.
pub open spec fn digits_value(s: Seq<char>) -> nat
    decreases s.len(),
{
    if s.len() == 0 {
        0
    } else {
        digits_value(s.drop_last()) * 10 + digit_value(s.last())
    }
}

/// The digits that `u32::from_str` reads: an optional leading `+`, then the rest.
pub open spec fn unsigned_body(s: Seq<char>) -> Seq<char> {
    if s.len() > 0 && s[0] == '+' { s.drop_first() } else { s }
}

/// `s.parse::<u32>().ok()`.
pub open spec fn parse_u32(s: Seq<char>) -> Option<u32> {
    let b = unsigned_body(s);
    if b.len() > 0 && all_digits(b) && digits_value(b) <= u32::MAX {
        Some(digits_value(b) as u32)
    } else {
        None
    }
}

// ---------------------------------------------------------------------------
// Trusted std items that vstd leaves unspecified
// ---------------------------------------------------------------------------

/// What `str::to_lowercase` returns for a character sequence (Unicode lowercase mapping).
pub uninterp spec fn lowercase(s: Seq<char>) -> Seq<char>;

/// What `str::to_uppercase` returns for a character sequence (Unicode uppercase mapping).
pub uninterp spec fn uppercase(s: Seq<char>) -> Seq<char>;

/// Whether `char::is_alphabetic` holds (Unicode `Alphabetic` property).
pub uninterp spec fn alphabetic(c: char) -> bool;

/// `String::push`: appends `c` to the end of `s`.
#[verifier::external_body]
fn string_push(s: &mut String, c: char)
    ensures
        final(s)@ == old(s)@.push(c),
{
    s.push(c);
}

/// `str::to_lowercase`; the result is named by `lowercase`.
#[verifier::external_body]
pub fn to_lower(s: &str) -> (r: String)
    ensures
        r@ == lowercase(s@),
{
    s.to_lowercase()
}

/// `str::to_uppercase`; the result is named by `uppercase`.
#[verifier::external_body]
pub fn to_upper(s: &str) -> (r: String)
    ensures
        r@ == uppercase(s@),
{
    s.to_uppercase()
}

/// `char::is_alphabetic`; the result is named by `alphabetic`.
#[verifier::external_body]
pub fn is_alphabetic(c: char) -> (r: bool)
    ensures
        r == alphabetic(c),
{
    c.is_alphabetic()
}

// ---------------------------------------------------------------------------
// Conversions
// ---------------------------------------------------------------------------

/// The characters of `s`, in order.
pub fn to_chars(s: &str) -> (r: Vec<char>)
    ensures
        r@ == s@,
{
    let mut out: Vec<char> = Vec::new();
    for c in it: s.chars()
        invariant
            out@ == it.seq().take(it.index()),
            it.seq() == s@,
    {
        out.push(c);
    }
    assert(out@ == s@.take(s@.len() as int));
    out
}

/// The string made of the characters `v`.
pub fn from_chars(v: &[char]) -> (r: String)
    ensures
        r@ == v@,
{
    let mut out = String::new();
    let mut i: usize = 0;
    while i < v.len()
        invariant
            i <= v.len(),
            out@ == v@.take(i as int),
        decreases v.len() - i,
    {
        string_push(&mut out, v[i]);
        assert(v@.take(i as int).push(v@[i as int]) == v@.take(i + 1));
        i = i + 1;
    }
    assert(v@.take(v.len() as int) == v@);
    out
}

/// The string made of the characters `v[a..b]`.
pub fn from_char_range(v: &[char], a: usize, b: usize) -> (r: String)
    requires
        a <= b <= v.len(),
    ensures
        r@ == v@.subrange(a as int, b as int),
{
    let mut out = String::new();
    let mut i: usize = a;
    while i < b
        invariant
            a <= i <= b <= v.len(),
            out@ == v@.subrange(a as int, i as int),
        decreases b - i,
    {
        string_push(&mut out, v[i]);
        assert(v@.subrange(a as int, i as int).push(v@[i as int]) == v@.subrange(a as int, i + 1));
        i = i + 1;
    }
    out
}

/// A copy of `s` as an owned string.
pub fn owned(s: &str) -> (r: String)
    ensures
        r@ == s@,
{
    s.to_string()
}

/// `s` with one character appended.
pub fn push_char(s: &mut String, c: char)
    ensures
        final(s)@ == old(s)@.push(c),
{
    string_push(s, c);
}

/// `s` with the text `t` appended.
pub fn push_str(s: &mut String, t: &str)
    ensures
        final(s)@ == old(s)@ + t@,
{
    let v = to_chars(t);
    let mut i: usize = 0;
    let ghost s0 = s@;
    while i < v.len()
        invariant
            i <= v.len(),
            v@ == t@,
            s@ == s0 + v@.take(i as int),
        decreases v.len() - i,
    {
        string_push(s, v[i]);
        assert(v@.take(i as int).push(v@[i as int]) == v@.take(i + 1));
        i = i + 1;
    }
    assert(v@.take(v.len() as int) == v@);
}

/// `a` followed by `b`.
pub fn concat(a: &str, b: &str) -> (r: String)
    ensures
        r@ == a@ + b@,
{
    let mut s = a.to_string();
    push_str(&mut s, b);
    s
}


// ---------------------------------------------------------------------------
// Character predicates
// ---------------------------------------------------------------------------

pub fn is_ws_char(c: char) -> (r: bool)
    ensures
        r == is_ws(c),
{
    ('\u{9}' <= c && c <= '\u{d}') || c == ' ' || c == '\u{85}' || c == '\u{a0}' || c == '\u{1680}'
        || ('\u{2000}' <= c && c <= '\u{200a}') || c == '\u{2028}' || c == '\u{2029}'
        || c == '\u{202f}' || c == '\u{205f}' || c == '\u{3000}'
}

pub fn is_digit_char(c: char) -> (r: bool)
    ensures
        r == is_digit(c),
{
    '0' <= c && c <= '9'
}

// ---------------------------------------------------------------------------
// Searching
// ---------------------------------------------------------------------------

/// Whether `n` occurs in `h` at character position `i`.
pub fn occurs_at_exec(h: &[char], n: &[char], i: usize) -> (r: bool)
    ensures
        r == occurs_at(h@, n@, i as int),
{
    if i > h.len() || n.len() > h.len() - i {
        return false;
    }
    let mut k: usize = 0;
    while k < n.len()
        invariant
            i + n.len() <= h.len(),
            k <= n.len(),
            forall|j: int| 0 <= j < k ==> h@[i + j] == n@[j],
        decreases n.len() - k,
    {
        if h[i + k] != n[k] {
            assert(h@.subrange(i as int, i + n.len())[k as int] != n@[k as int]);
            return false;
        }
        k = k + 1;
    }
    assert(h@.subrange(i as int, i + n.len()) =~= n@);
    true
}

/// First character position at which `n` occurs in `h`.
pub fn find_chars(h: &[char], n: &[char]) -> (r: Option<usize>)
    ensures
        match r { Some(i) => first_occurrence(h@, n@) == Some(i as int), None => first_occurrence(h@, n@) is None },
        r matches Some(i) ==> occurs_at(h@, n@, i as int),
        r is None <==> !contains(h@, n@),
{
    if n.len() > h.len() {
        assert forall|i: int| !#[trigger] occurs_at(h@, n@, i) by {}
        return None;
    }
    let last = h.len() - n.len();
    let mut i: usize = 0;
    loop
        invariant
            n.len() <= h.len(),
            last == h.len() - n.len(),
            i <= last,
            forall|j: int| 0 <= j < i ==> !#[trigger] occurs_at(h@, n@, j),
        ensures
            forall|j: int| 0 <= j <= last ==> !#[trigger] occurs_at(h@, n@, j),
        decreases last - i,
    {
        if occurs_at_exec(h, n, i) {
            proof {
                let w = i as int;
                assert(contains(h@, n@));
                let c = choose|k: int| occurs_at(h@, n@, k) && forall|j: int| 0 <= j < k ==> !occurs_at(h@, n@, j);
                assert(occurs_at(h@, n@, w) && forall|j: int| 0 <= j < w ==> !occurs_at(h@, n@, j));
                if c < w {
                } else if c > w {
                    assert(!occurs_at(h@, n@, w));
                }
                assert(c == w);
            }
            return Some(i);
        }
        if i == last {
            break;
        }
        i = i + 1;
    }
    assert forall|j: int| !#[trigger] occurs_at(h@, n@, j) by {
        if 0 <= j && j + n.len() <= h.len() {
            assert(j <= last);
        }
    }
    None
}

/// Whether `n` occurs in `h`.
pub fn contains_chars(h: &[char], n: &[char]) -> (r: bool)
    ensures
        r == contains(h@, n@),
{
    find_chars(h, n).is_some()
}

/// `str::contains`.
pub fn str_contains(h: &str, n: &str) -> (r: bool)
    ensures
        r == contains(h@, n@),
{
    let hv = to_chars(h);
    let nv = to_chars(n);
    contains_chars(&hv, &nv)
}

/// `str::find`, in characters.
pub fn str_find(h: &str, n: &str) -> (r: Option<usize>)
    ensures
        match r { Some(i) => first_occurrence(h@, n@) == Some(i as int), None => first_occurrence(h@, n@) is None },
        r matches Some(i) ==> occurs_at(h@, n@, i as int),
        r is None <==> !contains(h@, n@),
{
    let hv = to_chars(h);
    let nv = to_chars(n);
    find_chars(&hv, &nv)
}

pub fn starts_with_chars(h: &[char], n: &[char]) -> (r: bool)
    ensures
        r == starts_with(h@, n@),
{
    let r = occurs_at_exec(h, n, 0);
    proof {
        if n.len() <= h.len() {
            assert(h@.subrange(0, n.len() as int) == h@.take(n.len() as int));
        }
    }
    r
}

pub fn ends_with_chars(h: &[char], n: &[char]) -> (r: bool)
    ensures
        r == ends_with(h@, n@),
{
    if n.len() > h.len() {
        return false;
    }
    let r = occurs_at_exec(h, n, h.len() - n.len());
    assert(h@.subrange(h.len() - n.len(), h.len() as int) == h@.skip(h.len() - n.len()));
    r
}

/// `str::starts_with`.
pub fn str_starts_with(h: &str, n: &str) -> (r: bool)
    ensures
        r == starts_with(h@, n@),
{
    let hv = to_chars(h);
    let nv = to_chars(n);
    starts_with_chars(&hv, &nv)
}

/// `str::ends_with`.
pub fn str_ends_with(h: &str, n: &str) -> (r: bool)
    ensures
        r == ends_with(h@, n@),
{
    let hv = to_chars(h);
    let nv = to_chars(n);
    ends_with_chars(&hv, &nv)
}

/// Whether `c` occurs in `s`.
pub fn str_has_char(s: &str, c: char) -> (r: bool)
    ensures
        r == has_char(s@, c),
{
    let v = to_chars(s);
    let mut i: usize = 0;
    while i < v.len()
        invariant
            i <= v.len(),
            v@ == s@,
            forall|j: int| 0 <= j < i ==> v@[j] != c,
        decreases v.len() - i,
    {
        if v[i] == c {
            return true;
        }
        i = i + 1;
    }
    false
}

/// Whether two strings hold the same characters.
pub fn str_eq(a: &str, b: &str) -> (r: bool)
    ensures
        r == (a@ == b@),
{
    let av = to_chars(a);
    let bv = to_chars(b);
    if av.len() != bv.len() {
        return false;
    }
    let mut i: usize = 0;
    while i < av.len()
        invariant
            av.len() == bv.len(),
            i <= av.len(),
            av@ == a@,
            bv@ == b@,
            forall|j: int| 0 <= j < i ==> av@[j] == bv@[j],
        decreases av.len() - i,
    {
        if av[i] != bv[i] {
            return false;
        }
        i = i + 1;
    }
    assert(av@ =~= bv@);
    true
}


// ---------------------------------------------------------------------------
// Trimming
// ---------------------------------------------------------------------------

proof fn lemma_skip_step(s: Seq<char>, i: int)
    requires
        0 <= i < s.len(),
    ensures
        s.skip(i)[0] == s[i],
        s.skip(i).drop_first() == s.skip(i + 1),
        s.skip(i).len() > 0,
{
    assert(s.skip(i).drop_first() =~= s.skip(i + 1));
}

proof fn lemma_sub_step(s: Seq<char>, i: int, j: int)
    requires
        0 <= i < j <= s.len(),
    ensures
        s.subrange(i, j).last() == s[j - 1],
        s.subrange(i, j).drop_last() == s.subrange(i, j - 1),
        s.subrange(i, j).len() > 0,
{
    assert(s.subrange(i, j).drop_last() =~= s.subrange(i, j - 1));
}

/// Character bounds `[a, b)` of `v` that `str::trim` keeps.
pub fn trim_bounds(v: &[char]) -> (r: (usize, usize))
    ensures
        r.0 <= r.1 <= v.len(),
        v@.subrange(r.0 as int, r.1 as int) == trim(v@),
        v@.skip(r.0 as int) == trim_start(v@),
{
    let mut i: usize = 0;
    assert(v@.skip(0) =~= v@);
    while i < v.len() && is_ws_char(v[i])
        invariant
            i <= v.len(),
            trim_start(v@.skip(i as int)) == trim_start(v@),
        decreases v.len() - i,
    {
        proof {
            lemma_skip_step(v@, i as int);
        }
        i = i + 1;
    }
    proof {
        if i < v.len() {
            lemma_skip_step(v@, i as int);
        } else {
            assert(v@.skip(i as int).len() == 0);
        }
    }
    assert(trim_start(v@) == v@.skip(i as int));
    let mut j: usize = v.len();
    assert(v@.subrange(i as int, j as int) == v@.skip(i as int));
    while j > i && is_ws_char(v[j - 1])
        invariant
            i <= j <= v.len(),
            trim_end(v@.subrange(i as int, j as int)) == trim(v@),
        decreases j - i,
    {
        proof {
            lemma_sub_step(v@, i as int, j as int);
        }
        j = j - 1;
    }
    proof {
        if j > i {
            lemma_sub_step(v@, i as int, j as int);
        }
    }
    (i, j)
}

/// `str::trim`.
pub fn trim_str(s: &str) -> (r: String)
    ensures
        r@ == trim(s@),
{
    let v = to_chars(s);
    let (a, b) = trim_bounds(&v);
    from_char_range(&v, a, b)
}

/// `str::trim_start`.
pub fn trim_start_str(s: &str) -> (r: String)
    ensures
        r@ == trim_start(s@),
{
    let v = to_chars(s);
    let (a, _b) = trim_bounds(&v);
    from_char_range(&v, a, v.len())
}

/// `s.trim_start_matches(c)`.
pub fn strip_leading_str(s: &str, c: char) -> (r: String)
    ensures
        r@ == strip_leading(s@, c),
{
    let v = to_chars(s);
    let mut i: usize = 0;
    assert(v@.skip(0) =~= v@);
    while i < v.len() && v[i] == c
        invariant
            i <= v.len(),
            v@ == s@,
            strip_leading(v@.skip(i as int), c) == strip_leading(v@, c),
        decreases v.len() - i,
    {
        proof {
            lemma_skip_step(v@, i as int);
        }
        i = i + 1;
    }
    proof {
        if i < v.len() {
            lemma_skip_step(v@, i as int);
        }
    }
    from_char_range(&v, i, v.len())
}

/// `s.trim_end_matches(c)`.
pub fn strip_trailing_str(s: &str, c: char) -> (r: String)
    ensures
        r@ == strip_trailing(s@, c),
{
    let v = to_chars(s);
    let mut j: usize = v.len();
    assert(v@.subrange(0, j as int) == v@);
    while j > 0 && v[j - 1] == c
        invariant
            j <= v.len(),
            v@ == s@,
            strip_trailing(v@.subrange(0, j as int), c) == strip_trailing(v@, c),
        decreases j,
    {
        proof {
            lemma_sub_step(v@, 0, j as int);
        }
        j = j - 1;
    }
    proof {
        if j > 0 {
            lemma_sub_step(v@, 0, j as int);
        }
    }
    from_char_range(&v, 0, j)
}

// ---------------------------------------------------------------------------
// Splitting, joining, replacing
// ---------------------------------------------------------------------------

/// `str::split(c)`, each piece owned.
pub fn split_str(s: &str, c: char) -> (r: Vec<String>)
    ensures
        r.deep_view() == split(s@, c),
{
    let v = to_chars(s);
    let mut out: Vec<String> = Vec::new();
    let mut cur: Vec<char> = Vec::new();
    let mut i: usize = 0;
    assert(v@.skip(0) =~= v@);
    assert(out.deep_view() =~= Seq::<Seq<char>>::empty());
    assert(cur@ =~= Seq::<char>::empty());
    while i < v.len()
        invariant
            i <= v.len(),
            v@ == s@,
            out.deep_view() + split_from(cur@, v@.skip(i as int), c) == split(s@, c),
        decreases v.len() - i,
    {
        proof {
            lemma_skip_step(v@, i as int);
        }
        if v[i] == c {
            let piece = from_chars(&cur);
            let ghost before = out.deep_view();
            out.push(piece);
            assert(out.deep_view() =~= before.push(cur@));
            assert(before + split_from(cur@, v@.skip(i as int), c) =~= out.deep_view()
                + split_from(Seq::empty(), v@.skip(i + 1), c));
            cur = Vec::new();
        } else {
            cur.push(v[i]);
        }
        i = i + 1;
    }
    assert(v@.skip(i as int).len() == 0);
    let piece = from_chars(&cur);
    let ghost before = out.deep_view();
    out.push(piece);
    assert(out.deep_view() =~= before.push(cur@));
    out
}

/// `str::split_whitespace`, each word owned.
pub fn words_str(s: &str) -> (r: Vec<String>)
    ensures
        r.deep_view() == words(s@),
{
    let v = to_chars(s);
    let mut out: Vec<String> = Vec::new();
    let mut cur: Vec<char> = Vec::new();
    let mut i: usize = 0;
    assert(v@.skip(0) =~= v@);
    assert(out.deep_view() =~= Seq::<Seq<char>>::empty());
    assert(cur@ =~= Seq::<char>::empty());
    while i < v.len()
        invariant
            i <= v.len(),
            v@ == s@,
            out.deep_view() + words_from(cur@, v@.skip(i as int)) == words(s@),
        decreases v.len() - i,
    {
        proof {
            lemma_skip_step(v@, i as int);
        }
        if is_ws_char(v[i]) {
            if cur.len() > 0 {
                let piece = from_chars(&cur);
                let ghost before = out.deep_view();
                out.push(piece);
                assert(out.deep_view() =~= before.push(cur@));
                assert(before + words_from(cur@, v@.skip(i as int)) =~= out.deep_view()
                    + words_from(Seq::empty(), v@.skip(i + 1)));
            } else {
                assert(out.deep_view() + words_from(cur@, v@.skip(i as int)) =~= out.deep_view()
                    + words_from(Seq::empty(), v@.skip(i + 1)));
            }
            cur = Vec::new();
        } else {
            cur.push(v[i]);
        }
        i = i + 1;
    }
    assert(v@.skip(i as int).len() == 0);
    if cur.len() > 0 {
        let piece = from_chars(&cur);
        let ghost before = out.deep_view();
        out.push(piece);
        assert(out.deep_view() =~= before.push(cur@));
    } else {
        assert(out.deep_view() =~= out.deep_view() + Seq::<Seq<char>>::empty());
    }
    out
}

/// `parts.join(sep)`.
pub fn join_strs(parts: &[String], sep: &str) -> (r: String)
    ensures
        r@ == join(parts.deep_view(), sep@),
{
    let mut out = String::new();
    let mut i: usize = 0;
    while i < parts.len()
        invariant
            i <= parts.len(),
            out@ == join(parts.deep_view().take(i as int), sep@),
        decreases parts.len() - i,
    {
        proof {
            assert(parts.deep_view().take(i + 1).drop_last() =~= parts.deep_view().take(i as int));
        }
        if i > 0 {
            push_str(&mut out, sep);
        } else {
            assert(out@ == Seq::<char>::empty());
        }
        push_str(&mut out, parts[i].as_str());
        assert(parts.deep_view().take(i + 1).last() == parts[i as int]@);
        i = i + 1;
    }
    assert(parts.deep_view().take(parts.len() as int) =~= parts.deep_view());
    out
}

/// `s.replace(p, r)` for a non-empty pattern `p`.
pub fn replace_str(s: &str, p: &str, r: &str) -> (out: String)
    requires
        p@.len() > 0,
    ensures
        out@ == replace(s@, p@, r@),
{
    let v = to_chars(s);
    let pv = to_chars(p);
    let mut out = String::new();
    let mut i: usize = 0;
    assert(v@.skip(0) =~= v@);
    while i < v.len()
        invariant
            i <= v.len(),
            v@ == s@,
            pv@ == p@,
            p@.len() > 0,
            out@ + replace(v@.skip(i as int), p@, r@) == replace(s@, p@, r@),
        decreases v.len() - i,
    {
        let ghost rest = v@.skip(i as int);
        if pv.len() <= v.len() - i && occurs_at_exec(&v, &pv, i) {
            proof {
                assert(rest.take(p@.len() as int) =~= v@.subrange(i as int, i + p@.len()));
                assert(rest.skip(p@.len() as int) =~= v@.skip(i + p@.len()));
            }
            push_str(&mut out, r);
            i = i + pv.len();
        } else {
            proof {
                lemma_skip_step(v@, i as int);
                if p@.len() <= rest.len() {
                    assert(rest.take(p@.len() as int) =~= v@.subrange(i as int, i + p@.len()));
                }
            }
            push_char(&mut out, v[i]);
            i = i + 1;
        }
    }
    assert(v@.skip(i as int).len() == 0);
    out
}


/// `s.replace(c, r)` for a single character `c`.
pub fn replace_char_str(s: &str, c: char, r: &str) -> (out: String)
    ensures
        out@ == replace(s@, seq![c], r@),
{
    let mut p = String::new();
    push_char(&mut p, c);
    assert(p@ =~= seq![c]);
    replace_str(s, &p, r)
}



// ---------------------------------------------------------------------------
// Ordering (the order of `str`'s `Ord`: lexicographic by character)
// ---------------------------------------------------------------------------

/// `a < b` in the order of `str`'s `Ord`: UTF-8 bytes compare in the order of the
/// characters they encode, so this is the lexicographic order on characters.
pub open spec fn seq_less(a: Seq<char>, b: Seq<char>) -> bool {
    (exists|i: int|
        0 <= i < a.len() && i < b.len() && a.take(i) == b.take(i) && #[trigger] a[i] < b[i])
        || (a.len() < b.len() && a == b.take(a.len() as int))
}

/// A list sorted as `slice::sort` sorts strings, each element once.
pub open spec fn sorted_distinct(v: Seq<Seq<char>>) -> bool {
    &&& v.no_duplicates()
    &&& forall|i: int| 0 <= i < v.len() - 1 ==> seq_less(#[trigger] v[i], v[i + 1])
}

/// Distinct strings are ordered one way or the other.
pub proof fn lemma_seq_less_total(a: Seq<char>, b: Seq<char>)
    requires
        a != b,
    ensures
        seq_less(a, b) || seq_less(b, a),
    decreases a.len(),
{
    if a.len() == 0 {
        if b.len() == 0 {
            assert(a =~= b);
        }
        assert(a =~= b.take(0));
    } else if b.len() == 0 {
        assert(b =~= a.take(0));
    } else if a[0] != b[0] {
        assert(a.take(0) =~= b.take(0));
        if a[0] < b[0] {
            assert(seq_less(a, b));
        } else {
            assert(b[0] < a[0]);
            assert(seq_less(b, a));
        }
    } else {
        let a1 = a.drop_first();
        let b1 = b.drop_first();
        assert(a =~= seq![a[0]] + a1);
        assert(b =~= seq![b[0]] + b1);
        lemma_seq_less_total(a1, b1);
        if seq_less(a1, b1) {
            lemma_seq_less_cons(a[0], a1, b1);
        } else {
            lemma_seq_less_cons(a[0], b1, a1);
        }
    }
}

proof fn lemma_seq_less_cons(c: char, a: Seq<char>, b: Seq<char>)
    requires
        seq_less(a, b),
    ensures
        seq_less(seq![c] + a, seq![c] + b),
{
    let ca = seq![c] + a;
    let cb = seq![c] + b;
    if exists|i: int| 0 <= i < a.len() && i < b.len() && a.take(i) == b.take(i) && #[trigger] a[i] < b[i] {
        let i = choose|i: int| 0 <= i < a.len() && i < b.len() && a.take(i) == b.take(i) && #[trigger] a[i] < b[i];
        assert(ca.take(i + 1) =~= seq![c] + a.take(i));
        assert(cb.take(i + 1) =~= seq![c] + b.take(i));
        assert(ca[i + 1] == a[i]);
        assert(cb[i + 1] == b[i]);
        assert(0 <= i + 1 < ca.len() && i + 1 < cb.len() && ca.take(i + 1) == cb.take(i + 1) && ca[i + 1] < cb[i + 1]);
    } else {
        assert(cb.take(ca.len() as int) =~= seq![c] + b.take(a.len() as int));
    }
}

pub fn str_less(a: &str, b: &str) -> (r: bool)
    ensures
        r == seq_less(a@, b@),
{
    let av = to_chars(a);
    let bv = to_chars(b);
    let mut i: usize = 0;
    while i < av.len() && i < bv.len()
        invariant
            i <= av.len(),
            i <= bv.len(),
            av@ == a@,
            bv@ == b@,
            av@.take(i as int) == bv@.take(i as int),
        decreases av.len() - i,
    {
        if av[i] != bv[i] {
            let lt = av[i] < bv[i];
            proof {
                if !lt {
                    assert forall|k: int| 0 <= k < a@.len() && k < b@.len() && a@.take(k) == b@.take(k) implies !(#[trigger] a@[k] < b@[k]) by {
                        if k < i {
                            assert(a@.take(i as int)[k] == a@[k]);
                            assert(b@.take(i as int)[k] == b@[k]);
                        } else if k > i {
                            assert(a@.take(k)[i as int] == a@[i as int]);
                            assert(b@.take(k)[i as int] == b@[i as int]);
                        }
                    }
                    if a@.len() < b@.len() && a@ == b@.take(a@.len() as int) {
                        assert(b@.take(a@.len() as int)[i as int] == b@[i as int]);
                    }
                } else {
                    assert(a@[i as int] < b@[i as int]);
                }
            }
            return lt;
        }
        assert(av@.take(i + 1) =~= av@.take(i as int).push(av@[i as int]));
        assert(bv@.take(i + 1) =~= bv@.take(i as int).push(bv@[i as int]));
        i = i + 1;
    }
    proof {
        assert forall|k: int| 0 <= k < a@.len() && k < b@.len() && a@.take(k) == b@.take(k) implies !(#[trigger] a@[k] < b@[k]) by {
            assert(a@.take(i as int)[k] == a@[k]);
            assert(b@.take(i as int)[k] == b@[k]);
        }
        if av.len() < bv.len() {
            assert(a@ =~= av@.take(i as int));
        }
    }
    av.len() < bv.len()
}

/// Insert a string that the sorted list does not hold, at its place.
fn insert_sorted_new(out: &mut Vec<String>, x: &String)
    requires
        sorted_distinct(old(out).deep_view()),
        !old(out).deep_view().contains(x@),
    ensures
        sorted_distinct(final(out).deep_view()),
        forall|y: Seq<char>| final(out).deep_view().contains(y) <==> (old(out).deep_view().contains(y) || y == x@),
{
    let mut p: usize = 0;
    while p < out.len() && str_less(out[p].as_str(), x.as_str())
        invariant
            p <= out.len(),
            forall|k: int| 0 <= k < p ==> seq_less(#[trigger] out.deep_view()[k], x@),
        decreases out.len() - p,
    {
        p = p + 1;
    }
    let ghost before = out.deep_view();
    proof {
        if p < before.len() {
            assert(before.contains(before[p as int]));
            assert(before[p as int] != x@);
            lemma_seq_less_total(before[p as int], x@);
        }
    }
    out.insert(p, x.clone());
    proof {
        let o = out.deep_view();
        assert(o =~= before.take(p as int).push(x@) + before.skip(p as int));
        assert forall|k: int| 0 <= k < o.len() - 1 implies seq_less(#[trigger] o[k], o[k + 1]) by {
            if k + 1 < p {
                assert(o[k] == before[k]);
                assert(o[k + 1] == before[k + 1]);
            } else if k + 1 == p {
                assert(o[k] == before[k]);
            } else if k == p {
                assert(o[k + 1] == before[p as int]);
            } else {
                assert(o[k] == before[k - 1]);
                assert(o[k + 1] == before[k]);
            }
        }
        assert forall|a: int, b: int| 0 <= a < b < o.len() implies o[a] != o[b] by {
            if a < p && b < p {
                assert(o[a] == before[a] && o[b] == before[b]);
            } else if a < p && b == p {
                assert(before.contains(o[a]));
            } else if a < p && b > p {
                assert(o[a] == before[a] && o[b] == before[b - 1]);
            } else if a == p {
                assert(o[b] == before[b - 1]);
                assert(before.contains(o[b]));
            } else {
                assert(o[a] == before[a - 1] && o[b] == before[b - 1]);
            }
        }
        assert forall|y: Seq<char>| o.contains(y) <==> (before.contains(y) || y == x@) by {
            if o.contains(y) {
                let k = choose|k: int| 0 <= k < o.len() && o[k] == y;
                if k < p {
                    assert(before[k] == y);
                } else if k > p {
                    assert(before[k - 1] == y);
                }
            }
            if before.contains(y) {
                let k = choose|k: int| 0 <= k < before.len() && before[k] == y;
                if k < p {
                    assert(o[k] == y);
                } else {
                    assert(o[k + 1] == y);
                }
            }
            if y == x@ {
                assert(o[p as int] == y);
            }
        }
    }
}

/// Whether the list holds `x`.
pub fn strings_contain(v: &Vec<String>, x: &str) -> (r: bool)
    ensures
        r == v.deep_view().contains(x@),
{
    let mut q: usize = 0;
    while q < v.len()
        invariant
            q <= v.len(),
            forall|k: int| 0 <= k < q ==> #[trigger] v.deep_view()[k] != x@,
        decreases v.len() - q,
    {
        if str_eq(v[q].as_str(), x) {
            assert(v.deep_view()[q as int] == x@);
            return true;
        }
        q = q + 1;
    }
    false
}

/// The strings of `v`, sorted and each kept once (`sort` then `dedup`).
pub fn sort_dedup_strings(v: &Vec<String>) -> (r: Vec<String>)
    ensures
        sorted_distinct(r.deep_view()),
        forall|x: Seq<char>| r.deep_view().contains(x) <==> v.deep_view().contains(x),
{
    let mut out: Vec<String> = Vec::new();
    let mut i: usize = 0;
    while i < v.len()
        invariant
            i <= v.len(),
            sorted_distinct(out.deep_view()),
            forall|x: Seq<char>| out.deep_view().contains(x) <==> v.deep_view().take(i as int).contains(x),
        decreases v.len() - i,
    {
        let ghost t = v.deep_view();
        proof {
            assert(t.take(i + 1) =~= t.take(i as int).push(t[i as int]));
            assert forall|y: Seq<char>| t.take(i + 1).contains(y) <==> (t.take(i as int).contains(y) || y == t[i as int]) by {
                if t.take(i + 1).contains(y) {
                    let k = choose|k: int| 0 <= k < t.take(i + 1).len() && #[trigger] t.take(i + 1)[k] == y;
                    if k < i {
                        assert(t.take(i as int)[k] == y);
                    }
                }
                if t.take(i as int).contains(y) {
                    let k = choose|k: int| 0 <= k < t.take(i as int).len() && #[trigger] t.take(i as int)[k] == y;
                    assert(t.take(i + 1)[k] == y);
                }
                if y == t[i as int] {
                    assert(t.take(i + 1)[i as int] == y);
                }
            }
        }
        if !strings_contain(&out, v[i].as_str()) {
            insert_sorted_new(&mut out, &v[i]);
        }
        i = i + 1;
    }
    assert(v.deep_view().take(v.len() as int) =~= v.deep_view());
    out
}

// ---------------------------------------------------------------------------
// Numbers
// ---------------------------------------------------------------------------

proof fn lemma_digits_value_mono(s: Seq<char>, i: int)
    requires
        0 <= i <= s.len(),
    ensures
        digits_value(s.take(i)) <= digits_value(s),
    decreases s.len() - i,
{
    if i < s.len() {
        lemma_digits_value_mono(s, i + 1);
        assert(s.take(i + 1).drop_last() =~= s.take(i));
    } else {
        assert(s.take(i) =~= s);
    }
}

/// `s.parse::<u32>().ok()`.
pub fn parse_u32_str(s: &str) -> (r: Option<u32>)
    ensures
        r == parse_u32(s@),
{
    let v = to_chars(s);
    let start: usize = if v.len() > 0 && v[0] == '+' { 1 } else { 0 };
    let ghost b = unsigned_body(s@);
    assert(b =~= v@.skip(start as int));
    if start >= v.len() {
        return None;
    }
    let mut acc: u64 = 0;
    let mut i: usize = start;
    while i < v.len()
        invariant
            start <= i <= v.len(),
            v@ == s@,
            b == v@.skip(start as int),
            b == unsigned_body(s@),
            all_digits(b.take(i - start)),
            acc == digits_value(b.take(i - start)),
            acc <= u32::MAX,
        decreases v.len() - i,
    {
        let c = v[i];
        if !is_digit_char(c) {
            assert(b[i - start] == c);
            assert(!is_digit(b[i - start]));
            assert(!all_digits(b));
            return None;
        }
        let d = (c as u64) - ('0' as u64);
        assert(b.take(i - start + 1).drop_last() =~= b.take(i - start));
        assert(b.take(i - start + 1).last() == c);
        let next = acc * 10 + d;
        assert(digit_value(c) == d);
        assert(digits_value(b.take(i - start + 1)) == next);
        if next > 4294967295u64 {
            proof {
                lemma_digits_value_mono(b, i - start + 1);
            }
            assert(digits_value(b) > u32::MAX);
            return None;
        }
        assert(all_digits(b.take(i - start + 1)));
        acc = next;
        i = i + 1;
    }
    assert(b.take(i - start) =~= b);
    Some(acc as u32)
}

/// A decimal rendering is all digits and reads back as its number.
proof fn lemma_digit_roundtrip(d: nat)
    requires
        d < 10,
    ensures
        digit_value(digit_char(d)) == d,
        is_digit(digit_char(d)),
{
    if d == 0 {} else if d == 1 {} else if d == 2 {} else if d == 3 {} else if d == 4 {}
    else if d == 5 {} else if d == 6 {} else if d == 7 {} else if d == 8 {} else {}
}

pub proof fn lemma_decimal_digits(n: nat)
    ensures
        digits_value(decimal(n)) == n,
        forall|i: int| 0 <= i < decimal(n).len() ==> is_digit(#[trigger] decimal(n)[i]),
    decreases n,
{
    lemma_digit_roundtrip(n % 10);
    assert(n == (n / 10) * 10 + n % 10) by (nonlinear_arith);
    if n >= 10 {
        lemma_decimal_digits(n / 10);
        let d = decimal(n);
        assert(d.drop_last() =~= decimal(n / 10));
        assert(d.last() == digit_char(n % 10));
        assert(digits_value(d) == digits_value(d.drop_last()) * 10 + digit_value(d.last()));
        assert forall|i: int| 0 <= i < d.len() implies is_digit(#[trigger] d[i]) by {
            if i < d.len() - 1 {
                assert(d[i] == decimal(n / 10)[i]);
            }
        }
    } else {
        let d = decimal(n);
        assert(d.drop_last() =~= Seq::<char>::empty());
        assert(n % 10 == n);
        assert(digits_value(d) == digits_value(d.drop_last()) * 10 + digit_value(d.last()));
    }
}

/// Different numbers have different decimal renderings.
pub proof fn lemma_decimal_injective(a: nat, b: nat)
    requires
        decimal(a) == decimal(b),
    ensures
        a == b,
{
    lemma_decimal_digits(a);
    lemma_decimal_digits(b);
}

proof fn lemma_decimal_len(n: nat)
    ensures
        decimal(n).len() >= 1,
        n < 10 ==> decimal(n).len() == 1,
    decreases n,
{
    if n >= 10 {
        lemma_decimal_len(n / 10);
    }
}

/// Appends the decimal rendering of `n` to `out`.
pub fn push_decimal(out: &mut String, n: u64)
    ensures
        final(out)@ == old(out)@ + decimal(n as nat),
    decreases n,
{
    if n >= 10 {
        push_decimal(out, n / 10);
    }
    let d = n % 10;
    let c: char = if d == 0 { '0' } else if d == 1 { '1' } else if d == 2 { '2' } else if d == 3 {
        '3'
    } else if d == 4 { '4' } else if d == 5 { '5' } else if d == 6 { '6' } else if d == 7 {
        '7'
    } else if d == 8 { '8' } else { '9' };
    push_char(out, c);
    proof {
        if n < 10 {
            assert(d == n);
        } else {
            assert(decimal(n as nat) == decimal((n / 10) as nat).push(digit_char((n % 10) as nat)));
        }
    }
}

/// `n.to_string()`.
pub fn u64_to_string(n: u64) -> (r: String)
    ensures
        r@ == decimal(n as nat),
{
    let mut s = String::new();
    push_decimal(&mut s, n);
    s
}

/// `n.to_string()` for a signed integer.
pub fn i64_to_string(n: i64) -> (r: String)
    ensures
        r@ == decimal_int(n as int),
{
    let mut s = String::new();
    if n < 0 {
        push_char(&mut s, '-');
        let m: u64 = if n == i64::MIN { 9223372036854775808u64 } else { (-n) as u64 };
        push_decimal(&mut s, m);
    } else {
        push_decimal(&mut s, n as u64);
    }
    s
}

/// `str::split(sep)` for a non-empty separator: the pieces between the successive
/// leftmost occurrences of `sep`.
#[verifier::opaque]
pub open spec fn split_on(s: Seq<char>, sep: Seq<char>) -> Seq<Seq<char>>
    decreases s.len(),
{
    if sep.len() == 0 {
        seq![s]
    } else {
        match first_occurrence(s, sep) {
            Some(i) => if 0 <= i && i + sep.len() <= s.len() {
                seq![s.take(i)] + split_on(s.skip(i + sep.len()), sep)
            } else {
                seq![s]
            },
            None => seq![s],
        }
    }
}

/// Splitting at the leftmost occurrence of the separator.
pub proof fn lemma_split_on_found(s: Seq<char>, sep: Seq<char>, i: int)
    requires
        sep.len() > 0,
        first_occurrence(s, sep) == Some(i),
        occurs_at(s, sep, i),
    ensures
        split_on(s, sep) == seq![s.take(i)] + split_on(s.skip(i + sep.len()), sep),
{
    reveal(split_on);
}

/// A text without the separator is one piece.
pub proof fn lemma_split_on_none(s: Seq<char>, sep: Seq<char>)
    requires
        sep.len() > 0,
        first_occurrence(s, sep) is None,
    ensures
        split_on(s, sep) == seq![s],
{
    reveal(split_on);
}

/// The piece before the leftmost separator and the text after it, if there is one.
#[verifier::spinoff_prover]
#[verifier::rlimit(40)]
fn split_once_str(s: &str, sep: &str) -> (r: Option<(String, String)>)
    requires
        sep@.len() > 0,
    ensures
        match r {
            Some((a, b)) => split_on(s@, sep@) == seq![a@] + split_on(b@, sep@) && b@.len() < s@.len(),
            None => split_on(s@, sep@) == seq![s@],
        },
{
    let sv = to_chars(s);
    let pv = to_chars(sep);
    match find_chars(&sv, &pv) {
        Some(i) => {
            proof {
                lemma_occurs_at_bound(sv@, pv@, i as int);
                lemma_split_on_found(s@, sep@, i as int);
            }
            let plen = pv.len();
            let slen = sv.len();
            assert(occurs_at(sv@, pv@, i as int));
            assert(i + plen <= slen);
            let a = from_char_range(&sv, 0, i);
            let j: usize = i + plen;
            let b = from_char_range(&sv, j, slen);
            assert(a@ =~= s@.take(i as int));
            assert(b@ =~= s@.skip(i + sep@.len()));
            Some((a, b))
        },
        None => {
            proof {
                lemma_split_on_none(s@, sep@);
            }
            None
        },
    }
}

/// `s.split(sep)`, each piece owned.
pub fn split_on_str(s: &str, sep: &str) -> (r: Vec<String>)
    requires
        sep@.len() > 0,
    ensures
        r.deep_view() == split_on(s@, sep@),
{
    let mut out: Vec<String> = Vec::new();
    let mut rest = owned(s);
    assert(out.deep_view() + split_on(rest@, sep@) =~= split_on(s@, sep@));
    loop
        invariant
            sep@.len() > 0,
            out.deep_view() + split_on(rest@, sep@) == split_on(s@, sep@),
        decreases rest@.len(),
    {
        match split_once_str(rest.as_str(), sep) {
            Some((a, b)) => {
                let ghost before = out.deep_view();
                out.push(a);
                assert(out.deep_view() + split_on(b@, sep@) =~= before + split_on(rest@, sep@));
                rest = b;
            },
            None => {
                let ghost before = out.deep_view();
                out.push(rest);
                assert(out.deep_view() =~= split_on(s@, sep@));
                return out;
            },
        }
    }
}
/// No string sorts before itself.
pub proof fn lemma_seq_less_irrefl(a: Seq<char>)
    ensures
        !seq_less(a, a),
{
}

/// The order of strings is transitive.
pub proof fn lemma_seq_less_trans(a: Seq<char>, b: Seq<char>, c: Seq<char>)
    requires
        seq_less(a, b),
        seq_less(b, c),
    ensures
        seq_less(a, c),
{
    let p1ab = exists|i: int| 0 <= i < a.len() && i < b.len() && a.take(i) == b.take(i) && #[trigger] a[i] < b[i];
    let p1bc = exists|i: int| 0 <= i < b.len() && i < c.len() && b.take(i) == c.take(i) && #[trigger] b[i] < c[i];
    if p1ab {
        let i = choose|i: int| 0 <= i < a.len() && i < b.len() && a.take(i) == b.take(i) && #[trigger] a[i] < b[i];
        if p1bc {
            let j = choose|j: int| 0 <= j < b.len() && j < c.len() && b.take(j) == c.take(j) && #[trigger] b[j] < c[j];
            if i < j {
                assert(b.take(i) =~= c.take(j).take(i));
                assert(c.take(i) =~= c.take(j).take(i));
                assert(b.take(j)[i] == b[i]);
                assert(c.take(j)[i] == c[i]);
                assert(a.take(i) == c.take(i) && a[i] < c[i]);
            } else if j < i {
                assert(a.take(j) =~= a.take(i).take(j));
                assert(b.take(j) =~= b.take(i).take(j));
                assert(a.take(i)[j] == a[j]);
                assert(b.take(i)[j] == b[j]);
                assert(a.take(j) == c.take(j) && a[j] < c[j]);
            } else {
                assert(a.take(i) == c.take(i) && a[i] < c[i]);
            }
        } else {
            assert(b.len() < c.len() && b == c.take(b.len() as int));
            assert(c[i] == b[i]);
            assert(c.take(i) =~= b.take(i));
            assert(a.take(i) == c.take(i) && a[i] < c[i]);
        }
    } else {
        assert(a.len() < b.len() && a == b.take(a.len() as int));
        if p1bc {
            let j = choose|j: int| 0 <= j < b.len() && j < c.len() && b.take(j) == c.take(j) && #[trigger] b[j] < c[j];
            if j < a.len() {
                assert(a[j] == b[j]);
                assert(a.take(j) =~= b.take(j));
                assert(a.take(j) == c.take(j) && a[j] < c[j]);
            } else {
                assert(a =~= c.take(a.len() as int)) by {
                    assert forall|k: int| 0 <= k < a.len() implies a[k] == c.take(a.len() as int)[k] by {
                        assert(a[k] == b[k]);
                        assert(b.take(j)[k] == b[k]);
                        assert(c.take(j)[k] == c[k]);
                    }
                }
            }
        } else {
            assert(b.len() < c.len() && b == c.take(b.len() as int));
            assert(a =~= c.take(a.len() as int)) by {
                assert forall|k: int| 0 <= k < a.len() implies a[k] == c.take(a.len() as int)[k] by {
                    assert(a[k] == b[k]);
                    assert(b[k] == c[k]);
                }
            }
        }
    }
}

/// At most one of two strings sorts before the other.
pub proof fn lemma_seq_less_asym(a: Seq<char>, b: Seq<char>)
    requires
        seq_less(a, b),
    ensures
        !seq_less(b, a),
{
    if seq_less(b, a) {
        lemma_seq_less_trans(a, b, a);
        lemma_seq_less_irrefl(a);
    }
}

/// "Does not sort before" is transitive.
pub proof fn lemma_seq_less_not_less_trans(a: Seq<char>, b: Seq<char>, c: Seq<char>)
    requires
        !seq_less(a, b),
        !seq_less(b, c),
    ensures
        !seq_less(a, c),
{
    if seq_less(a, c) {
        if a == b {
        } else {
            lemma_seq_less_total(a, b);
            lemma_seq_less_trans(b, a, c);
        }
    }
}

} // verus!
