//! Documented refresh intervals for mutable sources, and calendar arithmetic on
//! RFC 3339 day stamps.
use vstd::prelude::*;
use crate::text::{str_eq, to_chars, all_digits, digits_value, is_digit_char};

verus! {

/// Maximum age in days before a mutable source is considered stale.
#[derive(Clone, Copy)]
pub struct FreshnessPolicy {
    pub source: &'static str,
    pub max_age_days: i64,
}

/// The documented maximum age of each mutable source.
pub open spec fn policy_max_age(source: Seq<char>) -> Option<i64> {
    if source == "sessions"@ { Some(7i64) }
    else if source == "members"@ { Some(7i64) }
    else if source == "commissions"@ { Some(7i64) }
    else if source == "lobby"@ { Some(30i64) }
    else if source == "remunerations"@ { Some(30i64) }
    else if source == "dossiers"@ { Some(7i64) }
    else { None }
}

/// The freshness policy of `source`, if it is a documented mutable source.
pub fn freshness_policy(source: &str) -> (r: Option<FreshnessPolicy>)
    ensures
        match r {
            Some(p) => p.source@ == source@ && policy_max_age(source@) == Some(p.max_age_days),
            None => policy_max_age(source@) is None,
        },
{
    if str_eq(source, "sessions") {
        Some(FreshnessPolicy { source: "sessions", max_age_days: 7 })
    } else if str_eq(source, "members") {
        Some(FreshnessPolicy { source: "members", max_age_days: 7 })
    } else if str_eq(source, "commissions") {
        Some(FreshnessPolicy { source: "commissions", max_age_days: 7 })
    } else if str_eq(source, "lobby") {
        Some(FreshnessPolicy { source: "lobby", max_age_days: 30 })
    } else if str_eq(source, "remunerations") {
        Some(FreshnessPolicy { source: "remunerations", max_age_days: 30 })
    } else if str_eq(source, "dossiers") {
        Some(FreshnessPolicy { source: "dossiers", max_age_days: 7 })
    } else {
        None
    }
}

/// Days since 1970-01-01 of the proleptic Gregorian date `y-m-d`
/// (Howard Hinnant's `days_from_civil`; `/` is floor division here).
pub open spec fn days_from_civil_spec(y: int, m: int, d: int) -> int {
    let y2 = if m <= 2 { y - 1 } else { y };
    let era = y2 / 400;
    let yoe = y2 - era * 400;
    let mp = if m > 2 { m - 3 } else { m + 9 };
    let doy = (153 * mp + 2) / 5 + d - 1;
    let doe = yoe * 365 + yoe / 4 - yoe / 100 + doy;
    era * 146097 + doe - 719468
}

/// Howard Hinnant civil_from_days inverse. Computed without wrap-around for every year that
/// a calendar date of this crawler can hold.
pub fn days_from_civil(y: i64, m: i64, d: i64) -> (r: i64)
    requires
        -300000 <= y <= 300000,
        -9 <= m <= 99,
        -9 <= d <= 99,
    ensures
        r == days_from_civil_spec(y as int, m as int, d as int),
{
    let y2 = if m <= 2 { y - 1 } else { y };
    let era: i64 = if y2 >= 0 { y2 / 400 } else { -((-y2 + 399) / 400) };
    assert(era == (y2 as int) / 400) by (nonlinear_arith)
        requires
            y2 >= 0 ==> era == y2 / 400,
            y2 < 0 ==> era == -((-y2 + 399) / 400),
            -300001 <= y2 <= 300000,
    ;
    let yoe = y2 - era * 400;
    let mp = if m > 2 { m - 3 } else { m + 9 };
    let doy = (153 * mp + 2) / 5 + d - 1;
    let doe = yoe * 365 + yoe / 4 - yoe / 100 + doy;
    era * 146097 + doe - 719468
}

/// The integer that `i64::from_str` reads from a field of at most four characters:
/// an optional sign, then at least one decimal digit.
pub open spec fn parse_small_signed(s: Seq<char>) -> Option<int> {
    if s.len() > 0 && (s[0] == '-' || s[0] == '+') {
        let b = s.drop_first();
        if b.len() > 0 && all_digits(b) {
            Some(if s[0] == '-' { -(digits_value(b) as int) } else { digits_value(b) as int })
        } else {
            None
        }
    } else if s.len() > 0 && all_digits(s) {
        Some(digits_value(s) as int)
    } else {
        None
    }
}

proof fn lemma_digits_bound(s: Seq<char>)
    requires
        all_digits(s),
    ensures
        digits_value(s) < crate::freshness::pow10(s.len()),
    decreases s.len(),
{
    if s.len() > 0 {
        assert(all_digits(s.drop_last()));
        lemma_digits_bound(s.drop_last());
        assert(s.last() == s[s.len() - 1]);
    }
}

pub open spec fn pow10(n: nat) -> nat
    decreases n,
{
    if n == 0 { 1 } else { 10 * pow10((n - 1) as nat) }
}

proof fn lemma_pow10_values()
    ensures
        pow10(0) == 1,
        pow10(1) == 10,
        pow10(2) == 100,
        pow10(3) == 1000,
        pow10(4) == 10000,
{
    reveal_with_fuel(pow10, 5);
}

/// Reads a signed field of at most four characters.
fn parse_small_signed_exec(v: &Vec<char>, a: usize, b: usize) -> (r: Option<i64>)
    requires
        a <= b <= v.len(),
        b - a <= 4,
    ensures
        match r {
            Some(x) => parse_small_signed(v@.subrange(a as int, b as int)) == Some(x as int),
            None => parse_small_signed(v@.subrange(a as int, b as int)) is None,
        },
{
    let ghost s = v@.subrange(a as int, b as int);
    if a == b {
        return None;
    }
    assert(s[0] == v@[a as int]);
    let neg = v[a] == '-';
    let start = if v[a] == '-' || v[a] == '+' { a + 1 } else { a };
    let ghost body = v@.subrange(start as int, b as int);
    proof {
        if start == a + 1 {
            assert(body =~= s.drop_first());
        } else {
            assert(body =~= s);
        }
    }
    if start == b {
        return None;
    }
    let mut acc: i64 = 0;
    let mut i: usize = start;
    while i < b
        invariant
            a <= start <= i <= b <= v.len(),
            b - a <= 4,
            body == v@.subrange(start as int, b as int),
            s == v@.subrange(a as int, b as int),
            s.len() > 0,
            s[0] == v@[a as int],
            (start == a + 1) == (s[0] == '-' || s[0] == '+'),
            start == a + 1 || start == a,
            start == a + 1 ==> body == s.drop_first(),
            start == a ==> body == s,
            neg == (s[0] == '-'),
            all_digits(body.take(i - start)),
            acc == digits_value(body.take(i - start)),
            acc < pow10((i - start) as nat),
        decreases b - i,
    {
        if !is_digit_char(v[i]) {
            assert(body[i - start] == v@[i as int]);
            assert(!all_digits(body));
            return None;
        }
        assert(body.take(i - start + 1).drop_last() =~= body.take(i - start));
        assert(pow10((i - start + 1) as nat) == 10 * pow10((i - start) as nat));
        proof { lemma_pow10_values(); }
        assert(i - start + 1 <= 4);
        acc = acc * 10 + ((v[i] as u32 - '0' as u32) as i64);
        i = i + 1;
    }
    assert(body.take(i - start) =~= body);
    if neg { Some(-acc) } else { Some(acc) }
}

/// Whether every one of the first `n` characters is ASCII (one UTF-8 byte each).
pub open spec fn ascii_prefix(s: Seq<char>, n: int) -> bool {
    n <= s.len() && forall|i: int| 0 <= i < n ==> (s[i] as u32) < 128
}

/// Unix day of an RFC3339-ish timestamp (`YYYY-MM-DDTHH:MM:SSZ`): the first ten bytes must be
/// ASCII, and the fields at 0..4, 5..7 and 8..10 must each read as signed integers.
pub open spec fn rfc3339_days_spec(ts: Seq<char>) -> Option<int> {
    if ascii_prefix(ts, 10) {
        match (parse_small_signed(ts.subrange(0, 4)), parse_small_signed(ts.subrange(5, 7)),
            parse_small_signed(ts.subrange(8, 10))) {
            (Some(y), Some(m), Some(d)) => Some(days_from_civil_spec(y, m, d)),
            _ => None,
        }
    } else {
        None
    }
}

/// Parse an RFC3339-ish timestamp (`YYYY-MM-DDTHH:MM:SSZ`) into unix days since epoch.
pub fn rfc3339_to_unix_days(ts: &str) -> (r: Option<i64>)
    ensures
        match r {
            Some(x) => rfc3339_days_spec(ts@) == Some(x as int),
            None => rfc3339_days_spec(ts@) is None,
        },
{
    let v = to_chars(ts);
    if v.len() < 10 {
        return None;
    }
    let mut i: usize = 0;
    while i < 10
        invariant
            i <= 10 <= v.len(),
            v@ == ts@,
            forall|j: int| 0 <= j < i ==> (v@[j] as u32) < 128,
        decreases 10 - i,
    {
        if (v[i] as u32) >= 128 {
            return None;
        }
        i = i + 1;
    }
    let y = match parse_small_signed_exec(&v, 0, 4) {
        Some(y) => y,
        None => return None,
    };
    let m = match parse_small_signed_exec(&v, 5, 7) {
        Some(m) => m,
        None => return None,
    };
    let d = match parse_small_signed_exec(&v, 8, 10) {
        Some(d) => d,
        None => return None,
    };
    proof {
        lemma_small_range(v@.subrange(0, 4));
        lemma_small_range(v@.subrange(5, 7));
        lemma_small_range(v@.subrange(8, 10));
        lemma_pow10_values();
    }
    Some(days_from_civil(y, m, d))
}

proof fn lemma_small_range(s: Seq<char>)
    requires
        1 <= s.len() <= 4,
    ensures
        parse_small_signed(s) matches Some(x) ==> -(pow10((s.len() - 1) as nat) as int) < x < pow10(s.len()),
{
    if s.len() > 0 && (s[0] == '-' || s[0] == '+') {
        let b = s.drop_first();
        if b.len() > 0 && all_digits(b) {
            lemma_digits_bound(b);
            assert(pow10(s.len()) == 10 * pow10((s.len() - 1) as nat));
        }
    } else if s.len() > 0 && all_digits(s) {
        lemma_digits_bound(s);
    }
    lemma_pow10_values();
}

/// Whole days from `earlier` to `later`.
pub fn days_between_rfc3339(earlier: &str, later: &str) -> (r: Option<i64>)
    ensures
        match r {
            Some(x) => rfc3339_days_spec(earlier@) is Some && rfc3339_days_spec(later@) is Some
                && x == rfc3339_days_spec(later@).unwrap() - rfc3339_days_spec(earlier@).unwrap(),
            None => rfc3339_days_spec(earlier@) is None || rfc3339_days_spec(later@) is None,
        },
{
    let l = match rfc3339_to_unix_days(later) {
        Some(l) => l,
        None => return None,
    };
    let e = match rfc3339_to_unix_days(earlier) {
        Some(e) => e,
        None => return None,
    };
    proof {
        lemma_days_range(later@);
        lemma_days_range(earlier@);
    }
    Some(l - e)
}

proof fn lemma_days_range(ts: Seq<char>)
    ensures
        rfc3339_days_spec(ts) matches Some(x) ==> -2000000 <= x <= 4000000,
{
    if ascii_prefix(ts, 10) {
        lemma_small_range(ts.subrange(0, 4));
        lemma_small_range(ts.subrange(5, 7));
        lemma_small_range(ts.subrange(8, 10));
        lemma_pow10_values();
        match (parse_small_signed(ts.subrange(0, 4)), parse_small_signed(ts.subrange(5, 7)),
            parse_small_signed(ts.subrange(8, 10))) {
            (Some(y), Some(m), Some(d)) => {
                lemma_civil_range(y, m, d);
            },
            _ => {},
        }
    }
}

proof fn lemma_civil_range(y: int, m: int, d: int)
    requires
        -999 <= y <= 9999,
        -9 <= m <= 99,
        -9 <= d <= 99,
    ensures
        -2000000 <= days_from_civil_spec(y, m, d) <= 4000000,
{
    let y2 = if m <= 2 { y - 1 } else { y };
    let era = y2 / 400;
    assert(-3 <= era <= 24) by (nonlinear_arith)
        requires
            -1000 <= y2 <= 9999,
            era == y2 / 400,
    ;
    let yoe = y2 - era * 400;
    assert(0 <= yoe < 400) by (nonlinear_arith)
        requires
            era == y2 / 400,
            yoe == y2 - era * 400,
    ;
}

} // verus!
