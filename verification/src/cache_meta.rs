//! Cache artifact metadata sidecars: their names, their timestamps and the checks that
//! guard cache-only runs.
use vstd::prelude::*;
use crate::text::{decimal, owned, push_char, push_str, to_chars, u64_to_string};

verus! {

/// Sidecar written beside a cached artifact.
pub struct CacheMetadata {
    pub source_url: String,
    pub content_type: String,
    /// SHA-256 of the raw bytes on disk.
    pub content_hash: String,
    /// RFC3339 timestamp when bytes were last fetched from the network.
    pub fetched_at: String,
    /// RFC3339 timestamp when the artifact was last verified (fetch or live check).
    pub checked_at: String,
}

impl CacheMetadata {
    pub fn new(
        source_url: &str,
        content_type: &str,
        content_hash: &str,
        fetched_at: &str,
        checked_at: &str,
    ) -> (r: Self)
        ensures
            r.source_url@ == source_url@,
            r.content_type@ == content_type@,
            r.content_hash@ == content_hash@,
            r.fetched_at@ == fetched_at@,
            r.checked_at@ == checked_at@,
    {
        CacheMetadata {
            source_url: owned(source_url),
            content_type: owned(content_type),
            content_hash: owned(content_hash),
            fetched_at: owned(fetched_at),
            checked_at: owned(checked_at),
        }
    }
}

/// The sidecar path of a cached artifact: `{cache_path}.meta.json`.
pub fn meta_path_for(cache_path: &str) -> (r: String)
    ensures
        r@ == cache_path@ + ".meta.json"@,
{
    let mut s = owned(cache_path);
    push_str(&mut s, ".meta.json");
    s
}

/// Year, month and day of day `z` since 1970-01-01 (Howard Hinnant's `civil_from_days`).
pub open spec fn civil_from_days_spec(z: int) -> (int, int, int) {
    let z2 = z + 719468;
    let era = z2 / 146097;
    let doe = z2 - era * 146097;
    let yoe = (doe - doe / 1460 + doe / 36524 - doe / 146096) / 365;
    let y = yoe + era * 400;
    let doy = doe - (365 * yoe + yoe / 4 - yoe / 100);
    let mp = (5 * doy + 2) / 153;
    let d = doy - (153 * mp + 2) / 5 + 1;
    let m = if mp < 10 { mp + 3 } else { mp - 9 };
    let y2 = if m <= 2 { y + 1 } else { y };
    (y2, m, d)
}

/// The largest day number that a `u64` count of seconds reaches.
pub const MAX_UNIX_DAY: i64 = 213503982334601;

/// Howard Hinnant's civil-from-days (days since 1970-01-01 → Y-M-D).
pub fn civil_from_days(z: i64) -> (r: (i32, u32, u32))
    requires
        0 <= z <= MAX_UNIX_DAY,
    ensures
        r.0 == civil_from_days_spec(z as int).0 as i32,
        r.1 == civil_from_days_spec(z as int).1 as u32,
        r.2 == civil_from_days_spec(z as int).2 as u32,
{
    let z2 = z + 719468;
    let era = z2 / 146097;
    let doe = z2 - era * 146097;
    assert(0 <= doe < 146097) by (nonlinear_arith)
        requires
            z2 >= 0,
            era == z2 / 146097,
            doe == z2 - era * 146097,
    ;
    assert(0 <= era <= 1461472580) by (nonlinear_arith)
        requires
            0 <= z2 <= 213503983054069,
            era == z2 / 146097,
    ;
    let yoe = (doe - doe / 1460 + doe / 36524 - doe / 146096) / 365;
    assert(0 <= yoe <= 400) by (nonlinear_arith)
        requires
            0 <= doe < 146097,
            yoe == (doe - doe / 1460 + doe / 36524 - doe / 146096) / 365,
    ;
    let y = yoe + era * 400;
    let doy = doe - (365 * yoe + yoe / 4 - yoe / 100);
    assert(-200000 <= doy <= 200000) by (nonlinear_arith)
        requires
            0 <= doe < 146097,
            0 <= yoe <= 400,
            doy == doe - (365 * yoe + yoe / 4 - yoe / 100),
    ;
    let mp = (5 * doy + 2) / 153;
    let d = doy - (153 * mp + 2) / 5 + 1;
    let m = if mp < 10 { mp + 3 } else { mp - 9 };
    let y2 = if m <= 2 { y + 1 } else { y };
    (y2 as i32, m as u32, d as u32)
}

/// Decimal rendering of `n` padded on the left with `0` to at least `width` characters.
pub open spec fn zero_padded(n: nat, width: nat) -> Seq<char> {
    let digits = decimal(n);
    if digits.len() < width {
        Seq::new((width - digits.len()) as nat, |i: int| '0') + digits
    } else {
        digits
    }
}

/// Signed rendering as `{:0width}` prints it: sign first, then zero padding.
pub open spec fn zero_padded_int(n: int, width: nat) -> Seq<char> {
    if n < 0 {
        seq!['-'] + zero_padded((-n) as nat, if width > 0 { (width - 1) as nat } else { 0 })
    } else {
        zero_padded(n as nat, width)
    }
}

/// Appends `n` zero-padded to `width` characters.
fn push_zero_padded(s: &mut String, n: u64, width: usize)
    ensures
        final(s)@ == old(s)@ + zero_padded(n as nat, width as nat),
{
    let digits = u64_to_string(n);
    let len = to_chars(digits.as_str()).len();
    let mut k: usize = len;
    let ghost s0 = s@;
    while k < width
        invariant
            len <= k,
            k <= width || k == len,
            s@ == s0 + Seq::new((k - len) as nat, |i: int| '0'),
        decreases width - k,
    {
        push_char(s, '0');
        assert(s@ =~= s0 + Seq::new((k + 1 - len) as nat, |i: int| '0'));
        k = k + 1;
    }
    push_str(s, digits.as_str());
    if len < width {
        assert(s@ =~= s0 + zero_padded(n as nat, width as nat));
    } else {
        assert(s@ =~= s0 + zero_padded(n as nat, width as nat));
    }
}

/// `YYYY-MM-DDTHH:MM:SSZ` for a count of seconds since the Unix epoch.
pub open spec fn format_unix_secs_spec(secs: nat) -> Seq<char> {
    let days = secs / 86400;
    let tod = secs % 86400;
    let c = civil_from_days_spec(days as int);
    zero_padded_int((c.0 as i32) as int, 4) + seq!['-'] + zero_padded((c.1 as u32) as nat, 2) + seq!['-']
        + zero_padded((c.2 as u32) as nat, 2) + seq!['T'] + zero_padded(tod / 3600, 2) + seq![':']
        + zero_padded((tod % 3600) / 60, 2) + seq![':'] + zero_padded(tod % 60, 2) + seq!['Z']
}

pub fn format_unix_secs(secs: u64) -> (r: String)
    ensures
        r@ == format_unix_secs_spec(secs as nat),
{
    let days = secs / 86400;
    let tod = secs % 86400;
    let (y, m, d) = civil_from_days(days as i64);
    let mut s = String::new();
    if y < 0 {
        push_char(&mut s, '-');
        let mag: u64 = if y == i32::MIN { 2147483648u64 } else { (-y) as u64 };
        push_zero_padded(&mut s, mag, 3);
    } else {
        push_zero_padded(&mut s, y as u64, 4);
    }
    push_char(&mut s, '-');
    push_zero_padded(&mut s, m as u64, 2);
    push_char(&mut s, '-');
    push_zero_padded(&mut s, d as u64, 2);
    push_char(&mut s, 'T');
    push_zero_padded(&mut s, tod / 3600, 2);
    push_char(&mut s, ':');
    push_zero_padded(&mut s, (tod % 3600) / 60, 2);
    push_char(&mut s, ':');
    push_zero_padded(&mut s, tod % 60, 2);
    push_char(&mut s, 'Z');
    assert(s@ =~= format_unix_secs_spec(secs as nat));
    s
}

/// True when bytes look like a PDF (`%PDF` magic).
pub fn looks_like_pdf(bytes: &[u8]) -> (r: bool)
    ensures
        r == (bytes@.len() >= 4 && bytes@.take(4) == seq![0x25u8, 0x50u8, 0x44u8, 0x46u8]),
{
    if bytes.len() < 4 {
        return false;
    }
    let r = bytes[0] == 0x25 && bytes[1] == 0x50 && bytes[2] == 0x44 && bytes[3] == 0x46;
    if r {
        assert(bytes@.take(4) =~= seq![0x25u8, 0x50u8, 0x44u8, 0x46u8]);
    } else {
        proof {
            let t = bytes@.take(4);
            assert(t[0] == bytes@[0] && t[1] == bytes@[1] && t[2] == bytes@[2] && t[3] == bytes@[3]);
            let m = seq![0x25u8, 0x50u8, 0x44u8, 0x46u8];
            assert(m[0] == 0x25u8 && m[1] == 0x50u8 && m[2] == 0x44u8 && m[3] == 0x46u8);
        }
    }
    r
}

/// The message of a cache-only run that finds a known artifact missing.
pub open spec fn missing_cache_message(label: Seq<char>, path: Seq<char>) -> Seq<char> {
    "cache-only incomplete snapshot: expected "@ + label + " at "@ + path
        + " is missing — aborting to preserve prior outputs"@
}

/// Require that a previously known cache file still exists (cache-only safety); `present`
/// is whether the file exists at `cache_path`.
pub fn require_cache_present(present: bool, cache_path: &str, label: &str) -> (r: Result<(), String>)
    ensures
        present ==> r is Ok,
        !present ==> (r matches Err(msg) && msg@ == missing_cache_message(label@, cache_path@)),
{
    if present {
        return Ok(());
    }
    let mut msg = owned("cache-only incomplete snapshot: expected ");
    push_str(&mut msg, label);
    push_str(&mut msg, " at ");
    push_str(&mut msg, cache_path);
    push_str(&mut msg, " is missing — aborting to preserve prior outputs");
    Err(msg)
}

/// `SystemTime::now()` as whole seconds since the Unix epoch, `0` for a clock before it.
/// Nothing is stated of the value: it is the time of the call.
#[verifier::external_body]
fn unix_now_secs() -> (r: u64) {
    std::time::SystemTime::now().duration_since(std::time::UNIX_EPOCH).map(|d| d.as_secs()).unwrap_or(0)
}

/// The current time as an RFC 3339 UTC timestamp (`YYYY-MM-DDTHH:MM:SSZ`).
pub fn now_rfc3339() -> (r: String)
    ensures
        exists|secs: u64| r@ == format_unix_secs_spec(secs as nat),
{
    let secs = unix_now_secs();
    format_unix_secs(secs)
}

/// The sidecar of a freshly written artifact: its URL, content type and the SHA-256 of its
/// bytes, fetched and checked now.
pub fn new_artifact_metadata(bytes: &[u8], source_url: &str, content_type: &str, now: &str) -> (r: CacheMetadata)
    ensures
        r.source_url@ == source_url@,
        r.content_type@ == content_type@,
        r.content_hash@ == crate::artifact_id::hex_lower(crate::artifact_id::sha256(bytes@)),
        r.fetched_at@ == now@,
        r.checked_at@ == now@,
{
    let hash = crate::artifact_id::content_hash_bytes(bytes);
    CacheMetadata::new(source_url, content_type, hash.as_str(), now, now)
}

/// The sidecar after a live check that found the artifact unchanged: the existing sidecar
/// with `checked_at` set to `checked_at`, or, without one, a new sidecar with no URL,
/// content type `application/octet-stream`, the hash of the bytes on disk (empty when they
/// cannot be read), fetched at `created_at` and checked at `checked_at`.
pub fn touched_metadata(existing: Option<CacheMetadata>, raw: Option<&[u8]>, created_at: &str, checked_at: &str)
    -> (r: CacheMetadata)
    ensures
        r.checked_at@ == checked_at@,
        existing matches Some(m) ==> r.source_url@ == m.source_url@ && r.content_type@ == m.content_type@
            && r.content_hash@ == m.content_hash@ && r.fetched_at@ == m.fetched_at@,
        existing is None ==> {
            &&& r.source_url@ == Seq::<char>::empty()
            &&& r.content_type@ == "application/octet-stream"@
            &&& r.content_hash@ == match raw {
                Some(b) => crate::artifact_id::hex_lower(crate::artifact_id::sha256(b@)),
                None => Seq::<char>::empty(),
            }
            &&& r.fetched_at@ == created_at@
        },
{
    proof {
        reveal_strlit("");
    }
    let mut meta = match existing {
        Some(m) => m,
        None => {
            let hash = match raw {
                Some(b) => crate::artifact_id::content_hash_bytes(b),
                None => String::new(),
            };
            CacheMetadata::new("", "application/octet-stream", hash.as_str(), created_at, created_at)
        },
    };
    meta.checked_at = owned(checked_at);
    meta
}

/// The refusal of a cache write in a cache-only run, which must not invent network content.
pub fn check_cache_write_allowed(cache_only: bool) -> (r: Result<(), String>)
    ensures
        r is Ok <==> !cache_only,
        r matches Err(e) ==> e@ == "refusing to write cache artifact while SCRAPER_CACHE_ONLY is set"@,
{
    if cache_only {
        Err(owned("refusing to write cache artifact while SCRAPER_CACHE_ONLY is set"))
    } else {
        Ok(())
    }
}

/// After a live fetch: whether the fetched bytes must be written as a new artifact (no
/// cached file, or different bytes); otherwise the cached file is only marked as checked.
pub fn refresh_needs_write(existing: Option<&[u8]>, fetched: &[u8]) -> (r: bool)
    ensures
        r == match existing {
            Some(e) => e@ != fetched@,
            None => true,
        },
{
    match existing {
        None => true,
        Some(e) => {
            if e.len() != fetched.len() {
                assert(e@.len() != fetched@.len());
                return true;
            }
            let mut i: usize = 0;
            while i < e.len()
                invariant
                    i <= e@.len(),
                    existing matches Some(x) && x@ == e@,
                    e@.len() == fetched@.len(),
                    forall|k: int| 0 <= k < i ==> e@[k] == fetched@[k],
                decreases e.len() - i,
            {
                if e[i] != fetched[i] {
                    assert(e@[i as int] != fetched@[i as int]);
                    return true;
                }
                i = i + 1;
            }
            assert(e@ =~= fetched@);
            false
        },
    }
}

} // verus!
