//! Deterministic artifact identity from source URL and cache path.
use vstd::prelude::*;
use vstd::utf8::encode_utf8;

verus! {

pub const BLOCK_PARSER_VERSION: &'static str = "report_blocks_v2";
pub const REPORT_BLOCK_EXTRACTOR_VERSION: &'static str = "report_blocks_materialize_v1";
pub const VOTE_EXTRACTOR_VERSION: &'static str = "vote_assembly_v1";
pub const MEETING_SCOPE_EXTRACTOR_VERSION: &'static str = "meeting_parse_v2";

/// The SHA-256 digest of `bytes` (FIPS 180-4), as the `sha2` crate computes it.
pub uninterp spec fn sha256(bytes: Seq<u8>) -> Seq<u8>;

/// `Sha256::digest(bytes)`, as a vector of the 32 digest bytes.
#[verifier::external_body]
fn sha256_digest(bytes: &[u8]) -> (r: Vec<u8>)
    ensures
        r@ == sha256(bytes@),
        r@.len() == 32,
{
    <sha2::Sha256 as sha2::Digest>::digest(bytes).to_vec()
}

/// The lower-case hexadecimal digit of a nibble.
pub open spec fn hex_digit(n: u8) -> char {
    if n < 10 { (('0' as u8) + n) as char } else { (('a' as u8) + (n - 10)) as char }
}

/// Two lower-case hexadecimal digits per byte, high nibble first (`{:x}` of a digest).
pub open spec fn hex_lower(bytes: Seq<u8>) -> Seq<char>
    decreases bytes.len(),
{
    if bytes.len() == 0 {
        Seq::empty()
    } else {
        hex_lower(bytes.drop_last()) + seq![hex_digit(bytes.last() / 16), hex_digit(bytes.last() % 16)]
    }
}

fn hex_digit_exec(n: u8) -> (c: char)
    requires
        n < 16,
    ensures
        c == hex_digit(n),
{
    if n < 10 {
        ((48u8 + n) as char)
    } else {
        ((97u8 + (n - 10)) as char)
    }
}

/// The lower-case hexadecimal rendering of `bytes`.
pub fn hex_string(bytes: &[u8]) -> (r: String)
    ensures
        r@ == hex_lower(bytes@),
{
    let mut out = String::new();
    let mut i: usize = 0;
    while i < bytes.len()
        invariant
            i <= bytes.len(),
            out@ == hex_lower(bytes@.take(i as int)),
        decreases bytes.len() - i,
    {
        let b = bytes[i];
        proof {
            assert(bytes@.take(i + 1).drop_last() =~= bytes@.take(i as int));
            assert(bytes@.take(i + 1).last() == b);
        }
        let hi = hex_digit_exec(b / 16);
        let lo = hex_digit_exec(b % 16);
        crate::text::push_char(&mut out, hi);
        crate::text::push_char(&mut out, lo);
        assert(out@ =~= hex_lower(bytes@.take(i + 1)));
        i = i + 1;
    }
    assert(bytes@.take(bytes@.len() as int) =~= bytes@);
    out
}

/// The bytes that identify an artifact: the URL, `|`, the cache path, each in UTF-8.
pub open spec fn provenance_bytes(source_url: Seq<char>, cache_path: Seq<char>) -> Seq<u8> {
    encode_utf8(source_url) + seq![124u8] + encode_utf8(cache_path)
}

/// The artifact id of a source URL and cache path: the hex SHA-256 of `url|path`.
pub open spec fn artifact_id_of(source_url: Seq<char>, cache_path: Seq<char>) -> Seq<char> {
    hex_lower(sha256(provenance_bytes(source_url, cache_path)))
}

fn extend_bytes(out: &mut Vec<u8>, bytes: &[u8])
    ensures
        final(out)@ == old(out)@ + bytes@,
{
    let mut i: usize = 0;
    while i < bytes.len()
        invariant
            i <= bytes.len(),
            out@ == old(out)@ + bytes@.take(i as int),
        decreases bytes.len() - i,
    {
        out.push(bytes[i]);
        assert(bytes@.take(i + 1) =~= bytes@.take(i as int).push(bytes@[i as int]));
        i = i + 1;
    }
    assert(bytes@.take(bytes@.len() as int) =~= bytes@);
}

/// Content-independent SHA-256 hex id from provenance keys.
pub fn artifact_id(source_url: &str, cache_path: &str) -> (r: String)
    ensures
        r@ == artifact_id_of(source_url@, cache_path@),
{
    let mut bytes: Vec<u8> = Vec::new();
    extend_bytes(&mut bytes, source_url.as_bytes());
    bytes.push(124u8);
    extend_bytes(&mut bytes, cache_path.as_bytes());
    assert(bytes@ =~= provenance_bytes(source_url@, cache_path@));
    let digest = sha256_digest(bytes.as_slice());
    hex_string(digest.as_slice())
}

/// The hex SHA-256 of the UTF-8 bytes of `text`.
pub fn content_hash(text: &str) -> (r: String)
    ensures
        r@ == hex_lower(sha256(encode_utf8(text@))),
{
    content_hash_bytes(text.as_bytes())
}

/// The hex SHA-256 of `bytes`.
pub fn content_hash_bytes(bytes: &[u8]) -> (r: String)
    ensures
        r@ == hex_lower(sha256(bytes@)),
        r@.len() == 64,
{
    let digest = sha256_digest(bytes);
    let r = hex_string(digest.as_slice());
    proof {
        lemma_hex_lower_len(digest@);
    }
    r
}

/// Two hexadecimal digits per byte.
pub proof fn lemma_hex_lower_len(bytes: Seq<u8>)
    ensures
        hex_lower(bytes).len() == 2 * bytes.len(),
    decreases bytes.len(),
{
    if bytes.len() > 0 {
        lemma_hex_lower_len(bytes.drop_last());
    }
}

} // verus!
