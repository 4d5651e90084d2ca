//! The text of downloaded pages: UTF-8 when the bytes are valid UTF-8, else Windows-1252.
use vstd::prelude::*;
use vstd::utf8::{decode_utf8, valid_utf8};

verus! {

/// What `encoding_rs::WINDOWS_1252.decode` gives for a byte string: the bytes read as
/// Windows-1252, or as the encoding that a leading byte-order mark names.
pub uninterp spec fn windows_1252_text(bytes: Seq<u8>) -> Seq<char>;

/// `std::str::from_utf8`: the text when the bytes are valid UTF-8 (as `valid_utf8`
/// states it), `None` otherwise.
#[verifier::external_body]
fn utf8_text(raw: &[u8]) -> (r: Option<String>)
    ensures
        r is Some <==> valid_utf8(raw@),
        r matches Some(s) ==> s@ == decode_utf8(raw@),
{
    std::str::from_utf8(raw).ok().map(str::to_string)
}

/// `encoding_rs::WINDOWS_1252.decode(raw)`, the text it gives (named by
/// `windows_1252_text`); whether it replaced malformed bytes is dropped.
#[verifier::external_body]
pub fn decode_windows_1252(raw: &[u8]) -> (r: String)
    ensures
        r@ == windows_1252_text(raw@),
{
    let (decoded, _, _) = encoding_rs::WINDOWS_1252.decode(raw);
    decoded.into_owned()
}

/// The text of a cached report: the bytes read as UTF-8 when they are valid UTF-8, else
/// as Windows-1252.
pub open spec fn report_text_of(raw: Seq<u8>) -> Seq<char> {
    if valid_utf8(raw) { decode_utf8(raw) } else { windows_1252_text(raw) }
}

/// The text of a cached report (the bytes of `read_report_html`'s file).
pub fn report_html_text(raw: &[u8]) -> (r: String)
    ensures
        r@ == report_text_of(raw@),
{
    match utf8_text(raw) {
        Some(s) => s,
        None => decode_windows_1252(raw),
    }
}

} // verus!
