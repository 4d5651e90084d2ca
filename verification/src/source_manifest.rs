//! Canonical per-source inventory manifests under `data/source_manifests/`.
//!
//! A live scrape establishes the contract. Status vocabulary is closed:
//! `parsed`, `no_result`, `not_found`, `unsupported_format`.
use vstd::prelude::*;
use crate::text::{owned, push_char, push_str, str_eq, ends_with};

verus! {

pub const MANIFEST_STATUS_PARSED: &'static str = "parsed";
pub const MANIFEST_STATUS_NO_RESULT: &'static str = "no_result";
pub const MANIFEST_STATUS_NOT_FOUND: &'static str = "not_found";
pub const MANIFEST_STATUS_UNSUPPORTED_FORMAT: &'static str = "unsupported_format";

pub struct SourceManifestRow {
    pub source: String,
    pub session_id: String,
    pub item_kind: String,
    pub native_item_id: String,
    pub source_url: String,
    pub cache_path: String,
    pub status: String,
    pub row_count: u32,
    pub content_type: String,
    pub content_hash: String,
    pub fetched_at: String,
    pub checked_at: String,
    pub run_mode: String,
    pub detail: String,
}

impl Clone for SourceManifestRow {
    fn clone(&self) -> (r: Self)
        ensures
            r == *self,
    {
        SourceManifestRow {
            source: self.source.clone(),
            session_id: self.session_id.clone(),
            item_kind: self.item_kind.clone(),
            native_item_id: self.native_item_id.clone(),
            source_url: self.source_url.clone(),
            cache_path: self.cache_path.clone(),
            status: self.status.clone(),
            row_count: self.row_count,
            content_type: self.content_type.clone(),
            content_hash: self.content_hash.clone(),
            fetched_at: self.fetched_at.clone(),
            checked_at: self.checked_at.clone(),
            run_mode: self.run_mode.clone(),
            detail: self.detail.clone(),
        }
    }
}

impl SourceManifestRow {
    pub fn run_mode_live() -> (r: &'static str)
        ensures
            r@ == "live"@,
    {
        "live"
    }

    pub fn run_mode_cache_only() -> (r: &'static str)
        ensures
            r@ == "cache_only"@,
    {
        "cache_only"
    }
}

/// `{data_dir}/source_manifests/{source}.parquet`, with a single `/` after `data_dir`.
pub open spec fn manifest_path_spec(data_dir: Seq<char>, source: Seq<char>) -> Seq<char> {
    let base = if data_dir.len() == 0 || ends_with(data_dir, seq!['/']) { data_dir } else { data_dir.push('/') };
    base + "source_manifests/"@ + source + ".parquet"@
}

/// Where the manifest of `source` lives under the data directory `data_dir`.
pub fn manifest_path(data_dir: &str, source: &str) -> (r: String)
    ensures
        r@ == manifest_path_spec(data_dir@, source@),
{
    let mut s = owned(data_dir);
    let v = crate::text::to_chars(data_dir);
    if v.len() > 0 && v[v.len() - 1] != '/' {
        push_char(&mut s, '/');
        proof {
            assert(!ends_with(data_dir@, seq!['/'])) by {
                if ends_with(data_dir@, seq!['/']) {
                    assert(data_dir@.skip(data_dir@.len() - 1)[0] == data_dir@[data_dir@.len() - 1]);
                }
            }
        }
    } else if v.len() > 0 {
        assert(data_dir@.skip(data_dir@.len() - 1) =~= seq!['/']);
    }
    push_str(&mut s, "source_manifests/");
    push_str(&mut s, source);
    push_str(&mut s, ".parquet");
    s
}

/// The closed manifest status vocabulary.
pub open spec fn known_manifest_status(status: Seq<char>) -> bool {
    status == MANIFEST_STATUS_PARSED@ || status == MANIFEST_STATUS_NO_RESULT@
        || status == MANIFEST_STATUS_NOT_FOUND@ || status == MANIFEST_STATUS_UNSUPPORTED_FORMAT@
}

pub fn is_known_manifest_status(status: &str) -> (r: bool)
    ensures
        r == known_manifest_status(status@),
{
    str_eq(status, MANIFEST_STATUS_PARSED) || str_eq(status, MANIFEST_STATUS_NO_RESULT)
        || str_eq(status, MANIFEST_STATUS_NOT_FOUND) || str_eq(status, MANIFEST_STATUS_UNSUPPORTED_FORMAT)
}

/// The identity of a manifest row: (source, session, item kind, native item id).
pub open spec fn manifest_key(row: SourceManifestRow) -> (Seq<char>, Seq<char>, Seq<char>, Seq<char>) {
    (row.source@, row.session_id@, row.item_kind@, row.native_item_id@)
}

/// Row `i` repeats the key of an earlier row.
pub open spec fn duplicates_earlier(rows: Seq<SourceManifestRow>, i: int) -> bool {
    exists|j: int| 0 <= j < i && manifest_key(#[trigger] rows[j]) == manifest_key(rows[i])
}

/// Row `i` is acceptable: a known status and a key not seen before it.
pub open spec fn manifest_row_ok(rows: Seq<SourceManifestRow>, i: int) -> bool {
    known_manifest_status(rows[i].status@) && !duplicates_earlier(rows, i)
}

/// Why manifest rows were refused, with the offending row's position.
pub enum ManifestError {
    UnknownStatus { row: usize, status: String, source: String, native_item_id: String },
    DuplicateKey { row: usize, source: String, session_id: String, item_kind: String, native_item_id: String },
}

fn same_key(a: &SourceManifestRow, b: &SourceManifestRow) -> (r: bool)
    ensures
        r == (manifest_key(*a) == manifest_key(*b)),
{
    str_eq(&a.source, &b.source) && str_eq(&a.session_id, &b.session_id) && str_eq(&a.item_kind, &b.item_kind)
        && str_eq(&a.native_item_id, &b.native_item_id)
}

/// Validate manifest rows before publication: every status is known and no key repeats.
/// The first offending row is reported; an unknown status is reported before a repeated key.
pub fn validate_manifest_rows(rows: &[SourceManifestRow]) -> (r: Result<(), ManifestError>)
    ensures
        r is Ok <==> forall|i: int| 0 <= i < rows@.len() ==> #[trigger] manifest_row_ok(rows@, i),
        r matches Err(ManifestError::UnknownStatus { row, status, .. }) ==> {
            &&& row < rows@.len() && !known_manifest_status(rows@[row as int].status@)
            &&& status@ == rows@[row as int].status@
            &&& forall|i: int| 0 <= i < row ==> #[trigger] manifest_row_ok(rows@, i)
        },
        r matches Err(ManifestError::DuplicateKey { row, .. }) ==> {
            &&& row < rows@.len() && known_manifest_status(rows@[row as int].status@)
            &&& duplicates_earlier(rows@, row as int)
            &&& forall|i: int| 0 <= i < row ==> #[trigger] manifest_row_ok(rows@, i)
        },
{
    let mut i: usize = 0;
    while i < rows.len()
        invariant
            i <= rows.len(),
            forall|k: int| 0 <= k < i ==> #[trigger] manifest_row_ok(rows@, k),
        decreases rows.len() - i,
    {
        let row = &rows[i];
        if !is_known_manifest_status(&row.status) {
            assert(!manifest_row_ok(rows@, i as int));
            return Err(ManifestError::UnknownStatus {
                row: i,
                status: row.status.clone(),
                source: row.source.clone(),
                native_item_id: row.native_item_id.clone(),
            });
        }
        let mut j: usize = 0;
        while j < i
            invariant
                j <= i < rows.len(),
                *row == rows@[i as int],
                known_manifest_status(rows@[i as int].status@),
                forall|k: int| 0 <= k < i ==> #[trigger] manifest_row_ok(rows@, k),
                forall|k: int| 0 <= k < j ==> manifest_key(#[trigger] rows@[k]) != manifest_key(rows@[i as int]),
            decreases i - j,
        {
            if same_key(&rows[j], row) {
                assert(manifest_key(rows@[j as int]) == manifest_key(rows@[i as int]));
                assert(duplicates_earlier(rows@, i as int));
                assert(!manifest_row_ok(rows@, i as int));
                return Err(ManifestError::DuplicateKey {
                    row: i,
                    source: row.source.clone(),
                    session_id: row.session_id.clone(),
                    item_kind: row.item_kind.clone(),
                    native_item_id: row.native_item_id.clone(),
                });
            }
            j = j + 1;
        }
        assert(manifest_row_ok(rows@, i as int));
        i = i + 1;
    }
    Ok(())
}

} // verus!
