//! The artifact registry of the graph build: one entry per source URL and cache path.
use vstd::prelude::*;
use std::collections::HashMap;
use crate::artifact_id::artifact_id_of;
use crate::text::owned;

verus! {

pub struct ArtifactEntry {
    pub source_url: String,
    pub cache_path: String,
    /// Content hash recorded at normalize/transform time, when known.
    pub transform_content_hash: Option<String>,
}

impl Default for ArtifactEntry {
    fn default() -> (r: Self)
        ensures
            r.source_url@ == Seq::<char>::empty(),
            r.cache_path@ == Seq::<char>::empty(),
            r.transform_content_hash is None,
    {
        ArtifactEntry { source_url: String::new(), cache_path: String::new(), transform_content_hash: None }
    }
}

/// An entry as plain values: source URL, cache path, transform hash.
pub type EntryView = (Seq<char>, Seq<char>, Option<Seq<char>>);

pub open spec fn entry_view(e: ArtifactEntry) -> EntryView {
    (e.source_url@, e.cache_path@, e.transform_content_hash.deep_view())
}

/// What a registry holds: for each artifact id, by its characters, the entry stored under it.
pub uninterp spec fn registry_contents(registry: HashMap<String, ArtifactEntry>) -> Map<Seq<char>, EntryView>;

/// `HashMap::get` on the registry, the entry's fields cloned. `String` keys compare and hash
/// by their characters, so the lookup finds the entry stored under `id`'s characters.
#[verifier::external_body]
fn registry_get(registry: &HashMap<String, ArtifactEntry>, id: &String) -> (r: Option<(String, String, Option<String>)>)
    ensures
        r.deep_view() == registry_contents(*registry).get(id@),
{
    registry.get(id).map(|e| (e.source_url.clone(), e.cache_path.clone(), e.transform_content_hash.clone()))
}

/// `HashMap::insert` on the registry: afterwards `id`'s characters map to `entry`, and
/// every other id keeps its entry.
#[verifier::external_body]
fn registry_insert(registry: &mut HashMap<String, ArtifactEntry>, id: String, entry: ArtifactEntry)
    ensures
        registry_contents(*final(registry)) == registry_contents(*old(registry)).insert(id@, entry_view(entry)),
{
    registry.insert(id, entry);
}

/// A registry's contents that hold no artifact.
pub open spec fn no_artifacts() -> Map<Seq<char>, EntryView> {
    Map::empty()
}

/// `HashMap::new`: a registry that holds nothing.
#[verifier::external_body]
fn registry_new() -> (r: HashMap<String, ArtifactEntry>)
    ensures
        registry_contents(r) == no_artifacts(),
{
    HashMap::new()
}

/// `HashMap::len` on the registry: how many artifact ids it holds. `String` keys compare by
/// their characters, so that is the number of ids in its contents.
#[verifier::external_body]
fn registry_len(registry: &HashMap<String, ArtifactEntry>) -> (r: usize)
    ensures
        r == registry_contents(*registry).dom().len(),
{
    registry.len()
}

/// An empty artifact registry.
pub fn new_registry() -> (r: HashMap<String, ArtifactEntry>)
    ensures
        registry_contents(r) == no_artifacts(),
{
    registry_new()
}

/// How many artifacts the registry holds.
pub fn registry_size(registry: &HashMap<String, ArtifactEntry>) -> (r: usize)
    ensures
        r == registry_contents(*registry).dom().len(),
{
    registry_len(registry)
}

pub fn artifact_id(source_url: &str, cache_path: &str) -> (r: String)
    ensures
        r@ == artifact_id_of(source_url@, cache_path@),
{
    crate::artifact_id::artifact_id(source_url, cache_path)
}

/// A transform hash is recorded only when it is given and not empty.
pub open spec fn given_hash(h: Option<Seq<char>>) -> Option<Seq<char>> {
    match h {
        Some(x) => if x.len() > 0 { Some(x) } else { None },
        None => None,
    }
}

/// The registry after registering `(source_url, cache_path)` with an optional transform
/// hash: a new entry when the artifact is unknown; else the known entry, which takes the
/// hash only when it has none yet.
pub open spec fn registered(
    m: Map<Seq<char>, EntryView>,
    source_url: Seq<char>,
    cache_path: Seq<char>,
    hash: Option<Seq<char>>,
) -> Map<Seq<char>, EntryView> {
    let id = artifact_id_of(source_url, cache_path);
    if !m.contains_key(id) {
        m.insert(id, (source_url, cache_path, given_hash(hash)))
    } else if m[id].2 is None && given_hash(hash) is Some {
        m.insert(id, (m[id].0, m[id].1, given_hash(hash)))
    } else {
        m
    }
}

pub fn register_artifact(
    registry: &mut HashMap<String, ArtifactEntry>,
    source_url: &str,
    cache_path: &str,
) -> (r: String)
    ensures
        r@ == artifact_id_of(source_url@, cache_path@),
        registry_contents(*final(registry)) == registered(registry_contents(*old(registry)), source_url@, cache_path@, None),
{
    register_artifact_with_hash(registry, source_url, cache_path, None)
}

pub fn register_artifact_with_hash(
    registry: &mut HashMap<String, ArtifactEntry>,
    source_url: &str,
    cache_path: &str,
    transform_content_hash: Option<&str>,
) -> (r: String)
    ensures
        r@ == artifact_id_of(source_url@, cache_path@),
        registry_contents(*final(registry)) == registered(
            registry_contents(*old(registry)),
            source_url@,
            cache_path@,
            match transform_content_hash { Some(h) => Some(h@), None => None },
        ),
{
    let ghost hv: Option<Seq<char>> = match transform_content_hash { Some(h) => Some(h@), None => None };
    let id = artifact_id(source_url, cache_path);
    let given: Option<String> = match transform_content_hash {
        Some(h) => if h.is_empty() { None } else { Some(owned(h)) },
        None => None,
    };
    assert(given.deep_view() == given_hash(hv));
    match registry_get(registry, &id) {
        None => {
            let entry = ArtifactEntry {
                source_url: owned(source_url),
                cache_path: owned(cache_path),
                transform_content_hash: given,
            };
            registry_insert(registry, id.clone(), entry);
        },
        Some((url, path, existing)) => {
            if existing.is_none() {
                match given {
                    Some(h) => {
                        let entry = ArtifactEntry { source_url: url, cache_path: path, transform_content_hash: Some(h) };
                        registry_insert(registry, id.clone(), entry);
                    },
                    None => {},
                }
            }
        },
    }
    id
}

/// Registering an artifact a second time, with the same transform hash, changes nothing.
pub proof fn lemma_register_idempotent(
    m: Map<Seq<char>, EntryView>,
    source_url: Seq<char>,
    cache_path: Seq<char>,
    hash: Option<Seq<char>>,
)
    ensures
        registered(registered(m, source_url, cache_path, hash), source_url, cache_path, hash)
            == registered(m, source_url, cache_path, hash),
{
}

/// A recorded transform hash is never replaced, and the source URL and cache path of a
/// known artifact never change; other artifacts are untouched.
pub proof fn lemma_register_keeps_recorded(
    m: Map<Seq<char>, EntryView>,
    source_url: Seq<char>,
    cache_path: Seq<char>,
    hash: Option<Seq<char>>,
    id: Seq<char>,
)
    requires
        m.contains_key(id),
    ensures
        registered(m, source_url, cache_path, hash).contains_key(id),
        registered(m, source_url, cache_path, hash)[id].0 == m[id].0,
        registered(m, source_url, cache_path, hash)[id].1 == m[id].1,
        m[id].2 is Some ==> registered(m, source_url, cache_path, hash)[id].2 == m[id].2,
{
}

/// On a fresh registry, registering an artifact twice keeps the first transform hash
/// given: the registry then holds exactly that one artifact, with its URL, path and first
/// hash.
pub proof fn lemma_fresh_register_first_hash_wins(
    source_url: Seq<char>,
    cache_path: Seq<char>,
    first: Option<Seq<char>>,
    second: Option<Seq<char>>,
)
    requires
        given_hash(first) is Some,
    ensures
        ({
            let id = artifact_id_of(source_url, cache_path);
            let m = registered(
                registered(no_artifacts(), source_url, cache_path, first),
                source_url,
                cache_path,
                second,
            );
            &&& m == no_artifacts().insert(id, (source_url, cache_path, given_hash(first)))
            &&& m.dom().len() == 1
        }),
{
    let id = artifact_id_of(source_url, cache_path);
    let m = no_artifacts().insert(id, (source_url, cache_path, given_hash(first)));
    assert(m.dom() =~= set![id]);
    vstd::set_lib::lemma_set_empty_equivalency_len(Set::<Seq<char>>::empty());
    assert(set![id].len() == 1) by {
        assert(set![id] =~= Set::<Seq<char>>::empty().insert(id));
    }
}

} // verus!
