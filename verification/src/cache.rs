//! Cross-session cache. Never authoritative: a cold cache costs time only.
//!
//! Nothing wires this up yet: the program always starts from an empty graph,
//! and nothing fills [`CacheFile::file_hashes`]. Reading and writing the file
//! belong to the program; what a cache file holds, where it lives, whether a
//! loaded one is accepted and which cached files have gone stale are decided
//! here.

use crate::graph::CallGraph;
use crate::paths::{is_platform_separator, join, joined, main_separator};
use crate::strmap::{entry_view, StrMap};
use crate::text::{string_from_chars, str_chars};
use crate::uri::{is_file_uri, path_to_uri};
use sha2::Digest;
use vstd::prelude::*;
use vstd::slice::slice_subrange;

verus! {

pub const SCHEMA_VERSION: u32 = 1;

#[derive(Debug)]
pub struct CacheFile {
    pub schema: u32,
    /// Absolute file path -> content hash at the time of caching.
    pub file_hashes: StrMap<String>,
    pub graph: CallGraph,
}

impl CacheFile {
    pub fn new(graph: CallGraph) -> (c: CacheFile)
        ensures
            c.schema == SCHEMA_VERSION,
            c.file_hashes.wf(),
            c.file_hashes.spec_entries().len() == 0,
            c.graph == graph,
    {
        CacheFile { schema: SCHEMA_VERSION, file_hashes: StrMap::new(), graph }
    }
}

/// The SHA-256 digest of `bytes`, as lowercase hexadecimal.
pub uninterp spec fn sha256_hex(bytes: Seq<u8>) -> Seq<char>;

pub open spec fn is_lower_hex_digit(c: char) -> bool {
    ('0' <= c && c <= '9') || ('a' <= c && c <= 'f')
}

/// `sha2::Sha256::digest`, printed with `{:x}`. The digest is SHA-256's own
/// algorithm, named here and not restated; its 32 bytes print as 64
/// lowercase hexadecimal digits, two per byte.
#[verifier::external_body]
fn sha256_hex_of(bytes: &[u8]) -> (r: String)
    ensures
        r@ == sha256_hex(bytes@),
        r@.len() == 64,
        forall|i: int| 0 <= i < r@.len() ==> is_lower_hex_digit(#[trigger] r@[i]),
{
    format!("{:x}", sha2::Sha256::digest(bytes))
}

/// The content hash of a file's bytes.
pub fn hash_bytes(bytes: &[u8]) -> (r: String)
    ensures
        r@ == sha256_hex(bytes@),
        r@.len() == 64,
{
    sha256_hex_of(bytes)
}

/// The hash of a text's UTF-8 bytes.
pub fn hash_str(s: &str) -> (r: String)
    ensures
        r@ == sha256_hex(vstd::utf8::encode_utf8(s@)),
        r@.len() == 64,
{
    sha256_hex_of(s.as_bytes())
}

/// The cache directory for repository `repo` under the platform cache
/// directory `base`: `<base>/lspgraph/<key>`, joined with the platform's
/// separator, where the key is the first 16 hex digits (64 bits) of the
/// SHA-256 of the repository path.
pub fn cache_dir_under(base: &str, repo: &str) -> (r: String)
    ensures
        exists|sep: char|
            is_platform_separator(sep) && r@ == #[trigger] joined(
                joined(base@, "lspgraph"@, sep),
                sha256_hex(vstd::utf8::encode_utf8(repo@)).take(16),
                sep,
            ),
{
    let sep = main_separator();
    let key = hash_str(repo);
    let chars = str_chars(key.as_str());
    let short = string_from_chars(slice_subrange(chars.as_slice(), 0, 16));
    let dir = join(base, "lspgraph", sep);
    let r = join(dir.as_str(), short.as_str(), sep);
    proof {
        assert(r@ == joined(joined(base@, "lspgraph"@, sep), sha256_hex(vstd::utf8::encode_utf8(repo@)).take(16), sep));
    }
    r
}

/// A loaded cache, or nothing: a schema mismatch discards rather than
/// migrates.
pub fn accept_loaded(cache: CacheFile) -> (r: Option<CacheFile>)
    ensures
        r is Some <==> cache.schema == SCHEMA_VERSION,
        r matches Some(c) ==> c == cache,
{
    if cache.schema != SCHEMA_VERSION {
        return None;
    }
    Some(cache)
}

/// Has a cached file changed: is its current hash different, or could it
/// not be read (`None`)?
pub open spec fn is_stale(cached: Seq<char>, current: Option<String>) -> bool {
    match current {
        Some(h) => h@ != cached,
        None => true,
    }
}

/// The paths of the stale entries, in order.
pub open spec fn stale_paths_of(entries: Seq<(Seq<char>, String)>, current: Seq<Option<String>>) -> Seq<Seq<char>>
    decreases entries.len(),
{
    if entries.len() == 0 {
        Seq::empty()
    } else {
        let n = entries.len() - 1;
        stale_paths_of(entries.drop_last(), current.take(n)) + if is_stale(entries.last().1@, current[n]) {
            seq![entries.last().0]
        } else {
            Seq::empty()
        }
    }
}

/// The cached files whose content hash no longer matches what is on disk,
/// given the current hash of each cached file, in the cache's order (`None`
/// where the file could not be read: unreadable or deleted counts as stale).
pub fn stale_paths(cache: &CacheFile, current: &[Option<String>]) -> (r: Vec<String>)
    requires
        current@.len() == cache.file_hashes.spec_entries().len(),
    ensures
        r@.map_values(crate::config::string_view()) == stale_paths_of(cache.file_hashes.spec_entries(), current@),
{
    let entries = cache.file_hashes.entries();
    let ghost s = cache.file_hashes.spec_entries();
    let mut out: Vec<String> = Vec::new();
    let mut i: usize = 0;
    proof {
        assert(out@.map_values(crate::config::string_view()) =~= stale_paths_of(s.take(0), current@.take(0)));
    }
    while i < entries.len()
        invariant
            i <= entries@.len(),
            s == entries@.map_values(entry_view()),
            current@.len() == s.len(),
            out@.map_values(crate::config::string_view()) == stale_paths_of(s.take(i as int), current@.take(i as int)),
        decreases entries.len() - i,
    {
        proof {
            assert(s.take(i + 1).drop_last() =~= s.take(i as int));
            assert(current@.take(i + 1).take(i as int) =~= current@.take(i as int));
            assert(s.take(i + 1).last() == s[i as int]);
            assert(current@.take(i + 1)[i as int] == current@[i as int]);
        }
        let stale = match &current[i] {
            Some(h) => !crate::text::string_eq_str(h, entries[i].1.as_str()),
            None => true,
        };
        if stale {
            let ghost before = out@;
            proof {
                assert(s[i as int].0 == entries@[i as int].0@);
            }
            let p = entries[i].0.clone();
            out.push(p);
            proof {
                crate::graph::lemma_map_values_push(before, p, crate::config::string_view());
            }
        }
        i = i + 1;
    }
    proof {
        assert(s.take(i as int) =~= s);
        assert(current@.take(i as int) =~= current@);
    }
    out
}

/// The URIs of the stale files (see [`stale_paths`]), in order, or `None`
/// where a stale path has no `file:` URI on this platform (it is not
/// absolute there).
///
/// The returned strings are not filesystem paths: each is the file's URI in
/// the same form as `NodeId::uri`, made by [`path_to_uri`], so the result can
/// be passed directly, with no conversion, to `Engine::invalidate_file` /
/// `CallGraph::remove_file`.
pub fn stale_files(cache: &CacheFile, current: &[Option<String>]) -> (r: Option<Vec<String>>)
    requires
        current@.len() == cache.file_hashes.spec_entries().len(),
    ensures
        r matches Some(v) ==> v@.len() == stale_paths_of(cache.file_hashes.spec_entries(), current@).len()
            && forall|k: int| 0 <= k < v@.len() ==> is_file_uri(#[trigger] v@[k]@),
        r is None ==> stale_paths_of(cache.file_hashes.spec_entries(), current@).len() > 0,
{
    let paths = stale_paths(cache, current);
    proof {
        assert(paths@.len() == paths@.map_values(crate::config::string_view()).len());
    }
    let mut out: Vec<String> = Vec::new();
    let mut i: usize = 0;
    while i < paths.len()
        invariant
            i <= paths@.len(),
            out@.len() == i,
            paths@.len() == stale_paths_of(cache.file_hashes.spec_entries(), current@).len(),
            forall|k: int| 0 <= k < out@.len() ==> is_file_uri(#[trigger] out@[k]@),
        decreases paths.len() - i,
    {
        match path_to_uri(paths[i].as_str()) {
            Some(u) => out.push(u),
            None => return None,
        }
        i = i + 1;
    }
    Some(out)
}

} // verus!
