//! The incremental scan cache: per file, the content hash and what the
//! last parse found. A file whose hash is unchanged is not parsed again.
use vstd::prelude::*;
use vstd::string::StringSliceAdditionalSpecFns;

use crate::lang::{canonical_of, find_lang_named, lang_named};
use crate::model::{
    copy_dependencies, copy_entities, copy_errors, copy_strings, view_dependencies, view_entities,
    view_errors, view_strings, Dependency, Entity, EntityView, FileResult, FileView, SyntaxError,
};
use crate::paths::{path_starts_with, starts_with_path};
use crate::text::{hex_lower, owned, str_eq, to_hex_lower};

verus! {

// ── Hashing ──────────────────────────────────────────────────────────────────

/// The SHA-256 digest of some bytes.
pub uninterp spec fn sha256_digest(bytes: Seq<u8>) -> Seq<u8>;

/// `sha2::Sha256::digest`: the 32-byte SHA-256 digest of the data. The
/// digest is named `sha256_digest`; only its length is stated.
#[verifier::external_body]
fn sha256_bytes(data: &[u8]) -> (r: Vec<u8>)
    ensures
        r@ == sha256_digest(data@),
        r@.len() == 32,
{
    <sha2::Sha256 as sha2::Digest>::digest(data).to_vec()
}

/// The cache key of a text: its SHA-256 digest in lowercase hexadecimal.
pub fn sha256(content: &str) -> (r: String)
    ensures
        r@ == hex_lower(sha256_digest(content.spec_bytes())),
        r@.len() == 64,
{
    let d = sha256_bytes(content.as_bytes());
    let r = to_hex_lower(d.as_slice());
    proof {
        crate::text::lemma_hex_lower_len(d@);
    }
    r
}

/// The first four bytes of the SHA-256 digest of a text, in hexadecimal.
pub fn sha256_prefix(content: &str) -> (r: String)
    ensures
        r@ == hex_lower(sha256_digest(content.spec_bytes()).take(4)),
{
    let d = sha256_bytes(content.as_bytes());
    let mut head: Vec<u8> = Vec::new();
    let mut i: usize = 0;
    while i < 4
        invariant
            i <= 4,
            d@.len() == 32,
            head@ == d@.take(i as int),
        decreases 4 - i,
    {
        head.push(d[i]);
        i += 1;
        assert(head@ =~= d@.take(i as int));
    }
    to_hex_lower(head.as_slice())
}

// ── Entries ──────────────────────────────────────────────────────────────────

/// What the cache keeps of one file.
pub struct CachedEntry {
    pub sha256: String,
    pub language: String,
    pub loc: usize,
    pub entities: Vec<Entity>,
    pub imports: Vec<String>,
    pub dependencies: Vec<Dependency>,
    pub errors: Vec<SyntaxError>,
}

/// The mathematical value of a `CachedEntry`.
pub struct EntryView {
    pub sha256: Seq<char>,
    pub language: Seq<char>,
    pub loc: usize,
    pub entities: Seq<EntityView>,
    pub imports: Seq<Seq<char>>,
    pub dependencies: Seq<(Seq<char>, crate::model::DependencyKind)>,
    pub errors: Seq<(Seq<char>, Seq<char>, usize, usize)>,
}

impl View for CachedEntry {
    type V = EntryView;

    open spec fn view(&self) -> EntryView {
        EntryView {
            sha256: self.sha256@,
            language: self.language@,
            loc: self.loc,
            entities: view_entities(self.entities@),
            imports: view_strings(self.imports@),
            dependencies: view_dependencies(self.dependencies@),
            errors: view_errors(self.errors@),
        }
    }
}

/// The entry kept for a file result under a hash.
pub open spec fn entry_of(r: FileView, sha: Seq<char>) -> EntryView {
    EntryView {
        sha256: sha,
        language: r.language,
        loc: r.loc,
        entities: r.entities,
        imports: r.imports,
        dependencies: r.dependencies,
        errors: r.errors,
    }
}

/// What a lookup of `key` with hash `sha` finds: the entry's result when
/// the key is cached, the hash matches and the language is registered.
pub open spec fn cached_result(m: Map<Seq<char>, EntryView>, key: Seq<char>, sha: Seq<char>) -> Option<FileView> {
    if m.contains_key(key) && m[key].sha256 == sha && lang_named(m[key].language) is Some {
        Some(
            FileView {
                path: key,
                language: canonical_of(lang_named(m[key].language)->0),
                loc: m[key].loc,
                entities: m[key].entities,
                imports: m[key].imports,
                dependencies: m[key].dependencies,
                errors: m[key].errors,
            },
        )
    } else {
        None
    }
}

// ── The cache ────────────────────────────────────────────────────────────────

/// File results by path, each with the hash of the content it was parsed
/// from. Entries are kept in the order they were stored; for a path stored
/// more than once, the last entry is the one that counts.
pub struct Cache {
    entries: Vec<(String, CachedEntry)>,
}

/// The entries as a map from path to entry, later entries winning.
pub open spec fn entries_map(es: Seq<(String, CachedEntry)>) -> Map<Seq<char>, EntryView>
    decreases es.len(),
{
    if es.len() == 0 {
        Map::empty()
    } else {
        entries_map(es.drop_last()).insert(es.last().0@, es.last().1@)
    }
}

impl View for Cache {
    type V = Map<Seq<char>, EntryView>;

    closed spec fn view(&self) -> Map<Seq<char>, EntryView> {
        entries_map(self.entries@)
    }
}

/// The last entry under a key is what the map holds for it; a key with no
/// entry from index `n` on is what the first `n` entries map it to.
proof fn lemma_entries_map_last(es: Seq<(String, CachedEntry)>, k: Seq<char>, n: int)
    requires
        0 <= n <= es.len(),
        forall|j: int| n <= j < es.len() ==> (#[trigger] es[j]).0@ != k,
    ensures
        entries_map(es).contains_key(k) == entries_map(es.take(n)).contains_key(k),
        entries_map(es).contains_key(k) ==> entries_map(es)[k] == entries_map(es.take(n))[k],
    decreases es.len(),
{
    if n == es.len() {
        assert(es.take(n) =~= es);
    } else {
        let t = es.drop_last();
        assert forall|j: int| n <= j < t.len() implies (#[trigger] t[j]).0@ != k by {
            assert(t[j] == es[j]);
        }
        lemma_entries_map_last(t, k, n);
        assert(t.take(n) =~= es.take(n));
    }
}

impl Cache {
    /// An empty cache.
    pub fn empty() -> (c: Cache)
        ensures
            c@ == Map::<Seq<char>, EntryView>::empty(),
    {
        Cache { entries: Vec::new() }
    }

    /// Builds a cache from entries read back from disk; a path given twice
    /// keeps its last entry.
    pub fn from_entries(entries: Vec<(String, CachedEntry)>) -> (c: Cache)
        ensures
            c@ == entries_map(entries@),
    {
        Cache { entries }
    }

    /// Stores what a parse of `key` found, under the content hash.
    pub fn insert(&mut self, key: String, result: &FileResult, sha256: String)
        ensures
            final(self)@ == old(self)@.insert(key@, entry_of(result@, sha256@)),
    {
        let entry = CachedEntry {
            sha256,
            language: owned(result.language),
            loc: result.loc,
            entities: copy_entities(&result.entities),
            imports: copy_strings(&result.imports),
            dependencies: copy_dependencies(&result.dependencies),
            errors: copy_errors(&result.errors),
        };
        let ghost before = self.entries@;
        self.entries.push((key, entry));
        assert(self.entries@.drop_last() =~= before);
    }

    /// The cached result of `key`, when it was cached under hash `sha256`
    /// with a registered language.
    pub fn get(&self, key: &str, sha256: &str) -> (r: Option<FileResult>)
        ensures
            r matches Some(f) ==> cached_result(self@, key@, sha256@) == Some(f@),
            r is None ==> cached_result(self@, key@, sha256@) is None,
    {
        let ghost es = self.entries@;
        let mut n: usize = self.entries.len();
        while n > 0 && !str_eq(self.entries[n - 1].0.as_str(), key)
            invariant
                n <= es.len(),
                es == self.entries@,
                forall|j: int| n <= j < es.len() ==> (#[trigger] es[j]).0@ != key@,
            decreases n,
        {
            n -= 1;
        }
        proof {
            lemma_entries_map_last(es, key@, n as int);
        }
        if n == 0 {
            assert(es.take(0) =~= Seq::<(String, CachedEntry)>::empty());
            return None;
        }
        let entry = &self.entries[n - 1].1;
        proof {
            let t = es.take(n as int);
            assert(t.drop_last() =~= es.take(n - 1));
            assert(t.last() == es[n - 1]);
            assert(self@[key@] == entry@);
        }
        if !str_eq(entry.sha256.as_str(), sha256) {
            return None;
        }
        let language = match find_lang_named(entry.language.as_str()) {
            Some(l) => l.canonical(),
            None => return None,
        };
        Some(FileResult {
            path: owned(key),
            language,
            loc: entry.loc,
            entities: copy_entities(&entry.entities),
            imports: copy_strings(&entry.imports),
            dependencies: copy_dependencies(&entry.dependencies),
            errors: copy_errors(&entry.errors),
        })
    }

    /// The entries, in the order they were stored, for writing the cache
    /// out.
    pub fn entries(&self) -> (r: &Vec<(String, CachedEntry)>)
        ensures
            entries_map(r@) == self@,
    {
        &self.entries
    }
}

/// The largest cache file that is read: 100 MB.
pub const MAX_CACHE_SIZE: u64 = 104857600;

/// Whether a cache file of `size` bytes is read; a larger one is dropped
/// and the scan starts fresh.
pub fn cache_size_ok(size: u64) -> (r: bool)
    ensures
        r == (size <= MAX_CACHE_SIZE),
{
    size <= MAX_CACHE_SIZE
}

/// The text of an optional string.
pub open spec fn opt_text(o: Option<String>) -> Option<Seq<char>> {
    match o {
        Some(s) => Some(s@),
        None => None,
    }
}

/// Where the cache lives: `path` itself, or the target of the symbolic
/// link `path` is, unless that target lies outside the working directory,
/// in which case there is no cache.
pub open spec fn cache_target(path: Seq<char>, link: Option<Seq<char>>, cwd: Option<Seq<char>>) -> Option<Seq<char>> {
    match link {
        None => Some(path),
        Some(t) => match cwd {
            Some(c) => if path_starts_with(t, c) {
                Some(t)
            } else {
                None
            },
            None => Some(t),
        },
    }
}

/// Where the cache is read and written. `link_target` is the canonical
/// target when `path` is a symbolic link that resolves; `cwd` the
/// canonical working directory, when known.
pub fn resolve_cache_path(path: &str, link_target: Option<String>, cwd: Option<String>) -> (r: Option<String>)
    ensures
        opt_text(r) == cache_target(path@, opt_text(link_target), opt_text(cwd)),
{
    match link_target {
        Some(t) => match cwd {
            Some(c) => if starts_with_path(t.as_str(), c.as_str()) {
                Some(t)
            } else {
                None
            },
            None => Some(t),
        },
        None => Some(owned(path)),
    }
}

// ── Laws ─────────────────────────────────────────────────────────────────────

/// A lookup right after storing a result under a hash gives that result
/// back, under the stored path, when its language is registered; with
/// another hash it gives nothing; other paths are untouched.
pub proof fn lemma_cache_read_after_write(
    m: Map<Seq<char>, EntryView>,
    key: Seq<char>,
    r: FileView,
    sha: Seq<char>,
    other_key: Seq<char>,
    other_sha: Seq<char>,
)
    requires
        lang_named(r.language) is Some,
    ensures
        cached_result(m.insert(key, entry_of(r, sha)), key, sha) == Some(FileView { path: key, ..r }),
        other_sha != sha ==> cached_result(m.insert(key, entry_of(r, sha)), key, other_sha) is None,
        other_key != key ==> cached_result(m.insert(key, entry_of(r, sha)), other_key, other_sha)
            == cached_result(m, other_key, other_sha),
{
    crate::lang::lemma_lang_named(r.language);
}

} // verus!
