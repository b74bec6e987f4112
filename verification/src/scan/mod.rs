//! The scan pipeline: which files a language filter selects, the cache
//! consulted before parsing, dependency resolution across the project, and
//! the entity filters; then output.
use vstd::prelude::*;
use vstd::utf8::encode_utf8;

use crate::cache::{cached_result, entry_of, sha256, sha256_digest, Cache, EntryView};
use crate::lang::{
    aliases_of, detect, detected, file_parsed, find_lang_named, lang_named, lang_with_extension, parse_file,
    path_extension,
    resolve_imports, resolved_for,
};
use crate::model::{
    copy_entities, copy_errors, copy_strings, view_dependencies, view_entities, view_errors,
    view_results, view_strings, Dependency, FileResult, FileView,
};
use crate::scan::filter::{filter_by_info, filter_entities, filtered, info_filtered};
use crate::paths::{path_less, path_lt};
use crate::text::{concat3, hex_lower, lowercase, owned, str_eq, to_lower};

pub mod filter;
pub mod query;
pub mod render;

verus! {

// ── The language filter ──────────────────────────────────────────────────────

/// Whether a file of `language` passes the filter: an empty filter passes
/// everything; otherwise some entry, lowercased, must be an alias of the
/// registered language.
pub open spec fn lang_selected(language: Seq<char>, filter: Seq<Seq<char>>) -> bool {
    filter.len() == 0 || match lang_named(language) {
        Some(l) => exists|i: int| 0 <= i < filter.len() && aliases_of(l).contains(lowercase(#[trigger] filter[i])),
        None => false,
    }
}

/// Whether a file of `language` passes the language filter.
pub fn lang_matches(language: &str, filter: &Vec<String>) -> (r: bool)
    ensures
        r == lang_selected(language@, view_strings(filter@)),
{
    let ghost fs = view_strings(filter@);
    if filter.len() == 0 {
        return true;
    }
    let l = match find_lang_named(language) {
        Some(l) => l,
        None => return false,
    };
    let mut i: usize = 0;
    while i < filter.len()
        invariant
            i <= filter@.len(),
            fs == view_strings(filter@),
            lang_named(language@) == Some(l),
            fs.len() > 0,
            forall|k: int| 0 <= k < i ==> !aliases_of(l).contains(lowercase(#[trigger] fs[k])),
        decreases filter.len() - i,
    {
        let lower = to_lower(filter[i].as_str());
        assert(fs[i as int] == filter@[i as int]@);
        if l.has_alias(lower.as_str()) {
            assert(0 <= i < fs.len() && aliases_of(l).contains(lowercase(fs[i as int])));
            return true;
        }
        i += 1;
    }
    false
}

/// Whether a file is read at all: it has a registered language that the
/// filter passes.
pub open spec fn wanted_file(path: Seq<char>, filter: Seq<Seq<char>>) -> bool {
    match detected(path) {
        Some(language) => lang_selected(language, filter),
        None => false,
    }
}

/// Whether a file is read at all.
pub fn wanted(file: &str, filter: &Vec<String>) -> (r: bool)
    ensures
        r == wanted_file(file@, view_strings(filter@)),
{
    match detect(file) {
        Some(language) => lang_matches(language, filter),
        None => false,
    }
}

/// The first filter entry that names no language, ignoring case.
pub open spec fn first_unknown_from(filter: Seq<Seq<char>>, i: int) -> Option<Seq<char>>
    decreases filter.len() - i,
{
    if i < 0 || i >= filter.len() {
        None
    } else if !crate::lang::is_known_alias(lowercase(filter[i])) {
        Some(filter[i])
    } else {
        first_unknown_from(filter, i + 1)
    }
}

/// Rejects a language filter with an entry that names no language.
pub fn validate_lang_filter(filter: &Vec<String>) -> (r: Result<(), String>)
    ensures
        r is Ok <==> first_unknown_from(view_strings(filter@), 0) is None,
        r matches Err(msg) ==> msg@ == "unrecognized language: '"@ + first_unknown_from(view_strings(filter@), 0)->0
            + "'"@,
{
    let ghost fs = view_strings(filter@);
    let mut i: usize = 0;
    while i < filter.len()
        invariant
            i <= filter@.len(),
            fs == view_strings(filter@),
            first_unknown_from(fs, 0) == first_unknown_from(fs, i as int),
        decreases filter.len() - i,
    {
        let lower = to_lower(filter[i].as_str());
        assert(fs[i as int] == filter@[i as int]@);
        if !crate::lang::is_alias(lower.as_str()) {
            return Err(concat3("unrecognized language: '", filter[i].as_str(), "'"));
        }
        i += 1;
    }
    Ok(())
}

// ── One file ─────────────────────────────────────────────────────────────────

/// The cache key of a text.
pub open spec fn content_hash(source: Seq<char>) -> Seq<char> {
    hex_lower(sha256_digest(encode_utf8(source)))
}

/// What scanning one file does, given the cache: a file of no registered
/// language, or one the filter drops, gives nothing; a file cached under
/// its content's hash gives the cached result; any other is parsed, and the
/// result stored in the cache (the third part says the cache changed).
pub open spec fn scan_step(
    m: Map<Seq<char>, EntryView>,
    path: Seq<char>,
    source: Seq<char>,
    filter: Seq<Seq<char>>,
) -> (Option<FileView>, Map<Seq<char>, EntryView>, bool) {
    match detected(path) {
        None => (None, m, false),
        Some(language) => if !lang_selected(language, filter) {
            (None, m, false)
        } else {
            match cached_result(m, path, content_hash(source)) {
                Some(f) => (Some(f), m, false),
                None => {
                    let f = file_parsed(path, source, language);
                    (Some(f), m.insert(path, entry_of(f, content_hash(source))), true)
                },
            }
        },
    }
}

/// A file scanned again with the same text is answered from the cache: the
/// same result as the first time, the cache left as it is, and nothing to
/// save.
pub proof fn lemma_rescan_hits_cache(
    m: Map<Seq<char>, EntryView>,
    path: Seq<char>,
    source: Seq<char>,
    filter: Seq<Seq<char>>,
)
    ensures
        ({
            let (first, m1, _) = scan_step(m, path, source, filter);
            let (again, m2, dirty) = scan_step(m1, path, source, filter);
            &&& again == first
            &&& m2 == m1
            &&& !dirty
        }),
{
    match detected(path) {
        None => {},
        Some(language) => {
            if lang_selected(language, filter) {
                if cached_result(m, path, content_hash(source)) is None {
                    let l = lang_with_extension(path_extension(path)->0)->0;
                    crate::lang::lemma_canonical_named(l);
                    let f = file_parsed(path, source, language);
                    crate::cache::lemma_cache_read_after_write(m, path, f, content_hash(source), path, content_hash(source));
                    assert(FileView { path, ..f } == f);
                }
            }
        },
    }
}

/// Scans one file whose text has been read: detects its language, applies
/// the language filter, and answers from the cache or parses the text.
pub fn scan_one(
    file: &str,
    source: &str,
    lang_filter: &Vec<String>,
    cache: &mut Cache,
    cache_dirty: &mut bool,
) -> (r: Option<FileResult>)
    ensures
        ({
            let (o, m, d) = scan_step(old(cache)@, file@, source@, view_strings(lang_filter@));
            &&& final(cache)@ == m
            &&& *final(cache_dirty) == (*old(cache_dirty) || d)
            &&& match o {
                Some(f) => r matches Some(x) && x@ == f,
                None => r is None,
            }
        }),
{
    let language = match detect(file) {
        Some(l) => l,
        None => return None,
    };
    if !lang_matches(language, lang_filter) {
        return None;
    }
    let sha = sha256(source);
    assert(sha@ == content_hash(source@));
    match cache.get(file, sha.as_str()) {
        Some(cached) => Some(cached),
        None => {
            let result = parse_file(file, source, language);
            cache.insert(owned(file), &result, sha);
            *cache_dirty = true;
            Some(result)
        },
    }
}

// ── The whole project ────────────────────────────────────────────────────────

/// The files scanned from `(path, text)` pairs, in order, with the cache
/// they leave and whether it changed.
pub open spec fn scanned(
    sources: Seq<(Seq<char>, Seq<char>)>,
    filter: Seq<Seq<char>>,
    m: Map<Seq<char>, EntryView>,
) -> (Seq<FileView>, Map<Seq<char>, EntryView>, bool)
    decreases sources.len(),
{
    if sources.len() == 0 {
        (Seq::empty(), m, false)
    } else {
        let (rs, m1, d1) = scanned(sources.drop_last(), filter, m);
        let (o, m2, d2) = scan_step(m1, sources.last().0, sources.last().1, filter);
        (
            match o {
                Some(f) => rs.push(f),
                None => rs,
            },
            m2,
            d1 || d2,
        )
    }
}

/// The paths of the scanned files.
pub open spec fn paths_of(rs: Seq<FileView>) -> Seq<Seq<char>> {
    rs.map_values(|r: FileView| r.path)
}

/// Every file with its imports resolved against the project's files.
pub open spec fn with_dependencies(rs: Seq<FileView>) -> Seq<FileView> {
    rs.map_values(
        |r: FileView| FileView { dependencies: resolved_for(r.language, r.imports, paths_of(rs)), ..r },
    )
}

/// Every file with its entities filtered: depth ceiling and name pattern
/// (lowercased), then the test-module selection.
pub open spec fn with_filters(rs: Seq<FileView>, pattern: Seq<char>, max_depth: Option<usize>, info: Seq<char>) -> Seq<FileView> {
    rs.map_values(
        |r: FileView|
            FileView { entities: info_filtered(filtered(r.entities, lowercase(pattern), max_depth, 0), info), ..r },
    )
}

/// A copy of a file result with other dependencies.
fn with_deps(r: &FileResult, dependencies: Vec<Dependency>) -> (x: FileResult)
    ensures
        x@ == (FileView { dependencies: view_dependencies(dependencies@), ..r@ }),
{
    FileResult {
        path: r.path.clone(),
        language: r.language,
        loc: r.loc,
        entities: copy_entities(&r.entities),
        imports: copy_strings(&r.imports),
        dependencies,
        errors: copy_errors(&r.errors),
    }
}

/// Resolves every file's imports against the paths of all scanned files.
pub fn resolve_dependencies(results: &mut Vec<FileResult>)
    ensures
        view_results(final(results)@) == with_dependencies(view_results(old(results)@)),
{
    let ghost rs = view_results(results@);
    let mut files: Vec<String> = Vec::new();
    let mut i: usize = 0;
    while i < results.len()
        invariant
            i <= results@.len(),
            rs == view_results(results@),
            view_strings(files@) == paths_of(rs).take(i as int),
        decreases results.len() - i,
    {
        let p = results[i].path.clone();
        assert(p@ == rs[i as int].path);
        let ghost before = files@;
        files.push(p);
        assert(view_strings(files@) =~= view_strings(before).push(p@));
        assert(paths_of(rs).take(i + 1) =~= paths_of(rs).take(i as int).push(rs[i as int].path));
        assert(view_strings(files@) =~= paths_of(rs).take(i + 1));
        i += 1;
    }
    assert(paths_of(rs).take(rs.len() as int) =~= paths_of(rs));
    let mut out: Vec<FileResult> = Vec::new();
    let mut i: usize = 0;
    while i < results.len()
        invariant
            i <= results@.len(),
            rs == view_results(results@),
            view_strings(files@) == paths_of(rs),
            view_results(out@) == with_dependencies(rs).take(i as int),
        decreases results.len() - i,
    {
        let r = &results[i];
        let deps = resolve_imports(r.language, &r.imports, &files);
        let x = with_deps(r, deps);
        assert(r@ == rs[i as int]);
        assert(x@ == with_dependencies(rs)[i as int]);
        let ghost before = out@;
        out.push(x);
        assert(view_results(out@) =~= view_results(before).push(x@));
        assert(view_results(out@) =~= with_dependencies(rs).take(i + 1));
        i += 1;
    }
    assert(with_dependencies(rs).take(rs.len() as int) =~= with_dependencies(rs));
    *results = out;
}

/// Applies the entity filters to every file: the pattern is lowercased,
/// the depth ceiling and pattern applied first, then the test-module
/// selection.
pub fn apply_filters(results: &mut Vec<FileResult>, pattern: &str, max_depth: Option<usize>, info: &str)
    ensures
        view_results(final(results)@) == with_filters(view_results(old(results)@), pattern@, max_depth, info@),
{
    let ghost rs = view_results(results@);
    let lower = to_lower(pattern);
    let mut out: Vec<FileResult> = Vec::new();
    let mut i: usize = 0;
    while i < results.len()
        invariant
            i <= results@.len(),
            rs == view_results(results@),
            lower@ == lowercase(pattern@),
            view_results(out@) == with_filters(rs, pattern@, max_depth, info@).take(i as int),
        decreases results.len() - i,
    {
        let r = &results[i];
        let es = filter_entities(copy_entities(&r.entities), lower.as_str(), max_depth, 0);
        let es = filter_by_info(es, info);
        let x = FileResult {
            path: r.path.clone(),
            language: r.language,
            loc: r.loc,
            entities: es,
            imports: copy_strings(&r.imports),
            dependencies: crate::model::copy_dependencies(&r.dependencies),
            errors: copy_errors(&r.errors),
        };
        assert(r@ == rs[i as int]);
        assert(x@ == with_filters(rs, pattern@, max_depth, info@)[i as int]);
        let ghost before = out@;
        out.push(x);
        assert(view_results(out@) =~= view_results(before).push(x@));
        assert(view_results(out@) =~= with_filters(rs, pattern@, max_depth, info@).take(i + 1));
        i += 1;
    }
    assert(with_filters(rs, pattern@, max_depth, info@).take(rs.len() as int) =~= with_filters(
        rs,
        pattern@,
        max_depth,
        info@,
    ));
    *results = out;
}

// ── The order of results ─────────────────────────────────────────────────────

/// `x` inserted after every result whose path does not sort after its own.
pub open spec fn insert_by_path(s: Seq<FileView>, x: FileView) -> Seq<FileView>
    decreases s.len(),
{
    if s.len() == 0 || !path_lt(x.path, s.last().path) {
        s.push(x)
    } else {
        insert_by_path(s.drop_last(), x).push(s.last())
    }
}

/// Results in path order (a stable sort).
pub open spec fn sorted_by_path(s: Seq<FileView>) -> Seq<FileView>
    decreases s.len(),
{
    if s.len() == 0 {
        s
    } else {
        insert_by_path(sorted_by_path(s.drop_last()), s.last())
    }
}

/// No result's path sorts before the path of the one ahead of it.
pub open spec fn paths_ordered(s: Seq<FileView>) -> bool {
    forall|k: int| 0 <= k < s.len() - 1 ==> !path_lt(#[trigger] s[k + 1].path, s[k].path)
}

proof fn lemma_insert_by_path_at(s: Seq<FileView>, x: FileView, j: int)
    requires
        0 <= j <= s.len(),
        forall|k: int| j <= k < s.len() ==> path_lt(x.path, #[trigger] s[k].path),
        j == 0 || !path_lt(x.path, s[j - 1].path),
    ensures
        insert_by_path(s, x) == s.take(j) + seq![x] + s.skip(j),
    decreases s.len(),
{
    if j == s.len() {
        assert(s.take(j) =~= s);
        assert(s.skip(j) =~= Seq::<FileView>::empty());
        assert(s.take(j) + seq![x] + s.skip(j) =~= s.push(x));
    } else {
        let t = s.drop_last();
        assert forall|k: int| j <= k < t.len() implies path_lt(x.path, #[trigger] t[k].path) by {
            assert(t[k] == s[k]);
        }
        if j > 0 {
            assert(t[j - 1] == s[j - 1]);
        }
        lemma_insert_by_path_at(t, x, j);
        assert(s.take(j) + seq![x] + s.skip(j) =~= (t.take(j) + seq![x] + t.skip(j)).push(s.last()));
    }
}

/// Sorts scan results by path: stably, and so that no path sorts before
/// the one ahead of it.
pub fn sort_results(results: Vec<FileResult>) -> (r: Vec<FileResult>)
    ensures
        view_results(r@) == sorted_by_path(view_results(results@)),
        paths_ordered(view_results(r@)),
{
    let ghost src = view_results(results@);
    let mut rest = results;
    let n = rest.len();
    let ghost total = n as nat;
    let mut out: Vec<FileResult> = Vec::new();
    let mut i: usize = 0;
    while rest.len() > 0
        invariant
            src.len() == total,
            total <= usize::MAX,
            i + rest@.len() == total,
            forall|k: int| 0 <= k < rest@.len() ==> (#[trigger] rest@[k])@ == src[i + k],
            view_results(out@) == sorted_by_path(src.take(i as int)),
            paths_ordered(view_results(out@)),
        decreases rest.len(),
    {
        let x = rest.remove(0);
        let ghost sorted = view_results(out@);
        let mut j = out.len();
        while j > 0 && path_less(x.path.as_str(), out[j - 1].path.as_str())
            invariant
                j <= out@.len(),
                sorted == view_results(out@),
                forall|k: int| j <= k < sorted.len() ==> path_lt(x@.path, #[trigger] sorted[k].path),
                j < sorted.len() ==> !path_lt(sorted[j as int].path, x@.path),
            decreases j,
        {
            assert(sorted[j - 1] == out@[j - 1]@);
            j -= 1;
        }
        proof {
            if j > 0 {
                assert(sorted[j - 1] == out@[j - 1]@);
            }
            lemma_insert_by_path_at(sorted, x@, j as int);
            assert(src.take(i + 1).drop_last() =~= src.take(i as int));
            assert(src.take(i + 1).last() == x@);
        }
        let ghost xv = x@;
        out.insert(j, x);
        proof {
            let r = view_results(out@);
            assert(r =~= sorted.take(j as int) + seq![xv] + sorted.skip(j as int));
            assert forall|k: int| 0 <= k < r.len() - 1 implies !path_lt(#[trigger] r[k + 1].path, r[k].path) by {
                if k + 1 < j {
                    assert(r[k] == sorted[k] && r[k + 1] == sorted[k + 1]);
                    assert(!path_lt(sorted[k + 1].path, sorted[k].path));
                } else if k + 1 == j {
                    assert(r[k] == sorted[k] && r[k + 1] == xv);
                } else if k == j {
                    assert(r[k] == xv && r[k + 1] == sorted[k]);
                } else {
                    assert(r[k] == sorted[k - 1] && r[k + 1] == sorted[k]);
                    assert(!path_lt(sorted[(k - 1) + 1].path, sorted[k - 1].path));
                }
            }
        }
        i += 1;
    }
    proof {
        assert(src.take(total as int) =~= src);
    }
    out
}

/// The values of `(path, text)` pairs.
pub open spec fn view_sources(v: Seq<(String, String)>) -> Seq<(Seq<char>, Seq<char>)> {
    v.map_values(|p: (String, String)| (p.0@, p.1@))
}

/// Scans files whose texts have been read, in order: a language filter
/// naming no language is an error and leaves the cache alone; otherwise
/// each file is scanned (from the cache where its hash matches), imports
/// are resolved across the scanned files, the entity filters applied, and
/// the results sorted by path. The flag says whether the cache changed.
pub fn build_scan_results(
    sources: &Vec<(String, String)>,
    lang_filter: &Vec<String>,
    match_pattern: &str,
    max_depth: Option<usize>,
    info: &str,
    cache: &mut Cache,
) -> (r: Result<(Vec<FileResult>, bool), String>)
    ensures
        first_unknown_from(view_strings(lang_filter@), 0) matches Some(bad) ==> {
            &&& r matches Err(msg) && msg@ == "unrecognized language: '"@ + bad + "'"@
            &&& final(cache)@ == old(cache)@
        },
        first_unknown_from(view_strings(lang_filter@), 0) is None ==> {
            let (rs, m, d) = scanned(view_sources(sources@), view_strings(lang_filter@), old(cache)@);
            &&& r matches Ok(res) && view_results(res.0@) == sorted_by_path(
                with_filters(with_dependencies(rs), match_pattern@, max_depth, info@),
            ) && res.1 == d
            &&& r matches Ok(res) && paths_ordered(view_results(res.0@))
            &&& final(cache)@ == m
        },
{
    match validate_lang_filter(lang_filter) {
        Err(e) => return Err(e),
        Ok(()) => {},
    }
    let ghost ss = view_sources(sources@);
    let ghost fs = view_strings(lang_filter@);
    let ghost m0 = cache@;
    let mut results: Vec<FileResult> = Vec::new();
    let mut dirty = false;
    let mut i: usize = 0;
    while i < sources.len()
        invariant
            i <= sources@.len(),
            ss == view_sources(sources@),
            fs == view_strings(lang_filter@),
            ({
                let (rs, m, d) = scanned(ss.take(i as int), fs, m0);
                &&& view_results(results@) == rs
                &&& cache@ == m
                &&& dirty == d
            }),
        decreases sources.len() - i,
    {
        proof {
            assert(ss.take(i + 1).drop_last() =~= ss.take(i as int));
            assert(ss.take(i + 1).last() == (sources@[i as int].0@, sources@[i as int].1@));
        }
        let (path, text) = &sources[i];
        match scan_one(path.as_str(), text.as_str(), lang_filter, cache, &mut dirty) {
            Some(f) => {
                results.push(f);
                assert(view_results(results@) =~= scanned(ss.take(i + 1), fs, m0).0);
            },
            None => {},
        }
        i += 1;
    }
    assert(ss.take(ss.len() as int) =~= ss);
    resolve_dependencies(&mut results);
    apply_filters(&mut results, match_pattern, max_depth, info);
    Ok((sort_results(results), dirty))
}

} // verus!
