use code_seek::cache::{cache_size_ok, resolve_cache_path, sha256, sha256_prefix, Cache};
use code_seek::json::Json;
use code_seek::model::{Dependency, DependencyKind, Entity, EntityType, FileResult, SyntaxError};
use code_seek::scan::filter::{filter_by_info, filter_entities, keep_test_modules_only, strip_test_modules};
use code_seek::scan::query::{find_entity, locate, summarize};
use code_seek::scan::render::{
    count_entities, entity_has_error, entity_icon, entity_path_segment, entity_tree_width, entity_type_str,
    format_deps, format_errors, plural, print_tree, results_to_json,
};
use code_seek::scan::{build_scan_results, lang_matches, validate_lang_filter};

fn make_entity(name: &str, et: EntityType, children: Vec<Entity>) -> Entity {
    let mut e = Entity::new(name.to_owned(), et, 1, 1, 1);
    e.children = children;
    e
}

fn make_file_result(path: &str, entities: Vec<Entity>) -> FileResult {
    FileResult {
        path: path.to_string(),
        language: "Rust",
        loc: 10,
        entities,
        imports: vec![],
        dependencies: vec![],
        errors: vec![],
    }
}

fn err(start: usize, end: usize) -> SyntaxError {
    SyntaxError { kind: "error".into(), node_kind: "ERROR".into(), start_line: start, end_line: end }
}

fn s(j: &Json, key: &str) -> String {
    j.get(key).unwrap().as_str().unwrap().to_string()
}

fn n(j: &Json, key: &str) -> usize {
    j.get(key).unwrap().as_num().unwrap()
}

// ── Filters ──────────────────────────────────────────────────────────────────

#[test]
fn filter_depth_0_returns_empty() {
    let entities = vec![make_entity("foo", EntityType::Function, vec![])];
    assert!(filter_entities(entities, "", Some(0), 0).is_empty());
}

#[test]
fn filter_depth_1_returns_roots_only() {
    let child = make_entity("bar", EntityType::Method, vec![]);
    let root = make_entity("Foo", EntityType::Impl, vec![child]);
    let result = filter_entities(vec![root], "", Some(1), 0);
    assert_eq!(result.len(), 1);
    assert!(result[0].children.is_empty());
}

#[test]
fn filter_match_excludes_non_matching() {
    let a = make_entity("add", EntityType::Function, vec![]);
    let b = make_entity("sub", EntityType::Function, vec![]);
    let result = filter_entities(vec![a, b], "add", None, 0);
    assert_eq!(result.len(), 1);
    assert_eq!(result[0].name, "add");
}

#[test]
fn filter_match_preserves_parent_with_matching_child() {
    let bar = make_entity("bar", EntityType::Method, vec![]);
    let baz = make_entity("baz", EntityType::Method, vec![]);
    let foo = make_entity("Foo", EntityType::Impl, vec![bar, baz]);
    let result = filter_entities(vec![foo], "bar", None, 0);
    assert_eq!(result.len(), 1);
    assert_eq!(result[0].name, "Foo");
    assert_eq!(result[0].children.len(), 1);
    assert_eq!(result[0].children[0].name, "bar");
}

#[test]
fn filter_depth_wins_over_match() {
    let bar = make_entity("bar", EntityType::Method, vec![]);
    let foo = make_entity("Foo", EntityType::Impl, vec![bar]);
    assert!(filter_entities(vec![foo], "bar", Some(1), 0).is_empty());
}

#[test]
fn filter_match_is_case_insensitive_on_names() {
    let a = make_entity("ParseNode", EntityType::Function, vec![]);
    let result = filter_entities(vec![a], "parse", None, 0);
    assert_eq!(result.len(), 1);
}

#[test]
fn filter_by_info_all_preserves_all() {
    let e = make_entity("foo", EntityType::Function, vec![]);
    let result = filter_by_info(vec![e.clone()], "all");
    assert_eq!(result.len(), 1);
    assert_eq!(result[0].name, "foo");
}

#[test]
fn filter_by_info_no_tests_removes_test_mod() {
    let child = make_entity("helper", EntityType::Function, vec![]);
    let test_mod = make_entity("tests", EntityType::Namespace, vec![child]);
    let func = make_entity("main", EntityType::Function, vec![]);
    let result = filter_by_info(vec![test_mod, func], "no-tests");
    assert_eq!(result.len(), 1);
    assert_eq!(result[0].name, "main");
}

#[test]
fn filter_by_info_tests_only_keeps_test_mod() {
    let child = make_entity("helper", EntityType::Function, vec![]);
    let test_mod = make_entity("tests", EntityType::Namespace, vec![child]);
    let func = make_entity("main", EntityType::Function, vec![]);
    let result = filter_by_info(vec![test_mod, func], "tests-only");
    assert_eq!(result.len(), 1);
    assert_eq!(result[0].name, "tests");
    assert_eq!(result[0].children.len(), 1);
    assert_eq!(result[0].children[0].name, "helper");
}

#[test]
fn filter_by_info_tests_only_drops_other_entities() {
    let func = make_entity("main", EntityType::Function, vec![]);
    assert!(filter_by_info(vec![func], "tests-only").is_empty());
}

#[test]
fn strip_and_keep_test_modules_nested() {
    let inner_tests = make_entity("tests", EntityType::Namespace, vec![make_entity("t", EntityType::Function, vec![])]);
    let m = make_entity("m", EntityType::Namespace, vec![inner_tests, make_entity("f", EntityType::Function, vec![])]);
    let stripped = strip_test_modules(vec![m.clone()]);
    assert_eq!(stripped[0].children.len(), 1);
    assert_eq!(stripped[0].children[0].name, "f");
    let kept = keep_test_modules_only(vec![m]);
    assert_eq!(kept.len(), 1);
    assert_eq!(kept[0].children.len(), 1);
    assert_eq!(kept[0].children[0].name, "tests");
    // A `tests` struct is not a test module.
    let s = make_entity("tests", EntityType::Struct, vec![]);
    assert_eq!(strip_test_modules(vec![s]).len(), 1);
}

// ── Render helpers ───────────────────────────────────────────────────────────

#[test]
fn entity_path_segment_prefixes_impl_trait_namespace() {
    assert_eq!(entity_path_segment(&EntityType::Impl, "Foo"), "impl Foo");
    assert_eq!(entity_path_segment(&EntityType::Trait, "Animal"), "trait Animal");
    assert_eq!(entity_path_segment(&EntityType::Namespace, "utils"), "mod utils");
}

#[test]
fn entity_path_segment_passthrough_for_other_types() {
    assert_eq!(entity_path_segment(&EntityType::Struct, "Point"), "Point");
    assert_eq!(entity_path_segment(&EntityType::Class, "Vec"), "Vec");
    assert_eq!(entity_path_segment(&EntityType::Enum, "Color"), "Color");
    assert_eq!(entity_path_segment(&EntityType::Function, "run"), "run");
    assert_eq!(entity_path_segment(&EntityType::Method, "new"), "new");
}

#[test]
fn entity_type_str_matches_variant_names() {
    assert_eq!(entity_type_str(&EntityType::Class), "Class");
    assert_eq!(entity_type_str(&EntityType::Enum), "Enum");
    assert_eq!(entity_type_str(&EntityType::Function), "Function");
    assert_eq!(entity_type_str(&EntityType::Impl), "Impl");
    assert_eq!(entity_type_str(&EntityType::Method), "Method");
    assert_eq!(entity_type_str(&EntityType::Namespace), "Namespace");
    assert_eq!(entity_type_str(&EntityType::Struct), "Struct");
    assert_eq!(entity_type_str(&EntityType::Trait), "Trait");
}

#[test]
fn entity_has_error_overlapping_range() {
    let entity = Entity::new("foo".into(), EntityType::Function, 5, 3, 10);
    assert!(entity_has_error(&entity, &[err(5, 5)]));
}

#[test]
fn entity_has_error_non_overlapping_range() {
    let entity = Entity::new("foo".into(), EntityType::Function, 5, 3, 10);
    assert!(!entity_has_error(&entity, &[err(15, 20)]));
}

#[test]
fn entity_has_error_empty_errors() {
    let entity = Entity::new("foo".into(), EntityType::Function, 5, 3, 10);
    assert!(!entity_has_error(&entity, &[]));
}

#[test]
fn entity_has_error_touching_edges() {
    let entity = Entity::new("foo".into(), EntityType::Function, 5, 3, 10);
    assert!(entity_has_error(&entity, &[err(10, 12)]));
    assert!(entity_has_error(&entity, &[err(1, 3)]));
    assert!(!entity_has_error(&entity, &[err(11, 12)]));
}

#[test]
fn format_errors_zero() {
    let r = FileResult {
        path: "x.rs".to_string(),
        language: "Rust",
        loc: 1,
        entities: vec![],
        imports: vec![],
        dependencies: vec![],
        errors: vec![],
    };
    assert_eq!(format_errors(&r), "");
}

#[test]
fn format_errors_singular_and_plural() {
    let make = |count: usize| FileResult {
        path: "x.rs".to_string(),
        language: "Rust",
        loc: 1,
        entities: vec![],
        imports: vec![],
        dependencies: vec![],
        errors: (0..count).map(|_| err(1, 1)).collect(),
    };
    assert_eq!(format_errors(&make(1)), "1 error");
    assert_eq!(format_errors(&make(2)), "2 errors");
}

#[test]
fn format_deps_counts_each_kind() {
    let dep = |k: DependencyKind| Dependency { name: "d".into(), kind: k };
    let mut r = make_file_result("a.rs", vec![]);
    assert_eq!(format_deps(&r), "");
    r.dependencies = vec![dep(DependencyKind::Internal)];
    assert_eq!(format_deps(&r), "1 int deps");
    r.dependencies = vec![dep(DependencyKind::External), dep(DependencyKind::External)];
    assert_eq!(format_deps(&r), "2 ext deps");
    r.dependencies.push(dep(DependencyKind::Internal));
    assert_eq!(format_deps(&r), "2 ext  1 int deps");
}

#[test]
fn plural_and_count() {
    assert_eq!(plural(1, "file", "files"), "1 file");
    assert_eq!(plural(0, "file", "files"), "0 files");
    assert_eq!(plural(12, "entity", "entities"), "12 entities");
    let tree = vec![make_entity("A", EntityType::Impl, vec![make_entity("b", EntityType::Method, vec![])]), make_entity("c", EntityType::Function, vec![])];
    assert_eq!(count_entities(&tree), 3);
    assert_eq!(entity_icon(&EntityType::Function), entity_icon(&EntityType::Method));
}

#[test]
fn tree_width_counts_depth_and_name() {
    let tree = vec![make_entity("ab", EntityType::Impl, vec![make_entity("abcdef", EntityType::Method, vec![])])];
    // Root: 0 * 3 + 5 + 2; child: 1 * 3 + 5 + 6.
    assert_eq!(entity_tree_width(&tree, 0), 14);
    assert_eq!(entity_tree_width(&vec![], 4), 0);
}

#[test]
fn print_tree_layout() {
    let mut e = Entity::new("main".into(), EntityType::Function, 3, 2, 4);
    e.children = vec![];
    let mut r = make_file_result("src/main.rs", vec![e]);
    r.loc = 12;
    let lines = print_tree(&vec![r]);
    assert_eq!(lines.len(), 4);
    assert!(lines[0].starts_with("󱘗 src/main.rs  [Rust]"));
    assert!(lines[0].ends_with("  12 LOC  1 entity"));
    assert!(lines[1].starts_with("└─ 󰊕 main"));
    assert!(lines[1].ends_with("   3 LOC  [2-4]  ✓"));
    assert_eq!(lines[2], "");
    assert_eq!(lines[3], "1 file  1 entity");
    // Both rows pad to the same column.
    let col0 = lines[0].find("  12 LOC").unwrap();
    let col1 = lines[1].find("   3 LOC").unwrap();
    assert_eq!(lines[0][..col0].chars().count(), lines[1][..col1].chars().count());
}

#[test]
fn print_tree_marks_errors_and_separates_files() {
    let mut a = make_file_result("a.rs", vec![make_entity("f", EntityType::Function, vec![]), make_entity("g", EntityType::Function, vec![])]);
    a.errors = vec![err(1, 1)];
    let b = make_file_result("b.rs", vec![]);
    let lines = print_tree(&vec![a, b]);
    assert!(lines[0].ends_with("2 entities  1 error"));
    assert!(lines[1].starts_with("├─"));
    assert!(lines[1].ends_with("⚠"));
    assert!(lines[2].starts_with("└─"));
    assert_eq!(lines[3], "");
    assert!(lines[4].contains("b.rs"));
    assert_eq!(lines[lines.len() - 1], "2 files  2 entities");
}

#[test]
fn results_to_json_totals_and_paths() {
    let child = make_entity("new", EntityType::Method, vec![]);
    let root = make_entity("Foo", EntityType::Impl, vec![child]);
    let mut r = make_file_result("src/foo.rs", vec![root]);
    r.imports = vec!["use std::fmt;".into()];
    r.dependencies = vec![Dependency { name: "std".into(), kind: DependencyKind::External }];
    let j = results_to_json(&vec![r], "src", "9.9.9");
    assert_eq!(s(&j, "version"), "9.9.9");
    assert_eq!(s(&j, "scan_path"), "src");
    assert_eq!(n(&j, "total_files"), 1);
    assert_eq!(n(&j, "total_loc"), 10);
    assert_eq!(n(&j, "total_entities"), 2);
    assert_eq!(n(&j, "total_errors"), 0);
    let files = j.get("files").unwrap().as_array().unwrap();
    let f = &files[0];
    assert_eq!(n(f, "entity_count"), 2);
    let deps = f.get("dependencies").unwrap().as_array().unwrap();
    assert_eq!(s(&deps[0], "kind"), "external");
    let ents = f.get("entities").unwrap().as_array().unwrap();
    assert_eq!(s(&ents[0], "entity_path"), "src/foo.rs > impl Foo");
    let kids = ents[0].get("children").unwrap().as_array().unwrap();
    assert_eq!(s(&kids[0], "entity_path"), "src/foo.rs > impl Foo > new");
    assert_eq!(s(&kids[0], "entity_type"), "Method");
}

// ── Queries ──────────────────────────────────────────────────────────────────

#[test]
fn find_entity_returns_match() {
    let child = make_entity("new", EntityType::Method, vec![]);
    let root = make_entity("Foo", EntityType::Impl, vec![child]);
    let results = vec![make_file_result("src/foo.rs", vec![root])];
    let found = find_entity(&results, "src/foo.rs > impl Foo > new").unwrap();
    assert_eq!(s(&found, "name"), "new");
    assert_eq!(s(&found, "entity_type"), "Method");
    assert_eq!(s(&found, "entity_path"), "src/foo.rs > impl Foo > new");
}

#[test]
fn find_entity_returns_none_for_unknown_path() {
    let results = vec![make_file_result("src/foo.rs", vec![make_entity("foo", EntityType::Function, vec![])])];
    assert!(find_entity(&results, "src/bar.rs > foo").is_none());
}

#[test]
fn find_entity_returns_none_for_unknown_entity() {
    let results = vec![make_file_result("src/foo.rs", vec![make_entity("foo", EntityType::Function, vec![])])];
    assert!(find_entity(&results, "src/foo.rs > bar").is_none());
}

#[test]
fn find_entity_needs_a_separator() {
    let results = vec![make_file_result("src/foo.rs", vec![make_entity("foo", EntityType::Function, vec![])])];
    assert!(find_entity(&results, "src/foo.rs").is_none());
    assert!(find_entity(&results, "src/foo.rs > foo").is_some());
}

#[test]
fn summarize_counts_by_language() {
    let r1 = make_file_result("a.rs", vec![make_entity("f", EntityType::Function, vec![])]);
    let r2 = FileResult {
        path: "b.rs".to_string(),
        language: "Rust",
        loc: 5,
        entities: vec![],
        imports: vec![],
        dependencies: vec![],
        errors: vec![],
    };
    let summary = summarize(&vec![r1, r2], ".");
    let by_lang = summary.get("by_language").unwrap().as_array().unwrap();
    assert_eq!(by_lang.len(), 1);
    assert_eq!(s(&by_lang[0], "language"), "Rust");
    assert_eq!(n(&by_lang[0], "files"), 2);
    assert_eq!(n(&by_lang[0], "entities"), 1);
    assert_eq!(n(&by_lang[0], "loc"), 15);
}

#[test]
fn summarize_counts_by_entity_type() {
    let entities = vec![
        make_entity("f", EntityType::Function, vec![]),
        make_entity("g", EntityType::Function, vec![]),
        make_entity("S", EntityType::Struct, vec![]),
    ];
    let results = vec![make_file_result("a.rs", entities)];
    let summary = summarize(&results, ".");
    let by_type = summary.get("by_entity_type").unwrap().as_array().unwrap();
    assert_eq!(s(&by_type[0], "entity_type"), "Function");
    assert_eq!(n(&by_type[0], "count"), 2);
    assert_eq!(s(&by_type[1], "entity_type"), "Struct");
    assert_eq!(n(&by_type[1], "count"), 1);
}

#[test]
fn summarize_sorts_languages_by_name() {
    let mut a = make_file_result("a.rs", vec![]);
    a.language = "Rust";
    let mut b = make_file_result("b.c", vec![]);
    b.language = "C";
    let mut c = make_file_result("c.qml", vec![]);
    c.language = "QML";
    let summary = summarize(&vec![a, b, c], ".");
    let by_lang = summary.get("by_language").unwrap().as_array().unwrap();
    let names: Vec<String> = by_lang.iter().map(|x| s(x, "language")).collect();
    assert_eq!(names, vec!["C".to_string(), "QML".to_string(), "Rust".to_string()]);
    assert_eq!(n(&summary, "total_files"), 3);
}

#[test]
fn locate_returns_matching_entities_across_files() {
    let r1 = make_file_result("src/a.rs", vec![make_entity("run", EntityType::Function, vec![])]);
    let r2 = make_file_result("src/b.rs", vec![make_entity("run", EntityType::Function, vec![])]);
    let matches = locate(&vec![r1, r2], "run");
    assert_eq!(matches.len(), 2);
    assert!(s(&matches[0], "entity_path").starts_with("src/a.rs"));
    assert!(s(&matches[1], "entity_path").starts_with("src/b.rs"));
}

#[test]
fn locate_is_case_insensitive() {
    let results = vec![make_file_result("src/a.rs", vec![make_entity("Run", EntityType::Function, vec![])])];
    let matches = locate(&results, "run");
    assert_eq!(matches.len(), 1);
    assert_eq!(s(&matches[0], "name"), "Run");
}

#[test]
fn locate_returns_empty_when_no_match() {
    let results = vec![make_file_result("src/a.rs", vec![make_entity("foo", EntityType::Function, vec![])])];
    assert!(locate(&results, "nonexistent").is_empty());
}

#[test]
fn locate_finds_nested_entity() {
    let child = make_entity("new", EntityType::Method, vec![]);
    let root = make_entity("Foo", EntityType::Impl, vec![child]);
    let results = vec![make_file_result("src/foo.rs", vec![root])];
    let matches = locate(&results, "new");
    assert_eq!(matches.len(), 1);
    assert_eq!(s(&matches[0], "entity_path"), "src/foo.rs > impl Foo > new");
    assert_eq!(s(&matches[0], "entity_type"), "Method");
}

// ── Cache ────────────────────────────────────────────────────────────────────

fn cache_file_result() -> FileResult {
    FileResult {
        path: "src/lib.rs".to_string(),
        language: "Rust",
        loc: 5,
        entities: vec![],
        imports: vec![],
        dependencies: vec![],
        errors: vec![],
    }
}

#[test]
fn cache_miss_returns_none() {
    let cache = Cache::empty();
    assert!(cache.get("src/lib.rs", "abc123").is_none());
}

#[test]
fn cache_hash_mismatch_returns_none() {
    let mut cache = Cache::empty();
    cache.insert("src/lib.rs".to_owned(), &cache_file_result(), "correct_hash".to_owned());
    assert!(cache.get("src/lib.rs", "wrong_hash").is_none());
}

#[test]
fn cache_hit_returns_file_result() {
    let mut cache = Cache::empty();
    cache.insert("src/lib.rs".to_owned(), &cache_file_result(), "hash1".to_owned());
    let got = cache.get("src/lib.rs", "hash1").unwrap();
    assert_eq!(got.language, "Rust");
    assert_eq!(got.loc, 5);
    assert_eq!(got.path, "src/lib.rs");
}

#[test]
fn cache_insert_empty_result() {
    let mut cache = Cache::empty();
    let r = FileResult {
        path: "empty.rs".to_string(),
        language: "Rust",
        loc: 0,
        entities: vec![],
        imports: vec![],
        dependencies: vec![],
        errors: vec![],
    };
    cache.insert("empty.rs".to_owned(), &r, "emptyhash".to_owned());
    let got = cache.get("empty.rs", "emptyhash").unwrap();
    assert_eq!(got.entities.len(), 0);
    assert_eq!(got.imports.len(), 0);
    assert_eq!(got.dependencies.len(), 0);
    assert_eq!(got.errors.len(), 0);
    assert_eq!(got.loc, 0);
}

#[test]
fn cache_later_insert_wins_and_unknown_language_misses() {
    let mut cache = Cache::empty();
    cache.insert("k".to_owned(), &cache_file_result(), "h1".to_owned());
    let mut second = cache_file_result();
    second.loc = 9;
    cache.insert("k".to_owned(), &second, "h2".to_owned());
    assert!(cache.get("k", "h1").is_none());
    assert_eq!(cache.get("k", "h2").unwrap().loc, 9);
    let mut py = cache_file_result();
    py.language = "Python";
    cache.insert("p".to_owned(), &py, "h".to_owned());
    assert!(cache.get("p", "h").is_none());
}

#[test]
fn sha256_is_lowercase_hex_of_digest() {
    assert_eq!(sha256(""), "e3b0c44298fc1c149afbf4c8996fb92427ae41e4649b934ca495991b7852b855");
    assert_eq!(sha256("abc"), "ba7816bf8f01cfea414140de5dae2223b00361a396177a9cb410ff61f20015ad");
    assert_eq!(sha256_prefix("abc"), "ba7816bf");
}

#[test]
fn cache_size_and_path_rules() {
    assert!(cache_size_ok(100 * 1024 * 1024));
    assert!(!cache_size_ok(100 * 1024 * 1024 + 1));
    assert_eq!(resolve_cache_path("c.json", None, None), Some("c.json".to_string()));
    assert_eq!(
        resolve_cache_path("c.json", Some("/p/x/c.json".into()), Some("/p".into())),
        Some("/p/x/c.json".to_string())
    );
    assert_eq!(resolve_cache_path("c.json", Some("/q/c.json".into()), Some("/p".into())), None);
    assert_eq!(resolve_cache_path("c.json", Some("/q/c.json".into()), None), Some("/q/c.json".to_string()));
}

// ── The pipeline ─────────────────────────────────────────────────────────────

#[test]
fn language_filter_rules() {
    assert!(lang_matches("Rust", &vec![]));
    assert!(lang_matches("C++", &vec!["CPP".to_string()]));
    assert!(lang_matches("C++", &vec!["c".to_string(), "c++".to_string()]));
    assert!(!lang_matches("C", &vec!["rust".to_string()]));
    assert!(!lang_matches("Python", &vec!["rust".to_string()]));
    assert_eq!(validate_lang_filter(&vec!["Rust".to_string(), "qml".to_string()]), Ok(()));
    assert_eq!(
        validate_lang_filter(&vec!["rust".to_string(), "Cobol".to_string()]),
        Err("unrecognized language: 'Cobol'".to_string())
    );
}

#[test]
fn build_scan_results_uses_cache_and_resolves() {
    let sources = vec![
        ("src/util.rs".to_string(), "pub fn helper() {}\n".to_string()),
        ("src/main.rs".to_string(), "use util::helper;\nfn main() {}\nfn zed() {}\n".to_string()),
        ("README.md".to_string(), "# x".to_string()),
        ("lib/a.c".to_string(), "int a(void) { return 0; }".to_string()),
    ];
    let mut cache = Cache::empty();
    let (results, dirty) = build_scan_results(&sources, &vec!["rust".to_string()], "", None, "all", &mut cache).unwrap();
    assert!(dirty);
    assert_eq!(results.len(), 2);
    // Results come in path order.
    assert_eq!(results[0].path, "src/main.rs");
    assert_eq!(results[1].path, "src/util.rs");
    assert_eq!(results[0].dependencies.len(), 1);
    assert_eq!(results[0].dependencies[0].name, "util");
    assert_eq!(results[0].dependencies[0].kind, DependencyKind::Internal);
    // A second run on the same texts is answered from the cache.
    let (again, dirty2) = build_scan_results(&sources, &vec!["rust".to_string()], "MAIN", Some(1), "all", &mut cache).unwrap();
    assert!(!dirty2);
    assert_eq!(again[1].entities.len(), 0);
    assert_eq!(again[0].entities.len(), 1);
    assert_eq!(again[0].entities[0].name, "main");
    let bad = build_scan_results(&sources, &vec!["fortran".to_string()], "", None, "all", &mut cache);
    assert_eq!(bad.err(), Some("unrecognized language: 'fortran'".to_string()));
}

#[test]
fn filters_keep_name_order() {
    let a = make_entity("alpha_add", EntityType::Function, vec![]);
    let b = make_entity("beta", EntityType::Function, vec![]);
    let inner = vec![make_entity("add_one", EntityType::Method, vec![]), make_entity("zed_add", EntityType::Method, vec![])];
    let c = make_entity("Gamma", EntityType::Impl, inner);
    let tests = make_entity("tests", EntityType::Namespace, vec![]);
    let es = vec![c, a, b, tests];
    let kept = filter_entities(es, "add", None, 0);
    let names: Vec<&str> = kept.iter().map(|e| e.name.as_str()).collect();
    assert_eq!(names, vec!["Gamma", "alpha_add"]);
    let inner_names: Vec<&str> = kept[0].children.iter().map(|e| e.name.as_str()).collect();
    assert_eq!(inner_names, vec!["add_one", "zed_add"]);
}

// ── The pipeline, from texts already read ────────────────────────────────────

fn scan_tree(files: &[(&str, &str)]) -> String {
    let sources: Vec<(String, String)> = files.iter().map(|(p, t)| (p.to_string(), t.to_string())).collect();
    let mut cache = Cache::empty();
    let (results, _) = build_scan_results(&sources, &vec![], "", None, "all", &mut cache).unwrap();
    print_tree(&results).join("\n")
}

#[test]
fn scan_c_file() {
    let out = scan_tree(&[("/tmp/code_seek_inttest_c/test.c", "int add(int a, int b) { return a + b; }")]);
    assert!(out.contains("[C]"));
}

#[test]
fn scan_cpp_file() {
    let out = scan_tree(&[("/tmp/code_seek_inttest_cpp/test.cpp", "class Foo { void bar() {} };")]);
    assert!(out.contains("[C++]"));
}

#[test]
fn scan_single_c_file() {
    let out = scan_tree(&[("/tmp/code_seek_inttest_single.c", "int add(int a, int b) { return a + b; }")]);
    assert!(out.contains("[C]"));
    assert!(out.contains("1 entity"));
}

#[test]
fn scan_rust_file() {
    let out = scan_tree(&[(
        "/tmp/code_seek_inttest_rust/test.rs",
        "fn hello() -> u32 { 42 }\nstruct Foo { x: i32 }\nimpl Foo { fn get(&self) -> i32 { self.x } }",
    )]);
    assert!(out.contains("[Rust]"));
    assert!(out.contains("4 entities"));
}

#[test]
fn scan_qml_file() {
    let out = scan_tree(&[(
        "/tmp/code_seek_inttest_qml/test.qml",
        "import QtQuick 2.0\nRectangle {\n    id: root\n    function reset() { }\n    function update(x) { }\n}",
    )]);
    assert!(out.contains("[QML]"));
    assert!(out.contains("3 entities"));
}

#[test]
fn scan_results_come_sorted_by_path() {
    let sources = vec![
        ("/p/src/b.rs".to_string(), "fn b() {}".to_string()),
        ("/p/a.rs".to_string(), "fn a() {}".to_string()),
        ("/p/src/a.rs".to_string(), "fn c() {}".to_string()),
    ];
    let mut cache = Cache::empty();
    let (results, dirty) = build_scan_results(&sources, &vec![], "", None, "all", &mut cache).unwrap();
    let paths: Vec<&str> = results.iter().map(|r| r.path.as_str()).collect();
    assert_eq!(paths, vec!["/p/a.rs", "/p/src/a.rs", "/p/src/b.rs"]);
    assert!(dirty);
    let (_, dirty_again) = build_scan_results(&sources, &vec![], "", None, "all", &mut cache).unwrap();
    assert!(!dirty_again);
}

fn names_at(es: &[Entity]) -> Vec<String> {
    es.iter().map(|e| format!("{}[{}]", e.name, names_at(&e.children).join(","))).collect()
}

fn sample_forest() -> Vec<Entity> {
    let inner = vec![
        make_entity("add_one", EntityType::Method, vec![make_entity("deep_add", EntityType::Function, vec![])]),
        make_entity("other", EntityType::Method, vec![]),
    ];
    vec![
        make_entity("Gamma", EntityType::Impl, inner),
        make_entity("alpha_add", EntityType::Function, vec![]),
        make_entity("beta", EntityType::Function, vec![]),
    ]
}

#[test]
fn filtering_twice_is_filtering_once() {
    let once = filter_entities(sample_forest(), "add", Some(2), 0);
    let twice = filter_entities(filter_entities(sample_forest(), "add", Some(2), 0), "add", Some(2), 0);
    assert_eq!(names_at(&once), names_at(&twice));
    assert_eq!(names_at(&once), vec!["Gamma[add_one[]]", "alpha_add[]"]);
}

#[test]
fn depth_ceiling_then_match_is_both_at_once() {
    let both = filter_entities(sample_forest(), "add", Some(2), 0);
    let staged = filter_entities(filter_entities(sample_forest(), "", Some(2), 0), "add", None, 0);
    assert_eq!(names_at(&both), names_at(&staged));
}

#[test]
fn entity_counts_add_up() {
    let a = sample_forest();
    let b = vec![make_entity("Foo", EntityType::Impl, vec![make_entity("new", EntityType::Method, vec![])])];
    assert_eq!(count_entities(&b), 2);
    assert_eq!(count_entities(&a), 6);
    let mut both = sample_forest();
    both.extend(b);
    assert_eq!(count_entities(&both), 8);
    assert_eq!(count_entities(&vec![]), 0);
}
