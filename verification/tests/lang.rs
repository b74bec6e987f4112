use code_seek::lang::cpp::CppParser;
use code_seek::lang::loc::LocMap;
use code_seek::lang::rust::{first_crate_segment, is_std_crate};
use code_seek::lang::{detect, parse_file, parse_text, resolve_imports};
use code_seek::model::{Dependency, DependencyKind, Entity, EntityType, SyntaxError};

fn entities(lang: &str, src: &str) -> Vec<Entity> {
    parse_text(lang, src).entities
}

fn imports(lang: &str, src: &str) -> Vec<String> {
    parse_text(lang, src).imports
}

fn errors(lang: &str, src: &str) -> Vec<SyntaxError> {
    parse_text(lang, src).errors
}

fn strings(v: &[&str]) -> Vec<String> {
    v.iter().map(|s| s.to_string()).collect()
}

fn resolve(lang: &str, raw: &[String]) -> Vec<Dependency> {
    resolve_imports(lang, &raw.to_vec(), &Vec::new())
}

// ── Detection ────────────────────────────────────────────────────────────────

#[test]
fn detect_c_extensions() {
    assert_eq!(detect("foo.c"), Some("C"));
    assert_eq!(detect("foo.h"), Some("C"));
}

#[test]
fn undocumented_extension_is_not_detected() {
    assert_eq!(detect("foo.h++"), None);
}

#[test]
fn detect_cpp_extensions() {
    assert_eq!(detect("foo.cpp"), Some("C++"));
    assert_eq!(detect("foo.cc"), Some("C++"));
    assert_eq!(detect("foo.hpp"), Some("C++"));
}

#[test]
fn detect_rust() {
    assert_eq!(detect("foo.rs"), Some("Rust"));
}

#[test]
fn detect_qml() {
    assert_eq!(detect("foo.qml"), Some("QML"));
}

#[test]
fn detect_unknown() {
    assert_eq!(detect("foo.py"), None);
    assert_eq!(detect("foo"), None);
    assert_eq!(detect("Makefile"), None);
}

#[test]
fn detect_uses_last_extension_of_final_component() {
    assert_eq!(detect("dir.rs/file.c"), Some("C"));
    assert_eq!(detect("archive.tar.qml"), Some("QML"));
    assert_eq!(detect(".rs"), None);
}

// ── Lines of code ────────────────────────────────────────────────────────────

#[test]
fn mod_loc_map_counts_code_lines() {
    let src = "int x = 1;\n\n// comment\n/* block */\n* continuation\nint y = 2;\n";
    let map = LocMap::build(src);
    assert_eq!(map.total(), 2);
}

#[test]
fn mod_loc_map_skips_multiline_block_comment() {
    let src = "int x = 1;\n/*\n   inside comment\n   no star prefix\n*/\nint y = 2;\n";
    let map = LocMap::build(src);
    assert_eq!(map.total(), 2);
}

#[test]
fn mod_loc_map_range_is_inclusive() {
    let src = "line1\nline2\nline3\nline4\n";
    let map = LocMap::build(src);
    assert_eq!(map.count(2, 3), 2);
}

#[test]
fn mod_loc_map_single_line() {
    let src = "int x = 1;\n\nint y = 2;\n";
    let map = LocMap::build(src);
    assert_eq!(map.count(1, 1), 1);
    assert_eq!(map.count(2, 2), 0);
    assert_eq!(map.count(3, 3), 1);
}

#[test]
fn mod_loc_map_total_matches_full_range() {
    let src = "a\nb\n\nc\n";
    let map = LocMap::build(src);
    assert_eq!(map.count(1, 4), map.total());
}

#[test]
fn loc_loc_map_counts_code_lines() {
    let src = "int x = 1;\n\n// comment\n/* block */\n* continuation\nint y = 2;\n";
    assert_eq!(LocMap::build(src).total(), 2);
}

#[test]
fn loc_loc_map_skips_multiline_block_comment() {
    let src = "int x = 1;\n/*\n   inside comment\n   no star prefix\n*/\nint y = 2;\n";
    assert_eq!(LocMap::build(src).total(), 2);
}

#[test]
fn loc_loc_map_range_is_inclusive() {
    let map = LocMap::build("line1\nline2\nline3\nline4\n");
    assert_eq!(map.count(2, 3), 2);
}

#[test]
fn loc_loc_map_single_line() {
    let map = LocMap::build("int x = 1;\n\nint y = 2;\n");
    assert_eq!(map.count(1, 1), 1);
    assert_eq!(map.count(2, 2), 0);
    assert_eq!(map.count(3, 3), 1);
}

#[test]
fn loc_loc_map_total_matches_full_range() {
    let map = LocMap::build("a\nb\n\nc\n");
    assert_eq!(map.count(1, 4), map.total());
}

#[test]
fn loc_code_after_block_comment_close_on_same_line_not_counted() {
    // A line inside an open block comment never counts, even with code after `*/`.
    let map = LocMap::build("/* open\nstill */ int x;\nint y;\n");
    assert_eq!(map.total(), 1);
}

#[test]
fn loc_trailing_block_comment_opens_block() {
    let map = LocMap::build("int x; /* open\nint hidden;\n*/\nint y;\n");
    assert_eq!(map.total(), 2);
}

#[test]
fn loc_count_past_end_is_clamped_and_empty_range_is_zero() {
    let map = LocMap::build("a\nb\n");
    assert_eq!(map.count(1, 100), 2);
    assert_eq!(map.count(2, 1), 0);
    assert_eq!(map.count(0, 0), 0);
}

#[test]
fn loc_crlf_lines_are_trimmed() {
    let map = LocMap::build("a\r\n\r\n// c\r\nb");
    assert_eq!(map.total(), 2);
}

// ── C ────────────────────────────────────────────────────────────────────────

#[test]
fn c_parses_function() {
    let e = entities("C", "int add(int a, int b) { return a + b; }");
    assert_eq!(e.len(), 1);
    assert_eq!(e[0].name, "add");
    assert_eq!(e[0].entity_type, EntityType::Function);
    assert_eq!(e[0].start_line, 1);
    assert_eq!(e[0].end_line, 1);
}

#[test]
fn parses_named_struct() {
    let e = entities("C", "struct Point { int x; int y; };");
    assert_eq!(e.len(), 1);
    assert_eq!(e[0].name, "Point");
    assert_eq!(e[0].entity_type, EntityType::Struct);
}

#[test]
fn parses_named_enum() {
    let e = entities("C", "enum Color { RED, GREEN, BLUE };");
    assert_eq!(e.len(), 1);
    assert_eq!(e[0].name, "Color");
    assert_eq!(e[0].entity_type, EntityType::Enum);
}

#[test]
fn parses_typedef_named_struct() {
    let e = entities("C", "typedef struct Foo { int x; } FooAlias;");
    assert_eq!(e.len(), 1);
    assert_eq!(e[0].name, "Foo");
    assert_eq!(e[0].entity_type, EntityType::Struct);
}

#[test]
fn skips_anonymous_struct() {
    assert_eq!(entities("C", "struct { int x; };").len(), 0);
}

#[test]
fn c_empty_source() {
    assert_eq!(entities("C", "").len(), 0);
}

#[test]
fn multiple_entities_sorted() {
    let e = entities("C", "void zoo() {} void alpha() {} void mid() {}");
    assert_eq!(e.len(), 3);
    assert_eq!(e[0].name, "alpha");
    assert_eq!(e[1].name, "mid");
    assert_eq!(e[2].name, "zoo");
}

#[test]
fn extracts_includes() {
    let result = imports("C", "#include <stdio.h>\n#include \"util.h\"\nint main() {}");
    assert_eq!(result.len(), 2);
    assert!(result[0].contains("stdio.h"));
    assert!(result[1].contains("util.h"));
}

#[test]
fn resolves_includes() {
    let imports = strings(&["#include <stdio.h>", "#include \"util.h\""]);
    let project = strings(&["util.h"]);
    let deps = code_seek::lang::c::resolve_imports(&imports, &project);
    assert_eq!(deps.len(), 2);
    assert_eq!(deps[0].name, "stdio.h");
    assert_eq!(deps[0].kind, DependencyKind::External);
    assert_eq!(deps[1].name, "util.h");
    assert_eq!(deps[1].kind, DependencyKind::Internal);
}

#[test]
fn c_pointer_returning_function_is_named() {
    // A pointer declarator is looked through; a parenthesized one is not.
    let e = entities("C", "char *name(void) { return 0; }\nint (*pick(int k))(int) { return 0; }");
    assert_eq!(e.len(), 1);
    assert_eq!(e[0].name, "name");
}

#[test]
fn c_entity_lines_and_loc() {
    let src = "int f(void)\n{\n\n    // note\n    return 1;\n}\n";
    let e = entities("C", src);
    assert_eq!(e.len(), 1);
    assert_eq!((e[0].start_line, e[0].end_line), (1, 6));
    assert_eq!(e[0].loc, 4);
}

#[test]
fn include_resolution_edge_cases() {
    let imports = strings(&["  #include   \"lib/a.h\"  ", "#include MACRO", "#define X", "#include <<odd>>"]);
    let project = strings(&["src/lib/a.h"]);
    let deps = code_seek::lang::c_family::resolve_includes(&imports, &project);
    assert_eq!(deps.len(), 2);
    assert_eq!(deps[0].name, "lib/a.h");
    assert_eq!(deps[0].kind, DependencyKind::Internal);
    assert_eq!(deps[1].name, "odd");
    assert_eq!(deps[1].kind, DependencyKind::External);
}

// ── C++ ──────────────────────────────────────────────────────────────────────

#[test]
fn cpp_parses_class_with_methods() {
    let src = "class Vec {\npublic:\n    float dot() { return 0; }\n    float length() { return 1; }\n};";
    let e = CppParser.parse(src);
    assert_eq!(e.len(), 1);
    assert_eq!(e[0].name, "Vec");
    assert_eq!(e[0].entity_type, EntityType::Class);
    assert_eq!(e[0].children.len(), 2);
    assert_eq!(e[0].children[0].name, "dot");
    assert_eq!(e[0].children[1].name, "length");
    assert!(e[0].children.iter().all(|c| c.entity_type == EntityType::Method));
}

#[test]
fn parses_namespace_with_function() {
    let e = CppParser.parse("namespace math { float clamp(float v) { return v; } }");
    assert_eq!(e.len(), 1);
    assert_eq!(e[0].name, "math");
    assert_eq!(e[0].entity_type, EntityType::Namespace);
    assert_eq!(e[0].children.len(), 1);
    assert_eq!(e[0].children[0].name, "clamp");
    assert_eq!(e[0].children[0].entity_type, EntityType::Function);
}

#[test]
fn parses_struct_with_method() {
    let e = CppParser.parse("struct Pair { int first() { return a; } int a; };");
    assert_eq!(e.len(), 1);
    assert_eq!(e[0].name, "Pair");
    assert_eq!(e[0].entity_type, EntityType::Struct);
    assert_eq!(e[0].children.len(), 1);
    assert_eq!(e[0].children[0].entity_type, EntityType::Method);
}

#[test]
fn parses_top_level_function() {
    let e = CppParser.parse("int square(int x) { return x * x; }");
    assert_eq!(e.len(), 1);
    assert_eq!(e[0].name, "square");
    assert_eq!(e[0].entity_type, EntityType::Function);
}

#[test]
fn cpp_parses_enum() {
    let e = CppParser.parse("enum class Color { Red, Green, Blue };");
    assert_eq!(e.len(), 1);
    assert_eq!(e[0].name, "Color");
    assert_eq!(e[0].entity_type, EntityType::Enum);
}

#[test]
fn cpp_empty_source() {
    assert_eq!(CppParser.parse("").len(), 0);
}

#[test]
fn cpp_anonymous_namespace_and_qualified_method() {
    let e = CppParser.parse("namespace { int hidden() { return 0; } }\nint Foo::bar() { return 1; }");
    assert_eq!(e.len(), 2);
    assert_eq!(e[0].name, "<anonymous>");
    assert_eq!(e[0].children[0].name, "hidden");
    assert_eq!(e[1].name, "bar");
    assert_eq!(e[1].entity_type, EntityType::Function);
}

// ── Elixir ───────────────────────────────────────────────────────────────────

#[test]
fn elixir_empty_source() {
    assert!(entities("Elixir", "").is_empty());
}

#[test]
fn parses_defmodule() {
    let e = entities("Elixir", "defmodule Foo do\nend\n");
    assert_eq!(e.len(), 1);
    assert_eq!(e[0].name, "Foo");
    assert_eq!(e[0].entity_type, EntityType::Namespace);
    assert_eq!(e[0].kind, "defmodule");
}

#[test]
fn parses_nested_module_name() {
    let e = entities("Elixir", "defmodule Foo.Bar do\nend\n");
    assert_eq!(e[0].name, "Foo.Bar");
}

#[test]
fn parses_def_inside_module() {
    let e = entities("Elixir", "defmodule Foo do\n  def hello(name) do\n    name\n  end\nend\n");
    assert_eq!(e.len(), 1);
    assert_eq!(e[0].children.len(), 1);
    assert_eq!(e[0].children[0].name, "hello");
    assert_eq!(e[0].children[0].entity_type, EntityType::Function);
    assert_eq!(e[0].children[0].kind, "def");
}

#[test]
fn parses_defp_and_macro() {
    let src = "defmodule Foo do\n  defp secret, do: 1\n  defmacro plus(a) do\n    a\n  end\nend\n";
    let e = entities("Elixir", src);
    let secret = e[0].children.iter().find(|c| c.name == "secret").unwrap();
    assert_eq!(secret.kind, "defp");
    let plus = e[0].children.iter().find(|c| c.name == "plus").unwrap();
    assert_eq!(plus.kind, "defmacro");
}

#[test]
fn parses_guard_clause() {
    let src = "defmodule Foo do\n  def hello(name) when is_binary(name) do\n    name\n  end\nend\n";
    let e = entities("Elixir", src);
    assert_eq!(e[0].children[0].name, "hello");
}

#[test]
fn skips_other_calls() {
    let e = entities("Elixir", "defmodule Foo do\n  IO.puts(\"hi\")\nend\n");
    assert!(e[0].children.is_empty());
}

#[test]
fn parses_protocol() {
    let e = entities("Elixir", "defprotocol Size do\n  def size(data)\nend\n");
    assert_eq!(e.len(), 1);
    assert_eq!(e[0].name, "Size");
    assert_eq!(e[0].entity_type, EntityType::Trait);
    assert_eq!(e[0].kind, "defprotocol");
    assert_eq!(e[0].children.len(), 1);
    assert_eq!(e[0].children[0].name, "size");
    assert_eq!(e[0].children[0].entity_type, EntityType::Method);
    assert_eq!(e[0].children[0].kind, "def");
}

#[test]
fn parses_impl() {
    let e = entities("Elixir", "defimpl Size, for: BitString do\n  def size(data), do: byte_size(data)\nend\n");
    assert_eq!(e.len(), 1);
    assert_eq!(e[0].name, "Size for BitString");
    assert_eq!(e[0].entity_type, EntityType::Impl);
    assert_eq!(e[0].kind, "defimpl");
    assert_eq!(e[0].children[0].entity_type, EntityType::Method);
}

#[test]
fn parses_defstruct() {
    let e = entities("Elixir", "defmodule User do\n  defstruct [:name, :age]\nend\n");
    let st = e[0].children.iter().find(|c| c.entity_type == EntityType::Struct).unwrap();
    assert_eq!(st.name, "User");
    assert_eq!(st.kind, "defstruct");
}

#[test]
fn elixir_imports_resolve_to_nothing() {
    let deps = code_seek::lang::elixir::resolve_imports(&strings(&["alias Foo.Bar"]), &Vec::new());
    assert!(deps.is_empty());
}

#[test]
fn with_kind_sets_only_the_kind() {
    let e = Entity::new("f".to_string(), EntityType::Function, 3, 1, 4);
    let k = code_seek::lang::elixir::with_kind(e, "defp".to_string());
    assert_eq!(k.kind, "defp");
    assert_eq!(k.name, "f");
    assert_eq!((k.loc, k.start_line, k.end_line), (3, 1, 4));
}

// ── Go ───────────────────────────────────────────────────────────────────────

#[test]
fn collects_block_imports() {
    let raw = imports("Go", "import (\n\t\"fmt\"\n\t\"os\"\n)\nfunc main() {}");
    assert_eq!(raw.len(), 1);
    assert!(raw[0].contains("fmt"));
    assert!(raw[0].contains("os"));
}

#[test]
fn collects_imports() {
    let raw = imports("Go", "import \"fmt\"\nimport \"os\"\nfunc main() {}");
    assert_eq!(raw.len(), 2);
    assert!(raw.iter().any(|i| i.contains("fmt")));
    assert!(raw.iter().any(|i| i.contains("os")));
}

#[test]
fn go_detects_syntax_error() {
    assert!(!errors("Go", "func foo( { return }").is_empty());
}

#[test]
fn go_empty_source() {
    assert_eq!(entities("Go", "").len(), 0);
}

#[test]
fn go_parses_function() {
    let e = entities("Go", "func add(a, b int) int { return a + b }");
    assert_eq!(e.len(), 1);
    assert_eq!(e[0].name, "add");
    assert_eq!(e[0].entity_type, EntityType::Function);
}

#[test]
fn parses_interface() {
    let e = entities("Go", "type Animal interface {\n    Speak() string\n    Move(dx, dy int)\n}");
    assert_eq!(e.len(), 1);
    assert_eq!(e[0].name, "Animal");
    assert_eq!(e[0].entity_type, EntityType::Trait);
    assert_eq!(e[0].children.len(), 2);
    assert!(e[0].children.iter().all(|c| c.entity_type == EntityType::Method));
    assert!(e[0].children.iter().any(|c| c.name == "Speak"));
    assert!(e[0].children.iter().any(|c| c.name == "Move"));
}

#[test]
fn parses_method() {
    let e = entities("Go", "type Foo struct {}\nfunc (f *Foo) Bar() int { return 0 }");
    assert_eq!(e.len(), 2);
    let method = e.iter().find(|x| x.entity_type == EntityType::Method).unwrap();
    assert_eq!(method.name, "Bar");
}

#[test]
fn parses_multiple_top_level() {
    assert_eq!(entities("Go", "func alpha() {}\nfunc beta() {}").len(), 2);
}

#[test]
fn parses_only_package() {
    assert_eq!(entities("Go", "package main").len(), 0);
}

#[test]
fn go_parses_struct() {
    let e = entities("Go", "type Point struct { X int; Y int }");
    assert_eq!(e.len(), 1);
    assert_eq!(e[0].name, "Point");
    assert_eq!(e[0].entity_type, EntityType::Struct);
}

#[test]
fn go_resolve_imports_alias_stripped() {
    let deps = code_seek::lang::go::resolve_imports(&strings(&["import alias \"github.com/foo/bar\""]), &Vec::new());
    assert_eq!(deps.len(), 1);
    assert_eq!(deps[0].name, "github.com/foo/bar");
}

#[test]
fn resolve_imports_block() {
    let deps = code_seek::lang::go::resolve_imports(&strings(&["import (\n\t\"fmt\"\n\t\"os\"\n)"]), &Vec::new());
    assert_eq!(deps.len(), 2);
}

#[test]
fn go_resolve_imports_relative_is_internal() {
    let deps = code_seek::lang::go::resolve_imports(&strings(&["import \"./local/pkg\""]), &Vec::new());
    assert_eq!(deps.len(), 1);
    assert_eq!(deps[0].name, "./local/pkg");
    assert_eq!(deps[0].kind, DependencyKind::Internal);
}

#[test]
fn resolve_imports_stdlib_is_external() {
    let deps = code_seek::lang::go::resolve_imports(&strings(&["import \"fmt\""]), &Vec::new());
    assert_eq!(deps.len(), 1);
    assert_eq!(deps[0].name, "fmt");
    assert_eq!(deps[0].kind, DependencyKind::External);
}

#[test]
fn resolve_imports_third_party_is_external() {
    let deps = code_seek::lang::go::resolve_imports(&strings(&["import \"github.com/foo/bar\""]), &Vec::new());
    assert_eq!(deps.len(), 1);
    assert_eq!(deps[0].name, "github.com/foo/bar");
    assert_eq!(deps[0].kind, DependencyKind::External);
}

#[test]
fn go_skips_type_alias() {
    assert!(entities("Go", "type X = string").is_empty());
}

#[test]
fn go_sorts_alphabetically() {
    let e = entities("Go", "func zoo() {}\nfunc alpha() {}\nfunc mid() {}");
    assert_eq!(e[0].name, "alpha");
    assert_eq!(e[1].name, "mid");
    assert_eq!(e[2].name, "zoo");
}

#[test]
fn go_extract_paths_and_quoted() {
    let paths = code_seek::lang::go::extract_paths("import (\n  f \"fmt\"\n  '../up'\n)");
    assert_eq!(paths, vec!["fmt".to_string(), "../up".to_string()]);
    assert_eq!(code_seek::lang::go::extract_quoted("  x \"\" 'y' "), Some("y".to_string()));
    assert_eq!(code_seek::lang::go::extract_quoted("none"), None);
}

// ── JavaScript ───────────────────────────────────────────────────────────────

#[test]
fn parses_function_declaration() {
    let e = entities("JavaScript", "function greet(name) { return 'Hello ' + name; }");
    assert_eq!(e.len(), 1);
    assert_eq!(e[0].name, "greet");
    assert_eq!(e[0].entity_type, EntityType::Function);
}

#[test]
fn js_parses_class_with_methods() {
    let src = "class Animal {\n  constructor(name) { this.name = name; }\n  speak() { return this.name; }\n}";
    let e = entities("JavaScript", src);
    assert_eq!(e.len(), 1);
    assert_eq!(e[0].name, "Animal");
    assert_eq!(e[0].entity_type, EntityType::Class);
    assert_eq!(e[0].children.len(), 2);
    assert!(e[0].children.iter().all(|c| c.entity_type == EntityType::Method));
    assert!(e[0].children.iter().any(|c| c.name == "constructor"));
    assert!(e[0].children.iter().any(|c| c.name == "speak"));
}

#[test]
fn parses_arrow_function_const() {
    let e = entities("JavaScript", "const add = (a, b) => a + b;");
    assert_eq!(e.len(), 1);
    assert_eq!(e[0].name, "add");
    assert_eq!(e[0].entity_type, EntityType::Function);
}

#[test]
fn js_parses_export_function() {
    let e = entities("JavaScript", "export function compute(x) { return x * 2; }");
    assert_eq!(e.len(), 1);
    assert_eq!(e[0].name, "compute");
    assert_eq!(e[0].entity_type, EntityType::Function);
}

#[test]
fn parses_export_class() {
    let e = entities("JavaScript", "export class Shape {\n  area() { return 0; }\n}");
    assert_eq!(e.len(), 1);
    assert_eq!(e[0].name, "Shape");
    assert_eq!(e[0].entity_type, EntityType::Class);
    assert_eq!(e[0].children.len(), 1);
    assert_eq!(e[0].children[0].name, "area");
}

#[test]
fn js_collects_import_statements() {
    let raw = imports("JavaScript", "import React from 'react';\nimport { foo } from \"./utils\";");
    assert_eq!(raw.len(), 2);
    assert!(raw.iter().any(|i| i.contains("react")));
    assert!(raw.iter().any(|i| i.contains("./utils")));
}

#[test]
fn js_resolve_imports_classifies_relative_as_internal() {
    let deps = code_seek::lang::js::resolve_imports(&strings(&["import foo from './bar'"]), &Vec::new());
    assert_eq!(deps.len(), 1);
    assert_eq!(deps[0].name, "./bar");
    assert_eq!(deps[0].kind, DependencyKind::Internal);
}

#[test]
fn js_resolve_imports_classifies_package_as_external() {
    let deps = code_seek::lang::js::resolve_imports(&strings(&["import React from 'react'"]), &Vec::new());
    assert_eq!(deps.len(), 1);
    assert_eq!(deps[0].name, "react");
    assert_eq!(deps[0].kind, DependencyKind::External);
}

#[test]
fn js_detects_syntax_error() {
    assert!(!errors("JavaScript", "function foo( { return; }").is_empty());
}

#[test]
fn js_multiple_top_level_entities() {
    let e = entities("JavaScript", "function alpha() {}\nconst beta = () => {}\nclass Gamma {}\n");
    assert_eq!(e.len(), 3);
    assert!(e.iter().any(|x| x.name == "alpha" && x.entity_type == EntityType::Function));
    assert!(e.iter().any(|x| x.name == "beta" && x.entity_type == EntityType::Function));
    assert!(e.iter().any(|x| x.name == "Gamma" && x.entity_type == EntityType::Class));
}

#[test]
fn js_extract_specifier_prefers_double_quotes() {
    assert_eq!(code_seek::lang::js::extract_specifier("import a from 'x' // \"y\""), Some("y".to_string()));
    assert_eq!(code_seek::lang::js::extract_specifier("import a from ''"), None);
}

// ── Python ───────────────────────────────────────────────────────────────────

#[test]
fn parses_function_def() {
    let e = entities("Python", "def greet(name):\n    return name\n");
    assert_eq!(e.len(), 1);
    assert_eq!(e[0].name, "greet");
    assert_eq!(e[0].entity_type, EntityType::Function);
}

#[test]
fn parses_async_function() {
    let e = entities("Python", "async def fetch(url):\n    pass\n");
    assert_eq!(e.len(), 1);
    assert_eq!(e[0].name, "fetch");
    assert_eq!(e[0].entity_type, EntityType::Function);
}

#[test]
fn python_parses_class_with_methods() {
    let src = "class Animal:\n    def __init__(self, name):\n        self.name = name\n    def speak(self):\n        pass\n";
    let e = entities("Python", src);
    assert_eq!(e.len(), 1);
    assert_eq!(e[0].name, "Animal");
    assert_eq!(e[0].entity_type, EntityType::Class);
    assert_eq!(e[0].children.len(), 2);
    assert!(e[0].children.iter().all(|c| c.entity_type == EntityType::Method));
    assert!(e[0].children.iter().any(|c| c.name == "__init__"));
    assert!(e[0].children.iter().any(|c| c.name == "speak"));
}

#[test]
fn parses_decorated_function() {
    let e = entities("Python", "@staticmethod\ndef helper():\n    pass\n");
    assert_eq!(e.len(), 1);
    assert_eq!(e[0].name, "helper");
    assert_eq!(e[0].entity_type, EntityType::Function);
}

#[test]
fn parses_decorated_class() {
    let e = entities("Python", "@dataclass\nclass Point:\n    def origin(self):\n        pass\n");
    assert_eq!(e.len(), 1);
    assert_eq!(e[0].name, "Point");
    assert_eq!(e[0].entity_type, EntityType::Class);
    assert_eq!(e[0].children.len(), 1);
}

#[test]
fn collects_import_and_from_statements() {
    let raw = imports("Python", "import os\nfrom pathlib import Path\n");
    assert_eq!(raw.len(), 2);
    assert!(raw.iter().any(|i| i.contains("import os")));
    assert!(raw.iter().any(|i| i.contains("pathlib")));
}

#[test]
fn python_resolve_imports_relative_is_internal() {
    let deps = code_seek::lang::python::resolve_imports(&strings(&["from .utils import helper"]), &Vec::new());
    assert_eq!(deps.len(), 1);
    assert_eq!(deps[0].name, ".utils");
    assert_eq!(deps[0].kind, DependencyKind::Internal);
}

#[test]
fn resolve_imports_bare_relative_is_internal() {
    let deps = code_seek::lang::python::resolve_imports(&strings(&["from . import utils"]), &Vec::new());
    assert_eq!(deps.len(), 1);
    assert_eq!(deps[0].name, ".");
    assert_eq!(deps[0].kind, DependencyKind::Internal);
}

#[test]
fn resolve_imports_package_is_external() {
    let deps = code_seek::lang::python::resolve_imports(&strings(&["from pathlib import Path"]), &Vec::new());
    assert_eq!(deps.len(), 1);
    assert_eq!(deps[0].name, "pathlib");
    assert_eq!(deps[0].kind, DependencyKind::External);
}

#[test]
fn resolve_imports_multi_import() {
    let deps = code_seek::lang::python::resolve_imports(&strings(&["import os, sys, re"]), &Vec::new());
    assert_eq!(deps.len(), 3);
    assert!(deps.iter().any(|d| d.name == "os"));
    assert!(deps.iter().any(|d| d.name == "sys"));
    assert!(deps.iter().any(|d| d.name == "re"));
    assert!(deps.iter().all(|d| d.kind == DependencyKind::External));
}

#[test]
fn python_resolve_imports_alias_stripped() {
    let deps = code_seek::lang::python::resolve_imports(&strings(&["import numpy as np"]), &Vec::new());
    assert_eq!(deps.len(), 1);
    assert_eq!(deps[0].name, "numpy");
}

#[test]
fn python_detects_syntax_error() {
    assert!(!errors("Python", "def foo(\n").is_empty());
}

#[test]
fn python_parse_import_edge_cases() {
    assert!(code_seek::lang::python::parse_import("from  import x").is_empty());
    assert!(code_seek::lang::python::parse_import("print(1)").is_empty());
    let d = code_seek::lang::python::parse_import("import a as b, , c");
    assert_eq!(d.len(), 2);
    assert_eq!(d[0].name, "a");
    assert_eq!(d[1].name, "c");
}

// ── QML ──────────────────────────────────────────────────────────────────────

#[test]
fn parses_object_with_id() {
    let e = entities("QML", "import QtQuick 2.0\nRectangle { id: root }");
    assert_eq!(e.len(), 1);
    assert_eq!(e[0].name, "root");
    assert_eq!(e[0].entity_type, EntityType::Class);
}

#[test]
fn uses_type_name_when_no_id() {
    let e = entities("QML", "import QtQuick 2.0\nRectangle { width: 100 }");
    assert_eq!(e.len(), 1);
    assert_eq!(e[0].name, "Rectangle");
    assert_eq!(e[0].entity_type, EntityType::Class);
}

#[test]
fn parses_functions_as_methods() {
    let src = "import QtQuick 2.0\nItem {\n    id: root\n    function reset() { }\n    function update(x) { }\n}";
    let e = entities("QML", src);
    assert_eq!(e.len(), 1);
    assert_eq!(e[0].name, "root");
    assert_eq!(e[0].children.len(), 2);
    assert!(e[0].children.iter().all(|c| c.entity_type == EntityType::Method));
}

#[test]
fn sorts_methods_alphabetically() {
    let src = "import QtQuick 2.0\nItem { id: root\n    function zoo() {}\n    function alpha() {}\n}";
    let e = entities("QML", src);
    assert_eq!(e[0].children[0].name, "alpha");
    assert_eq!(e[0].children[1].name, "zoo");
}

#[test]
fn skips_nested_objects() {
    let src = "import QtQuick 2.0\nRectangle { id: root\n    Button { id: btn }\n    function click() {}\n}";
    let e = entities("QML", src);
    assert_eq!(e.len(), 1);
    assert_eq!(e[0].children.len(), 1);
    assert_eq!(e[0].children[0].name, "click");
}

#[test]
fn qml_empty_source() {
    assert_eq!(entities("QML", "").len(), 0);
}

// ── Rust ─────────────────────────────────────────────────────────────────────

#[test]
fn rust_parses_function() {
    let e = entities("Rust", "fn add(a: i32, b: i32) -> i32 { a + b }");
    assert_eq!(e.len(), 1);
    assert_eq!(e[0].name, "add");
    assert_eq!(e[0].entity_type, EntityType::Function);
}

#[test]
fn rust_parses_struct() {
    let e = entities("Rust", "struct Point { x: f32, y: f32 }");
    assert_eq!(e.len(), 1);
    assert_eq!(e[0].name, "Point");
    assert_eq!(e[0].entity_type, EntityType::Struct);
}

#[test]
fn rust_parses_enum() {
    let e = entities("Rust", "enum Color { Red, Green, Blue }");
    assert_eq!(e.len(), 1);
    assert_eq!(e[0].name, "Color");
    assert_eq!(e[0].entity_type, EntityType::Enum);
}

#[test]
fn parses_impl_with_methods() {
    let e = entities("Rust", "impl Foo {\n    fn bar(&self) {}\n    fn baz(&self) {}\n}");
    assert_eq!(e.len(), 1);
    assert_eq!(e[0].name, "Foo");
    assert_eq!(e[0].entity_type, EntityType::Impl);
    assert_eq!(e[0].children.len(), 2);
    assert_eq!(e[0].children[0].name, "bar");
    assert_eq!(e[0].children[1].name, "baz");
    assert!(e[0].children.iter().all(|c| c.entity_type == EntityType::Method));
}

#[test]
fn parses_generic_impl() {
    let e = entities("Rust", "impl<T> Container<T> {\n    fn len(&self) -> usize { 0 }\n}");
    assert_eq!(e.len(), 1);
    assert_eq!(e[0].name, "Container");
    assert_eq!(e[0].entity_type, EntityType::Impl);
}

#[test]
fn parses_trait_impl() {
    let e = entities("Rust", "impl Display for Foo {\n    fn fmt(&self, f: &mut Formatter) -> Result { Ok(()) }\n}");
    assert_eq!(e.len(), 1);
    assert_eq!(e[0].name, "Foo");
    assert_eq!(e[0].entity_type, EntityType::Impl);
}

#[test]
fn parses_trait_with_methods() {
    let e = entities("Rust", "trait Animal {\n    fn name(&self) -> &str;\n    fn speak(&self) {}\n}");
    assert_eq!(e.len(), 1);
    assert_eq!(e[0].name, "Animal");
    assert_eq!(e[0].entity_type, EntityType::Trait);
    assert_eq!(e[0].children.len(), 2);
    assert!(e[0].children.iter().all(|c| c.entity_type == EntityType::Method));
}

#[test]
fn parses_mod_with_items() {
    let e = entities("Rust", "mod utils {\n    fn helper() {}\n}");
    assert_eq!(e.len(), 1);
    assert_eq!(e[0].name, "utils");
    assert_eq!(e[0].entity_type, EntityType::Namespace);
    assert_eq!(e[0].children[0].name, "helper");
    assert_eq!(e[0].children[0].entity_type, EntityType::Function);
}

#[test]
fn skips_mod_without_body() {
    assert_eq!(entities("Rust", "mod foo;").len(), 0);
}

#[test]
fn rust_empty_source() {
    assert_eq!(entities("Rust", "").len(), 0);
}

#[test]
fn rust_sorts_alphabetically() {
    let e = entities("Rust", "fn zoo() {} fn alpha() {} fn mid() {}");
    assert_eq!(e[0].name, "alpha");
    assert_eq!(e[1].name, "mid");
    assert_eq!(e[2].name, "zoo");
}

#[test]
fn extracts_use_declarations() {
    let result = imports("Rust", "use std::collections::HashMap;\nuse serde::Serialize;\nfn main() {}");
    assert_eq!(result.len(), 2);
    assert!(result[0].contains("HashMap"));
    assert!(result[1].contains("serde"));
}

#[test]
fn extracts_extern_crate() {
    let result = imports("Rust", "extern crate serde;\nfn main() {}");
    assert_eq!(result.len(), 1);
    assert!(result[0].contains("serde"));
}

#[test]
fn resolves_use_declarations() {
    let imports = strings(&["use std::collections::HashMap;", "use crate::util::helper;", "use serde::Serialize;"]);
    let project = strings(&["src/util.rs", "src/main.rs"]);
    let deps = code_seek::lang::rust::resolve_imports(&imports, &project);
    assert_eq!(deps.len(), 3);
    assert_eq!(deps[0].name, "std");
    assert_eq!(deps[0].kind, DependencyKind::External);
    assert_eq!(deps[1].name, "crate::util::helper");
    assert_eq!(deps[1].kind, DependencyKind::Internal);
    assert_eq!(deps[2].name, "serde");
    assert_eq!(deps[2].kind, DependencyKind::External);
}

#[test]
fn resolves_extern_crate() {
    let deps = code_seek::lang::rust::resolve_imports(&strings(&["extern crate serde;"]), &Vec::new());
    assert_eq!(deps.len(), 1);
    assert_eq!(deps[0].name, "serde");
    assert_eq!(deps[0].kind, DependencyKind::External);
}

#[test]
fn rust_local_module_is_internal() {
    let project = strings(&["proj/src/util/mod.rs", "proj/src/net.rs"]);
    let deps = code_seek::lang::rust::resolve_imports(&strings(&["use util::x;", "use net;", "use core::fmt;"]), &project);
    assert_eq!(deps.len(), 3);
    assert_eq!((deps[0].name.as_str(), deps[0].kind), ("util", DependencyKind::Internal));
    assert_eq!((deps[1].name.as_str(), deps[1].kind), ("net", DependencyKind::Internal));
    assert_eq!((deps[2].name.as_str(), deps[2].kind), ("core", DependencyKind::External));
}

#[test]
fn first_crate_segment_and_std_crates() {
    assert_eq!(first_crate_segment("use std::io;"), Some("std".to_string()));
    assert_eq!(first_crate_segment("extern crate log;"), Some("log".to_string()));
    assert_eq!(first_crate_segment("use ;"), None);
    assert!(is_std_crate("proc_macro"));
    assert!(!is_std_crate("serde"));
}

// ── TypeScript ───────────────────────────────────────────────────────────────

#[test]
fn parses_function_with_type_annotations() {
    let e = entities("TypeScript", "function greet(name: string): string { return 'Hello ' + name; }");
    assert_eq!(e.len(), 1);
    assert_eq!(e[0].name, "greet");
    assert_eq!(e[0].entity_type, EntityType::Function);
}

#[test]
fn ts_parses_class_with_methods() {
    let src = "class Animal {\n  private name: string;\n  constructor(name: string) { this.name = name; }\n  speak(): string { return this.name; }\n}";
    let e = entities("TypeScript", src);
    assert_eq!(e.len(), 1);
    assert_eq!(e[0].name, "Animal");
    assert_eq!(e[0].entity_type, EntityType::Class);
    assert_eq!(e[0].children.len(), 2);
    assert!(e[0].children.iter().all(|c| c.entity_type == EntityType::Method));
    assert!(e[0].children.iter().any(|c| c.name == "constructor"));
    assert!(e[0].children.iter().any(|c| c.name == "speak"));
}

#[test]
fn parses_abstract_class() {
    let src = "abstract class Shape {\n  abstract area(): number;\n  describe(): string { return 'shape'; }\n}";
    let e = entities("TypeScript", src);
    assert_eq!(e.len(), 1);
    assert_eq!(e[0].name, "Shape");
    assert_eq!(e[0].entity_type, EntityType::Class);
    assert_eq!(e[0].children.len(), 2);
    assert!(e[0].children.iter().any(|c| c.name == "area"));
    assert!(e[0].children.iter().any(|c| c.name == "describe"));
}

#[test]
fn parses_interface_as_trait() {
    let src = "interface Serializer {\n  serialize(): string;\n  deserialize(data: string): void;\n}";
    let e = entities("TypeScript", src);
    assert_eq!(e.len(), 1);
    assert_eq!(e[0].name, "Serializer");
    assert_eq!(e[0].entity_type, EntityType::Trait);
    assert_eq!(e[0].children.len(), 2);
    assert!(e[0].children.iter().all(|c| c.entity_type == EntityType::Method));
}

#[test]
fn ts_parses_enum() {
    let e = entities("TypeScript", "enum Color {\n  Red,\n  Green,\n  Blue,\n}");
    assert_eq!(e.len(), 1);
    assert_eq!(e[0].name, "Color");
    assert_eq!(e[0].entity_type, EntityType::Enum);
}

#[test]
fn parses_namespace_with_children() {
    let src = "namespace Utils {\n  export function helper(): void {}\n  export class Tool {}\n}";
    let e = entities("TypeScript", src);
    assert_eq!(e.len(), 1);
    assert_eq!(e[0].name, "Utils");
    assert_eq!(e[0].entity_type, EntityType::Namespace);
    assert_eq!(e[0].children.len(), 2);
    assert!(e[0].children.iter().any(|c| c.name == "helper" && c.entity_type == EntityType::Function));
    assert!(e[0].children.iter().any(|c| c.name == "Tool" && c.entity_type == EntityType::Class));
}

#[test]
fn parses_typed_arrow_function_const() {
    let e = entities("TypeScript", "const add = (a: number, b: number): number => a + b;");
    assert_eq!(e.len(), 1);
    assert_eq!(e[0].name, "add");
    assert_eq!(e[0].entity_type, EntityType::Function);
}

#[test]
fn ts_parses_export_function() {
    let e = entities("TypeScript", "export function compute(x: number): number { return x * 2; }");
    assert_eq!(e.len(), 1);
    assert_eq!(e[0].name, "compute");
    assert_eq!(e[0].entity_type, EntityType::Function);
}

#[test]
fn parses_export_interface() {
    let e = entities("TypeScript", "export interface Config {\n  load(): void;\n}");
    assert_eq!(e.len(), 1);
    assert_eq!(e[0].name, "Config");
    assert_eq!(e[0].entity_type, EntityType::Trait);
}

#[test]
fn ts_skips_type_alias() {
    assert!(entities("TypeScript", "type Alias = string | number;").is_empty());
}

#[test]
fn ts_collects_import_statements() {
    let src = "import React from 'react';\nimport { foo } from \"./utils\";\nimport type { Bar } from './types';";
    let raw = imports("TypeScript", src);
    assert_eq!(raw.len(), 3);
    assert!(raw.iter().any(|i| i.contains("react")));
    assert!(raw.iter().any(|i| i.contains("./utils")));
    assert!(raw.iter().any(|i| i.contains("./types")));
}

#[test]
fn ts_resolve_imports_classifies_relative_as_internal() {
    let deps = resolve("TypeScript", &strings(&["import foo from './bar'"]));
    assert_eq!(deps.len(), 1);
    assert_eq!(deps[0].name, "./bar");
    assert_eq!(deps[0].kind, DependencyKind::Internal);
}

#[test]
fn ts_resolve_imports_classifies_package_as_external() {
    let deps = resolve("TypeScript", &strings(&["import React from 'react'"]));
    assert_eq!(deps.len(), 1);
    assert_eq!(deps[0].name, "react");
    assert_eq!(deps[0].kind, DependencyKind::External);
}

#[test]
fn ts_detects_syntax_error() {
    assert!(!errors("TypeScript", "function foo( { return; }").is_empty());
}

#[test]
fn ts_multiple_top_level_entities() {
    let src = "function alpha() {}\nconst beta = () => {}\nclass Gamma {}\ninterface Delta {}\nenum Epsilon {}\n";
    let e = entities("TypeScript", src);
    assert_eq!(e.len(), 5);
    assert!(e.iter().any(|x| x.name == "alpha" && x.entity_type == EntityType::Function));
    assert!(e.iter().any(|x| x.name == "beta" && x.entity_type == EntityType::Function));
    assert!(e.iter().any(|x| x.name == "Gamma" && x.entity_type == EntityType::Class));
    assert!(e.iter().any(|x| x.name == "Delta" && x.entity_type == EntityType::Trait));
    assert!(e.iter().any(|x| x.name == "Epsilon" && x.entity_type == EntityType::Enum));
}

// ── Whole files ──────────────────────────────────────────────────────────────

#[test]
fn parse_file_reads_registered_language() {
    let src = "#include \"a.h\"\nint main() {\n  return 0;\n}\n";
    let r = parse_file("src/main.c", src, "C");
    assert_eq!(r.path, "src/main.c");
    assert_eq!(r.language, "C");
    assert_eq!(r.loc, 4);
    assert_eq!(r.entities.len(), 1);
    assert_eq!(r.imports.len(), 1);
    assert!(r.dependencies.is_empty());
    assert!(r.errors.is_empty());
}

#[test]
fn parse_file_unknown_language_is_empty() {
    let r = parse_file("x.py", "def f():\n  pass\n", "Python");
    assert_eq!(r.loc, 0);
    assert!(r.entities.is_empty());
    assert!(r.imports.is_empty());
}

#[test]
fn parse_text_unknown_language_is_empty() {
    let p = parse_text("COBOL", "IDENTIFICATION DIVISION.");
    assert!(p.entities.is_empty() && p.imports.is_empty() && p.errors.is_empty());
}

#[test]
fn syntax_errors_report_kind_and_lines() {
    let errs = errors("Rust", "fn main() {\n  let x = ;\n}\n");
    assert!(!errs.is_empty());
    assert!(errs.iter().all(|e| e.kind == "error" || e.kind == "missing"));
    assert!(errs.iter().all(|e| e.start_line >= 1 && e.start_line <= e.end_line));
}

#[test]
fn registry_parsers_agree_with_parse_text() {
    let src = "struct S { int a; };\nint f() { return 1; }";
    let lm = LocMap::build(src);
    let a = code_seek::lang::parse_c(src, &lm);
    let b = entities("C", src);
    assert_eq!(a.len(), b.len());
    assert_eq!(a[0].name, b[0].name);
    let rs = "fn a() {}";
    let lm = LocMap::build(rs);
    assert_eq!(code_seek::lang::parse_rust(rs, &lm)[0].name, "a");
    let q = "Item { id: x }";
    let lm = LocMap::build(q);
    assert_eq!(code_seek::lang::parse_qml(q, &lm)[0].name, "x");
    let c = "class K {};";
    let lm = LocMap::build(c);
    assert_eq!(code_seek::lang::parse_cpp(c, &lm)[0].name, "K");
}

// ── Order within every parent ────────────────────────────────────────────────

fn names(es: &[Entity]) -> Vec<String> {
    es.iter().map(|e| e.name.clone()).collect()
}

#[test]
fn rust_nested_levels_are_sorted() {
    let src = "mod zeta { fn b() {} fn a() {} }\nimpl Widget { fn draw(&self) {} fn build() {} }\nfn main() {}";
    let e = entities("Rust", src);
    assert_eq!(names(&e), vec!["Widget", "main", "zeta"]);
    assert_eq!(names(&e[0].children), vec!["build", "draw"]);
    assert_eq!(names(&e[2].children), vec!["a", "b"]);
}

#[test]
fn cpp_nested_levels_are_sorted() {
    let src = "namespace N { class Z { void m2(); void m1() {} }; class A {}; }";
    let e = entities("C++", src);
    assert_eq!(names(&e), vec!["N"]);
    assert_eq!(names(&e[0].children), vec!["A", "Z"]);
}

#[test]
fn elixir_module_members_are_sorted_after_naming_the_struct() {
    let src = "defmodule Foo do\n  defstruct [:a]\n  def bar, do: 1\nend\n";
    let e = entities("Elixir", src);
    assert_eq!(names(&e), vec!["Foo"]);
    assert_eq!(names(&e[0].children), vec!["Foo", "bar"]);
}
