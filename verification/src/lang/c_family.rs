//! What the C and C++ extractors share: the name a declarator declares and
//! the resolution of `#include` lines.
use vstd::prelude::*;

use crate::lang::syntax::{child_by_field, kind_is, lemma_found_child_below, text_of, SyntaxNode};
use crate::model::{view_dependencies, view_strings, Dependency, DependencyKind};
use crate::paths::{ends_with_path, path_ends_with};
use crate::text::{
    chars_of, has_prefix, starts_with, string_from_chars, strip_all_prefix,
    strip_all_prefix_exec, trim, trim_chars, trim_chars_exec, trimmed,
};

verus! {

/// The name a declarator declares: an identifier's text, or the name under
/// a qualified identifier, or the name of the declarator a function,
/// pointer or reference declarator wraps.
pub open spec fn declarator_name(n: SyntaxNode) -> Option<Seq<char>>
    decreases n,
{
    if kind_is(n, "identifier"@) || kind_is(n, "field_identifier"@) || kind_is(n, "type_identifier"@)
        || kind_is(n, "namespace_identifier"@) {
        text_of(n)
    } else if kind_is(n, "qualified_identifier"@) {
        match child_by_field(n, "name"@) {
            Some(c) => {
                proof {
                    lemma_found_child_below(n, "name"@);
                }
                declarator_name(c)
            },
            None => None,
        }
    } else if kind_is(n, "function_declarator"@) || kind_is(n, "pointer_declarator"@) || kind_is(
        n,
        "reference_declarator"@,
    ) {
        match child_by_field(n, "declarator"@) {
            Some(c) => {
                proof {
                    lemma_found_child_below(n, "declarator"@);
                }
                declarator_name(c)
            },
            None => None,
        }
    } else {
        None
    }
}

/// The name a declarator declares.
pub fn declarator_name_of(n: &SyntaxNode) -> (r: Option<String>)
    ensures
        r matches Some(s) ==> declarator_name(*n) == Some(s@),
        r is None ==> declarator_name(*n) is None,
    decreases n,
{
    if n.is_kind("identifier") || n.is_kind("field_identifier") || n.is_kind("type_identifier")
        || n.is_kind("namespace_identifier") {
        n.text_copy()
    } else if n.is_kind("qualified_identifier") {
        proof {
            lemma_found_child_below(*n, "name"@);
        }
        match n.child_by_field("name") {
            Some(c) => declarator_name_of(c),
            None => None,
        }
    } else if n.is_kind("function_declarator") || n.is_kind("pointer_declarator") || n.is_kind(
        "reference_declarator",
    ) {
        proof {
            lemma_found_child_below(*n, "declarator"@);
        }
        match n.child_by_field("declarator") {
            Some(c) => declarator_name_of(c),
            None => None,
        }
    } else {
        None
    }
}

// ── #include lines ───────────────────────────────────────────────────────────

/// Some project file ends with `name`, component by component.
pub open spec fn some_file_ends_with(files: Seq<Seq<char>>, name: Seq<char>) -> bool {
    exists|i: int| 0 <= i < files.len() && path_ends_with(#[trigger] files[i], name)
}

/// The dependency an `#include` line names: the header between angle
/// brackets is outside the project; one between quotes is inside it when
/// some project file ends with it. Any other line names none.
pub open spec fn include_dependency(raw: Seq<char>, files: Seq<Seq<char>>) -> Option<(Seq<char>, DependencyKind)> {
    let r = trim(raw);
    if !starts_with(r, "#include"@) {
        None
    } else {
        let inner = trim(strip_all_prefix(r, "#include"@));
        if starts_with(inner, "<"@) {
            Some((trim_chars(inner, "<>"@), DependencyKind::External))
        } else if starts_with(inner, "\""@) {
            let name = trim_chars(inner, "\""@);
            Some(
                (
                    name,
                    if some_file_ends_with(files, name) {
                        DependencyKind::Internal
                    } else {
                        DependencyKind::External
                    },
                ),
            )
        } else {
            None
        }
    }
}

/// The dependencies of a list of `#include` lines, in order.
pub open spec fn includes_resolved(imports: Seq<Seq<char>>, files: Seq<Seq<char>>) -> Seq<(Seq<char>, DependencyKind)>
    decreases imports.len(),
{
    if imports.len() == 0 {
        Seq::empty()
    } else {
        let rest = includes_resolved(imports.drop_last(), files);
        match include_dependency(imports.last(), files) {
            Some(d) => rest.push(d),
            None => rest,
        }
    }
}

/// Whether some project file ends with `name`.
fn any_file_ends_with(files: &Vec<String>, name: &str) -> (r: bool)
    ensures
        r == some_file_ends_with(view_strings(files@), name@),
{
    let ghost fs = view_strings(files@);
    let mut i: usize = 0;
    while i < files.len()
        invariant
            i <= files@.len(),
            fs == view_strings(files@),
            forall|k: int| 0 <= k < i ==> !path_ends_with(#[trigger] fs[k], name@),
        decreases files.len() - i,
    {
        if ends_with_path(files[i].as_str(), name) {
            assert(fs[i as int] == files@[i as int]@);
            return true;
        }
        i += 1;
    }
    false
}

/// The dependency one `#include` line names.
fn include_dependency_of(raw: &str, files: &Vec<String>) -> (r: Option<Dependency>)
    ensures
        r matches Some(d) ==> include_dependency(raw@, view_strings(files@)) == Some(d@),
        r is None ==> include_dependency(raw@, view_strings(files@)) is None,
{
    let cs = chars_of(raw);
    let r = trimmed(&cs);
    let directive = chars_of("#include");
    if !has_prefix(&r, &directive) {
        return None;
    }
    let stripped = strip_all_prefix_exec(&r, &directive);
    let inner = trimmed(&stripped);
    let angle = chars_of("<");
    let quote = chars_of("\"");
    if has_prefix(&inner, &angle) {
        let brackets = chars_of("<>");
        let name = trim_chars_exec(&inner, &brackets);
        Some(Dependency { name: string_from_chars(&name), kind: DependencyKind::External })
    } else if has_prefix(&inner, &quote) {
        let name = string_from_chars(&trim_chars_exec(&inner, &quote));
        let kind = if any_file_ends_with(files, name.as_str()) {
            DependencyKind::Internal
        } else {
            DependencyKind::External
        };
        Some(Dependency { name, kind })
    } else {
        None
    }
}

/// Resolves `#include` lines against the project's files: `<...>` is
/// external, `"..."` is internal when a project file ends with it; other
/// lines are dropped.
pub fn resolve_includes(imports: &Vec<String>, project_files: &Vec<String>) -> (r: Vec<Dependency>)
    ensures
        view_dependencies(r@) == includes_resolved(view_strings(imports@), view_strings(project_files@)),
{
    let ghost fs = view_strings(project_files@);
    let ghost is = view_strings(imports@);
    let mut out: Vec<Dependency> = Vec::new();
    let mut i: usize = 0;
    while i < imports.len()
        invariant
            i <= imports@.len(),
            fs == view_strings(project_files@),
            is == view_strings(imports@),
            view_dependencies(out@) == includes_resolved(is.take(i as int), fs),
        decreases imports.len() - i,
    {
        proof {
            assert(is.take(i + 1).drop_last() =~= is.take(i as int));
            assert(is.take(i + 1).last() == imports@[i as int]@);
        }
        match include_dependency_of(imports[i].as_str(), project_files) {
            Some(d) => {
                out.push(d);
                assert(view_dependencies(out@) =~= includes_resolved(is.take(i + 1), fs));
            },
            None => {},
        }
        i += 1;
    }
    assert(is.take(is.len() as int) =~= is);
    out
}

} // verus!
