//! Rust: functions, structs, enums, `impl` blocks and traits with their
//! methods, and inline modules; `use` and `extern crate` resolution.
use vstd::prelude::*;

use crate::lang::loc::LocMap;
use crate::lang::syntax::{
    child_by_field, kind_is, lemma_child_below, lemma_found_child_below, name_field, text_of,
    SyntaxNode,
};
use crate::lang::{
    container_entity, container_view, forest_ordered, leaf_entity, leaf_view, forest_counted, lemma_counted_basics, lemma_counted_push, lemma_sorted_counted, loc_counted,
    lemma_empty_forest_ordered,
    lemma_sorted_forest, lemma_subtrees_push, sort_by_name, sort_entities, subtrees_ordered, Context,
};
use crate::model::{
    lemma_view_entities_push, view_dependencies, view_entities, view_entity_opt, view_strings,
    Dependency, DependencyKind, Entity, EntityType, EntityView,
};
use crate::paths::{ends_with_path, join, path_ends_with, path_join};
use crate::text::{
    before_any, before_any_exec, chars_of, concat2, has_prefix, starts_with, str_eq,
    string_from_chars, strip_all_prefix, strip_all_prefix_exec, strip_all_suffix,
    strip_all_suffix_exec, trim, trimmed,
};

verus! {

// ── Entities ─────────────────────────────────────────────────────────────────

/// The name of the type an `impl` block is for: a plain type's name, the
/// base of a generic type, or the last segment of a path.
pub open spec fn rust_type_name(n: SyntaxNode) -> Option<Seq<char>>
    decreases n,
{
    if kind_is(n, "type_identifier"@) {
        text_of(n)
    } else if kind_is(n, "generic_type"@) {
        match child_by_field(n, "type"@) {
            Some(t) => {
                proof {
                    lemma_found_child_below(n, "type"@);
                }
                rust_type_name(t)
            },
            None => None,
        }
    } else if kind_is(n, "scoped_type_identifier"@) {
        name_field(n)
    } else {
        None
    }
}

/// An `impl` block declares an `Impl` entity named after the type it is
/// for: a plain type by its text, a path type `a::b::T` by its last segment
/// `T` (its `name` field), and a generic type `T<..>` or `a::T<..>` by the
/// same rule applied to the type it instantiates. The methods in its body
/// are its children.
pub proof fn lemma_impl_named_by_its_type(n: SyntaxNode, lm: Seq<usize>, ctx: Context, depth: nat)
    requires
        n.kind@ == "impl_item"@,
    ensures
        child_by_field(n, "type"@) matches Some(t) ==> {
            let base = if t.kind@ == "generic_type"@ {
                child_by_field(t, "type"@)
            } else {
                Some(t)
            };
            base matches Some(b) ==> {
                let expected = if b.kind@ == "scoped_type_identifier"@ {
                    name_field(b)
                } else if b.kind@ == "type_identifier"@ {
                    text_of(b)
                } else {
                    None
                };
                expected matches Some(x) ==> rust_entity(n, lm, ctx, depth) == Some(
                    container_view(n, x, EntityType::Impl, lm, rust_body(n, lm, Context::TypeBody, depth)),
                )
            }
        },
{
    reveal_strlit("impl_item");
    reveal_strlit("function_item");
    reveal_strlit("function_signature_item");
    reveal_strlit("struct_item");
    reveal_strlit("enum_item");
    reveal_strlit("type_identifier");
    reveal_strlit("generic_type");
    reveal_strlit("scoped_type_identifier");
    assert("impl_item"@.len() == 9 && "function_item"@.len() == 13 && "function_signature_item"@.len() == 23);
    assert("struct_item"@.len() == 11 && "enum_item"@.len() == 9 && "impl_item"@[0] != "enum_item"@[0]);
    assert("type_identifier"@.len() == 15 && "generic_type"@.len() == 12 && "scoped_type_identifier"@.len() == 22);
    if let Some(t) = child_by_field(n, "type"@) {
        if t.kind@ == "generic_type"@ {
            lemma_found_child_below(t, "type"@);
            if let Some(b) = child_by_field(t, "type"@) {
                assert(rust_type_name(t) == rust_type_name(b));
            }
        }
        assert(impl_target(n) == rust_type_name(t));
    }
}

/// The name of the type an `impl` block is for.
pub open spec fn impl_target(n: SyntaxNode) -> Option<Seq<char>> {
    match child_by_field(n, "type"@) {
        Some(t) => rust_type_name(t),
        None => None,
    }
}

/// The entities in the node's `body` field, one level deeper, or none.
pub open spec fn rust_body(n: SyntaxNode, lm: Seq<usize>, ctx: Context, depth: nat) -> Seq<EntityView>
    decreases n, 3nat,
{
    match child_by_field(n, "body"@) {
        Some(b) => {
            proof {
                lemma_found_child_below(n, "body"@);
            }
            rust_collect(b, lm, ctx, depth + 1)
        },
        None => Seq::empty(),
    }
}

/// The entity a Rust item declares, if any.
pub open spec fn rust_entity(n: SyntaxNode, lm: Seq<usize>, ctx: Context, depth: nat) -> Option<EntityView>
    decreases n, 4nat,
{
    if kind_is(n, "function_item"@) || kind_is(n, "function_signature_item"@) {
        match name_field(n) {
            Some(name) => Some(
                leaf_view(
                    n,
                    name,
                    if ctx == Context::TypeBody {
                        EntityType::Method
                    } else {
                        EntityType::Function
                    },
                    lm,
                ),
            ),
            None => None,
        }
    } else if kind_is(n, "struct_item"@) {
        match name_field(n) {
            Some(name) => Some(leaf_view(n, name, EntityType::Struct, lm)),
            None => None,
        }
    } else if kind_is(n, "enum_item"@) {
        match name_field(n) {
            Some(name) => Some(leaf_view(n, name, EntityType::Enum, lm)),
            None => None,
        }
    } else if kind_is(n, "impl_item"@) {
        match impl_target(n) {
            Some(name) => Some(
                container_view(n, name, EntityType::Impl, lm, rust_body(n, lm, Context::TypeBody, depth)),
            ),
            None => None,
        }
    } else if kind_is(n, "trait_item"@) {
        match name_field(n) {
            Some(name) => Some(
                container_view(n, name, EntityType::Trait, lm, rust_body(n, lm, Context::TypeBody, depth)),
            ),
            None => None,
        }
    } else if kind_is(n, "mod_item"@) {
        // `mod foo;` has no body and declares nothing shown here.
        if child_by_field(n, "body"@) is None {
            None
        } else {
            match name_field(n) {
                Some(name) => Some(
                    container_view(n, name, EntityType::Namespace, lm, rust_body(n, lm, Context::TopLevel, depth)),
                ),
                None => None,
            }
        }
    } else {
        None
    }
}

/// The entities declared by sibling items, in order.
pub open spec fn rust_list(cs: Seq<SyntaxNode>, lm: Seq<usize>, ctx: Context, depth: nat) -> Seq<EntityView>
    decreases cs, 0nat,
{
    if cs.len() == 0 {
        Seq::empty()
    } else {
        let rest = rust_list(cs.drop_last(), lm, ctx, depth);
        match rust_entity(cs.last(), lm, ctx, depth) {
            Some(e) => rest.push(e),
            None => rest,
        }
    }
}

/// The entities declared by a node's children, sorted by name; none from
/// nesting depth 64 on.
pub open spec fn rust_collect(n: SyntaxNode, lm: Seq<usize>, ctx: Context, depth: nat) -> Seq<EntityView>
    decreases n, 1nat,
{
    if depth >= 64 {
        Seq::empty()
    } else {
        sort_by_name(rust_list(n.children@, lm, ctx, depth))
    }
}

/// The entities of a Rust source file.
pub open spec fn rust_entities(root: SyntaxNode, lm: Seq<usize>) -> Seq<EntityView> {
    rust_collect(root, lm, Context::TopLevel, 0)
}

// ── Order ────────────────────────────────────────────────────────────────────

proof fn lemma_rust_body_ordered(n: SyntaxNode, lm: Seq<usize>, ctx: Context, depth: nat)
    ensures
        forest_ordered(rust_body(n, lm, ctx, depth)),
    decreases n, 3nat,
{
    lemma_empty_forest_ordered();
    lemma_found_child_below(n, "body"@);
    if let Some(b) = child_by_field(n, "body"@) {
        lemma_rust_collect_ordered(b, lm, ctx, depth + 1);
    }
}

proof fn lemma_rust_entity_ordered(n: SyntaxNode, lm: Seq<usize>, ctx: Context, depth: nat)
    ensures
        rust_entity(n, lm, ctx, depth) matches Some(e) ==> forest_ordered(e.children),
    decreases n, 4nat,
{
    lemma_empty_forest_ordered();
    lemma_rust_body_ordered(n, lm, Context::TypeBody, depth);
    lemma_rust_body_ordered(n, lm, Context::TopLevel, depth);
}

proof fn lemma_rust_list_ordered(cs: Seq<SyntaxNode>, lm: Seq<usize>, ctx: Context, depth: nat)
    ensures
        subtrees_ordered(rust_list(cs, lm, ctx, depth)),
    decreases cs, 0nat,
{
    lemma_empty_forest_ordered();
    if cs.len() > 0 {
        lemma_rust_list_ordered(cs.drop_last(), lm, ctx, depth);
        lemma_rust_entity_ordered(cs.last(), lm, ctx, depth);
        if let Some(e) = rust_entity(cs.last(), lm, ctx, depth) {
            lemma_subtrees_push(rust_list(cs.drop_last(), lm, ctx, depth), e);
        }
    }
}

proof fn lemma_rust_collect_ordered(n: SyntaxNode, lm: Seq<usize>, ctx: Context, depth: nat)
    ensures
        forest_ordered(rust_collect(n, lm, ctx, depth)),
    decreases n, 1nat,
{
    lemma_empty_forest_ordered();
    if depth < 64 {
        lemma_rust_list_ordered(n.children@, lm, ctx, depth);
        lemma_sorted_forest(rust_list(n.children@, lm, ctx, depth));
    }
}

/// The entities of a Rust source file are in name order at every level.
pub proof fn lemma_rust_entities_ordered(root: SyntaxNode, lm: Seq<usize>)
    ensures
        forest_ordered(rust_entities(root, lm)),
{
    lemma_rust_collect_ordered(root, lm, Context::TopLevel, 0);
}


proof fn lemma_rust_body_counted(n: SyntaxNode, lm: Seq<usize>, ctx: Context, depth: nat)
    ensures
        forest_counted(rust_body(n, lm, ctx, depth), lm),
    decreases n, 3nat,
{
    lemma_counted_basics(lm);
    lemma_found_child_below(n, "body"@);
    if let Some(b) = child_by_field(n, "body"@) {
        lemma_rust_collect_counted(b, lm, ctx, depth + 1);
    }
}

proof fn lemma_rust_entity_counted(n: SyntaxNode, lm: Seq<usize>, ctx: Context, depth: nat)
    ensures
        rust_entity(n, lm, ctx, depth) matches Some(e) ==> loc_counted(e, lm) && forest_counted(e.children, lm),
    decreases n, 4nat,
{
    lemma_counted_basics(lm);
    lemma_rust_body_counted(n, lm, Context::TypeBody, depth);
    lemma_rust_body_counted(n, lm, Context::TopLevel, depth);
}

proof fn lemma_rust_list_counted(cs: Seq<SyntaxNode>, lm: Seq<usize>, ctx: Context, depth: nat)
    ensures
        forest_counted(rust_list(cs, lm, ctx, depth), lm),
    decreases cs, 0nat,
{
    lemma_counted_basics(lm);
    if cs.len() > 0 {
        lemma_rust_list_counted(cs.drop_last(), lm, ctx, depth);
        lemma_rust_entity_counted(cs.last(), lm, ctx, depth);
        if let Some(e) = rust_entity(cs.last(), lm, ctx, depth) {
            lemma_counted_push(rust_list(cs.drop_last(), lm, ctx, depth), e, lm);
        }
    }
}

proof fn lemma_rust_collect_counted(n: SyntaxNode, lm: Seq<usize>, ctx: Context, depth: nat)
    ensures
        forest_counted(rust_collect(n, lm, ctx, depth), lm),
    decreases n, 1nat,
{
    lemma_counted_basics(lm);
    if depth < 64 {
        lemma_rust_list_counted(n.children@, lm, ctx, depth);
        lemma_sorted_counted(rust_list(n.children@, lm, ctx, depth), lm);
    }
}

/// Every entity of a Rust source file has its lines counted over its own range.
pub proof fn lemma_rust_entities_counted(root: SyntaxNode, lm: Seq<usize>)
    ensures
        forest_counted(rust_entities(root, lm), lm),
{
    lemma_rust_collect_counted(root, lm, Context::TopLevel, 0);
}

fn rust_type_name_of(n: &SyntaxNode) -> (r: Option<String>)
    ensures
        r matches Some(s) ==> rust_type_name(*n) == Some(s@),
        r is None ==> rust_type_name(*n) is None,
    decreases n,
{
    if n.is_kind("type_identifier") {
        n.text_copy()
    } else if n.is_kind("generic_type") {
        proof {
            lemma_found_child_below(*n, "type"@);
        }
        match n.child_by_field("type") {
            Some(t) => rust_type_name_of(t),
            None => None,
        }
    } else if n.is_kind("scoped_type_identifier") {
        n.name_field()
    } else {
        None
    }
}

fn rust_body_of(n: &SyntaxNode, lm: &LocMap, ctx: Context, depth: usize) -> (r: Vec<Entity>)
    requires
        lm.wf(),
        depth < 64,
    ensures
        view_entities(r@) == rust_body(*n, lm@, ctx, depth as nat),
    decreases n, 3nat,
{
    proof {
        lemma_found_child_below(*n, "body"@);
    }
    match n.child_by_field("body") {
        Some(b) => rust_collect_of(b, lm, ctx, depth + 1),
        None => Vec::new(),
    }
}

fn rust_entity_of(n: &SyntaxNode, lm: &LocMap, ctx: Context, depth: usize) -> (r: Option<Entity>)
    requires
        lm.wf(),
        depth < 64,
    ensures
        view_entity_opt(r) == rust_entity(*n, lm@, ctx, depth as nat),
    decreases n, 4nat,
{
    if n.is_kind("function_item") || n.is_kind("function_signature_item") {
        match n.name_field() {
            Some(name) => {
                let et = if ctx == Context::TypeBody {
                    EntityType::Method
                } else {
                    EntityType::Function
                };
                Some(leaf_entity(n, name, et, lm))
            },
            None => None,
        }
    } else if n.is_kind("struct_item") {
        match n.name_field() {
            Some(name) => Some(leaf_entity(n, name, EntityType::Struct, lm)),
            None => None,
        }
    } else if n.is_kind("enum_item") {
        match n.name_field() {
            Some(name) => Some(leaf_entity(n, name, EntityType::Enum, lm)),
            None => None,
        }
    } else if n.is_kind("impl_item") {
        let target = match n.child_by_field("type") {
            Some(t) => rust_type_name_of(t),
            None => None,
        };
        match target {
            Some(name) => {
                let children = rust_body_of(n, lm, Context::TypeBody, depth);
                Some(container_entity(n, name, EntityType::Impl, lm, children))
            },
            None => None,
        }
    } else if n.is_kind("trait_item") {
        match n.name_field() {
            Some(name) => {
                let children = rust_body_of(n, lm, Context::TypeBody, depth);
                Some(container_entity(n, name, EntityType::Trait, lm, children))
            },
            None => None,
        }
    } else if n.is_kind("mod_item") {
        if n.child_by_field("body").is_none() {
            return None;
        }
        match n.name_field() {
            Some(name) => {
                let children = rust_body_of(n, lm, Context::TopLevel, depth);
                Some(container_entity(n, name, EntityType::Namespace, lm, children))
            },
            None => None,
        }
    } else {
        None
    }
}

fn rust_collect_of(n: &SyntaxNode, lm: &LocMap, ctx: Context, depth: usize) -> (r: Vec<Entity>)
    requires
        lm.wf(),
        depth <= 64,
    ensures
        view_entities(r@) == rust_collect(*n, lm@, ctx, depth as nat),
    decreases n, 1nat,
{
    if depth >= 64 {
        return Vec::new();
    }
    let mut out: Vec<Entity> = Vec::new();
    let mut i: usize = 0;
    while i < n.children.len()
        invariant
            lm.wf(),
            depth < 64,
            i <= n.children@.len(),
            view_entities(out@) == rust_list(n.children@.take(i as int), lm@, ctx, depth as nat),
        decreases n.children.len() - i,
    {
        proof {
            let t = n.children@.take(i + 1);
            assert(t.drop_last() =~= n.children@.take(i as int));
            assert(t.last() == n.children@[i as int]);
            lemma_child_below(*n, i as int);
        }
        match rust_entity_of(&n.children[i], lm, ctx, depth) {
            Some(e) => {
                proof {
                    lemma_view_entities_push(out@, e);
                }
                out.push(e);
            },
            None => {},
        }
        i += 1;
    }
    assert(n.children@.take(n.children@.len() as int) =~= n.children@);
    sort_entities(out)
}

/// The entities of a Rust source file, each level sorted by name.
pub fn rust_entities_of(root: &SyntaxNode, lm: &LocMap) -> (r: Vec<Entity>)
    requires
        lm.wf(),
    ensures
        view_entities(r@) == rust_entities(*root, lm@),
{
    rust_collect_of(root, lm, Context::TopLevel, 0)
}

// ── Imports ──────────────────────────────────────────────────────────────────

/// The first path segment an import names: the text after `use ` and
/// `extern crate `, trimmed, up to the first `:`, space or `;`.
pub open spec fn crate_segment(import: Seq<char>) -> Option<Seq<char>> {
    let s = before_any(trim(strip_all_prefix(strip_all_prefix(import, "use "@), "extern crate "@)), ":;"@.push(' '));
    if s.len() == 0 {
        None
    } else {
        Some(s)
    }
}

/// The crates the toolchain ships.
pub open spec fn std_crate(name: Seq<char>) -> bool {
    name == "std"@ || name == "core"@ || name == "alloc"@ || name == "proc_macro"@ || name == "test"@
}

/// The first path segment of an import, if it has one.
pub fn first_crate_segment(import: &str) -> (r: Option<String>)
    ensures
        r matches Some(s) ==> crate_segment(import@) == Some(s@),
        r is None ==> crate_segment(import@) is None,
{
    let cs = chars_of(import);
    let a = strip_all_prefix_exec(&cs, &chars_of("use "));
    let b = strip_all_prefix_exec(&a, &chars_of("extern crate "));
    let t = trimmed(&b);
    let mut stops = chars_of(":;");
    stops.push(' ');
    let s = before_any_exec(&t, &stops);
    if s.len() == 0 {
        None
    } else {
        Some(string_from_chars(&s))
    }
}

/// Whether a crate ships with the toolchain.
pub fn is_std_crate(crate_name: &str) -> (r: bool)
    ensures
        r == std_crate(crate_name@),
{
    str_eq(crate_name, "std") || str_eq(crate_name, "core") || str_eq(crate_name, "alloc") || str_eq(
        crate_name,
        "proc_macro",
    ) || str_eq(crate_name, "test")
}

/// The module file a crate name would have in this project: `src/<name>.rs`
/// or `src/<name>/mod.rs`, matched against the project's files.
pub open spec fn local_module(files: Seq<Seq<char>>, name: Seq<char>) -> bool {
    exists|i: int|
        0 <= i < files.len() && (path_ends_with(#[trigger] files[i], path_join("src"@, name + ".rs"@))
            || path_ends_with(files[i], path_join(path_join("src"@, name), "mod.rs"@)))
}

/// The dependency one Rust import names.
pub open spec fn rust_dependency(raw: Seq<char>, files: Seq<Seq<char>>) -> Option<(Seq<char>, DependencyKind)> {
    let r = trim(raw);
    if starts_with(r, "use crate::"@) {
        Some(
            (
                strip_all_suffix(strip_all_prefix(strip_all_prefix(r, "use "@), "extern crate "@), ";"@),
                DependencyKind::Internal,
            ),
        )
    } else {
        match crate_segment(r) {
            Some(name) => Some(
                (
                    name,
                    if std_crate(name) {
                        DependencyKind::External
                    } else if (starts_with(r, "use "@) || starts_with(r, "extern crate "@))
                        && local_module(files, name) {
                        DependencyKind::Internal
                    } else {
                        DependencyKind::External
                    },
                ),
            ),
            None => None,
        }
    }
}

/// The dependencies of a list of Rust imports, in order.
pub open spec fn rust_resolved(imports: Seq<Seq<char>>, files: Seq<Seq<char>>) -> Seq<(Seq<char>, DependencyKind)>
    decreases imports.len(),
{
    if imports.len() == 0 {
        Seq::empty()
    } else {
        let rest = rust_resolved(imports.drop_last(), files);
        match rust_dependency(imports.last(), files) {
            Some(d) => rest.push(d),
            None => rest,
        }
    }
}

fn has_local_module(files: &Vec<String>, name: &str) -> (r: bool)
    ensures
        r == local_module(view_strings(files@), name@),
{
    let ghost fs = view_strings(files@);
    let candidate_rs = join("src", concat2(name, ".rs").as_str());
    let dir = join("src", name);
    let candidate_mod = join(dir.as_str(), "mod.rs");
    let mut i: usize = 0;
    while i < files.len()
        invariant
            i <= files@.len(),
            fs == view_strings(files@),
            candidate_rs@ == path_join("src"@, name@ + ".rs"@),
            candidate_mod@ == path_join(path_join("src"@, name@), "mod.rs"@),
            forall|k: int|
                0 <= k < i ==> !(path_ends_with(#[trigger] fs[k], candidate_rs@) || path_ends_with(
                    fs[k],
                    candidate_mod@,
                )),
        decreases files.len() - i,
    {
        let p = files[i].as_str();
        if ends_with_path(p, candidate_rs.as_str()) || ends_with_path(p, candidate_mod.as_str()) {
            assert(fs[i as int] == files@[i as int]@);
            return true;
        }
        i += 1;
    }
    false
}

fn rust_dependency_of(raw: &str, files: &Vec<String>) -> (r: Option<Dependency>)
    ensures
        r matches Some(d) ==> rust_dependency(raw@, view_strings(files@)) == Some(d@),
        r is None ==> rust_dependency(raw@, view_strings(files@)) is None,
{
    let r = trimmed(&chars_of(raw));
    let rs = string_from_chars(&r);
    if has_prefix(&r, &chars_of("use crate::")) {
        let a = strip_all_prefix_exec(&r, &chars_of("use "));
        let b = strip_all_prefix_exec(&a, &chars_of("extern crate "));
        let c = strip_all_suffix_exec(&b, &chars_of(";"));
        return Some(Dependency { name: string_from_chars(&c), kind: DependencyKind::Internal });
    }
    match first_crate_segment(rs.as_str()) {
        Some(name) => {
            let kind = if is_std_crate(name.as_str()) {
                DependencyKind::External
            } else if (has_prefix(&r, &chars_of("use ")) || has_prefix(&r, &chars_of("extern crate ")))
                && has_local_module(files, name.as_str()) {
                DependencyKind::Internal
            } else {
                DependencyKind::External
            };
            Some(Dependency { name, kind })
        },
        None => None,
    }
}

/// Resolves Rust imports: `use crate::...` is internal under its full
/// path; otherwise the first segment names a crate, external when it
/// ships with the toolchain, internal when the project has a module file
/// of that name, external otherwise.
pub fn resolve_imports(imports: &Vec<String>, project_files: &Vec<String>) -> (r: Vec<Dependency>)
    ensures
        view_dependencies(r@) == rust_resolved(view_strings(imports@), view_strings(project_files@)),
{
    let ghost fs = view_strings(project_files@);
    let ghost is = view_strings(imports@);
    let mut out: Vec<Dependency> = Vec::new();
    let mut i: usize = 0;
    while i < imports.len()
        invariant
            i <= imports@.len(),
            fs == view_strings(project_files@),
            is == view_strings(imports@),
            view_dependencies(out@) == rust_resolved(is.take(i as int), fs),
        decreases imports.len() - i,
    {
        proof {
            assert(is.take(i + 1).drop_last() =~= is.take(i as int));
            assert(is.take(i + 1).last() == imports@[i as int]@);
        }
        match rust_dependency_of(imports[i].as_str(), project_files) {
            Some(d) => {
                out.push(d);
                assert(view_dependencies(out@) =~= rust_resolved(is.take(i + 1), fs));
            },
            None => {},
        }
        i += 1;
    }
    assert(is.take(is.len() as int) =~= is);
    out
}

} // verus!
