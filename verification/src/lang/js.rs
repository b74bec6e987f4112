//! JavaScript and TypeScript: functions, classes with their methods, arrow
//! functions bound at top level, `export` wrappers; TypeScript adds abstract
//! classes, interfaces, enums and namespaces. Import specifiers are
//! resolved as relative or package paths.
use vstd::prelude::*;

use crate::lang::loc::LocMap;
use crate::lang::syntax::{
    child_by_field, first_named_child, kind_is, lemma_child_below, lemma_found_child_below,
    name_field, SyntaxNode,
};
use crate::lang::{
    classified, classify_path, container_entity, container_view, first_quoted, first_quoted_of,
    forest_ordered, leaf_entity, leaf_view, forest_counted, lemma_counted_basics, lemma_counted_push, lemma_sorted_counted, loc_counted,
    lemma_empty_forest_ordered, lemma_sorted_forest,
    lemma_subtrees_push, sort_by_name, sort_entities, subtrees_ordered, Context,
};
use crate::model::{
    lemma_view_entities_push, view_dependencies, view_entities, view_entity_opt, view_strings,
    Dependency, DependencyKind, Entity, EntityType, EntityView,
};
use crate::text::chars_of;

verus! {

// ── Entities ─────────────────────────────────────────────────────────────────

/// The entities in the node's `body` field, one level deeper, or none.
pub open spec fn js_body(n: SyntaxNode, lm: Seq<usize>, ctx: Context, depth: nat, ts: bool) -> Seq<EntityView>
    decreases n, 3nat,
{
    match child_by_field(n, "body"@) {
        Some(b) => {
            proof {
                lemma_found_child_below(n, "body"@);
            }
            js_collect(b, lm, ctx, depth + 1, ts)
        },
        None => Seq::empty(),
    }
}

/// The function a declaration binds, searching its declarators from index
/// `i`: the first declarator bound to an arrow function names it; a
/// declarator without a value ends the search.
pub open spec fn js_arrow_from(n: SyntaxNode, cs: Seq<SyntaxNode>, lm: Seq<usize>, i: int) -> Option<EntityView>
    decreases cs.len() - i,
{
    if i < 0 || i >= cs.len() {
        None
    } else if kind_is(cs[i], "variable_declarator"@) {
        match child_by_field(cs[i], "value"@) {
            Some(v) => if kind_is(v, "arrow_function"@) {
                match name_field(cs[i]) {
                    Some(name) => Some(leaf_view(n, name, EntityType::Function, lm)),
                    None => None,
                }
            } else {
                js_arrow_from(n, cs, lm, i + 1)
            },
            None => None,
        }
    } else {
        js_arrow_from(n, cs, lm, i + 1)
    }
}

/// The entity a JavaScript node declares (TypeScript when `ts`), if any.
pub open spec fn js_entity(n: SyntaxNode, lm: Seq<usize>, ctx: Context, depth: nat, ts: bool) -> Option<EntityView>
    decreases n, 4nat,
{
    if ts && kind_is(n, "abstract_class_declaration"@) {
        match name_field(n) {
            Some(name) => Some(
                container_view(n, name, EntityType::Class, lm, js_body(n, lm, Context::TypeBody, depth, ts)),
            ),
            None => None,
        }
    } else if ts && kind_is(n, "interface_declaration"@) {
        match name_field(n) {
            Some(name) => Some(
                container_view(n, name, EntityType::Trait, lm, js_body(n, lm, Context::TypeBody, depth, ts)),
            ),
            None => None,
        }
    } else if ts && kind_is(n, "enum_declaration"@) {
        match name_field(n) {
            Some(name) => Some(leaf_view(n, name, EntityType::Enum, lm)),
            None => None,
        }
    } else if ts && kind_is(n, "expression_statement"@) {
        // `namespace X {}` parses as an expression statement holding an
        // internal module.
        match first_named_child(n) {
            Some(c) => if kind_is(c, "internal_module"@) {
                proof {
                    lemma_found_child_below(n, "body"@);
                }
                js_entity(c, lm, ctx, depth, ts)
            } else {
                None
            },
            None => None,
        }
    } else if ts && kind_is(n, "internal_module"@) {
        match name_field(n) {
            Some(name) => Some(
                container_view(n, name, EntityType::Namespace, lm, js_body(n, lm, Context::TopLevel, depth, ts)),
            ),
            None => None,
        }
    } else if ts && (kind_is(n, "method_signature"@) || kind_is(n, "abstract_method_signature"@)) && ctx
        == Context::TypeBody {
        match name_field(n) {
            Some(name) => Some(leaf_view(n, name, EntityType::Method, lm)),
            None => None,
        }
    } else if kind_is(n, "function_declaration"@) {
        match name_field(n) {
            Some(name) => Some(leaf_view(n, name, EntityType::Function, lm)),
            None => None,
        }
    } else if kind_is(n, "class_declaration"@) {
        match name_field(n) {
            Some(name) => Some(
                container_view(n, name, EntityType::Class, lm, js_body(n, lm, Context::TypeBody, depth, ts)),
            ),
            None => None,
        }
    } else if kind_is(n, "method_definition"@) && ctx == Context::TypeBody {
        match name_field(n) {
            Some(name) => Some(leaf_view(n, name, EntityType::Method, lm)),
            None => None,
        }
    } else if (kind_is(n, "lexical_declaration"@) || kind_is(n, "variable_declaration"@)) && ctx
        == Context::TopLevel {
        js_arrow_from(n, n.children@, lm, 0)
    } else if kind_is(n, "export_statement"@) {
        match child_by_field(n, "declaration"@) {
            Some(d) => {
                proof {
                    lemma_found_child_below(n, "declaration"@);
                }
                js_entity(d, lm, ctx, depth, ts)
            },
            None => None,
        }
    } else {
        None
    }
}

/// The entities declared by sibling nodes, in order.
pub open spec fn js_list(cs: Seq<SyntaxNode>, lm: Seq<usize>, ctx: Context, depth: nat, ts: bool) -> Seq<EntityView>
    decreases cs, 0nat,
{
    if cs.len() == 0 {
        Seq::empty()
    } else {
        let rest = js_list(cs.drop_last(), lm, ctx, depth, ts);
        match js_entity(cs.last(), lm, ctx, depth, ts) {
            Some(e) => rest.push(e),
            None => rest,
        }
    }
}

/// The entities declared by a node's children, sorted by name; none from
/// nesting depth 64 on.
pub open spec fn js_collect(n: SyntaxNode, lm: Seq<usize>, ctx: Context, depth: nat, ts: bool) -> Seq<EntityView>
    decreases n, 1nat,
{
    if depth >= 64 {
        Seq::empty()
    } else {
        sort_by_name(js_list(n.children@, lm, ctx, depth, ts))
    }
}

/// The entities of a JavaScript (or, when `ts`, TypeScript) module.
pub open spec fn js_entities(root: SyntaxNode, lm: Seq<usize>, ts: bool) -> Seq<EntityView> {
    js_collect(root, lm, Context::TopLevel, 0, ts)
}

// ── Order ────────────────────────────────────────────────────────────────────

proof fn lemma_js_arrow_leaf(n: SyntaxNode, cs: Seq<SyntaxNode>, lm: Seq<usize>, i: int)
    ensures
        js_arrow_from(n, cs, lm, i) matches Some(e) ==> e.children.len() == 0 && loc_counted(e, lm),
    decreases cs.len() - i,
{
    lemma_counted_basics(lm);
    if 0 <= i < cs.len() {
        lemma_js_arrow_leaf(n, cs, lm, i + 1);
    }
}

proof fn lemma_js_body_ordered(n: SyntaxNode, lm: Seq<usize>, ctx: Context, depth: nat, ts: bool)
    ensures
        forest_ordered(js_body(n, lm, ctx, depth, ts)),
    decreases n, 3nat,
{
    lemma_empty_forest_ordered();
    lemma_found_child_below(n, "body"@);
    if let Some(b) = child_by_field(n, "body"@) {
        lemma_js_collect_ordered(b, lm, ctx, depth + 1, ts);
    }
}

proof fn lemma_js_entity_ordered(n: SyntaxNode, lm: Seq<usize>, ctx: Context, depth: nat, ts: bool)
    ensures
        js_entity(n, lm, ctx, depth, ts) matches Some(e) ==> forest_ordered(e.children),
    decreases n, 4nat,
{
    lemma_empty_forest_ordered();
    lemma_js_body_ordered(n, lm, Context::TypeBody, depth, ts);
    lemma_js_body_ordered(n, lm, Context::TopLevel, depth, ts);
    lemma_js_arrow_leaf(n, n.children@, lm, 0);
    if let Some(e) = js_arrow_from(n, n.children@, lm, 0) {
        assert(e.children =~= Seq::<EntityView>::empty());
    }
    lemma_found_child_below(n, "body"@);
    if let Some(c) = first_named_child(n) {
        lemma_js_entity_ordered(c, lm, ctx, depth, ts);
    }
    lemma_found_child_below(n, "declaration"@);
    if let Some(d) = child_by_field(n, "declaration"@) {
        lemma_js_entity_ordered(d, lm, ctx, depth, ts);
    }
}

proof fn lemma_js_list_ordered(cs: Seq<SyntaxNode>, lm: Seq<usize>, ctx: Context, depth: nat, ts: bool)
    ensures
        subtrees_ordered(js_list(cs, lm, ctx, depth, ts)),
    decreases cs, 0nat,
{
    lemma_empty_forest_ordered();
    if cs.len() > 0 {
        lemma_js_list_ordered(cs.drop_last(), lm, ctx, depth, ts);
        lemma_js_entity_ordered(cs.last(), lm, ctx, depth, ts);
        if let Some(e) = js_entity(cs.last(), lm, ctx, depth, ts) {
            lemma_subtrees_push(js_list(cs.drop_last(), lm, ctx, depth, ts), e);
        }
    }
}

proof fn lemma_js_collect_ordered(n: SyntaxNode, lm: Seq<usize>, ctx: Context, depth: nat, ts: bool)
    ensures
        forest_ordered(js_collect(n, lm, ctx, depth, ts)),
    decreases n, 1nat,
{
    lemma_empty_forest_ordered();
    if depth < 64 {
        lemma_js_list_ordered(n.children@, lm, ctx, depth, ts);
        lemma_sorted_forest(js_list(n.children@, lm, ctx, depth, ts));
    }
}

/// The entities of a JavaScript or TypeScript module are in name order at
/// every level.
pub proof fn lemma_js_entities_ordered(root: SyntaxNode, lm: Seq<usize>, ts: bool)
    ensures
        forest_ordered(js_entities(root, lm, ts)),
{
    lemma_js_collect_ordered(root, lm, Context::TopLevel, 0, ts);
}

proof fn lemma_js_body_counted(n: SyntaxNode, lm: Seq<usize>, ctx: Context, depth: nat, ts: bool)
    ensures
        forest_counted(js_body(n, lm, ctx, depth, ts), lm),
    decreases n, 3nat,
{
    lemma_counted_basics(lm);
    lemma_found_child_below(n, "body"@);
    if let Some(b) = child_by_field(n, "body"@) {
        lemma_js_collect_counted(b, lm, ctx, depth + 1, ts);
    }
}

proof fn lemma_js_entity_counted(n: SyntaxNode, lm: Seq<usize>, ctx: Context, depth: nat, ts: bool)
    ensures
        js_entity(n, lm, ctx, depth, ts) matches Some(e) ==> loc_counted(e, lm) && forest_counted(e.children, lm),
    decreases n, 4nat,
{
    lemma_counted_basics(lm);
    lemma_js_body_counted(n, lm, Context::TypeBody, depth, ts);
    lemma_js_body_counted(n, lm, Context::TopLevel, depth, ts);
    lemma_js_arrow_leaf(n, n.children@, lm, 0);
    if let Some(e) = js_arrow_from(n, n.children@, lm, 0) {
        assert(e.children =~= Seq::<EntityView>::empty());
    }
    lemma_found_child_below(n, "body"@);
    if let Some(c) = first_named_child(n) {
        lemma_js_entity_counted(c, lm, ctx, depth, ts);
    }
    lemma_found_child_below(n, "declaration"@);
    if let Some(d) = child_by_field(n, "declaration"@) {
        lemma_js_entity_counted(d, lm, ctx, depth, ts);
    }
}

proof fn lemma_js_list_counted(cs: Seq<SyntaxNode>, lm: Seq<usize>, ctx: Context, depth: nat, ts: bool)
    ensures
        forest_counted(js_list(cs, lm, ctx, depth, ts), lm),
    decreases cs, 0nat,
{
    lemma_counted_basics(lm);
    if cs.len() > 0 {
        lemma_js_list_counted(cs.drop_last(), lm, ctx, depth, ts);
        lemma_js_entity_counted(cs.last(), lm, ctx, depth, ts);
        if let Some(e) = js_entity(cs.last(), lm, ctx, depth, ts) {
            lemma_counted_push(js_list(cs.drop_last(), lm, ctx, depth, ts), e, lm);
        }
    }
}

proof fn lemma_js_collect_counted(n: SyntaxNode, lm: Seq<usize>, ctx: Context, depth: nat, ts: bool)
    ensures
        forest_counted(js_collect(n, lm, ctx, depth, ts), lm),
    decreases n, 1nat,
{
    lemma_counted_basics(lm);
    if depth < 64 {
        lemma_js_list_counted(n.children@, lm, ctx, depth, ts);
        lemma_sorted_counted(js_list(n.children@, lm, ctx, depth, ts), lm);
    }
}

/// Every entity of a JavaScript or TypeScript module has its lines counted
/// over its own range.
pub proof fn lemma_js_entities_counted(root: SyntaxNode, lm: Seq<usize>, ts: bool)
    ensures
        forest_counted(js_entities(root, lm, ts), lm),
{
    lemma_js_collect_counted(root, lm, Context::TopLevel, 0, ts);
}

fn js_body_of(n: &SyntaxNode, lm: &LocMap, ctx: Context, depth: usize, ts: bool) -> (r: Vec<Entity>)
    requires
        lm.wf(),
        depth < 64,
    ensures
        view_entities(r@) == js_body(*n, lm@, ctx, depth as nat, ts),
    decreases n, 3nat,
{
    proof {
        lemma_found_child_below(*n, "body"@);
    }
    match n.child_by_field("body") {
        Some(b) => js_collect_of(b, lm, ctx, depth + 1, ts),
        None => Vec::new(),
    }
}

/// The function a lexical or variable declaration binds to an arrow
/// function, spanning the whole declaration.
pub fn arrow_from_declarator(n: &SyntaxNode, lm: &LocMap) -> (r: Option<Entity>)
    requires
        lm.wf(),
    ensures
        view_entity_opt(r) == js_arrow_from(*n, n.children@, lm@, 0),
{
    let mut i: usize = 0;
    while i < n.children.len()
        invariant
            lm.wf(),
            i <= n.children@.len(),
            js_arrow_from(*n, n.children@, lm@, 0) == js_arrow_from(*n, n.children@, lm@, i as int),
        decreases n.children.len() - i,
    {
        let c = &n.children[i];
        if c.is_kind("variable_declarator") {
            match c.child_by_field("value") {
                Some(v) => if v.is_kind("arrow_function") {
                    return match c.name_field() {
                        Some(name) => Some(leaf_entity(n, name, EntityType::Function, lm)),
                        None => None,
                    };
                },
                None => return None,
            }
        }
        i += 1;
    }
    None
}

fn named_entity(n: &SyntaxNode, et: EntityType, lm: &LocMap) -> (r: Option<Entity>)
    requires
        lm.wf(),
    ensures
        r matches Some(e) ==> name_field(*n) is Some && e@ == leaf_view(*n, name_field(*n)->0, et, lm@),
        r is None ==> name_field(*n) is None,
{
    match n.name_field() {
        Some(name) => Some(leaf_entity(n, name, et, lm)),
        None => None,
    }
}

fn named_container(n: &SyntaxNode, et: EntityType, lm: &LocMap, ctx: Context, depth: usize, ts: bool) -> (r: Option<Entity>)
    requires
        lm.wf(),
        depth < 64,
    ensures
        r matches Some(e) ==> name_field(*n) is Some && e@ == container_view(
            *n,
            name_field(*n)->0,
            et,
            lm@,
            js_body(*n, lm@, ctx, depth as nat, ts),
        ),
        r is None ==> name_field(*n) is None,
    decreases n, 4nat,
{
    match n.name_field() {
        Some(name) => {
            let children = js_body_of(n, lm, ctx, depth, ts);
            Some(container_entity(n, name, et, lm, children))
        },
        None => None,
    }
}

fn js_entity_of(n: &SyntaxNode, lm: &LocMap, ctx: Context, depth: usize, ts: bool) -> (r: Option<Entity>)
    requires
        lm.wf(),
        depth < 64,
    ensures
        view_entity_opt(r) == js_entity(*n, lm@, ctx, depth as nat, ts),
    decreases n, 5nat,
{
    if ts && n.is_kind("abstract_class_declaration") {
        named_container(n, EntityType::Class, lm, Context::TypeBody, depth, ts)
    } else if ts && n.is_kind("interface_declaration") {
        named_container(n, EntityType::Trait, lm, Context::TypeBody, depth, ts)
    } else if ts && n.is_kind("enum_declaration") {
        named_entity(n, EntityType::Enum, lm)
    } else if ts && n.is_kind("expression_statement") {
        proof {
            lemma_found_child_below(*n, "body"@);
        }
        match n.first_named_child() {
            Some(c) => if c.is_kind("internal_module") {
                js_entity_of(c, lm, ctx, depth, ts)
            } else {
                None
            },
            None => None,
        }
    } else if ts && n.is_kind("internal_module") {
        named_container(n, EntityType::Namespace, lm, Context::TopLevel, depth, ts)
    } else if ts && (n.is_kind("method_signature") || n.is_kind("abstract_method_signature")) && ctx
        == Context::TypeBody {
        named_entity(n, EntityType::Method, lm)
    } else if n.is_kind("function_declaration") {
        named_entity(n, EntityType::Function, lm)
    } else if n.is_kind("class_declaration") {
        named_container(n, EntityType::Class, lm, Context::TypeBody, depth, ts)
    } else if n.is_kind("method_definition") && ctx == Context::TypeBody {
        named_entity(n, EntityType::Method, lm)
    } else if (n.is_kind("lexical_declaration") || n.is_kind("variable_declaration")) && ctx
        == Context::TopLevel {
        arrow_from_declarator(n, lm)
    } else if n.is_kind("export_statement") {
        proof {
            lemma_found_child_below(*n, "declaration"@);
        }
        match n.child_by_field("declaration") {
            Some(d) => js_entity_of(d, lm, ctx, depth, ts),
            None => None,
        }
    } else {
        None
    }
}

fn js_collect_of(n: &SyntaxNode, lm: &LocMap, ctx: Context, depth: usize, ts: bool) -> (r: Vec<Entity>)
    requires
        lm.wf(),
        depth <= 64,
    ensures
        view_entities(r@) == js_collect(*n, lm@, ctx, depth as nat, ts),
    decreases n, 1nat,
{
    if depth >= 64 {
        return Vec::new();
    }
    let mut out: Vec<Entity> = Vec::new();
    let mut i: usize = 0;
    while i < n.children.len()
        invariant
            lm.wf(),
            depth < 64,
            i <= n.children@.len(),
            view_entities(out@) == js_list(n.children@.take(i as int), lm@, ctx, depth as nat, ts),
        decreases n.children.len() - i,
    {
        proof {
            let t = n.children@.take(i + 1);
            assert(t.drop_last() =~= n.children@.take(i as int));
            assert(t.last() == n.children@[i as int]);
            lemma_child_below(*n, i as int);
        }
        match js_entity_of(&n.children[i], lm, ctx, depth, ts) {
            Some(e) => {
                proof {
                    lemma_view_entities_push(out@, e);
                }
                out.push(e);
            },
            None => {},
        }
        i += 1;
    }
    assert(n.children@.take(n.children@.len() as int) =~= n.children@);
    sort_entities(out)
}

/// The entities of a JavaScript module, each level sorted by name.
pub fn js_entities_of(root: &SyntaxNode, lm: &LocMap) -> (r: Vec<Entity>)
    requires
        lm.wf(),
    ensures
        view_entities(r@) == js_entities(*root, lm@, false),
{
    js_collect_of(root, lm, Context::TopLevel, 0, false)
}

/// The entities of a TypeScript module, each level sorted by name.
pub fn ts_entities_of(root: &SyntaxNode, lm: &LocMap) -> (r: Vec<Entity>)
    requires
        lm.wf(),
    ensures
        view_entities(r@) == js_entities(*root, lm@, true),
{
    js_collect_of(root, lm, Context::TopLevel, 0, true)
}

// ── Imports ──────────────────────────────────────────────────────────────────

/// The prefixes of a relative module specifier.
pub open spec fn js_relative() -> Seq<Seq<char>> {
    seq!["./"@, "../"@]
}

/// The dependencies of a list of import statements: each statement's first
/// quoted token, internal when relative; statements without one are
/// dropped.
pub open spec fn js_resolved(imports: Seq<Seq<char>>) -> Seq<(Seq<char>, DependencyKind)>
    decreases imports.len(),
{
    if imports.len() == 0 {
        Seq::empty()
    } else {
        let rest = js_resolved(imports.drop_last());
        match first_quoted(imports.last()) {
            Some(p) => rest.push(classified(p, js_relative())),
            None => rest,
        }
    }
}

/// The module specifier of an import statement: its first quoted token.
pub fn extract_specifier(raw: &str) -> (r: Option<String>)
    ensures
        r matches Some(v) ==> first_quoted(raw@) == Some(v@),
        r is None ==> first_quoted(raw@) is None,
{
    first_quoted_of(&chars_of(raw))
}

/// Resolves JavaScript and TypeScript import statements.
pub fn resolve_imports(imports: &Vec<String>, _project_files: &Vec<String>) -> (r: Vec<Dependency>)
    ensures
        view_dependencies(r@) == js_resolved(view_strings(imports@)),
{
    let ghost is = view_strings(imports@);
    let prefixes = vec!["./", "../"];
    assert(prefixes@.map_values(|p: &str| p@) =~= js_relative());
    let mut out: Vec<Dependency> = Vec::new();
    let mut i: usize = 0;
    while i < imports.len()
        invariant
            i <= imports@.len(),
            is == view_strings(imports@),
            prefixes@.map_values(|p: &str| p@) == js_relative(),
            view_dependencies(out@) == js_resolved(is.take(i as int)),
        decreases imports.len() - i,
    {
        proof {
            assert(is.take(i + 1).drop_last() =~= is.take(i as int));
            assert(is.take(i + 1).last() == imports@[i as int]@);
        }
        match extract_specifier(imports[i].as_str()) {
            Some(p) => {
                out.push(classify_path(p, &prefixes));
                assert(view_dependencies(out@) =~= js_resolved(is.take(i + 1)));
            },
            None => {},
        }
        i += 1;
    }
    assert(is.take(is.len() as int) =~= is);
    out
}

} // verus!
