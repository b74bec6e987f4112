//! Python: functions, classes with their methods (decorated or not);
//! `import` and `from ... import` resolution.
use vstd::prelude::*;

use crate::lang::loc::LocMap;
use crate::lang::syntax::{child_by_field, kind_is, lemma_child_below, lemma_found_child_below, name_field, SyntaxNode};
use crate::lang::{
    classified, classify_path, container_entity, container_view, forest_ordered, leaf_entity, leaf_view,
    forest_counted, lemma_counted_basics, lemma_counted_push, lemma_sorted_counted, loc_counted,
    lemma_empty_forest_ordered, lemma_sorted_forest, lemma_subtrees_push, sort_by_name, sort_entities,
    subtrees_ordered, Context,
};
use crate::model::{
    lemma_view_entities_push, view_dependencies, view_entities, view_entity_opt, view_strings,
    Dependency, DependencyKind, Entity, EntityType, EntityView,
};
use crate::text::{
    before_first, before_first_exec, chars_of, has_prefix, slice_range, split_on, split_on_exec,
    starts_with, string_from_chars, trim, trimmed,
};

verus! {

// ── Entities ─────────────────────────────────────────────────────────────────

/// The entities in the node's `body` field, one level deeper, or none.
pub open spec fn py_body(n: SyntaxNode, lm: Seq<usize>, ctx: Context, depth: nat) -> Seq<EntityView>
    decreases n, 3nat,
{
    match child_by_field(n, "body"@) {
        Some(b) => {
            proof {
                lemma_found_child_below(n, "body"@);
            }
            py_collect(b, lm, ctx, depth + 1)
        },
        None => Seq::empty(),
    }
}

/// The entity a Python statement defines, if any.
pub open spec fn py_entity(n: SyntaxNode, lm: Seq<usize>, ctx: Context, depth: nat) -> Option<EntityView>
    decreases n, 4nat,
{
    if kind_is(n, "function_definition"@) || kind_is(n, "async_function_definition"@) {
        match name_field(n) {
            Some(name) => Some(
                leaf_view(
                    n,
                    name,
                    if ctx == Context::TypeBody {
                        EntityType::Method
                    } else {
                        EntityType::Function
                    },
                    lm,
                ),
            ),
            None => None,
        }
    } else if kind_is(n, "class_definition"@) {
        match name_field(n) {
            Some(name) => Some(
                container_view(n, name, EntityType::Class, lm, py_body(n, lm, Context::TypeBody, depth)),
            ),
            None => None,
        }
    } else if kind_is(n, "decorated_definition"@) {
        match child_by_field(n, "definition"@) {
            Some(d) => {
                proof {
                    lemma_found_child_below(n, "definition"@);
                }
                py_entity(d, lm, ctx, depth)
            },
            None => None,
        }
    } else {
        None
    }
}

/// The entities defined by sibling statements, in order.
pub open spec fn py_list(cs: Seq<SyntaxNode>, lm: Seq<usize>, ctx: Context, depth: nat) -> Seq<EntityView>
    decreases cs, 0nat,
{
    if cs.len() == 0 {
        Seq::empty()
    } else {
        let rest = py_list(cs.drop_last(), lm, ctx, depth);
        match py_entity(cs.last(), lm, ctx, depth) {
            Some(e) => rest.push(e),
            None => rest,
        }
    }
}

/// The entities defined by a node's children, sorted by name; none from
/// nesting depth 64 on.
pub open spec fn py_collect(n: SyntaxNode, lm: Seq<usize>, ctx: Context, depth: nat) -> Seq<EntityView>
    decreases n, 1nat,
{
    if depth >= 64 {
        Seq::empty()
    } else {
        sort_by_name(py_list(n.children@, lm, ctx, depth))
    }
}

/// The entities of a Python module.
pub open spec fn py_entities(root: SyntaxNode, lm: Seq<usize>) -> Seq<EntityView> {
    py_collect(root, lm, Context::TopLevel, 0)
}

// ── Order ────────────────────────────────────────────────────────────────────

proof fn lemma_py_body_ordered(n: SyntaxNode, lm: Seq<usize>, ctx: Context, depth: nat)
    ensures
        forest_ordered(py_body(n, lm, ctx, depth)),
    decreases n, 3nat,
{
    lemma_empty_forest_ordered();
    lemma_found_child_below(n, "body"@);
    if let Some(b) = child_by_field(n, "body"@) {
        lemma_py_collect_ordered(b, lm, ctx, depth + 1);
    }
}

proof fn lemma_py_entity_ordered(n: SyntaxNode, lm: Seq<usize>, ctx: Context, depth: nat)
    ensures
        py_entity(n, lm, ctx, depth) matches Some(e) ==> forest_ordered(e.children),
    decreases n, 4nat,
{
    lemma_empty_forest_ordered();
    lemma_py_body_ordered(n, lm, Context::TypeBody, depth);
    if kind_is(n, "decorated_definition"@) {
        lemma_found_child_below(n, "definition"@);
        if let Some(d) = child_by_field(n, "definition"@) {
            lemma_py_entity_ordered(d, lm, ctx, depth);
        }
    }
}

proof fn lemma_py_list_ordered(cs: Seq<SyntaxNode>, lm: Seq<usize>, ctx: Context, depth: nat)
    ensures
        subtrees_ordered(py_list(cs, lm, ctx, depth)),
    decreases cs, 0nat,
{
    lemma_empty_forest_ordered();
    if cs.len() > 0 {
        lemma_py_list_ordered(cs.drop_last(), lm, ctx, depth);
        lemma_py_entity_ordered(cs.last(), lm, ctx, depth);
        if let Some(e) = py_entity(cs.last(), lm, ctx, depth) {
            lemma_subtrees_push(py_list(cs.drop_last(), lm, ctx, depth), e);
        }
    }
}

proof fn lemma_py_collect_ordered(n: SyntaxNode, lm: Seq<usize>, ctx: Context, depth: nat)
    ensures
        forest_ordered(py_collect(n, lm, ctx, depth)),
    decreases n, 1nat,
{
    lemma_empty_forest_ordered();
    if depth < 64 {
        lemma_py_list_ordered(n.children@, lm, ctx, depth);
        lemma_sorted_forest(py_list(n.children@, lm, ctx, depth));
    }
}

/// The entities of a Python module are in name order at every level.
pub proof fn lemma_py_entities_ordered(root: SyntaxNode, lm: Seq<usize>)
    ensures
        forest_ordered(py_entities(root, lm)),
{
    lemma_py_collect_ordered(root, lm, Context::TopLevel, 0);
}


proof fn lemma_py_body_counted(n: SyntaxNode, lm: Seq<usize>, ctx: Context, depth: nat)
    ensures
        forest_counted(py_body(n, lm, ctx, depth), lm),
    decreases n, 3nat,
{
    lemma_counted_basics(lm);
    lemma_found_child_below(n, "body"@);
    if let Some(b) = child_by_field(n, "body"@) {
        lemma_py_collect_counted(b, lm, ctx, depth + 1);
    }
}

proof fn lemma_py_entity_counted(n: SyntaxNode, lm: Seq<usize>, ctx: Context, depth: nat)
    ensures
        py_entity(n, lm, ctx, depth) matches Some(e) ==> loc_counted(e, lm) && forest_counted(e.children, lm),
    decreases n, 4nat,
{
    lemma_counted_basics(lm);
    lemma_py_body_counted(n, lm, Context::TypeBody, depth);
    if kind_is(n, "decorated_definition"@) {
        lemma_found_child_below(n, "definition"@);
        if let Some(d) = child_by_field(n, "definition"@) {
            lemma_py_entity_counted(d, lm, ctx, depth);
        }
    }
}

proof fn lemma_py_list_counted(cs: Seq<SyntaxNode>, lm: Seq<usize>, ctx: Context, depth: nat)
    ensures
        forest_counted(py_list(cs, lm, ctx, depth), lm),
    decreases cs, 0nat,
{
    lemma_counted_basics(lm);
    if cs.len() > 0 {
        lemma_py_list_counted(cs.drop_last(), lm, ctx, depth);
        lemma_py_entity_counted(cs.last(), lm, ctx, depth);
        if let Some(e) = py_entity(cs.last(), lm, ctx, depth) {
            lemma_counted_push(py_list(cs.drop_last(), lm, ctx, depth), e, lm);
        }
    }
}

proof fn lemma_py_collect_counted(n: SyntaxNode, lm: Seq<usize>, ctx: Context, depth: nat)
    ensures
        forest_counted(py_collect(n, lm, ctx, depth), lm),
    decreases n, 1nat,
{
    lemma_counted_basics(lm);
    if depth < 64 {
        lemma_py_list_counted(n.children@, lm, ctx, depth);
        lemma_sorted_counted(py_list(n.children@, lm, ctx, depth), lm);
    }
}

/// Every entity of a Python module has its lines counted over its own range.
pub proof fn lemma_py_entities_counted(root: SyntaxNode, lm: Seq<usize>)
    ensures
        forest_counted(py_entities(root, lm), lm),
{
    lemma_py_collect_counted(root, lm, Context::TopLevel, 0);
}

fn py_body_of(n: &SyntaxNode, lm: &LocMap, ctx: Context, depth: usize) -> (r: Vec<Entity>)
    requires
        lm.wf(),
        depth < 64,
    ensures
        view_entities(r@) == py_body(*n, lm@, ctx, depth as nat),
    decreases n, 3nat,
{
    proof {
        lemma_found_child_below(*n, "body"@);
    }
    match n.child_by_field("body") {
        Some(b) => py_collect_of(b, lm, ctx, depth + 1),
        None => Vec::new(),
    }
}

fn py_entity_of(n: &SyntaxNode, lm: &LocMap, ctx: Context, depth: usize) -> (r: Option<Entity>)
    requires
        lm.wf(),
        depth < 64,
    ensures
        view_entity_opt(r) == py_entity(*n, lm@, ctx, depth as nat),
    decreases n, 4nat,
{
    if n.is_kind("function_definition") || n.is_kind("async_function_definition") {
        match n.name_field() {
            Some(name) => {
                let et = if ctx == Context::TypeBody {
                    EntityType::Method
                } else {
                    EntityType::Function
                };
                Some(leaf_entity(n, name, et, lm))
            },
            None => None,
        }
    } else if n.is_kind("class_definition") {
        match n.name_field() {
            Some(name) => {
                let children = py_body_of(n, lm, Context::TypeBody, depth);
                Some(container_entity(n, name, EntityType::Class, lm, children))
            },
            None => None,
        }
    } else if n.is_kind("decorated_definition") {
        proof {
            lemma_found_child_below(*n, "definition"@);
        }
        match n.child_by_field("definition") {
            Some(d) => py_entity_of(d, lm, ctx, depth),
            None => None,
        }
    } else {
        None
    }
}

fn py_collect_of(n: &SyntaxNode, lm: &LocMap, ctx: Context, depth: usize) -> (r: Vec<Entity>)
    requires
        lm.wf(),
        depth <= 64,
    ensures
        view_entities(r@) == py_collect(*n, lm@, ctx, depth as nat),
    decreases n, 1nat,
{
    if depth >= 64 {
        return Vec::new();
    }
    let mut out: Vec<Entity> = Vec::new();
    let mut i: usize = 0;
    while i < n.children.len()
        invariant
            lm.wf(),
            depth < 64,
            i <= n.children@.len(),
            view_entities(out@) == py_list(n.children@.take(i as int), lm@, ctx, depth as nat),
        decreases n.children.len() - i,
    {
        proof {
            let t = n.children@.take(i + 1);
            assert(t.drop_last() =~= n.children@.take(i as int));
            assert(t.last() == n.children@[i as int]);
            lemma_child_below(*n, i as int);
        }
        match py_entity_of(&n.children[i], lm, ctx, depth) {
            Some(e) => {
                proof {
                    lemma_view_entities_push(out@, e);
                }
                out.push(e);
            },
            None => {},
        }
        i += 1;
    }
    assert(n.children@.take(n.children@.len() as int) =~= n.children@);
    sort_entities(out)
}

/// The entities of a Python module, each level sorted by name.
pub fn py_entities_of(root: &SyntaxNode, lm: &LocMap) -> (r: Vec<Entity>)
    requires
        lm.wf(),
    ensures
        view_entities(r@) == py_entities(*root, lm@),
{
    py_collect_of(root, lm, Context::TopLevel, 0)
}

// ── Imports ──────────────────────────────────────────────────────────────────

/// The prefix of a relative module.
pub open spec fn py_relative() -> Seq<Seq<char>> {
    seq!["."@]
}

/// The modules named by the comma-separated segments of `import a, b as c`.
pub open spec fn py_names(segs: Seq<Seq<char>>) -> Seq<(Seq<char>, DependencyKind)>
    decreases segs.len(),
{
    if segs.len() == 0 {
        Seq::empty()
    } else {
        let rest = py_names(segs.drop_last());
        let name = trim(before_first(segs.last(), " as "@));
        if name.len() > 0 {
            rest.push((name, DependencyKind::External))
        } else {
            rest
        }
    }
}

/// The dependencies one import statement names: the module of
/// `from M import ...` (internal when relative), or each module of
/// `import A, B as C` (external).
pub open spec fn py_import(raw: Seq<char>) -> Seq<(Seq<char>, DependencyKind)> {
    if starts_with(raw, "from "@) {
        let module = trim(before_first(raw.subrange(5, raw.len() as int), " import "@));
        if module.len() == 0 {
            Seq::empty()
        } else {
            seq![classified(module, py_relative())]
        }
    } else if starts_with(raw, "import "@) {
        py_names(split_on(raw.subrange(7, raw.len() as int), ","@))
    } else {
        Seq::empty()
    }
}

/// The dependencies of a list of import statements, in order.
pub open spec fn py_resolved(imports: Seq<Seq<char>>) -> Seq<(Seq<char>, DependencyKind)>
    decreases imports.len(),
{
    if imports.len() == 0 {
        Seq::empty()
    } else {
        py_resolved(imports.drop_last()) + py_import(trim(imports.last()))
    }
}

/// The dependencies one import statement names.
pub fn parse_import(raw: &str) -> (r: Vec<Dependency>)
    ensures
        view_dependencies(r@) == py_import(raw@),
{
    let cs = chars_of(raw);
    proof {
        reveal_strlit("from ");
        reveal_strlit("import ");
        reveal_strlit(",");
    }
    let mut out: Vec<Dependency> = Vec::new();
    if has_prefix(&cs, &chars_of("from ")) {
        let rest = slice_range(&cs, 5, cs.len());
        let module = trimmed(&before_first_exec(&rest, &chars_of(" import ")));
        if module.len() > 0 {
            let prefixes = vec!["."];
            assert(prefixes@.map_values(|p: &str| p@) =~= py_relative());
            out.push(classify_path(string_from_chars(&module), &prefixes));
            assert(view_dependencies(out@) =~= py_import(raw@));
        } else {
            assert(view_dependencies(out@) =~= py_import(raw@));
        }
        out
    } else if has_prefix(&cs, &chars_of("import ")) {
        let rest = slice_range(&cs, 7, cs.len());
        let comma = chars_of(",");
        let segs = split_on_exec(&rest, &comma);
        let ghost ss = split_on(rest@, ","@);
        let mut i: usize = 0;
        while i < segs.len()
            invariant
                i <= segs@.len(),
                segs@.len() == ss.len(),
                forall|k: int| 0 <= k < segs@.len() ==> (#[trigger] segs@[k])@ == ss[k],
                view_dependencies(out@) == py_names(ss.take(i as int)),
            decreases segs.len() - i,
        {
            proof {
                assert(ss.take(i + 1).drop_last() =~= ss.take(i as int));
                assert(ss.take(i + 1).last() == segs@[i as int]@);
            }
            let name = trimmed(&before_first_exec(segs[i].as_slice(), &chars_of(" as ")));
            if name.len() > 0 {
                out.push(Dependency { name: string_from_chars(&name), kind: DependencyKind::External });
                assert(view_dependencies(out@) =~= py_names(ss.take(i + 1)));
            }
            i += 1;
        }
        assert(ss.take(ss.len() as int) =~= ss);
        out
    } else {
        assert(view_dependencies(out@) =~= py_import(raw@));
        out
    }
}

/// Resolves Python import statements, each trimmed first.
pub fn resolve_imports(imports: &Vec<String>, _project_files: &Vec<String>) -> (r: Vec<Dependency>)
    ensures
        view_dependencies(r@) == py_resolved(view_strings(imports@)),
{
    let ghost is = view_strings(imports@);
    let mut out: Vec<Dependency> = Vec::new();
    let mut i: usize = 0;
    while i < imports.len()
        invariant
            i <= imports@.len(),
            is == view_strings(imports@),
            view_dependencies(out@) == py_resolved(is.take(i as int)),
        decreases imports.len() - i,
    {
        proof {
            assert(is.take(i + 1).drop_last() =~= is.take(i as int));
            assert(is.take(i + 1).last() == imports@[i as int]@);
        }
        let t = string_from_chars(&trimmed(&chars_of(imports[i].as_str())));
        let ds = parse_import(t.as_str());
        let ghost before = view_dependencies(out@);
        let mut j: usize = 0;
        while j < ds.len()
            invariant
                j <= ds@.len(),
                view_dependencies(out@) == before + view_dependencies(ds@).take(j as int),
            decreases ds.len() - j,
        {
            let d = ds[j].clone();
            assert(d@ == ds@[j as int]@);
            let ghost prev = out@;
            out.push(d);
            assert(view_dependencies(out@) =~= view_dependencies(prev).push(d@));
            assert(view_dependencies(ds@).take(j + 1) =~= view_dependencies(ds@).take(j as int).push(d@));
            assert(view_dependencies(out@) =~= before + view_dependencies(ds@).take(j + 1));
            j += 1;
        }
        assert(view_dependencies(ds@).take(ds@.len() as int) =~= view_dependencies(ds@));
        assert(view_dependencies(out@) =~= py_resolved(is.take(i + 1)));
        i += 1;
    }
    assert(is.take(is.len() as int) =~= is);
    out
}

} // verus!
