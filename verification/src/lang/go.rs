//! Go: functions, methods, struct types and interfaces with their method
//! sets; import paths and their resolution.
use vstd::prelude::*;

use crate::lang::loc::LocMap;
use crate::lang::syntax::{child_of_kinds, kind_is, name_field, SyntaxNode};
use crate::lang::{
    classified, classify_path, container_entity, container_view, first_quoted, first_quoted_of,
    forest_ordered, leaf_entity, leaf_view, forest_counted, lemma_counted_basics, lemma_counted_push, lemma_sorted_counted, loc_counted,
    lemma_empty_forest_ordered, lemma_sorted_forest,
    lemma_subtrees_push, sort_by_name, sort_entities, subtrees_ordered,
};
use crate::model::{
    lemma_view_entities_push, view_dependencies, view_entities, view_entity_opt, view_strings,
    Dependency, Entity, EntityType, EntityView,
};
use crate::text::{chars_of, has_prefix, lines, lines_of, seq_eq, slice_range, starts_with, trim, trimmed};

verus! {

// ── Entities ─────────────────────────────────────────────────────────────────

/// The methods an interface's elements declare, in order.
pub open spec fn go_method_elems(cs: Seq<SyntaxNode>, lm: Seq<usize>) -> Seq<EntityView>
    decreases cs.len(),
{
    if cs.len() == 0 {
        Seq::empty()
    } else {
        let rest = go_method_elems(cs.drop_last(), lm);
        let c = cs.last();
        if kind_is(c, "method_elem"@) && name_field(c) is Some {
            rest.push(leaf_view(c, name_field(c)->0, EntityType::Method, lm))
        } else {
            rest
        }
    }
}

/// The type kinds a `type_spec` is read through.
pub open spec fn go_type_kinds() -> Seq<Seq<char>> {
    seq!["struct_type"@, "interface_type"@]
}

/// What a `type_spec` named `name` declares: a struct, or an interface with
/// its methods sorted by name; nothing for other types (such as aliases).
pub open spec fn go_type_body(spec: SyntaxNode, name: Seq<char>, lm: Seq<usize>) -> Option<EntityView> {
    match child_of_kinds(spec, go_type_kinds()) {
        Some(c) => if kind_is(c, "struct_type"@) {
            Some(leaf_view(spec, name, EntityType::Struct, lm))
        } else {
            Some(container_view(spec, name, EntityType::Trait, lm, sort_by_name(go_method_elems(c.children@, lm))))
        },
        None => None,
    }
}

/// The first type a `type_declaration` declares, reading its `type_spec`
/// children from index `i`; an unnamed spec ends the search.
pub open spec fn go_type_decl_from(cs: Seq<SyntaxNode>, lm: Seq<usize>, i: int) -> Option<EntityView>
    decreases cs.len() - i,
{
    if i < 0 || i >= cs.len() {
        None
    } else if kind_is(cs[i], "type_spec"@) {
        match name_field(cs[i]) {
            Some(name) => match go_type_body(cs[i], name, lm) {
                Some(e) => Some(e),
                None => go_type_decl_from(cs, lm, i + 1),
            },
            None => None,
        }
    } else {
        go_type_decl_from(cs, lm, i + 1)
    }
}

/// The entity a top-level Go declaration declares, if any.
pub open spec fn go_entity(n: SyntaxNode, lm: Seq<usize>) -> Option<EntityView> {
    if kind_is(n, "function_declaration"@) {
        match name_field(n) {
            Some(name) => Some(leaf_view(n, name, EntityType::Function, lm)),
            None => None,
        }
    } else if kind_is(n, "method_declaration"@) {
        match name_field(n) {
            Some(name) => Some(leaf_view(n, name, EntityType::Method, lm)),
            None => None,
        }
    } else if kind_is(n, "type_declaration"@) {
        go_type_decl_from(n.children@, lm, 0)
    } else {
        None
    }
}

/// The entities declared by sibling nodes, in order.
pub open spec fn go_list(cs: Seq<SyntaxNode>, lm: Seq<usize>) -> Seq<EntityView>
    decreases cs.len(),
{
    if cs.len() == 0 {
        Seq::empty()
    } else {
        let rest = go_list(cs.drop_last(), lm);
        match go_entity(cs.last(), lm) {
            Some(e) => rest.push(e),
            None => rest,
        }
    }
}

/// The entities of a Go source file, sorted by name.
pub open spec fn go_entities(root: SyntaxNode, lm: Seq<usize>) -> Seq<EntityView> {
    sort_by_name(go_list(root.children@, lm))
}

proof fn lemma_go_methods_leaves(cs: Seq<SyntaxNode>, lm: Seq<usize>)
    ensures
        subtrees_ordered(go_method_elems(cs, lm)),
    decreases cs.len(),
{
    lemma_empty_forest_ordered();
    if cs.len() > 0 {
        lemma_go_methods_leaves(cs.drop_last(), lm);
        let c = cs.last();
        if kind_is(c, "method_elem"@) && name_field(c) is Some {
            let e = leaf_view(c, name_field(c)->0, EntityType::Method, lm);
            assert(e.children =~= Seq::<EntityView>::empty());
            lemma_subtrees_push(go_method_elems(cs.drop_last(), lm), e);
        }
    }
}

proof fn lemma_go_decl_ordered(cs: Seq<SyntaxNode>, lm: Seq<usize>, i: int)
    ensures
        go_type_decl_from(cs, lm, i) matches Some(e) ==> forest_ordered(e.children),
    decreases cs.len() - i,
{
    lemma_empty_forest_ordered();
    if 0 <= i < cs.len() {
        lemma_go_decl_ordered(cs, lm, i + 1);
        if let Some(name) = name_field(cs[i]) {
            if let Some(c) = child_of_kinds(cs[i], go_type_kinds()) {
                lemma_go_methods_leaves(c.children@, lm);
                lemma_sorted_forest(go_method_elems(c.children@, lm));
            }
        }
    }
}

proof fn lemma_go_list_ordered(cs: Seq<SyntaxNode>, lm: Seq<usize>)
    ensures
        subtrees_ordered(go_list(cs, lm)),
    decreases cs.len(),
{
    lemma_empty_forest_ordered();
    if cs.len() > 0 {
        lemma_go_list_ordered(cs.drop_last(), lm);
        lemma_go_decl_ordered(cs.last().children@, lm, 0);
        if let Some(e) = go_entity(cs.last(), lm) {
            lemma_subtrees_push(go_list(cs.drop_last(), lm), e);
        }
    }
}

proof fn lemma_go_methods_counted(cs: Seq<SyntaxNode>, lm: Seq<usize>)
    ensures
        forest_counted(go_method_elems(cs, lm), lm),
    decreases cs.len(),
{
    lemma_counted_basics(lm);
    if cs.len() > 0 {
        lemma_go_methods_counted(cs.drop_last(), lm);
        let c = cs.last();
        if kind_is(c, "method_elem"@) && name_field(c) is Some {
            let e = leaf_view(c, name_field(c)->0, EntityType::Method, lm);
            assert(e.children =~= Seq::<EntityView>::empty());
            lemma_counted_push(go_method_elems(cs.drop_last(), lm), e, lm);
        }
    }
}

proof fn lemma_go_decl_counted(cs: Seq<SyntaxNode>, lm: Seq<usize>, i: int)
    ensures
        go_type_decl_from(cs, lm, i) matches Some(e) ==> loc_counted(e, lm) && forest_counted(e.children, lm),
    decreases cs.len() - i,
{
    lemma_counted_basics(lm);
    if 0 <= i < cs.len() {
        lemma_go_decl_counted(cs, lm, i + 1);
        if let Some(name) = name_field(cs[i]) {
            if let Some(c) = child_of_kinds(cs[i], go_type_kinds()) {
                lemma_go_methods_counted(c.children@, lm);
                lemma_sorted_counted(go_method_elems(c.children@, lm), lm);
            }
        }
    }
}

proof fn lemma_go_list_counted(cs: Seq<SyntaxNode>, lm: Seq<usize>)
    ensures
        forest_counted(go_list(cs, lm), lm),
    decreases cs.len(),
{
    lemma_counted_basics(lm);
    if cs.len() > 0 {
        lemma_go_list_counted(cs.drop_last(), lm);
        lemma_go_decl_counted(cs.last().children@, lm, 0);
        if let Some(e) = go_entity(cs.last(), lm) {
            lemma_counted_push(go_list(cs.drop_last(), lm), e, lm);
        }
    }
}

/// Every entity of a Go source file has its lines counted over its own range.
pub proof fn lemma_go_entities_counted(root: SyntaxNode, lm: Seq<usize>)
    ensures
        forest_counted(go_entities(root, lm), lm),
{
    lemma_go_list_counted(root.children@, lm);
    lemma_sorted_counted(go_list(root.children@, lm), lm);
}

/// The entities of a Go source file are in name order at every level.
pub proof fn lemma_go_entities_ordered(root: SyntaxNode, lm: Seq<usize>)
    ensures
        forest_ordered(go_entities(root, lm)),
{
    lemma_go_list_ordered(root.children@, lm);
    lemma_sorted_forest(go_list(root.children@, lm));
}

fn go_interface_methods(c: &SyntaxNode, lm: &LocMap) -> (r: Vec<Entity>)
    requires
        lm.wf(),
    ensures
        view_entities(r@) == sort_by_name(go_method_elems(c.children@, lm@)),
{
    let mut out: Vec<Entity> = Vec::new();
    let mut i: usize = 0;
    while i < c.children.len()
        invariant
            lm.wf(),
            i <= c.children@.len(),
            view_entities(out@) == go_method_elems(c.children@.take(i as int), lm@),
        decreases c.children.len() - i,
    {
        let m = &c.children[i];
        proof {
            let t = c.children@.take(i + 1);
            assert(t.drop_last() =~= c.children@.take(i as int));
            assert(t.last() == *m);
        }
        if m.is_kind("method_elem") {
            match m.name_field() {
                Some(name) => {
                    let e = leaf_entity(m, name, EntityType::Method, lm);
                    proof {
                        lemma_view_entities_push(out@, e);
                    }
                    out.push(e);
                },
                None => {},
            }
        }
        i += 1;
    }
    assert(c.children@.take(c.children@.len() as int) =~= c.children@);
    sort_entities(out)
}

/// What a `type_spec` named `name` declares.
pub fn parse_type_body(spec: &SyntaxNode, name: String, lm: &LocMap) -> (r: Option<Entity>)
    requires
        lm.wf(),
    ensures
        view_entity_opt(r) == go_type_body(*spec, name@, lm@),
{
    let ks = vec!["struct_type", "interface_type"];
    assert(ks@.map_values(|k: &str| k@) =~= go_type_kinds());
    match spec.child_of_kinds(&ks) {
        Some(c) => if c.is_kind("struct_type") {
            Some(leaf_entity(spec, name, EntityType::Struct, lm))
        } else {
            let methods = go_interface_methods(c, lm);
            Some(container_entity(spec, name, EntityType::Trait, lm, methods))
        },
        None => None,
    }
}

/// The first type a `type_declaration` declares.
pub fn parse_type_declaration(n: &SyntaxNode, lm: &LocMap) -> (r: Option<Entity>)
    requires
        lm.wf(),
    ensures
        view_entity_opt(r) == go_type_decl_from(n.children@, lm@, 0),
{
    let mut i: usize = 0;
    while i < n.children.len()
        invariant
            lm.wf(),
            i <= n.children@.len(),
            go_type_decl_from(n.children@, lm@, 0) == go_type_decl_from(n.children@, lm@, i as int),
        decreases n.children.len() - i,
    {
        let c = &n.children[i];
        if c.is_kind("type_spec") {
            match c.name_field() {
                Some(name) => match parse_type_body(c, name, lm) {
                    Some(e) => return Some(e),
                    None => {},
                },
                None => return None,
            }
        }
        i += 1;
    }
    None
}

fn go_entity_of(n: &SyntaxNode, lm: &LocMap) -> (r: Option<Entity>)
    requires
        lm.wf(),
    ensures
        view_entity_opt(r) == go_entity(*n, lm@),
{
    if n.is_kind("function_declaration") {
        match n.name_field() {
            Some(name) => Some(leaf_entity(n, name, EntityType::Function, lm)),
            None => None,
        }
    } else if n.is_kind("method_declaration") {
        match n.name_field() {
            Some(name) => Some(leaf_entity(n, name, EntityType::Method, lm)),
            None => None,
        }
    } else if n.is_kind("type_declaration") {
        parse_type_declaration(n, lm)
    } else {
        None
    }
}

/// The entities of a Go source file, sorted by name.
pub fn go_entities_of(root: &SyntaxNode, lm: &LocMap) -> (r: Vec<Entity>)
    requires
        lm.wf(),
    ensures
        view_entities(r@) == go_entities(*root, lm@),
{
    let mut out: Vec<Entity> = Vec::new();
    let mut i: usize = 0;
    while i < root.children.len()
        invariant
            lm.wf(),
            i <= root.children@.len(),
            view_entities(out@) == go_list(root.children@.take(i as int), lm@),
        decreases root.children.len() - i,
    {
        proof {
            let t = root.children@.take(i + 1);
            assert(t.drop_last() =~= root.children@.take(i as int));
            assert(t.last() == root.children@[i as int]);
        }
        match go_entity_of(&root.children[i], lm) {
            Some(e) => {
                proof {
                    lemma_view_entities_push(out@, e);
                }
                out.push(e);
            },
            None => {},
        }
        i += 1;
    }
    assert(root.children@.take(root.children@.len() as int) =~= root.children@);
    sort_entities(out)
}

// ── Imports ──────────────────────────────────────────────────────────────────

/// The import path one line of an import declaration names: after
/// `import `, unless a `(` opens a block; or the quoted token of any other
/// line but a lone `)`.
pub open spec fn go_line_path(line: Seq<char>) -> Option<Seq<char>> {
    let t = trim(line);
    if starts_with(t, "import "@) {
        let rest = trim(t.subrange(7, t.len() as int));
        if starts_with(rest, "("@) {
            None
        } else {
            first_quoted(rest)
        }
    } else if t.len() > 0 && t != ")"@ {
        first_quoted(t)
    } else {
        None
    }
}

/// The import paths of some lines, in order.
pub open spec fn go_paths_in(ls: Seq<Seq<char>>) -> Seq<Seq<char>>
    decreases ls.len(),
{
    if ls.len() == 0 {
        Seq::empty()
    } else {
        let rest = go_paths_in(ls.drop_last());
        match go_line_path(ls.last()) {
            Some(p) => rest.push(p),
            None => rest,
        }
    }
}

/// The import paths an import declaration names, line by line.
pub open spec fn go_paths(raw: Seq<char>) -> Seq<Seq<char>> {
    go_paths_in(lines(raw))
}

/// The prefixes of a relative Go import path.
pub open spec fn go_relative() -> Seq<Seq<char>> {
    seq!["./"@, "../"@]
}

/// The dependencies of a list of Go import declarations, in order.
pub open spec fn go_resolved(imports: Seq<Seq<char>>) -> Seq<(Seq<char>, crate::model::DependencyKind)>
    decreases imports.len(),
{
    if imports.len() == 0 {
        Seq::empty()
    } else {
        go_resolved(imports.drop_last()) + go_paths(imports.last()).map_values(
            |p: Seq<char>| classified(p, go_relative()),
        )
    }
}

/// The first quoted token of `s`, trimmed.
pub fn extract_quoted(s: &str) -> (r: Option<String>)
    ensures
        r matches Some(v) ==> first_quoted(trim(s@)) == Some(v@),
        r is None ==> first_quoted(trim(s@)) is None,
{
    let t = trimmed(&chars_of(s));
    first_quoted_of(&t)
}

fn go_line_path_of(line: &[char]) -> (r: Option<String>)
    ensures
        r matches Some(v) ==> go_line_path(line@) == Some(v@),
        r is None ==> go_line_path(line@) is None,
{
    let t = trimmed(line);
    proof {
        reveal_strlit("import ");
    }
    if has_prefix(&t, &chars_of("import ")) {
        let rest = trimmed(&slice_range(&t, 7, t.len()));
        if has_prefix(&rest, &chars_of("(")) {
            None
        } else {
            first_quoted_of(&rest)
        }
    } else if t.len() > 0 && !seq_eq(&t, &chars_of(")")) {
        first_quoted_of(&t)
    } else {
        None
    }
}

/// The import paths an import declaration names, one per line: a single
/// `import "path"`, or the quoted lines of an `import ( ... )` block.
pub fn extract_paths(raw: &str) -> (r: Vec<String>)
    ensures
        view_strings(r@) == go_paths(raw@),
{
    let ls = lines_of(&chars_of(raw));
    let ghost sl = lines(raw@);
    let mut out: Vec<String> = Vec::new();
    let mut i: usize = 0;
    while i < ls.len()
        invariant
            i <= ls@.len(),
            sl == lines(raw@),
            ls@.len() == sl.len(),
            forall|k: int| 0 <= k < ls@.len() ==> (#[trigger] ls@[k])@ == sl[k],
            view_strings(out@) == go_paths_in(sl.take(i as int)),
        decreases ls.len() - i,
    {
        proof {
            assert(sl.take(i + 1).drop_last() =~= sl.take(i as int));
            assert(sl.take(i + 1).last() == ls@[i as int]@);
        }
        match go_line_path_of(ls[i].as_slice()) {
            Some(p) => {
                out.push(p);
                assert(view_strings(out@) =~= go_paths_in(sl.take(i + 1)));
            },
            None => {},
        }
        i += 1;
    }
    assert(sl.take(sl.len() as int) =~= sl);
    out
}

/// Resolves Go import declarations: every path they name, internal when it
/// begins with `./` or `../`.
pub fn resolve_imports(imports: &Vec<String>, _project_files: &Vec<String>) -> (r: Vec<Dependency>)
    ensures
        view_dependencies(r@) == go_resolved(view_strings(imports@)),
{
    let ghost is = view_strings(imports@);
    let prefixes = vec!["./", "../"];
    assert(prefixes@.map_values(|p: &str| p@) =~= go_relative());
    let mut out: Vec<Dependency> = Vec::new();
    let mut i: usize = 0;
    while i < imports.len()
        invariant
            i <= imports@.len(),
            is == view_strings(imports@),
            prefixes@.map_values(|p: &str| p@) == go_relative(),
            view_dependencies(out@) == go_resolved(is.take(i as int)),
        decreases imports.len() - i,
    {
        proof {
            assert(is.take(i + 1).drop_last() =~= is.take(i as int));
            assert(is.take(i + 1).last() == imports@[i as int]@);
        }
        let paths = extract_paths(imports[i].as_str());
        let ghost ps = view_strings(paths@);
        let ghost before = view_dependencies(out@);
        let ghost f = |p: Seq<char>| classified(p, go_relative());
        let mut j: usize = 0;
        while j < paths.len()
            invariant
                j <= paths@.len(),
                ps == view_strings(paths@),
                f == (|p: Seq<char>| classified(p, go_relative())),
                prefixes@.map_values(|p: &str| p@) == go_relative(),
                view_dependencies(out@) == before + ps.take(j as int).map_values(f),
            decreases paths.len() - j,
        {
            let d = classify_path(paths[j].clone(), &prefixes);
            let ghost prev = out@;
            out.push(d);
            proof {
                assert(ps[j as int] == paths@[j as int]@);
                assert(ps.take(j + 1).map_values(f) =~= ps.take(j as int).map_values(f).push(f(ps[j as int])));
                assert(view_dependencies(out@) =~= view_dependencies(prev).push(d@));
            }
            j += 1;
        }
        let ghost total = ps.len();
        proof {
            assert(ps.take(total as int) =~= ps);
            assert(view_dependencies(out@) =~= go_resolved(is.take(i + 1)));
        }
        i += 1;
    }
    assert(is.take(is.len() as int) =~= is);
    out
}

} // verus!
