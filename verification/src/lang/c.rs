//! C: functions, named structs and named enums (also where a declaration or
//! a `typedef` wraps them), and `#include` resolution.
use vstd::prelude::*;

use crate::lang::c_family::{declarator_name, declarator_name_of, includes_resolved, resolve_includes};
use crate::lang::loc::LocMap;
use crate::lang::syntax::{
    child_by_field, child_of_kinds, kind_is, lemma_first_of_kinds, lemma_found_child_below, lemma_kinds_child_below,
    name_field, SyntaxNode,
};
use crate::lang::{
    forest_ordered, leaf_entity, leaf_view, forest_counted, lemma_counted_basics, lemma_counted_push, lemma_sorted_counted, loc_counted,
    lemma_empty_forest_ordered, lemma_sorted_forest, lemma_subtrees_push,
    sort_by_name, sort_entities, subtrees_ordered,
};
use crate::model::{
    lemma_view_entities_push, view_dependencies, view_entities, view_entity_opt, view_strings,
    Dependency, Entity, EntityType, EntityView,
};

verus! {

/// The specifiers a declaration or a `typedef` is read through.
pub open spec fn c_wrapped_kinds() -> Seq<Seq<char>> {
    seq!["struct_specifier"@, "enum_specifier"@]
}

/// The entity a C node declares, if any.
pub open spec fn c_entity(n: SyntaxNode, lm: Seq<usize>) -> Option<EntityView>
    decreases n,
{
    if kind_is(n, "function_definition"@) {
        match child_by_field(n, "declarator"@) {
            Some(d) => match declarator_name(d) {
                Some(name) => Some(leaf_view(n, name, EntityType::Function, lm)),
                None => None,
            },
            None => None,
        }
    } else if kind_is(n, "struct_specifier"@) {
        match name_field(n) {
            Some(name) => Some(leaf_view(n, name, EntityType::Struct, lm)),
            None => None,
        }
    } else if kind_is(n, "enum_specifier"@) {
        match name_field(n) {
            Some(name) => Some(leaf_view(n, name, EntityType::Enum, lm)),
            None => None,
        }
    } else if kind_is(n, "declaration"@) || kind_is(n, "type_definition"@) {
        match child_of_kinds(n, c_wrapped_kinds()) {
            Some(c) => {
                proof {
                    lemma_kinds_child_below(n, c_wrapped_kinds());
                }
                c_entity(c, lm)
            },
            None => None,
        }
    } else {
        None
    }
}

/// A C `typedef` (or a declaration) whose first struct or enum specifier
/// child is `c` declares exactly what `c` declares on its own; so
/// `typedef struct Point {...} Point;` gives the struct `Point`.
pub proof fn lemma_c_typedef_unwrapped(n: SyntaxNode, i: int, lm: Seq<usize>)
    requires
        n.kind@ == "type_definition"@ || n.kind@ == "declaration"@,
        0 <= i < n.children@.len(),
        n.children@[i].kind@ == "struct_specifier"@ || n.children@[i].kind@ == "enum_specifier"@,
        forall|j: int|
            0 <= j < i ==> #[trigger] n.children@[j].kind@ != "struct_specifier"@ && n.children@[j].kind@
                != "enum_specifier"@,
    ensures
        c_entity(n, lm) == c_entity(n.children@[i], lm),
        n.children@[i].kind@ == "struct_specifier"@ && name_field(n.children@[i]) is Some ==> (c_entity(n, lm) matches Some(
            e,
        ) && e.name == name_field(n.children@[i])->0 && e.entity_type == EntityType::Struct),
        n.children@[i].kind@ == "enum_specifier"@ && name_field(n.children@[i]) is Some ==> (c_entity(n, lm) matches Some(
            e,
        ) && e.name == name_field(n.children@[i])->0 && e.entity_type == EntityType::Enum),
{
    reveal_strlit("struct_specifier");
    reveal_strlit("enum_specifier");
    reveal_strlit("type_definition");
    reveal_strlit("declaration");
    reveal_strlit("function_definition");
    let ks = c_wrapped_kinds();
    assert forall|j: int| 0 <= j < i implies !ks.contains(#[trigger] n.children@[j].kind@) by {
        if ks.contains(n.children@[j].kind@) {
            let m = choose|m: int| 0 <= m < ks.len() && ks[m] == n.children@[j].kind@;
            assert(m == 0 || m == 1);
        }
    }
    assert(ks.contains(n.children@[i].kind@)) by {
        if n.children@[i].kind@ == "struct_specifier"@ {
            assert(ks[0] == n.children@[i].kind@);
        } else {
            assert(ks[1] == n.children@[i].kind@);
        }
    }
    lemma_first_of_kinds(n, ks, i);
    assert("type_definition"@.len() == 15 && "declaration"@.len() == 11 && "function_definition"@.len() == 19);
    assert("struct_specifier"@.len() == 16 && "enum_specifier"@.len() == 14);
}

/// The entities declared by sibling nodes, in order.
pub open spec fn c_entities_in(cs: Seq<SyntaxNode>, lm: Seq<usize>) -> Seq<EntityView>
    decreases cs.len(),
{
    if cs.len() == 0 {
        Seq::empty()
    } else {
        let rest = c_entities_in(cs.drop_last(), lm);
        match c_entity(cs.last(), lm) {
            Some(e) => rest.push(e),
            None => rest,
        }
    }
}

/// The entities of a C source file, sorted by name.
pub open spec fn c_entities(root: SyntaxNode, lm: Seq<usize>) -> Seq<EntityView> {
    sort_by_name(c_entities_in(root.children@, lm))
}

proof fn lemma_c_entity_leaf(n: SyntaxNode, lm: Seq<usize>)
    ensures
        c_entity(n, lm) matches Some(e) ==> e.children.len() == 0,
    decreases n,
{
    lemma_kinds_child_below(n, c_wrapped_kinds());
    if let Some(c) = child_of_kinds(n, c_wrapped_kinds()) {
        lemma_c_entity_leaf(c, lm);
    }
}

proof fn lemma_c_list_ordered(cs: Seq<SyntaxNode>, lm: Seq<usize>)
    ensures
        subtrees_ordered(c_entities_in(cs, lm)),
    decreases cs.len(),
{
    lemma_empty_forest_ordered();
    if cs.len() > 0 {
        lemma_c_list_ordered(cs.drop_last(), lm);
        lemma_c_entity_leaf(cs.last(), lm);
        if let Some(e) = c_entity(cs.last(), lm) {
            assert(e.children =~= Seq::<EntityView>::empty());
            lemma_subtrees_push(c_entities_in(cs.drop_last(), lm), e);
        }
    }
}

proof fn lemma_c_entity_counted(n: SyntaxNode, lm: Seq<usize>)
    ensures
        c_entity(n, lm) matches Some(e) ==> loc_counted(e, lm) && e.children.len() == 0,
    decreases n,
{
    lemma_counted_basics(lm);
    lemma_kinds_child_below(n, c_wrapped_kinds());
    if let Some(c) = child_of_kinds(n, c_wrapped_kinds()) {
        lemma_c_entity_counted(c, lm);
    }
}

proof fn lemma_c_list_counted(cs: Seq<SyntaxNode>, lm: Seq<usize>)
    ensures
        forest_counted(c_entities_in(cs, lm), lm),
    decreases cs.len(),
{
    lemma_counted_basics(lm);
    if cs.len() > 0 {
        lemma_c_list_counted(cs.drop_last(), lm);
        lemma_c_entity_counted(cs.last(), lm);
        if let Some(e) = c_entity(cs.last(), lm) {
            assert(e.children =~= Seq::<EntityView>::empty());
            lemma_counted_push(c_entities_in(cs.drop_last(), lm), e, lm);
        }
    }
}

/// Every entity of a C source file has its lines counted over its own range.
pub proof fn lemma_c_entities_counted(root: SyntaxNode, lm: Seq<usize>)
    ensures
        forest_counted(c_entities(root, lm), lm),
{
    lemma_c_list_counted(root.children@, lm);
    lemma_sorted_counted(c_entities_in(root.children@, lm), lm);
}

/// The entities of a C source file are in name order (and none has
/// children).
pub proof fn lemma_c_entities_ordered(root: SyntaxNode, lm: Seq<usize>)
    ensures
        forest_ordered(c_entities(root, lm)),
{
    lemma_c_list_ordered(root.children@, lm);
    lemma_sorted_forest(c_entities_in(root.children@, lm));
}

fn c_entity_of(n: &SyntaxNode, lm: &LocMap) -> (r: Option<Entity>)
    requires
        lm.wf(),
    ensures
        view_entity_opt(r) == c_entity(*n, lm@),
    decreases n,
{
    if n.is_kind("function_definition") {
        match n.child_by_field("declarator") {
            Some(d) => match declarator_name_of(d) {
                Some(name) => Some(leaf_entity(n, name, EntityType::Function, lm)),
                None => None,
            },
            None => None,
        }
    } else if n.is_kind("struct_specifier") {
        match n.name_field() {
            Some(name) => Some(leaf_entity(n, name, EntityType::Struct, lm)),
            None => None,
        }
    } else if n.is_kind("enum_specifier") {
        match n.name_field() {
            Some(name) => Some(leaf_entity(n, name, EntityType::Enum, lm)),
            None => None,
        }
    } else if n.is_kind("declaration") || n.is_kind("type_definition") {
        let ks = vec!["struct_specifier", "enum_specifier"];
        proof {
            assert(ks@.map_values(|k: &str| k@) =~= c_wrapped_kinds());
            lemma_kinds_child_below(*n, c_wrapped_kinds());
        }
        match n.child_of_kinds(&ks) {
            Some(c) => c_entity_of(c, lm),
            None => None,
        }
    } else {
        None
    }
}

/// The entities of a C source file: what each top-level node
/// declares, sorted by name.
pub fn c_entities_of(root: &SyntaxNode, lm: &LocMap) -> (r: Vec<Entity>)
    requires
        lm.wf(),
    ensures
        view_entities(r@) == c_entities(*root, lm@),
{
    let mut out: Vec<Entity> = Vec::new();
    let mut i: usize = 0;
    while i < root.children.len()
        invariant
            lm.wf(),
            i <= root.children@.len(),
            view_entities(out@) == c_entities_in(root.children@.take(i as int), lm@),
        decreases root.children.len() - i,
    {
        proof {
            let t = root.children@.take(i + 1);
            assert(t.drop_last() =~= root.children@.take(i as int));
            assert(t.last() == root.children@[i as int]);
        }
        match c_entity_of(&root.children[i], lm) {
            Some(e) => {
                proof {
                    lemma_view_entities_push(out@, e);
                }
                out.push(e);
            },
            None => {},
        }
        i += 1;
    }
    assert(root.children@.take(root.children@.len() as int) =~= root.children@);
    sort_entities(out)
}

/// The dependencies of a C file's `#include` lines.
pub fn resolve_imports(imports: &Vec<String>, project_files: &Vec<String>) -> (r: Vec<Dependency>)
    ensures
        view_dependencies(r@) == includes_resolved(view_strings(imports@), view_strings(project_files@)),
{
    resolve_includes(imports, project_files)
}

} // verus!
