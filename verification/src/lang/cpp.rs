//! C++: functions and methods, classes and structs with their members,
//! enums and namespaces, each level sorted by name.
use vstd::prelude::*;

use crate::lang::c_family::{declarator_name, declarator_name_of};
use crate::lang::loc::{loc_table, LocMap};
use crate::lang::syntax::{
    child_by_field, child_of_kinds, kind_is, lemma_child_below, lemma_found_child_below,
    lemma_first_of_kinds, lemma_kinds_child_below, name_field, parse_source, syntax_tree, Grammar, SyntaxNode,
};
use crate::lang::{
    container_entity, container_view, forest_ordered, leaf_entity, leaf_view, forest_counted, lemma_counted_basics, lemma_counted_push, lemma_sorted_counted, loc_counted,
    lemma_empty_forest_ordered,
    lemma_sorted_forest, lemma_subtrees_push, sort_by_name, sort_entities, subtrees_ordered,
};
use crate::model::{
    lemma_view_entities_push, view_entities, view_entity_opt, Entity, EntityType, EntityView,
};
use crate::text::owned;

verus! {

/// The specifiers a declaration or a `typedef` is read through.
pub open spec fn cpp_wrapped_kinds() -> Seq<Seq<char>> {
    seq!["struct_specifier"@, "enum_specifier"@, "class_specifier"@]
}

/// The entities under the node's `body` field, or none.
pub open spec fn cpp_body(n: SyntaxNode, lm: Seq<usize>, in_class: bool) -> Seq<EntityView>
    decreases n, 3nat,
{
    match child_by_field(n, "body"@) {
        Some(b) => {
            proof {
                lemma_found_child_below(n, "body"@);
            }
            cpp_nodes(b, lm, in_class)
        },
        None => Seq::empty(),
    }
}

/// The entity a C++ node declares, if any; `in_class` when the node sits in
/// a class or struct body.
pub open spec fn cpp_entity(n: SyntaxNode, lm: Seq<usize>, in_class: bool) -> Option<EntityView>
    decreases n, 4nat,
{
    if kind_is(n, "function_definition"@) {
        match child_by_field(n, "declarator"@) {
            Some(d) => match declarator_name(d) {
                Some(name) => Some(
                    leaf_view(
                        n,
                        name,
                        if in_class {
                            EntityType::Method
                        } else {
                            EntityType::Function
                        },
                        lm,
                    ),
                ),
                None => None,
            },
            None => None,
        }
    } else if kind_is(n, "class_specifier"@) || kind_is(n, "struct_specifier"@) {
        match name_field(n) {
            Some(name) => Some(
                container_view(
                    n,
                    name,
                    if kind_is(n, "class_specifier"@) {
                        EntityType::Class
                    } else {
                        EntityType::Struct
                    },
                    lm,
                    cpp_body(n, lm, true),
                ),
            ),
            None => None,
        }
    } else if kind_is(n, "enum_specifier"@) {
        match name_field(n) {
            Some(name) => Some(leaf_view(n, name, EntityType::Enum, lm)),
            None => None,
        }
    } else if kind_is(n, "namespace_definition"@) {
        let name = match name_field(n) {
            Some(s) => s,
            None => "<anonymous>"@,
        };
        Some(container_view(n, name, EntityType::Namespace, lm, cpp_body(n, lm, false)))
    } else if kind_is(n, "declaration"@) || kind_is(n, "type_definition"@) {
        match child_of_kinds(n, cpp_wrapped_kinds()) {
            Some(c) => {
                proof {
                    lemma_kinds_child_below(n, cpp_wrapped_kinds());
                }
                cpp_entity(c, lm, in_class)
            },
            None => None,
        }
    } else {
        None
    }
}

/// The entities declared by sibling nodes, in order.
pub open spec fn cpp_list(cs: Seq<SyntaxNode>, lm: Seq<usize>, in_class: bool) -> Seq<EntityView>
    decreases cs, 0nat,
{
    if cs.len() == 0 {
        Seq::empty()
    } else {
        let rest = cpp_list(cs.drop_last(), lm, in_class);
        match cpp_entity(cs.last(), lm, in_class) {
            Some(e) => rest.push(e),
            None => rest,
        }
    }
}

/// The entities declared by a node's children, sorted by name.
pub open spec fn cpp_nodes(n: SyntaxNode, lm: Seq<usize>, in_class: bool) -> Seq<EntityView>
    decreases n, 1nat,
{
    sort_by_name(cpp_list(n.children@, lm, in_class))
}

// ── Order ────────────────────────────────────────────────────────────────────

proof fn lemma_cpp_body_ordered(n: SyntaxNode, lm: Seq<usize>, in_class: bool)
    ensures
        forest_ordered(cpp_body(n, lm, in_class)),
    decreases n, 3nat,
{
    lemma_empty_forest_ordered();
    lemma_found_child_below(n, "body"@);
    if let Some(b) = child_by_field(n, "body"@) {
        lemma_cpp_nodes_ordered(b, lm, in_class);
    }
}

proof fn lemma_cpp_entity_ordered(n: SyntaxNode, lm: Seq<usize>, in_class: bool)
    ensures
        cpp_entity(n, lm, in_class) matches Some(e) ==> forest_ordered(e.children),
    decreases n, 4nat,
{
    lemma_empty_forest_ordered();
    lemma_cpp_body_ordered(n, lm, true);
    lemma_cpp_body_ordered(n, lm, false);
    lemma_kinds_child_below(n, cpp_wrapped_kinds());
    if let Some(c) = child_of_kinds(n, cpp_wrapped_kinds()) {
        lemma_cpp_entity_ordered(c, lm, in_class);
    }
}

proof fn lemma_cpp_list_ordered(cs: Seq<SyntaxNode>, lm: Seq<usize>, in_class: bool)
    ensures
        subtrees_ordered(cpp_list(cs, lm, in_class)),
    decreases cs, 0nat,
{
    lemma_empty_forest_ordered();
    if cs.len() > 0 {
        lemma_cpp_list_ordered(cs.drop_last(), lm, in_class);
        lemma_cpp_entity_ordered(cs.last(), lm, in_class);
        if let Some(e) = cpp_entity(cs.last(), lm, in_class) {
            lemma_subtrees_push(cpp_list(cs.drop_last(), lm, in_class), e);
        }
    }
}

/// The entities under a C++ node are in name order at every level.
pub proof fn lemma_cpp_nodes_ordered(n: SyntaxNode, lm: Seq<usize>, in_class: bool)
    ensures
        forest_ordered(cpp_nodes(n, lm, in_class)),
    decreases n, 1nat,
{
    lemma_cpp_list_ordered(n.children@, lm, in_class);
    lemma_sorted_forest(cpp_list(n.children@, lm, in_class));
}

proof fn lemma_cpp_body_counted(n: SyntaxNode, lm: Seq<usize>, in_class: bool)
    ensures
        forest_counted(cpp_body(n, lm, in_class), lm),
    decreases n, 3nat,
{
    lemma_counted_basics(lm);
    lemma_found_child_below(n, "body"@);
    if let Some(b) = child_by_field(n, "body"@) {
        lemma_cpp_nodes_counted(b, lm, in_class);
    }
}

proof fn lemma_cpp_entity_counted(n: SyntaxNode, lm: Seq<usize>, in_class: bool)
    ensures
        cpp_entity(n, lm, in_class) matches Some(e) ==> loc_counted(e, lm) && forest_counted(e.children, lm),
    decreases n, 4nat,
{
    lemma_counted_basics(lm);
    lemma_cpp_body_counted(n, lm, true);
    lemma_cpp_body_counted(n, lm, false);
    lemma_kinds_child_below(n, cpp_wrapped_kinds());
    if let Some(c) = child_of_kinds(n, cpp_wrapped_kinds()) {
        lemma_cpp_entity_counted(c, lm, in_class);
    }
}

proof fn lemma_cpp_list_counted(cs: Seq<SyntaxNode>, lm: Seq<usize>, in_class: bool)
    ensures
        forest_counted(cpp_list(cs, lm, in_class), lm),
    decreases cs, 0nat,
{
    lemma_counted_basics(lm);
    if cs.len() > 0 {
        lemma_cpp_list_counted(cs.drop_last(), lm, in_class);
        lemma_cpp_entity_counted(cs.last(), lm, in_class);
        if let Some(e) = cpp_entity(cs.last(), lm, in_class) {
            lemma_counted_push(cpp_list(cs.drop_last(), lm, in_class), e, lm);
        }
    }
}

/// Every entity under a C++ node has its lines counted over its own range.
pub proof fn lemma_cpp_nodes_counted(n: SyntaxNode, lm: Seq<usize>, in_class: bool)
    ensures
        forest_counted(cpp_nodes(n, lm, in_class), lm),
    decreases n, 1nat,
{
    lemma_cpp_list_counted(n.children@, lm, in_class);
    lemma_sorted_counted(cpp_list(n.children@, lm, in_class), lm);
}

/// The specifiers a C++ declaration or `typedef` can wrap.
pub open spec fn wraps_specifier(k: Seq<char>) -> bool {
    k == "struct_specifier"@ || k == "class_specifier"@ || k == "enum_specifier"@
}

/// A `typedef` (or a declaration) whose first struct, class or enum
/// specifier child is `c` declares exactly what `c` declares on its own;
/// so `typedef struct Point {...} Point;` gives the struct `Point`, and a
/// named class or enum likewise.
pub proof fn lemma_cpp_typedef_unwrapped(n: SyntaxNode, i: int, lm: Seq<usize>, in_class: bool)
    requires
        n.kind@ == "type_definition"@ || n.kind@ == "declaration"@,
        0 <= i < n.children@.len(),
        wraps_specifier(n.children@[i].kind@),
        forall|j: int| 0 <= j < i ==> !wraps_specifier(#[trigger] n.children@[j].kind@),
    ensures
        cpp_entity(n, lm, in_class) == cpp_entity(n.children@[i], lm, in_class),
        n.children@[i].kind@ == "struct_specifier"@ && name_field(n.children@[i]) is Some ==> (cpp_entity(n, lm, in_class) matches Some(e) && e.name == name_field(n.children@[i])->0
            && e.entity_type == EntityType::Struct),
        n.children@[i].kind@ == "class_specifier"@ && name_field(n.children@[i]) is Some ==> (cpp_entity(n, lm, in_class) matches Some(e) && e.name == name_field(n.children@[i])->0
            && e.entity_type == EntityType::Class),
        n.children@[i].kind@ == "enum_specifier"@ && name_field(n.children@[i]) is Some ==> (cpp_entity(n, lm, in_class) matches Some(e) && e.name == name_field(n.children@[i])->0
            && e.entity_type == EntityType::Enum),
{
    reveal_strlit("struct_specifier");
    reveal_strlit("class_specifier");
    reveal_strlit("enum_specifier");
    reveal_strlit("type_definition");
    reveal_strlit("declaration");
    reveal_strlit("function_definition");
    reveal_strlit("namespace_definition");
    let ks = cpp_wrapped_kinds();
    assert forall|k: Seq<char>| ks.contains(k) <==> wraps_specifier(k) by {
        if wraps_specifier(k) {
            if k == "struct_specifier"@ {
                assert(ks[0] == k);
            } else if k == "enum_specifier"@ {
                assert(ks[1] == k);
            } else {
                assert(ks[2] == k);
            }
        }
    }
    assert forall|j: int| 0 <= j < i implies !ks.contains(#[trigger] n.children@[j].kind@) by {
        assert(!wraps_specifier(n.children@[j].kind@));
    }
    lemma_first_of_kinds(n, ks, i);
    // The kinds tested before a wrapper differ from both wrapper kinds.
    assert("type_definition"@.len() == 15 && "declaration"@.len() == 11 && "function_definition"@.len() == 19);
    assert("class_specifier"@.len() == 15 && "struct_specifier"@.len() == 16 && "enum_specifier"@.len() == 14);
    assert("type_definition"@[0] != "class_specifier"@[0]);
    assert(n.kind@ != "function_definition"@);
    assert(n.kind@ != "class_specifier"@ && n.kind@ != "struct_specifier"@);
    assert(n.kind@ != "enum_specifier"@);
    assert(n.kind@ != "namespace_definition"@);
    let c = n.children@[i];
    assert(c.kind@ != "function_definition"@);
    assert(c.kind@ != "namespace_definition"@);
    assert(c.kind@ != "type_definition"@ && c.kind@ != "declaration"@);
}

/// What `CppParser::parse` finds in a source text.
pub open spec fn cpp_parsed(source: Seq<char>) -> Seq<EntityView> {
    match syntax_tree(Grammar::Cpp, source) {
        Some(root) => cpp_nodes(root, loc_table(source), false),
        None => Seq::empty(),
    }
}

fn cpp_body_of(n: &SyntaxNode, lm: &LocMap, in_class: bool) -> (r: Vec<Entity>)
    requires
        lm.wf(),
    ensures
        view_entities(r@) == cpp_body(*n, lm@, in_class),
    decreases n, 3nat,
{
    proof {
        lemma_found_child_below(*n, "body"@);
    }
    match n.child_by_field("body") {
        Some(b) => cpp_nodes_of(b, lm, in_class),
        None => Vec::new(),
    }
}

fn cpp_entity_of(n: &SyntaxNode, lm: &LocMap, in_class: bool) -> (r: Option<Entity>)
    requires
        lm.wf(),
    ensures
        view_entity_opt(r) == cpp_entity(*n, lm@, in_class),
    decreases n, 4nat,
{
    if n.is_kind("function_definition") {
        match n.child_by_field("declarator") {
            Some(d) => match declarator_name_of(d) {
                Some(name) => {
                    let et = if in_class {
                        EntityType::Method
                    } else {
                        EntityType::Function
                    };
                    Some(leaf_entity(n, name, et, lm))
                },
                None => None,
            },
            None => None,
        }
    } else if n.is_kind("class_specifier") || n.is_kind("struct_specifier") {
        match n.name_field() {
            Some(name) => {
                let et = if n.is_kind("class_specifier") {
                    EntityType::Class
                } else {
                    EntityType::Struct
                };
                let children = cpp_body_of(n, lm, true);
                Some(container_entity(n, name, et, lm, children))
            },
            None => None,
        }
    } else if n.is_kind("enum_specifier") {
        match n.name_field() {
            Some(name) => Some(leaf_entity(n, name, EntityType::Enum, lm)),
            None => None,
        }
    } else if n.is_kind("namespace_definition") {
        let name = match n.name_field() {
            Some(s) => s,
            None => owned("<anonymous>"),
        };
        let children = cpp_body_of(n, lm, false);
        Some(container_entity(n, name, EntityType::Namespace, lm, children))
    } else if n.is_kind("declaration") || n.is_kind("type_definition") {
        let ks = vec!["struct_specifier", "enum_specifier", "class_specifier"];
        proof {
            assert(ks@.map_values(|k: &str| k@) =~= cpp_wrapped_kinds());
            lemma_kinds_child_below(*n, cpp_wrapped_kinds());
        }
        match n.child_of_kinds(&ks) {
            Some(c) => cpp_entity_of(c, lm, in_class),
            None => None,
        }
    } else {
        None
    }
}

fn cpp_nodes_of(n: &SyntaxNode, lm: &LocMap, in_class: bool) -> (r: Vec<Entity>)
    requires
        lm.wf(),
    ensures
        view_entities(r@) == cpp_nodes(*n, lm@, in_class),
    decreases n, 1nat,
{
    let mut out: Vec<Entity> = Vec::new();
    let mut i: usize = 0;
    while i < n.children.len()
        invariant
            lm.wf(),
            i <= n.children@.len(),
            view_entities(out@) == cpp_list(n.children@.take(i as int), lm@, in_class),
        decreases n.children.len() - i,
    {
        proof {
            let t = n.children@.take(i + 1);
            assert(t.drop_last() =~= n.children@.take(i as int));
            assert(t.last() == n.children@[i as int]);
            lemma_child_below(*n, i as int);
        }
        match cpp_entity_of(&n.children[i], lm, in_class) {
            Some(e) => {
                proof {
                    lemma_view_entities_push(out@, e);
                }
                out.push(e);
            },
            None => {},
        }
        i += 1;
    }
    assert(n.children@.take(n.children@.len() as int) =~= n.children@);
    sort_entities(out)
}

/// The C++ extractor.
pub struct CppParser;

impl CppParser {
    /// The entities of a parsed C++ tree, counted with `lm`.
    pub fn parse_tree(&self, root: &SyntaxNode, lm: &LocMap) -> (r: Vec<Entity>)
        requires
            lm.wf(),
        ensures
            view_entities(r@) == cpp_nodes(*root, lm@, false),
    {
        cpp_nodes_of(root, lm, false)
    }

    /// The entities of a C++ source text: classes and structs with their
    /// methods, namespaces with their members, functions and enums, each
    /// level sorted by name. A text tree-sitter cannot parse gives none.
    pub fn parse(&self, source: &str) -> (r: Vec<Entity>)
        ensures
            view_entities(r@) == cpp_parsed(source@),
    {
        match parse_source(Grammar::Cpp, source) {
            Some(root) => {
                let lm = LocMap::build(source);
                cpp_nodes_of(&root, &lm, false)
            },
            None => Vec::new(),
        }
    }
}

} // verus!
