//! QML: each top-level object, named by its `id` (or its type), with its
//! functions as methods.
use vstd::prelude::*;

use crate::lang::loc::LocMap;
use crate::lang::syntax::{child_by_field, first_named_child, kind_is, name_field, text_of, SyntaxNode};
use crate::lang::{
    container_entity, container_view, forest_ordered, leaf_entity, leaf_view, forest_counted, lemma_counted_basics, lemma_counted_push, lemma_sorted_counted, loc_counted,
    lemma_empty_forest_ordered, lemma_sorted_forest,
    lemma_subtrees_push, sort_by_name, sort_entities, subtrees_ordered,
};
use crate::model::{
    lemma_view_entities_push, view_entities, view_entity_opt, Entity, EntityType, EntityView,
};
use crate::text::str_eq;

verus! {

/// The object id a `ui_binding` sets, when the binding is `id: <name>`.
pub open spec fn qml_id(b: SyntaxNode) -> Option<Seq<char>> {
    match child_by_field(b, "name"@) {
        Some(nm) => match text_of(nm) {
            Some(t) => if t == "id"@ {
                match child_by_field(b, "value"@) {
                    Some(v) => match first_named_child(v) {
                        Some(c) => text_of(c),
                        None => None,
                    },
                    None => None,
                }
            } else {
                None
            },
            None => None,
        },
        None => None,
    }
}

/// The first id set by a binding among sibling nodes.
pub open spec fn qml_id_in(cs: Seq<SyntaxNode>) -> Option<Seq<char>>
    decreases cs.len(),
{
    if cs.len() == 0 {
        None
    } else {
        match qml_id_in(cs.drop_last()) {
            Some(id) => Some(id),
            None => if kind_is(cs.last(), "ui_binding"@) {
                qml_id(cs.last())
            } else {
                None
            },
        }
    }
}

/// The methods declared by sibling nodes, in order.
pub open spec fn qml_methods_in(cs: Seq<SyntaxNode>, lm: Seq<usize>) -> Seq<EntityView>
    decreases cs.len(),
{
    if cs.len() == 0 {
        Seq::empty()
    } else {
        let rest = qml_methods_in(cs.drop_last(), lm);
        let c = cs.last();
        if kind_is(c, "function_declaration"@) && name_field(c) is Some {
            rest.push(leaf_view(c, name_field(c)->0, EntityType::Method, lm))
        } else {
            rest
        }
    }
}

/// The entity of a `ui_object_definition`: a class named by its id or its
/// type name, with its functions sorted by name.
pub open spec fn qml_object(n: SyntaxNode, lm: Seq<usize>) -> Option<EntityView> {
    match child_by_field(n, "type_name"@) {
        Some(t) => match text_of(t) {
            Some(tname) => match child_by_field(n, "initializer"@) {
                Some(init) => Some(
                    container_view(
                        n,
                        match qml_id_in(init.children@) {
                            Some(id) => id,
                            None => tname,
                        },
                        EntityType::Class,
                        lm,
                        sort_by_name(qml_methods_in(init.children@, lm)),
                    ),
                ),
                None => None,
            },
            None => None,
        },
        None => None,
    }
}

/// The objects among sibling nodes, in source order.
pub open spec fn qml_objects_in(cs: Seq<SyntaxNode>, lm: Seq<usize>) -> Seq<EntityView>
    decreases cs.len(),
{
    if cs.len() == 0 {
        Seq::empty()
    } else {
        let rest = qml_objects_in(cs.drop_last(), lm);
        let c = cs.last();
        if kind_is(c, "ui_object_definition"@) && qml_object(c, lm) is Some {
            rest.push(qml_object(c, lm)->0)
        } else {
            rest
        }
    }
}

/// The entities of a QML document: its top-level objects, sorted by name.
pub open spec fn qml_entities(root: SyntaxNode, lm: Seq<usize>) -> Seq<EntityView> {
    sort_by_name(qml_objects_in(root.children@, lm))
}

proof fn lemma_qml_methods_leaves(cs: Seq<SyntaxNode>, lm: Seq<usize>)
    ensures
        subtrees_ordered(qml_methods_in(cs, lm)),
    decreases cs.len(),
{
    lemma_empty_forest_ordered();
    if cs.len() > 0 {
        lemma_qml_methods_leaves(cs.drop_last(), lm);
        let c = cs.last();
        if kind_is(c, "function_declaration"@) && name_field(c) is Some {
            let e = leaf_view(c, name_field(c)->0, EntityType::Method, lm);
            assert(e.children =~= Seq::<EntityView>::empty());
            lemma_subtrees_push(qml_methods_in(cs.drop_last(), lm), e);
        }
    }
}

proof fn lemma_qml_objects_ordered(cs: Seq<SyntaxNode>, lm: Seq<usize>)
    ensures
        subtrees_ordered(qml_objects_in(cs, lm)),
    decreases cs.len(),
{
    lemma_empty_forest_ordered();
    if cs.len() > 0 {
        lemma_qml_objects_ordered(cs.drop_last(), lm);
        let c = cs.last();
        if kind_is(c, "ui_object_definition"@) && qml_object(c, lm) is Some {
            let init = child_by_field(c, "initializer"@)->0;
            lemma_qml_methods_leaves(init.children@, lm);
            lemma_sorted_forest(qml_methods_in(init.children@, lm));
            lemma_subtrees_push(qml_objects_in(cs.drop_last(), lm), qml_object(c, lm)->0);
        }
    }
}

proof fn lemma_qml_methods_counted(cs: Seq<SyntaxNode>, lm: Seq<usize>)
    ensures
        forest_counted(qml_methods_in(cs, lm), lm),
    decreases cs.len(),
{
    lemma_counted_basics(lm);
    if cs.len() > 0 {
        lemma_qml_methods_counted(cs.drop_last(), lm);
        let c = cs.last();
        if kind_is(c, "function_declaration"@) && name_field(c) is Some {
            let e = leaf_view(c, name_field(c)->0, EntityType::Method, lm);
            assert(e.children =~= Seq::<EntityView>::empty());
            lemma_counted_push(qml_methods_in(cs.drop_last(), lm), e, lm);
        }
    }
}

proof fn lemma_qml_objects_counted(cs: Seq<SyntaxNode>, lm: Seq<usize>)
    ensures
        forest_counted(qml_objects_in(cs, lm), lm),
    decreases cs.len(),
{
    lemma_counted_basics(lm);
    if cs.len() > 0 {
        lemma_qml_objects_counted(cs.drop_last(), lm);
        let c = cs.last();
        if kind_is(c, "ui_object_definition"@) && qml_object(c, lm) is Some {
            let init = child_by_field(c, "initializer"@)->0;
            lemma_qml_methods_counted(init.children@, lm);
            lemma_sorted_counted(qml_methods_in(init.children@, lm), lm);
            lemma_counted_push(qml_objects_in(cs.drop_last(), lm), qml_object(c, lm)->0, lm);
        }
    }
}

/// Every entity of a QML document has its lines counted over its own range.
pub proof fn lemma_qml_entities_counted(root: SyntaxNode, lm: Seq<usize>)
    ensures
        forest_counted(qml_entities(root, lm), lm),
{
    lemma_qml_objects_counted(root.children@, lm);
    lemma_sorted_counted(qml_objects_in(root.children@, lm), lm);
}

/// The entities of a QML document are in name order at every level.
pub proof fn lemma_qml_entities_ordered(root: SyntaxNode, lm: Seq<usize>)
    ensures
        forest_ordered(qml_entities(root, lm)),
{
    lemma_qml_objects_ordered(root.children@, lm);
    lemma_sorted_forest(qml_objects_in(root.children@, lm));
}

/// The id a binding sets, when it is `id: <name>`.
pub fn extract_id(binding: &SyntaxNode) -> (r: Option<String>)
    ensures
        r matches Some(s) ==> qml_id(*binding) == Some(s@),
        r is None ==> qml_id(*binding) is None,
{
    let nm = match binding.child_by_field("name") {
        Some(nm) => nm,
        None => return None,
    };
    let t = match nm.text_copy() {
        Some(t) => t,
        None => return None,
    };
    if !str_eq(t.as_str(), "id") {
        return None;
    }
    match binding.child_by_field("value") {
        Some(v) => match v.first_named_child() {
            Some(c) => c.text_copy(),
            None => None,
        },
        None => None,
    }
}

/// The entity of a QML function: a method.
pub fn parse_function(n: &SyntaxNode, lm: &LocMap) -> (r: Option<Entity>)
    requires
        lm.wf(),
    ensures
        r matches Some(e) ==> name_field(*n) is Some && e@ == leaf_view(*n, name_field(*n)->0, EntityType::Method, lm@),
        r is None ==> name_field(*n) is None,
{
    match n.name_field() {
        Some(name) => Some(leaf_entity(n, name, EntityType::Method, lm)),
        None => None,
    }
}

/// The entity of a QML object definition.
pub fn parse_object(n: &SyntaxNode, lm: &LocMap) -> (r: Option<Entity>)
    requires
        lm.wf(),
    ensures
        view_entity_opt(r) == qml_object(*n, lm@),
{
    let tname = match n.child_by_field("type_name") {
        Some(t) => match t.text_copy() {
            Some(s) => s,
            None => return None,
        },
        None => return None,
    };
    let init = match n.child_by_field("initializer") {
        Some(i) => i,
        None => return None,
    };
    let mut id_name: Option<String> = None;
    let mut methods: Vec<Entity> = Vec::new();
    let mut i: usize = 0;
    while i < init.children.len()
        invariant
            lm.wf(),
            i <= init.children@.len(),
            id_name matches Some(s) ==> qml_id_in(init.children@.take(i as int)) == Some(s@),
            id_name is None ==> qml_id_in(init.children@.take(i as int)) is None,
            view_entities(methods@) == qml_methods_in(init.children@.take(i as int), lm@),
        decreases init.children.len() - i,
    {
        let c = &init.children[i];
        proof {
            let t = init.children@.take(i + 1);
            assert(t.drop_last() =~= init.children@.take(i as int));
            assert(t.last() == *c);
        }
        if c.is_kind("ui_binding") && id_name.is_none() {
            id_name = extract_id(c);
        }
        if c.is_kind("function_declaration") {
            match parse_function(c, lm) {
                Some(m) => {
                    proof {
                        lemma_view_entities_push(methods@, m);
                    }
                    methods.push(m);
                },
                None => {},
            }
        }
        i += 1;
    }
    assert(init.children@.take(init.children@.len() as int) =~= init.children@);
    let methods = sort_entities(methods);
    let name = match id_name {
        Some(id) => id,
        None => tname,
    };
    Some(container_entity(n, name, EntityType::Class, lm, methods))
}

/// The entities of a QML document: each top-level object definition,
/// sorted by name.
pub fn qml_entities_of(root: &SyntaxNode, lm: &LocMap) -> (r: Vec<Entity>)
    requires
        lm.wf(),
    ensures
        view_entities(r@) == qml_entities(*root, lm@),
{
    let mut out: Vec<Entity> = Vec::new();
    let mut i: usize = 0;
    while i < root.children.len()
        invariant
            lm.wf(),
            i <= root.children@.len(),
            view_entities(out@) == qml_objects_in(root.children@.take(i as int), lm@),
        decreases root.children.len() - i,
    {
        let c = &root.children[i];
        proof {
            let t = root.children@.take(i + 1);
            assert(t.drop_last() =~= root.children@.take(i as int));
            assert(t.last() == *c);
        }
        if c.is_kind("ui_object_definition") {
            match parse_object(c, lm) {
                Some(e) => {
                    proof {
                        lemma_view_entities_push(out@, e);
                    }
                    out.push(e);
                },
                None => {},
            }
        }
        i += 1;
    }
    assert(root.children@.take(root.children@.len() as int) =~= root.children@);
    sort_entities(out)
}

} // verus!
