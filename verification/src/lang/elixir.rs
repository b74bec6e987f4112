//! Elixir: modules, protocols and their implementations, structs, and the
//! functions and macros defined in them, each tagged with the word that
//! defines it.
use vstd::prelude::*;

use crate::lang::loc::LocMap;
use crate::lang::syntax::{
    child_by_field, child_of_kind, kind_is, lemma_child_below, lemma_found_child_below, text_of,
    SyntaxNode,
};
use crate::lang::{
    container_entity, container_view, forest_ordered, leaf_entity, leaf_view, forest_counted, lemma_counted_basics, lemma_counted_push, lemma_sorted_counted, loc_counted,
    lemma_empty_forest_ordered,
    lemma_sorted_forest, lemma_subtrees_push, sort_by_name, sort_entities, subtrees_ordered, Context,
};
use crate::model::{
    lemma_view_entities, lemma_view_entities_push, view_dependencies, view_entities, view_entity,
    view_entity_opt, Dependency, Entity, EntityType, EntityView,
};
use crate::text::{
    chars_of, concat3, find, find_exec, find_from, lemma_find_from_facts, occurs_at, owned,
    slice_range, str_eq, string_from_chars, strip_all_suffix, strip_all_suffix_exec, trim, trimmed,
};

verus! {

// ── Reading calls ────────────────────────────────────────────────────────────

/// The name a call is made to, when its target is a plain identifier.
pub open spec fn call_target(n: SyntaxNode) -> Option<Seq<char>> {
    match child_by_field(n, "target"@) {
        Some(t) => if kind_is(t, "identifier"@) {
            text_of(t)
        } else {
            None
        },
        None => None,
    }
}

/// The first alias among a call's arguments: a module name.
pub open spec fn module_name(n: SyntaxNode) -> Option<Seq<char>> {
    match child_of_kind(n, "arguments"@) {
        Some(a) => match child_of_kind(a, "alias"@) {
            Some(al) => text_of(al),
            None => None,
        },
        None => None,
    }
}

/// The type after `for:` in a call's arguments, trimmed of white space and
/// trailing commas, when not empty.
pub open spec fn for_type(n: SyntaxNode) -> Option<Seq<char>> {
    match child_of_kind(n, "arguments"@) {
        Some(a) => match text_of(a) {
            Some(t) => match find(t, "for:"@) {
                Some(k) => {
                    let ty = trim(strip_all_suffix(trim(t.subrange(k + 4, t.len() as int)), ","@));
                    if ty.len() > 0 {
                        Some(ty)
                    } else {
                        None
                    }
                },
                None => None,
            },
            None => None,
        },
        None => None,
    }
}

/// The name of a `defimpl`: the protocol, followed by ` for ` and the type
/// when one is given.
pub open spec fn impl_name(n: SyntaxNode) -> Option<Seq<char>> {
    match module_name(n) {
        Some(p) => Some(
            match for_type(n) {
                Some(ty) => p + " for "@ + ty,
                None => p,
            },
        ),
        None => None,
    }
}

/// The name one argument of a `def` gives: an identifier, the target of a
/// call (`name(args)`), or the left side of a guard (`name(args) when ...`).
pub open spec fn name_from_arg(n: SyntaxNode) -> Option<Seq<char>>
    decreases n,
{
    if kind_is(n, "identifier"@) {
        text_of(n)
    } else if kind_is(n, "call"@) {
        call_target(n)
    } else if kind_is(n, "binary_operator"@) {
        match child_by_field(n, "left"@) {
            Some(l) => {
                proof {
                    lemma_found_child_below(n, "left"@);
                }
                name_from_arg(l)
            },
            None => None,
        }
    } else {
        None
    }
}

/// The first name given by the arguments from index `i` on.
pub open spec fn def_name_from(cs: Seq<SyntaxNode>, i: int) -> Option<Seq<char>>
    decreases cs.len() - i,
{
    if i < 0 || i >= cs.len() {
        None
    } else {
        match name_from_arg(cs[i]) {
            Some(s) => Some(s),
            None => def_name_from(cs, i + 1),
        }
    }
}

/// The name a `def` (or `defp`, `defmacro`, `defmacrop`) defines.
pub open spec fn def_name(n: SyntaxNode) -> Option<Seq<char>> {
    match child_of_kind(n, "arguments"@) {
        Some(a) => def_name_from(a.children@, 0),
        None => None,
    }
}

// ── Entities ─────────────────────────────────────────────────────────────────

/// An entity tagged with the word that defines it.
pub open spec fn with_kind_view(e: EntityView, kind: Seq<char>) -> EntityView {
    EntityView {
        name: e.name,
        entity_type: e.entity_type,
        loc: e.loc,
        start_line: e.start_line,
        end_line: e.end_line,
        children: e.children,
        kind,
    }
}

/// The entities with their `defstruct` named after the module.
pub open spec fn rename_structs(es: Seq<EntityView>, name: Seq<char>) -> Seq<EntityView> {
    es.map_values(
        |e: EntityView|
            if e.kind == "defstruct"@ {
                EntityView {
                    name,
                    entity_type: e.entity_type,
                    loc: e.loc,
                    start_line: e.start_line,
                    end_line: e.end_line,
                    children: e.children,
                    kind: e.kind,
                }
            } else {
                e
            },
    )
}

/// The entities in a call's `do` block, one level deeper, or none.
pub open spec fn el_block(n: SyntaxNode, lm: Seq<usize>, ctx: Context, depth: nat) -> Seq<EntityView>
    decreases n, 3nat,
{
    match child_of_kind(n, "do_block"@) {
        Some(b) => {
            proof {
                lemma_found_child_below(n, "do_block"@);
            }
            el_collect(b, lm, ctx, depth + 1)
        },
        None => Seq::empty(),
    }
}

/// Whether a call target defines a function or a macro.
pub open spec fn is_def(t: Seq<char>) -> bool {
    t == "def"@ || t == "defp"@ || t == "defmacro"@ || t == "defmacrop"@
}

/// The entity an Elixir call defines, if any.
pub open spec fn el_entity(n: SyntaxNode, lm: Seq<usize>, ctx: Context, depth: nat) -> Option<EntityView>
    decreases n, 4nat,
{
    if !kind_is(n, "call"@) {
        None
    } else {
        match call_target(n) {
            Some(t) => if t == "defmodule"@ {
                match module_name(n) {
                    Some(name) => Some(
                        with_kind_view(
                            container_view(
                                n,
                                name,
                                EntityType::Namespace,
                                lm,
                                sort_by_name(rename_structs(el_block(n, lm, Context::TopLevel, depth), name)),
                            ),
                            t,
                        ),
                    ),
                    None => None,
                }
            } else if t == "defprotocol"@ {
                match module_name(n) {
                    Some(name) => Some(
                        with_kind_view(
                            container_view(n, name, EntityType::Trait, lm, el_block(n, lm, Context::TypeBody, depth)),
                            t,
                        ),
                    ),
                    None => None,
                }
            } else if t == "defimpl"@ {
                match impl_name(n) {
                    Some(name) => Some(
                        with_kind_view(
                            container_view(n, name, EntityType::Impl, lm, el_block(n, lm, Context::TypeBody, depth)),
                            t,
                        ),
                    ),
                    None => None,
                }
            } else if t == "defstruct"@ {
                Some(with_kind_view(leaf_view(n, "defstruct"@, EntityType::Struct, lm), t))
            } else if is_def(t) {
                match def_name(n) {
                    Some(name) => Some(
                        with_kind_view(
                            leaf_view(
                                n,
                                name,
                                if ctx == Context::TypeBody {
                                    EntityType::Method
                                } else {
                                    EntityType::Function
                                },
                                lm,
                            ),
                            t,
                        ),
                    ),
                    None => None,
                }
            } else {
                None
            },
            None => None,
        }
    }
}

/// The entities defined by sibling nodes, in order.
pub open spec fn el_list(cs: Seq<SyntaxNode>, lm: Seq<usize>, ctx: Context, depth: nat) -> Seq<EntityView>
    decreases cs, 0nat,
{
    if cs.len() == 0 {
        Seq::empty()
    } else {
        let rest = el_list(cs.drop_last(), lm, ctx, depth);
        match el_entity(cs.last(), lm, ctx, depth) {
            Some(e) => rest.push(e),
            None => rest,
        }
    }
}

/// The entities defined by a node's children, sorted by name; none from
/// nesting depth 64 on.
pub open spec fn el_collect(n: SyntaxNode, lm: Seq<usize>, ctx: Context, depth: nat) -> Seq<EntityView>
    decreases n, 1nat,
{
    if depth >= 64 {
        Seq::empty()
    } else {
        sort_by_name(el_list(n.children@, lm, ctx, depth))
    }
}

/// The entities of an Elixir source file.
pub open spec fn el_entities(root: SyntaxNode, lm: Seq<usize>) -> Seq<EntityView> {
    el_collect(root, lm, Context::TopLevel, 0)
}

// ── Order ────────────────────────────────────────────────────────────────────

proof fn lemma_rename_keeps_subtrees(es: Seq<EntityView>, name: Seq<char>)
    requires
        subtrees_ordered(es),
    ensures
        subtrees_ordered(rename_structs(es, name)),
{
    let r = rename_structs(es, name);
    assert forall|i: int| 0 <= i < r.len() implies forest_ordered(#[trigger] r[i].children) by {
        assert(r[i].children == es[i].children);
    }
}

proof fn lemma_el_block_ordered(n: SyntaxNode, lm: Seq<usize>, ctx: Context, depth: nat)
    ensures
        forest_ordered(el_block(n, lm, ctx, depth)),
    decreases n, 3nat,
{
    lemma_empty_forest_ordered();
    lemma_found_child_below(n, "do_block"@);
    if let Some(b) = child_of_kind(n, "do_block"@) {
        lemma_el_collect_ordered(b, lm, ctx, depth + 1);
    }
}

proof fn lemma_el_entity_ordered(n: SyntaxNode, lm: Seq<usize>, ctx: Context, depth: nat)
    ensures
        el_entity(n, lm, ctx, depth) matches Some(e) ==> forest_ordered(e.children),
    decreases n, 4nat,
{
    lemma_empty_forest_ordered();
    lemma_el_block_ordered(n, lm, Context::TypeBody, depth);
    lemma_el_block_ordered(n, lm, Context::TopLevel, depth);
    if let Some(name) = module_name(n) {
        let b = el_block(n, lm, Context::TopLevel, depth);
        lemma_rename_keeps_subtrees(b, name);
        lemma_sorted_forest(rename_structs(b, name));
    }
}

proof fn lemma_el_list_ordered(cs: Seq<SyntaxNode>, lm: Seq<usize>, ctx: Context, depth: nat)
    ensures
        subtrees_ordered(el_list(cs, lm, ctx, depth)),
    decreases cs, 0nat,
{
    lemma_empty_forest_ordered();
    if cs.len() > 0 {
        lemma_el_list_ordered(cs.drop_last(), lm, ctx, depth);
        lemma_el_entity_ordered(cs.last(), lm, ctx, depth);
        if let Some(e) = el_entity(cs.last(), lm, ctx, depth) {
            lemma_subtrees_push(el_list(cs.drop_last(), lm, ctx, depth), e);
        }
    }
}

proof fn lemma_el_collect_ordered(n: SyntaxNode, lm: Seq<usize>, ctx: Context, depth: nat)
    ensures
        forest_ordered(el_collect(n, lm, ctx, depth)),
    decreases n, 1nat,
{
    lemma_empty_forest_ordered();
    if depth < 64 {
        lemma_el_list_ordered(n.children@, lm, ctx, depth);
        lemma_sorted_forest(el_list(n.children@, lm, ctx, depth));
    }
}

/// The entities of an Elixir source file are in name order at every level.
pub proof fn lemma_el_entities_ordered(root: SyntaxNode, lm: Seq<usize>)
    ensures
        forest_ordered(el_entities(root, lm)),
{
    lemma_el_collect_ordered(root, lm, Context::TopLevel, 0);
}

proof fn lemma_rename_keeps_counted(es: Seq<EntityView>, name: Seq<char>, lm: Seq<usize>)
    requires
        forest_counted(es, lm),
    ensures
        forest_counted(rename_structs(es, name), lm),
{
    let r = rename_structs(es, name);
    assert forall|i: int| 0 <= i < r.len() implies loc_counted(#[trigger] r[i], lm) && forest_counted(
        r[i].children,
        lm,
    ) by {
        assert(loc_counted(es[i], lm) && forest_counted(es[i].children, lm));
    }
}

proof fn lemma_el_block_counted(n: SyntaxNode, lm: Seq<usize>, ctx: Context, depth: nat)
    ensures
        forest_counted(el_block(n, lm, ctx, depth), lm),
    decreases n, 3nat,
{
    lemma_counted_basics(lm);
    lemma_found_child_below(n, "do_block"@);
    if let Some(b) = child_of_kind(n, "do_block"@) {
        lemma_el_collect_counted(b, lm, ctx, depth + 1);
    }
}

proof fn lemma_el_entity_counted(n: SyntaxNode, lm: Seq<usize>, ctx: Context, depth: nat)
    ensures
        el_entity(n, lm, ctx, depth) matches Some(e) ==> loc_counted(e, lm) && forest_counted(e.children, lm),
    decreases n, 4nat,
{
    lemma_counted_basics(lm);
    lemma_el_block_counted(n, lm, Context::TypeBody, depth);
    lemma_el_block_counted(n, lm, Context::TopLevel, depth);
    if let Some(name) = module_name(n) {
        let b = el_block(n, lm, Context::TopLevel, depth);
        lemma_rename_keeps_counted(b, name, lm);
        lemma_sorted_counted(rename_structs(b, name), lm);
    }
}

proof fn lemma_el_list_counted(cs: Seq<SyntaxNode>, lm: Seq<usize>, ctx: Context, depth: nat)
    ensures
        forest_counted(el_list(cs, lm, ctx, depth), lm),
    decreases cs, 0nat,
{
    lemma_counted_basics(lm);
    if cs.len() > 0 {
        lemma_el_list_counted(cs.drop_last(), lm, ctx, depth);
        lemma_el_entity_counted(cs.last(), lm, ctx, depth);
        if let Some(e) = el_entity(cs.last(), lm, ctx, depth) {
            lemma_counted_push(el_list(cs.drop_last(), lm, ctx, depth), e, lm);
        }
    }
}

proof fn lemma_el_collect_counted(n: SyntaxNode, lm: Seq<usize>, ctx: Context, depth: nat)
    ensures
        forest_counted(el_collect(n, lm, ctx, depth), lm),
    decreases n, 1nat,
{
    lemma_counted_basics(lm);
    if depth < 64 {
        lemma_el_list_counted(n.children@, lm, ctx, depth);
        lemma_sorted_counted(el_list(n.children@, lm, ctx, depth), lm);
    }
}

/// Every entity of an Elixir source file has its lines counted over its own range.
pub proof fn lemma_el_entities_counted(root: SyntaxNode, lm: Seq<usize>)
    ensures
        forest_counted(el_entities(root, lm), lm),
{
    lemma_el_collect_counted(root, lm, Context::TopLevel, 0);
}

// ── The same, computed ───────────────────────────────────────────────────────

fn call_target_of(n: &SyntaxNode) -> (r: Option<String>)
    ensures
        r matches Some(s) ==> call_target(*n) == Some(s@),
        r is None ==> call_target(*n) is None,
{
    match n.child_by_field("target") {
        Some(t) => if t.is_kind("identifier") {
            t.text_copy()
        } else {
            None
        },
        None => None,
    }
}

fn module_name_of(n: &SyntaxNode) -> (r: Option<String>)
    ensures
        r matches Some(s) ==> module_name(*n) == Some(s@),
        r is None ==> module_name(*n) is None,
{
    match n.child_of_kind("arguments") {
        Some(a) => match a.child_of_kind("alias") {
            Some(al) => al.text_copy(),
            None => None,
        },
        None => None,
    }
}

fn for_type_of(n: &SyntaxNode) -> (r: Option<String>)
    ensures
        r matches Some(s) ==> for_type(*n) == Some(s@),
        r is None ==> for_type(*n) is None,
{
    let a = match n.child_of_kind("arguments") {
        Some(a) => a,
        None => return None,
    };
    let t = match a.text_copy() {
        Some(t) => chars_of(t.as_str()),
        None => return None,
    };
    let marker = chars_of("for:");
    proof {
        reveal_strlit("for:");
    }
    match find_exec(&t, &marker) {
        Some(k) => {
            proof {
                lemma_find_from_facts(t@, marker@, 0);
                assert(find_from(t@, marker@, 0) == Some(k as int));
                assert(occurs_at(t@, marker@, k as int));
            }
            let n = t.len();
            assert(k + 4 <= n);
            let rest = trimmed(&slice_range(&t, k + 4, n));
            let ty = trimmed(&strip_all_suffix_exec(&rest, &chars_of(",")));
            if ty.len() > 0 {
                Some(string_from_chars(&ty))
            } else {
                None
            }
        },
        None => None,
    }
}

fn impl_name_of(n: &SyntaxNode) -> (r: Option<String>)
    ensures
        r matches Some(s) ==> impl_name(*n) == Some(s@),
        r is None ==> impl_name(*n) is None,
{
    match module_name_of(n) {
        Some(p) => match for_type_of(n) {
            Some(ty) => Some(concat3(p.as_str(), " for ", ty.as_str())),
            None => Some(p),
        },
        None => None,
    }
}

fn name_from_arg_of(n: &SyntaxNode) -> (r: Option<String>)
    ensures
        r matches Some(s) ==> name_from_arg(*n) == Some(s@),
        r is None ==> name_from_arg(*n) is None,
    decreases n,
{
    if n.is_kind("identifier") {
        n.text_copy()
    } else if n.is_kind("call") {
        call_target_of(n)
    } else if n.is_kind("binary_operator") {
        proof {
            lemma_found_child_below(*n, "left"@);
        }
        match n.child_by_field("left") {
            Some(l) => name_from_arg_of(l),
            None => None,
        }
    } else {
        None
    }
}

fn def_name_of(n: &SyntaxNode) -> (r: Option<String>)
    ensures
        r matches Some(s) ==> def_name(*n) == Some(s@),
        r is None ==> def_name(*n) is None,
{
    let a = match n.child_of_kind("arguments") {
        Some(a) => a,
        None => return None,
    };
    let mut i: usize = 0;
    while i < a.children.len()
        invariant
            i <= a.children@.len(),
            child_of_kind(*n, "arguments"@) == Some(*a),
            def_name_from(a.children@, 0) == def_name_from(a.children@, i as int),
        decreases a.children.len() - i,
    {
        match name_from_arg_of(&a.children[i]) {
            Some(s) => return Some(s),
            None => {},
        }
        i += 1;
    }
    None
}

/// The entity, tagged with the word that defines it.
pub fn with_kind(entity: Entity, kind: String) -> (r: Entity)
    ensures
        r@ == with_kind_view(entity@, kind@),
{
    let mut e = entity;
    e.kind = kind;
    e
}

fn rename_structs_of(es: &Vec<Entity>, name: &str) -> (r: Vec<Entity>)
    ensures
        view_entities(r@) == rename_structs(view_entities(es@), name@),
{
    proof {
        lemma_view_entities(es@);
    }
    let mut out: Vec<Entity> = Vec::new();
    let mut i: usize = 0;
    while i < es.len()
        invariant
            i <= es@.len(),
            view_entities(es@).len() == es@.len(),
            forall|k: int| 0 <= k < es@.len() ==> #[trigger] view_entities(es@)[k] == view_entity(es@[k]),
            view_entities(out@) == rename_structs(view_entities(es@), name@).take(i as int),
        decreases es.len() - i,
    {
        let mut e = es[i].copy();
        if str_eq(e.kind.as_str(), "defstruct") {
            e.name = owned(name);
        }
        proof {
            lemma_view_entities_push(out@, e);
            assert(view_entities(es@)[i as int] == view_entity(es@[i as int]));
            assert(rename_structs(view_entities(es@), name@).take(i + 1) =~= rename_structs(
                view_entities(es@),
                name@,
            ).take(i as int).push(view_entity(e)));
        }
        out.push(e);
        i += 1;
    }
    assert(rename_structs(view_entities(es@), name@).take(es@.len() as int) =~= rename_structs(
        view_entities(es@),
        name@,
    ));
    out
}

fn el_block_of(n: &SyntaxNode, lm: &LocMap, ctx: Context, depth: usize) -> (r: Vec<Entity>)
    requires
        lm.wf(),
        depth < 64,
    ensures
        view_entities(r@) == el_block(*n, lm@, ctx, depth as nat),
    decreases n, 3nat,
{
    proof {
        lemma_found_child_below(*n, "do_block"@);
    }
    match n.child_of_kind("do_block") {
        Some(b) => el_collect_of(b, lm, ctx, depth + 1),
        None => Vec::new(),
    }
}

fn el_entity_of(n: &SyntaxNode, lm: &LocMap, ctx: Context, depth: usize) -> (r: Option<Entity>)
    requires
        lm.wf(),
        depth < 64,
    ensures
        view_entity_opt(r) == el_entity(*n, lm@, ctx, depth as nat),
    decreases n, 4nat,
{
    if !n.is_kind("call") {
        return None;
    }
    let t = match call_target_of(n) {
        Some(t) => t,
        None => return None,
    };
    if str_eq(t.as_str(), "defmodule") {
        match module_name_of(n) {
            Some(name) => {
                let block = el_block_of(n, lm, Context::TopLevel, depth);
                let children = sort_entities(rename_structs_of(&block, name.as_str()));
                Some(with_kind(container_entity(n, name, EntityType::Namespace, lm, children), t))
            },
            None => None,
        }
    } else if str_eq(t.as_str(), "defprotocol") {
        match module_name_of(n) {
            Some(name) => {
                let children = el_block_of(n, lm, Context::TypeBody, depth);
                Some(with_kind(container_entity(n, name, EntityType::Trait, lm, children), t))
            },
            None => None,
        }
    } else if str_eq(t.as_str(), "defimpl") {
        match impl_name_of(n) {
            Some(name) => {
                let children = el_block_of(n, lm, Context::TypeBody, depth);
                Some(with_kind(container_entity(n, name, EntityType::Impl, lm, children), t))
            },
            None => None,
        }
    } else if str_eq(t.as_str(), "defstruct") {
        Some(with_kind(leaf_entity(n, owned("defstruct"), EntityType::Struct, lm), t))
    } else if str_eq(t.as_str(), "def") || str_eq(t.as_str(), "defp") || str_eq(t.as_str(), "defmacro")
        || str_eq(t.as_str(), "defmacrop") {
        match def_name_of(n) {
            Some(name) => {
                let et = if ctx == Context::TypeBody {
                    EntityType::Method
                } else {
                    EntityType::Function
                };
                Some(with_kind(leaf_entity(n, name, et, lm), t))
            },
            None => None,
        }
    } else {
        None
    }
}

fn el_collect_of(n: &SyntaxNode, lm: &LocMap, ctx: Context, depth: usize) -> (r: Vec<Entity>)
    requires
        lm.wf(),
        depth <= 64,
    ensures
        view_entities(r@) == el_collect(*n, lm@, ctx, depth as nat),
    decreases n, 1nat,
{
    if depth >= 64 {
        return Vec::new();
    }
    let mut out: Vec<Entity> = Vec::new();
    let mut i: usize = 0;
    while i < n.children.len()
        invariant
            lm.wf(),
            depth < 64,
            i <= n.children@.len(),
            view_entities(out@) == el_list(n.children@.take(i as int), lm@, ctx, depth as nat),
        decreases n.children.len() - i,
    {
        proof {
            let t = n.children@.take(i + 1);
            assert(t.drop_last() =~= n.children@.take(i as int));
            assert(t.last() == n.children@[i as int]);
            lemma_child_below(*n, i as int);
        }
        match el_entity_of(&n.children[i], lm, ctx, depth) {
            Some(e) => {
                proof {
                    lemma_view_entities_push(out@, e);
                }
                out.push(e);
            },
            None => {},
        }
        i += 1;
    }
    assert(n.children@.take(n.children@.len() as int) =~= n.children@);
    sort_entities(out)
}

/// The entities of an Elixir source file, each level sorted by name.
pub fn el_entities_of(root: &SyntaxNode, lm: &LocMap) -> (r: Vec<Entity>)
    requires
        lm.wf(),
    ensures
        view_entities(r@) == el_entities(*root, lm@),
{
    el_collect_of(root, lm, Context::TopLevel, 0)
}

/// Elixir imports are not resolved: no file gets dependencies.
pub fn resolve_imports(_imports: &Vec<String>, _project_files: &Vec<String>) -> (r: Vec<Dependency>)
    ensures
        view_dependencies(r@) == Seq::<(Seq<char>, crate::model::DependencyKind)>::empty(),
{
    let r: Vec<Dependency> = Vec::new();
    assert(view_dependencies(r@) =~= Seq::<(Seq<char>, crate::model::DependencyKind)>::empty());
    r
}

} // verus!
