//! Entity filters: a depth ceiling, a name pattern, and test-module
//! selection.
use vstd::prelude::*;

use crate::model::{
    copy_entities, lemma_view_entities, view_entities, view_entity, Entity, EntityType,
    EntityView,
};
use crate::lang::{forest_ordered, lemma_empty_forest_ordered, lemma_forest_push, lemma_forest_split, lemma_ordered_pairwise};
use crate::text::{chars_of, contains, contains_exec, lowercase, str_eq, to_lower};

verus! {

// ── Depth ceiling and name pattern ──────────────────────────────────────────

/// The depth one level further down, staying at the largest depth there is.
pub open spec fn next_depth(depth: usize) -> usize {
    if depth < usize::MAX {
        (depth + 1) as usize
    } else {
        depth
    }
}

/// `e` with its children filtered one level deeper.
pub open spec fn filter_entity(e: EntityView, pattern: Seq<char>, max_depth: Option<usize>, depth: usize) -> EntityView
    decreases e, 0nat,
{
    EntityView { children: filtered(e.children, pattern, max_depth, next_depth(depth)), ..e }
}

/// Whether a filtered entity stays: the pattern is empty, its lowercased
/// name contains the pattern, or one of its children stayed.
pub open spec fn stays(e: EntityView, pattern: Seq<char>) -> bool {
    pattern.len() == 0 || contains(lowercase(e.name), pattern) || e.children.len() > 0
}

/// `filter_entities`: nothing at or below the depth ceiling; above it, each
/// entity with its children filtered, kept when it stays.
pub open spec fn filtered(es: Seq<EntityView>, pattern: Seq<char>, max_depth: Option<usize>, depth: usize) -> Seq<EntityView>
    decreases es, 1nat,
{
    if max_depth matches Some(d) && depth >= d {
        Seq::empty()
    } else if es.len() == 0 {
        Seq::empty()
    } else {
        let rest = filtered(es.drop_last(), pattern, max_depth, depth);
        let f = filter_entity(es.last(), pattern, max_depth, depth);
        if stays(f, pattern) {
            rest.push(f)
        } else {
            rest
        }
    }
}

/// Applies the depth ceiling, then the name pattern: entities at depth
/// `max_depth` or deeper are dropped; an entity stays when `pattern` is
/// empty, when its lowercased name contains `pattern`, or when one of its
/// children stays. `pattern` is expected in lowercase.
pub fn filter_entities(entities: Vec<Entity>, pattern: &str, max_depth: Option<usize>, depth: usize) -> (r: Vec<Entity>)
    ensures
        view_entities(r@) == filtered(view_entities(entities@), pattern@, max_depth, depth),
{
    let p = chars_of(pattern);
    filter_slice(&entities, &p, max_depth, depth)
}

fn filter_slice(entities: &Vec<Entity>, pattern: &Vec<char>, max_depth: Option<usize>, depth: usize) -> (r: Vec<Entity>)
    ensures
        view_entities(r@) == filtered(view_entities(entities@), pattern@, max_depth, depth),
    decreases entities,
{
    let ghost es = view_entities(entities@);
    proof {
        lemma_view_entities(entities@);
    }
    let mut out: Vec<Entity> = Vec::new();
    if let Some(d) = max_depth {
        if depth >= d {
            return out;
        }
    }
    let next = depth.saturating_add(1);
    let mut i: usize = 0;
    while i < entities.len()
        invariant
            i <= entities@.len(),
            es == view_entities(entities@),
            es.len() == entities@.len(),
            forall|k: int| 0 <= k < entities@.len() ==> #[trigger] es[k] == view_entity(entities@[k]),
            !(max_depth matches Some(d) && depth >= d),
            next == next_depth(depth),
            view_entities(out@) == filtered(es.take(i as int), pattern@, max_depth, depth),
        decreases entities.len() - i,
    {
        let e = &entities[i];
        let children = filter_slice(&e.children, pattern, max_depth, next);
        let stay = if pattern.len() == 0 {
            true
        } else {
            let lower = to_lower(e.name.as_str());
            let lc = chars_of(lower.as_str());
            contains_exec(&lc, pattern) || children.len() > 0
        };
        let ghost f = filter_entity(es[i as int], pattern@, max_depth, depth);
        proof {
            lemma_view_entities(children@);
            assert(es.take(i + 1).drop_last() =~= es.take(i as int));
            assert(es.take(i + 1).last() == es[i as int]);
            assert(f.children == view_entities(children@));
            assert(stay == stays(f, pattern@));
        }
        if stay {
            let kept = Entity {
                name: e.name.clone(),
                entity_type: e.entity_type,
                loc: e.loc,
                start_line: e.start_line,
                end_line: e.end_line,
                children,
                kind: e.kind.clone(),
            };
            let ghost before = out@;
            out.push(kept);
            proof {
                assert(out@.drop_last() =~= before);
                assert(view_entity(kept) =~= f);
            }
        }
        i += 1;
    }
    proof {
        assert(es.take(entities@.len() as int) =~= es);
    }
    out
}

// ── Test modules ─────────────────────────────────────────────────────────────

/// A namespace named `tests`.
pub open spec fn is_test_module(e: EntityView) -> bool {
    e.entity_type == EntityType::Namespace && e.name == "tests"@
}

fn is_test_module_exec(e: &Entity) -> (r: bool)
    ensures
        r == is_test_module(e@),
{
    e.entity_type == EntityType::Namespace && str_eq(e.name.as_str(), "tests")
}

/// `strip_test_modules`: every test module is dropped, at every depth.
pub open spec fn stripped(es: Seq<EntityView>) -> Seq<EntityView>
    decreases es,
{
    if es.len() == 0 {
        Seq::empty()
    } else {
        let rest = stripped(es.drop_last());
        let e = es.last();
        if is_test_module(e) {
            rest
        } else {
            rest.push(EntityView { children: stripped(e.children), ..e })
        }
    }
}

/// `keep_test_mods_inner`: an entity stays when it is a test module, when
/// it lies inside one, or when something below it stays.
pub open spec fn test_modules_kept(es: Seq<EntityView>, inside: bool) -> Seq<EntityView>
    decreases es,
{
    if es.len() == 0 {
        Seq::empty()
    } else {
        let rest = test_modules_kept(es.drop_last(), inside);
        let e = es.last();
        let t = is_test_module(e);
        let ch = test_modules_kept(e.children, inside || t);
        if t || inside || ch.len() > 0 {
            rest.push(EntityView { children: ch, ..e })
        } else {
            rest
        }
    }
}

/// The entities an `info` selection leaves: `"no-tests"` strips test
/// modules, `"tests-only"` keeps only them, anything else keeps all.
pub open spec fn info_filtered(es: Seq<EntityView>, info: Seq<char>) -> Seq<EntityView> {
    if info == "no-tests"@ {
        stripped(es)
    } else if info == "tests-only"@ {
        test_modules_kept(es, false)
    } else {
        es
    }
}

/// The values the entity info filter accepts.
pub open spec fn info_value(info: Seq<char>) -> bool {
    info == "all"@ || info == "no-tests"@ || info == "tests-only"@
}

/// Checks an entity info filter given on the command line: lowercased, it
/// must be `all`, `no-tests` or `tests-only`.
pub fn check_info(info: &str) -> (r: Result<String, String>)
    ensures
        r matches Ok(v) ==> v@ == lowercase(info@) && info_value(v@),
        r is Err <==> !info_value(lowercase(info@)),
        r matches Err(e) ==> e@ == "invalid --info value '"@ + info@ + "'. Valid: all, no-tests, tests-only"@,
{
    let lower = to_lower(info);
    if str_eq(lower.as_str(), "all") || str_eq(lower.as_str(), "no-tests") || str_eq(lower.as_str(), "tests-only") {
        Ok(lower)
    } else {
        Err(crate::text::concat3("invalid --info value '", info, "'. Valid: all, no-tests, tests-only"))
    }
}

/// Selects entities by their relation to test modules: `"no-tests"` drops
/// every namespace named `tests`, `"tests-only"` keeps test modules, what is
/// inside them and what leads to them, and any other value keeps everything.
pub fn filter_by_info(entities: Vec<Entity>, info: &str) -> (r: Vec<Entity>)
    ensures
        view_entities(r@) == info_filtered(view_entities(entities@), info@),
{
    if str_eq(info, "no-tests") {
        strip_test_modules(entities)
    } else if str_eq(info, "tests-only") {
        keep_test_modules_only(entities)
    } else {
        entities
    }
}

/// Drops every namespace named `tests`, at every depth.
pub fn strip_test_modules(entities: Vec<Entity>) -> (r: Vec<Entity>)
    ensures
        view_entities(r@) == stripped(view_entities(entities@)),
{
    strip_slice(&entities)
}

fn strip_slice(entities: &Vec<Entity>) -> (r: Vec<Entity>)
    ensures
        view_entities(r@) == stripped(view_entities(entities@)),
    decreases entities,
{
    let ghost es = view_entities(entities@);
    proof {
        lemma_view_entities(entities@);
    }
    let mut out: Vec<Entity> = Vec::new();
    let mut i: usize = 0;
    while i < entities.len()
        invariant
            i <= entities@.len(),
            es == view_entities(entities@),
            es.len() == entities@.len(),
            forall|k: int| 0 <= k < entities@.len() ==> #[trigger] es[k] == view_entity(entities@[k]),
            view_entities(out@) == stripped(es.take(i as int)),
        decreases entities.len() - i,
    {
        let e = &entities[i];
        proof {
            assert(es.take(i + 1).drop_last() =~= es.take(i as int));
            assert(es.take(i + 1).last() == es[i as int]);
        }
        if !is_test_module_exec(e) {
            let children = strip_slice(&e.children);
            let kept = Entity {
                name: e.name.clone(),
                entity_type: e.entity_type,
                loc: e.loc,
                start_line: e.start_line,
                end_line: e.end_line,
                children,
                kind: e.kind.clone(),
            };
            let ghost before = out@;
            out.push(kept);
            proof {
                assert(out@.drop_last() =~= before);
                assert(view_entity(kept) =~= EntityView { children: stripped(es[i as int].children), ..es[i as int] });
            }
        }
        i += 1;
    }
    proof {
        assert(es.take(entities@.len() as int) =~= es);
    }
    out
}

/// Keeps test modules, everything inside them, and the entities that lead
/// to them.
pub fn keep_test_modules_only(entities: Vec<Entity>) -> (r: Vec<Entity>)
    ensures
        view_entities(r@) == test_modules_kept(view_entities(entities@), false),
{
    keep_test_mods_inner(entities, false)
}

/// Keeps test modules and what leads to them; with `inside`, keeps
/// everything.
pub fn keep_test_mods_inner(entities: Vec<Entity>, inside: bool) -> (r: Vec<Entity>)
    ensures
        view_entities(r@) == test_modules_kept(view_entities(entities@), inside),
{
    keep_slice(&entities, inside)
}

fn keep_slice(entities: &Vec<Entity>, inside: bool) -> (r: Vec<Entity>)
    ensures
        view_entities(r@) == test_modules_kept(view_entities(entities@), inside),
    decreases entities,
{
    let ghost es = view_entities(entities@);
    proof {
        lemma_view_entities(entities@);
    }
    let mut out: Vec<Entity> = Vec::new();
    let mut i: usize = 0;
    while i < entities.len()
        invariant
            i <= entities@.len(),
            es == view_entities(entities@),
            es.len() == entities@.len(),
            forall|k: int| 0 <= k < entities@.len() ==> #[trigger] es[k] == view_entity(entities@[k]),
            view_entities(out@) == test_modules_kept(es.take(i as int), inside),
        decreases entities.len() - i,
    {
        let e = &entities[i];
        let t = is_test_module_exec(e);
        let children = keep_slice(&e.children, inside || t);
        proof {
            lemma_view_entities(children@);
            assert(es.take(i + 1).drop_last() =~= es.take(i as int));
            assert(es.take(i + 1).last() == es[i as int]);
        }
        if t || inside || children.len() > 0 {
            let kept = Entity {
                name: e.name.clone(),
                entity_type: e.entity_type,
                loc: e.loc,
                start_line: e.start_line,
                end_line: e.end_line,
                children,
                kind: e.kind.clone(),
            };
            let ghost before = out@;
            let ghost ch = test_modules_kept(es[i as int].children, inside || t);
            out.push(kept);
            proof {
                assert(out@.drop_last() =~= before);
                assert(view_entity(kept) =~= EntityView { children: ch, ..es[i as int] });
            }
        }
        i += 1;
    }
    proof {
        assert(es.take(entities@.len() as int) =~= es);
    }
    out
}

// ── Laws ─────────────────────────────────────────────────────────────────────

/// How deep the nesting goes: 0 for no entities, otherwise one more than the
/// deepest children.
pub open spec fn height(es: Seq<EntityView>) -> nat
    decreases es,
{
    if es.len() == 0 {
        0
    } else {
        let a = height(es.drop_last());
        let b = 1 + height(es.last().children);
        if a >= b {
            a
        } else {
            b
        }
    }
}

/// Whether a test module occurs anywhere among `es` or below them.
pub open spec fn has_test_module(es: Seq<EntityView>) -> bool
    decreases es,
{
    es.len() > 0 && (has_test_module(es.drop_last()) || is_test_module(es.last())
        || has_test_module(es.last().children))
}

/// With no pattern and no depth ceiling, filtering keeps every entity as it
/// is.
pub proof fn lemma_filter_without_criteria_keeps_all(es: Seq<EntityView>, depth: usize)
    ensures
        filtered(es, Seq::empty(), None, depth) == es,
    decreases es,
{
    if es.len() > 0 {
        lemma_filter_without_criteria_keeps_all(es.drop_last(), depth);
        lemma_filter_without_criteria_keeps_all(es.last().children, next_depth(depth));
        assert(filter_entity(es.last(), Seq::empty(), None, depth) == es.last());
        assert(es.drop_last().push(es.last()) =~= es);
    }
}

/// A depth ceiling is hard: below depth `max_depth` nothing survives, so the
/// nesting left is at most `max_depth - depth` levels.
pub proof fn lemma_filter_respects_depth_ceiling(es: Seq<EntityView>, pattern: Seq<char>, max_depth: usize, depth: usize)
    ensures
        depth <= max_depth ==> height(filtered(es, pattern, Some(max_depth), depth)) <= max_depth - depth,
        depth >= max_depth ==> filtered(es, pattern, Some(max_depth), depth) == Seq::<EntityView>::empty(),
    decreases es,
{
    if depth < max_depth && es.len() > 0 {
        lemma_filter_respects_depth_ceiling(es.drop_last(), pattern, max_depth, depth);
        lemma_filter_respects_depth_ceiling(es.last().children, pattern, max_depth, next_depth(depth));
        let rest = filtered(es.drop_last(), pattern, Some(max_depth), depth);
        let f = filter_entity(es.last(), pattern, Some(max_depth), depth);
        assert(rest.push(f).drop_last() =~= rest);
        assert(rest.push(f).last() == f);
    }
}

/// Stripping leaves no test module anywhere.
pub proof fn lemma_stripped_has_no_test_module(es: Seq<EntityView>)
    ensures
        !has_test_module(stripped(es)),
    decreases es,
{
    if es.len() > 0 {
        lemma_stripped_has_no_test_module(es.drop_last());
        lemma_stripped_has_no_test_module(es.last().children);
        let rest = stripped(es.drop_last());
        let e = es.last();
        if !is_test_module(e) {
            let f = EntityView { children: stripped(e.children), ..e };
            assert(rest.push(f).drop_last() =~= rest);
            assert(rest.push(f).last() == f);
        }
    }
}

/// Stripping twice strips nothing more.
pub proof fn lemma_strip_idempotent(es: Seq<EntityView>)
    ensures
        stripped(stripped(es)) == stripped(es),
    decreases es,
{
    if es.len() > 0 {
        lemma_strip_idempotent(es.drop_last());
        lemma_strip_idempotent(es.last().children);
        let rest = stripped(es.drop_last());
        let e = es.last();
        if !is_test_module(e) {
            let f = EntityView { children: stripped(e.children), ..e };
            let s = rest.push(f);
            assert(s.drop_last() =~= rest);
            assert(s.last() == f);
            assert(EntityView { children: stripped(f.children), ..f } == f);
        }
    }
}

/// Inside a test module everything is kept as it is.
pub proof fn lemma_kept_inside_is_identity(es: Seq<EntityView>)
    ensures
        test_modules_kept(es, true) == es,
    decreases es,
{
    if es.len() > 0 {
        lemma_kept_inside_is_identity(es.drop_last());
        lemma_kept_inside_is_identity(es.last().children);
        assert(EntityView { children: es.last().children, ..es.last() } == es.last());
        assert(es.drop_last().push(es.last()) =~= es);
    }
}

/// Selecting test modules twice selects nothing more.
pub proof fn lemma_keep_tests_idempotent(es: Seq<EntityView>)
    ensures
        test_modules_kept(test_modules_kept(es, false), false) == test_modules_kept(es, false),
    decreases es,
{
    if es.len() > 0 {
        lemma_keep_tests_idempotent(es.drop_last());
        lemma_keep_tests_idempotent(es.last().children);
        lemma_kept_inside_is_identity(test_modules_kept(es.last().children, true));
        let rest = test_modules_kept(es.drop_last(), false);
        let e = es.last();
        let t = is_test_module(e);
        let ch = test_modules_kept(e.children, t);
        if t || ch.len() > 0 {
            let f = EntityView { children: ch, ..e };
            let s = rest.push(f);
            assert(s.drop_last() =~= rest);
            assert(s.last() == f);
            if t {
                lemma_kept_inside_is_identity(ch);
            }
            assert(EntityView { children: test_modules_kept(f.children, t), ..f } == f);
        }
    }
}

// ── Order ────────────────────────────────────────────────────────────────────

proof fn lemma_filtered_ordered(es: Seq<EntityView>, pattern: Seq<char>, max_depth: Option<usize>, depth: usize)
    requires
        forest_ordered(es),
    ensures
        forest_ordered(filtered(es, pattern, max_depth, depth)),
        filtered(es, pattern, max_depth, depth).len() > 0 ==> exists|j: int|
            0 <= j < es.len() && filtered(es, pattern, max_depth, depth).last().name == #[trigger] es[j].name,
    decreases es,
{
    lemma_empty_forest_ordered();
    if !(max_depth matches Some(d) && depth >= d) && es.len() > 0 {
        let t = es.drop_last();
        lemma_forest_split(es);
        lemma_filtered_ordered(t, pattern, max_depth, depth);
        lemma_filtered_ordered(es.last().children, pattern, max_depth, next_depth(depth));
        let rest = filtered(t, pattern, max_depth, depth);
        let f = filter_entity(es.last(), pattern, max_depth, depth);
        let n = es.len() - 1;
        assert(es[n] == es.last());
        if rest.len() > 0 {
            let j = choose|j: int| 0 <= j < t.len() && rest.last().name == #[trigger] t[j].name;
            assert(t[j] == es[j]);
            lemma_ordered_pairwise(es, j, n);
        }
        if stays(f, pattern) {
            lemma_forest_push(rest, f);
        }
    }
}

proof fn lemma_stripped_ordered(es: Seq<EntityView>)
    requires
        forest_ordered(es),
    ensures
        forest_ordered(stripped(es)),
        stripped(es).len() > 0 ==> exists|j: int| 0 <= j < es.len() && stripped(es).last().name == #[trigger] es[j].name,
    decreases es,
{
    lemma_empty_forest_ordered();
    if es.len() > 0 {
        let t = es.drop_last();
        lemma_forest_split(es);
        lemma_stripped_ordered(t);
        lemma_stripped_ordered(es.last().children);
        let rest = stripped(t);
        let n = es.len() - 1;
        assert(es[n] == es.last());
        if rest.len() > 0 {
            let j = choose|j: int| 0 <= j < t.len() && rest.last().name == #[trigger] t[j].name;
            assert(t[j] == es[j]);
            lemma_ordered_pairwise(es, j, n);
        }
        if !is_test_module(es.last()) {
            lemma_forest_push(rest, EntityView { children: stripped(es.last().children), ..es.last() });
        }
    }
}

proof fn lemma_kept_ordered(es: Seq<EntityView>, inside: bool)
    requires
        forest_ordered(es),
    ensures
        forest_ordered(test_modules_kept(es, inside)),
        test_modules_kept(es, inside).len() > 0 ==> exists|j: int|
            0 <= j < es.len() && test_modules_kept(es, inside).last().name == #[trigger] es[j].name,
    decreases es,
{
    lemma_empty_forest_ordered();
    if es.len() > 0 {
        let t = es.drop_last();
        let e = es.last();
        let tm = is_test_module(e);
        lemma_forest_split(es);
        lemma_kept_ordered(t, inside);
        lemma_kept_ordered(e.children, inside || tm);
        let rest = test_modules_kept(t, inside);
        let ch = test_modules_kept(e.children, inside || tm);
        let n = es.len() - 1;
        assert(es[n] == e);
        if rest.len() > 0 {
            let j = choose|j: int| 0 <= j < t.len() && rest.last().name == #[trigger] t[j].name;
            assert(t[j] == es[j]);
            lemma_ordered_pairwise(es, j, n);
        }
        if tm || inside || ch.len() > 0 {
            lemma_forest_push(rest, EntityView { children: ch, ..e });
        }
    }
}

/// The entity filters keep every level in name order: what a name
/// pattern, a depth ceiling or a test-module selection leaves of a forest
/// in name order is in name order too.
pub proof fn lemma_filters_keep_name_order(
    es: Seq<EntityView>,
    pattern: Seq<char>,
    max_depth: Option<usize>,
    depth: usize,
    info: Seq<char>,
)
    requires
        forest_ordered(es),
    ensures
        forest_ordered(filtered(es, pattern, max_depth, depth)),
        forest_ordered(info_filtered(es, info)),
{
    lemma_filtered_ordered(es, pattern, max_depth, depth);
    lemma_stripped_ordered(es);
    lemma_kept_ordered(es, false);
}

/// Filtering twice with the same criteria is filtering once.
pub proof fn lemma_filter_idempotent(es: Seq<EntityView>, pattern: Seq<char>, max_depth: Option<usize>, depth: usize)
    ensures
        filtered(filtered(es, pattern, max_depth, depth), pattern, max_depth, depth) == filtered(
            es,
            pattern,
            max_depth,
            depth,
        ),
    decreases es,
{
    if !(max_depth matches Some(d) && depth >= d) && es.len() > 0 {
        lemma_filter_idempotent(es.drop_last(), pattern, max_depth, depth);
        lemma_filter_idempotent(es.last().children, pattern, max_depth, next_depth(depth));
        let rest = filtered(es.drop_last(), pattern, max_depth, depth);
        let f = filter_entity(es.last(), pattern, max_depth, depth);
        assert(filter_entity(f, pattern, max_depth, depth) == f);
        if stays(f, pattern) {
            let out = rest.push(f);
            assert(out.drop_last() =~= rest);
            assert(out.last() == f);
        }
    }
}

/// The depth ceiling and the name pattern can be applied one after the
/// other: cutting at the ceiling first, then matching without a ceiling,
/// gives what applying both at once gives.
pub proof fn lemma_depth_then_match(es: Seq<EntityView>, pattern: Seq<char>, max_depth: Option<usize>, depth: usize)
    ensures
        filtered(es, pattern, max_depth, depth) == filtered(
            filtered(es, Seq::empty(), max_depth, depth),
            pattern,
            None,
            depth,
        ),
    decreases es,
{
    if !(max_depth matches Some(d) && depth >= d) && es.len() > 0 {
        lemma_depth_then_match(es.drop_last(), pattern, max_depth, depth);
        lemma_depth_then_match(es.last().children, pattern, max_depth, next_depth(depth));
        let inner = filtered(es, Seq::empty(), max_depth, depth);
        let g = filter_entity(es.last(), Seq::empty(), max_depth, depth);
        assert(stays(g, Seq::empty()));
        assert(inner.drop_last() =~= filtered(es.drop_last(), Seq::empty(), max_depth, depth));
        assert(inner.last() == g);
        assert(filter_entity(g, pattern, None, depth) == filter_entity(es.last(), pattern, max_depth, depth));
    }
}

} // verus!
