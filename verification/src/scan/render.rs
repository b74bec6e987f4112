//! What a scan shows: entity path segments, counts and labels, and the
//! column layout of the tree view.
use vstd::prelude::*;

use crate::json::{lemma_view_jsons_push, text, view_fields, view_jsons, Json, JsonView, ObjBuilder};
use crate::lang::{lang_icon, lang_icon_of};
use crate::model::{
    lemma_view_entities, view_entities, view_entity, view_errors, view_results, view_strings, Dependency,
    DependencyKind, Entity, EntityType, EntityView, FileResult, FileView, SyntaxError,
};
use crate::text::{
    append_chars, append_padded, append_spaces, append_str, chars_of, concat2, concat3, decimal,
    decimal_chars, lemma_decimal_len_pos, owned, pad_left, spaces, string_from_chars,
    usize_to_string,
};

verus! {

// ── Labels ───────────────────────────────────────────────────────────────────

/// The segment an entity adds to an entity path: containers that are not
/// types carry a prefix (`impl`, `trait`, `mod`), the rest their name.
pub open spec fn segment_of(et: EntityType, name: Seq<char>) -> Seq<char> {
    match et {
        EntityType::Impl => "impl "@ + name,
        EntityType::Trait => "trait "@ + name,
        EntityType::Namespace => "mod "@ + name,
        _ => name,
    }
}

/// The segment an entity adds to an entity path.
pub fn entity_path_segment(et: &EntityType, name: &str) -> (r: String)
    ensures
        r@ == segment_of(*et, name@),
{
    match et {
        EntityType::Impl => concat2("impl ", name),
        EntityType::Trait => concat2("trait ", name),
        EntityType::Namespace => concat2("mod ", name),
        _ => owned(name),
    }
}

/// The name of an entity type, as its variant is written.
pub open spec fn type_label(et: EntityType) -> Seq<char> {
    match et {
        EntityType::Class => "Class"@,
        EntityType::Enum => "Enum"@,
        EntityType::Function => "Function"@,
        EntityType::Impl => "Impl"@,
        EntityType::Method => "Method"@,
        EntityType::Namespace => "Namespace"@,
        EntityType::Struct => "Struct"@,
        EntityType::Trait => "Trait"@,
    }
}

/// The name of an entity type.
pub fn entity_type_str(et: &EntityType) -> (r: &'static str)
    ensures
        r@ == type_label(*et),
{
    match et {
        EntityType::Class => "Class",
        EntityType::Enum => "Enum",
        EntityType::Function => "Function",
        EntityType::Impl => "Impl",
        EntityType::Method => "Method",
        EntityType::Namespace => "Namespace",
        EntityType::Struct => "Struct",
        EntityType::Trait => "Trait",
    }
}

/// The icon shown before an entity of a type.
pub open spec fn type_icon(et: EntityType) -> Seq<char> {
    match et {
        EntityType::Namespace => "󰅩"@,
        EntityType::Class => "󰌗"@,
        EntityType::Struct => "󰠱"@,
        EntityType::Enum => "󰒻"@,
        EntityType::Function => "󰊕"@,
        EntityType::Method => "󰊕"@,
        EntityType::Impl => "󰉺"@,
        EntityType::Trait => "󰜁"@,
    }
}

/// The icon shown before an entity of a type.
pub fn entity_icon(et: &EntityType) -> (r: &'static str)
    ensures
        r@ == type_icon(*et),
{
    match et {
        EntityType::Namespace => "󰅩",
        EntityType::Class => "󰌗",
        EntityType::Struct => "󰠱",
        EntityType::Enum => "󰒻",
        EntityType::Function => "󰊕",
        EntityType::Method => "󰊕",
        EntityType::Impl => "󰉺",
        EntityType::Trait => "󰜁",
    }
}

// ── Counting ─────────────────────────────────────────────────────────────────

/// A count as `usize`, held at `usize::MAX` when larger.
pub open spec fn capped(n: nat) -> usize {
    if n <= usize::MAX {
        n as usize
    } else {
        usize::MAX
    }
}

/// The number of entities in a forest, nested ones included.
pub open spec fn entity_count(es: Seq<EntityView>) -> nat
    decreases es,
{
    if es.len() == 0 {
        0
    } else {
        proof {
            assert(decreases_to!(es => es.last()));
        }
        entity_count(es.drop_last()) + 1 + entity_count(es.last().children)
    }
}

/// Entity counts add up: a forest of two parts holds the entities of both;
/// an empty forest holds none, and one entity counts itself and everything
/// below it.
pub proof fn lemma_entity_count_additive(a: Seq<EntityView>, b: Seq<EntityView>)
    ensures
        entity_count(a + b) == entity_count(a) + entity_count(b),
        entity_count(Seq::<EntityView>::empty()) == 0,
        b.len() == 1 ==> entity_count(b) == 1 + entity_count(b[0].children),
    decreases b.len(),
{
    if b.len() > 0 {
        lemma_entity_count_additive(a, b.drop_last());
        assert((a + b).drop_last() =~= a + b.drop_last());
        assert((a + b).last() == b.last());
    }
    if b.len() == 1 {
        assert(b.drop_last() =~= Seq::<EntityView>::empty());
    }
}

/// The number of entities, nested ones included.
pub fn count_entities(entities: &Vec<Entity>) -> (r: usize)
    ensures
        r == capped(entity_count(view_entities(entities@))),
    decreases entities,
{
    let ghost vs = view_entities(entities@);
    proof {
        lemma_view_entities(entities@);
    }
    let mut total: usize = 0;
    let mut i: usize = 0;
    while i < entities.len()
        invariant
            i <= entities@.len(),
            vs == view_entities(entities@),
            vs.len() == entities@.len(),
            forall|k: int| 0 <= k < entities@.len() ==> #[trigger] vs[k] == view_entity(entities@[k]),
            total == capped(entity_count(vs.take(i as int))),
        decreases entities.len() - i,
    {
        let inner = count_entities(&entities[i].children);
        proof {
            assert(vs.take(i + 1).drop_last() =~= vs.take(i as int));
            assert(vs.take(i + 1).last() == vs[i as int]);
        }
        total = total.saturating_add(1).saturating_add(inner);
        i += 1;
    }
    assert(vs.take(vs.len() as int) =~= vs);
    total
}

// ── Errors and dependencies ──────────────────────────────────────────────────

/// Some syntax error overlaps the entity's lines.
pub open spec fn overlaps_error(e: EntityView, errs: Seq<(Seq<char>, Seq<char>, usize, usize)>) -> bool {
    exists|i: int| 0 <= i < errs.len() && (#[trigger] errs[i]).2 <= e.end_line && errs[i].3 >= e.start_line
}

/// Whether a syntax error overlaps the entity's lines.
pub fn entity_has_error(entity: &Entity, errors: &[SyntaxError]) -> (r: bool)
    ensures
        r == overlaps_error(entity@, view_errors(errors@)),
{
    let ghost es = view_errors(errors@);
    let mut i: usize = 0;
    while i < errors.len()
        invariant
            i <= errors@.len(),
            es == view_errors(errors@),
            forall|k: int| 0 <= k < i ==> !((#[trigger] es[k]).2 <= entity.end_line && es[k].3 >= entity.start_line),
        decreases errors.len() - i,
    {
        if errors[i].start_line <= entity.end_line && errors[i].end_line >= entity.start_line {
            assert(es[i as int] == errors@[i as int]@);
            return true;
        }
        assert(es[i as int] == errors@[i as int]@);
        i += 1;
    }
    false
}

/// `n` followed by the word for one or for many.
pub open spec fn plural_text(n: usize, singular: Seq<char>, many: Seq<char>) -> Seq<char> {
    if n == 1 {
        "1 "@ + singular
    } else {
        decimal(n as nat) + " "@ + many
    }
}

/// `n` followed by the word for one or for many.
pub fn plural(n: usize, singular: &str, many: &str) -> (r: String)
    ensures
        r@ == plural_text(n, singular@, many@),
{
    if n == 1 {
        concat2("1 ", singular)
    } else {
        let d = usize_to_string(n);
        concat3(d.as_str(), " ", many)
    }
}

/// The error count shown for a file: nothing when it has none.
pub open spec fn errors_text(r: FileView) -> Seq<char> {
    if r.errors.len() == 0 {
        Seq::empty()
    } else {
        plural_text(r.errors.len() as usize, "error"@, "errors"@)
    }
}

/// The error count shown for a file.
pub fn format_errors(r: &FileResult) -> (s: String)
    ensures
        s@ == errors_text(r@),
{
    let n = r.errors.len();
    if n == 0 {
        return String::new();
    }
    plural(n, "error", "errors")
}

/// How many dependencies are of kind `k`.
pub open spec fn kind_count(ds: Seq<(Seq<char>, DependencyKind)>, k: DependencyKind) -> nat
    decreases ds.len(),
{
    if ds.len() == 0 {
        0
    } else {
        kind_count(ds.drop_last(), k) + if ds.last().1 == k {
            1nat
        } else {
            0nat
        }
    }
}

/// The dependency counts shown for a file: external then internal, each
/// only when not zero; with both, one `deps` closes the pair
/// (`2 ext  1 int deps`).
pub open spec fn deps_text(r: FileView) -> Seq<char> {
    let e = kind_count(r.dependencies, DependencyKind::External);
    let i = kind_count(r.dependencies, DependencyKind::Internal);
    if e == 0 && i == 0 {
        Seq::empty()
    } else if e == 0 {
        decimal(i) + " int deps"@
    } else if i == 0 {
        decimal(e) + " ext deps"@
    } else {
        decimal(e) + " ext  "@ + decimal(i) + " int deps"@
    }
}

/// The dependency counts shown for a file.
pub fn format_deps(r: &FileResult) -> (s: String)
    ensures
        s@ == deps_text(r@),
{
    let ghost ds = r@.dependencies;
    let mut ext: usize = 0;
    let mut internal: usize = 0;
    let mut i: usize = 0;
    while i < r.dependencies.len()
        invariant
            i <= r.dependencies@.len(),
            ds == r@.dependencies,
            ds.len() == r.dependencies@.len(),
            ext == kind_count(ds.take(i as int), DependencyKind::External),
            internal == kind_count(ds.take(i as int), DependencyKind::Internal),
            ext <= i,
            internal <= i,
        decreases r.dependencies.len() - i,
    {
        proof {
            assert(ds.take(i + 1).drop_last() =~= ds.take(i as int));
            assert(ds.take(i + 1).last() == r.dependencies@[i as int]@);
        }
        match r.dependencies[i].kind {
            DependencyKind::External => ext += 1,
            DependencyKind::Internal => internal += 1,
        }
        i += 1;
    }
    assert(ds.take(ds.len() as int) =~= ds);
    if ext == 0 && internal == 0 {
        String::new()
    } else if ext == 0 {
        concat2(usize_to_string(internal).as_str(), " int deps")
    } else if internal == 0 {
        concat2(usize_to_string(ext).as_str(), " ext deps")
    } else {
        let mut v = decimal_chars(ext);
        append_str(&mut v, " ext  ");
        let iv = decimal_chars(internal);
        append_chars(&mut v, &iv);
        append_str(&mut v, " int deps");
        string_from_chars(&v)
    }
}

// ── Widths ───────────────────────────────────────────────────────────────────

/// The number of terminal columns a text takes, as `unicode-width` counts
/// them.
pub uninterp spec fn display_width(s: Seq<char>) -> usize;

/// `UnicodeWidthStr::width`: the columns a text takes on a terminal. The
/// result is named `display_width`; nothing more is claimed of it.
#[verifier::external_body]
pub(crate) fn char_width(s: &str) -> (r: usize)
    ensures
        r == display_width(s@),
{
    unicode_width::UnicodeWidthStr::width(s)
}

/// The first line shown for a file: icon, path and language.
pub open spec fn header_text(r: FileView) -> Seq<char> {
    lang_icon_of(r.language) + " "@ + r.path + "  ["@ + r.language + "]"@
}

fn header_chars(r: &FileResult) -> (v: Vec<char>)
    ensures
        v@ == header_text(r@),
{
    let mut v = chars_of(lang_icon(r.language));
    append_str(&mut v, " ");
    append_str(&mut v, r.path.as_str());
    append_str(&mut v, "  [");
    append_str(&mut v, r.language);
    append_str(&mut v, "]");
    v
}

/// The columns the header line of a file takes.
pub fn header_width(r: &FileResult) -> (w: usize)
    ensures
        w == display_width(header_text(r@)),
{
    let h = header_chars(r);
    let s = string_from_chars(&h);
    char_width(s.as_str())
}

/// The columns the widest entity label of a forest takes at nesting
/// `depth`: three per level, five for the connector and icon, and the name.
pub open spec fn tree_width(es: Seq<EntityView>, depth: nat) -> nat
    decreases es,
{
    if es.len() == 0 {
        0
    } else {
        proof {
            assert(decreases_to!(es => es.last()));
        }
        let own: nat = depth * 3 + 5 + display_width(es.last().name) as nat;
        let below = tree_width(es.last().children, depth + 1);
        let here = if own >= below {
            own
        } else {
            below
        };
        let rest = tree_width(es.drop_last(), depth);
        if rest >= here {
            rest
        } else {
            here
        }
    }
}

proof fn lemma_tree_width_floor(es: Seq<EntityView>, depth: nat)
    ensures
        es.len() == 0 ==> tree_width(es, depth) == 0,
        es.len() > 0 ==> tree_width(es, depth) >= depth * 3 + 5,
    decreases es,
{
    if es.len() > 0 {
        assert(decreases_to!(es => es.last()));
        lemma_tree_width_floor(es.drop_last(), depth);
    }
}

/// The columns the widest entity label of a forest takes, held at
/// `usize::MAX`.
pub fn entity_tree_width(entities: &Vec<Entity>, depth: usize) -> (w: usize)
    ensures
        w == capped(tree_width(view_entities(entities@), depth as nat)),
    decreases entities,
{
    let ghost vs = view_entities(entities@);
    proof {
        lemma_view_entities(entities@);
    }
    let mut best: usize = 0;
    let mut i: usize = 0;
    while i < entities.len()
        invariant
            i <= entities@.len(),
            vs == view_entities(entities@),
            vs.len() == entities@.len(),
            forall|k: int| 0 <= k < entities@.len() ==> #[trigger] vs[k] == view_entity(entities@[k]),
            best == capped(tree_width(vs.take(i as int), depth as nat)),
        decreases entities.len() - i,
    {
        let e = &entities[i];
        let w = char_width(e.name.as_str());
        let a: usize = if depth <= usize::MAX / 3 {
            depth * 3
        } else {
            usize::MAX
        };
        let own = a.saturating_add(5).saturating_add(w);
        let next = if depth < usize::MAX {
            depth + 1
        } else {
            depth
        };
        let below = entity_tree_width(&e.children, next);
        proof {
            assert(vs.take(i + 1).drop_last() =~= vs.take(i as int));
            assert(vs.take(i + 1).last() == vs[i as int]);
            let c = vs[i as int].children;
            lemma_tree_width_floor(c, depth as nat + 1);
            lemma_tree_width_floor(c, next as nat);
            assert(own == capped(depth as nat * 3 + 5 + w as nat));
        }
        let here = if own >= below {
            own
        } else {
            below
        };
        if here > best {
            best = here;
        }
        i += 1;
    }
    assert(vs.take(vs.len() as int) =~= vs);
    best
}

/// The largest line count in a forest, or 0.
pub open spec fn max_loc_in(es: Seq<EntityView>) -> usize
    decreases es,
{
    if es.len() == 0 {
        0
    } else {
        proof {
            assert(decreases_to!(es => es.last()));
        }
        let e = es.last();
        let below = max_loc_in(e.children);
        let here = if e.loc >= below {
            e.loc
        } else {
            below
        };
        let rest = max_loc_in(es.drop_last());
        if rest >= here {
            rest
        } else {
            here
        }
    }
}

/// The largest last line in a forest, or 0.
pub open spec fn max_line_in(es: Seq<EntityView>) -> usize
    decreases es,
{
    if es.len() == 0 {
        0
    } else {
        proof {
            assert(decreases_to!(es => es.last()));
        }
        let e = es.last();
        let below = max_line_in(e.children);
        let here = if e.end_line >= below {
            e.end_line
        } else {
            below
        };
        let rest = max_line_in(es.drop_last());
        if rest >= here {
            rest
        } else {
            here
        }
    }
}

/// The larger of two counts.
pub open spec fn larger(a: usize, b: usize) -> usize {
    if a >= b {
        a
    } else {
        b
    }
}

/// Raises `max_loc` and `max_line` to the largest line count and last line
/// in the forest.
pub fn collect_max_values(entities: &Vec<Entity>, max_loc: &mut usize, max_line: &mut usize)
    ensures
        *final(max_loc) == larger(*old(max_loc), max_loc_in(view_entities(entities@))),
        *final(max_line) == larger(*old(max_line), max_line_in(view_entities(entities@))),
    decreases entities,
{
    let ghost vs = view_entities(entities@);
    let ghost loc0 = *max_loc;
    let ghost line0 = *max_line;
    proof {
        lemma_view_entities(entities@);
    }
    let mut i: usize = 0;
    while i < entities.len()
        invariant
            i <= entities@.len(),
            vs == view_entities(entities@),
            vs.len() == entities@.len(),
            forall|k: int| 0 <= k < entities@.len() ==> #[trigger] vs[k] == view_entity(entities@[k]),
            *max_loc == larger(loc0, max_loc_in(vs.take(i as int))),
            *max_line == larger(line0, max_line_in(vs.take(i as int))),
        decreases entities.len() - i,
    {
        let e = &entities[i];
        proof {
            assert(vs.take(i + 1).drop_last() =~= vs.take(i as int));
            assert(vs.take(i + 1).last() == vs[i as int]);
        }
        if e.loc > *max_loc {
            *max_loc = e.loc;
        }
        if e.end_line > *max_line {
            *max_line = e.end_line;
        }
        collect_max_values(&e.children, max_loc, max_line);
        i += 1;
    }
    assert(vs.take(vs.len() as int) =~= vs);
}

// ── The tree view ────────────────────────────────────────────────────────────

/// `a - b`, or 0 when `b` is larger: the padding before a column.
pub open spec fn gap(a: usize, b: usize) -> nat {
    if a >= b {
        (a - b) as nat
    } else {
        0
    }
}

/// The label of an entity row: the tree prefix, a connector, the icon and
/// the name.
pub open spec fn entity_label(e: EntityView, prefix: Seq<char>, last: bool) -> Seq<char> {
    prefix + (if last {
        "└─"@
    } else {
        "├─"@
    }) + " "@ + type_icon(e.entity_type) + " "@ + e.name
}

/// One entity row: label, padding to column `col`, line count, line range
/// and whether a syntax error touches it.
pub open spec fn entity_row(
    e: EntityView,
    label: Seq<char>,
    col: usize,
    lw: nat,
    rw: nat,
    errs: Seq<(Seq<char>, Seq<char>, usize, usize)>,
) -> Seq<char> {
    label + spaces(gap(col, display_width(label))) + "  "@ + pad_left(decimal(e.loc as nat), lw) + " LOC  ["@
        + pad_left(decimal(e.start_line as nat), rw) + "-"@ + pad_left(decimal(e.end_line as nat), rw) + "]  "@
        + (if overlaps_error(e, errs) {
        "⚠"@
    } else {
        "✓"@
    })
}

/// The rows of the entities of a forest from index `i` on, each followed by
/// the rows of its children under a deeper prefix.
pub open spec fn rows_from(
    es: Seq<EntityView>,
    i: int,
    prefix: Seq<char>,
    col: usize,
    lw: nat,
    rw: nat,
    errs: Seq<(Seq<char>, Seq<char>, usize, usize)>,
) -> Seq<Seq<char>>
    decreases es, es.len() - i,
{
    if i < 0 || i >= es.len() {
        Seq::empty()
    } else {
        let e = es[i];
        let last = i + 1 == es.len();
        let own = seq![entity_row(e, entity_label(e, prefix, last), col, lw, rw, errs)];
        let below = if e.children.len() > 0 {
            proof {
                assert(decreases_to!(es => es[i]));
            }
            rows_from(
                e.children,
                0,
                prefix + if last {
                    "   "@
                } else {
                    "│  "@
                },
                col,
                lw,
                rw,
                errs,
            )
        } else {
            Seq::empty()
        };
        own + below + rows_from(es, i + 1, prefix, col, lw, rw, errs)
    }
}

fn label_chars(e: &Entity, prefix: &Vec<char>, last: bool) -> (v: Vec<char>)
    ensures
        v@ == entity_label(e@, prefix@, last),
{
    let mut v: Vec<char> = Vec::new();
    append_chars(&mut v, prefix);
    if last {
        append_str(&mut v, "└─");
    } else {
        append_str(&mut v, "├─");
    }
    append_str(&mut v, " ");
    append_str(&mut v, entity_icon(&e.entity_type));
    append_str(&mut v, " ");
    append_str(&mut v, e.name.as_str());
    v
}

fn entity_row_of(e: &Entity, label: &Vec<char>, col: usize, lw: usize, rw: usize, errors: &Vec<SyntaxError>) -> (s: String)
    ensures
        s@ == entity_row(e@, label@, col, lw as nat, rw as nat, view_errors(errors@)),
{
    let mut v: Vec<char> = Vec::new();
    append_chars(&mut v, label);
    let w = char_width(string_from_chars(label).as_str());
    if col >= w {
        append_spaces(&mut v, col - w);
    } else {
        append_spaces(&mut v, 0);
    }
    append_str(&mut v, "  ");
    append_padded(&mut v, e.loc, lw);
    append_str(&mut v, " LOC  [");
    append_padded(&mut v, e.start_line, rw);
    append_str(&mut v, "-");
    append_padded(&mut v, e.end_line, rw);
    append_str(&mut v, "]  ");
    if entity_has_error(e, errors.as_slice()) {
        append_str(&mut v, "⚠");
    } else {
        append_str(&mut v, "✓");
    }
    string_from_chars(&v)
}

/// Appends the rows of a forest under `prefix`.
pub fn print_entities(
    entities: &Vec<Entity>,
    prefix: &Vec<char>,
    col: usize,
    lw: usize,
    rw: usize,
    errors: &Vec<SyntaxError>,
    out: &mut Vec<String>,
)
    ensures
        view_strings(final(out)@) == view_strings(old(out)@) + rows_from(
            view_entities(entities@),
            0,
            prefix@,
            col,
            lw as nat,
            rw as nat,
            view_errors(errors@),
        ),
    decreases entities,
{
    let ghost vs = view_entities(entities@);
    let ghost errs = view_errors(errors@);
    let ghost start = view_strings(out@);
    proof {
        lemma_view_entities(entities@);
    }
    let n = entities.len();
    let mut i: usize = 0;
    while i < n
        invariant
            n == entities@.len(),
            i <= n,
            vs == view_entities(entities@),
            vs.len() == n,
            errs == view_errors(errors@),
            forall|k: int| 0 <= k < n ==> #[trigger] vs[k] == view_entity(entities@[k]),
            start + rows_from(vs, 0, prefix@, col, lw as nat, rw as nat, errs) == view_strings(out@)
                + rows_from(vs, i as int, prefix@, col, lw as nat, rw as nat, errs),
        decreases n - i,
    {
        let e = &entities[i];
        let last = i + 1 == n;
        let label = label_chars(e, prefix, last);
        let row = entity_row_of(e, &label, col, lw, rw, errors);
        let ghost before = view_strings(out@);
        out.push(row);
        proof {
            assert(view_strings(out@) =~= before.push(row@));
        }
        if e.children.len() > 0 {
            let mut deeper = prefix.clone();
            if last {
                append_str(&mut deeper, "   ");
            } else {
                append_str(&mut deeper, "│  ");
            }
            proof {
                assert(deeper@ == prefix@ + if last {
                    "   "@
                } else {
                    "│  "@
                });
            }
            print_entities(&e.children, &deeper, col, lw, rw, errors, out);
        }
        proof {
            let e_v = vs[i as int];
            assert(e_v == view_entity(entities@[i as int]));
            assert(e_v.children.len() == e.children@.len()) by {
                crate::model::lemma_view_entities_len(e.children@);
            }
            assert(view_strings(out@) + rows_from(vs, i + 1, prefix@, col, lw as nat, rw as nat, errs) =~= before
                + rows_from(vs, i as int, prefix@, col, lw as nat, rw as nat, errs));
        }
        i += 1;
    }
}

/// The column a file needs: its header or its widest entity label.
pub open spec fn file_col(r: FileView) -> usize {
    larger(display_width(header_text(r)), capped(tree_width(r.entities, 0)))
}

/// The widest column any file needs.
pub open spec fn widest(rs: Seq<FileView>) -> usize
    decreases rs.len(),
{
    if rs.len() == 0 {
        0
    } else {
        larger(widest(rs.drop_last()), file_col(rs.last()))
    }
}

/// The largest line count of any file or entity, at least 1.
pub open spec fn loc_peak(rs: Seq<FileView>) -> usize
    decreases rs.len(),
{
    if rs.len() == 0 {
        1
    } else {
        larger(larger(loc_peak(rs.drop_last()), rs.last().loc), max_loc_in(rs.last().entities))
    }
}

/// The largest last line of any entity, at least 1.
pub open spec fn line_peak(rs: Seq<FileView>) -> usize
    decreases rs.len(),
{
    if rs.len() == 0 {
        1
    } else {
        larger(line_peak(rs.drop_last()), max_line_in(rs.last().entities))
    }
}

/// The number of entities of all files.
pub open spec fn entities_total(rs: Seq<FileView>) -> nat
    decreases rs.len(),
{
    if rs.len() == 0 {
        0
    } else {
        entities_total(rs.drop_last()) + entity_count(rs.last().entities)
    }
}

/// What follows a file's entity count: its dependency and error counts,
/// where there are any.
pub open spec fn row_suffix(r: FileView) -> Seq<char> {
    let d = deps_text(r);
    let e = errors_text(r);
    if d.len() == 0 && e.len() == 0 {
        Seq::empty()
    } else if d.len() == 0 {
        "  "@ + e
    } else if e.len() == 0 {
        "  "@ + d
    } else {
        "  "@ + d + "  "@ + e
    }
}

/// The row of a file: header, padding to `col`, line count, entity count
/// and the suffix.
pub open spec fn file_row(r: FileView, col: usize, lw: nat) -> Seq<char> {
    header_text(r) + spaces(gap(col, display_width(header_text(r)))) + "  "@ + pad_left(decimal(r.loc as nat), lw)
        + " LOC  "@ + plural_text(capped(entity_count(r.entities)), "entity"@, "entities"@) + row_suffix(r)
}

/// The rows of one file: a blank row before every file but the first, the
/// file's row, and its entities' rows.
pub open spec fn file_block(r: FileView, first: bool, col: usize, lw: nat, rw: nat) -> Seq<Seq<char>> {
    (if first {
        Seq::empty()
    } else {
        seq![Seq::<char>::empty()]
    }) + seq![file_row(r, col, lw)] + rows_from(r.entities, 0, Seq::empty(), col, lw, rw, r.errors)
}

/// The rows of all files, in order.
pub open spec fn blocks(rs: Seq<FileView>, col: usize, lw: nat, rw: nat) -> Seq<Seq<char>>
    decreases rs.len(),
{
    if rs.len() == 0 {
        Seq::empty()
    } else {
        blocks(rs.drop_last(), col, lw, rw) + file_block(rs.last(), rs.len() == 1, col, lw, rw)
    }
}

/// The tree view of a scan, line by line: the files with their entities,
/// in one column layout, then a blank line and the totals.
pub open spec fn tree_lines(rs: Seq<FileView>) -> Seq<Seq<char>> {
    let col = capped(widest(rs) as nat + 3);
    let lw = decimal(loc_peak(rs) as nat).len();
    let rw = decimal(line_peak(rs) as nat).len();
    blocks(rs, col, lw, rw) + seq![
        Seq::<char>::empty(),
        plural_text(capped(rs.len()), "file"@, "files"@) + "  "@ + plural_text(
            capped(entities_total(rs)),
            "entity"@,
            "entities"@,
        ),
    ]
}

fn file_row_of(r: &FileResult, col: usize, lw: usize) -> (s: String)
    ensures
        s@ == file_row(r@, col, lw as nat),
{
    let header = header_chars(r);
    let w = char_width(string_from_chars(&header).as_str());
    let mut v = header;
    if col >= w {
        append_spaces(&mut v, col - w);
    } else {
        append_spaces(&mut v, 0);
    }
    append_str(&mut v, "  ");
    append_padded(&mut v, r.loc, lw);
    append_str(&mut v, " LOC  ");
    let n = count_entities(&r.entities);
    append_str(&mut v, plural(n, "entity", "entities").as_str());
    let d = format_deps(r);
    let e = format_errors(r);
    let d_none = chars_of(d.as_str()).len() == 0;
    let e_none = chars_of(e.as_str()).len() == 0;
    if d_none && e_none {
    } else if d_none {
        append_str(&mut v, "  ");
        append_str(&mut v, e.as_str());
    } else if e_none {
        append_str(&mut v, "  ");
        append_str(&mut v, d.as_str());
    } else {
        append_str(&mut v, "  ");
        append_str(&mut v, d.as_str());
        append_str(&mut v, "  ");
        append_str(&mut v, e.as_str());
    }
    string_from_chars(&v)
}

/// The tree view of a scan, one line per element: every file's row and
/// entity rows in a shared column layout, then a blank line and the totals.
pub fn print_tree(results: &Vec<FileResult>) -> (lines: Vec<String>)
    ensures
        view_strings(lines@) == tree_lines(view_results(results@)),
{
    let ghost rs = view_results(results@);
    let n = results.len();
    let mut widest_col: usize = 0;
    let mut max_loc: usize = 1;
    let mut max_line: usize = 1;
    let mut total: usize = 0;
    let mut i: usize = 0;
    while i < n
        invariant
            n == results@.len(),
            i <= n,
            rs == view_results(results@),
            widest_col == widest(rs.take(i as int)),
            max_loc == loc_peak(rs.take(i as int)),
            max_line == line_peak(rs.take(i as int)),
            total == capped(entities_total(rs.take(i as int))),
        decreases n - i,
    {
        let r = &results[i];
        proof {
            assert(rs.take(i + 1).drop_last() =~= rs.take(i as int));
            assert(rs.take(i + 1).last() == r@);
        }
        let h = header_width(r);
        let t = entity_tree_width(&r.entities, 0);
        let c = if h >= t {
            h
        } else {
            t
        };
        if c > widest_col {
            widest_col = c;
        }
        if r.loc > max_loc {
            max_loc = r.loc;
        }
        collect_max_values(&r.entities, &mut max_loc, &mut max_line);
        total = total.saturating_add(count_entities(&r.entities));
        i += 1;
    }
    assert(rs.take(n as int) =~= rs);
    let col = widest_col.saturating_add(3);
    let lw = decimal_chars(max_loc).len();
    let rw = decimal_chars(max_line).len();
    let mut out: Vec<String> = Vec::new();
    let mut i: usize = 0;
    while i < n
        invariant
            n == results@.len(),
            i <= n,
            rs == view_results(results@),
            view_strings(out@) == blocks(rs.take(i as int), col, lw as nat, rw as nat),
        decreases n - i,
    {
        let r = &results[i];
        proof {
            assert(rs.take(i + 1).drop_last() =~= rs.take(i as int));
            assert(rs.take(i + 1).last() == r@);
        }
        let ghost before = view_strings(out@);
        if i > 0 {
            out.push(String::new());
        }
        out.push(file_row_of(r, col, lw));
        let empty: Vec<char> = Vec::new();
        print_entities(&r.entities, &empty, col, lw, rw, &r.errors, &mut out);
        proof {
            assert(empty@ =~= Seq::<char>::empty());
            assert(view_strings(out@) =~= before + file_block(r@, i == 0, col, lw as nat, rw as nat));
        }
        i += 1;
    }
    let mut last = plural(n, "file", "files");
    let tail = plural(total, "entity", "entities");
    let mut v = chars_of(last.as_str());
    append_str(&mut v, "  ");
    append_str(&mut v, tail.as_str());
    out.push(String::new());
    out.push(string_from_chars(&v));
    assert(view_strings(out@) =~= tree_lines(rs));
    out
}

// ── JSON output ──────────────────────────────────────────────────────────────

/// How a dependency kind is written.
pub open spec fn kind_word(k: DependencyKind) -> Seq<char> {
    match k {
        DependencyKind::Internal => "internal"@,
        DependencyKind::External => "external"@,
    }
}

/// A dependency as JSON.
pub open spec fn dep_json(d: (Seq<char>, DependencyKind)) -> JsonView {
    JsonView::Obj(seq![("name"@, JsonView::Str(d.0)), ("kind"@, JsonView::Str(kind_word(d.1)))])
}

/// A syntax error as JSON.
pub open spec fn error_json(e: (Seq<char>, Seq<char>, usize, usize)) -> JsonView {
    JsonView::Obj(
        seq![
            ("kind"@, JsonView::Str(e.0)),
            ("node_kind"@, JsonView::Str(e.1)),
            ("start_line"@, JsonView::Num(e.2)),
            ("end_line"@, JsonView::Num(e.3)),
        ],
    )
}

/// The entity path of an entity: its parent's path (or the file's path at
/// top level), ` > `, and its segment.
pub open spec fn child_path(file_path: Seq<char>, parent_path: Seq<char>, segment: Seq<char>) -> Seq<char> {
    if parent_path.len() == 0 {
        file_path + " > "@ + segment
    } else {
        parent_path + " > "@ + segment
    }
}

/// The JSON fields every entity record has, below `path`.
pub open spec fn entity_fields(e: EntityView, path: Seq<char>, children: Seq<JsonView>) -> Seq<(Seq<char>, JsonView)> {
    seq![
        ("entity_path"@, JsonView::Str(path)),
        ("name"@, JsonView::Str(e.name)),
        ("entity_type"@, JsonView::Str(type_label(e.entity_type))),
        ("loc"@, JsonView::Num(e.loc)),
        ("start_line"@, JsonView::Num(e.start_line)),
        ("end_line"@, JsonView::Num(e.end_line)),
        ("children"@, JsonView::Arr(children)),
    ]
}

/// An entity and its children as JSON, each with its entity path.
pub open spec fn entity_json(e: EntityView, file_path: Seq<char>, parent_path: Seq<char>) -> JsonView
    decreases e, 1nat,
{
    let path = child_path(file_path, parent_path, segment_of(e.entity_type, e.name));
    JsonView::Obj(entity_fields(e, path, entities_json(e.children, file_path, path)))
}

/// A forest as JSON.
pub open spec fn entities_json(es: Seq<EntityView>, file_path: Seq<char>, parent_path: Seq<char>) -> Seq<JsonView>
    decreases es, 0nat,
{
    if es.len() == 0 {
        Seq::empty()
    } else {
        entities_json(es.drop_last(), file_path, parent_path).push(entity_json(es.last(), file_path, parent_path))
    }
}

/// The entity path below `parent_path` (or the file) for a segment.
pub fn entity_path_of(file_path: &str, parent_path: &str, segment: &str) -> (r: String)
    ensures
        r@ == child_path(file_path@, parent_path@, segment@),
{
    if chars_of(parent_path).len() == 0 {
        concat3(file_path, " > ", segment)
    } else {
        concat3(parent_path, " > ", segment)
    }
}

fn entity_record(e: &Entity, path: String, children: Vec<Json>) -> (j: Json)
    ensures
        j@ == JsonView::Obj(entity_fields(e@, path@, view_jsons(children@))),
{
    let mut b = ObjBuilder::new();
    b.field("entity_path", Json::Str(path));
    b.field("name", Json::Str(e.name.clone()));
    b.field("entity_type", text(entity_type_str(&e.entity_type)));
    b.field("loc", Json::Num(e.loc));
    b.field("start_line", Json::Num(e.start_line));
    b.field("end_line", Json::Num(e.end_line));
    b.field("children", Json::Arr(children));
    assert(view_fields(b.fields@) =~= entity_fields(e@, path@, view_jsons(children@)));
    let j = b.build();
    assert(j@ == JsonView::Obj(entity_fields(e@, path@, view_jsons(children@))));
    j
}

/// A forest as JSON records, each carrying its entity path.
pub fn json_entities(entities: &Vec<Entity>, file_path: &str, parent_path: &str) -> (r: Vec<Json>)
    ensures
        view_jsons(r@) == entities_json(view_entities(entities@), file_path@, parent_path@),
    decreases entities,
{
    let ghost vs = view_entities(entities@);
    proof {
        lemma_view_entities(entities@);
    }
    let mut out: Vec<Json> = Vec::new();
    let mut i: usize = 0;
    while i < entities.len()
        invariant
            i <= entities@.len(),
            vs == view_entities(entities@),
            vs.len() == entities@.len(),
            forall|k: int| 0 <= k < entities@.len() ==> #[trigger] vs[k] == view_entity(entities@[k]),
            view_jsons(out@) == entities_json(vs.take(i as int), file_path@, parent_path@),
        decreases entities.len() - i,
    {
        let e = &entities[i];
        proof {
            assert(vs.take(i + 1).drop_last() =~= vs.take(i as int));
            assert(vs.take(i + 1).last() == vs[i as int]);
        }
        let seg = entity_path_segment(&e.entity_type, e.name.as_str());
        let path = entity_path_of(file_path, parent_path, seg.as_str());
        let children = json_entities(&e.children, file_path, path.as_str());
        let rec = entity_record(e, path, children);
        proof {
            lemma_view_jsons_push(out@, rec);
            assert(vs[i as int] == e@);
            assert(rec@ == entity_json(e@, file_path@, parent_path@));
            assert(entities_json(vs.take(i + 1), file_path@, parent_path@) == entities_json(
                vs.take(i as int),
                file_path@,
                parent_path@,
            ).push(entity_json(vs[i as int], file_path@, parent_path@)));
        }
        out.push(rec);
        i += 1;
    }
    assert(vs.take(vs.len() as int) =~= vs);
    out
}

/// The lines of code of all files.
pub open spec fn loc_total(rs: Seq<FileView>) -> nat
    decreases rs.len(),
{
    if rs.len() == 0 {
        0
    } else {
        loc_total(rs.drop_last()) + rs.last().loc as nat
    }
}

/// The syntax errors of all files.
pub open spec fn errors_total(rs: Seq<FileView>) -> nat
    decreases rs.len(),
{
    if rs.len() == 0 {
        0
    } else {
        errors_total(rs.drop_last()) + rs.last().errors.len()
    }
}

/// A file's record.
pub open spec fn file_json(r: FileView) -> JsonView {
    JsonView::Obj(
        seq![
            ("path"@, JsonView::Str(r.path)),
            ("language"@, JsonView::Str(r.language)),
            ("loc"@, JsonView::Num(r.loc)),
            ("entity_count"@, JsonView::Num(capped(entity_count(r.entities)))),
            ("imports"@, JsonView::Arr(r.imports.map_values(|s: Seq<char>| JsonView::Str(s)))),
            ("dependencies"@, JsonView::Arr(r.dependencies.map_values(|d: (Seq<char>, DependencyKind)| dep_json(d)))),
            ("errors"@, JsonView::Arr(r.errors.map_values(|e: (Seq<char>, Seq<char>, usize, usize)| error_json(e)))),
            ("entities"@, JsonView::Arr(entities_json(r.entities, r.path, Seq::empty()))),
        ],
    )
}

/// The JSON document of a scan: totals and every file's record.
pub open spec fn results_json(rs: Seq<FileView>, scan_path: Seq<char>, version: Seq<char>) -> JsonView {
    JsonView::Obj(
        seq![
            ("version"@, JsonView::Str(version)),
            ("scan_path"@, JsonView::Str(scan_path)),
            ("total_files"@, JsonView::Num(capped(rs.len()))),
            ("total_loc"@, JsonView::Num(capped(loc_total(rs)))),
            ("total_entities"@, JsonView::Num(capped(entities_total(rs)))),
            ("total_errors"@, JsonView::Num(capped(errors_total(rs)))),
            ("files"@, JsonView::Arr(rs.map_values(|r: FileView| file_json(r)))),
        ],
    )
}

fn file_record(r: &FileResult) -> (j: Json)
    ensures
        j@ == file_json(r@),
{
    let ghost rv = r@;
    let mut imports: Vec<Json> = Vec::new();
    let mut i: usize = 0;
    while i < r.imports.len()
        invariant
            i <= r.imports@.len(),
            rv == r@,
            view_jsons(imports@) == rv.imports.take(i as int).map_values(|s: Seq<char>| JsonView::Str(s)),
        decreases r.imports.len() - i,
    {
        let j = Json::Str(r.imports[i].clone());
        proof {
            lemma_view_jsons_push(imports@, j);
            assert(rv.imports[i as int] == r.imports@[i as int]@);
            assert(rv.imports.take(i + 1).map_values(|s: Seq<char>| JsonView::Str(s)) =~= rv.imports.take(
                i as int,
            ).map_values(|s: Seq<char>| JsonView::Str(s)).push(JsonView::Str(rv.imports[i as int])));
        }
        imports.push(j);
        i += 1;
    }
    assert(rv.imports.take(rv.imports.len() as int) =~= rv.imports);
    let mut deps: Vec<Json> = Vec::new();
    let mut i: usize = 0;
    while i < r.dependencies.len()
        invariant
            i <= r.dependencies@.len(),
            rv == r@,
            view_jsons(deps@) == rv.dependencies.take(i as int).map_values(
                |d: (Seq<char>, DependencyKind)| dep_json(d),
            ),
        decreases r.dependencies.len() - i,
    {
        let d = &r.dependencies[i];
        let mut b = ObjBuilder::new();
        b.field("name", Json::Str(d.name.clone()));
        let word = match d.kind {
            DependencyKind::Internal => "internal",
            DependencyKind::External => "external",
        };
        b.field("kind", text(word));
        assert(view_fields(b.fields@) =~= seq![("name"@, JsonView::Str(d@.0)), ("kind"@, JsonView::Str(kind_word(d@.1)))]);
        let j = b.build();
        proof {
            lemma_view_jsons_push(deps@, j);
            assert(rv.dependencies[i as int] == d@);
            assert(j@ == dep_json(d@));
            assert(rv.dependencies.take(i + 1).map_values(|d: (Seq<char>, DependencyKind)| dep_json(d))
                =~= rv.dependencies.take(i as int).map_values(|d: (Seq<char>, DependencyKind)| dep_json(d)).push(
                dep_json(rv.dependencies[i as int]),
            ));
        }
        deps.push(j);
        i += 1;
    }
    assert(rv.dependencies.take(rv.dependencies.len() as int) =~= rv.dependencies);
    let mut errs: Vec<Json> = Vec::new();
    let mut i: usize = 0;
    while i < r.errors.len()
        invariant
            i <= r.errors@.len(),
            rv == r@,
            view_jsons(errs@) == rv.errors.take(i as int).map_values(
                |e: (Seq<char>, Seq<char>, usize, usize)| error_json(e),
            ),
        decreases r.errors.len() - i,
    {
        let e = &r.errors[i];
        let mut b = ObjBuilder::new();
        b.field("kind", Json::Str(e.kind.clone()));
        b.field("node_kind", Json::Str(e.node_kind.clone()));
        b.field("start_line", Json::Num(e.start_line));
        b.field("end_line", Json::Num(e.end_line));
        assert(view_fields(b.fields@) =~= seq![
            ("kind"@, JsonView::Str(e@.0)),
            ("node_kind"@, JsonView::Str(e@.1)),
            ("start_line"@, JsonView::Num(e@.2)),
            ("end_line"@, JsonView::Num(e@.3)),
        ]);
        let j = b.build();
        proof {
            lemma_view_jsons_push(errs@, j);
            assert(rv.errors[i as int] == e@);
            assert(j@ == error_json(e@));
            assert(rv.errors.take(i + 1).map_values(|e: (Seq<char>, Seq<char>, usize, usize)| error_json(e))
                =~= rv.errors.take(i as int).map_values(|e: (Seq<char>, Seq<char>, usize, usize)| error_json(e)).push(
                error_json(rv.errors[i as int]),
            ));
        }
        errs.push(j);
        i += 1;
    }
    assert(rv.errors.take(rv.errors.len() as int) =~= rv.errors);
    let mut b = ObjBuilder::new();
    b.field("path", Json::Str(r.path.clone()));
    b.field("language", text(r.language));
    b.field("loc", Json::Num(r.loc));
    b.field("entity_count", Json::Num(count_entities(&r.entities)));
    b.field("imports", Json::Arr(imports));
    b.field("dependencies", Json::Arr(deps));
    b.field("errors", Json::Arr(errs));
    b.field("entities", Json::Arr(json_entities(&r.entities, r.path.as_str(), "")));
    proof {
        reveal_strlit("");
        assert(""@ =~= Seq::<char>::empty());
    }
    let j = b.build();
    assert(view_fields(b.fields@) =~= match file_json(r@) {
        JsonView::Obj(fs) => fs,
        _ => Seq::empty(),
    });
    assert(j@ == file_json(r@));
    j
}

/// The JSON document of a scan: the version, the scanned path, totals of
/// files, lines, entities and syntax errors, and every file's record with
/// its imports, dependencies, errors and entities.
pub fn results_to_json(results: &Vec<FileResult>, scan_path: &str, version: &str) -> (j: Json)
    ensures
        j@ == results_json(view_results(results@), scan_path@, version@),
{
    let ghost rs = view_results(results@);
    let mut files: Vec<Json> = Vec::new();
    let mut loc: usize = 0;
    let mut ents: usize = 0;
    let mut errs: usize = 0;
    let mut i: usize = 0;
    while i < results.len()
        invariant
            i <= results@.len(),
            rs == view_results(results@),
            view_jsons(files@) == rs.take(i as int).map_values(|r: FileView| file_json(r)),
            loc == capped(loc_total(rs.take(i as int))),
            ents == capped(entities_total(rs.take(i as int))),
            errs == capped(errors_total(rs.take(i as int))),
        decreases results.len() - i,
    {
        let r = &results[i];
        proof {
            assert(rs.take(i + 1).drop_last() =~= rs.take(i as int));
            assert(rs.take(i + 1).last() == r@);
        }
        let j = file_record(r);
        proof {
            lemma_view_jsons_push(files@, j);
            assert(rs.take(i + 1).map_values(|r: FileView| file_json(r)) =~= rs.take(i as int).map_values(
                |r: FileView| file_json(r),
            ).push(file_json(r@)));
        }
        files.push(j);
        loc = loc.saturating_add(r.loc);
        ents = ents.saturating_add(count_entities(&r.entities));
        errs = errs.saturating_add(r.errors.len());
        i += 1;
    }
    assert(rs.take(rs.len() as int) =~= rs);
    let mut b = ObjBuilder::new();
    b.field("version", text(version));
    b.field("scan_path", text(scan_path));
    b.field("total_files", Json::Num(results.len()));
    b.field("total_loc", Json::Num(loc));
    b.field("total_entities", Json::Num(ents));
    b.field("total_errors", Json::Num(errs));
    b.field("files", Json::Arr(files));
    assert(view_fields(b.fields@) =~= match results_json(rs, scan_path@, version@) {
        JsonView::Obj(fs) => fs,
        _ => Seq::empty(),
    });
    let j = b.build();
    assert(j@ == results_json(rs, scan_path@, version@));
    j
}

} // verus!
