//! Questions asked of a scan: one entity by its path, totals by language
//! and by entity type, and every entity with a given name.
use vstd::prelude::*;

use crate::json::{field, lemma_view_jsons_push, text, view_fields, view_jsons, Json, JsonView, ObjBuilder};
use crate::lang::name_lt;
use crate::lang::name_less;
use crate::model::{
    lemma_view_entities, view_entities, view_entity, view_results, Entity, EntityType, EntityView,
    FileResult, FileView,
};
use crate::scan::render::{
    capped, count_entities, entities_json, entity_count, entity_fields, entity_path_segment,
    entity_type_str, json_entities, loc_total, entities_total, segment_of, type_label,
};
use crate::text::{
    chars_of, concat3, find, find_exec, find_from, lemma_find_from_facts, lowercase, occurs_at,
    slice_range, split_on, split_on_exec, str_eq, string_from_chars, to_lower,
};

verus! {

// ── One entity by path ───────────────────────────────────────────────────────

/// `s.split_once(sep)`: the text before and after the first `sep`.
pub open spec fn split_once(s: Seq<char>, sep: Seq<char>) -> Option<(Seq<char>, Seq<char>)> {
    match find(s, sep) {
        Some(k) => Some((s.take(k), s.skip(k + sep.len()))),
        None => None,
    }
}

/// The first entity from index `i` whose path segment is `seg`.
pub open spec fn with_segment_from(es: Seq<EntityView>, seg: Seq<char>, i: int) -> Option<EntityView>
    decreases es.len() - i,
{
    if i < 0 || i >= es.len() {
        None
    } else if segment_of(es[i].entity_type, es[i].name) == seg {
        Some(es[i])
    } else {
        with_segment_from(es, seg, i + 1)
    }
}

/// The entity reached by following the segments from index `i` down the
/// forest, one level per segment.
pub open spec fn walk_from(es: Seq<EntityView>, segs: Seq<Seq<char>>, i: int) -> Option<EntityView>
    decreases segs.len() - i,
{
    if i < 0 || i >= segs.len() {
        None
    } else {
        match with_segment_from(es, segs[i], 0) {
            Some(e) => if i + 1 == segs.len() {
                Some(e)
            } else {
                walk_from(e.children, segs, i + 1)
            },
            None => None,
        }
    }
}

/// The first file from index `i` whose path is `path`.
pub open spec fn file_from(rs: Seq<FileView>, path: Seq<char>, i: int) -> Option<FileView>
    decreases rs.len() - i,
{
    if i < 0 || i >= rs.len() {
        None
    } else if rs[i].path == path {
        Some(rs[i])
    } else {
        file_from(rs, path, i + 1)
    }
}

/// The record of the entity an entity path names: the file before the
/// first ` > `, then one segment per level. None when the path has no
/// separator, names no scanned file, or a segment matches nothing.
pub open spec fn found_entity(rs: Seq<FileView>, entity_path: Seq<char>) -> Option<JsonView> {
    match split_once(entity_path, " > "@) {
        Some((file_seg, _)) => found_entity_in(rs, file_seg, entity_path),
        None => None,
    }
}

/// The record of the entity an entity path names, looked up in the scanned
/// file `file` whatever the path's own file segment says (a relative
/// segment names the file that was resolved and scanned): the segments
/// after the first ` > `, one per level, and the record under the path as
/// given. None when the path has no separator, `file` was not scanned, or a
/// segment matches nothing.
pub open spec fn found_entity_in(rs: Seq<FileView>, file: Seq<char>, entity_path: Seq<char>) -> Option<JsonView> {
    match split_once(entity_path, " > "@) {
        Some((_, rest)) => match file_from(rs, file, 0) {
            Some(r) => match walk_from(r.entities, split_on(rest, " > "@), 0) {
                Some(e) => Some(
                    JsonView::Obj(entity_fields(e, entity_path, entities_json(e.children, r.path, entity_path))),
                ),
                None => None,
            },
            None => None,
        },
        None => None,
    }
}

proof fn lemma_with_segment_from(es: Seq<EntityView>, seg: Seq<char>, i: int)
    requires
        0 <= i,
    ensures
        with_segment_from(es, seg, i) matches Some(e) ==> exists|k: int| i <= k < es.len() && es[k] == e,
    decreases es.len() - i,
{
    if i < es.len() && segment_of(es[i].entity_type, es[i].name) != seg {
        lemma_with_segment_from(es, seg, i + 1);
    }
}

fn find_by_segment(es: &Vec<Entity>, seg: &str) -> (r: Option<usize>)
    ensures
        r matches Some(k) ==> k < es@.len() && with_segment_from(view_entities(es@), seg@, 0) == Some(
            view_entity(es@[k as int]),
        ),
        r is None ==> with_segment_from(view_entities(es@), seg@, 0) is None,
{
    let ghost vs = view_entities(es@);
    proof {
        lemma_view_entities(es@);
    }
    let mut i: usize = 0;
    while i < es.len()
        invariant
            i <= es@.len(),
            vs == view_entities(es@),
            vs.len() == es@.len(),
            forall|k: int| 0 <= k < es@.len() ==> #[trigger] vs[k] == view_entity(es@[k]),
            with_segment_from(vs, seg@, 0) == with_segment_from(vs, seg@, i as int),
        decreases es.len() - i,
    {
        let s = entity_path_segment(&es[i].entity_type, es[i].name.as_str());
        if str_eq(s.as_str(), seg) {
            assert(vs[i as int] == view_entity(es@[i as int]));
            return Some(i);
        }
        assert(vs[i as int] == view_entity(es@[i as int]));
        i += 1;
    }
    None
}

fn split_once_exec(s: &str, sep: &str) -> (r: Option<(String, String)>)
    ensures
        r matches Some(p) ==> split_once(s@, sep@) == Some((p.0@, p.1@)),
        r is None ==> split_once(s@, sep@) is None,
{
    let cs = chars_of(s);
    let ps = chars_of(sep);
    match find_exec(&cs, &ps) {
        Some(k) => {
            proof {
                lemma_find_from_facts(cs@, ps@, 0);
                assert(find_from(cs@, ps@, 0) == Some(k as int));
                assert(occurs_at(cs@, ps@, k as int));
            }
            let n = cs.len();
            let a = slice_range(&cs, 0, k);
            let b = slice_range(&cs, k + ps.len(), n);
            assert(b@ =~= cs@.skip(k + ps@.len()));
            assert(a@ =~= cs@.take(k as int));
            Some((string_from_chars(&a), string_from_chars(&b)))
        },
        None => None,
    }
}

fn find_file(results: &Vec<FileResult>, path: &str) -> (r: Option<usize>)
    ensures
        r matches Some(k) ==> k < results@.len() && file_from(view_results(results@), path@, 0) == Some(
            results@[k as int]@,
        ),
        r is None ==> file_from(view_results(results@), path@, 0) is None,
{
    let ghost rs = view_results(results@);
    let mut i: usize = 0;
    while i < results.len()
        invariant
            i <= results@.len(),
            rs == view_results(results@),
            file_from(rs, path@, 0) == file_from(rs, path@, i as int),
        decreases results.len() - i,
    {
        if str_eq(results[i].path.as_str(), path) {
            return Some(i);
        }
        i += 1;
    }
    None
}

/// Looks up one entity by its entity path and returns its record, with
/// its children below it.
pub fn find_entity(results: &Vec<FileResult>, entity_path: &str) -> (r: Option<Json>)
    ensures
        r matches Some(j) ==> found_entity(view_results(results@), entity_path@) == Some(j@),
        r is None ==> found_entity(view_results(results@), entity_path@) is None,
{
    match split_once_exec(entity_path, " > ") {
        Some((file_seg, _)) => find_entity_in(results, file_seg.as_str(), entity_path),
        None => None,
    }
}

/// Looks up one entity by its entity path in the scanned file `file`,
/// whatever the path's own file segment says, and returns its record under
/// the path as given.
pub fn find_entity_in(results: &Vec<FileResult>, file: &str, entity_path: &str) -> (r: Option<Json>)
    ensures
        r matches Some(j) ==> found_entity_in(view_results(results@), file@, entity_path@) == Some(j@),
        r is None ==> found_entity_in(view_results(results@), file@, entity_path@) is None,
{
    let ghost rs = view_results(results@);
    let (file_seg, rest) = match split_once_exec(entity_path, " > ") {
        Some(p) => p,
        None => return None,
    };
    let fi = match find_file(results, file) {
        Some(k) => k,
        None => return None,
    };
    let result = &results[fi];
    proof {
        reveal_strlit(" > ");
    }
    let segs = split_on_exec(&chars_of(rest.as_str()), &chars_of(" > "));
    let ghost ss = split_on(rest@, " > "@);
    let mut current: &Vec<Entity> = &result.entities;
    let mut i: usize = 0;
    while i < segs.len()
        invariant
            i <= segs@.len(),
            rs == view_results(results@),
            split_once(entity_path@, " > "@) == Some((file_seg@, rest@)),
            file_from(rs, file@, 0) == Some(result@),
            ss == split_on(rest@, " > "@),
            segs@.len() == ss.len(),
            forall|k: int| 0 <= k < segs@.len() ==> (#[trigger] segs@[k])@ == ss[k],
            walk_from(view_entities(result.entities@), ss, 0) == walk_from(view_entities(current@), ss, i as int),
        decreases segs.len() - i,
    {
        let seg = string_from_chars(&segs[i]);
        assert(seg@ == ss[i as int]);
        match find_by_segment(current, seg.as_str()) {
            Some(k) => {
                let e = &current[k];
                assert(with_segment_from(view_entities(current@), ss[i as int], 0) == Some(e@));
                if i + 1 == segs.len() {
                    let children = json_entities(&e.children, result.path.as_str(), entity_path);
                    let mut b = ObjBuilder::new();
                    b.field("entity_path", text(entity_path));
                    b.field("name", Json::Str(e.name.clone()));
                    b.field("entity_type", text(entity_type_str(&e.entity_type)));
                    b.field("loc", Json::Num(e.loc));
                    b.field("start_line", Json::Num(e.start_line));
                    b.field("end_line", Json::Num(e.end_line));
                    b.field("children", Json::Arr(children));
                    assert(view_fields(b.fields@) =~= entity_fields(e@, entity_path@, view_jsons(children@)));
                    assert(walk_from(view_entities(result.entities@), ss, 0) == Some(e@));
                    return Some(b.build());
                }
                current = &e.children;
            },
            None => return None,
        }
        i += 1;
    }
    None
}

// ── Totals ───────────────────────────────────────────────────────────────────

/// `a + b`, held at `usize::MAX`.
pub open spec fn sat(a: usize, b: nat) -> usize {
    capped(a as nat + b)
}

/// Per-language totals: name, files, lines, entities.
pub type LangStat = (Seq<char>, usize, usize, usize);

/// Where a language's totals sit among totals sorted by name: the first
/// entry from `i` on whose name does not sort before it.
pub open spec fn stat_pos(stats: Seq<LangStat>, lang: Seq<char>, i: int) -> int
    decreases stats.len() - i,
{
    if i < 0 || i >= stats.len() || !name_lt(stats[i].0, lang) {
        i
    } else {
        stat_pos(stats, lang, i + 1)
    }
}

/// The totals with one more file of `lang`: its entry grows, or a new one
/// is placed in name order.
pub open spec fn add_stat(stats: Seq<LangStat>, lang: Seq<char>, loc: usize, ents: usize) -> Seq<LangStat> {
    let p = stat_pos(stats, lang, 0);
    if 0 <= p < stats.len() && stats[p].0 == lang {
        stats.update(p, (lang, sat(stats[p].1, 1), sat(stats[p].2, loc as nat), sat(stats[p].3, ents as nat)))
    } else {
        stats.insert(p, (lang, 1, loc, ents))
    }
}

/// The totals of every language among the files, sorted by name.
pub open spec fn lang_stats(rs: Seq<FileView>) -> Seq<LangStat>
    decreases rs.len(),
{
    if rs.len() == 0 {
        Seq::empty()
    } else {
        add_stat(lang_stats(rs.drop_last()), rs.last().language, rs.last().loc, capped(entity_count(rs.last().entities)))
    }
}

/// How many entities of type `et` a forest holds, nested ones included.
pub open spec fn type_count(es: Seq<EntityView>, et: EntityType) -> nat
    decreases es,
{
    if es.len() == 0 {
        0
    } else {
        proof {
            assert(decreases_to!(es => es.last()));
        }
        type_count(es.drop_last(), et) + (if es.last().entity_type == et {
            1nat
        } else {
            0nat
        }) + type_count(es.last().children, et)
    }
}

/// How many entities of type `et` all files hold.
pub open spec fn type_total(rs: Seq<FileView>, et: EntityType) -> nat
    decreases rs.len(),
{
    if rs.len() == 0 {
        0
    } else {
        type_total(rs.drop_last(), et) + type_count(rs.last().entities, et)
    }
}

/// The entity types, by position in the order of their names.
pub open spec fn type_at(k: int) -> EntityType {
    if k == 0 {
        EntityType::Class
    } else if k == 1 {
        EntityType::Enum
    } else if k == 2 {
        EntityType::Function
    } else if k == 3 {
        EntityType::Impl
    } else if k == 4 {
        EntityType::Method
    } else if k == 5 {
        EntityType::Namespace
    } else if k == 6 {
        EntityType::Struct
    } else {
        EntityType::Trait
    }
}

/// The per-type counts from position `k` on, for the types that
/// occur.
pub open spec fn type_rows_from(rs: Seq<FileView>, k: int) -> Seq<JsonView>
    decreases 8 - k,
{
    if k < 0 || k >= 8 {
        Seq::empty()
    } else {
        let n = capped(type_total(rs, type_at(k)));
        (if n > 0 {
            seq![
                JsonView::Obj(
                    seq![
                        ("entity_type"@, JsonView::Str(type_label(type_at(k)))),
                        ("count"@, JsonView::Num(n)),
                    ],
                ),
            ]
        } else {
            Seq::empty()
        }) + type_rows_from(rs, k + 1)
    }
}

/// One language's totals as JSON.
pub open spec fn stat_json(s: LangStat) -> JsonView {
    JsonView::Obj(
        seq![
            ("language"@, JsonView::Str(s.0)),
            ("files"@, JsonView::Num(s.1)),
            ("loc"@, JsonView::Num(s.2)),
            ("entities"@, JsonView::Num(s.3)),
        ],
    )
}

/// The summary of a scan: totals, then totals per language (sorted by
/// name) and per entity type (sorted by name, only types that occur).
pub open spec fn summary_json(rs: Seq<FileView>, scan_path: Seq<char>) -> JsonView {
    JsonView::Obj(
        seq![
            ("scan_path"@, JsonView::Str(scan_path)),
            ("total_files"@, JsonView::Num(capped(rs.len()))),
            ("total_loc"@, JsonView::Num(capped(loc_total(rs)))),
            ("total_entities"@, JsonView::Num(capped(entities_total(rs)))),
            ("by_language"@, JsonView::Arr(lang_stats(rs).map_values(|s: LangStat| stat_json(s)))),
            ("by_entity_type"@, JsonView::Arr(type_rows_from(rs, 0))),
        ],
    )
}

/// The values of per-language totals.
pub open spec fn view_stats(v: Seq<(String, usize, usize, usize)>) -> Seq<LangStat> {
    v.map_values(|s: (String, usize, usize, usize)| (s.0@, s.1, s.2, s.3))
}

fn add_stat_of(stats: &mut Vec<(String, usize, usize, usize)>, lang: &str, loc: usize, ents: usize)
    ensures
        view_stats(final(stats)@) == add_stat(view_stats(old(stats)@), lang@, loc, ents),
{
    let ghost vs = view_stats(stats@);
    let mut p: usize = 0;
    while p < stats.len() && name_less(stats[p].0.as_str(), lang)
        invariant
            p <= stats@.len(),
            vs == view_stats(stats@),
            stat_pos(vs, lang@, 0) == stat_pos(vs, lang@, p as int),
        decreases stats.len() - p,
    {
        assert(vs[p as int].0 == stats@[p as int].0@);
        p += 1;
    }
    if p < stats.len() {
        assert(vs[p as int].0 == stats@[p as int].0@);
    }
    if p < stats.len() && str_eq(stats[p].0.as_str(), lang) {
        let (name, files, lines, count) = stats.remove(p);
        let entry = (name, files.saturating_add(1), lines.saturating_add(loc), count.saturating_add(ents));
        stats.insert(p, entry);
        assert(view_stats(stats@) =~= add_stat(vs, lang@, loc, ents));
    } else {
        stats.insert(p, (crate::text::owned(lang), 1, loc, ents));
        assert(view_stats(stats@) =~= add_stat(vs, lang@, loc, ents));
    }
}

/// The position of an entity type in the order of their names.
pub fn type_index(et: &EntityType) -> (k: usize)
    ensures
        k < 8,
        type_at(k as int) == *et,
{
    match et {
        EntityType::Class => 0,
        EntityType::Enum => 1,
        EntityType::Function => 2,
        EntityType::Impl => 3,
        EntityType::Method => 4,
        EntityType::Namespace => 5,
        EntityType::Struct => 6,
        EntityType::Trait => 7,
    }
}

/// Adds the entities of a forest to per-type counts indexed by
/// `type_at`, each count held at `usize::MAX`.
pub fn count_by_type(entities: &Vec<Entity>, counts: &mut Vec<usize>)
    requires
        old(counts)@.len() == 8,
    ensures
        final(counts)@.len() == 8,
        forall|k: int|
            0 <= k < 8 ==> #[trigger] final(counts)@[k] == capped(
                old(counts)@[k] as nat + type_count(view_entities(entities@), type_at(k)),
            ),
    decreases entities,
{
    let ghost vs = view_entities(entities@);
    let ghost start = counts@;
    proof {
        lemma_view_entities(entities@);
    }
    let mut i: usize = 0;
    while i < entities.len()
        invariant
            start.len() == 8,
            i <= entities@.len(),
            vs == view_entities(entities@),
            vs.len() == entities@.len(),
            forall|k: int| 0 <= k < entities@.len() ==> #[trigger] vs[k] == view_entity(entities@[k]),
            counts@.len() == 8,
            forall|k: int|
                0 <= k < 8 ==> #[trigger] counts@[k] == capped(
                    start[k] as nat + type_count(vs.take(i as int), type_at(k)),
                ),
        decreases entities.len() - i,
    {
        let e = &entities[i];
        proof {
            assert(vs.take(i + 1).drop_last() =~= vs.take(i as int));
            assert(vs.take(i + 1).last() == vs[i as int]);
        }
        let t = type_index(&e.entity_type);
        let c = counts[t];
        counts.set(t, c.saturating_add(1));
        let ghost mid = counts@;
        count_by_type(&e.children, counts);
        proof {
            let ch = view_entities(e.children@);
            assert(vs[i as int].children == ch);
            assert(vs[i as int].entity_type == e.entity_type);
            assert forall|k: int| 0 <= k < 8 implies #[trigger] counts@[k] == capped(
                start[k] as nat + type_count(vs.take(i + 1), type_at(k)),
            ) by {
                assert(type_count(vs.take(i + 1), type_at(k)) == type_count(vs.take(i as int), type_at(k)) + (if vs[i as int].entity_type == type_at(k) {
                    1nat
                } else {
                    0nat
                }) + type_count(ch, type_at(k)));
                if k != t {
                    assert(type_at(k) != type_at(t as int));
                }
            }
        }
        i += 1;
    }
    assert(vs.take(vs.len() as int) =~= vs);
}

/// Aggregate counts of a scan: files, lines and entities in all, per
/// language (sorted by name) and per entity type (sorted by name, only the
/// types that occur).
pub fn summarize(results: &Vec<FileResult>, scan_path: &str) -> (j: Json)
    ensures
        j@ == summary_json(view_results(results@), scan_path@),
{
    let ghost rs = view_results(results@);
    let mut stats: Vec<(String, usize, usize, usize)> = Vec::new();
    let mut counts: Vec<usize> = vec![0, 0, 0, 0, 0, 0, 0, 0];
    let mut loc: usize = 0;
    let mut ents: usize = 0;
    let mut i: usize = 0;
    assert(view_stats(stats@) =~= Seq::<LangStat>::empty());
    while i < results.len()
        invariant
            i <= results@.len(),
            rs == view_results(results@),
            view_stats(stats@) == lang_stats(rs.take(i as int)),
            counts@.len() == 8,
            forall|k: int| 0 <= k < 8 ==> #[trigger] counts@[k] == capped(type_total(rs.take(i as int), type_at(k))),
            loc == capped(loc_total(rs.take(i as int))),
            ents == capped(entities_total(rs.take(i as int))),
        decreases results.len() - i,
    {
        let r = &results[i];
        proof {
            assert(rs.take(i + 1).drop_last() =~= rs.take(i as int));
            assert(rs.take(i + 1).last() == r@);
        }
        let n = count_entities(&r.entities);
        add_stat_of(&mut stats, r.language, r.loc, n);
        count_by_type(&r.entities, &mut counts);
        loc = loc.saturating_add(r.loc);
        ents = ents.saturating_add(n);
        i += 1;
    }
    assert(rs.take(rs.len() as int) =~= rs);
    let mut by_language: Vec<Json> = Vec::new();
    let mut i: usize = 0;
    while i < stats.len()
        invariant
            i <= stats@.len(),
            view_jsons(by_language@) == view_stats(stats@).take(i as int).map_values(|s: LangStat| stat_json(s)),
        decreases stats.len() - i,
    {
        let st = &stats[i];
        let mut b = ObjBuilder::new();
        b.field("language", Json::Str(st.0.clone()));
        b.field("files", Json::Num(st.1));
        b.field("loc", Json::Num(st.2));
        b.field("entities", Json::Num(st.3));
        let ghost sv = view_stats(stats@)[i as int];
        assert(view_fields(b.fields@) =~= seq![
            ("language"@, JsonView::Str(sv.0)),
            ("files"@, JsonView::Num(sv.1)),
            ("loc"@, JsonView::Num(sv.2)),
            ("entities"@, JsonView::Num(sv.3)),
        ]);
        let j = b.build();
        proof {
            lemma_view_jsons_push(by_language@, j);
            assert(view_stats(stats@).take(i + 1).map_values(|s: LangStat| stat_json(s)) =~= view_stats(stats@).take(
                i as int,
            ).map_values(|s: LangStat| stat_json(s)).push(stat_json(sv)));
        }
        by_language.push(j);
        i += 1;
    }
    assert(view_stats(stats@).take(stats@.len() as int) =~= view_stats(stats@));
    let kinds = vec![
        EntityType::Class,
        EntityType::Enum,
        EntityType::Function,
        EntityType::Impl,
        EntityType::Method,
        EntityType::Namespace,
        EntityType::Struct,
        EntityType::Trait,
    ];
    assert(forall|m: int| 0 <= m < 8 ==> #[trigger] kinds@[m] == type_at(m));
    let mut by_type: Vec<Json> = Vec::new();
    let mut k: usize = 0;
    while k < 8
        invariant
            k <= 8,
            kinds@.len() == 8,
            forall|m: int| 0 <= m < 8 ==> #[trigger] kinds@[m] == type_at(m),
            counts@.len() == 8,
            forall|m: int| 0 <= m < 8 ==> #[trigger] counts@[m] == capped(type_total(rs, type_at(m))),
            view_jsons(by_type@) + type_rows_from(rs, k as int) == type_rows_from(rs, 0),
        decreases 8 - k,
    {
        let n = counts[k];
        let ghost before = view_jsons(by_type@);
        if n > 0 {
            let mut b = ObjBuilder::new();
            b.field("entity_type", text(entity_type_str(&kinds[k])));
            b.field("count", Json::Num(n));
            assert(view_fields(b.fields@) =~= seq![
                ("entity_type"@, JsonView::Str(type_label(type_at(k as int)))),
                ("count"@, JsonView::Num(n)),
            ]);
            let j = b.build();
            proof {
                lemma_view_jsons_push(by_type@, j);
            }
            by_type.push(j);
        }
        proof {
            assert(view_jsons(by_type@) + type_rows_from(rs, k + 1) =~= before + type_rows_from(rs, k as int));
        }
        k += 1;
    }
    assert(view_jsons(by_type@) =~= type_rows_from(rs, 0));
    let mut b = ObjBuilder::new();
    b.field("scan_path", text(scan_path));
    b.field("total_files", Json::Num(results.len()));
    b.field("total_loc", Json::Num(loc));
    b.field("total_entities", Json::Num(ents));
    b.field("by_language", Json::Arr(by_language));
    b.field("by_entity_type", Json::Arr(by_type));
    assert(view_fields(b.fields@) =~= match summary_json(rs, scan_path@) {
        JsonView::Obj(fs) => fs,
        _ => Seq::empty(),
    });
    b.build()
}

// ── Every entity with a name ─────────────────────────────────────────────────

/// A match found by name: its path, name, type, lines of code and lines.
pub open spec fn match_json(e: EntityView, path: Seq<char>) -> JsonView {
    JsonView::Obj(
        seq![
            ("entity_path"@, JsonView::Str(path)),
            ("name"@, JsonView::Str(e.name)),
            ("entity_type"@, JsonView::Str(type_label(e.entity_type))),
            ("loc"@, JsonView::Num(e.loc)),
            ("start_line"@, JsonView::Num(e.start_line)),
            ("end_line"@, JsonView::Num(e.end_line)),
        ],
    )
}

/// The entities of a forest below `parent` whose lowercased name is
/// `name_lower`, in pre-order.
pub open spec fn matches_in(es: Seq<EntityView>, name_lower: Seq<char>, parent: Seq<char>) -> Seq<JsonView>
    decreases es,
{
    if es.len() == 0 {
        Seq::empty()
    } else {
        proof {
            assert(decreases_to!(es => es.last()));
        }
        let e = es.last();
        let path = parent + " > "@ + segment_of(e.entity_type, e.name);
        matches_in(es.drop_last(), name_lower, parent) + (if lowercase(e.name) == name_lower {
            seq![match_json(e, path)]
        } else {
            Seq::empty()
        }) + matches_in(e.children, name_lower, path)
    }
}

/// The entities of all files whose name is `name`, ignoring case, in file
/// order and pre-order within a file.
pub open spec fn located(rs: Seq<FileView>, name: Seq<char>) -> Seq<JsonView>
    decreases rs.len(),
{
    if rs.len() == 0 {
        Seq::empty()
    } else {
        located(rs.drop_last(), name) + matches_in(rs.last().entities, lowercase(name), rs.last().path)
    }
}

/// Appends the entities of a forest whose lowercased name is `name_lower`.
pub fn collect_matches(entities: &Vec<Entity>, name_lower: &str, parent_path: &str, matches: &mut Vec<Json>)
    ensures
        view_jsons(final(matches)@) == view_jsons(old(matches)@) + matches_in(
            view_entities(entities@),
            name_lower@,
            parent_path@,
        ),
    decreases entities,
{
    let ghost vs = view_entities(entities@);
    let ghost start = view_jsons(matches@);
    proof {
        lemma_view_entities(entities@);
    }
    let mut i: usize = 0;
    while i < entities.len()
        invariant
            i <= entities@.len(),
            vs == view_entities(entities@),
            vs.len() == entities@.len(),
            forall|k: int| 0 <= k < entities@.len() ==> #[trigger] vs[k] == view_entity(entities@[k]),
            view_jsons(matches@) == start + matches_in(vs.take(i as int), name_lower@, parent_path@),
        decreases entities.len() - i,
    {
        let e = &entities[i];
        proof {
            assert(vs.take(i + 1).drop_last() =~= vs.take(i as int));
            assert(vs.take(i + 1).last() == vs[i as int]);
        }
        let seg = entity_path_segment(&e.entity_type, e.name.as_str());
        let path = concat3(parent_path, " > ", seg.as_str());
        let ghost before = view_jsons(matches@);
        if str_eq(to_lower(e.name.as_str()).as_str(), name_lower) {
            let mut b = ObjBuilder::new();
            b.field("entity_path", Json::Str(path.clone()));
            b.field("name", Json::Str(e.name.clone()));
            b.field("entity_type", text(entity_type_str(&e.entity_type)));
            b.field("loc", Json::Num(e.loc));
            b.field("start_line", Json::Num(e.start_line));
            b.field("end_line", Json::Num(e.end_line));
            assert(view_fields(b.fields@) =~= match match_json(e@, path@) {
                JsonView::Obj(fs) => fs,
                _ => Seq::empty(),
            });
            let j = b.build();
            proof {
                lemma_view_jsons_push(matches@, j);
            }
            matches.push(j);
        }
        let ghost mid = view_jsons(matches@);
        collect_matches(&e.children, name_lower, path.as_str(), matches);
        proof {
            assert(view_jsons(matches@) =~= start + matches_in(vs.take(i + 1), name_lower@, parent_path@));
        }
        i += 1;
    }
    assert(vs.take(vs.len() as int) =~= vs);
}

/// Every entity named `name`, ignoring case, across all files.
pub fn locate(results: &Vec<FileResult>, name: &str) -> (r: Vec<Json>)
    ensures
        view_jsons(r@) == located(view_results(results@), name@),
{
    let ghost rs = view_results(results@);
    let lower = to_lower(name);
    let mut out: Vec<Json> = Vec::new();
    let mut i: usize = 0;
    while i < results.len()
        invariant
            i <= results@.len(),
            rs == view_results(results@),
            lower@ == lowercase(name@),
            view_jsons(out@) == located(rs.take(i as int), name@),
        decreases results.len() - i,
    {
        let r = &results[i];
        proof {
            assert(rs.take(i + 1).drop_last() =~= rs.take(i as int));
            assert(rs.take(i + 1).last() == r@);
        }
        collect_matches(&r.entities, lower.as_str(), r.path.as_str(), &mut out);
        i += 1;
    }
    assert(rs.take(rs.len() as int) =~= rs);
    out
}

// ── Per-type counts add up ───────────────────────────────────────────────────

/// The sum of a forest's counts over every entity type.
pub open spec fn all_types(es: Seq<EntityView>) -> nat {
    type_count(es, EntityType::Class) + type_count(es, EntityType::Enum) + type_count(es, EntityType::Function)
        + type_count(es, EntityType::Impl) + type_count(es, EntityType::Method) + type_count(
        es,
        EntityType::Namespace,
    ) + type_count(es, EntityType::Struct) + type_count(es, EntityType::Trait)
}

/// Every entity of a forest, nested ones included, has exactly one type:
/// the per-type counts add up to the number of entities.
pub proof fn lemma_type_counts_add_up(es: Seq<EntityView>)
    ensures
        all_types(es) == entity_count(es),
    decreases es,
{
    if es.len() > 0 {
        assert(decreases_to!(es => es.last()));
        lemma_type_counts_add_up(es.drop_last());
        lemma_type_counts_add_up(es.last().children);
    }
}

/// The per-type totals of all files.
pub open spec fn all_type_totals(rs: Seq<FileView>, k: int) -> nat
    decreases 8 - k,
{
    if k < 0 || k >= 8 {
        0
    } else {
        type_total(rs, type_at(k)) + all_type_totals(rs, k + 1)
    }
}

proof fn lemma_type_totals_add_up(rs: Seq<FileView>)
    ensures
        all_type_totals(rs, 0) == entities_total(rs),
    decreases rs.len(),
{
    reveal_with_fuel(all_type_totals, 9);
    if rs.len() > 0 {
        lemma_type_totals_add_up(rs.drop_last());
        lemma_type_counts_add_up(rs.last().entities);
        let d = rs.drop_last();
        assert(all_type_totals(d, 0) == entities_total(d));
    }
}

/// The count a row of a summary's `by_entity_type` gives.
pub open spec fn row_count(j: JsonView) -> nat {
    match field(j, "count"@) {
        Some(JsonView::Num(n)) => n as nat,
        _ => 0,
    }
}

/// The sum of the counts of summary rows.
pub open spec fn rows_sum(rows: Seq<JsonView>) -> nat
    decreases rows.len(),
{
    if rows.len() == 0 {
        0
    } else {
        row_count(rows[0]) + rows_sum(rows.drop_first())
    }
}

proof fn lemma_rows_sum(rs: Seq<FileView>, k: int)
    requires
        0 <= k <= 8,
        entities_total(rs) <= usize::MAX,
        all_type_totals(rs, 0) == entities_total(rs),
    ensures
        rows_sum(type_rows_from(rs, k)) == all_type_totals(rs, k),
        all_type_totals(rs, k) <= all_type_totals(rs, 0),
    decreases 8 - k,
{
    reveal_strlit("count");
    reveal_strlit("entity_type");
    if k < 8 {
        lemma_rows_sum(rs, k + 1);
        lemma_totals_below(rs, k);
        let n = capped(type_total(rs, type_at(k)));
        let rest = type_rows_from(rs, k + 1);
        if n > 0 {
            let row = JsonView::Obj(
                seq![("entity_type"@, JsonView::Str(type_label(type_at(k)))), ("count"@, JsonView::Num(n))],
            );
            assert("entity_type"@ != "count"@) by {
                assert("entity_type"@.len() != "count"@.len());
            }
            reveal_with_fuel(crate::json::field_of, 3);
            assert(row_count(row) == n);
            let rows = seq![row] + rest;
            assert(rows.drop_first() =~= rest);
            assert(type_rows_from(rs, k) == rows);
        } else {
            assert(seq![] + rest =~= rest);
        }
    }
}

proof fn lemma_totals_below(rs: Seq<FileView>, k: int)
    requires
        0 <= k <= 8,
    ensures
        all_type_totals(rs, k) <= all_type_totals(rs, 0),
        k < 8 ==> type_total(rs, type_at(k)) <= all_type_totals(rs, k),
    decreases k,
{
    if k > 0 {
        lemma_totals_below(rs, k - 1);
    }
}

/// A summary's per-type rows add up to its entity total: every entity,
/// nested ones included, is counted under exactly one type. (Totals past
/// `usize::MAX` are held there, so this is stated below that limit.)
pub proof fn lemma_summary_types_add_up(rs: Seq<FileView>)
    requires
        entities_total(rs) <= usize::MAX,
    ensures
        rows_sum(type_rows_from(rs, 0)) == entities_total(rs),
        all_type_totals(rs, 0) == entities_total(rs),
{
    lemma_type_totals_add_up(rs);
    lemma_rows_sum(rs, 0);
}

// ── What locate reports ──────────────────────────────────────────────────────

/// A match record whose `name` is, lowercased, `name_lower`.
pub open spec fn named_as(m: JsonView, name_lower: Seq<char>) -> bool {
    match field(m, "name"@) {
        Some(JsonView::Str(n)) => lowercase(n) == name_lower,
        _ => false,
    }
}

proof fn lemma_match_json_name(e: EntityView, path: Seq<char>)
    ensures
        field(match_json(e, path), "name"@) == Some(JsonView::Str(e.name)),
{
    reveal_strlit("entity_path");
    reveal_strlit("name");
    assert("entity_path"@ != "name"@) by {
        assert("entity_path"@.len() != "name"@.len());
    }
    reveal_with_fuel(crate::json::field_of, 3);
}

proof fn lemma_matches_named(es: Seq<EntityView>, name_lower: Seq<char>, parent: Seq<char>)
    ensures
        forall|k: int|
            0 <= k < matches_in(es, name_lower, parent).len() ==> named_as(
                #[trigger] matches_in(es, name_lower, parent)[k],
                name_lower,
            ),
    decreases es,
{
    if es.len() > 0 {
        assert(decreases_to!(es => es.last()));
        let e = es.last();
        let path = parent + " > "@ + segment_of(e.entity_type, e.name);
        lemma_matches_named(es.drop_last(), name_lower, parent);
        lemma_matches_named(e.children, name_lower, path);
        lemma_match_json_name(e, path);
        let a = matches_in(es.drop_last(), name_lower, parent);
        let b = if lowercase(e.name) == name_lower {
            seq![match_json(e, path)]
        } else {
            Seq::<JsonView>::empty()
        };
        let c = matches_in(e.children, name_lower, path);
        let all = matches_in(es, name_lower, parent);
        assert(all == a + b + c);
        assert forall|k: int| 0 <= k < all.len() implies named_as(#[trigger] all[k], name_lower) by {
            if k < a.len() {
                assert(all[k] == a[k]);
            } else if k < a.len() + b.len() {
                assert(all[k] == b[k - a.len()]);
            } else {
                assert(all[k] == c[k - a.len() - b.len()]);
            }
        }
    }
}

/// Every match `locate` reports is an entity whose name equals the query,
/// ignoring case: a name that merely contains the query is no match.
pub proof fn lemma_located_names_match(rs: Seq<FileView>, name: Seq<char>)
    ensures
        forall|k: int| 0 <= k < located(rs, name).len() ==> named_as(#[trigger] located(rs, name)[k], lowercase(name)),
    decreases rs.len(),
{
    if rs.len() > 0 {
        lemma_located_names_match(rs.drop_last(), name);
        lemma_matches_named(rs.last().entities, lowercase(name), rs.last().path);
        let a = located(rs.drop_last(), name);
        let b = matches_in(rs.last().entities, lowercase(name), rs.last().path);
        let all = located(rs, name);
        assert forall|k: int| 0 <= k < all.len() implies named_as(#[trigger] all[k], lowercase(name)) by {
            if k < a.len() {
                assert(all[k] == a[k]);
            } else {
                assert(all[k] == b[k - a.len()]);
            }
        }
    }
}

/// How many entities of a forest, at any depth, are named `name_lower`
/// once lowercased.
pub open spec fn named_count(es: Seq<EntityView>, name_lower: Seq<char>) -> nat
    decreases es,
{
    if es.len() == 0 {
        0
    } else {
        proof {
            assert(decreases_to!(es => es.last()));
        }
        named_count(es.drop_last(), name_lower) + named_count(es.last().children, name_lower) + if lowercase(
            es.last().name,
        ) == name_lower {
            1nat
        } else {
            0nat
        }
    }
}

proof fn lemma_matches_count(es: Seq<EntityView>, name_lower: Seq<char>, parent: Seq<char>)
    ensures
        matches_in(es, name_lower, parent).len() == named_count(es, name_lower),
    decreases es,
{
    if es.len() > 0 {
        assert(decreases_to!(es => es.last()));
        let e = es.last();
        lemma_matches_count(es.drop_last(), name_lower, parent);
        lemma_matches_count(e.children, name_lower, parent + " > "@ + segment_of(e.entity_type, e.name));
    }
}

/// How many entities of all files are named `name`, ignoring case.
pub open spec fn named_total(rs: Seq<FileView>, name: Seq<char>) -> nat
    decreases rs.len(),
{
    if rs.len() == 0 {
        0
    } else {
        named_total(rs.drop_last(), name) + named_count(rs.last().entities, lowercase(name))
    }
}

/// `locate` misses nothing: it reports one match for every entity, at any
/// depth of any file, whose name equals the query ignoring case.
pub proof fn lemma_located_counts_every_match(rs: Seq<FileView>, name: Seq<char>)
    ensures
        located(rs, name).len() == named_total(rs, name),
    decreases rs.len(),
{
    if rs.len() > 0 {
        lemma_located_counts_every_match(rs.drop_last(), name);
        lemma_matches_count(rs.last().entities, lowercase(name), rs.last().path);
    }
}

} // verus!
