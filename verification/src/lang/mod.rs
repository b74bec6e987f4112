//! Languages: the registry, detection by file extension, and what every
//! extractor shares (entities built from nodes, sorting by name, syntax
//! errors and import statements).
use vstd::prelude::*;

use crate::lang::c::{c_entities, c_entities_of};
use crate::lang::c_family::includes_resolved;
use crate::lang::cpp::{cpp_nodes, CppParser};
use crate::lang::elixir::{el_entities, el_entities_of};
use crate::lang::go::{go_entities, go_entities_of, go_resolved};
use crate::lang::js::{js_entities, js_entities_of, js_resolved, ts_entities_of};
use crate::lang::loc::{loc_table, range_count, LocMap};
use crate::lang::python::{py_entities, py_entities_of, py_resolved};
use crate::lang::qml::{qml_entities, qml_entities_of};
use crate::lang::rust::{rust_entities, rust_entities_of, rust_resolved};
use crate::lang::syntax::{kind_is, node_lines, parse_source, syntax_tree, text_of, Grammar, SyntaxNode};
use crate::model::{
    lemma_view_entities, view_dependencies, view_entities, view_entity, view_errors, view_strings,
    Dependency, DependencyKind, Entity, EntityType, EntityView, FileResult, FileView, SyntaxError,
};
use crate::text::{
    chars_of, find, find_exec, find_from, occurs_at, has_prefix, lemma_find_from_facts, owned, slice_range, starts_with,
    str_eq, string_from_chars, to_lower,
};

pub mod c;
pub mod c_family;
pub mod cpp;
pub mod elixir;
pub mod go;
pub mod js;
pub mod loc;
pub mod python;
pub mod qml;
pub mod rust;
pub mod syntax;

verus! {

// ── The registry ─────────────────────────────────────────────────────────────

/// The languages a scan recognizes by extension.
#[derive(PartialEq, Eq, Structural, Clone, Copy, Debug)]
pub enum Lang {
    C,
    Cpp,
    Qml,
    Rust,
}

/// The registry, in order.
pub open spec fn registry() -> Seq<Lang> {
    seq![Lang::C, Lang::Cpp, Lang::Qml, Lang::Rust]
}

/// The canonical name shown for a language.
pub open spec fn canonical_of(l: Lang) -> Seq<char> {
    match l {
        Lang::C => "C"@,
        Lang::Cpp => "C++"@,
        Lang::Qml => "QML"@,
        Lang::Rust => "Rust"@,
    }
}

/// The lowercase names a language filter accepts for a language.
pub open spec fn aliases_of(l: Lang) -> Seq<Seq<char>> {
    match l {
        Lang::C => seq!["c"@],
        Lang::Cpp => seq!["cpp"@, "c++"@],
        Lang::Qml => seq!["qml"@],
        Lang::Rust => seq!["rust"@],
    }
}

/// The file extensions of a language.
pub open spec fn extensions_of(l: Lang) -> Seq<Seq<char>> {
    match l {
        Lang::C => seq!["c"@, "h"@],
        Lang::Cpp => seq!["cpp"@, "cc"@, "cxx"@, "hpp"@, "hxx"@],
        Lang::Qml => seq!["qml"@],
        Lang::Rust => seq!["rs"@],
    }
}

/// The icon shown before a file of the language.
pub open spec fn icon_of(l: Lang) -> Seq<char> {
    match l {
        Lang::C => "󰙱"@,
        Lang::Cpp => "󰙲"@,
        Lang::Qml => "󰈚"@,
        Lang::Rust => "󱘗"@,
    }
}

/// The grammar that parses a language.
pub open spec fn grammar_of(l: Lang) -> Grammar {
    match l {
        Lang::C => Grammar::C,
        Lang::Cpp => Grammar::Cpp,
        Lang::Qml => Grammar::Qml,
        Lang::Rust => Grammar::Rust,
    }
}

/// The first registered language satisfying `p`, from index `i` on.
pub open spec fn first_lang_from(p: spec_fn(Lang) -> bool, i: int) -> Option<Lang>
    decreases 4 - i,
{
    if i < 0 || i >= 4 {
        None
    } else if p(registry()[i]) {
        Some(registry()[i])
    } else {
        first_lang_from(p, i + 1)
    }
}

/// The registered language whose canonical name is `name`.
pub open spec fn lang_named(name: Seq<char>) -> Option<Lang> {
    first_lang_from(|l: Lang| canonical_of(l) == name, 0)
}

/// The first registered language that has extension `ext`.
pub open spec fn lang_with_extension(ext: Seq<char>) -> Option<Lang> {
    first_lang_from(|l: Lang| extensions_of(l).contains(ext), 0)
}

/// Some registered language accepts `alias`.
pub open spec fn is_known_alias(alias: Seq<char>) -> bool {
    exists|i: int| 0 <= i < 4 && aliases_of(#[trigger] registry()[i]).contains(alias)
}

/// The four registered languages, in order.
pub fn languages() -> (r: Vec<Lang>)
    ensures
        r@ == registry(),
{
    let r = vec![Lang::C, Lang::Cpp, Lang::Qml, Lang::Rust];
    assert(r@ =~= registry());
    r
}

impl Lang {
    pub fn canonical(self) -> (r: &'static str)
        ensures
            r@ == canonical_of(self),
    {
        match self {
            Lang::C => "C",
            Lang::Cpp => "C++",
            Lang::Qml => "QML",
            Lang::Rust => "Rust",
        }
    }

    pub fn icon(self) -> (r: &'static str)
        ensures
            r@ == icon_of(self),
    {
        match self {
            Lang::C => "󰙱",
            Lang::Cpp => "󰙲",
            Lang::Qml => "󰈚",
            Lang::Rust => "󱘗",
        }
    }

    pub fn grammar(self) -> (r: Grammar)
        ensures
            r == grammar_of(self),
    {
        match self {
            Lang::C => Grammar::C,
            Lang::Cpp => Grammar::Cpp,
            Lang::Qml => Grammar::Qml,
            Lang::Rust => Grammar::Rust,
        }
    }

    /// The language's aliases, in order.
    pub fn aliases(self) -> (r: Vec<&'static str>)
        ensures
            r@.map_values(|a: &str| a@) == aliases_of(self),
    {
        let r = match self {
            Lang::C => vec!["c"],
            Lang::Cpp => vec!["cpp", "c++"],
            Lang::Qml => vec!["qml"],
            Lang::Rust => vec!["rust"],
        };
        assert(r@.map_values(|a: &str| a@) =~= aliases_of(self));
        r
    }

    /// The language's extensions, in order.
    pub fn extensions(self) -> (r: Vec<&'static str>)
        ensures
            r@.map_values(|a: &str| a@) == extensions_of(self),
    {
        let r = match self {
            Lang::C => vec!["c", "h"],
            Lang::Cpp => vec!["cpp", "cc", "cxx", "hpp", "hxx"],
            Lang::Qml => vec!["qml"],
            Lang::Rust => vec!["rs"],
        };
        assert(r@.map_values(|a: &str| a@) =~= extensions_of(self));
        r
    }

    /// Whether `name` is one of the language's aliases.
    pub fn has_alias(self, name: &str) -> (r: bool)
        ensures
            r == aliases_of(self).contains(name@),
    {
        let v = self.aliases();
        let ghost vs = v@.map_values(|a: &str| a@);
        let mut i: usize = 0;
        while i < v.len()
            invariant
                i <= v@.len(),
                vs == v@.map_values(|a: &str| a@),
                vs == aliases_of(self),
                forall|k: int| 0 <= k < i ==> vs[k] != name@,
            decreases v.len() - i,
        {
            if str_eq(v[i], name) {
                assert(vs[i as int] == name@);
                return true;
            }
            i += 1;
        }
        false
    }

    /// Whether `ext` is one of the language's extensions.
    pub fn has_extension(self, ext: &str) -> (r: bool)
        ensures
            r == extensions_of(self).contains(ext@),
    {
        let v = self.extensions();
        let ghost vs = v@.map_values(|a: &str| a@);
        let mut i: usize = 0;
        while i < v.len()
            invariant
                i <= v@.len(),
                vs == v@.map_values(|a: &str| a@),
                vs == extensions_of(self),
                forall|k: int| 0 <= k < i ==> vs[k] != ext@,
            decreases v.len() - i,
        {
            if str_eq(v[i], ext) {
                assert(vs[i as int] == ext@);
                return true;
            }
            i += 1;
        }
        false
    }
}

proof fn lemma_first_lang_from(p: spec_fn(Lang) -> bool, i: int)
    requires
        0 <= i <= 4,
    ensures
        first_lang_from(p, i) matches Some(l) ==> p(l) && exists|k: int| i <= k < 4 && registry()[k] == l
            && forall|j: int| i <= j < k ==> !p(#[trigger] registry()[j]),
        first_lang_from(p, i) is None ==> forall|j: int| i <= j < 4 ==> !p(#[trigger] registry()[j]),
    decreases 4 - i,
{
    if i < 4 {
        lemma_first_lang_from(p, i + 1);
    }
}

/// The language found by canonical name has that name.
pub proof fn lemma_lang_named(name: Seq<char>)
    ensures
        lang_named(name) matches Some(l) ==> canonical_of(l) == name,
{
    lemma_first_lang_from(|l: Lang| canonical_of(l) == name, 0);
}

/// A language is found again by its canonical name.
pub proof fn lemma_canonical_named(l: Lang)
    ensures
        lang_named(canonical_of(l)) == Some(l),
{
    reveal_strlit("C");
    reveal_strlit("C++");
    reveal_strlit("QML");
    reveal_strlit("Rust");
    reveal_with_fuel(first_lang_from, 5);
    assert("C"@.len() == 1 && "C++"@.len() == 3 && "QML"@.len() == 3 && "Rust"@.len() == 4);
    assert("C++"@[0] != "QML"@[0]);
}

/// The registered language with canonical name `name`, searched in
/// registry order.
pub fn find_lang_named(name: &str) -> (r: Option<Lang>)
    ensures
        r == lang_named(name@),
{
    let langs = languages();
    let ghost p = |l: Lang| canonical_of(l) == name@;
    let mut i: usize = 0;
    while i < langs.len()
        invariant
            i <= 4,
            langs@ == registry(),
            p == (|l: Lang| canonical_of(l) == name@),
            lang_named(name@) == first_lang_from(p, i as int),
        decreases langs.len() - i,
    {
        if str_eq(langs[i].canonical(), name) {
            assert(p(langs@[i as int]));
            return Some(langs[i]);
        }
        i += 1;
    }
    None
}

/// The registered language with canonical name `name`.
pub fn lang_by_name(name: &str) -> (r: Option<Lang>)
    ensures
        r == lang_named(name@),
{
    find_lang_named(name)
}

/// What `Path::extension` gives for a path: the text after the last dot of
/// the final component, when there is one.
pub uninterp spec fn path_extension(path: Seq<char>) -> Option<Seq<char>>;

/// `Path::new(path).extension()` as text. The result is named
/// `path_extension`; nothing more is claimed of it. A non-UTF-8 extension
/// cannot arise from a `&str` path.
#[verifier::external_body]
pub(crate) fn extension_of(path: &str) -> (r: Option<String>)
    ensures
        r matches Some(s) ==> path_extension(path@) == Some(s@),
        r is None ==> path_extension(path@) is None,
{
    std::path::Path::new(path).extension().and_then(|e| e.to_str()).map(str::to_owned)
}

/// The canonical name of the language a path's extension belongs to.
pub open spec fn detected(path: Seq<char>) -> Option<Seq<char>> {
    match path_extension(path) {
        Some(ext) => match lang_with_extension(ext) {
            Some(l) => Some(canonical_of(l)),
            None => None,
        },
        None => None,
    }
}

/// Detects a file's language by its extension: the first registered
/// language listing the extension, by canonical name.
pub fn detect(path: &str) -> (r: Option<&'static str>)
    ensures
        r matches Some(s) ==> detected(path@) == Some(s@),
        r is None ==> detected(path@) is None,
{
    let found = extension_of(path);
    let ext = match found {
        Some(e) => e,
        None => return None,
    };
    assert(path_extension(path@) == Some(ext@));
    let langs = languages();
    let ghost p = |l: Lang| extensions_of(l).contains(ext@);
    let mut i: usize = 0;
    while i < langs.len()
        invariant
            i <= 4,
            langs@ == registry(),
            p == (|l: Lang| extensions_of(l).contains(ext@)),
            path_extension(path@) == Some(ext@),
            lang_with_extension(ext@) == first_lang_from(p, i as int),
        decreases langs.len() - i,
    {
        if langs[i].has_extension(ext.as_str()) {
            assert(p(registry()[i as int]));
            assert(first_lang_from(p, i as int) == Some(registry()[i as int]));
            assert(lang_with_extension(ext@) == Some(langs@[i as int]));
            return Some(langs[i].canonical());
        }
        i += 1;
    }
    None
}

/// The icon for a language's canonical name, or a generic file icon.
pub open spec fn lang_icon_of(language: Seq<char>) -> Seq<char> {
    match lang_named(language) {
        Some(l) => icon_of(l),
        None => "󰈔"@,
    }
}

/// The icon shown before a file of `language`.
pub fn lang_icon(language: &str) -> (r: &'static str)
    ensures
        r@ == lang_icon_of(language@),
{
    match find_lang_named(language) {
        Some(l) => l.icon(),
        None => "󰈔",
    }
}

/// All aliases of all registered languages, in registry order.
pub open spec fn all_aliases() -> Seq<Seq<char>> {
    aliases_of(Lang::C) + aliases_of(Lang::Cpp) + aliases_of(Lang::Qml) + aliases_of(Lang::Rust)
}

/// Whether any registered language accepts `alias`.
pub fn is_alias(alias: &str) -> (r: bool)
    ensures
        r == is_known_alias(alias@),
{
    let langs = languages();
    let mut i: usize = 0;
    while i < langs.len()
        invariant
            i <= 4,
            langs@ == registry(),
            forall|k: int| 0 <= k < i ==> !aliases_of(#[trigger] registry()[k]).contains(alias@),
        decreases langs.len() - i,
    {
        if langs[i].has_alias(alias) {
            return true;
        }
        i += 1;
    }
    false
}

// ── Entities built from nodes ────────────────────────────────────────────────

/// Where an entity sits: at top level (a function) or inside a type body
/// (a method).
#[derive(PartialEq, Eq, Structural, Clone, Copy, Debug)]
pub enum Context {
    TopLevel,
    TypeBody,
}

/// Lines of code of a node: the count over its lines, 0 when the node
/// starts past the counted lines.
pub open spec fn node_loc(lm: Seq<usize>, n: SyntaxNode) -> usize {
    let (s, e) = node_lines(n);
    if s <= lm.len() {
        range_count(lm, s, e) as usize
    } else {
        0
    }
}

/// A leaf entity for a node.
pub open spec fn leaf_view(n: SyntaxNode, name: Seq<char>, et: EntityType, lm: Seq<usize>) -> EntityView {
    container_view(n, name, et, lm, Seq::empty())
}

/// An entity for a node, with children.
pub open spec fn container_view(
    n: SyntaxNode,
    name: Seq<char>,
    et: EntityType,
    lm: Seq<usize>,
    children: Seq<EntityView>,
) -> EntityView {
    EntityView {
        name,
        entity_type: et,
        loc: node_loc(lm, n),
        start_line: node_lines(n).0,
        end_line: node_lines(n).1,
        children,
        kind: Seq::empty(),
    }
}

pub fn loc_of_node(lm: &LocMap, n: &SyntaxNode) -> (r: usize)
    requires
        lm.wf(),
    ensures
        r == node_loc(lm@, *n),
{
    proof {
        lm.lemma_wf();
    }
    let (s, e) = n.lines();
    if s == 0 || s - 1 <= lm.line_count() {
        lm.count(s, e)
    } else {
        0
    }
}

/// `leaf_entity`: a childless entity spanning the node.
pub fn leaf_entity(n: &SyntaxNode, name: String, et: EntityType, lm: &LocMap) -> (r: Entity)
    requires
        lm.wf(),
    ensures
        r@ == leaf_view(*n, name@, et, lm@),
{
    let (s, e) = n.lines();
    Entity::new(name, et, loc_of_node(lm, n), s, e)
}

/// `container_entity`: an entity spanning the node, with children.
pub fn container_entity(n: &SyntaxNode, name: String, et: EntityType, lm: &LocMap, children: Vec<Entity>) -> (r: Entity)
    requires
        lm.wf(),
    ensures
        r@ == container_view(*n, name@, et, lm@, view_entities(children@)),
{
    let (s, e) = n.lines();
    Entity { name, entity_type: et, loc: loc_of_node(lm, n), start_line: s, end_line: e, children, kind: String::new() }
}

// ── Ordering by name ─────────────────────────────────────────────────────────

/// `a` sorts strictly before `b` (`String`'s order: character by character).
pub open spec fn name_lt(a: Seq<char>, b: Seq<char>) -> bool
    decreases a.len(),
{
    if a.len() == 0 {
        b.len() > 0
    } else if b.len() == 0 {
        false
    } else if a[0] != b[0] {
        a[0] < b[0]
    } else {
        name_lt(a.drop_first(), b.drop_first())
    }
}

/// `x` inserted after every entity of `s` whose name does not sort after it.
pub open spec fn insert_by_name(s: Seq<EntityView>, x: EntityView) -> Seq<EntityView>
    decreases s.len(),
{
    if s.len() == 0 || !name_lt(x.name, s.last().name) {
        s.push(x)
    } else {
        insert_by_name(s.drop_last(), x).push(s.last())
    }
}

/// A stable sort by name: `slice::sort_by` with `name.cmp`.
pub open spec fn sort_by_name(s: Seq<EntityView>) -> Seq<EntityView>
    decreases s.len(),
{
    if s.len() == 0 {
        s
    } else {
        insert_by_name(sort_by_name(s.drop_last()), s.last())
    }
}

/// Whether `a` sorts strictly before `b`.
pub fn name_less(a: &str, b: &str) -> (r: bool)
    ensures
        r == name_lt(a@, b@),
{
    let x = chars_of(a);
    let y = chars_of(b);
    let mut i: usize = 0;
    assert(x@.skip(0) =~= x@);
    assert(y@.skip(0) =~= y@);
    while i < x.len() && i < y.len() && x[i] == y[i]
        invariant
            i <= x@.len(),
            i <= y@.len(),
            name_lt(x@, y@) == name_lt(x@.skip(i as int), y@.skip(i as int)),
        decreases x.len() - i,
    {
        proof {
            let a2 = x@.skip(i as int);
            let b2 = y@.skip(i as int);
            assert(a2.drop_first() =~= x@.skip(i + 1));
            assert(b2.drop_first() =~= y@.skip(i + 1));
        }
        i += 1;
    }
    if i == x.len() {
        i < y.len()
    } else if i == y.len() {
        false
    } else {
        proof {
            assert(x@.skip(i as int)[0] == x@[i as int]);
            assert(y@.skip(i as int)[0] == y@[i as int]);
        }
        x[i] < y[i]
    }
}

proof fn lemma_insert_at(s: Seq<EntityView>, x: EntityView, j: int)
    requires
        0 <= j <= s.len(),
        forall|k: int| j <= k < s.len() ==> name_lt(x.name, #[trigger] s[k].name),
        j == 0 || !name_lt(x.name, s[j - 1].name),
    ensures
        insert_by_name(s, x) == s.take(j) + seq![x] + s.skip(j),
    decreases s.len(),
{
    if j == s.len() {
        assert(s.take(j) =~= s);
        assert(s.skip(j) =~= Seq::<EntityView>::empty());
        assert(s.take(j) + seq![x] + s.skip(j) =~= s.push(x));
    } else {
        let t = s.drop_last();
        assert forall|k: int| j <= k < t.len() implies name_lt(x.name, #[trigger] t[k].name) by {
            assert(t[k] == s[k]);
        }
        if j > 0 {
            assert(t[j - 1] == s[j - 1]);
        }
        lemma_insert_at(t, x, j);
        assert(s.take(j) + seq![x] + s.skip(j) =~= (t.take(j) + seq![x] + t.skip(j)).push(s.last()));
    }
}

/// No two neighbours are out of name order.
pub open spec fn names_ordered(s: Seq<EntityView>) -> bool {
    forall|k: int| 0 <= k < s.len() - 1 ==> !name_lt(#[trigger] s[k + 1].name, s[k].name)
}

/// `String`'s order is asymmetric: `a < b` excludes `b < a`.
pub proof fn lemma_name_lt_asymmetric(a: Seq<char>, b: Seq<char>)
    ensures
        name_lt(a, b) ==> !name_lt(b, a),
    decreases a.len(),
{
    if a.len() > 0 && b.len() > 0 && a[0] == b[0] {
        lemma_name_lt_asymmetric(a.drop_first(), b.drop_first());
    }
}

proof fn lemma_insert_ordered(s: Seq<EntityView>, x: EntityView)
    requires
        names_ordered(s),
    ensures
        names_ordered(insert_by_name(s, x)),
        insert_by_name(s, x).len() == s.len() + 1,
        insert_by_name(s, x).last() == x || (s.len() > 0 && insert_by_name(s, x).last() == s.last()),
        insert_by_name(s, x).to_multiset() =~= s.to_multiset().insert(x),
    decreases s.len(),
{
    broadcast use vstd::seq_lib::to_multiset_build;

    if s.len() == 0 || !name_lt(x.name, s.last().name) {
        let r = s.push(x);
        assert forall|k: int| 0 <= k < r.len() - 1 implies !name_lt(#[trigger] r[k + 1].name, r[k].name) by {
            if k < s.len() - 1 {
                assert(r[k] == s[k] && r[k + 1] == s[k + 1]);
            }
        }
    } else {
        let t = s.drop_last();
        assert forall|k: int| 0 <= k < t.len() - 1 implies !name_lt(#[trigger] t[k + 1].name, t[k].name) by {
            assert(t[k] == s[k] && t[k + 1] == s[k + 1]);
        }
        lemma_insert_ordered(t, x);
        let i = insert_by_name(t, x);
        let r = i.push(s.last());
        lemma_name_lt_asymmetric(x.name, s.last().name);
        assert forall|k: int| 0 <= k < r.len() - 1 implies !name_lt(#[trigger] r[k + 1].name, r[k].name) by {
            if k < i.len() - 1 {
                assert(r[k] == i[k] && r[k + 1] == i[k + 1]);
            } else {
                assert(r[k] == i.last());
                if i.last() != x {
                    let m = s.len() - 2;
                    assert(i.last() == t.last());
                    assert(t.last() == s[m]);
                    assert(!name_lt(s[m + 1].name, s[m].name));
                    assert(s[m + 1] == s.last());
                }
            }
        }
        assert(s =~= t.push(s.last()));
    }
}

/// Sorting by name leaves every level in name order and keeps exactly the
/// same entities: each appears as often as before.
pub proof fn lemma_sort_by_name_ordered(s: Seq<EntityView>)
    ensures
        names_ordered(sort_by_name(s)),
        sort_by_name(s).len() == s.len(),
        sort_by_name(s).to_multiset() =~= s.to_multiset(),
    decreases s.len(),
{
    broadcast use vstd::seq_lib::to_multiset_build;

    if s.len() > 0 {
        lemma_sort_by_name_ordered(s.drop_last());
        lemma_insert_ordered(sort_by_name(s.drop_last()), s.last());
        assert(s =~= s.drop_last().push(s.last()));
    }
}

/// Every level of a forest is in name order: the entities themselves, and
/// the children of each, all the way down.
pub open spec fn forest_ordered(es: Seq<EntityView>) -> bool
    decreases es,
{
    &&& names_ordered(es)
    &&& forall|i: int| 0 <= i < es.len() ==> forest_ordered(#[trigger] es[i].children)
}

/// Name order is transitive: `a` before or with `b`, and `b` before or
/// with `c`, puts `a` before or with `c`.
pub proof fn lemma_name_le_transitive(a: Seq<char>, b: Seq<char>, c: Seq<char>)
    requires
        !name_lt(b, a),
        !name_lt(c, b),
    ensures
        !name_lt(c, a),
    decreases a.len(),
{
    if a.len() > 0 && b.len() > 0 && c.len() > 0 && a[0] == b[0] && b[0] == c[0] {
        lemma_name_le_transitive(a.drop_first(), b.drop_first(), c.drop_first());
    }
}

/// In a list in name order, every entity sorts before or with every later
/// one.
pub proof fn lemma_ordered_pairwise(s: Seq<EntityView>, i: int, j: int)
    requires
        names_ordered(s),
        0 <= i <= j < s.len(),
    ensures
        !name_lt(s[j].name, s[i].name),
    decreases j - i,
{
    if i == j {
        lemma_name_lt_asymmetric(s[i].name, s[i].name);
    } else {
        lemma_ordered_pairwise(s, i, j - 1);
        assert(!name_lt(s[j - 1 + 1].name, s[j - 1].name));
        lemma_name_le_transitive(s[i].name, s[j - 1].name, s[j].name);
    }
}

/// A forest in name order stays so without its last entity, and the last
/// entity's children are in name order.
pub proof fn lemma_forest_split(es: Seq<EntityView>)
    requires
        forest_ordered(es),
        es.len() > 0,
    ensures
        forest_ordered(es.drop_last()),
        forest_ordered(es.last().children),
{
    let t = es.drop_last();
    assert forall|k: int| 0 <= k < t.len() - 1 implies !name_lt(#[trigger] t[k + 1].name, t[k].name) by {
        assert(t[k + 1] == es[k + 1] && t[k] == es[k]);
    }
    assert forall|k: int| 0 <= k < t.len() implies forest_ordered(#[trigger] t[k].children) by {
        assert(t[k] == es[k]);
    }
    assert(es.last() == es[es.len() - 1]);
}

/// Pushing an entity with ordered children and a name sorting after (or
/// with) every name already there keeps a forest in name order.
pub proof fn lemma_forest_push(s: Seq<EntityView>, e: EntityView)
    requires
        forest_ordered(s),
        forest_ordered(e.children),
        s.len() > 0 ==> !name_lt(e.name, s.last().name),
    ensures
        forest_ordered(s.push(e)),
{
    let r = s.push(e);
    assert forall|k: int| 0 <= k < r.len() - 1 implies !name_lt(#[trigger] r[k + 1].name, r[k].name) by {
        if k < s.len() - 1 {
            assert(r[k + 1] == s[k + 1] && r[k] == s[k]);
        } else {
            assert(r[k] == s.last() && r[k + 1] == e);
        }
    }
    lemma_subtrees_push(s, e);
}

/// The children of every entity of `es` are in name order at every level.
pub open spec fn subtrees_ordered(es: Seq<EntityView>) -> bool {
    forall|i: int| 0 <= i < es.len() ==> forest_ordered(#[trigger] es[i].children)
}

/// Sorting entities whose subtrees are in name order gives a forest in name
/// order at every level.
pub proof fn lemma_sorted_forest(s: Seq<EntityView>)
    requires
        subtrees_ordered(s),
    ensures
        forest_ordered(sort_by_name(s)),
{
    broadcast use vstd::seq_lib::to_multiset_contains;

    lemma_sort_by_name_ordered(s);
    let r = sort_by_name(s);
    assert forall|i: int| 0 <= i < r.len() implies forest_ordered(#[trigger] r[i].children) by {
        assert(r.contains(r[i]));
        assert(r.to_multiset().count(r[i]) > 0);
        assert(s.to_multiset().count(r[i]) > 0);
        assert(s.contains(r[i]));
        let j = choose|j: int| 0 <= j < s.len() && s[j] == r[i];
        assert(forest_ordered(s[j].children));
    }
}

/// A list grown by pushing entities with ordered subtrees keeps its
/// subtrees ordered.
pub proof fn lemma_subtrees_push(s: Seq<EntityView>, e: EntityView)
    requires
        subtrees_ordered(s),
        forest_ordered(e.children),
    ensures
        subtrees_ordered(s.push(e)),
{
    assert forall|i: int| 0 <= i < s.push(e).len() implies forest_ordered(#[trigger] s.push(e)[i].children) by {
        if i < s.len() {
            assert(s.push(e)[i] == s[i]);
        }
    }
}

/// A leaf has no children, which are trivially in order.
pub proof fn lemma_empty_forest_ordered()
    ensures
        forest_ordered(Seq::<EntityView>::empty()),
        subtrees_ordered(Seq::<EntityView>::empty()),
{
    assert(names_ordered(Seq::<EntityView>::empty()));
}

/// An entity's lines of code are the count over its own line range (0 when
/// the range starts past the counted lines), as `LocMap::count` gives it.
pub open spec fn loc_counted(e: EntityView, lm: Seq<usize>) -> bool {
    e.loc == if e.start_line <= lm.len() {
        range_count(lm, e.start_line, e.end_line) as usize
    } else {
        0usize
    }
}

/// Every entity of a forest, at every level, has its lines of code counted
/// over its own line range.
pub open spec fn forest_counted(es: Seq<EntityView>, lm: Seq<usize>) -> bool
    decreases es,
{
    forall|i: int| 0 <= i < es.len() ==> loc_counted(#[trigger] es[i], lm) && forest_counted(es[i].children, lm)
}

/// Sorting keeps every entity, so it keeps their counts.
pub proof fn lemma_sorted_counted(s: Seq<EntityView>, lm: Seq<usize>)
    requires
        forest_counted(s, lm),
    ensures
        forest_counted(sort_by_name(s), lm),
{
    broadcast use vstd::seq_lib::to_multiset_contains;

    lemma_sort_by_name_ordered(s);
    let r = sort_by_name(s);
    assert forall|i: int| 0 <= i < r.len() implies loc_counted(#[trigger] r[i], lm) && forest_counted(
        r[i].children,
        lm,
    ) by {
        assert(r.contains(r[i]));
        assert(r.to_multiset().count(r[i]) > 0);
        assert(s.to_multiset().count(r[i]) > 0);
        assert(s.contains(r[i]));
        let j = choose|j: int| 0 <= j < s.len() && s[j] == r[i];
        assert(loc_counted(s[j], lm) && forest_counted(s[j].children, lm));
    }
}

/// Pushing a counted entity keeps a forest counted.
pub proof fn lemma_counted_push(s: Seq<EntityView>, e: EntityView, lm: Seq<usize>)
    requires
        forest_counted(s, lm),
        loc_counted(e, lm),
        forest_counted(e.children, lm),
    ensures
        forest_counted(s.push(e), lm),
{
    assert forall|i: int| 0 <= i < s.push(e).len() implies loc_counted(#[trigger] s.push(e)[i], lm)
        && forest_counted(s.push(e)[i].children, lm) by {
        if i < s.len() {
            assert(s.push(e)[i] == s[i]);
        }
    }
}

/// An empty forest is counted; so is an entity made for a node.
pub proof fn lemma_counted_basics(lm: Seq<usize>)
    ensures
        forest_counted(Seq::<EntityView>::empty(), lm),
        forall|n: SyntaxNode, name: Seq<char>, et: EntityType, ch: Seq<EntityView>|
            #[trigger] loc_counted(container_view(n, name, et, lm, ch), lm),
{
}

/// Sorts entities by name, keeping the order of equal names.
pub fn sort_entities(v: Vec<Entity>) -> (r: Vec<Entity>)
    ensures
        view_entities(r@) == sort_by_name(view_entities(v@)),
{
    let ghost src = view_entities(v@);
    proof {
        lemma_view_entities(v@);
    }
    let mut rest = v;
    let n = rest.len();
    let ghost total = n as nat;
    let mut out: Vec<Entity> = Vec::new();
    let mut i: usize = 0;
    while rest.len() > 0
        invariant
            src.len() == total,
            total <= usize::MAX,
            i + rest@.len() == total,
            forall|k: int| 0 <= k < rest@.len() ==> view_entity(#[trigger] rest@[k]) == src[i + k],
            view_entities(out@) == sort_by_name(src.take(i as int)),
        decreases rest.len(),
    {
        let x = rest.remove(0);
        let ghost sorted = view_entities(out@);
        proof {
            lemma_view_entities(out@);
        }
        let mut j = out.len();
        while j > 0 && name_less(x.name.as_str(), out[j - 1].name.as_str())
            invariant
                j <= out@.len(),
                sorted == view_entities(out@),
                sorted.len() == out@.len(),
                forall|k: int| 0 <= k < out@.len() ==> #[trigger] sorted[k] == view_entity(out@[k]),
                forall|k: int| j <= k < sorted.len() ==> name_lt(x@.name, #[trigger] sorted[k].name),
            decreases j,
        {
            j -= 1;
        }
        proof {
            if j > 0 {
                assert(sorted[j - 1] == view_entity(out@[j - 1]));
            }
            lemma_insert_at(sorted, x@, j as int);
            assert(src.take(i + 1).drop_last() =~= src.take(i as int));
            assert(src.take(i + 1).last() == x@);
        }
        let ghost before = out@;
        out.insert(j, x);
        proof {
            lemma_view_entities(out@);
            assert(view_entities(out@) =~= sorted.take(j as int) + seq![x@] + sorted.skip(j as int)) by {
                assert forall|k: int| 0 <= k < out@.len() implies view_entities(out@)[k] == (sorted.take(j as int) + seq![x@] + sorted.skip(j as int))[k] by {
                    if k < j {
                        assert(out@[k] == before[k]);
                    } else if k > j {
                        assert(out@[k] == before[k - 1]);
                    }
                }
            }
        }
        i += 1;
    }
    proof {
        assert(src.take(total as int) =~= src);
    }
    out
}

// ── Syntax errors ────────────────────────────────────────────────────────────

/// The syntax errors under a node, in source order: an error node is
/// reported and not looked into; a missing node is reported.
pub open spec fn errors_of(n: SyntaxNode) -> Seq<(Seq<char>, Seq<char>, usize, usize)>
    decreases n, 1nat,
{
    if n.error {
        seq![("error"@, n.kind@, node_lines(n).0, node_lines(n).1)]
    } else {
        let own: Seq<(Seq<char>, Seq<char>, usize, usize)> = if n.missing {
            seq![("missing"@, n.kind@, node_lines(n).0, node_lines(n).1)]
        } else {
            Seq::empty()
        };
        own + errors_in(n.children@)
    }
}

/// The syntax errors under a sequence of sibling nodes.
pub open spec fn errors_in(cs: Seq<SyntaxNode>) -> Seq<(Seq<char>, Seq<char>, usize, usize)>
    decreases cs, 0nat,
{
    if cs.len() == 0 {
        Seq::empty()
    } else {
        errors_in(cs.drop_last()) + errors_of(cs.last())
    }
}

/// Collects the syntax errors and missing nodes of a tree.
pub fn detect_syntax_errors(root: &SyntaxNode) -> (r: Vec<SyntaxError>)
    ensures
        view_errors(r@) == errors_of(*root),
{
    let mut out: Vec<SyntaxError> = Vec::new();
    collect_errors(root, &mut out);
    assert(view_errors(out@) =~= errors_of(*root));
    out
}

fn collect_errors(n: &SyntaxNode, out: &mut Vec<SyntaxError>)
    ensures
        view_errors(final(out)@) == view_errors(old(out)@) + errors_of(*n),
    decreases n,
{
    let (s, e) = n.lines();
    if n.error {
        let ghost before = out@;
        out.push(SyntaxError { kind: owned("error"), node_kind: n.kind.clone(), start_line: s, end_line: e });
        assert(view_errors(out@) =~= view_errors(before) + errors_of(*n));
        return;
    }
    let ghost start = out@;
    if n.missing {
        out.push(SyntaxError { kind: owned("missing"), node_kind: n.kind.clone(), start_line: s, end_line: e });
    }
    let ghost own: Seq<(Seq<char>, Seq<char>, usize, usize)> = if n.missing {
        seq![("missing"@, n.kind@, s, e)]
    } else {
        Seq::empty()
    };
    assert(view_errors(out@) =~= view_errors(start) + own);
    let mut i: usize = 0;
    while i < n.children.len()
        invariant
            i <= n.children@.len(),
            view_errors(out@) == view_errors(start) + own + errors_in(n.children@.take(i as int)),
        decreases n.children.len() - i,
    {
        proof {
            crate::lang::syntax::lemma_child_below(*n, i as int);
        }
        let ghost mid = out@;
        collect_errors(&n.children[i], out);
        proof {
            let t = n.children@.take(i + 1);
            assert(t.drop_last() =~= n.children@.take(i as int));
            assert(t.last() == n.children@[i as int]);
            assert(view_errors(out@) =~= view_errors(start) + own + errors_in(t));
        }
        i += 1;
    }
    assert(n.children@.take(n.children@.len() as int) =~= n.children@);
}

// ── Import paths ─────────────────────────────────────────────────────────────

/// Some prefix of `prefixes` begins `path`.
pub open spec fn has_any_prefix(path: Seq<char>, prefixes: Seq<Seq<char>>) -> bool {
    exists|i: int| 0 <= i < prefixes.len() && starts_with(path, #[trigger] prefixes[i])
}

/// A module path as a dependency: internal when it begins with one of the
/// relative prefixes, external otherwise.
pub open spec fn classified(path: Seq<char>, prefixes: Seq<Seq<char>>) -> (Seq<char>, DependencyKind) {
    (path, if has_any_prefix(path, prefixes) {
        DependencyKind::Internal
    } else {
        DependencyKind::External
    })
}

/// Classifies a module path by its relative prefixes.
pub fn classify_path(path: String, prefixes: &Vec<&str>) -> (r: Dependency)
    ensures
        r@ == classified(path@, prefixes@.map_values(|p: &str| p@)),
{
    let ghost ps = prefixes@.map_values(|p: &str| p@);
    let cs = chars_of(path.as_str());
    let mut i: usize = 0;
    let mut internal = false;
    while i < prefixes.len()
        invariant
            i <= prefixes@.len(),
            cs@ == path@,
            ps == prefixes@.map_values(|p: &str| p@),
            internal == exists|k: int| 0 <= k < i && starts_with(path@, #[trigger] ps[k]),
        decreases prefixes.len() - i,
    {
        let hit = has_prefix(&cs, &chars_of(prefixes[i]));
        proof {
            assert(ps[i as int] == prefixes@[i as int]@);
            if hit {
                assert(0 <= i < i + 1 && starts_with(path@, ps[i as int]));
            }
            if !hit && !internal {
                assert forall|k: int| 0 <= k < i + 1 implies !starts_with(path@, #[trigger] ps[k]) by {
                    if k < i {
                        assert(!(0 <= k < i && starts_with(path@, ps[k])));
                    }
                }
            }
        }
        if hit {
            internal = true;
        }
        i += 1;
    }
    let kind = if internal {
        DependencyKind::Internal
    } else {
        DependencyKind::External
    };
    Dependency { name: path, kind }
}

/// The non-empty text between the first two `q` characters of `s`.
pub open spec fn quoted_by(s: Seq<char>, q: char) -> Option<Seq<char>> {
    match find(s, seq![q]) {
        Some(a) => {
            let after = s.subrange(a + 1, s.len() as int);
            match find(after, seq![q]) {
                Some(b) => if b > 0 {
                    Some(after.take(b))
                } else {
                    None
                },
                None => None,
            }
        },
        None => None,
    }
}

/// The first quoted token of `s`: between double quotes, else between
/// single quotes.
pub open spec fn first_quoted(s: Seq<char>) -> Option<Seq<char>> {
    match quoted_by(s, '"') {
        Some(p) => Some(p),
        None => quoted_by(s, '\''),
    }
}

fn quoted_by_exec(s: &[char], q: char) -> (r: Option<Vec<char>>)
    ensures
        r matches Some(v) ==> quoted_by(s@, q) == Some(v@),
        r is None ==> quoted_by(s@, q) is None,
{
    let mut qs: Vec<char> = Vec::new();
    qs.push(q);
    assert(qs@ =~= seq![q]);
    match find_exec(s, &qs) {
        Some(a) => {
            proof {
                lemma_find_from_facts(s@, qs@, 0);
                assert(find_from(s@, qs@, 0) == Some(a as int));
                assert(occurs_at(s@, qs@, a as int));
            }
            let n = s.len();
            assert(a < n);
            let after = slice_range(s, a + 1, n);
            match find_exec(&after, &qs) {
                Some(b) => {
                    proof {
                        lemma_find_from_facts(after@, qs@, 0);
                    }
                    if b > 0 {
                        Some(slice_range(&after, 0, b))
                    } else {
                        None
                    }
                },
                None => None,
            }
        },
        None => None,
    }
}

/// The first quoted token of `s`.
pub fn first_quoted_of(s: &[char]) -> (r: Option<String>)
    ensures
        r matches Some(v) ==> first_quoted(s@) == Some(v@),
        r is None ==> first_quoted(s@) is None,
{
    match quoted_by_exec(s, '"') {
        Some(p) => Some(string_from_chars(&p)),
        None => match quoted_by_exec(s, '\'') {
            Some(p) => Some(string_from_chars(&p)),
            None => None,
        },
    }
}

// ── Import statements ────────────────────────────────────────────────────────

/// Whether a node is an import statement of the grammar.
pub open spec fn is_import_node(g: Grammar, n: SyntaxNode) -> bool {
    match g {
        Grammar::C | Grammar::Cpp => kind_is(n, "preproc_include"@),
        Grammar::Qml => kind_is(n, "ui_import"@),
        Grammar::Rust => kind_is(n, "use_declaration"@) || kind_is(n, "extern_crate_declaration"@),
        Grammar::Go => kind_is(n, "import_declaration"@),
        Grammar::JavaScript | Grammar::TypeScript => kind_is(n, "import_statement"@),
        Grammar::Python => kind_is(n, "import_statement"@) || kind_is(n, "import_from_statement"@),
        Grammar::Elixir => false,
    }
}

fn is_import_node_exec(g: Grammar, n: &SyntaxNode) -> (r: bool)
    ensures
        r == is_import_node(g, *n),
{
    match g {
        Grammar::C | Grammar::Cpp => n.is_kind("preproc_include"),
        Grammar::Qml => n.is_kind("ui_import"),
        Grammar::Rust => n.is_kind("use_declaration") || n.is_kind("extern_crate_declaration"),
        Grammar::Go => n.is_kind("import_declaration"),
        Grammar::JavaScript | Grammar::TypeScript => n.is_kind("import_statement"),
        Grammar::Python => n.is_kind("import_statement") || n.is_kind("import_from_statement"),
        Grammar::Elixir => false,
    }
}

/// The texts of the import statements among sibling nodes, in order.
pub open spec fn imports_in(g: Grammar, cs: Seq<SyntaxNode>) -> Seq<Seq<char>>
    decreases cs.len(),
{
    if cs.len() == 0 {
        Seq::empty()
    } else {
        let rest = imports_in(g, cs.drop_last());
        let c = cs.last();
        if is_import_node(g, c) && text_of(c) is Some {
            rest.push(text_of(c)->0)
        } else {
            rest
        }
    }
}

/// `extract_imports_from_tree`: the text of each top-level import
/// statement.
pub fn extract_imports(g: Grammar, root: &SyntaxNode) -> (r: Vec<String>)
    ensures
        view_strings(r@) == imports_in(g, root.children@),
{
    let mut out: Vec<String> = Vec::new();
    let mut i: usize = 0;
    while i < root.children.len()
        invariant
            i <= root.children@.len(),
            view_strings(out@) == imports_in(g, root.children@.take(i as int)),
        decreases root.children.len() - i,
    {
        let c = &root.children[i];
        let ghost t = root.children@.take(i + 1);
        proof {
            assert(t.drop_last() =~= root.children@.take(i as int));
            assert(t.last() == *c);
        }
        if is_import_node_exec(g, c) {
            match c.text_copy() {
                Some(s) => {
                    out.push(s);
                    assert(view_strings(out@) =~= imports_in(g, t));
                },
                None => {},
            }
        }
        i += 1;
    }
    assert(root.children@.take(root.children@.len() as int) =~= root.children@);
    out
}

// ── Parsing a file ───────────────────────────────────────────────────────────

/// The entities the extractor of grammar `g` finds in a tree.
pub open spec fn entities_of(g: Grammar, root: SyntaxNode, lm: Seq<usize>) -> Seq<EntityView> {
    match g {
        Grammar::C => c_entities(root, lm),
        Grammar::Cpp => cpp_nodes(root, lm, false),
        Grammar::Qml => qml_entities(root, lm),
        Grammar::Rust => rust_entities(root, lm),
        Grammar::Go => go_entities(root, lm),
        Grammar::JavaScript => js_entities(root, lm, false),
        Grammar::TypeScript => js_entities(root, lm, true),
        Grammar::Python => py_entities(root, lm),
        Grammar::Elixir => el_entities(root, lm),
    }
}

/// What a parse finds is in name order within every parent.
pub proof fn lemma_parsed_entities_ordered(g: Grammar, source: Seq<char>, lm: Seq<usize>)
    ensures
        forest_ordered(parsed_entities(g, source, lm)),
{
    lemma_empty_forest_ordered();
    if let Some(root) = syntax_tree(g, source) {
        match g {
            Grammar::C => crate::lang::c::lemma_c_entities_ordered(root, lm),
            Grammar::Cpp => crate::lang::cpp::lemma_cpp_nodes_ordered(root, lm, false),
            Grammar::Qml => crate::lang::qml::lemma_qml_entities_ordered(root, lm),
            Grammar::Rust => crate::lang::rust::lemma_rust_entities_ordered(root, lm),
            Grammar::Go => crate::lang::go::lemma_go_entities_ordered(root, lm),
            Grammar::JavaScript => crate::lang::js::lemma_js_entities_ordered(root, lm, false),
            Grammar::TypeScript => crate::lang::js::lemma_js_entities_ordered(root, lm, true),
            Grammar::Python => crate::lang::python::lemma_py_entities_ordered(root, lm),
            Grammar::Elixir => crate::lang::elixir::lemma_el_entities_ordered(root, lm),
        }
    }
}

/// Every entity a parse finds, at every level, has its lines of code
/// counted over its own line range with the table it was parsed with.
pub proof fn lemma_parsed_entities_counted(g: Grammar, source: Seq<char>, lm: Seq<usize>)
    ensures
        forest_counted(parsed_entities(g, source, lm), lm),
{
    lemma_counted_basics(lm);
    if let Some(root) = syntax_tree(g, source) {
        match g {
            Grammar::C => crate::lang::c::lemma_c_entities_counted(root, lm),
            Grammar::Cpp => crate::lang::cpp::lemma_cpp_nodes_counted(root, lm, false),
            Grammar::Qml => crate::lang::qml::lemma_qml_entities_counted(root, lm),
            Grammar::Rust => crate::lang::rust::lemma_rust_entities_counted(root, lm),
            Grammar::Go => crate::lang::go::lemma_go_entities_counted(root, lm),
            Grammar::JavaScript => crate::lang::js::lemma_js_entities_counted(root, lm, false),
            Grammar::TypeScript => crate::lang::js::lemma_js_entities_counted(root, lm, true),
            Grammar::Python => crate::lang::python::lemma_py_entities_counted(root, lm),
            Grammar::Elixir => crate::lang::elixir::lemma_el_entities_counted(root, lm),
        }
    }
}

/// What one parse of a text finds: entities, import statements and syntax
/// errors.
pub struct Parsed {
    pub entities: Vec<Entity>,
    pub imports: Vec<String>,
    pub errors: Vec<SyntaxError>,
}

/// The entities of `source` in grammar `g`, counted with table `lm`.
pub open spec fn parsed_entities(g: Grammar, source: Seq<char>, lm: Seq<usize>) -> Seq<EntityView> {
    match syntax_tree(g, source) {
        Some(root) => entities_of(g, root, lm),
        None => Seq::empty(),
    }
}

/// The import statements of `source` in grammar `g`.
pub open spec fn parsed_imports(g: Grammar, source: Seq<char>) -> Seq<Seq<char>> {
    match syntax_tree(g, source) {
        Some(root) => imports_in(g, root.children@),
        None => Seq::empty(),
    }
}

/// The syntax errors of `source` in grammar `g`.
pub open spec fn parsed_errors(g: Grammar, source: Seq<char>) -> Seq<(Seq<char>, Seq<char>, usize, usize)> {
    match syntax_tree(g, source) {
        Some(root) => errors_of(root),
        None => Seq::empty(),
    }
}

/// Parses `source` once and reads entities, imports and syntax errors from
/// the tree; a text tree-sitter builds no tree for gives none of them.
pub fn parse_all(g: Grammar, source: &str, lm: &LocMap) -> (r: Parsed)
    requires
        lm.wf(),
    ensures
        view_entities(r.entities@) == parsed_entities(g, source@, lm@),
        view_strings(r.imports@) == parsed_imports(g, source@),
        view_errors(r.errors@) == parsed_errors(g, source@),
{
    let root = match parse_source(g, source) {
        Some(root) => root,
        None => {
            let r = Parsed { entities: Vec::new(), imports: Vec::new(), errors: Vec::new() };
            assert(view_entities(r.entities@) =~= Seq::empty());
            assert(view_strings(r.imports@) =~= Seq::empty());
            assert(view_errors(r.errors@) =~= Seq::empty());
            return r;
        },
    };
    let entities = match g {
        Grammar::C => c_entities_of(&root, lm),
        Grammar::Cpp => CppParser.parse_tree(&root, lm),
        Grammar::Qml => qml_entities_of(&root, lm),
        Grammar::Rust => rust_entities_of(&root, lm),
        Grammar::Go => go_entities_of(&root, lm),
        Grammar::JavaScript => js_entities_of(&root, lm),
        Grammar::TypeScript => ts_entities_of(&root, lm),
        Grammar::Python => py_entities_of(&root, lm),
        Grammar::Elixir => el_entities_of(&root, lm),
    };
    let imports = extract_imports(g, &root);
    let errors = detect_syntax_errors(&root);
    Parsed { entities, imports, errors }
}

/// The C extractor over a source text and its line table.
pub fn parse_c(source: &str, lm: &LocMap) -> (r: Vec<Entity>)
    requires
        lm.wf(),
    ensures
        view_entities(r@) == parsed_entities(Grammar::C, source@, lm@),
{
    parse_all(Grammar::C, source, lm).entities
}

/// The C++ extractor over a source text and its line table.
pub fn parse_cpp(source: &str, lm: &LocMap) -> (r: Vec<Entity>)
    requires
        lm.wf(),
    ensures
        view_entities(r@) == parsed_entities(Grammar::Cpp, source@, lm@),
{
    parse_all(Grammar::Cpp, source, lm).entities
}

/// The QML extractor over a source text and its line table.
pub fn parse_qml(source: &str, lm: &LocMap) -> (r: Vec<Entity>)
    requires
        lm.wf(),
    ensures
        view_entities(r@) == parsed_entities(Grammar::Qml, source@, lm@),
{
    parse_all(Grammar::Qml, source, lm).entities
}

/// The Rust extractor over a source text and its line table.
pub fn parse_rust(source: &str, lm: &LocMap) -> (r: Vec<Entity>)
    requires
        lm.wf(),
    ensures
        view_entities(r@) == parsed_entities(Grammar::Rust, source@, lm@),
{
    parse_all(Grammar::Rust, source, lm).entities
}

/// The grammar with a language's canonical name, among every grammar an
/// extractor exists for.
pub open spec fn grammar_named(name: Seq<char>) -> Option<Grammar> {
    if name == "C"@ {
        Some(Grammar::C)
    } else if name == "C++"@ {
        Some(Grammar::Cpp)
    } else if name == "QML"@ {
        Some(Grammar::Qml)
    } else if name == "Rust"@ {
        Some(Grammar::Rust)
    } else if name == "Go"@ {
        Some(Grammar::Go)
    } else if name == "JavaScript"@ {
        Some(Grammar::JavaScript)
    } else if name == "TypeScript"@ {
        Some(Grammar::TypeScript)
    } else if name == "Python"@ {
        Some(Grammar::Python)
    } else if name == "Elixir"@ {
        Some(Grammar::Elixir)
    } else {
        None
    }
}

/// The grammar with a language's canonical name.
pub fn grammar_by_name(name: &str) -> (r: Option<Grammar>)
    ensures
        r == grammar_named(name@),
{
    if str_eq(name, "C") {
        Some(Grammar::C)
    } else if str_eq(name, "C++") {
        Some(Grammar::Cpp)
    } else if str_eq(name, "QML") {
        Some(Grammar::Qml)
    } else if str_eq(name, "Rust") {
        Some(Grammar::Rust)
    } else if str_eq(name, "Go") {
        Some(Grammar::Go)
    } else if str_eq(name, "JavaScript") {
        Some(Grammar::JavaScript)
    } else if str_eq(name, "TypeScript") {
        Some(Grammar::TypeScript)
    } else if str_eq(name, "Python") {
        Some(Grammar::Python)
    } else if str_eq(name, "Elixir") {
        Some(Grammar::Elixir)
    } else {
        None
    }
}

/// Parses a text in the language with canonical name `language`, with a
/// line table built from the text; an unknown language gives nothing.
pub fn parse_text(language: &str, source: &str) -> (r: Parsed)
    ensures
        grammar_named(language@) matches Some(g) ==> view_entities(r.entities@) == parsed_entities(
            g,
            source@,
            loc_table(source@),
        ) && view_strings(r.imports@) == parsed_imports(g, source@) && view_errors(r.errors@)
            == parsed_errors(g, source@),
        grammar_named(language@) is None ==> r.entities@.len() == 0 && r.imports@.len() == 0
            && r.errors@.len() == 0,
{
    match grammar_by_name(language) {
        Some(g) => {
            let lm = LocMap::build(source);
            parse_all(g, source, &lm)
        },
        None => Parsed { entities: Vec::new(), imports: Vec::new(), errors: Vec::new() },
    }
}

/// What parsing a file of `language` gives: for a registered language its
/// lines of code, entities, imports and syntax errors; otherwise nothing.
/// Dependencies are resolved later, against the whole project.
pub open spec fn file_parsed(path: Seq<char>, source: Seq<char>, language: Seq<char>) -> FileView {
    match lang_named(language) {
        Some(l) => FileView {
            path,
            language,
            loc: loc_table(source).last(),
            entities: parsed_entities(grammar_of(l), source, loc_table(source)),
            imports: parsed_imports(grammar_of(l), source),
            dependencies: Seq::empty(),
            errors: parsed_errors(grammar_of(l), source),
        },
        None => FileView {
            path,
            language,
            loc: 0,
            entities: Seq::empty(),
            imports: Seq::empty(),
            dependencies: Seq::empty(),
            errors: Seq::empty(),
        },
    }
}

/// What parsing a file gives: the path and language as given; for a
/// registered language, the file's lines of code; entities in name order
/// within every parent, each with its lines of code counted over its own
/// line range (as `LocMap::count` counts them on the file's table).
pub proof fn lemma_parsed_file(path: Seq<char>, source: Seq<char>, language: Seq<char>)
    ensures
        file_parsed(path, source, language).path == path,
        file_parsed(path, source, language).language == language,
        lang_named(language) is Some ==> file_parsed(path, source, language).loc == loc_table(source).last(),
        forest_ordered(file_parsed(path, source, language).entities),
        forest_counted(file_parsed(path, source, language).entities, loc_table(source)),
{
    lemma_empty_forest_ordered();
    lemma_counted_basics(loc_table(source));
    lemma_lang_named(language);
    if let Some(l) = lang_named(language) {
        lemma_parsed_entities_ordered(grammar_of(l), source, loc_table(source));
        lemma_parsed_entities_counted(grammar_of(l), source, loc_table(source));
    }
}

/// Parses a file of a registered language: its effective lines of code,
/// entities, import statements and syntax errors. A language that is not
/// registered gives a result with no lines and nothing found.
pub fn parse_file(path: &str, source: &str, language: &'static str) -> (r: FileResult)
    ensures
        r.path@ == path@,
        r.language == language,
        r.dependencies@.len() == 0,
        lang_named(language@) matches Some(l) ==> {
            &&& r.loc == loc_table(source@).last()
            &&& view_entities(r.entities@) == parsed_entities(grammar_of(l), source@, loc_table(source@))
            &&& view_strings(r.imports@) == parsed_imports(grammar_of(l), source@)
            &&& view_errors(r.errors@) == parsed_errors(grammar_of(l), source@)
        },
        lang_named(language@) is None ==> r.loc == 0 && r.entities@.len() == 0 && r.imports@.len() == 0
            && r.errors@.len() == 0,
        r@ == file_parsed(path@, source@, language@),
{
    let lm = LocMap::build(source);
    let loc = lm.total();
    match find_lang_named(language) {
        Some(l) => {
            let p = parse_all(l.grammar(), source, &lm);
            let r = FileResult {
                path: owned(path),
                language,
                loc,
                entities: p.entities,
                imports: p.imports,
                dependencies: Vec::new(),
                errors: p.errors,
            };
            assert(view_dependencies(r.dependencies@) =~= Seq::empty());
            r
        },
        None => {
            let r = FileResult {
                path: owned(path),
                language,
                loc: 0,
                entities: Vec::new(),
                imports: Vec::new(),
                dependencies: Vec::new(),
                errors: Vec::new(),
            };
            assert(r@ =~= file_parsed(path@, source@, language@)) by {
                assert(view_entities(r.entities@) =~= Seq::empty());
                assert(view_strings(r.imports@) =~= Seq::empty());
                assert(view_dependencies(r.dependencies@) =~= Seq::empty());
                assert(view_errors(r.errors@) =~= Seq::empty());
            }
            r
        },
    }
}

// ── Resolving imports ────────────────────────────────────────────────────────

/// The dependencies of a file's import statements, by the rules of its
/// language; a language without rules gives none.
pub open spec fn resolved_for(language: Seq<char>, imports: Seq<Seq<char>>, files: Seq<Seq<char>>) -> Seq<(Seq<char>, DependencyKind)> {
    if language == "C"@ || language == "C++"@ {
        includes_resolved(imports, files)
    } else if language == "Rust"@ {
        rust_resolved(imports, files)
    } else if language == "Go"@ {
        go_resolved(imports)
    } else if language == "JavaScript"@ || language == "TypeScript"@ {
        js_resolved(imports)
    } else if language == "Python"@ {
        py_resolved(imports)
    } else {
        Seq::empty()
    }
}

/// Resolves a file's import statements by the rules of its language.
pub fn resolve_imports(language: &str, imports: &Vec<String>, project_files: &Vec<String>) -> (r: Vec<Dependency>)
    ensures
        view_dependencies(r@) == resolved_for(language@, view_strings(imports@), view_strings(project_files@)),
{
    if str_eq(language, "C") || str_eq(language, "C++") {
        c_family::resolve_includes(imports, project_files)
    } else if str_eq(language, "Rust") {
        rust::resolve_imports(imports, project_files)
    } else if str_eq(language, "Go") {
        go::resolve_imports(imports, project_files)
    } else if str_eq(language, "JavaScript") || str_eq(language, "TypeScript") {
        js::resolve_imports(imports, project_files)
    } else if str_eq(language, "Python") {
        python::resolve_imports(imports, project_files)
    } else {
        let r: Vec<Dependency> = Vec::new();
        assert(view_dependencies(r@) =~= Seq::<(Seq<char>, DependencyKind)>::empty());
        r
    }
}

} // verus!
