//! The entity model shared by every language and every output.
use vstd::prelude::*;

verus! {

/// The canonical kind of a structural entity, whatever the language.
#[derive(PartialEq, Eq, Structural, Clone, Copy, Debug)]
pub enum EntityType {
    Class,
    Enum,
    Function,
    Impl,
    Method,
    Namespace,
    Struct,
    Trait,
}

/// One named structural element of a file, with its nested elements.
#[derive(Debug)]
pub struct Entity {
    pub name: String,
    pub entity_type: EntityType,
    /// Effective lines of code between `start_line` and `end_line`.
    pub loc: usize,
    /// 1-based first line.
    pub start_line: usize,
    /// 1-based last line.
    pub end_line: usize,
    /// Nested entities, sorted by name where the language sorts them.
    pub children: Vec<Entity>,
    /// The language's own word for the construct (such as `defmodule`), or
    /// empty.
    pub kind: String,
}

/// The mathematical value of an `Entity`: its text fields as character
/// sequences and its children as a sequence of values.
pub struct EntityView {
    pub name: Seq<char>,
    pub entity_type: EntityType,
    pub loc: usize,
    pub start_line: usize,
    pub end_line: usize,
    pub children: Seq<EntityView>,
    pub kind: Seq<char>,
}

pub open spec fn view_entity(e: Entity) -> EntityView
    decreases e,
{
    EntityView {
        name: e.name@,
        entity_type: e.entity_type,
        loc: e.loc,
        start_line: e.start_line,
        end_line: e.end_line,
        children: view_entities(e.children@),
        kind: e.kind@,
    }
}

/// The values of a sequence of entities.
pub open spec fn view_entities(s: Seq<Entity>) -> Seq<EntityView>
    decreases s,
{
    if s.len() == 0 {
        Seq::empty()
    } else {
        view_entities(s.drop_last()).push(view_entity(s.last()))
    }
}

/// The value of an optional entity.
pub open spec fn view_entity_opt(o: Option<Entity>) -> Option<EntityView> {
    match o {
        Some(e) => Some(view_entity(e)),
        None => None,
    }
}

impl View for Entity {
    type V = EntityView;

    open spec fn view(&self) -> EntityView {
        view_entity(*self)
    }
}

pub proof fn lemma_view_entities_len(s: Seq<Entity>)
    ensures
        view_entities(s).len() == s.len(),
    decreases s.len(),
{
    if s.len() > 0 {
        lemma_view_entities_len(s.drop_last());
    }
}

/// Pushing an entity pushes its value.
pub proof fn lemma_view_entities_push(s: Seq<Entity>, x: Entity)
    ensures
        view_entities(s.push(x)) == view_entities(s).push(view_entity(x)),
{
    assert(s.push(x).drop_last() =~= s);
}

/// Element `i` of the values is the value of element `i`.
pub proof fn lemma_view_entities_index(s: Seq<Entity>, i: int)
    requires
        0 <= i < s.len(),
    ensures
        view_entities(s).len() == s.len(),
        view_entities(s)[i] == view_entity(s[i]),
    decreases s.len(),
{
    lemma_view_entities_len(s);
    if i < s.len() - 1 {
        lemma_view_entities_index(s.drop_last(), i);
    }
}

/// The values of a sequence are the values of its elements.
pub proof fn lemma_view_entities(s: Seq<Entity>)
    ensures
        view_entities(s).len() == s.len(),
        forall|i: int| 0 <= i < s.len() ==> #[trigger] view_entities(s)[i] == view_entity(s[i]),
{
    lemma_view_entities_len(s);
    assert forall|i: int| 0 <= i < s.len() implies #[trigger] view_entities(s)[i] == view_entity(s[i]) by {
        lemma_view_entities_index(s, i);
    }
}

/// Two sequences with equal element values have equal values.
pub proof fn lemma_view_entities_ext(a: Seq<Entity>, b: Seq<Entity>)
    requires
        a.len() == b.len(),
        forall|i: int| 0 <= i < a.len() ==> view_entity(#[trigger] a[i]) == view_entity(b[i]),
    ensures
        view_entities(a) == view_entities(b),
{
    lemma_view_entities(a);
    lemma_view_entities(b);
    assert(view_entities(a) =~= view_entities(b));
}

impl Entity {
    /// A leaf entity: no children and no language-specific kind.
    pub fn new(name: String, entity_type: EntityType, loc: usize, start_line: usize, end_line: usize) -> (e: Entity)
        ensures
            e@ == (EntityView {
                name: name@,
                entity_type,
                loc,
                start_line,
                end_line,
                children: Seq::empty(),
                kind: Seq::empty(),
            }),
    {
        let e = Entity { name, entity_type, loc, start_line, end_line, children: Vec::new(), kind: String::new() };
        assert(view_entities(e.children@) =~= Seq::empty());
        e
    }

    /// A copy of the entity and everything nested in it.
    pub fn copy(&self) -> (r: Entity)
        ensures
            r@ == self@,
        decreases self,
    {
        let children = copy_entities(&self.children);
        Entity {
            name: self.name.clone(),
            entity_type: self.entity_type,
            loc: self.loc,
            start_line: self.start_line,
            end_line: self.end_line,
            children,
            kind: self.kind.clone(),
        }
    }
}

impl Clone for Entity {
    fn clone(&self) -> (r: Entity)
        ensures
            r@ == self@,
    {
        self.copy()
    }
}

/// A copy of each entity, in order.
pub fn copy_entities(es: &Vec<Entity>) -> (r: Vec<Entity>)
    ensures
        view_entities(r@) == view_entities(es@),
    decreases es,
{
    let mut r: Vec<Entity> = Vec::new();
    let mut i: usize = 0;
    while i < es.len()
        invariant
            i <= es@.len(),
            r@.len() == i,
            forall|k: int| 0 <= k < i ==> view_entity(#[trigger] r@[k]) == view_entity(es@[k]),
        decreases es.len() - i,
    {
        r.push(es[i].copy());
        i += 1;
    }
    proof {
        lemma_view_entities_ext(r@, es@);
    }
    r
}

/// Whether an import resolves to a file of the project or to something
/// outside it.
#[derive(PartialEq, Eq, Structural, Clone, Copy, Debug)]
pub enum DependencyKind {
    Internal,
    External,
}

/// One import of a file, classified.
#[derive(Debug)]
pub struct Dependency {
    pub name: String,
    pub kind: DependencyKind,
}

impl View for Dependency {
    type V = (Seq<char>, DependencyKind);

    open spec fn view(&self) -> (Seq<char>, DependencyKind) {
        (self.name@, self.kind)
    }
}

impl Clone for Dependency {
    fn clone(&self) -> (r: Dependency)
        ensures
            r@ == self@,
    {
        Dependency { name: self.name.clone(), kind: self.kind }
    }
}

/// A syntax error or a node the parser had to invent, with its lines.
#[derive(Debug)]
pub struct SyntaxError {
    /// `"error"` or `"missing"`.
    pub kind: String,
    /// The grammar type of the offending node.
    pub node_kind: String,
    pub start_line: usize,
    pub end_line: usize,
}

impl View for SyntaxError {
    type V = (Seq<char>, Seq<char>, usize, usize);

    open spec fn view(&self) -> (Seq<char>, Seq<char>, usize, usize) {
        (self.kind@, self.node_kind@, self.start_line, self.end_line)
    }
}

impl Clone for SyntaxError {
    fn clone(&self) -> (r: SyntaxError)
        ensures
            r@ == self@,
    {
        SyntaxError {
            kind: self.kind.clone(),
            node_kind: self.node_kind.clone(),
            start_line: self.start_line,
            end_line: self.end_line,
        }
    }
}

/// Everything a scan learns about one file.
#[derive(Debug)]
pub struct FileResult {
    pub path: String,
    /// The language's canonical name.
    pub language: &'static str,
    /// Effective lines of code of the whole file.
    pub loc: usize,
    pub entities: Vec<Entity>,
    /// The source text of each import statement.
    pub imports: Vec<String>,
    pub dependencies: Vec<Dependency>,
    pub errors: Vec<SyntaxError>,
}

/// The mathematical value of a `FileResult`.
pub struct FileView {
    pub path: Seq<char>,
    pub language: Seq<char>,
    pub loc: usize,
    pub entities: Seq<EntityView>,
    pub imports: Seq<Seq<char>>,
    pub dependencies: Seq<(Seq<char>, DependencyKind)>,
    pub errors: Seq<(Seq<char>, Seq<char>, usize, usize)>,
}

impl View for FileResult {
    type V = FileView;

    open spec fn view(&self) -> FileView {
        FileView {
            path: self.path@,
            language: self.language@,
            loc: self.loc,
            entities: view_entities(self.entities@),
            imports: view_strings(self.imports@),
            dependencies: view_dependencies(self.dependencies@),
            errors: view_errors(self.errors@),
        }
    }
}

/// The values of a sequence of file results.
pub open spec fn view_results(rs: Seq<FileResult>) -> Seq<FileView> {
    rs.map_values(|r: FileResult| r@)
}

/// The values of a vector of strings.
pub open spec fn view_strings(v: Seq<String>) -> Seq<Seq<char>> {
    v.map_values(|s: String| s@)
}

/// The values of a vector of dependencies.
pub open spec fn view_dependencies(v: Seq<Dependency>) -> Seq<(Seq<char>, DependencyKind)> {
    v.map_values(|d: Dependency| d@)
}

/// The values of a vector of syntax errors.
pub open spec fn view_errors(v: Seq<SyntaxError>) -> Seq<(Seq<char>, Seq<char>, usize, usize)> {
    v.map_values(|e: SyntaxError| e@)
}

/// A copy of each string.
pub fn copy_strings(v: &Vec<String>) -> (r: Vec<String>)
    ensures
        view_strings(r@) == view_strings(v@),
{
    let mut r: Vec<String> = Vec::new();
    let mut i: usize = 0;
    while i < v.len()
        invariant
            i <= v@.len(),
            r@.len() == i,
            forall|k: int| 0 <= k < i ==> (#[trigger] r@[k])@ == v@[k]@,
        decreases v.len() - i,
    {
        r.push(v[i].clone());
        i += 1;
    }
    assert(view_strings(r@) =~= view_strings(v@));
    r
}

/// A copy of each dependency.
pub fn copy_dependencies(v: &Vec<Dependency>) -> (r: Vec<Dependency>)
    ensures
        view_dependencies(r@) == view_dependencies(v@),
{
    let mut r: Vec<Dependency> = Vec::new();
    let mut i: usize = 0;
    while i < v.len()
        invariant
            i <= v@.len(),
            r@.len() == i,
            forall|k: int| 0 <= k < i ==> (#[trigger] r@[k])@ == v@[k]@,
        decreases v.len() - i,
    {
        r.push(v[i].clone());
        i += 1;
    }
    assert(view_dependencies(r@) =~= view_dependencies(v@));
    r
}

/// A copy of each syntax error.
pub fn copy_errors(v: &Vec<SyntaxError>) -> (r: Vec<SyntaxError>)
    ensures
        view_errors(r@) == view_errors(v@),
{
    let mut r: Vec<SyntaxError> = Vec::new();
    let mut i: usize = 0;
    while i < v.len()
        invariant
            i <= v@.len(),
            r@.len() == i,
            forall|k: int| 0 <= k < i ==> (#[trigger] r@[k])@ == v@[k]@,
        decreases v.len() - i,
    {
        r.push(v[i].clone());
        i += 1;
    }
    assert(view_errors(r@) =~= view_errors(v@));
    r
}

} // verus!
