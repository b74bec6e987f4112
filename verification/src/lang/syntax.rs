//! Syntax trees as plain values.
//!
//! Parsing is tree-sitter's work; what the entity extraction reads of a
//! node (its kind, its field name within its parent, its error flags, its
//! rows, its text and its children) is copied into `SyntaxNode`, and every
//! question the extractors ask of a tree is answered here, over that value.
use vstd::prelude::*;

use crate::text::{chars_of, seq_eq, str_eq};

verus! {

/// The grammars the extractors read.
#[derive(PartialEq, Eq, Structural, Clone, Copy, Debug)]
pub enum Grammar {
    C,
    Cpp,
    Qml,
    Rust,
    Go,
    JavaScript,
    TypeScript,
    Python,
    Elixir,
}

/// One node of a syntax tree.
pub struct SyntaxNode {
    /// The node's grammar type, such as `function_definition`.
    pub kind: String,
    /// The field name under which the parent holds this node, if any.
    pub field: Option<String>,
    /// Whether the node is named in the grammar (not a literal token).
    pub named: bool,
    /// Whether the node is a syntax error.
    pub error: bool,
    /// Whether the parser inserted the node to recover from an error.
    pub missing: bool,
    /// 0-based first row.
    pub start_row: usize,
    /// 0-based last row.
    pub end_row: usize,
    /// The node's source text, when its byte range is valid UTF-8.
    pub text: Option<String>,
    /// The node's children, in source order.
    pub children: Vec<SyntaxNode>,
}

/// The root of the tree tree-sitter builds for `source` in `grammar`, or
/// `None` when it builds none.
pub uninterp spec fn syntax_tree(grammar: Grammar, source: Seq<char>) -> Option<SyntaxNode>;

/// tree-sitter's node handle, carried from the parser into the copy below.
#[verifier::external_type_specification]
#[verifier::external_body]
pub struct ExTreeSitterNode<'tree>(tree_sitter::Node<'tree>);

/// `tree_sitter::Parser::parse` of `source` with the grammar's language,
/// copied into a `SyntaxNode` tree. The claim is only that the result is
/// `syntax_tree(grammar, source@)`: the same grammar and text give the same
/// tree. What the tree holds for a given text is not stated.
#[verifier::external_body]
pub(crate) fn parse_source(grammar: Grammar, source: &str) -> (r: Option<SyntaxNode>)
    ensures
        r == syntax_tree(grammar, source@),
{
    let language: tree_sitter::Language = match grammar {
        Grammar::C => tree_sitter_c::LANGUAGE, Grammar::Cpp => tree_sitter_cpp::LANGUAGE,
        Grammar::Qml => tree_sitter_qmljs::LANGUAGE, Grammar::Rust => tree_sitter_rust::LANGUAGE,
        Grammar::Go => tree_sitter_go::LANGUAGE, Grammar::JavaScript => tree_sitter_javascript::LANGUAGE,
        Grammar::TypeScript => tree_sitter_typescript::LANGUAGE_TYPESCRIPT,
        Grammar::Python => tree_sitter_python::LANGUAGE, Grammar::Elixir => tree_sitter_elixir::LANGUAGE,
    }.into();
    let mut parser = tree_sitter::Parser::new();
    parser.set_language(&language).ok()?;
    let tree = parser.parse(source, None)?;
    Some(syntax_node_of(tree.root_node(), None, source.as_bytes()))
}

/// Copies a tree-sitter node and its subtree, field by field: `kind`,
/// `is_named`, `is_error`, `is_missing`, the start and end rows, `utf8_text`,
/// and the children with the field names a `TreeCursor` reports for them.
#[verifier::external_body]
fn syntax_node_of(node: tree_sitter::Node, field: Option<&str>, src: &[u8]) -> SyntaxNode {
    let (mut children, mut cursor) = (Vec::new(), node.walk());
    let mut more = cursor.goto_first_child();
    while more {
        children.push(syntax_node_of(cursor.node(), cursor.field_name(), src));
        more = cursor.goto_next_sibling();
    }
    SyntaxNode { kind: node.kind().to_owned(), field: field.map(str::to_owned), named: node.is_named(),
        error: node.is_error(), missing: node.is_missing(), start_row: node.start_position().row,
        end_row: node.end_position().row, text: node.utf8_text(src).ok().map(str::to_owned), children }
}

// ── Questions asked of a node ───────────────────────────────────────────────

/// The node's kind is `k`.
pub open spec fn kind_is(n: SyntaxNode, k: Seq<char>) -> bool {
    n.kind@ == k
}

/// The node's source text.
pub open spec fn text_of(n: SyntaxNode) -> Option<Seq<char>> {
    match n.text {
        Some(t) => Some(t@),
        None => None,
    }
}

/// The index of the first child at or after `i` held under field `f`.
pub open spec fn field_index_from(cs: Seq<SyntaxNode>, f: Seq<char>, i: int) -> Option<int>
    decreases cs.len() - i,
{
    if i < 0 || i >= cs.len() {
        None
    } else if cs[i].field matches Some(s) && s@ == f {
        Some(i)
    } else {
        field_index_from(cs, f, i + 1)
    }
}

/// The index of the first child at or after `i` whose kind is `k`.
pub open spec fn kind_index_from(cs: Seq<SyntaxNode>, k: Seq<char>, i: int) -> Option<int>
    decreases cs.len() - i,
{
    if i < 0 || i >= cs.len() {
        None
    } else if kind_is(cs[i], k) {
        Some(i)
    } else {
        kind_index_from(cs, k, i + 1)
    }
}

/// The index of the first named child at or after `i`.
pub open spec fn named_index_from(cs: Seq<SyntaxNode>, i: int) -> Option<int>
    decreases cs.len() - i,
{
    if i < 0 || i >= cs.len() {
        None
    } else if cs[i].named {
        Some(i)
    } else {
        named_index_from(cs, i + 1)
    }
}

/// The index of the first child at or after `i` whose kind is one of `ks`.
pub open spec fn kinds_index_from(cs: Seq<SyntaxNode>, ks: Seq<Seq<char>>, i: int) -> Option<int>
    decreases cs.len() - i,
{
    if i < 0 || i >= cs.len() {
        None
    } else if ks.contains(cs[i].kind@) {
        Some(i)
    } else {
        kinds_index_from(cs, ks, i + 1)
    }
}

/// The first child whose kind is one of `ks`.
pub open spec fn child_of_kinds(n: SyntaxNode, ks: Seq<Seq<char>>) -> Option<SyntaxNode> {
    match kinds_index_from(n.children@, ks, 0) {
        Some(i) => Some(n.children@[i]),
        None => None,
    }
}

/// `Node::child_by_field_name`: the first child held under field `f`.
pub open spec fn child_by_field(n: SyntaxNode, f: Seq<char>) -> Option<SyntaxNode> {
    match field_index_from(n.children@, f, 0) {
        Some(k) => Some(n.children@[k]),
        None => None,
    }
}

/// The first child whose kind is `k`.
pub open spec fn child_of_kind(n: SyntaxNode, k: Seq<char>) -> Option<SyntaxNode> {
    match kind_index_from(n.children@, k, 0) {
        Some(i) => Some(n.children@[i]),
        None => None,
    }
}

/// `Node::named_child(0)`: the first named child.
pub open spec fn first_named_child(n: SyntaxNode) -> Option<SyntaxNode> {
    match named_index_from(n.children@, 0) {
        Some(i) => Some(n.children@[i]),
        None => None,
    }
}

/// The text of the child held under `name`.
pub open spec fn name_field(n: SyntaxNode) -> Option<Seq<char>> {
    match child_by_field(n, "name"@) {
        Some(c) => text_of(c),
        None => None,
    }
}

/// The 1-based first and last lines of a node. Rows are at most
/// `usize::MAX - 1` in any tree that fits in memory; the line stays at the
/// row otherwise.
pub open spec fn node_lines(n: SyntaxNode) -> (usize, usize) {
    (
        if n.start_row < usize::MAX { (n.start_row + 1) as usize } else { n.start_row },
        if n.end_row < usize::MAX { (n.end_row + 1) as usize } else { n.end_row },
    )
}

proof fn lemma_field_index_from(cs: Seq<SyntaxNode>, f: Seq<char>, i: int)
    requires
        0 <= i,
    ensures
        field_index_from(cs, f, i) matches Some(k) ==> i <= k < cs.len() && (cs[k].field matches Some(s)
            && s@ == f),
        field_index_from(cs, f, i) is None ==> forall|j: int|
            i <= j < cs.len() ==> !((#[trigger] cs[j]).field matches Some(s) && s@ == f),
    decreases cs.len() - i,
{
    if i < cs.len() {
        lemma_field_index_from(cs, f, i + 1);
    }
}

proof fn lemma_kind_index_from(cs: Seq<SyntaxNode>, k: Seq<char>, i: int)
    requires
        0 <= i,
    ensures
        kind_index_from(cs, k, i) matches Some(m) ==> i <= m < cs.len() && kind_is(cs[m], k),
        kind_index_from(cs, k, i) is None ==> forall|j: int| i <= j < cs.len() ==> !kind_is(cs[j], k),
    decreases cs.len() - i,
{
    if i < cs.len() {
        lemma_kind_index_from(cs, k, i + 1);
    }
}

proof fn lemma_named_index_from(cs: Seq<SyntaxNode>, i: int)
    requires
        0 <= i,
    ensures
        named_index_from(cs, i) matches Some(m) ==> i <= m < cs.len() && cs[m].named,
        named_index_from(cs, i) is None ==> forall|j: int| i <= j < cs.len() ==> !cs[j].named,
    decreases cs.len() - i,
{
    if i < cs.len() {
        lemma_named_index_from(cs, i + 1);
    }
}

proof fn lemma_kinds_index_from(cs: Seq<SyntaxNode>, ks: Seq<Seq<char>>, i: int)
    requires
        0 <= i,
    ensures
        kinds_index_from(cs, ks, i) matches Some(m) ==> i <= m < cs.len(),
    decreases cs.len() - i,
{
    if i < cs.len() {
        lemma_kinds_index_from(cs, ks, i + 1);
    }
}

proof fn lemma_kinds_index_at(cs: Seq<SyntaxNode>, ks: Seq<Seq<char>>, start: int, i: int)
    requires
        0 <= start <= i < cs.len(),
        ks.contains(cs[i].kind@),
        forall|j: int| start <= j < i ==> !ks.contains(#[trigger] cs[j].kind@),
    ensures
        kinds_index_from(cs, ks, start) == Some(i),
    decreases i - start,
{
    if start < i {
        lemma_kinds_index_at(cs, ks, start + 1, i);
    }
}

/// The child found by kinds is the first child of one of those kinds.
pub proof fn lemma_first_of_kinds(n: SyntaxNode, ks: Seq<Seq<char>>, i: int)
    requires
        0 <= i < n.children@.len(),
        ks.contains(n.children@[i].kind@),
        forall|j: int| 0 <= j < i ==> !ks.contains(#[trigger] n.children@[j].kind@),
    ensures
        child_of_kinds(n, ks) == Some(n.children@[i]),
{
    lemma_kinds_index_at(n.children@, ks, 0, i);
}

/// A child found by one of several kinds lies below its parent.
pub proof fn lemma_kinds_child_below(n: SyntaxNode, ks: Seq<Seq<char>>)
    ensures
        child_of_kinds(n, ks) matches Some(c) ==> decreases_to!(n => c),
{
    lemma_kinds_index_from(n.children@, ks, 0);
    if let Some(k) = kinds_index_from(n.children@, ks, 0) {
        lemma_child_below(n, k);
    }
}

/// Every child lies below its parent.
pub proof fn lemma_child_below(n: SyntaxNode, i: int)
    requires
        0 <= i < n.children@.len(),
    ensures
        decreases_to!(n => n.children@[i]),
{
    assert(decreases_to!(n => n.children));
    assert(decreases_to!(n.children => n.children@));
    assert(decreases_to!(n.children@ => n.children@[i]));
}

/// A child found by field, by kind or by position lies below its parent.
pub proof fn lemma_found_child_below(n: SyntaxNode, f: Seq<char>)
    ensures
        child_by_field(n, f) matches Some(c) ==> decreases_to!(n => c),
        child_of_kind(n, f) matches Some(c) ==> decreases_to!(n => c),
        first_named_child(n) matches Some(c) ==> decreases_to!(n => c),
{
    lemma_field_index_from(n.children@, f, 0);
    lemma_kind_index_from(n.children@, f, 0);
    lemma_named_index_from(n.children@, 0);
    if let Some(k) = field_index_from(n.children@, f, 0) {
        lemma_child_below(n, k);
    }
    if let Some(k) = kind_index_from(n.children@, f, 0) {
        lemma_child_below(n, k);
    }
    if let Some(k) = named_index_from(n.children@, 0) {
        lemma_child_below(n, k);
    }
}

// ── The same questions, asked by running code ───────────────────────────────

impl SyntaxNode {
    /// Whether the kind is `k`.
    pub fn is_kind(&self, k: &str) -> (r: bool)
        ensures
            r == kind_is(*self, k@),
    {
        str_eq(self.kind.as_str(), k)
    }

    /// A copy of the node's text.
    pub fn text_copy(&self) -> (r: Option<String>)
        ensures
            r matches Some(s) ==> text_of(*self) == Some(s@),
            r is None ==> text_of(*self) is None,
    {
        match &self.text {
            Some(t) => Some(t.clone()),
            None => None,
        }
    }

    /// `Node::child_by_field_name`.
    pub fn child_by_field(&self, f: &str) -> (r: Option<&SyntaxNode>)
        ensures
            r matches Some(c) ==> child_by_field(*self, f@) == Some(*c),
            r is None ==> child_by_field(*self, f@) is None,
    {
        let fc = chars_of(f);
        let mut i: usize = 0;
        while i < self.children.len()
            invariant
                i <= self.children@.len(),
                fc@ == f@,
                field_index_from(self.children@, f@, 0) == field_index_from(self.children@, f@, i as int),
            decreases self.children.len() - i,
        {
            let c = &self.children[i];
            let hit = match &c.field {
                Some(s) => {
                    let sc = chars_of(s.as_str());
                    seq_eq(&sc, &fc)
                },
                None => false,
            };
            if hit {
                return Some(c);
            }
            i += 1;
        }
        None
    }

    /// The first child of kind `k`.
    pub fn child_of_kind(&self, k: &str) -> (r: Option<&SyntaxNode>)
        ensures
            r matches Some(c) ==> child_of_kind(*self, k@) == Some(*c),
            r is None ==> child_of_kind(*self, k@) is None,
    {
        let mut i: usize = 0;
        while i < self.children.len()
            invariant
                i <= self.children@.len(),
                kind_index_from(self.children@, k@, 0) == kind_index_from(self.children@, k@, i as int),
            decreases self.children.len() - i,
        {
            let c = &self.children[i];
            if c.is_kind(k) {
                return Some(c);
            }
            i += 1;
        }
        None
    }

    /// The first child whose kind is one of `ks`.
    pub fn child_of_kinds(&self, ks: &Vec<&str>) -> (r: Option<&SyntaxNode>)
        ensures
            r matches Some(c) ==> child_of_kinds(*self, ks@.map_values(|k: &str| k@)) == Some(*c),
            r is None ==> child_of_kinds(*self, ks@.map_values(|k: &str| k@)) is None,
    {
        let ghost kv = ks@.map_values(|k: &str| k@);
        let mut i: usize = 0;
        while i < self.children.len()
            invariant
                i <= self.children@.len(),
                kv == ks@.map_values(|k: &str| k@),
                kinds_index_from(self.children@, kv, 0) == kinds_index_from(self.children@, kv, i as int),
            decreases self.children.len() - i,
        {
            let c = &self.children[i];
            let mut j: usize = 0;
            let mut hit = false;
            while j < ks.len()
                invariant
                    j <= ks@.len(),
                    kv == ks@.map_values(|k: &str| k@),
                    hit == exists|m: int| 0 <= m < j && kv[m] == c.kind@,
                decreases ks.len() - j,
            {
                let same = c.is_kind(ks[j]);
                proof {
                    assert(kv[j as int] == ks@[j as int]@);
                    if same {
                        assert(0 <= j < j + 1 && kv[j as int] == c.kind@);
                    }
                    if !same && !hit {
                        assert forall|m: int| 0 <= m < j + 1 implies kv[m] != c.kind@ by {
                            if m < j {
                                assert(!(0 <= m < j && kv[m] == c.kind@));
                            }
                        }
                    }
                }
                if same {
                    hit = true;
                }
                j += 1;
            }
            proof {
                if kv.contains(c.kind@) {
                    let m = choose|m: int| 0 <= m < kv.len() && kv[m] == c.kind@;
                    assert(hit);
                }
                if hit {
                    let m = choose|m: int| 0 <= m < j && kv[m] == c.kind@;
                    assert(kv.contains(c.kind@));
                }
            }
            if hit {
                return Some(c);
            }
            i += 1;
        }
        None
    }

    /// `Node::named_child(0)`.
    pub fn first_named_child(&self) -> (r: Option<&SyntaxNode>)
        ensures
            r matches Some(c) ==> first_named_child(*self) == Some(*c),
            r is None ==> first_named_child(*self) is None,
    {
        let mut i: usize = 0;
        while i < self.children.len()
            invariant
                i <= self.children@.len(),
                named_index_from(self.children@, 0) == named_index_from(self.children@, i as int),
            decreases self.children.len() - i,
        {
            let c = &self.children[i];
            if c.named {
                return Some(c);
            }
            i += 1;
        }
        None
    }

    /// The text of the child held under `name`.
    pub fn name_field(&self) -> (r: Option<String>)
        ensures
            r matches Some(s) ==> name_field(*self) == Some(s@),
            r is None ==> name_field(*self) is None,
    {
        match self.child_by_field("name") {
            Some(c) => c.text_copy(),
            None => None,
        }
    }

    /// The 1-based first and last lines.
    pub fn lines(&self) -> (r: (usize, usize))
        ensures
            r == node_lines(*self),
    {
        (self.start_row.saturating_add(1), self.end_row.saturating_add(1))
    }
}

} // verus!
