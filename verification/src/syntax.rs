//! Syntax trees: parsed and searched by tree-sitter, then read as lists of nodes of the
//! library's own.

use tree_sitter::StreamingIterator;
use vstd::prelude::*;

use crate::language::{language_name, Language};
use crate::model::{views, Dup};

verus! {

broadcast use crate::model::group_views;

/// tree-sitter's syntax tree.
#[verifier::external_type_specification]
#[verifier::external_body]
pub struct ExTree(tree_sitter::Tree);

/// A node of a syntax tree: its kind, the bytes and rows of the source that it spans, how
/// many nodes stand above it, and the field of its parent that it is, if any.
#[derive(Debug)]
pub struct SyntaxNode {
    pub kind: String,
    pub start_byte: usize,
    pub end_byte: usize,
    pub start_row: usize,
    pub end_row: usize,
    pub depth: usize,
    pub field: Option<String>,
}

/// What a [`SyntaxNode`] holds.
#[verifier::ext_equal]
pub struct SyntaxNodeView {
    pub kind: Seq<char>,
    pub start_byte: usize,
    pub end_byte: usize,
    pub start_row: usize,
    pub end_row: usize,
    pub depth: usize,
    pub field: Option<Seq<char>>,
}

impl DeepView for SyntaxNode {
    type V = SyntaxNodeView;

    open spec fn deep_view(&self) -> SyntaxNodeView {
        SyntaxNodeView {
            kind: self.kind.deep_view(),
            start_byte: self.start_byte.deep_view(),
            end_byte: self.end_byte.deep_view(),
            start_row: self.start_row.deep_view(),
            end_row: self.end_row.deep_view(),
            depth: self.depth.deep_view(),
            field: self.field.deep_view(),
        }
    }
}

impl View for SyntaxNode {
    type V = SyntaxNodeView;

    open spec fn view(&self) -> SyntaxNodeView {
        self.deep_view()
    }
}

impl Dup for SyntaxNode {
    fn dup(&self) -> (r: SyntaxNode) {
        SyntaxNode {
            kind: self.kind.dup(),
            start_byte: self.start_byte.dup(),
            end_byte: self.end_byte.dup(),
            start_row: self.start_row.dup(),
            end_row: self.end_row.dup(),
            depth: self.depth.dup(),
            field: self.field.dup(),
        }
    }
}

/// A node that a query captured: the capture's name, and the node's kind and bytes.
#[derive(Debug)]
pub struct Capture {
    pub name: String,
    pub kind: String,
    pub start_byte: usize,
    pub end_byte: usize,
}

/// What a [`Capture`] holds.
#[verifier::ext_equal]
pub struct CaptureView {
    pub name: Seq<char>,
    pub kind: Seq<char>,
    pub start_byte: usize,
    pub end_byte: usize,
}

impl DeepView for Capture {
    type V = CaptureView;

    open spec fn deep_view(&self) -> CaptureView {
        CaptureView {
            name: self.name.deep_view(),
            kind: self.kind.deep_view(),
            start_byte: self.start_byte.deep_view(),
            end_byte: self.end_byte.deep_view(),
        }
    }
}

impl View for Capture {
    type V = CaptureView;

    open spec fn view(&self) -> CaptureView {
        self.deep_view()
    }
}

/// A match of a query: what it captured.
#[derive(Debug)]
pub struct QueryHit {
    pub captures: Vec<Capture>,
}

/// What a [`QueryHit`] holds.
#[verifier::ext_equal]
pub struct QueryHitView {
    pub captures: Seq<CaptureView>,
}

impl DeepView for QueryHit {
    type V = QueryHitView;

    open spec fn deep_view(&self) -> QueryHitView {
        QueryHitView {
            captures: views(self.captures@),
        }
    }
}

impl View for QueryHit {
    type V = QueryHitView;

    open spec fn view(&self) -> QueryHitView {
        self.deep_view()
    }
}

/// The nodes of a syntax tree, each before the nodes below it.
pub uninterp spec fn tree_nodes(t: tree_sitter::Tree) -> Seq<SyntaxNodeView>;

/// The name of the language whose grammar a syntax tree was parsed with.
pub uninterp spec fn tree_language(t: tree_sitter::Tree) -> Seq<char>;

/// The nodes of the syntax tree that tree-sitter parses a source to with the grammar of the
/// language of that name; none where it gives no tree.
pub uninterp spec fn syntax_tree(language: Seq<char>, source: Seq<char>) -> Option<
    Seq<SyntaxNodeView>,
>;

/// What a query finds in the syntax tree of a source; none where the query is not valid for
/// the grammar.
pub uninterp spec fn query_hits(language: Seq<char>, query: Seq<char>, source: Seq<char>) -> Option<
    Seq<QueryHitView>,
>;

/// `tree_sitter::Parser::parse` with the grammar that the language's grammar crate gives:
/// the tree depends on the language and the source alone. None also where the parser does
/// not take the grammar.
#[verifier::external_body]
fn parse_tree(language: Language, source: &str) -> (r: Option<tree_sitter::Tree>)
    ensures
        match r {
            Some(t) => syntax_tree(language_name(language), source@) == Some(tree_nodes(t))
                && tree_language(t) == language_name(language),
            None => syntax_tree(language_name(language), source@) is None,
        },
{
    let grammar = match language {
        Language::Rust => tree_sitter_rust::LANGUAGE,
        Language::TypeScript => tree_sitter_typescript::LANGUAGE_TYPESCRIPT,
        Language::JavaScript => tree_sitter_javascript::LANGUAGE,
        Language::Svelte => tree_sitter_svelte_ng::LANGUAGE,
        Language::Html => tree_sitter_html::LANGUAGE,
        Language::Css => tree_sitter_css::LANGUAGE,
    };
    let mut parser = tree_sitter::Parser::new();
    parser.set_language(&grammar.into()).ok()?;
    parser.parse(source, None)
}

/// `tree_sitter::Node::descendant_count` of the root: how many nodes the tree has.
#[verifier::external_body]
fn node_count(tree: &tree_sitter::Tree) -> (n: usize)
    ensures
        n == tree_nodes(*tree).len(),
{
    tree.root_node().descendant_count()
}

/// The node that `tree_sitter::TreeCursor::goto_descendant` gets to by its number.
#[verifier::external_body]
fn node_at(tree: &tree_sitter::Tree, i: usize) -> (r: SyntaxNode)
    requires
        i < tree_nodes(*tree).len(),
    ensures
        r@ == tree_nodes(*tree)[i as int],
{
    let mut cursor = tree.walk();
    cursor.goto_descendant(i);
    let node = cursor.node();
    SyntaxNode {
        kind: node.kind().to_string(),
        start_byte: node.start_byte(),
        end_byte: node.end_byte(),
        start_row: node.start_position().row,
        end_row: node.end_position().row,
        depth: cursor.depth() as usize,
        field: cursor.field_name().map(|f| f.to_string()),
    }
}

/// `tree_sitter::QueryCursor::matches` on the whole tree, with each capture's name and node:
/// what it finds depends on the language, the query and the source alone. None where
/// `tree_sitter::Query::new` refuses the query.
#[verifier::external_body]
fn run_query(query: &str, source: &str, tree: &tree_sitter::Tree) -> (r: Option<Vec<QueryHit>>)
    requires
        syntax_tree(tree_language(*tree), source@) == Some(tree_nodes(*tree)),
    ensures
        match r {
            Some(hits) => query_hits(tree_language(*tree), query@, source@) == Some(views(hits@)),
            None => query_hits(tree_language(*tree), query@, source@) is None,
        },
{
    let q = tree_sitter::Query::new(&tree.language(), query).ok()?;
    let names = q.capture_names();
    let capture = |c: &tree_sitter::QueryCapture| Capture {
        name: names[c.index as usize].to_string(),
        kind: c.node.kind().to_string(),
        start_byte: c.node.start_byte(),
        end_byte: c.node.end_byte(),
    };
    let mut cursor = tree_sitter::QueryCursor::new();
    let found = cursor.matches(&q, tree.root_node(), source.as_bytes());
    Some(found.map_deref(|m| QueryHit { captures: m.captures().iter().map(capture).collect() }).collect())
}

/// A parsed source: the nodes of its syntax tree, and what a query finds in it.
pub struct Parsed {
    pub nodes: Vec<SyntaxNode>,
    pub hits: Vec<QueryHit>,
}

/// Why a source could not be parsed.
#[derive(Debug, Clone, Copy, PartialEq, Eq, Structural)]
pub enum ParseFailure {
    NoTree,
    BadQuery,
}

/// Parse a source of a language and search it with a query.
pub fn parse_and_query(language: Language, query: &str, source: &str) -> (r: Result<
    Parsed,
    ParseFailure,
>)
    ensures
        match r {
            Ok(p) => syntax_tree(language_name(language), source@) == Some(views(p.nodes@))
                && query_hits(language_name(language), query@, source@) == Some(views(p.hits@)),
            Err(ParseFailure::NoTree) => syntax_tree(language_name(language), source@) is None,
            Err(ParseFailure::BadQuery) => syntax_tree(language_name(language), source@) is Some
                && query_hits(language_name(language), query@, source@) is None,
        },
{
    let tree = match parse_tree(language, source) {
        Some(t) => t,
        None => {
            return Err(ParseFailure::NoTree);
        },
    };
    let n: usize = node_count(&tree);
    let ghost all = tree_nodes(tree);
    let mut nodes: Vec<SyntaxNode> = Vec::new();
    let mut i: usize = 0;
    while i < n
        invariant
            n == all.len(),
            all == tree_nodes(tree),
            i <= n,
            views(nodes@) =~= all.take(i as int),
        decreases n - i,
    {
        nodes.push(node_at(&tree, i));
        i = i + 1;
    }
    assert(views(nodes@) =~= all);
    match run_query(query, source, &tree) {
        Some(hits) => Ok(Parsed { nodes, hits }),
        None => Err(ParseFailure::BadQuery),
    }
}

// ---------------------------------------------------------------------------
// Walking a tree
// ---------------------------------------------------------------------------

/// The last node before `i` that stands higher than the node at `of`.
pub open spec fn parent_before(nodes: Seq<SyntaxNodeView>, of: int, i: int) -> Option<int>
    decreases i,
{
    if i <= 0 {
        None
    } else if nodes[i - 1].depth < nodes[of].depth {
        Some(i - 1)
    } else {
        parent_before(nodes, of, i - 1)
    }
}

/// The parent of a node.
pub open spec fn parent_of(nodes: Seq<SyntaxNodeView>, i: int) -> Option<int> {
    parent_before(nodes, i, i)
}

/// The parent of a node.
pub fn parent_index(nodes: &Vec<SyntaxNode>, of: usize) -> (r: Option<usize>)
    requires
        of < nodes@.len(),
    ensures
        match r {
            Some(p) => p < of && parent_of(views(nodes@), of as int) == Some(p as int),
            None => parent_of(views(nodes@), of as int) is None,
        },
{
    let mut i: usize = of;
    while i > 0
        invariant
            i <= of < nodes@.len(),
            parent_of(views(nodes@), of as int) == parent_before(
                views(nodes@),
                of as int,
                i as int,
            ),
        decreases i,
    {
        assert(views(nodes@)[i - 1] == nodes@[i - 1]@);
        assert(views(nodes@)[of as int] == nodes@[of as int]@);
        if nodes[i - 1].depth < nodes[of].depth {
            return Some(i - 1);
        }
        i = i - 1;
    }
    None
}

/// The positions, from `i` on, of the children of the node at `of`.
pub open spec fn children_from(nodes: Seq<SyntaxNodeView>, of: int, i: int) -> Seq<int>
    decreases nodes.len() - i,
{
    if i < 0 || i >= nodes.len() || nodes[i].depth <= nodes[of].depth {
        Seq::empty()
    } else if nodes[i].depth == nodes[of].depth + 1 {
        seq![i] + children_from(nodes, of, i + 1)
    } else {
        children_from(nodes, of, i + 1)
    }
}

/// The positions of the children of a node, in order.
pub open spec fn children_of(nodes: Seq<SyntaxNodeView>, of: int) -> Seq<int> {
    children_from(nodes, of, of + 1)
}

/// The positions as numbers.
pub open spec fn as_ints(v: Seq<usize>) -> Seq<int> {
    Seq::new(v.len(), |i: int| v[i] as int)
}

/// The positions of the children of a node, in order.
pub fn child_indices(nodes: &Vec<SyntaxNode>, of: usize) -> (r: Vec<usize>)
    requires
        of < nodes@.len(),
    ensures
        as_ints(r@) == children_of(views(nodes@), of as int),
        forall|k: int| 0 <= k < r@.len() ==> of < (#[trigger] r@[k]) < nodes@.len(),
{
    let ghost nv = views(nodes@);
    let mut out: Vec<usize> = Vec::new();
    let n: usize = nodes.len();
    let mut i: usize = of + 1;
    let mut done = false;
    assert(as_ints(out@) + children_from(nv, of as int, of + 1) =~= children_of(nv, of as int));
    while i < n && !done
        invariant
            nv == views(nodes@),
            n == nodes@.len(),
            of < i <= n,
            done ==> as_ints(out@) == children_of(nv, of as int),
            !done ==> as_ints(out@) + children_from(nv, of as int, i as int) == children_of(
                nv,
                of as int,
            ),
            forall|k: int| 0 <= k < out@.len() ==> of < (#[trigger] out@[k]) < nodes@.len(),
        decreases n - i + if done { 0int } else { 1int },
    {
        assert(nv[i as int] == nodes@[i as int]@);
        assert(nv[of as int] == nodes@[of as int]@);
        if nodes[i].depth <= nodes[of].depth {
            done = true;
            assert(as_ints(out@) + Seq::<int>::empty() =~= as_ints(out@));
        } else {
            if nodes[i].depth - 1 == nodes[of].depth {
                let ghost before = as_ints(out@);
                let ghost rest = children_from(nv, of as int, i + 1);
                out.push(i);
                assert(as_ints(out@) =~= before.push(i as int));
                assert(before.push(i as int) + rest =~= before + (seq![i as int] + rest));
            }
            i = i + 1;
        }
    }
    if !done {
        assert(as_ints(out@) + Seq::<int>::empty() =~= as_ints(out@));
    }
    out
}

/// The first node from `i` on that a capture is of.
pub open spec fn captured_node(nodes: Seq<SyntaxNodeView>, c: CaptureView, i: int) -> Option<int>
    decreases nodes.len() - i,
{
    if i < 0 || i >= nodes.len() {
        None
    } else if nodes[i].start_byte == c.start_byte && nodes[i].end_byte == c.end_byte
        && nodes[i].kind == c.kind {
        Some(i)
    } else {
        captured_node(nodes, c, i + 1)
    }
}

/// The node that a capture is of.
pub fn find_captured(nodes: &Vec<SyntaxNode>, c: &Capture) -> (r: Option<usize>)
    ensures
        match r {
            Some(i) => i < nodes@.len() && captured_node(views(nodes@), c@, 0) == Some(i as int),
            None => captured_node(views(nodes@), c@, 0) is None,
        },
{
    let mut i: usize = 0;
    while i < nodes.len()
        invariant
            i <= nodes@.len(),
            captured_node(views(nodes@), c@, 0) == captured_node(views(nodes@), c@, i as int),
        decreases nodes@.len() - i,
    {
        assert(views(nodes@)[i as int] == nodes@[i as int]@);
        if nodes[i].start_byte == c.start_byte && nodes[i].end_byte == c.end_byte
            && crate::text::str_eq(&nodes[i].kind, &c.kind) {
            return Some(i);
        }
        i = i + 1;
    }
    None
}

proof fn children_stand_below(nodes: Seq<SyntaxNodeView>, of: int, i: int, k: int)
    requires
        0 <= of < i <= nodes.len(),
        i <= k,
    ensures
        children_from(nodes, of, i).contains(k) <==> k < nodes.len() && nodes[k].depth
            == nodes[of].depth + 1 && forall|j: int|
            i <= j <= k ==> (#[trigger] nodes[j]).depth > nodes[of].depth,
        forall|m: int|
            0 <= m < children_from(nodes, of, i).len() ==> #[trigger] children_from(
                nodes,
                of,
                i,
            )[m] >= i,
    decreases nodes.len() - i,
{
    let all = children_from(nodes, of, i);
    if i < nodes.len() && nodes[i].depth > nodes[of].depth {
        let rest = children_from(nodes, of, i + 1);
        if k > i {
            children_stand_below(nodes, of, i + 1, k);
        } else {
            children_stand_below(nodes, of, i + 1, i + 1);
        }
        if nodes[i].depth == nodes[of].depth + 1 {
            assert(all == seq![i] + rest);
            assert(all[0] == i);
            assert forall|m: int| 0 <= m < all.len() implies #[trigger] all[m] >= i by {
                if m > 0 {
                    assert(all[m] == rest[m - 1]);
                }
            }
            if rest.contains(k) {
                let m = choose|m: int| 0 <= m < rest.len() && rest[m] == k;
                assert(all[m + 1] == k);
            }
            if all.contains(k) {
                let m = choose|m: int| 0 <= m < all.len() && all[m] == k;
                assert(m > 0 ==> rest[m - 1] == k);
            }
        } else {
            assert forall|m: int| 0 <= m < all.len() implies #[trigger] all[m] >= i by {
                assert(all[m] == rest[m]);
            }
            if k == i && all.contains(k) {
                let m = choose|m: int| 0 <= m < all.len() && all[m] == k;
                assert(rest[m] >= i + 1);
            }
        }
    } else if i < nodes.len() {
        assert(nodes[i].depth <= nodes[of].depth);
    }
}

/// The children of a node are the nodes one deeper that come behind it with nothing as high as
/// it in between.
pub proof fn children_are_one_deeper(nodes: Seq<SyntaxNodeView>, of: int, k: int)
    requires
        0 <= of < nodes.len(),
        of < k,
    ensures
        children_of(nodes, of).contains(k) <==> k < nodes.len() && nodes[k].depth
            == nodes[of].depth + 1 && forall|j: int|
            of < j <= k ==> (#[trigger] nodes[j]).depth > nodes[of].depth,
{
    children_stand_below(nodes, of, of + 1, k);
}

/// The captured node is the first with the capture's place and kind.
pub proof fn first_fitting_node_is_captured(nodes: Seq<SyntaxNodeView>, c: CaptureView, i: int)
    requires
        0 <= i <= nodes.len(),
    ensures
        captured_node(nodes, c, i) is None <==> forall|j: int|
            i <= j < nodes.len() ==> !((#[trigger] nodes[j]).start_byte == c.start_byte
                && nodes[j].end_byte == c.end_byte && nodes[j].kind == c.kind),
        captured_node(nodes, c, i) matches Some(k) ==> i <= k < nodes.len() && nodes[k].start_byte
            == c.start_byte && nodes[k].end_byte == c.end_byte && nodes[k].kind == c.kind && forall|
            j: int,
        |
            i <= j < k ==> !((#[trigger] nodes[j]).start_byte == c.start_byte && nodes[j].end_byte
                == c.end_byte && nodes[j].kind == c.kind),
    decreases nodes.len() - i,
{
    if i < nodes.len() {
        first_fitting_node_is_captured(nodes, c, i + 1);
    }
}

} // verus!
