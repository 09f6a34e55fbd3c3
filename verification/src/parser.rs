//! The symbols of a source file and the calls between them, from its syntax tree.

use vstd::prelude::*;
use vstd::utf8::encode_utf8;

use crate::arch::{plain_path, strip_dot};
use crate::language::{detect_language, language_name, language_of_file, query_of, Language};
use crate::model::{or_text, text_or, views, Dup};
use crate::syntax::{
    as_ints, captured_node, child_indices, children_of, find_captured, parent_index, parent_of,
    parse_and_query, query_hits, syntax_tree, Capture, CaptureView, ParseFailure, QueryHit,
    QueryHitView, SyntaxNode, SyntaxNodeView,
};
use crate::text::{
    begins_with, byte_len, byte_size, concat3, find, find_from, find_from_is_least, fnv1a,
    fnv1a_range, has_str, hex, hex_text, join, joined, line_seq, lines, occurs_at, slice_text,
    starts_with, str_eq, suffix_from, text_at, trim, trim_start, trim_start_matches, trimmed,
    trimmed_of, trimmed_start,
};

verus! {

broadcast use crate::model::group_views;

/// A symbol that a source defines. `range_start` and `range_end` are its first and last
/// line, counted from 1.
#[derive(Debug)]
pub struct Symbol {
    pub name: String,
    pub file: String,
    pub language: String,
    pub kind: String,
    pub range_start: u32,
    pub range_end: u32,
    pub signature: Option<String>,
    pub content_hash: String,
    pub visibility: String,
    pub doc: Option<String>,
    pub stable_id: String,
}

/// What a [`Symbol`] holds.
#[verifier::ext_equal]
pub struct SymbolView {
    pub name: Seq<char>,
    pub file: Seq<char>,
    pub language: Seq<char>,
    pub kind: Seq<char>,
    pub range_start: u32,
    pub range_end: u32,
    pub signature: Option<Seq<char>>,
    pub content_hash: Seq<char>,
    pub visibility: Seq<char>,
    pub doc: Option<Seq<char>>,
    pub stable_id: Seq<char>,
}

impl DeepView for Symbol {
    type V = SymbolView;

    open spec fn deep_view(&self) -> SymbolView {
        SymbolView {
            name: self.name.deep_view(),
            file: self.file.deep_view(),
            language: self.language.deep_view(),
            kind: self.kind.deep_view(),
            range_start: self.range_start.deep_view(),
            range_end: self.range_end.deep_view(),
            signature: self.signature.deep_view(),
            content_hash: self.content_hash.deep_view(),
            visibility: self.visibility.deep_view(),
            doc: self.doc.deep_view(),
            stable_id: self.stable_id.deep_view(),
        }
    }
}

impl View for Symbol {
    type V = SymbolView;

    open spec fn view(&self) -> SymbolView {
        self.deep_view()
    }
}

impl Dup for Symbol {
    fn dup(&self) -> (r: Symbol) {
        Symbol {
            name: self.name.dup(),
            file: self.file.dup(),
            language: self.language.dup(),
            kind: self.kind.dup(),
            range_start: self.range_start.dup(),
            range_end: self.range_end.dup(),
            signature: self.signature.dup(),
            content_hash: self.content_hash.dup(),
            visibility: self.visibility.dup(),
            doc: self.doc.dup(),
            stable_id: self.stable_id.dup(),
        }
    }
}

/// A call by name, from the function that it stands in.
#[derive(Debug)]
pub struct RawEdge {
    pub from_name: String,
    pub to_name: String,
    pub edge_type: String,
    pub file: String,
}

/// What a [`RawEdge`] holds.
#[verifier::ext_equal]
pub struct RawEdgeView {
    pub from_name: Seq<char>,
    pub to_name: Seq<char>,
    pub edge_type: Seq<char>,
    pub file: Seq<char>,
}

impl DeepView for RawEdge {
    type V = RawEdgeView;

    open spec fn deep_view(&self) -> RawEdgeView {
        RawEdgeView {
            from_name: self.from_name.deep_view(),
            to_name: self.to_name.deep_view(),
            edge_type: self.edge_type.deep_view(),
            file: self.file.deep_view(),
        }
    }
}

impl View for RawEdge {
    type V = RawEdgeView;

    open spec fn view(&self) -> RawEdgeView {
        self.deep_view()
    }
}

impl Dup for RawEdge {
    fn dup(&self) -> (r: RawEdge) {
        RawEdge {
            from_name: self.from_name.dup(),
            to_name: self.to_name.dup(),
            edge_type: self.edge_type.dup(),
            file: self.file.dup(),
        }
    }
}

/// What a source file holds.
#[derive(Debug)]
pub struct ParseResult {
    pub symbols: Vec<Symbol>,
    pub edges: Vec<RawEdge>,
    pub file_doc: Option<String>,
}

/// What a [`ParseResult`] holds.
#[verifier::ext_equal]
pub struct ParseResultView {
    pub symbols: Seq<SymbolView>,
    pub edges: Seq<RawEdgeView>,
    pub file_doc: Option<Seq<char>>,
}

impl DeepView for ParseResult {
    type V = ParseResultView;

    open spec fn deep_view(&self) -> ParseResultView {
        ParseResultView {
            symbols: views(self.symbols@),
            edges: views(self.edges@),
            file_doc: self.file_doc.deep_view(),
        }
    }
}

impl View for ParseResult {
    type V = ParseResultView;

    open spec fn view(&self) -> ParseResultView {
        self.deep_view()
    }
}

// ---------------------------------------------------------------------------
// Single nodes
// ---------------------------------------------------------------------------

/// The kind of symbol that a kind of node defines.
pub open spec fn symbol_kind(kind: Seq<char>) -> Seq<char> {
    if kind == "struct_item"@ {
        "struct"@
    } else if kind == "enum_item"@ {
        "enum"@
    } else if kind == "union_item"@ {
        "union"@
    } else if kind == "trait_item"@ {
        "trait"@
    } else if kind == "type_item"@ || kind == "type_alias_declaration"@ {
        "type"@
    } else if kind == "impl_item"@ {
        "impl"@
    } else if kind == "mod_item"@ {
        "mod"@
    } else if kind == "macro_definition"@ {
        "macro"@
    } else if kind == "class_declaration"@ || kind == "class"@ || kind
        == "abstract_class_declaration"@ {
        "class"@
    } else if kind == "interface_declaration"@ {
        "interface"@
    } else if kind == "module"@ {
        "module"@
    } else if kind == "lexical_declaration"@ || kind == "variable_declaration"@ {
        "const"@
    } else if defines_function(kind) {
        "fn"@
    } else {
        "unknown"@
    }
}

/// The kinds of nodes that define functions.
pub open spec fn defines_function(kind: Seq<char>) -> bool {
    kind == "function_item"@ || kind == "function_declaration"@ || kind == "function_expression"@
        || kind == "function_signature"@ || kind == "generator_function"@ || kind
        == "generator_function_declaration"@ || kind == "arrow_function"@ || kind
        == "method_definition"@ || kind == "method_signature"@ || kind
        == "abstract_method_signature"@ || kind == "assignment_expression"@ || kind == "pair"@
        || kind == "variable_declarator"@ || kind == "export_statement"@
}

fn is_function_kind(kind: &str) -> (r: bool)
    ensures
        r == defines_function(kind@),
{
    str_eq(kind, "function_item") || str_eq(kind, "function_declaration") || str_eq(
        kind,
        "function_expression",
    ) || str_eq(kind, "function_signature") || str_eq(kind, "generator_function") || str_eq(
        kind,
        "generator_function_declaration",
    ) || str_eq(kind, "arrow_function") || str_eq(kind, "method_definition") || str_eq(
        kind,
        "method_signature",
    ) || str_eq(kind, "abstract_method_signature") || str_eq(kind, "assignment_expression")
        || str_eq(kind, "pair") || str_eq(kind, "variable_declarator") || str_eq(
        kind,
        "export_statement",
    )
}

/// The kind of symbol that a node of a kind defines.
pub fn kind_from_node(kind: &str) -> (r: &'static str)
    ensures
        r@ == symbol_kind(kind@),
{
    if str_eq(kind, "struct_item") {
        "struct"
    } else if str_eq(kind, "enum_item") {
        "enum"
    } else if str_eq(kind, "union_item") {
        "union"
    } else if str_eq(kind, "trait_item") {
        "trait"
    } else if str_eq(kind, "type_item") || str_eq(kind, "type_alias_declaration") {
        "type"
    } else if str_eq(kind, "impl_item") {
        "impl"
    } else if str_eq(kind, "mod_item") {
        "mod"
    } else if str_eq(kind, "macro_definition") {
        "macro"
    } else if str_eq(kind, "class_declaration") || str_eq(kind, "class") || str_eq(
        kind,
        "abstract_class_declaration",
    ) {
        "class"
    } else if str_eq(kind, "interface_declaration") {
        "interface"
    } else if str_eq(kind, "module") {
        "module"
    } else if str_eq(kind, "lexical_declaration") || str_eq(kind, "variable_declaration") {
        "const"
    } else if is_function_kind(kind) {
        "fn"
    } else {
        "unknown"
    }
}

/// The kinds of nodes that hold a body.
pub open spec fn body_kind(kind: Seq<char>) -> bool {
    kind == "block"@ || kind == "statement_block"@ || kind == "declaration_block"@ || kind
        == "class_body"@
}

fn is_body_kind(kind: &str) -> (r: bool)
    ensures
        r == body_kind(kind@),
{
    str_eq(kind, "block") || str_eq(kind, "statement_block") || str_eq(kind, "declaration_block")
        || str_eq(kind, "class_body")
}

/// The kinds of nodes that hold a function as a value.
pub open spec fn function_value_kind(kind: Seq<char>) -> bool {
    kind == "arrow_function"@ || kind == "function_expression"@ || kind == "generator_function"@
}

fn is_function_value_kind(kind: &str) -> (r: bool)
    ensures
        r == function_value_kind(kind@),
{
    str_eq(kind, "arrow_function") || str_eq(kind, "function_expression") || str_eq(
        kind,
        "generator_function",
    )
}

/// The start of the first body among the nodes at the positions, from `k` on.
pub open spec fn body_among(nodes: Seq<SyntaxNodeView>, at: Seq<int>, k: int) -> Option<int>
    decreases at.len() - k,
{
    if k < 0 || k >= at.len() {
        None
    } else if body_kind(nodes[at[k]].kind) {
        Some(nodes[at[k]].start_byte as int)
    } else {
        body_among(nodes, at, k + 1)
    }
}

/// The start of the first body within a function value among the nodes at the positions,
/// from `k` on.
pub open spec fn body_within(nodes: Seq<SyntaxNodeView>, at: Seq<int>, k: int) -> Option<int>
    decreases at.len() - k,
{
    if k < 0 || k >= at.len() {
        None
    } else if function_value_kind(nodes[at[k]].kind) && body_among(
        nodes,
        children_of(nodes, at[k]),
        0,
    ) is Some {
        body_among(nodes, children_of(nodes, at[k]), 0)
    } else {
        body_within(nodes, at, k + 1)
    }
}

/// Where the signature of a symbol ends: before its body, which is a child of its node or a
/// child of a function value among them, or at the end of the node.
pub open spec fn signature_end(nodes: Seq<SyntaxNodeView>, i: int) -> int {
    let at = children_of(nodes, i);
    match body_among(nodes, at, 0) {
        Some(b) => b,
        None => match body_within(nodes, at, 0) {
            Some(b) => b,
            None => nodes[i].end_byte as int,
        },
    }
}

/// The text, unless it is empty.
pub open spec fn non_empty(t: Seq<char>) -> Option<Seq<char>> {
    if t.len() == 0 {
        None
    } else {
        Some(t)
    }
}

fn if_any(t: String) -> (r: Option<String>)
    ensures
        r.deep_view() == non_empty(t@),
{
    if t.as_str().is_empty() {
        None
    } else {
        Some(t)
    }
}

/// The signature of a symbol.
pub open spec fn signature_of(nodes: Seq<SyntaxNodeView>, i: int, source: Seq<char>) -> Option<
    Seq<char>,
> {
    match text_at(source, nodes[i].start_byte as int, signature_end(nodes, i)) {
        Some(t) => non_empty(trimmed(t)),
        None => None,
    }
}

fn find_body(nodes: &Vec<SyntaxNode>, at: &Vec<usize>) -> (r: Option<usize>)
    requires
        forall|k: int| 0 <= k < at@.len() ==> (#[trigger] at@[k]) < nodes@.len(),
    ensures
        match r {
            Some(b) => body_among(views(nodes@), as_ints(at@), 0) == Some(b as int),
            None => body_among(views(nodes@), as_ints(at@), 0) is None,
        },
{
    let mut k: usize = 0;
    while k < at.len()
        invariant
            forall|k: int| 0 <= k < at@.len() ==> (#[trigger] at@[k]) < nodes@.len(),
            k <= at@.len(),
            body_among(views(nodes@), as_ints(at@), 0) == body_among(
                views(nodes@),
                as_ints(at@),
                k as int,
            ),
        decreases at@.len() - k,
    {
        let i = at[k];
        assert(as_ints(at@)[k as int] == i);
        assert(views(nodes@)[i as int] == nodes@[i as int]@);
        if is_body_kind(&nodes[i].kind) {
            return Some(nodes[i].start_byte);
        }
        k = k + 1;
    }
    None
}

/// The signature of a symbol.
pub fn extract_signature(nodes: &Vec<SyntaxNode>, i: usize, source: &str) -> (r: Option<String>)
    requires
        i < nodes@.len(),
    ensures
        r.deep_view() == signature_of(views(nodes@), i as int, source@),
{
    let at = child_indices(nodes, i);
    let mut body = find_body(nodes, &at);
    if body.is_none() {
        let mut k: usize = 0;
        while k < at.len() && body.is_none()
            invariant
                forall|k: int| 0 <= k < at@.len() ==> (#[trigger] at@[k]) < nodes@.len(),
                k <= at@.len(),
                match body {
                    Some(b) => body_within(views(nodes@), as_ints(at@), 0) == Some(b as int),
                    None => body_within(views(nodes@), as_ints(at@), 0) == body_within(
                        views(nodes@),
                        as_ints(at@),
                        k as int,
                    ),
                },
            decreases at@.len() - k + if body is None { 1int } else { 0int },
        {
            let c = at[k];
            assert(as_ints(at@)[k as int] == c);
            assert(views(nodes@)[c as int] == nodes@[c as int]@);
            if is_function_value_kind(&nodes[c].kind) {
                let inner = child_indices(nodes, c);
                body = find_body(nodes, &inner);
            }
            if body.is_none() {
                k = k + 1;
            }
        }
    }
    assert(views(nodes@)[i as int] == nodes@[i as int]@);
    let end: usize = match body {
        Some(b) => b,
        None => nodes[i].end_byte,
    };
    match slice_text(source, nodes[i].start_byte, end) {
        Some(t) => if_any(trim(&t)),
        None => None,
    }
}

/// The visibility that the nodes at the positions, from `k` on, give: a modifier's text, or
/// `pub` for `export`; `private` where there is neither.
pub open spec fn visibility_among(
    nodes: Seq<SyntaxNodeView>,
    at: Seq<int>,
    source: Seq<char>,
    k: int,
) -> Seq<char>
    decreases at.len() - k,
{
    if k < 0 || k >= at.len() {
        "private"@
    } else {
        let n = nodes[at[k]];
        if n.kind == "visibility_modifier"@ {
            or_text(text_at(source, n.start_byte as int, n.end_byte as int), "pub"@)
        } else if n.kind == "export"@ {
            "pub"@
        } else {
            visibility_among(nodes, at, source, k + 1)
        }
    }
}

/// The visibility of a symbol.
pub fn extract_visibility(nodes: &Vec<SyntaxNode>, i: usize, source: &str) -> (r: String)
    requires
        i < nodes@.len(),
    ensures
        r@ == visibility_among(
            views(nodes@),
            children_of(views(nodes@), i as int),
            source@,
            0,
        ),
{
    let at = child_indices(nodes, i);
    let mut k: usize = 0;
    while k < at.len()
        invariant
            as_ints(at@) == children_of(views(nodes@), i as int),
            forall|k: int| 0 <= k < at@.len() ==> (#[trigger] at@[k]) < nodes@.len(),
            k <= at@.len(),
            visibility_among(views(nodes@), as_ints(at@), source@, 0) == visibility_among(
                views(nodes@),
                as_ints(at@),
                source@,
                k as int,
            ),
        decreases at@.len() - k,
    {
        let c = at[k];
        assert(as_ints(at@)[k as int] == c);
        assert(views(nodes@)[c as int] == nodes@[c as int]@);
        let n = &nodes[c];
        if str_eq(&n.kind, "visibility_modifier") {
            return text_or(&slice_text(source, n.start_byte, n.end_byte), "pub");
        }
        if str_eq(&n.kind, "export") {
            return "pub".to_owned();
        }
        k = k + 1;
    }
    "private".to_owned()
}

/// A line of a doc comment.
pub open spec fn doc_line(line: Seq<char>) -> bool {
    begins_with(trimmed(line), "///"@)
}

/// A line that may stand between a doc comment and what it is on: an attribute, or blank.
pub open spec fn between_line(line: Seq<char>) -> bool {
    begins_with(trimmed(line), "#["@) || begins_with(trimmed(line), "#!["@) || trimmed(line).len()
        == 0
}

/// The lines of the doc comment above line `i`, counted from 0.
pub open spec fn docs_above(all: Seq<Seq<char>>, i: int) -> Seq<Seq<char>>
    decreases i,
{
    if i <= 0 || i > all.len() {
        Seq::empty()
    } else if doc_line(all[i - 1]) {
        docs_above(all, i - 1).push(trimmed(trimmed_of(trimmed(all[i - 1]), "///"@)))
    } else if between_line(all[i - 1]) {
        docs_above(all, i - 1)
    } else {
        Seq::empty()
    }
}

/// The doc of what starts at the row.
pub open spec fn doc_at(source: Seq<char>, row: int) -> Option<Seq<char>> {
    let docs = docs_above(line_seq(source), row);
    if docs.len() == 0 {
        None
    } else {
        Some(joined(docs, "\n"@))
    }
}

fn is_doc_line(line: &str) -> (r: bool)
    ensures
        r == doc_line(line@),
{
    starts_with(&trim(line), "///")
}

fn is_between_line(line: &str) -> (r: bool)
    ensures
        r == between_line(line@),
{
    let t = trim(line);
    starts_with(&t, "#[") || starts_with(&t, "#![") || t.as_str().is_empty()
}

/// The doc of what starts at the row.
pub fn extract_doc(source: &str, row: usize) -> (r: Option<String>)
    ensures
        r.deep_view() == doc_at(source@, row as int),
{
    let all = lines(source);
    let ghost av = views(all@);
    assert(av.len() == all@.len());
    if row > all.len() {
        return None;
    }
    let mut top: usize = row;
    while top > 0 && (is_doc_line(&all[top - 1]) || is_between_line(&all[top - 1]))
        invariant
            av == views(all@),
            top <= row <= all@.len(),
            forall|k: int|
                top <= k < row ==> doc_line(#[trigger] av[k]) || between_line(av[k]),
        decreases top,
    {
        assert(av[top - 1] == all@[top - 1]@);
        top = top - 1;
    }
    if top > 0 {
        assert(av[top - 1] == all@[top - 1]@);
    }
    let mut docs: Vec<String> = Vec::new();
    let mut k: usize = top;
    while k < row
        invariant
            av == views(all@),
            top <= k <= row <= all@.len(),
            forall|k: int|
                top <= k < row ==> doc_line(#[trigger] av[k]) || between_line(av[k]),
            views(docs@) == docs_above(av, k as int),
        decreases row - k,
    {
        assert(av[k as int] == all@[k as int]@);
        if is_doc_line(&all[k]) {
            proof {
                reveal_strlit("///");
            }
            let t = trim(&all[k]);
            let bare = trim_start_matches(&t, "///");
            docs.push(trim(&bare));
        }
        k = k + 1;
    }
    assert(views(docs@).len() == docs@.len());
    if docs.len() == 0 {
        None
    } else {
        Some(join(&docs, "\n"))
    }
}

/// The first of the nodes at the positions, from `k` on, that is the field.
pub open spec fn field_among(
    nodes: Seq<SyntaxNodeView>,
    at: Seq<int>,
    field: Seq<char>,
    k: int,
) -> Option<int>
    decreases at.len() - k,
{
    if k < 0 || k >= at.len() {
        None
    } else if nodes[at[k]].field == Some(field) {
        Some(at[k])
    } else {
        field_among(nodes, at, field, k + 1)
    }
}

fn find_field(nodes: &Vec<SyntaxNode>, at: &Vec<usize>, field: &str) -> (r: Option<usize>)
    requires
        forall|k: int| 0 <= k < at@.len() ==> (#[trigger] at@[k]) < nodes@.len(),
    ensures
        match r {
            Some(i) => i < nodes@.len() && field_among(views(nodes@), as_ints(at@), field@, 0)
                == Some(i as int),
            None => field_among(views(nodes@), as_ints(at@), field@, 0) is None,
        },
{
    let mut k: usize = 0;
    while k < at.len()
        invariant
            forall|k: int| 0 <= k < at@.len() ==> (#[trigger] at@[k]) < nodes@.len(),
            k <= at@.len(),
            field_among(views(nodes@), as_ints(at@), field@, 0) == field_among(
                views(nodes@),
                as_ints(at@),
                field@,
                k as int,
            ),
        decreases at@.len() - k,
    {
        let i = at[k];
        assert(as_ints(at@)[k as int] == i);
        assert(views(nodes@)[i as int] == nodes@[i as int]@);
        if let Some(f) = &nodes[i].field {
            if str_eq(f, field) {
                return Some(i);
            }
        }
        k = k + 1;
    }
    None
}

/// The kinds of nodes that symbols are grouped by.
pub open spec fn container_kind(kind: Seq<char>) -> bool {
    kind == "impl_item"@ || kind == "class_declaration"@ || kind == "class"@
}

/// The text of a node.
pub open spec fn node_text(nodes: Seq<SyntaxNodeView>, i: int, source: Seq<char>) -> Option<
    Seq<char>,
> {
    text_at(source, nodes[i].start_byte as int, nodes[i].end_byte as int)
}

/// The name of a container: the text of its field `type`, or else of its field `name`.
pub open spec fn container_name(nodes: Seq<SyntaxNodeView>, i: int, source: Seq<char>) -> Option<
    Seq<char>,
> {
    let at = children_of(nodes, i);
    match field_among(nodes, at, "type"@, 0) {
        Some(k) => node_text(nodes, k, source),
        None => match field_among(nodes, at, "name"@, 0) {
            Some(k) => node_text(nodes, k, source),
            None => None,
        },
    }
}

/// The name of the closest container above a node.
pub open spec fn container_above(nodes: Seq<SyntaxNodeView>, i: int, source: Seq<char>) -> Option<
    Seq<char>,
>
    decreases i,
{
    match parent_of(nodes, i) {
        Some(p) => if !(0 <= p < i) {
            None
        } else if container_kind(nodes[p].kind) {
            container_name(nodes, p, source)
        } else {
            container_above(nodes, p, source)
        },
        None => None,
    }
}

/// The name of the closest container above a node.
pub fn enclosing_impl_name(nodes: &Vec<SyntaxNode>, i: usize, source: &str) -> (r: Option<String>)
    requires
        i < nodes@.len(),
    ensures
        r.deep_view() == container_above(views(nodes@), i as int, source@),
{
    let mut cur: usize = i;
    loop
        invariant
            cur <= i < nodes@.len(),
            container_above(views(nodes@), i as int, source@) == container_above(
                views(nodes@),
                cur as int,
                source@,
            ),
        decreases cur,
    {
        match parent_index(nodes, cur) {
            Some(p) => {
                assert(views(nodes@)[p as int] == nodes@[p as int]@);
                let n = &nodes[p];
                if str_eq(&n.kind, "impl_item") || str_eq(&n.kind, "class_declaration") || str_eq(
                    &n.kind,
                    "class",
                ) {
                    let at = child_indices(nodes, p);
                    let named = match find_field(nodes, &at, "type") {
                        Some(k) => Some(k),
                        None => find_field(nodes, &at, "name"),
                    };
                    return match named {
                        Some(k) => {
                            assert(views(nodes@)[k as int] == nodes@[k as int]@);
                            slice_text(source, nodes[k].start_byte, nodes[k].end_byte)
                        },
                        None => None,
                    };
                }
                cur = p;
            },
            None => {
                return None;
            },
        }
    }
}

/// The kinds of nodes that calls are made from.
pub open spec fn caller_kind(kind: Seq<char>) -> bool {
    kind == "function_item"@ || kind == "function_declaration"@ || kind == "function_expression"@
        || kind == "arrow_function"@ || kind == "method_definition"@ || kind
        == "generator_function"@ || kind == "generator_function_declaration"@
}

fn is_caller_kind(kind: &str) -> (r: bool)
    ensures
        r == caller_kind(kind@),
{
    str_eq(kind, "function_item") || str_eq(kind, "function_declaration") || str_eq(
        kind,
        "function_expression",
    ) || str_eq(kind, "arrow_function") || str_eq(kind, "method_definition") || str_eq(
        kind,
        "generator_function",
    ) || str_eq(kind, "generator_function_declaration")
}

/// The text of the first name among the nodes at the positions, from `k` on.
pub open spec fn name_among(
    nodes: Seq<SyntaxNodeView>,
    at: Seq<int>,
    source: Seq<char>,
    k: int,
) -> Option<Seq<char>>
    decreases at.len() - k,
{
    if k < 0 || k >= at.len() {
        None
    } else {
        let kind = nodes[at[k]].kind;
        if (kind == "identifier"@ || kind == "property_identifier"@ || kind == "type_identifier"@)
            && node_text(nodes, at[k], source) is Some {
            node_text(nodes, at[k], source)
        } else {
            name_among(nodes, at, source, k + 1)
        }
    }
}

/// The name of the closest function above a node.
pub open spec fn function_above(nodes: Seq<SyntaxNodeView>, i: int, source: Seq<char>) -> Option<
    Seq<char>,
>
    decreases i,
{
    match parent_of(nodes, i) {
        Some(p) => if !(0 <= p < i) {
            None
        } else if caller_kind(nodes[p].kind) {
            name_among(nodes, children_of(nodes, p), source, 0)
        } else {
            function_above(nodes, p, source)
        },
        None => None,
    }
}

fn find_name(nodes: &Vec<SyntaxNode>, at: &Vec<usize>, source: &str) -> (r: Option<String>)
    requires
        forall|k: int| 0 <= k < at@.len() ==> (#[trigger] at@[k]) < nodes@.len(),
    ensures
        r.deep_view() == name_among(views(nodes@), as_ints(at@), source@, 0),
{
    let mut k: usize = 0;
    while k < at.len()
        invariant
            forall|k: int| 0 <= k < at@.len() ==> (#[trigger] at@[k]) < nodes@.len(),
            k <= at@.len(),
            name_among(views(nodes@), as_ints(at@), source@, 0) == name_among(
                views(nodes@),
                as_ints(at@),
                source@,
                k as int,
            ),
        decreases at@.len() - k,
    {
        let i = at[k];
        assert(as_ints(at@)[k as int] == i);
        assert(views(nodes@)[i as int] == nodes@[i as int]@);
        let n = &nodes[i];
        if str_eq(&n.kind, "identifier") || str_eq(&n.kind, "property_identifier") || str_eq(
            &n.kind,
            "type_identifier",
        ) {
            let t = slice_text(source, n.start_byte, n.end_byte);
            if t.is_some() {
                return t;
            }
        }
        k = k + 1;
    }
    None
}

/// The name of the closest function above a node.
pub fn enclosing_function_name(nodes: &Vec<SyntaxNode>, i: usize, source: &str) -> (r: Option<
    String,
>)
    requires
        i < nodes@.len(),
    ensures
        r.deep_view() == function_above(views(nodes@), i as int, source@),
{
    let mut cur: usize = i;
    loop
        invariant
            cur <= i < nodes@.len(),
            function_above(views(nodes@), i as int, source@) == function_above(
                views(nodes@),
                cur as int,
                source@,
            ),
        decreases cur,
    {
        match parent_index(nodes, cur) {
            Some(p) => {
                assert(views(nodes@)[p as int] == nodes@[p as int]@);
                if is_caller_kind(&nodes[p].kind) {
                    let at = child_indices(nodes, p);
                    return find_name(nodes, &at, source);
                }
                cur = p;
            },
            None => {
                return None;
            },
        }
    }
}

// ---------------------------------------------------------------------------
// Symbols and calls
// ---------------------------------------------------------------------------

/// The first capture from `i` on that is a definition.
pub open spec fn definition_in(cs: Seq<CaptureView>, i: int) -> Option<CaptureView>
    decreases cs.len() - i,
{
    if i < 0 || i >= cs.len() {
        None
    } else if begins_with(cs[i].name, "definition."@) {
        Some(cs[i])
    } else {
        definition_in(cs, i + 1)
    }
}

/// The first capture from `i` on with the name.
pub open spec fn capture_in(cs: Seq<CaptureView>, name: Seq<char>, i: int) -> Option<CaptureView>
    decreases cs.len() - i,
{
    if i < 0 || i >= cs.len() {
        None
    } else if cs[i].name == name {
        Some(cs[i])
    } else {
        capture_in(cs, name, i + 1)
    }
}

fn find_definition<'a>(cs: &'a Vec<Capture>) -> (r: Option<&'a Capture>)
    ensures
        r.deep_view() == definition_in(views(cs@), 0),
{
    let mut i: usize = 0;
    while i < cs.len()
        invariant
            i <= cs@.len(),
            definition_in(views(cs@), 0) == definition_in(views(cs@), i as int),
        decreases cs@.len() - i,
    {
        assert(views(cs@)[i as int] == cs@[i as int]@);
        if starts_with(&cs[i].name, "definition.") {
            return Some(&cs[i]);
        }
        i = i + 1;
    }
    None
}

fn find_capture<'a>(cs: &'a Vec<Capture>, name: &str) -> (r: Option<&'a Capture>)
    ensures
        r.deep_view() == capture_in(views(cs@), name@, 0),
{
    let mut i: usize = 0;
    while i < cs.len()
        invariant
            i <= cs@.len(),
            capture_in(views(cs@), name@, 0) == capture_in(views(cs@), name@, i as int),
        decreases cs@.len() - i,
    {
        assert(views(cs@)[i as int] == cs@[i as int]@);
        if str_eq(&cs[i].name, name) {
            return Some(&cs[i]);
        }
        i = i + 1;
    }
    None
}

/// The text of a capture; empty where its bytes are no text.
pub open spec fn capture_text(c: CaptureView, source: Seq<char>) -> Seq<char> {
    or_text(text_at(source, c.start_byte as int, c.end_byte as int), ""@)
}

/// The number of a row as a line, counted from 1.
pub open spec fn line_number(row: int) -> u32 {
    if row + 1 > u32::MAX {
        u32::MAX
    } else {
        (row + 1) as u32
    }
}

/// The number of a row as a line, counted from 1.
pub fn line_of(row: usize) -> (r: u32)
    ensures
        r == line_number(row as int),
{
    if row as u64 >= u32::MAX as u64 {
        u32::MAX
    } else {
        row as u32 + 1
    }
}

/// The id of a symbol that stays the same when its file changes: its file, its kind, the
/// container that it is in, if any, and its name.
pub open spec fn stable_id_of(
    file: Seq<char>,
    kind: Seq<char>,
    container: Option<Seq<char>>,
    name: Seq<char>,
) -> Seq<char> {
    match container {
        Some(c) => plain_path(file) + "::"@ + kind + "::"@ + c + "::"@ + name,
        None => plain_path(file) + "::"@ + kind + "::"@ + name,
    }
}

fn make_stable_id(file: &str, kind: &str, container: &Option<String>, name: &str) -> (r: String)
    ensures
        r@ == stable_id_of(file@, kind@, container.deep_view(), name@),
{
    let plain = strip_dot(file);
    let mut s = concat3(&plain, "::", kind);
    s.append("::");
    if let Some(c) = container {
        s.append(c);
        s.append("::");
    }
    s.append(name);
    s
}

/// The hash of the bytes of a source, as 16 hexadecimal digits.
pub open spec fn content_hash_of(source: Seq<char>, a: int, b: int) -> Seq<char> {
    hex(fnv1a(encode_utf8(source).subrange(a, b)) as nat, 16)
}

/// The hash of bytes of a text, as 16 hexadecimal digits.
pub fn fnv1a_hash(source: &str, a: usize, b: usize) -> (r: String)
    requires
        a <= b <= byte_size(source@),
    ensures
        r@ == content_hash_of(source@, a as int, b as int),
{
    hex_text(fnv1a_range(source, a, b), 16)
}

/// The symbol whose node stands at `i`.
pub open spec fn symbol_at(
    nodes: Seq<SyntaxNodeView>,
    i: int,
    name: Seq<char>,
    source: Seq<char>,
    file: Seq<char>,
    language: Seq<char>,
) -> SymbolView {
    let n = nodes[i];
    let kind = symbol_kind(n.kind);
    SymbolView {
        name,
        file,
        language,
        kind,
        range_start: line_number(n.start_row as int),
        range_end: line_number(n.end_row as int),
        signature: signature_of(nodes, i, source),
        content_hash: content_hash_of(source, n.start_byte as int, n.end_byte as int),
        visibility: visibility_among(nodes, children_of(nodes, i), source, 0),
        doc: doc_at(source, n.start_row as int),
        stable_id: stable_id_of(file, kind, container_above(nodes, i, source), name),
    }
}

/// The symbol that a match of the query defines, if it does: it captures a definition that
/// is a node within the source, and a name that is not empty.
pub open spec fn symbol_in(
    nodes: Seq<SyntaxNodeView>,
    hit: QueryHitView,
    source: Seq<char>,
    file: Seq<char>,
    language: Seq<char>,
) -> Option<SymbolView> {
    match (definition_in(hit.captures, 0), capture_in(hit.captures, "name"@, 0)) {
        (Some(def), Some(named)) => match captured_node(nodes, def, 0) {
            Some(i) => {
                let name = capture_text(named, source);
                if name.len() == 0 || !(nodes[i].start_byte <= nodes[i].end_byte <= byte_size(
                    source,
                )) {
                    None
                } else {
                    Some(symbol_at(nodes, i, name, source, file, language))
                }
            },
            None => None,
        },
        _ => None,
    }
}

/// A symbol of the same file starts on the same line.
pub open spec fn starts_taken(symbols: Seq<SymbolView>, s: SymbolView) -> bool {
    exists|i: int|
        0 <= i < symbols.len() && (#[trigger] symbols[i]).file == s.file && symbols[i].range_start
            == s.range_start
}

/// The symbols with one more, unless one starts on its line.
pub open spec fn with_symbol(symbols: Seq<SymbolView>, s: SymbolView) -> Seq<SymbolView> {
    if starts_taken(symbols, s) {
        symbols
    } else {
        symbols.push(s)
    }
}

/// The symbols that the first `n` matches define, one for each line that they start on.
pub open spec fn symbols_in(
    nodes: Seq<SyntaxNodeView>,
    hits: Seq<QueryHitView>,
    source: Seq<char>,
    file: Seq<char>,
    language: Seq<char>,
    n: int,
) -> Seq<SymbolView>
    decreases n,
{
    if n <= 0 {
        Seq::empty()
    } else {
        let rest = symbols_in(nodes, hits, source, file, language, n - 1);
        match symbol_in(nodes, hits[n - 1], source, file, language) {
            Some(s) => with_symbol(rest, s),
            None => rest,
        }
    }
}

/// No two of the symbols start on the same line of the same file.
pub open spec fn starts_differ(symbols: Seq<SymbolView>) -> bool {
    forall|i: int, j: int|
        0 <= i < j < symbols.len() ==> !((#[trigger] symbols[i]).file == (
        #[trigger] symbols[j]).file && symbols[i].range_start == symbols[j].range_start)
}

/// No two symbols of a source start on the same line.
pub proof fn symbols_start_apart(
    nodes: Seq<SyntaxNodeView>,
    hits: Seq<QueryHitView>,
    source: Seq<char>,
    file: Seq<char>,
    language: Seq<char>,
    n: int,
)
    requires
        0 <= n <= hits.len(),
    ensures
        starts_differ(symbols_in(nodes, hits, source, file, language, n)),
    decreases n,
{
    if n > 0 {
        symbols_start_apart(nodes, hits, source, file, language, n - 1);
    }
}

fn has_start(symbols: &Vec<Symbol>, s: &Symbol) -> (r: bool)
    ensures
        r == starts_taken(views(symbols@), s@),
{
    let mut i: usize = 0;
    while i < symbols.len()
        invariant
            i <= symbols@.len(),
            forall|k: int|
                0 <= k < i ==> !((#[trigger] views(symbols@)[k]).file == s@.file && views(
                    symbols@,
                )[k].range_start == s@.range_start),
        decreases symbols@.len() - i,
    {
        assert(views(symbols@)[i as int] == symbols@[i as int]@);
        if str_eq(&symbols[i].file, &s.file) && symbols[i].range_start == s.range_start {
            return true;
        }
        i = i + 1;
    }
    false
}

fn add_symbol(symbols: &mut Vec<Symbol>, s: Symbol)
    ensures
        views(final(symbols)@) == with_symbol(views(old(symbols)@), s@),
{
    if !has_start(symbols, &s) {
        symbols.push(s);
    }
}

fn make_symbol(
    nodes: &Vec<SyntaxNode>,
    hit: &QueryHit,
    source: &str,
    file: &str,
    language: &str,
) -> (r: Option<Symbol>)
    ensures
        r.deep_view() == symbol_in(views(nodes@), hit@, source@, file@, language@),
{
    let def = match find_definition(&hit.captures) {
        Some(c) => c,
        None => {
            return None;
        },
    };
    let named = match find_capture(&hit.captures, "name") {
        Some(c) => c,
        None => {
            return None;
        },
    };
    let i = match find_captured(nodes, def) {
        Some(i) => i,
        None => {
            return None;
        },
    };
    assert(views(nodes@)[i as int] == nodes@[i as int]@);
    let name = text_or(&slice_text(source, named.start_byte, named.end_byte), "");
    let n = &nodes[i];
    if name.as_str().is_empty() || n.start_byte > n.end_byte || n.end_byte > byte_len(source) {
        return None;
    }
    let kind = kind_from_node(&n.kind);
    let container = enclosing_impl_name(nodes, i, source);
    Some(
        Symbol {
            stable_id: make_stable_id(file, kind, &container, &name),
            name,
            file: file.to_owned(),
            language: language.to_owned(),
            kind: kind.to_owned(),
            range_start: line_of(n.start_row),
            range_end: line_of(n.end_row),
            signature: extract_signature(nodes, i, source),
            content_hash: fnv1a_hash(source, n.start_byte, n.end_byte),
            visibility: extract_visibility(nodes, i, source),
            doc: extract_doc(source, n.start_row),
        },
    )
}

/// The symbols that the matches of the query define, one for each line that they start on.
pub fn extract_symbols(
    nodes: &Vec<SyntaxNode>,
    hits: &Vec<QueryHit>,
    source: &str,
    file: &str,
    language: &str,
) -> (r: Vec<Symbol>)
    ensures
        views(r@) == symbols_in(
            views(nodes@),
            views(hits@),
            source@,
            file@,
            language@,
            hits@.len() as int,
        ),
{
    let mut out: Vec<Symbol> = Vec::new();
    let mut n: usize = 0;
    while n < hits.len()
        invariant
            n <= hits@.len(),
            views(out@) == symbols_in(
                views(nodes@),
                views(hits@),
                source@,
                file@,
                language@,
                n as int,
            ),
        decreases hits@.len() - n,
    {
        assert(views(hits@)[n as int] == hits@[n as int]@);
        if let Some(s) = make_symbol(nodes, &hits[n], source, file, language) {
            add_symbol(&mut out, s);
        }
        n = n + 1;
    }
    out
}

/// The call that a match of the query is, if it is one: it captures a call and a name that
/// is not empty. Calls outside functions are made from the module.
pub open spec fn edge_in(
    nodes: Seq<SyntaxNodeView>,
    hit: QueryHitView,
    source: Seq<char>,
    file: Seq<char>,
) -> Option<RawEdgeView> {
    match (capture_in(hit.captures, "reference.call"@, 0), capture_in(hit.captures, "name"@, 0)) {
        (Some(_), Some(named)) => {
            let name = capture_text(named, source);
            let caller = match captured_node(nodes, named, 0) {
                Some(i) => function_above(nodes, i, source),
                None => None,
            };
            if name.len() == 0 {
                None
            } else {
                Some(
                    RawEdgeView {
                        from_name: or_text(caller, "<module>"@),
                        to_name: name,
                        edge_type: "CALLS"@,
                        file,
                    },
                )
            }
        },
        _ => None,
    }
}

/// The calls that the first `n` matches are.
pub open spec fn edges_in(
    nodes: Seq<SyntaxNodeView>,
    hits: Seq<QueryHitView>,
    source: Seq<char>,
    file: Seq<char>,
    n: int,
) -> Seq<RawEdgeView>
    decreases n,
{
    if n <= 0 {
        Seq::empty()
    } else {
        let rest = edges_in(nodes, hits, source, file, n - 1);
        match edge_in(nodes, hits[n - 1], source, file) {
            Some(e) => rest.push(e),
            None => rest,
        }
    }
}

fn make_edge(nodes: &Vec<SyntaxNode>, hit: &QueryHit, source: &str, file: &str) -> (r: Option<
    RawEdge,
>)
    ensures
        r.deep_view() == edge_in(views(nodes@), hit@, source@, file@),
{
    if find_capture(&hit.captures, "reference.call").is_none() {
        return None;
    }
    let named = match find_capture(&hit.captures, "name") {
        Some(c) => c,
        None => {
            return None;
        },
    };
    let name = text_or(&slice_text(source, named.start_byte, named.end_byte), "");
    if name.as_str().is_empty() {
        return None;
    }
    let caller = match find_captured(nodes, named) {
        Some(i) => enclosing_function_name(nodes, i, source),
        None => None,
    };
    Some(
        RawEdge {
            from_name: text_or(&caller, "<module>"),
            to_name: name,
            edge_type: "CALLS".to_owned(),
            file: file.to_owned(),
        },
    )
}

/// The calls that the matches of the query are.
pub fn extract_edges(nodes: &Vec<SyntaxNode>, hits: &Vec<QueryHit>, source: &str, file: &str) -> (r:
    Vec<RawEdge>)
    ensures
        views(r@) == edges_in(
            views(nodes@),
            views(hits@),
            source@,
            file@,
            hits@.len() as int,
        ),
{
    let mut out: Vec<RawEdge> = Vec::new();
    let mut n: usize = 0;
    while n < hits.len()
        invariant
            n <= hits@.len(),
            views(out@) == edges_in(views(nodes@), views(hits@), source@, file@, n as int),
        decreases hits@.len() - n,
    {
        assert(views(hits@)[n as int] == hits@[n as int]@);
        if let Some(e) = make_edge(nodes, &hits[n], source, file) {
            out.push(e);
        }
        n = n + 1;
    }
    out
}

// ---------------------------------------------------------------------------
// Docs of files
// ---------------------------------------------------------------------------

/// The position of the first line from `i` on that is not blank, or the number of lines.
pub open spec fn first_filled(all: Seq<Seq<char>>, i: int) -> int
    decreases all.len() - i,
{
    if i < 0 || i >= all.len() {
        all.len() as int
    } else if trimmed(all[i]).len() > 0 {
        i
    } else {
        first_filled(all, i + 1)
    }
}

/// The texts of the lines from `i` to `n` that are inner doc comments, up to the first that
/// is none.
pub open spec fn inner_docs(all: Seq<Seq<char>>, i: int, n: int) -> Seq<Seq<char>>
    decreases n - i,
{
    if n <= i || n > all.len() {
        Seq::empty()
    } else {
        let before = inner_docs(all, i, n - 1);
        let line = trimmed_start(all[n - 1]);
        if before.len() == n - 1 - i && begins_with(line, "//!"@) {
            before.push(trimmed_of(trimmed_of(line, "//!"@), " "@))
        } else {
            before
        }
    }
}

/// The doc of a Rust file: the inner doc comments at its top.
pub open spec fn rust_file_doc(source: Seq<char>) -> Option<Seq<char>> {
    let all = line_seq(source);
    let docs = inner_docs(all, first_filled(all, 0), all.len() as int);
    if docs.len() == 0 {
        None
    } else {
        Some(joined(docs, "\n"@))
    }
}

fn rust_doc(source: &str) -> (r: Option<String>)
    ensures
        r.deep_view() == rust_file_doc(source@),
{
    let all = lines(source);
    let ghost av = views(all@);
    assert(av.len() == all@.len());
    let mut start: usize = 0;
    while start < all.len() && trim(&all[start]).as_str().is_empty()
        invariant
            av == views(all@),
            av.len() == all@.len(),
            start <= all@.len(),
            first_filled(av, 0) == first_filled(av, start as int),
        decreases all@.len() - start,
    {
        assert(av[start as int] == all@[start as int]@);
        start = start + 1;
    }
    if start < all.len() {
        assert(av[start as int] == all@[start as int]@);
    }
    let mut docs: Vec<String> = Vec::new();
    let mut n: usize = start;
    while n < all.len()
        invariant
            av == views(all@),
            av.len() == all@.len(),
            start <= n <= all@.len(),
            views(docs@) == inner_docs(av, start as int, n as int),
        decreases all@.len() - n,
    {
        assert(av[n as int] == all@[n as int]@);
        assert(views(docs@).len() == docs@.len());
        let line = trim_start(&all[n]);
        if docs.len() == n - start && starts_with(&line, "//!") {
            proof {
                reveal_strlit("//!");
                reveal_strlit(" ");
            }
            let bare = trim_start_matches(&line, "//!");
            docs.push(trim_start_matches(&bare, " "));
        }
        n = n + 1;
    }
    assert(views(docs@).len() == docs@.len());
    if docs.len() == 0 {
        None
    } else {
        Some(join(&docs, "\n"))
    }
}

/// The texts of the first `n` lines of a block comment: without leading stars, and without
/// those that are blank.
pub open spec fn block_lines(all: Seq<Seq<char>>, n: int) -> Seq<Seq<char>>
    decreases n,
{
    if n <= 0 {
        Seq::empty()
    } else {
        let rest = block_lines(all, n - 1);
        let line = trimmed(trimmed_of(trimmed_start(all[n - 1]), "*"@));
        if line.len() == 0 {
            rest
        } else {
            rest.push(line)
        }
    }
}

/// The doc of a TypeScript or JavaScript file: the block comment that it starts with.
pub open spec fn script_file_doc(source: Seq<char>) -> Option<Seq<char>> {
    let t = trimmed_start(source);
    if !begins_with(t, "/**"@) {
        None
    } else {
        match find_from(t, "*/"@, 0) {
            Some(end) => if end < 3 {
                None
            } else {
                let all = line_seq(t.subrange(3, end));
                non_empty(joined(block_lines(all, all.len() as int), "\n"@))
            },
            None => None,
        }
    }
}

fn script_doc(source: &str) -> (r: Option<String>)
    ensures
        r.deep_view() == script_file_doc(source@),
{
    let t = trim_start(source);
    if !starts_with(&t, "/**") {
        return None;
    }
    let end: usize = match find(&t, "*/") {
        Some(e) => e,
        None => {
            return None;
        },
    };
    if end < 3 {
        return None;
    }
    let v = crate::text::chars_of(&t);
    let inner = crate::text::string_of(&v, 3, end);
    let all = lines(&inner);
    let ghost av = views(all@);
    assert(av.len() == all@.len());
    let mut docs: Vec<String> = Vec::new();
    let mut n: usize = 0;
    while n < all.len()
        invariant
            av == views(all@),
            n <= all@.len(),
            views(docs@) == block_lines(av, n as int),
        decreases all@.len() - n,
    {
        assert(av[n as int] == all@[n as int]@);
        proof {
            reveal_strlit("*");
        }
        let bare = trim_start_matches(&trim_start(&all[n]), "*");
        let line = trim(&bare);
        if !line.as_str().is_empty() {
            docs.push(line);
        }
        n = n + 1;
    }
    if_any(join(&docs, "\n"))
}

/// The doc of a Svelte component: its component comment.
pub open spec fn component_doc(source: Seq<char>) -> Option<Seq<char>> {
    match find_from(source, "<!-- @component"@, 0) {
        Some(start) => {
            let rest = source.skip(start + 15);
            match find_from(rest, "-->"@, 0) {
                Some(end) => non_empty(trimmed(rest.take(end))),
                None => None,
            }
        },
        None => None,
    }
}

fn svelte_doc(source: &str) -> (r: Option<String>)
    ensures
        r.deep_view() == component_doc(source@),
{
    let start: usize = match find(source, "<!-- @component") {
        Some(s) => s,
        None => {
            return None;
        },
    };
    proof {
        reveal_strlit("<!-- @component");
        crate::text::find_from_is_least(source@, "<!-- @component"@, 0);
        assert(start + 15 <= source@.len());
    }
    let v = crate::text::chars_of(source);
    let n: usize = v.len();
    let rest = suffix_from(source, start + 15);
    match find(&rest, "-->") {
        Some(end) => if_any(trim(&crate::text::prefix_to(&rest, end))),
        None => None,
    }
}

/// The doc of a file.
pub open spec fn file_doc_of(source: Seq<char>, language: Language) -> Option<Seq<char>> {
    match language {
        Language::Rust => rust_file_doc(source),
        Language::TypeScript => script_file_doc(source),
        Language::JavaScript => script_file_doc(source),
        Language::Svelte => component_doc(source),
        Language::Html => None,
        Language::Css => None,
    }
}

/// The doc of a file: inner doc comments in Rust, the first block comment in TypeScript and
/// JavaScript, and the component comment in Svelte.
pub fn extract_file_doc(source: &str, language: Language) -> (r: Option<String>)
    ensures
        r.deep_view() == file_doc_of(source@, language),
{
    match language {
        Language::Rust => rust_doc(source),
        Language::TypeScript => script_doc(source),
        Language::JavaScript => script_doc(source),
        Language::Svelte => svelte_doc(source),
        Language::Html => None,
        Language::Css => None,
    }
}

// ---------------------------------------------------------------------------
// Scripts of components
// ---------------------------------------------------------------------------

/// The positions of the raw texts among the first `n` of the nodes at the positions.
pub open spec fn raw_texts_among(nodes: Seq<SyntaxNodeView>, at: Seq<int>, n: int) -> Seq<int>
    decreases n,
{
    if n <= 0 {
        Seq::empty()
    } else {
        let rest = raw_texts_among(nodes, at, n - 1);
        if nodes[at[n - 1]].kind == "raw_text"@ {
            rest.push(at[n - 1])
        } else {
            rest
        }
    }
}

/// The positions of the raw texts of the scripts among the first `n` nodes.
pub open spec fn script_texts(nodes: Seq<SyntaxNodeView>, n: int) -> Seq<int>
    decreases n,
{
    if n <= 0 {
        Seq::empty()
    } else {
        let rest = script_texts(nodes, n - 1);
        if nodes[n - 1].kind == "script_element"@ {
            let at = children_of(nodes, n - 1);
            rest + raw_texts_among(nodes, at, at.len() as int)
        } else {
            rest
        }
    }
}

/// The positions of the raw texts of the scripts.
pub fn find_script_raw_texts(nodes: &Vec<SyntaxNode>) -> (r: Vec<usize>)
    ensures
        as_ints(r@) == script_texts(views(nodes@), nodes@.len() as int),
        forall|k: int| 0 <= k < r@.len() ==> (#[trigger] r@[k]) < nodes@.len(),
{
    let ghost nv = views(nodes@);
    let mut out: Vec<usize> = Vec::new();
    let mut n: usize = 0;
    assert(as_ints(out@) =~= Seq::<int>::empty());
    while n < nodes.len()
        invariant
            nv == views(nodes@),
            n <= nodes@.len(),
            as_ints(out@) == script_texts(nv, n as int),
            forall|k: int| 0 <= k < out@.len() ==> (#[trigger] out@[k]) < nodes@.len(),
        decreases nodes@.len() - n,
    {
        assert(nv[n as int] == nodes@[n as int]@);
        if str_eq(&nodes[n].kind, "script_element") {
            let at = child_indices(nodes, n);
            let ghost before = as_ints(out@);
            let ghost av = as_ints(at@);
            let mut k: usize = 0;
            assert(before + Seq::<int>::empty() =~= before);
            while k < at.len()
                invariant
                    nv == views(nodes@),
                    av == as_ints(at@),
                    k <= at@.len(),
                    forall|k: int| 0 <= k < at@.len() ==> (#[trigger] at@[k]) < nodes@.len(),
                    forall|k: int| 0 <= k < out@.len() ==> (#[trigger] out@[k]) < nodes@.len(),
                    as_ints(out@) == before + raw_texts_among(nv, av, k as int),
                decreases at@.len() - k,
            {
                let c = at[k];
                assert(av[k as int] == c);
                assert(nv[c as int] == nodes@[c as int]@);
                if str_eq(&nodes[c].kind, "raw_text") {
                    let ghost prev = as_ints(out@);
                    out.push(c);
                    assert(as_ints(out@) =~= prev.push(c as int));
                    assert(before + raw_texts_among(nv, av, k as int).push(c as int) =~= (before
                        + raw_texts_among(nv, av, k as int)).push(c as int));
                }
                k = k + 1;
            }
            assert(av.len() == at@.len());
        }
        n = n + 1;
    }
    out
}

/// The line with `rows` more before it.
pub open spec fn shifted_line(line: u32, rows: int) -> u32 {
    if line + rows > u32::MAX {
        u32::MAX
    } else {
        (line + rows) as u32
    }
}

/// The symbol of a script within a component: its lines are those of the component.
pub open spec fn shifted(s: SymbolView, rows: int) -> SymbolView {
    SymbolView {
        range_start: shifted_line(s.range_start, rows),
        range_end: shifted_line(s.range_end, rows),
        language: "svelte"@,
        ..s
    }
}

/// `out` and the first `n` symbols of a script.
pub open spec fn with_shifted(out: Seq<SymbolView>, symbols: Seq<SymbolView>, rows: int, n: int) -> Seq<
    SymbolView,
>
    decreases n,
{
    if n <= 0 {
        out
    } else {
        with_shifted(out, symbols, rows, n - 1).push(shifted(symbols[n - 1], rows))
    }
}

fn shift_line(line: u32, rows: usize) -> (r: u32)
    ensures
        r == shifted_line(line, rows as int),
{
    if rows as u64 > (u32::MAX - line) as u64 {
        u32::MAX
    } else {
        line + rows as u32
    }
}

fn add_shifted(out: &mut Vec<Symbol>, symbols: Vec<Symbol>, rows: usize)
    ensures
        views(final(out)@) == with_shifted(
            views(old(out)@),
            views(symbols@),
            rows as int,
            symbols@.len() as int,
        ),
{
    let ghost start = views(out@);
    let ghost sv = views(symbols@);
    for s in it: symbols
        invariant
            views(it.seq()) == sv,
            views(out@) == with_shifted(start, sv, rows as int, it.index() as int),
    {
        assert(views(it.seq())[it.index() as int] == s@);
        let t = Symbol {
            range_start: shift_line(s.range_start, rows),
            range_end: shift_line(s.range_end, rows),
            language: "svelte".to_owned(),
            name: s.name,
            file: s.file,
            kind: s.kind,
            signature: s.signature,
            content_hash: s.content_hash,
            visibility: s.visibility,
            doc: s.doc,
            stable_id: s.stable_id,
        };
        out.push(t);
    }
}

/// What was found in a component's scripts so far; none where a query failed.
pub struct ScriptFinds {
    pub symbols: Seq<SymbolView>,
    pub edges: Seq<RawEdgeView>,
}

/// What is found in the first `n` scripts of a component, whose raw texts stand at the
/// positions. A script that is no text, or that gives no tree, is left out.
pub open spec fn script_finds(
    nodes: Seq<SyntaxNodeView>,
    at: Seq<int>,
    source: Seq<char>,
    file: Seq<char>,
    n: int,
) -> Option<ScriptFinds>
    decreases n,
{
    if n <= 0 {
        Some(ScriptFinds { symbols: Seq::empty(), edges: Seq::empty() })
    } else {
        match script_finds(nodes, at, source, file, n - 1) {
            None => None,
            Some(f) => match node_text(nodes, at[n - 1], source) {
                None => Some(f),
                Some(raw) => match syntax_tree("typescript"@, raw) {
                    None => Some(f),
                    Some(tree) => match query_hits(
                        "typescript"@,
                        query_of(Language::TypeScript),
                        raw,
                    ) {
                        None => None,
                        Some(hits) => {
                            let found = symbols_in(
                                tree,
                                hits,
                                raw,
                                file,
                                "typescript"@,
                                hits.len() as int,
                            );
                            Some(
                                ScriptFinds {
                                    symbols: with_shifted(
                                        f.symbols,
                                        found,
                                        nodes[at[n - 1]].start_row as int,
                                        found.len() as int,
                                    ),
                                    edges: f.edges + edges_in(
                                        tree,
                                        hits,
                                        raw,
                                        file,
                                        hits.len() as int,
                                    ),
                                },
                            )
                        },
                    },
                },
            },
        }
    }
}

proof fn script_finds_stay_failed(
    nodes: Seq<SyntaxNodeView>,
    at: Seq<int>,
    source: Seq<char>,
    file: Seq<char>,
    n: int,
    m: int,
)
    requires
        0 <= n <= m,
        script_finds(nodes, at, source, file, n) is None,
    ensures
        script_finds(nodes, at, source, file, m) is None,
    decreases m,
{
    if n < m {
        script_finds_stay_failed(nodes, at, source, file, n, m - 1);
    }
}

/// The symbols and calls of a component's scripts.
pub fn extract_svelte_script_symbols(nodes: &Vec<SyntaxNode>, source: &str, file: &str) -> (r:
    Option<(Vec<Symbol>, Vec<RawEdge>)>)
    ensures
        ({
            let at = script_texts(views(nodes@), nodes@.len() as int);
            match script_finds(views(nodes@), at, source@, file@, at.len() as int) {
                Some(f) => r matches Some(x) && views(x.0@) == f.symbols && views(x.1@) == f.edges,
                None => r is None,
            }
        }),
{
    let at = find_script_raw_texts(nodes);
    let ghost av = as_ints(at@);
    let ghost nv = views(nodes@);
    assert(av.len() == at@.len());
    let mut symbols: Vec<Symbol> = Vec::new();
    let mut edges: Vec<RawEdge> = Vec::new();
    let mut n: usize = 0;
    while n < at.len()
        invariant
            nv == views(nodes@),
            av == as_ints(at@),
            av.len() == at@.len(),
            av == script_texts(nv, nodes@.len() as int),
            forall|k: int| 0 <= k < at@.len() ==> (#[trigger] at@[k]) < nodes@.len(),
            n <= at@.len(),
            script_finds(nv, av, source@, file@, n as int) matches Some(f) && views(symbols@)
                == f.symbols && views(edges@) == f.edges,
        decreases at@.len() - n,
    {
        let i = at[n];
        assert(av[n as int] == i);
        assert(nv[i as int] == nodes@[i as int]@);
        if let Some(raw) = slice_text(source, nodes[i].start_byte, nodes[i].end_byte) {
            let language = Language::TypeScript;
            match parse_and_query(language, language.query_source(), &raw) {
                Ok(p) => {
                    let found = extract_symbols(&p.nodes, &p.hits, &raw, file, "typescript");
                    assert(views(p.hits@).len() == p.hits@.len());
                    assert(views(found@).len() == found@.len());
                    add_shifted(&mut symbols, found, nodes[i].start_row);
                    let mut more = extract_edges(&p.nodes, &p.hits, &raw, file);
                    let ghost before = edges@;
                    let ghost extra = more@;
                    edges.append(&mut more);
                    assert(views(edges@) =~= views(before) + views(extra));
                },
                Err(ParseFailure::NoTree) => {},
                Err(ParseFailure::BadQuery) => {
                    proof {
                        script_finds_stay_failed(
                            nv,
                            av,
                            source@,
                            file@,
                            n + 1,
                            av.len() as int,
                        );
                    }
                    return None;
                },
            }
        }
        n = n + 1;
    }
    Some((symbols, edges))
}

// ---------------------------------------------------------------------------
// Files
// ---------------------------------------------------------------------------

/// The line of a query asks for something: it is neither blank nor a comment.
pub open spec fn asks(line: Seq<char>) -> bool {
    !begins_with(trimmed_start(line), ";"@) && trimmed(line).len() > 0
}

/// Some line of the query asks for something.
pub open spec fn query_asks(query: Seq<char>) -> bool {
    exists|i: int| 0 <= i < line_seq(query).len() && asks(#[trigger] line_seq(query)[i])
}

fn does_query_ask(query: &str) -> (r: bool)
    ensures
        r == query_asks(query@),
{
    let all = lines(query);
    let ghost av = views(all@);
    assert(av == line_seq(query@));
    assert(av.len() == all@.len());
    let mut i: usize = 0;
    while i < all.len()
        invariant
            av == views(all@),
            av == line_seq(query@),
            i <= all@.len(),
            forall|k: int| 0 <= k < i ==> !asks(#[trigger] av[k]),
        decreases all@.len() - i,
    {
        assert(av[i as int] == all@[i as int]@);
        if !starts_with(&trim_start(&all[i]), ";") && !trim(&all[i]).as_str().is_empty() {
            assert(asks(line_seq(query@)[i as int]));
            return true;
        }
        i = i + 1;
    }
    assert(forall|k: int| 0 <= k < line_seq(query@).len() ==> !asks(#[trigger] line_seq(query@)[k]));
    false
}

/// `out` with the first `n` symbols, each unless one starts on its line.
pub open spec fn with_symbols(out: Seq<SymbolView>, symbols: Seq<SymbolView>, n: int) -> Seq<
    SymbolView,
>
    decreases n,
{
    if n <= 0 {
        out
    } else {
        with_symbol(with_symbols(out, symbols, n - 1), symbols[n - 1])
    }
}

/// What a source file holds, by its syntax tree and the matches of its language's query. In
/// a Svelte component the symbols and calls of its scripts come behind its own.
pub open spec fn parse_result(
    path: Seq<char>,
    source: Seq<char>,
    language: Language,
    tree: Seq<SyntaxNodeView>,
    hits: Seq<QueryHitView>,
) -> Option<ParseResultView> {
    let symbols = symbols_in(
        tree,
        hits,
        source,
        path,
        language_name(language),
        hits.len() as int,
    );
    let edges = edges_in(tree, hits, source, path, hits.len() as int);
    let file_doc = file_doc_of(source, language);
    if !query_asks(query_of(language)) {
        Some(ParseResultView { symbols: Seq::empty(), edges: Seq::empty(), file_doc })
    } else if language == Language::Svelte {
        let at = script_texts(tree, tree.len() as int);
        match script_finds(tree, at, source, path, at.len() as int) {
            Some(f) => Some(
                ParseResultView {
                    symbols: with_symbols(symbols, f.symbols, f.symbols.len() as int),
                    edges: edges + f.edges,
                    file_doc,
                },
            ),
            None => None,
        }
    } else {
        Some(ParseResultView { symbols, edges, file_doc })
    }
}

/// What comes of parsing a file: what it holds, or why it could not be parsed.
pub open spec fn parse_outcome(path: Seq<char>, source: Seq<char>) -> Result<
    ParseResultView,
    Seq<char>,
> {
    match language_of_file(path) {
        None => Err("unknown language"@),
        Some(language) => match syntax_tree(language_name(language), source) {
            None => Err("parser returned None"@),
            Some(tree) => match query_hits(language_name(language), query_of(language), source) {
                None => Err("invalid query"@),
                Some(hits) => match parse_result(path, source, language, tree, hits) {
                    None => Err("invalid query"@),
                    Some(p) => Ok(p),
                },
            },
        },
    }
}

/// What a source file holds, from its syntax tree and the matches of its language's query.
pub fn collect(
    path: &str,
    source: &str,
    language: Language,
    nodes: &Vec<SyntaxNode>,
    hits: &Vec<QueryHit>,
) -> (r: Option<ParseResult>)
    ensures
        r.deep_view() == parse_result(path@, source@, language, views(nodes@), views(hits@)),
{
    let file_doc = extract_file_doc(source, language);
    if !does_query_ask(language.query_source()) {
        return Some(ParseResult { symbols: Vec::new(), edges: Vec::new(), file_doc });
    }
    assert(views(hits@).len() == hits@.len());
    assert(views(nodes@).len() == nodes@.len());
    let mut symbols = extract_symbols(nodes, hits, source, path, language.as_str());
    let mut edges = extract_edges(nodes, hits, source, path);
    if language == Language::Svelte {
        match extract_svelte_script_symbols(nodes, source, path) {
            Some(found) => {
                let (more_symbols, mut more_edges) = found;
                let ghost before = edges@;
                let ghost extra = more_edges@;
                edges.append(&mut more_edges);
                assert(views(edges@) =~= views(before) + views(extra));
                let ghost start = views(symbols@);
                let ghost ms = views(more_symbols@);
                assert(ms.len() == more_symbols@.len());
                for s in it: more_symbols
                    invariant
                        views(it.seq()) == ms,
                        views(symbols@) == with_symbols(start, ms, it.index() as int),
                {
                    assert(views(it.seq())[it.index() as int] == s@);
                    add_symbol(&mut symbols, s);
                }
            },
            None => {
                return None;
            },
        }
    }
    Some(ParseResult { symbols, edges, file_doc })
}

/// Parse a source file: its symbols, the calls between them, and its doc.
pub fn parse_file(path: &str, source: &str) -> (r: Result<ParseResult, String>)
    ensures
        match parse_outcome(path@, source@) {
            Ok(p) => r matches Ok(q) && q@ == p,
            Err(m) => r matches Err(e) && e@ == m,
        },
{
    let language = match detect_language(path) {
        Some(l) => l,
        None => {
            return Err("unknown language".to_owned());
        },
    };
    match parse_and_query(language, language.query_source(), source) {
        Ok(p) => match collect(path, source, language, &p.nodes, &p.hits) {
            Some(r) => Ok(r),
            None => Err("invalid query".to_owned()),
        },
        Err(ParseFailure::NoTree) => Err("parser returned None".to_owned()),
        Err(ParseFailure::BadQuery) => Err("invalid query".to_owned()),
    }
}

// ---------------------------------------------------------------------------
// What files hold
// ---------------------------------------------------------------------------

/// The node `k` levels above the node, the nearest being the one it stands in.
pub open spec fn above(nodes: Seq<SyntaxNodeView>, i: int, k: int) -> Option<int>
    decreases k,
{
    if k <= 0 {
        Some(i)
    } else {
        match above(nodes, i, k - 1) {
            Some(p) => parent_of(nodes, p),
            None => None,
        }
    }
}

/// The kinds of nodes that calls can be made from: functions, methods, function expressions,
/// arrow functions and generators.
pub open spec fn is_function_like(kind: Seq<char>) -> bool {
    kind == "function_item"@ || kind == "function_declaration"@ || kind == "function_expression"@
        || kind == "arrow_function"@ || kind == "method_definition"@ || kind
        == "generator_function"@ || kind == "generator_function_declaration"@
}

proof fn parents_stand_before(nodes: Seq<SyntaxNodeView>, of: int, i: int)
    requires
        0 <= i <= of < nodes.len(),
    ensures
        match crate::syntax::parent_before(nodes, of, i) {
            Some(p) => 0 <= p < i && nodes[p].depth < nodes[of].depth && forall|j: int|
                p < j < i ==> (#[trigger] nodes[j]).depth >= nodes[of].depth,
            None => forall|j: int| 0 <= j < i ==> (#[trigger] nodes[j]).depth >= nodes[of].depth,
        },
    decreases i,
{
    if i > 0 {
        parents_stand_before(nodes, of, i - 1);
    }
}

/// A node stands in the last node before it that is less deep.
pub proof fn parents_are_the_last_less_deep(nodes: Seq<SyntaxNodeView>, i: int)
    requires
        0 <= i < nodes.len(),
    ensures
        match parent_of(nodes, i) {
            Some(p) => 0 <= p < i && nodes[p].depth < nodes[i].depth && forall|j: int|
                p < j < i ==> (#[trigger] nodes[j]).depth >= nodes[i].depth,
            None => forall|j: int| 0 <= j < i ==> (#[trigger] nodes[j]).depth >= nodes[i].depth,
        },
{
    parents_stand_before(nodes, i, i);
}

/// The function that a node stands in is the closest function, method, function expression,
/// arrow function or generator above it: the name of that one, where it has one, and nothing
/// else.
pub proof fn callers_are_the_closest_functions(
    nodes: Seq<SyntaxNodeView>,
    i: int,
    source: Seq<char>,
    k: int,
)
    requires
        0 <= i < nodes.len(),
        k > 0,
        above(nodes, i, k) is Some,
        is_function_like(nodes[above(nodes, i, k)->0].kind),
        forall|j: int|
            0 < j < k && #[trigger] above(nodes, i, j) is Some ==> !is_function_like(
                nodes[above(nodes, i, j)->0].kind,
            ),
    ensures
        function_above(nodes, i, source) == name_among(
            nodes,
            children_of(nodes, above(nodes, i, k)->0),
            source,
            0,
        ),
    decreases k,
{
    parents_are_the_last_less_deep(nodes, i);
    reveal_with_fuel(above, 2);
    assert(above(nodes, i, 1) == parent_of(nodes, i));
    if k > 1 {
        above_from_parent(nodes, i, k);
        let p = parent_of(nodes, i)->0;
        assert(!is_function_like(nodes[above(nodes, i, 1)->0].kind));
        assert forall|j: int| 0 < j < k - 1 && #[trigger] above(nodes, p, j) is Some implies !is_function_like(
            nodes[above(nodes, p, j)->0].kind,
        ) by {
            above_from_parent(nodes, i, j + 1);
            assert(above(nodes, i, j + 1) is Some);
        }
        callers_are_the_closest_functions(nodes, p, source, k - 1);
    }
}

proof fn above_from_parent(nodes: Seq<SyntaxNodeView>, i: int, k: int)
    requires
        k > 0,
    ensures
        above(nodes, i, k) == match parent_of(nodes, i) {
            Some(p) => above(nodes, p, k - 1),
            None => None,
        },
    decreases k,
{
    reveal_with_fuel(above, 2);
    if k > 1 {
        above_from_parent(nodes, i, k - 1);
    }
}

/// A node that no function, method, function expression, arrow function or generator stands
/// above stands in no function.
pub proof fn module_level_has_no_caller(nodes: Seq<SyntaxNodeView>, i: int, source: Seq<char>)
    requires
        0 <= i < nodes.len(),
        forall|j: int|
            0 < j && #[trigger] above(nodes, i, j) is Some ==> !is_function_like(
                nodes[above(nodes, i, j)->0].kind,
            ),
    ensures
        function_above(nodes, i, source) is None,
    decreases i,
{
    parents_are_the_last_less_deep(nodes, i);
    reveal_with_fuel(above, 2);
    if let Some(p) = parent_of(nodes, i) {
        assert(above(nodes, i, 1) == Some(p));
        assert forall|j: int| 0 < j && #[trigger] above(nodes, p, j) is Some implies !is_function_like(
            nodes[above(nodes, p, j)->0].kind,
        ) by {
            above_from_parent(nodes, i, j + 1);
            assert(above(nodes, i, j + 1) is Some);
        }
        module_level_has_no_caller(nodes, p, source);
    }
}

/// The name of a function is the text of the first of its parts that is an identifier.
pub proof fn names_are_identifiers(
    nodes: Seq<SyntaxNodeView>,
    at: Seq<int>,
    source: Seq<char>,
    i: int,
    k: int,
)
    requires
        0 <= i <= k < at.len(),
        nodes[at[k]].kind == "identifier"@ || nodes[at[k]].kind == "property_identifier"@
            || nodes[at[k]].kind == "type_identifier"@,
        node_text(nodes, at[k], source) is Some,
        forall|j: int|
            i <= j < k ==> nodes[#[trigger] at[j]].kind != "identifier"@ && nodes[at[j]].kind
                != "property_identifier"@ && nodes[at[j]].kind != "type_identifier"@,
    ensures
        name_among(nodes, at, source, i) == node_text(nodes, at[k], source),
    decreases k - i,
{
    if i < k {
        assert(nodes[at[i]].kind != "identifier"@);
        names_are_identifiers(nodes, at, source, i + 1, k);
    }
}

proof fn capture_is_first(cs: Seq<CaptureView>, name: Seq<char>, i: int)
    requires
        0 <= i <= cs.len(),
    ensures
        match capture_in(cs, name, i) {
            Some(c) => c.name == name && exists|k: int|
                i <= k < cs.len() && #[trigger] cs[k] == c && forall|j: int|
                    i <= j < k ==> (#[trigger] cs[j]).name != name,
            None => forall|k: int| i <= k < cs.len() ==> (#[trigger] cs[k]).name != name,
        },
    decreases cs.len() - i,
{
    if i < cs.len() {
        capture_is_first(cs, name, i + 1);
        if cs[i].name != name {
            if let Some(c) = capture_in(cs, name, i + 1) {
                let k = choose|k: int|
                    i + 1 <= k < cs.len() && #[trigger] cs[k] == c && forall|j: int|
                        i + 1 <= j < k ==> (#[trigger] cs[j]).name != name;
                assert(cs[k] == c);
            }
        }
    }
}

/// A match is a call where it captures a reference and a name that is not empty, and no other
/// match is. The call goes to that name, from the function that the name stands in, or from the
/// module where there is none.
pub proof fn references_are_calls(
    nodes: Seq<SyntaxNodeView>,
    hit: QueryHitView,
    source: Seq<char>,
    file: Seq<char>,
)
    ensures
        edge_in(nodes, hit, source, file) is Some ==> (exists|k: int|
            0 <= k < hit.captures.len() && (#[trigger] hit.captures[k]).name == "reference.call"@)
            && exists|k: int|
            {
                let c = #[trigger] hit.captures[k];
                let e = edge_in(nodes, hit, source, file)->0;
                &&& 0 <= k < hit.captures.len()
                &&& c.name == "name"@
                &&& text_at(source, c.start_byte as int, c.end_byte as int) == Some(e.to_name)
                &&& e.to_name.len() > 0
                &&& e.edge_type == "CALLS"@
                &&& e.file == file
                &&& e.from_name == match captured_node(nodes, c, 0) {
                    Some(i) => or_text(function_above(nodes, i, source), "<module>"@),
                    None => "<module>"@,
                }
            },
        edge_in(nodes, hit, source, file) is None ==> (forall|k: int|
            0 <= k < hit.captures.len() ==> (#[trigger] hit.captures[k]).name != "reference.call"@)
            || (forall|k: int|
            0 <= k < hit.captures.len() ==> (#[trigger] hit.captures[k]).name != "name"@) || exists|
            k: int,
        |
            0 <= k < hit.captures.len() && (#[trigger] hit.captures[k]).name == "name"@
                && capture_text(hit.captures[k], source).len() == 0,
{
    reveal_strlit("");
    capture_is_first(hit.captures, "reference.call"@, 0);
    capture_is_first(hit.captures, "name"@, 0);
    if let Some(c) = capture_in(hit.captures, "name"@, 0) {
        let k = choose|k: int|
            0 <= k < hit.captures.len() && #[trigger] hit.captures[k] == c && forall|j: int|
                0 <= j < k ==> (#[trigger] hit.captures[j]).name != "name"@;
        assert(hit.captures[k] == c);
    }
}

/// The calls of a file are those that its matches are: each match that is one is there, and
/// nothing else.
pub proof fn calls_are_those_of_matches(
    nodes: Seq<SyntaxNodeView>,
    hits: Seq<QueryHitView>,
    source: Seq<char>,
    file: Seq<char>,
    n: int,
    e: RawEdgeView,
)
    requires
        0 <= n <= hits.len(),
    ensures
        edges_in(nodes, hits, source, file, n).contains(e) <==> exists|k: int|
            0 <= k < n && edge_in(nodes, #[trigger] hits[k], source, file) == Some(e),
    decreases n,
{
    if n > 0 {
        calls_are_those_of_matches(nodes, hits, source, file, n - 1, e);
        let rest = edges_in(nodes, hits, source, file, n - 1);
        let all = edges_in(nodes, hits, source, file, n);
        if rest.contains(e) {
            let j = choose|j: int| 0 <= j < rest.len() && rest[j] == e;
            assert(all[j] == e);
        }
        if edge_in(nodes, hits[n - 1], source, file) == Some(e) {
            assert(all[rest.len() as int] == e);
        }
        if all.contains(e) && !rest.contains(e) {
            let j = choose|j: int| 0 <= j < all.len() && all[j] == e;
            if j < rest.len() {
                assert(rest[j] == e);
            }
            assert(edge_in(nodes, hits[n - 1], source, file) == Some(e));
        }
    }
}

/// Every definition of a file is among its symbols, unless another symbol starts on the same
/// line; and every symbol is a definition that a match captured.
pub proof fn definitions_become_symbols(
    nodes: Seq<SyntaxNodeView>,
    hits: Seq<QueryHitView>,
    source: Seq<char>,
    file: Seq<char>,
    language: Seq<char>,
    n: int,
    k: int,
)
    requires
        0 <= k < n <= hits.len(),
        symbol_in(nodes, hits[k], source, file, language) is Some,
    ensures
        exists|j: int|
            {
                let s = #[trigger] symbols_in(nodes, hits, source, file, language, n)[j];
                let d = symbol_in(nodes, hits[k], source, file, language)->0;
                &&& 0 <= j < symbols_in(nodes, hits, source, file, language, n).len()
                &&& s == d || (s.file == d.file && s.range_start == d.range_start)
            },
    decreases n,
{
    let rest = symbols_in(nodes, hits, source, file, language, n - 1);
    let all = symbols_in(nodes, hits, source, file, language, n);
    let d = symbol_in(nodes, hits[k], source, file, language)->0;
    if k < n - 1 {
        definitions_become_symbols(nodes, hits, source, file, language, n - 1, k);
        let j = choose|j: int|
            {
                let s = #[trigger] rest[j];
                &&& 0 <= j < rest.len()
                &&& s == d || (s.file == d.file && s.range_start == d.range_start)
            };
        assert(all[j] == rest[j]);
    } else if starts_taken(rest, d) {
        let j = choose|j: int|
            0 <= j < rest.len() && (#[trigger] rest[j]).file == d.file && rest[j].range_start
                == d.range_start;
        assert(all[j] == rest[j]);
    } else {
        assert(all[rest.len() as int] == d);
    }
}

/// Every symbol of a file is one that a match captured as a definition with a name.
pub proof fn symbols_are_definitions(
    nodes: Seq<SyntaxNodeView>,
    hits: Seq<QueryHitView>,
    source: Seq<char>,
    file: Seq<char>,
    language: Seq<char>,
    n: int,
    s: SymbolView,
)
    requires
        0 <= n <= hits.len(),
        symbols_in(nodes, hits, source, file, language, n).contains(s),
    ensures
        exists|k: int|
            0 <= k < n && symbol_in(nodes, #[trigger] hits[k], source, file, language) == Some(s),
    decreases n,
{
    if n > 0 {
        let rest = symbols_in(nodes, hits, source, file, language, n - 1);
        let all = symbols_in(nodes, hits, source, file, language, n);
        let j = choose|j: int| 0 <= j < all.len() && all[j] == s;
        if j < rest.len() {
            assert(rest[j] == s);
            symbols_are_definitions(nodes, hits, source, file, language, n - 1, s);
        } else {
            assert(symbol_in(nodes, hits[n - 1], source, file, language) == Some(s));
        }
    }
}

proof fn definition_is_first(cs: Seq<CaptureView>, i: int)
    requires
        0 <= i <= cs.len(),
    ensures
        match definition_in(cs, i) {
            Some(c) => begins_with(c.name, "definition."@) && exists|k: int|
                i <= k < cs.len() && #[trigger] cs[k] == c,
            None => forall|k: int|
                i <= k < cs.len() ==> !begins_with((#[trigger] cs[k]).name, "definition."@),
        },
    decreases cs.len() - i,
{
    if i < cs.len() {
        definition_is_first(cs, i + 1);
        if begins_with(cs[i].name, "definition."@) {
            assert(cs[i] == cs[i]);
        } else if let Some(c) = definition_in(cs, i + 1) {
            let k = choose|k: int| i + 1 <= k < cs.len() && #[trigger] cs[k] == c;
            assert(cs[k] == c);
        }
    }
}

/// A symbol is what the source says at its definition: it has the captured name, the first and
/// the last line of the defining node counted from 1, the kind of that node, the file and the
/// language, and the hash of exactly the node's bytes.
pub proof fn symbols_say_what_the_source_says(
    nodes: Seq<SyntaxNodeView>,
    hit: QueryHitView,
    source: Seq<char>,
    file: Seq<char>,
    language: Seq<char>,
    s: SymbolView,
)
    requires
        symbol_in(nodes, hit, source, file, language) == Some(s),
    ensures
        s.file == file,
        s.language == language,
        exists|a: int, d: int, i: int|
            {
                let named = #[trigger] hit.captures[a];
                let def = #[trigger] hit.captures[d];
                let node = #[trigger] nodes[i];
                &&& 0 <= a < hit.captures.len()
                &&& named.name == "name"@
                &&& s.name.len() > 0
                &&& text_at(source, named.start_byte as int, named.end_byte as int) == Some(s.name)
                &&& 0 <= d < hit.captures.len()
                &&& begins_with(def.name, "definition."@)
                &&& 0 <= i < nodes.len()
                &&& node.start_byte == def.start_byte && node.end_byte == def.end_byte && node.kind
                    == def.kind
                &&& s.kind == symbol_kind(node.kind)
                &&& s.range_start == (if node.start_row < u32::MAX {
                    node.start_row + 1
                } else {
                    u32::MAX as int
                })
                &&& s.range_end == (if node.end_row < u32::MAX {
                    node.end_row + 1
                } else {
                    u32::MAX as int
                })
                &&& s.content_hash == hex(
                    fnv1a(
                        encode_utf8(source).subrange(
                            node.start_byte as int,
                            node.end_byte as int,
                        ),
                    ) as nat,
                    16,
                )
                &&& s.signature == signature_of(nodes, i, source)
                &&& s.doc == doc_at(source, node.start_row as int)
                &&& s.stable_id == plain_path(file) + "::"@ + s.kind + "::"@ + (
                match container_above(nodes, i, source) {
                    Some(c) => c + "::"@ + s.name,
                    None => s.name,
                })
            },
{
    reveal_strlit("");
    capture_is_first(hit.captures, "name"@, 0);
    definition_is_first(hit.captures, 0);
    let named = capture_in(hit.captures, "name"@, 0)->0;
    let def = definition_in(hit.captures, 0)->0;
    let a = choose|a: int|
        0 <= a < hit.captures.len() && #[trigger] hit.captures[a] == named && forall|j: int|
            0 <= j < a ==> (#[trigger] hit.captures[j]).name != "name"@;
    let d = choose|d: int| 0 <= d < hit.captures.len() && #[trigger] hit.captures[d] == def;
    captured_node_fits(nodes, def, 0);
    let i = captured_node(nodes, def, 0)->0;
    assert(hit.captures[a] == named);
    assert(hit.captures[d] == def);
    assert(nodes[i].kind == def.kind);
    if let Some(c) = container_above(nodes, i, source) {
        let head = plain_path(file) + "::"@ + s.kind + "::"@;
        assert(head + c + "::"@ + s.name =~= head + (c + "::"@ + s.name));
    }
}

proof fn captured_node_fits(nodes: Seq<SyntaxNodeView>, c: CaptureView, i: int)
    requires
        0 <= i <= nodes.len(),
    ensures
        captured_node(nodes, c, i) matches Some(k) ==> i <= k < nodes.len() && nodes[k].start_byte
            == c.start_byte && nodes[k].end_byte == c.end_byte && nodes[k].kind == c.kind,
    decreases nodes.len() - i,
{
    if i < nodes.len() {
        captured_node_fits(nodes, c, i + 1);
    }
}

/// The kinds of symbols, by the kinds of the nodes that define them.
pub proof fn nodes_give_kinds(kind: Seq<char>)
    ensures
        kind == "struct_item"@ ==> symbol_kind(kind) == "struct"@,
        kind == "enum_item"@ ==> symbol_kind(kind) == "enum"@,
        kind == "union_item"@ ==> symbol_kind(kind) == "union"@,
        kind == "trait_item"@ ==> symbol_kind(kind) == "trait"@,
        kind == "type_item"@ || kind == "type_alias_declaration"@ ==> symbol_kind(kind) == "type"@,
        kind == "impl_item"@ ==> symbol_kind(kind) == "impl"@,
        kind == "mod_item"@ ==> symbol_kind(kind) == "mod"@,
        kind == "macro_definition"@ ==> symbol_kind(kind) == "macro"@,
        kind == "class_declaration"@ || kind == "class"@ || kind == "abstract_class_declaration"@
            ==> symbol_kind(kind) == "class"@,
        kind == "interface_declaration"@ ==> symbol_kind(kind) == "interface"@,
        kind == "module"@ ==> symbol_kind(kind) == "module"@,
        kind == "lexical_declaration"@ || kind == "variable_declaration"@ ==> symbol_kind(kind)
            == "const"@,
        kind == "function_item"@ || kind == "function_declaration"@ || kind
            == "function_expression"@ || kind == "function_signature"@ || kind
            == "generator_function"@ || kind == "generator_function_declaration"@ || kind
            == "arrow_function"@ || kind == "method_definition"@ || kind == "method_signature"@
            || kind == "abstract_method_signature"@ || kind == "assignment_expression"@ || kind
            == "pair"@ || kind == "variable_declarator"@ || kind == "export_statement"@
            ==> symbol_kind(kind) == "fn"@,
{
    kinds_differ(kind);
}

proof fn kinds_differ(kind: Seq<char>)
    ensures
        kind == "struct_item"@ ==> kind.len() == 11 && kind[0] == 's',
        kind == "enum_item"@ ==> kind.len() == 9 && kind[0] == 'e' && kind[1] == 'n',
        kind == "union_item"@ ==> kind.len() == 10 && kind[0] == 'u',
        kind == "trait_item"@ ==> kind.len() == 10 && kind[0] == 't' && kind[1] == 'r',
        kind == "type_item"@ ==> kind.len() == 9 && kind[0] == 't' && kind[1] == 'y',
        kind == "type_alias_declaration"@ ==> kind.len() == 22 && kind[0] == 't',
        kind == "impl_item"@ ==> kind.len() == 9 && kind[0] == 'i',
        kind == "mod_item"@ ==> kind.len() == 8 && kind[0] == 'm',
        kind == "macro_definition"@ ==> kind.len() == 16 && kind[0] == 'm' && kind[1] == 'a',
        kind == "class_declaration"@ ==> kind.len() == 17 && kind[0] == 'c',
        kind == "class"@ ==> kind.len() == 5 && kind[0] == 'c',
        kind == "abstract_class_declaration"@ ==> kind.len() == 26 && kind[0] == 'a' && kind[9]
            == 'c',
        kind == "interface_declaration"@ ==> kind.len() == 21 && kind[0] == 'i',
        kind == "module"@ ==> kind.len() == 6 && kind[0] == 'm',
        kind == "lexical_declaration"@ ==> kind.len() == 19 && kind[0] == 'l',
        kind == "variable_declaration"@ ==> kind.len() == 20 && kind[0] == 'v',
        kind == "function_item"@ ==> kind.len() == 13 && kind[0] == 'f',
        kind == "function_declaration"@ ==> kind.len() == 20 && kind[0] == 'f',
        kind == "function_expression"@ ==> kind.len() == 19 && kind[0] == 'f',
        kind == "function_signature"@ ==> kind.len() == 18 && kind[0] == 'f',
        kind == "generator_function"@ ==> kind.len() == 18 && kind[0] == 'g',
        kind == "generator_function_declaration"@ ==> kind.len() == 30 && kind[0] == 'g',
        kind == "arrow_function"@ ==> kind.len() == 14 && kind[0] == 'a' && kind[1] == 'r',
        kind == "method_definition"@ ==> kind.len() == 17 && kind[0] == 'm' && kind[1] == 'e',
        kind == "method_signature"@ ==> kind.len() == 16 && kind[0] == 'm' && kind[1] == 'e',
        kind == "abstract_method_signature"@ ==> kind.len() == 25 && kind[0] == 'a' && kind[9]
            == 'm',
        kind == "assignment_expression"@ ==> kind.len() == 21 && kind[0] == 'a' && kind[1] == 's',
        kind == "pair"@ ==> kind.len() == 4 && kind[0] == 'p',
        kind == "variable_declarator"@ ==> kind.len() == 19 && kind[0] == 'v',
        kind == "export_statement"@ ==> kind.len() == 16 && kind[0] == 'e' && kind[1] == 'x',
{
    reveal_strlit("struct_item");
    reveal_strlit("enum_item");
    reveal_strlit("union_item");
    reveal_strlit("trait_item");
    reveal_strlit("type_item");
    reveal_strlit("type_alias_declaration");
    reveal_strlit("impl_item");
    reveal_strlit("mod_item");
    reveal_strlit("macro_definition");
    reveal_strlit("class_declaration");
    reveal_strlit("class");
    reveal_strlit("abstract_class_declaration");
    reveal_strlit("interface_declaration");
    reveal_strlit("module");
    reveal_strlit("lexical_declaration");
    reveal_strlit("variable_declaration");
    reveal_strlit("function_item");
    reveal_strlit("function_declaration");
    reveal_strlit("function_expression");
    reveal_strlit("function_signature");
    reveal_strlit("generator_function");
    reveal_strlit("generator_function_declaration");
    reveal_strlit("arrow_function");
    reveal_strlit("method_definition");
    reveal_strlit("method_signature");
    reveal_strlit("abstract_method_signature");
    reveal_strlit("assignment_expression");
    reveal_strlit("pair");
    reveal_strlit("variable_declarator");
    reveal_strlit("export_statement");
}

/// A signature ends where the body begins: it is the trimmed text from the start of the node to
/// the first of its parts that is a body.
pub proof fn signatures_end_at_the_body(
    nodes: Seq<SyntaxNodeView>,
    i: int,
    source: Seq<char>,
    k: int,
)
    requires
        0 <= k < children_of(nodes, i).len(),
        ({
            let kind = nodes[children_of(nodes, i)[k]].kind;
            kind == "block"@ || kind == "statement_block"@ || kind == "declaration_block"@ || kind
                == "class_body"@
        }),
        forall|j: int|
            0 <= j < k ==> {
                let kind = nodes[#[trigger] children_of(nodes, i)[j]].kind;
                kind != "block"@ && kind != "statement_block"@ && kind != "declaration_block"@
                    && kind != "class_body"@
            },
    ensures
        signature_of(nodes, i, source) == match text_at(
            source,
            nodes[i].start_byte as int,
            nodes[children_of(nodes, i)[k]].start_byte as int,
        ) {
            Some(t) => if trimmed(t).len() == 0 {
                None
            } else {
                Some(trimmed(t))
            },
            None => None,
        },
{
    body_is_first(nodes, children_of(nodes, i), 0, k);
}

proof fn body_is_first(nodes: Seq<SyntaxNodeView>, at: Seq<int>, i: int, k: int)
    requires
        0 <= i <= k < at.len(),
        body_kind(nodes[at[k]].kind),
        forall|j: int| i <= j < k ==> !body_kind(nodes[#[trigger] at[j]].kind),
    ensures
        body_among(nodes, at, i) == Some(nodes[at[k]].start_byte as int),
    decreases k - i,
{
    if i < k {
        assert(!body_kind(nodes[at[i]].kind));
        body_is_first(nodes, at, i + 1, k);
    }
}

/// A symbol is as visible as the first of its parts says that tells it: as its visibility
/// modifier is written, or public where it is exported. Without such a part it is private.
pub proof fn parts_tell_visibility(
    nodes: Seq<SyntaxNodeView>,
    at: Seq<int>,
    source: Seq<char>,
    i: int,
    k: int,
)
    requires
        0 <= i <= k <= at.len(),
        forall|j: int|
            i <= j < k ==> nodes[#[trigger] at[j]].kind != "visibility_modifier"@
                && nodes[at[j]].kind != "export"@,
    ensures
        k == at.len() ==> visibility_among(nodes, at, source, i) == "private"@,
        k < at.len() && nodes[at[k]].kind == "export"@ ==> visibility_among(nodes, at, source, i)
            == "pub"@,
        k < at.len() && nodes[at[k]].kind == "visibility_modifier"@ ==> visibility_among(
            nodes,
            at,
            source,
            i,
        ) == or_text(
            text_at(source, nodes[at[k]].start_byte as int, nodes[at[k]].end_byte as int),
            "pub"@,
        ),
    decreases k - i,
{
    reveal_strlit("export");
    reveal_strlit("visibility_modifier");
    assert("export"@.len() == 6 && "visibility_modifier"@.len() == 19);
    if i < k {
        assert(nodes[at[i]].kind != "export"@);
        parts_tell_visibility(nodes, at, source, i + 1, k);
    }
}

/// The doc of a symbol is made of the `///` lines above it. Attributes and blank lines between
/// are passed over, and any other line ends it.
pub proof fn docs_stand_above(all: Seq<Seq<char>>, i: int)
    requires
        0 < i <= all.len(),
    ensures
        begins_with(trimmed(all[i - 1]), "///"@) ==> docs_above(all, i) == docs_above(
            all,
            i - 1,
        ).push(trimmed(trimmed_of(trimmed(all[i - 1]), "///"@))),
        !begins_with(trimmed(all[i - 1]), "///"@) && (trimmed(all[i - 1]).len() == 0
            || begins_with(trimmed(all[i - 1]), "#["@) || begins_with(trimmed(all[i - 1]), "#!["@))
            ==> docs_above(all, i) == docs_above(all, i - 1),
        !begins_with(trimmed(all[i - 1]), "///"@) && trimmed(all[i - 1]).len() > 0 && !begins_with(
            trimmed(all[i - 1]),
            "#["@,
        ) && !begins_with(trimmed(all[i - 1]), "#!["@) ==> docs_above(all, i).len() == 0,
{
}

/// A symbol within an `impl` or a class has that type's name in its stable id: the closest one
/// above it counts.
pub proof fn closest_container_counts(
    nodes: Seq<SyntaxNodeView>,
    i: int,
    source: Seq<char>,
    k: int,
)
    requires
        0 <= i < nodes.len(),
        k > 0,
        above(nodes, i, k) is Some,
        ({
            let kind = nodes[above(nodes, i, k)->0].kind;
            kind == "impl_item"@ || kind == "class_declaration"@ || kind == "class"@
        }),
        forall|j: int|
            0 < j < k && #[trigger] above(nodes, i, j) is Some ==> {
                let kind = nodes[above(nodes, i, j)->0].kind;
                kind != "impl_item"@ && kind != "class_declaration"@ && kind != "class"@
            },
    ensures
        container_above(nodes, i, source) == container_name(
            nodes,
            above(nodes, i, k)->0,
            source,
        ),
    decreases k,
{
    parents_are_the_last_less_deep(nodes, i);
    reveal_with_fuel(above, 2);
    assert(above(nodes, i, 1) == parent_of(nodes, i));
    if k > 1 {
        above_from_parent(nodes, i, k);
        let p = parent_of(nodes, i)->0;
        assert(above(nodes, i, 1) is Some);
        assert forall|j: int| 0 < j < k - 1 && #[trigger] above(nodes, p, j) is Some implies {
            let kind = nodes[above(nodes, p, j)->0].kind;
            kind != "impl_item"@ && kind != "class_declaration"@ && kind != "class"@
        } by {
            above_from_parent(nodes, i, j + 1);
            assert(above(nodes, i, j + 1) is Some);
        }
        closest_container_counts(nodes, p, source, k - 1);
    }
}

/// What is found in the script of a component stands where the script stands in the file: on
/// lines further down by as many as stand above the script.
pub proof fn scripts_are_placed_in_their_file(s: SymbolView, rows: int)
    requires
        0 <= rows,
        s.range_start + rows <= u32::MAX,
        s.range_end + rows <= u32::MAX,
    ensures
        shifted(s, rows).range_start == s.range_start + rows,
        shifted(s, rows).range_end == s.range_end + rows,
        shifted(s, rows).language == "svelte"@,
        shifted(s, rows).name == s.name && shifted(s, rows).kind == s.kind && shifted(s, rows).file
            == s.file && shifted(s, rows).stable_id == s.stable_id && shifted(s, rows).signature
            == s.signature && shifted(s, rows).content_hash == s.content_hash,
{
}

/// A file of a known language gives the symbols and the calls that its own syntax tree holds,
/// all of them in that file.
pub proof fn files_give_their_own_symbols(path: Seq<char>, source: Seq<char>, l: Language)
    requires
        language_of_file(path) == Some(l),
        l != Language::Svelte,
        query_asks(query_of(l)),
        syntax_tree(language_name(l), source) is Some,
        query_hits(language_name(l), query_of(l), source) is Some,
    ensures
        ({
            let tree = syntax_tree(language_name(l), source)->0;
            let hits = query_hits(language_name(l), query_of(l), source)->0;
            let n = hits.len() as int;
            parse_outcome(path, source) matches Ok(p) && p.symbols == symbols_in(
                tree,
                hits,
                source,
                path,
                language_name(l),
                n,
            ) && p.edges == edges_in(tree, hits, source, path, n) && p.file_doc == file_doc_of(
                source,
                l,
            )
        }),
{
}

/// The documentation at the start of a Rust file is the run of inner comments there: each line
/// up to the first without the mark, and none behind it.
pub proof fn inner_docs_run_to_the_first_other_line(all: Seq<Seq<char>>, i: int, n: int)
    requires
        0 <= i <= n <= all.len(),
    ensures
        inner_docs(all, i, n).len() <= n - i,
        forall|k: int|
            0 <= k < inner_docs(all, i, n).len() ==> is_inner_doc(
                all[i + k],
                #[trigger] inner_docs(all, i, n)[k],
            ),
        i + inner_docs(all, i, n).len() < n ==> !begins_with(
            trimmed_start(all[i + inner_docs(all, i, n).len()]),
            "//!"@,
        ),
    decreases n - i,
{
    if i < n {
        inner_docs_run_to_the_first_other_line(all, i, n - 1);
        let before = inner_docs(all, i, n - 1);
        let docs = inner_docs(all, i, n);
        let line = trimmed_start(all[n - 1]);
        if before.len() == n - 1 - i && begins_with(line, "//!"@) {
            let doc = trimmed_of(trimmed_of(line, "//!"@), " "@);
            assert(docs == before.push(doc));
            assert(is_inner_doc(all[n - 1], doc));
            assert(i + before.len() == n - 1);
        } else {
            assert(docs == before);
        }
    }
}

/// The line is an inner comment that says the text, but for blanks in front of it.
pub open spec fn is_inner_doc(line: Seq<char>, text: Seq<char>) -> bool {
    begins_with(trimmed_start(line), "//!"@) && text == trimmed_of(
        trimmed_of(trimmed_start(line), "//!"@),
        " "@,
    )
}

/// A Rust file is documented by the inner comments that start at its first line that is not
/// blank; without any it is not.
pub proof fn rust_files_are_documented_at_the_start(source: Seq<char>, i: int)
    requires
        0 <= i <= line_seq(source).len(),
        forall|k: int| 0 <= k < i ==> trimmed(#[trigger] line_seq(source)[k]).len() == 0,
        i < line_seq(source).len() ==> trimmed(line_seq(source)[i]).len() > 0,
    ensures
        ({
            let docs = inner_docs(line_seq(source), i, line_seq(source).len() as int);
            &&& docs.len() == 0 ==> rust_file_doc(source) is None
            &&& docs.len() > 0 ==> rust_file_doc(source) == Some(joined(docs, "\n"@))
        }),
{
    first_filled_is_first(line_seq(source), 0, i);
}

proof fn first_filled_is_first(all: Seq<Seq<char>>, from: int, i: int)
    requires
        0 <= from <= i <= all.len(),
        forall|k: int| from <= k < i ==> trimmed(#[trigger] all[k]).len() == 0,
        i < all.len() ==> trimmed(all[i]).len() > 0,
    ensures
        first_filled(all, from) == i,
    decreases i - from,
{
    if from < i {
        assert(trimmed(all[from]).len() == 0);
        first_filled_is_first(all, from + 1, i);
    }
}

/// The lines of a block comment lose the stars in front of them and the blanks around them; the
/// empty ones are left out.
pub proof fn block_lines_lose_their_stars(all: Seq<Seq<char>>, n: int)
    requires
        0 <= n <= all.len(),
    ensures
        block_lines(all, n) == all.take(n).map_values(
            |l: Seq<char>| trimmed(trimmed_of(trimmed_start(l), "*"@)),
        ).filter(|l: Seq<char>| l.len() > 0),
    decreases n,
{
    reveal(Seq::filter);
    let bare = |l: Seq<char>| trimmed(trimmed_of(trimmed_start(l), "*"@));
    let all_bare = all.take(n).map_values(bare);
    if n > 0 {
        block_lines_lose_their_stars(all, n - 1);
        assert(all_bare.drop_last() =~= all.take(n - 1).map_values(bare));
        assert(all_bare.last() == bare(all[n - 1]));
    } else {
        assert(all_bare =~= Seq::empty());
    }
}

/// A script is documented by the block comment that it starts with, up to where that ends.
pub proof fn scripts_are_documented_at_the_start(body: Seq<char>, rest: Seq<char>)
    requires
        !has_str(body, "*/"@),
        body.len() > 0 ==> body[0] != '/',
    ensures
        ({
            let lines = line_seq(body);
            let docs = block_lines(lines, lines.len() as int);
            let doc = script_file_doc("/**"@ + body + "*/"@ + rest);
            &&& joined(docs, "\n"@).len() == 0 ==> doc is None
            &&& joined(docs, "\n"@).len() > 0 ==> doc == Some(joined(docs, "\n"@))
        }),
{
    reveal_strlit("/**");
    reveal_strlit("*/");
    let t = "/**"@ + body + "*/"@ + rest;
    let end = 3 + body.len() as int;
    assert(t[0] == '/');
    assert(trimmed_start(t) == t);
    assert(t.take(3) =~= "/**"@);
    find_from_is_least(t, "*/"@, 0);
    assert(t.subrange(end, end + 2) =~= "*/"@);
    assert(occurs_at(t, "*/"@, end));
    assert forall|j: int| 0 <= j < end implies !occurs_at(t, "*/"@, j) by {
        if occurs_at(t, "*/"@, j) {
            assert(t.subrange(j, j + 2)[0] == t[j] && t.subrange(j, j + 2)[1] == t[j + 1]);
            assert(t[j] == '*' && t[j + 1] == '/');
            if j >= 3 && j + 1 < end {
                assert(body.subrange(j - 3, j - 1) =~= t.subrange(j, j + 2));
                assert(occurs_at(body, "*/"@, j - 3));
            }
        }
    }
    assert(find_from(t, "*/"@, 0) == Some(end));
    assert(t.subrange(3, end) =~= body);
}

/// A component is documented by the first comment that is marked as its documentation, from
/// behind the mark to the end of the comment.
pub proof fn components_are_documented_in_a_comment(source: Seq<char>, start: int, end: int)
    requires
        find_from(source, "<!-- @component"@, 0) == Some(start),
        find_from(source.skip(start + "<!-- @component"@.len()), "-->"@, 0) == Some(end),
    ensures
        ({
            let rest = source.skip(start + "<!-- @component"@.len());
            let doc = trimmed(rest.take(end));
            &&& doc.len() > 0 ==> component_doc(source) == Some(doc)
            &&& doc.len() == 0 ==> component_doc(source) is None
        }),
{
    reveal_strlit("<!-- @component");
}

/// Without such a comment, or where it does not end, a component is not documented.
pub proof fn unmarked_components_are_not_documented(source: Seq<char>)
    ensures
        !has_str(source, "<!-- @component"@) ==> component_doc(source) is None,
        !has_str(source, "-->"@) ==> component_doc(source) is None,
{
    reveal_strlit("<!-- @component");
    reveal_strlit("-->");
    find_from_is_least(source, "<!-- @component"@, 0);
    if let Some(start) = find_from(source, "<!-- @component"@, 0) {
        let rest = source.skip(start + 15);
        find_from_is_least(rest, "-->"@, 0);
        if let Some(end) = find_from(rest, "-->"@, 0) {
            assert(source.subrange(start + 15 + end, start + 15 + end + 3) =~= rest.subrange(
                end,
                end + 3,
            ));
            assert(occurs_at(source, "-->"@, start + 15 + end));
        }
    }
}

proof fn raw_texts_are_texts(nodes: Seq<SyntaxNodeView>, at: Seq<int>, n: int, k: int)
    requires
        0 <= n <= at.len(),
    ensures
        raw_texts_among(nodes, at, n).contains(k) <==> nodes[k].kind == "raw_text"@ && at.take(
            n,
        ).contains(k),
    decreases n,
{
    if n > 0 {
        raw_texts_are_texts(nodes, at, n - 1, k);
        assert(at.take(n) =~= at.take(n - 1).push(at[n - 1]));
        crate::model::push_holds(at.take(n - 1), at[n - 1], k);
        crate::model::push_holds(raw_texts_among(nodes, at, n - 1), at[n - 1], k);
    }
}

/// The scripts of a component are the texts right below its script elements.
pub proof fn scripts_stand_in_script_elements(nodes: Seq<SyntaxNodeView>, n: int, k: int)
    requires
        0 <= n <= nodes.len(),
    ensures
        script_texts(nodes, n).contains(k) <==> nodes[k].kind == "raw_text"@ && exists|e: int|
            0 <= e < n && (#[trigger] nodes[e]).kind == "script_element"@ && children_of(
                nodes,
                e,
            ).contains(k),
    decreases n,
{
    if n > 0 {
        scripts_stand_in_script_elements(nodes, n - 1, k);
        let rest = script_texts(nodes, n - 1);
        if nodes[n - 1].kind == "script_element"@ {
            let at = children_of(nodes, n - 1);
            let more = raw_texts_among(nodes, at, at.len() as int);
            raw_texts_are_texts(nodes, at, at.len() as int, k);
            assert(at.take(at.len() as int) =~= at);
            assert((rest + more).contains(k) <==> rest.contains(k) || more.contains(k)) by {
                if rest.contains(k) {
                    let j = choose|j: int| 0 <= j < rest.len() && rest[j] == k;
                    assert((rest + more)[j] == k);
                }
                if more.contains(k) {
                    let j = choose|j: int| 0 <= j < more.len() && more[j] == k;
                    assert((rest + more)[rest.len() + j] == k);
                }
                if (rest + more).contains(k) {
                    let j = choose|j: int| 0 <= j < (rest + more).len() && (rest + more)[j] == k;
                    assert(j < rest.len() ==> rest[j] == k);
                    assert(j >= rest.len() ==> more[j - rest.len()] == k);
                }
            }
        }
    }
}

/// Lines are counted from 1.
pub proof fn rows_become_lines(row: int)
    ensures
        0 <= row < u32::MAX ==> line_number(row) == row + 1,
        row >= u32::MAX ==> line_number(row) == u32::MAX,
{
}

/// What identifies a symbol is its file, its kind, what it stands in, where it stands in
/// something, and its name.
pub proof fn symbols_are_identified(
    file: Seq<char>,
    kind: Seq<char>,
    container: Seq<char>,
    name: Seq<char>,
)
    ensures
        stable_id_of(file, kind, None, name) == joined(seq![plain_path(file), kind, name], "::"@),
        stable_id_of(file, kind, Some(container), name) == joined(
            seq![plain_path(file), kind, container, name],
            "::"@,
        ),
{
    let f = plain_path(file);
    let one = seq![f];
    let two = seq![f, kind];
    let three = seq![f, kind, name];
    let within = seq![f, kind, container];
    let four = seq![f, kind, container, name];
    assert(two.drop_last() =~= one);
    assert(three.drop_last() =~= two);
    assert(within.drop_last() =~= two);
    assert(four.drop_last() =~= within);
    assert(joined(one, "::"@) == f);
    assert(joined(two, "::"@) =~= f + "::"@ + kind);
    assert(joined(three, "::"@) =~= f + "::"@ + kind + "::"@ + name);
    assert(joined(within, "::"@) =~= f + "::"@ + kind + "::"@ + container);
    assert(joined(four, "::"@) =~= f + "::"@ + kind + "::"@ + container + "::"@ + name);
}

} // verus!
