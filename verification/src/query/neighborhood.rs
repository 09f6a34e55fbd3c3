//! What stands around a symbol: its neighbours, its dependents, and both as one context.

use vstd::prelude::*;

use crate::model::{views, Dup};
use crate::order::Ranked;
use crate::snippet::{
    call_site_text, read_call_sites, read_snippet, snippet_text, span_fits,
};
use crate::text::{
    bool_text, byte_len, byte_size, concat3, dec, i64_text, int_text, lex_before, lex_is_order,
    line_seq, str_eq, str_precedes, text_of_bool, usize_text,
};
use crate::window::{
    apply_window, capped, window_end, window_meta, window_start, OutputControl, WindowMeta,
};
use crate::xml::{
    all_are_held, close, count_tokens, empty, finish, goes_on_from, has_tag, new_writer, no_attrs,
    open, open_attrs, tags_stay, text_tag, tokens_of, with_close, with_empty, with_open, with_text,
    xml_events, xml_text, Attrs, Node, XmlWriter,
};

verus! {

broadcast use crate::model::group_views;

/// A note on a symbol. `confidence` is the rendered confidence.
#[derive(Debug)]
pub struct AnnotationRow {
    pub intent: Option<String>,
    pub behavior: Option<String>,
    pub tags: Option<String>,
    pub source: String,
    pub confidence: String,
    pub stale: bool,
}

/// What a [`AnnotationRow`] holds.
#[verifier::ext_equal]
pub struct AnnotationRowView {
    pub intent: Option<Seq<char>>,
    pub behavior: Option<Seq<char>>,
    pub tags: Option<Seq<char>>,
    pub source: Seq<char>,
    pub confidence: Seq<char>,
    pub stale: bool,
}

impl DeepView for AnnotationRow {
    type V = AnnotationRowView;

    open spec fn deep_view(&self) -> AnnotationRowView {
        AnnotationRowView {
            intent: self.intent.deep_view(),
            behavior: self.behavior.deep_view(),
            tags: self.tags.deep_view(),
            source: self.source.deep_view(),
            confidence: self.confidence.deep_view(),
            stale: self.stale.deep_view(),
        }
    }
}

impl View for AnnotationRow {
    type V = AnnotationRowView;

    open spec fn view(&self) -> AnnotationRowView {
        self.deep_view()
    }
}

/// A compiler finding on a symbol.
#[derive(Debug)]
pub struct NodeDiagnostic {
    pub code: String,
    pub level: String,
    pub message: String,
    pub suggestion: Option<String>,
}

/// What a [`NodeDiagnostic`] holds.
#[verifier::ext_equal]
pub struct NodeDiagnosticView {
    pub code: Seq<char>,
    pub level: Seq<char>,
    pub message: Seq<char>,
    pub suggestion: Option<Seq<char>>,
}

impl DeepView for NodeDiagnostic {
    type V = NodeDiagnosticView;

    open spec fn deep_view(&self) -> NodeDiagnosticView {
        NodeDiagnosticView {
            code: self.code.deep_view(),
            level: self.level.deep_view(),
            message: self.message.deep_view(),
            suggestion: self.suggestion.deep_view(),
        }
    }
}

impl View for NodeDiagnostic {
    type V = NodeDiagnosticView;

    open spec fn view(&self) -> NodeDiagnosticView {
        self.deep_view()
    }
}

/// A symbol with what is known of it. `role_confidence` is the rendered confidence in its
/// role, which `role_uncertain` says is low. `content` is the text of its file, where it
/// could be read.
#[derive(Debug)]
pub struct NodeRow {
    pub id: i64,
    pub name: String,
    pub kind: String,
    pub file: String,
    pub range_start: i64,
    pub range_end: i64,
    pub signature: Option<String>,
    pub visibility: String,
    pub doc: Option<String>,
    pub fan_in: i64,
    pub fan_out: i64,
    pub role: String,
    pub role_confidence: String,
    pub role_uncertain: bool,
    pub stable_id: String,
    pub content: Option<String>,
    pub annotation: Option<AnnotationRow>,
    pub diagnostics: Vec<NodeDiagnostic>,
}

/// What a [`NodeRow`] holds.
#[verifier::ext_equal]
pub struct NodeRowView {
    pub id: i64,
    pub name: Seq<char>,
    pub kind: Seq<char>,
    pub file: Seq<char>,
    pub range_start: i64,
    pub range_end: i64,
    pub signature: Option<Seq<char>>,
    pub visibility: Seq<char>,
    pub doc: Option<Seq<char>>,
    pub fan_in: i64,
    pub fan_out: i64,
    pub role: Seq<char>,
    pub role_confidence: Seq<char>,
    pub role_uncertain: bool,
    pub stable_id: Seq<char>,
    pub content: Option<Seq<char>>,
    pub annotation: Option<AnnotationRowView>,
    pub diagnostics: Seq<NodeDiagnosticView>,
}

impl DeepView for NodeRow {
    type V = NodeRowView;

    open spec fn deep_view(&self) -> NodeRowView {
        NodeRowView {
            id: self.id.deep_view(),
            name: self.name.deep_view(),
            kind: self.kind.deep_view(),
            file: self.file.deep_view(),
            range_start: self.range_start.deep_view(),
            range_end: self.range_end.deep_view(),
            signature: self.signature.deep_view(),
            visibility: self.visibility.deep_view(),
            doc: self.doc.deep_view(),
            fan_in: self.fan_in.deep_view(),
            fan_out: self.fan_out.deep_view(),
            role: self.role.deep_view(),
            role_confidence: self.role_confidence.deep_view(),
            role_uncertain: self.role_uncertain.deep_view(),
            stable_id: self.stable_id.deep_view(),
            content: self.content.deep_view(),
            annotation: self.annotation.deep_view(),
            diagnostics: views(self.diagnostics@),
        }
    }
}

impl View for NodeRow {
    type V = NodeRowView;

    open spec fn view(&self) -> NodeRowView {
        self.deep_view()
    }
}

/// A symbol at some distance from another, and the edge that leads to it directly, if any.
#[derive(Debug)]
pub struct NeighborRow {
    pub node: NodeRow,
    pub depth: i64,
    pub edge_type: Option<String>,
}

/// What a [`NeighborRow`] holds.
#[verifier::ext_equal]
pub struct NeighborRowView {
    pub node: NodeRowView,
    pub depth: i64,
    pub edge_type: Option<Seq<char>>,
}

impl DeepView for NeighborRow {
    type V = NeighborRowView;

    open spec fn deep_view(&self) -> NeighborRowView {
        NeighborRowView {
            node: self.node.deep_view(),
            depth: self.depth.deep_view(),
            edge_type: self.edge_type.deep_view(),
        }
    }
}

impl View for NeighborRow {
    type V = NeighborRowView;

    open spec fn view(&self) -> NeighborRowView {
        self.deep_view()
    }
}

impl Ranked for NeighborRow {
    /// Nearer symbols come first, then by name.
    open spec fn before(a: NeighborRowView, b: NeighborRowView) -> bool {
        if a.depth != b.depth {
            a.depth < b.depth
        } else {
            lex_before(a.node.name, b.node.name)
        }
    }

    fn precedes(&self, other: &NeighborRow) -> (r: bool) {
        if self.depth != other.depth {
            self.depth < other.depth
        } else {
            str_precedes(&self.node.name, &other.node.name)
        }
    }

    proof fn weak_order(a: NeighborRowView, b: NeighborRowView, c: NeighborRowView) {
        lex_is_order(a.node.name, b.node.name, c.node.name);
        lex_is_order(c.node.name, b.node.name, a.node.name);
        lex_is_order(b.node.name, a.node.name, c.node.name);
    }
}

/// An edge at a symbol.
#[derive(Debug)]
pub struct EdgeInfo {
    pub edge_type: String,
    pub from_id: i64,
    pub to_id: i64,
    pub from_name: String,
    pub to_name: String,
    pub source: String,
}

/// What a [`EdgeInfo`] holds.
#[verifier::ext_equal]
pub struct EdgeInfoView {
    pub edge_type: Seq<char>,
    pub from_id: i64,
    pub to_id: i64,
    pub from_name: Seq<char>,
    pub to_name: Seq<char>,
    pub source: Seq<char>,
}

impl DeepView for EdgeInfo {
    type V = EdgeInfoView;

    open spec fn deep_view(&self) -> EdgeInfoView {
        EdgeInfoView {
            edge_type: self.edge_type.deep_view(),
            from_id: self.from_id.deep_view(),
            to_id: self.to_id.deep_view(),
            from_name: self.from_name.deep_view(),
            to_name: self.to_name.deep_view(),
            source: self.source.deep_view(),
        }
    }
}

impl View for EdgeInfo {
    type V = EdgeInfoView;

    open spec fn view(&self) -> EdgeInfoView {
        self.deep_view()
    }
}

/// The lines of the symbol can be cut out of its file, where that could be read.
pub open spec fn lines_fit(n: NodeRowView) -> bool {
    n.content matches Some(c) ==> span_fits(
        line_seq(c).len() as int,
        n.range_start as int,
        n.range_end as int,
    )
}

/// The lines of all the symbols can be cut out of their files.
pub open spec fn all_lines_fit(rows: Seq<NeighborRowView>) -> bool {
    forall|i: int| 0 <= i < rows.len() ==> lines_fit((#[trigger] rows[i]).node)
}

// ---------------------------------------------------------------------------
// Costs and limits
// ---------------------------------------------------------------------------

/// The size of a text that may be missing.
pub open spec fn opt_size(o: Option<Seq<char>>) -> int {
    match o {
        Some(t) => byte_size(t) as int,
        None => 0,
    }
}

/// The size of a text that may be missing, 256 at most.
pub open spec fn opt_size_256(o: Option<Seq<char>>) -> int {
    if opt_size(o) < 256 {
        opt_size(o)
    } else {
        256
    }
}

/// A symbol's cost in tokens: a quarter of the bytes that it takes, at least 1.
pub open spec fn node_cost(n: NodeRowView) -> int {
    let bytes = byte_size(n.name) + byte_size(n.kind) + byte_size(n.file) + byte_size(n.visibility)
        + byte_size(n.role) + byte_size(n.stable_id) + 24 + opt_size(n.signature) + opt_size_256(
        n.doc,
    );
    let tokens = bytes / 4;
    if tokens < 1 {
        1
    } else {
        capped(tokens)
    }
}

/// A symbol's cost in tokens.
pub fn estimate_node_tokens(n: &NodeRow) -> (r: usize)
    ensures
        r == node_cost(n@),
{
    let mut bytes: u128 = byte_len(&n.name) as u128 + byte_len(&n.kind) as u128 + byte_len(&n.file)
        as u128 + byte_len(&n.visibility) as u128 + byte_len(&n.role) as u128 + byte_len(
        &n.stable_id,
    ) as u128 + 24;
    if let Some(sig) = &n.signature {
        bytes = bytes + byte_len(sig) as u128;
    }
    if let Some(doc) = &n.doc {
        let size: usize = byte_len(doc);
        bytes = bytes + if size < 256 {
            size as u128
        } else {
            256u128
        };
    }
    let tokens: u128 = bytes / 4;
    if tokens < 1 {
        1
    } else if tokens > usize::MAX as u128 {
        usize::MAX
    } else {
        tokens as usize
    }
}

/// The rows' costs in tokens.
pub open spec fn row_costs(rows: Seq<NeighborRowView>) -> Seq<usize> {
    Seq::new(rows.len(), |i: int| node_cost(rows[i].node) as usize)
}

fn costs_of(rows: &Vec<NeighborRow>) -> (r: Vec<usize>)
    ensures
        r@ == row_costs(views(rows@)),
{
    let mut out: Vec<usize> = Vec::new();
    let mut i: usize = 0;
    while i < rows.len()
        invariant
            i <= rows@.len(),
            out@ =~= row_costs(views(rows@)).take(i as int),
        decreases rows@.len() - i,
    {
        assert(views(rows@)[i as int] == rows@[i as int]@);
        out.push(estimate_node_tokens(&rows[i].node));
        i = i + 1;
    }
    assert(out@ =~= row_costs(views(rows@)));
    out
}

/// How far dependents are followed: as far as is asked for, or without a limit where 0 is. No
/// chain of calls is longer than the greatest number.
pub fn depth_limit(depth: usize) -> (r: i64)
    ensures
        r == if depth == 0 {
            i64::MAX
        } else {
            #[verifier::truncate]
            (depth as i64)
        },
{
    if depth == 0 {
        i64::MAX
    } else {
        #[verifier::truncate]
        (depth as i64)
    }
}

/// A symbol whose users are also found by its name in signatures and docs.
pub open spec fn type_kind(kind: Seq<char>) -> bool {
    kind == "struct"@ || kind == "enum"@ || kind == "type"@ || kind == "trait"@ || kind == "union"@
}

/// Whether the users of a symbol are also found by its name in signatures and docs.
pub fn includes_type_users(kind: &str) -> (r: bool)
    ensures
        r == type_kind(kind@),
{
    str_eq(kind, "struct") || str_eq(kind, "enum") || str_eq(kind, "type") || str_eq(kind, "trait")
        || str_eq(kind, "union")
}

/// A source that edges are trusted from.
pub open spec fn trusted(source: Seq<char>) -> bool {
    source == "resolver"@ || source == "rustdoc"@
}

/// Whether edges from the source are trusted.
pub fn is_trusted_source(source: &str) -> (r: bool)
    ensures
        r == trusted(source@),
{
    str_eq(source, "resolver") || str_eq(source, "rustdoc")
}

// ---------------------------------------------------------------------------
// Notes and findings
// ---------------------------------------------------------------------------

/// The document with a tag around the text, where there is one.
pub open spec fn opt_text_node(ev: Seq<Node>, tag: Seq<char>, text: Option<Seq<char>>) -> Seq<Node> {
    match text {
        Some(t) => with_text(ev, tag, t),
        None => ev,
    }
}

fn write_opt_text(w: &mut XmlWriter, tag: &str, text: &Option<String>)
    ensures
        xml_events(*final(w)) == opt_text_node(xml_events(*old(w)), tag@, text.deep_view()),
{
    if let Some(t) = text {
        text_tag(w, tag, t);
    }
}

/// The document with a note.
pub open spec fn annotation_nodes(ev: Seq<Node>, a: AnnotationRowView) -> Seq<Node> {
    let ev = with_open(
        ev,
        "annotation"@,
        no_attrs().push(("source"@, a.source)).push(("confidence"@, a.confidence)).push(
            ("stale"@, bool_text(a.stale)),
        ),
    );
    with_close(
        opt_text_node(
            opt_text_node(opt_text_node(ev, "intent"@, a.intent), "behavior"@, a.behavior),
            "tags"@,
            a.tags,
        ),
        "annotation"@,
    )
}

/// Write a note.
pub fn write_annotation_xml(w: &mut XmlWriter, ann: &AnnotationRow)
    ensures
        xml_events(*final(w)) == annotation_nodes(xml_events(*old(w)), ann@),
{
    open_attrs(
        w,
        "annotation",
        &Attrs::new().with("source", &ann.source).with("confidence", &ann.confidence).with(
            "stale",
            &text_of_bool(ann.stale),
        ),
    );
    write_opt_text(w, "intent", &ann.intent);
    write_opt_text(w, "behavior", &ann.behavior);
    write_opt_text(w, "tags", &ann.tags);
    close(w, "annotation");
}

/// The document with the first `n` compiler findings.
pub open spec fn diagnostic_nodes(ev: Seq<Node>, ds: Seq<NodeDiagnosticView>, n: int) -> Seq<Node>
    decreases n,
{
    if n <= 0 {
        ev
    } else {
        let d = ds[n - 1];
        let a = no_attrs().push(("code"@, d.code)).push(("level"@, d.level));
        let a = match d.suggestion {
            Some(s) => a.push(("suggestion"@, s)),
            None => a,
        };
        with_close(
            with_text(
                with_open(diagnostic_nodes(ev, ds, n - 1), "diagnostic"@, a),
                "message"@,
                d.message,
            ),
            "diagnostic"@,
        )
    }
}

/// The document with the compiler findings, where there are any.
pub open spec fn diagnostics_section(ev: Seq<Node>, ds: Seq<NodeDiagnosticView>) -> Seq<Node> {
    if ds.len() == 0 {
        ev
    } else {
        with_close(
            diagnostic_nodes(
                with_open(ev, "diagnostics"@, no_attrs().push(("count"@, dec(ds.len())))),
                ds,
                ds.len() as int,
            ),
            "diagnostics"@,
        )
    }
}

/// Write the compiler findings, where there are any.
pub fn write_diagnostics_xml(w: &mut XmlWriter, rows: &Vec<NodeDiagnostic>)
    ensures
        xml_events(*final(w)) == diagnostics_section(xml_events(*old(w)), views(rows@)),
{
    if rows.len() == 0 {
        return;
    }
    open_attrs(w, "diagnostics", &Attrs::new().with("count", &usize_text(rows.len())));
    let ghost ev = xml_events(*w);
    let mut i: usize = 0;
    while i < rows.len()
        invariant
            i <= rows@.len(),
            xml_events(*w) == diagnostic_nodes(ev, views(rows@), i as int),
        decreases rows@.len() - i,
    {
        let d = &rows[i];
        assert(views(rows@)[i as int] == d@);
        let mut a = Attrs::new().with("code", &d.code).with("level", &d.level);
        if let Some(s) = &d.suggestion {
            a = a.with("suggestion", s);
        }
        open_attrs(w, "diagnostic", &a);
        text_tag(w, "message", &d.message);
        close(w, "diagnostic");
        i = i + 1;
    }
    close(w, "diagnostics");
}

// ---------------------------------------------------------------------------
// Symbols
// ---------------------------------------------------------------------------

/// The attributes that every symbol has.
pub open spec fn node_attrs(n: NodeRowView) -> Seq<(Seq<char>, Seq<char>)> {
    let a = no_attrs()
        .push(("id"@, int_text(n.id as int)))
        .push(("stable_id"@, n.stable_id))
        .push(("name"@, n.name))
        .push(("kind"@, n.kind))
        .push(("file"@, n.file))
        .push(("range"@, range_text(n.range_start as int, n.range_end as int)))
        .push(("visibility"@, n.visibility))
        .push(("fan_in"@, int_text(n.fan_in as int)))
        .push(("fan_out"@, int_text(n.fan_out as int)))
        .push(("role"@, n.role))
        .push(("role_confidence"@, n.role_confidence));
    if n.role_uncertain {
        a.push(("role_uncertain"@, "true"@))
    } else {
        a
    }
}

/// A range of lines (`L3-L9`).
pub open spec fn range_text(first: int, last: int) -> Seq<char> {
    "L"@ + int_text(first) + "-L"@ + int_text(last)
}

fn range_of(first: i64, last: i64) -> (r: String)
    ensures
        r@ == range_text(first as int, last as int),
{
    let mut s = concat3("L", &i64_text(first), "-L");
    s.append(&i64_text(last));
    s
}

fn attrs_of(n: &NodeRow) -> (r: Attrs)
    ensures
        r@ == node_attrs(n@),
{
    let a = Attrs::new().with("id", &i64_text(n.id)).with("stable_id", &n.stable_id).with(
        "name",
        &n.name,
    ).with("kind", &n.kind).with("file", &n.file).with(
        "range",
        &range_of(n.range_start, n.range_end),
    ).with("visibility", &n.visibility).with("fan_in", &i64_text(n.fan_in)).with(
        "fan_out",
        &i64_text(n.fan_out),
    ).with("role", &n.role).with("role_confidence", &n.role_confidence);
    if n.role_uncertain {
        a.with("role_uncertain", "true")
    } else {
        a
    }
}

/// The doc, unless it is empty.
pub open spec fn real_doc(doc: Option<Seq<char>>) -> Option<Seq<char>> {
    match doc {
        Some(d) => if d.len() == 0 {
            None
        } else {
            Some(d)
        },
        None => None,
    }
}

fn non_empty(doc: &Option<String>) -> (r: Option<String>)
    ensures
        r.deep_view() == real_doc(doc.deep_view()),
{
    match doc {
        Some(d) => if d.as_str().is_empty() {
            None
        } else {
            Some(d.dup())
        },
        None => None,
    }
}

/// The snippet of the symbol's own lines, where its file could be read.
pub open spec fn own_snippet(n: NodeRowView, max: Option<usize>) -> Option<Seq<char>> {
    match n.content {
        Some(c) => Some(
            snippet_text(line_seq(c), n.range_start as int, n.range_end as int, max),
        ),
        None => None,
    }
}

fn snippet_of(n: &NodeRow, max: Option<usize>) -> (r: Option<String>)
    requires
        lines_fit(n@),
    ensures
        r.deep_view() == own_snippet(n@, max),
{
    match &n.content {
        Some(c) => Some(read_snippet(c, n.range_start, n.range_end, max)),
        None => None,
    }
}

/// The lines around the places where the symbol names the target.
pub open spec fn use_snippet(n: NodeRowView, target: Seq<char>, max: Option<usize>) -> Option<
    Seq<char>,
> {
    match n.content {
        Some(c) => call_site_text(
            line_seq(c),
            n.range_start as int,
            n.range_end as int,
            target,
            max,
        ),
        None => None,
    }
}

fn use_snippet_of(n: &NodeRow, target: &str, max: Option<usize>) -> (r: Option<String>)
    requires
        lines_fit(n@),
    ensures
        r.deep_view() == use_snippet(n@, target@, max),
{
    match &n.content {
        Some(c) => read_call_sites(c, n.range_start, n.range_end, target, max),
        None => None,
    }
}

/// The document with the note, where there is one.
pub open spec fn opt_annotation_nodes(ev: Seq<Node>, a: Option<AnnotationRowView>) -> Seq<Node> {
    match a {
        Some(x) => annotation_nodes(ev, x),
        None => ev,
    }
}

/// The document with the symbol in focus: its attributes and, unless the document is
/// compact, its signature, doc, note, compiler findings and snippet.
pub open spec fn focus_nodes(
    ev: Seq<Node>,
    n: NodeRowView,
    show_snippet: bool,
    max: Option<usize>,
    compact: bool,
) -> Seq<Node> {
    let ev = with_open(with_open(ev, "focus"@, no_attrs()), "node"@, node_attrs(n));
    let ev = if compact {
        ev
    } else {
        let ev = opt_text_node(
            opt_text_node(ev, "signature"@, n.signature),
            "doc"@,
            real_doc(n.doc),
        );
        let ev = diagnostics_section(opt_annotation_nodes(ev, n.annotation), n.diagnostics);
        opt_text_node(
            ev,
            "snippet"@,
            if show_snippet {
                own_snippet(n, max)
            } else {
                None
            },
        )
    };
    with_close(with_close(ev, "node"@), "focus"@)
}

fn write_focus(
    w: &mut XmlWriter,
    n: &NodeRow,
    show_snippet: bool,
    max: Option<usize>,
    compact: bool,
)
    requires
        show_snippet && !compact ==> lines_fit(n@),
    ensures
        xml_events(*final(w)) == focus_nodes(xml_events(*old(w)), n@, show_snippet, max, compact),
{
    open(w, "focus");
    open_attrs(w, "node", &attrs_of(n));
    if !compact {
        write_opt_text(w, "signature", &n.signature);
        write_opt_text(w, "doc", &non_empty(&n.doc));
        if let Some(a) = &n.annotation {
            write_annotation_xml(w, a);
        }
        write_diagnostics_xml(w, &n.diagnostics);
        let snippet = if show_snippet {
            snippet_of(n, max)
        } else {
            None
        };
        write_opt_text(w, "snippet", &snippet);
    }
    close(w, "node");
    close(w, "focus");
}

/// The attributes of a neighbour: those of every symbol, the edge that leads to it, and its
/// signature unless the document is compact.
pub open spec fn neighbor_attrs(r: NeighborRowView, compact: bool) -> Seq<(Seq<char>, Seq<char>)> {
    let a = node_attrs(r.node);
    let a = match r.edge_type {
        Some(t) => a.push(("edge_type"@, t)),
        None => a,
    };
    match r.node.signature {
        Some(s) => if compact {
            a
        } else {
            a.push(("signature"@, s))
        },
        None => a,
    }
}

/// The document with a neighbour and, unless it is compact, its doc, note and snippet.
pub open spec fn neighbor_nodes(
    ev: Seq<Node>,
    r: NeighborRowView,
    snippet: Option<Seq<char>>,
    compact: bool,
) -> Seq<Node> {
    let a = neighbor_attrs(r, compact);
    let doc = real_doc(r.node.doc);
    if compact || (doc is None && snippet is None && r.node.annotation is None) {
        with_empty(ev, "node"@, a)
    } else {
        let ev = opt_text_node(with_open(ev, "node"@, a), "doc"@, doc);
        with_close(
            opt_text_node(opt_annotation_nodes(ev, r.node.annotation), "snippet"@, snippet),
            "node"@,
        )
    }
}

fn write_neighbor(w: &mut XmlWriter, r: &NeighborRow, snippet: &Option<String>, compact: bool)
    ensures
        xml_events(*final(w)) == neighbor_nodes(
            xml_events(*old(w)),
            r@,
            snippet.deep_view(),
            compact,
        ),
{
    let n = &r.node;
    let mut a = attrs_of(n);
    if let Some(t) = &r.edge_type {
        a = a.with("edge_type", t);
    }
    if !compact {
        if let Some(s) = &n.signature {
            a = a.with("signature", s);
        }
    }
    let doc = non_empty(&n.doc);
    if compact || (doc.is_none() && snippet.is_none() && n.annotation.is_none()) {
        empty(w, "node", &a);
    } else {
        open_attrs(w, "node", &a);
        write_opt_text(w, "doc", &doc);
        if let Some(x) = &n.annotation {
            write_annotation_xml(w, x);
        }
        write_opt_text(w, "snippet", snippet);
        close(w, "node");
    }
}

/// Which snippets neighbours are shown with.
pub enum SnippetMode {
    /// Their own lines, at most so many.
    Own(Option<usize>),
    /// The lines around the places where they name the symbol, at most so many.
    Uses(Seq<char>, Option<usize>),
}

/// Which snippets neighbours are shown with.
pub enum Snippets {
    /// Their own lines, at most so many.
    Own(Option<usize>),
    /// The lines around the places where they name the symbol, at most so many.
    Uses(String, Option<usize>),
}

impl Snippets {
    pub open spec fn view(&self) -> SnippetMode {
        match self {
            Snippets::Own(max) => SnippetMode::Own(*max),
            Snippets::Uses(name, max) => SnippetMode::Uses(name@, *max),
        }
    }
}

/// The snippet that a neighbour is shown with; none in a compact document, or where none
/// are asked for.
pub open spec fn shown_snippet(
    r: NeighborRowView,
    snippets: bool,
    how: SnippetMode,
    compact: bool,
) -> Option<Seq<char>> {
    if snippets && !compact {
        match how {
            SnippetMode::Own(max) => own_snippet(r.node, max),
            SnippetMode::Uses(name, max) => use_snippet(r.node, name, max),
        }
    } else {
        None
    }
}

/// The greatest depth of the first `n` rows; 0 where there are none.
pub open spec fn deepest(rows: Seq<NeighborRowView>, n: int) -> int
    decreases n,
{
    if n <= 0 {
        0
    } else {
        let d = deepest(rows, n - 1);
        if n == 1 || rows[n - 1].depth > d {
            rows[n - 1].depth as int
        } else {
            d
        }
    }
}

fn deepest_of(rows: &Vec<NeighborRow>) -> (r: i64)
    ensures
        r == deepest(views(rows@), rows@.len() as int),
{
    let mut d: i64 = 0;
    let mut i: usize = 0;
    while i < rows.len()
        invariant
            i <= rows@.len(),
            d == deepest(views(rows@), i as int),
        decreases rows@.len() - i,
    {
        assert(views(rows@)[i as int] == rows@[i as int]@);
        if i == 0 || rows[i].depth > d {
            d = rows[i].depth;
        }
        i = i + 1;
    }
    d
}

/// The document with those of the first `n` rows that stand at the depth.
pub open spec fn depth_members(
    ev: Seq<Node>,
    rows: Seq<NeighborRowView>,
    depth: int,
    snippets: bool,
    how: SnippetMode,
    compact: bool,
    n: int,
) -> Seq<Node>
    decreases n,
{
    if n <= 0 {
        ev
    } else {
        let ev = depth_members(ev, rows, depth, snippets, how, compact, n - 1);
        let r = rows[n - 1];
        if r.depth == depth {
            neighbor_nodes(ev, r, shown_snippet(r, snippets, how, compact), compact)
        } else {
            ev
        }
    }
}

/// The document with the rows up to the depth, grouped by depth.
pub open spec fn depth_nodes(
    ev: Seq<Node>,
    tag: Seq<char>,
    rows: Seq<NeighborRowView>,
    snippets: bool,
    how: SnippetMode,
    compact: bool,
    depth: int,
) -> Seq<Node>
    decreases depth,
{
    if depth <= 0 {
        ev
    } else {
        let ev = with_open(
            depth_nodes(ev, tag, rows, snippets, how, compact, depth - 1),
            tag,
            no_attrs().push(("depth"@, int_text(depth))),
        );
        with_close(
            depth_members(ev, rows, depth, snippets, how, compact, rows.len() as int),
            tag,
        )
    }
}

fn write_depths(
    w: &mut XmlWriter,
    tag: &str,
    rows: &Vec<NeighborRow>,
    snippets: bool,
    how: &Snippets,
    compact: bool,
)
    requires
        snippets && !compact ==> all_lines_fit(views(rows@)),
    ensures
        xml_events(*final(w)) == depth_nodes(
            xml_events(*old(w)),
            tag@,
            views(rows@),
            snippets,
            how@,
            compact,
            deepest(views(rows@), rows@.len() as int),
        ),
{
    let last: i64 = deepest_of(rows);
    let ghost ev = xml_events(*w);
    if last <= 0 {
        return;
    }
    let mut d: i64 = 0;
    while d < last
        invariant
            0 <= d <= last,
            snippets && !compact ==> all_lines_fit(views(rows@)),
            xml_events(*w) == depth_nodes(ev, tag@, views(rows@), snippets, how@, compact, d as int),
        decreases last - d,
    {
        d = d + 1;
        open_attrs(w, tag, &Attrs::new().with("depth", &i64_text(d)));
        let ghost start = xml_events(*w);
        let mut i: usize = 0;
        while i < rows.len()
            invariant
                i <= rows@.len(),
                snippets && !compact ==> all_lines_fit(views(rows@)),
                xml_events(*w) == depth_members(
                    start,
                    views(rows@),
                    d as int,
                    snippets,
                    how@,
                    compact,
                    i as int,
                ),
            decreases rows@.len() - i,
        {
            let r = &rows[i];
            assert(views(rows@)[i as int] == r@);
            if r.depth == d {
                let snippet = if snippets && !compact {
                    match how {
                        Snippets::Own(max) => snippet_of(&r.node, *max),
                        Snippets::Uses(name, max) => use_snippet_of(&r.node, name, *max),
                    }
                } else {
                    None
                };
                write_neighbor(w, r, &snippet, compact);
            }
            i = i + 1;
        }
        close(w, tag);
    }
}

// ---------------------------------------------------------------------------
// Documents
// ---------------------------------------------------------------------------

/// The attributes with what the window shows behind them.
pub open spec fn with_meta(a: Seq<(Seq<char>, Seq<char>)>, m: WindowMeta, compact: bool) -> Seq<
    (Seq<char>, Seq<char>),
> {
    let a = if compact {
        a.push(("compact"@, "true"@))
    } else {
        a
    };
    let a = a
        .push(("total_items"@, dec(m.total_items as nat)))
        .push(("offset"@, dec(m.offset as nat)))
        .push(("shown_items"@, dec(m.shown_items as nat)))
        .push(("truncated"@, bool_text(m.truncated)));
    let a = match m.next_offset {
        Some(n) => a.push(("next_offset"@, dec(n as nat))),
        None => a,
    };
    let a = match m.budget_lines {
        Some(n) => a.push(("budget_lines"@, dec(n as nat))),
        None => a,
    };
    match m.budget_tokens {
        Some(n) => a.push(("budget_tokens"@, dec(n as nat))),
        None => a,
    }
}

fn add_meta(a: Attrs, m: WindowMeta, compact: bool) -> (r: Attrs)
    ensures
        r@ == with_meta(a@, m, compact),
{
    let a = if compact {
        a.with("compact", "true")
    } else {
        a
    };
    let a = a.with("total_items", &usize_text(m.total_items)).with(
        "offset",
        &usize_text(m.offset),
    ).with("shown_items", &usize_text(m.shown_items)).with(
        "truncated",
        &text_of_bool(m.truncated),
    );
    let a = match m.next_offset {
        Some(n) => a.with("next_offset", &usize_text(n)),
        None => a,
    };
    let a = match m.budget_lines {
        Some(n) => a.with("budget_lines", &usize_text(n)),
        None => a,
    };
    match m.budget_tokens {
        Some(n) => a.with("budget_tokens", &usize_text(n)),
        None => a,
    }
}

/// How symbols are shown.
#[derive(Clone, Copy, Debug)]
pub struct Display {
    pub snippets: bool,
    pub show_focus_snippet: bool,
    pub max_snippet_lines: Option<usize>,
    pub compact: bool,
}

/// The lines that a document shows, of the symbol in focus and of the rows, can be cut out of
/// their files. A document without snippets shows none.
pub open spec fn shown_lines_fit(
    focus: NodeRowView,
    rows: Seq<NeighborRowView>,
    d: Display,
) -> bool {
    d.compact || ((d.show_focus_snippet ==> lines_fit(focus)) && (d.snippets ==> all_lines_fit(
        rows,
    )))
}

/// The document on the neighbours in the window, with the tokens that it takes by itself.
pub open spec fn graph_nodes(
    ev: Seq<Node>,
    focus: NodeRowView,
    rows: Seq<NeighborRowView>,
    edge_count: int,
    m: WindowMeta,
    d: Display,
) -> Seq<Node> {
    graph_events(
        ev,
        focus,
        rows,
        edge_count,
        m,
        d,
        tokens_of(graph_events(Seq::empty(), focus, rows, edge_count, m, d, ""@)),
    )
}

/// The document on the neighbours in the window, where it takes so many tokens.
pub open spec fn graph_events(
    ev: Seq<Node>,
    focus: NodeRowView,
    rows: Seq<NeighborRowView>,
    edge_count: int,
    m: WindowMeta,
    d: Display,
    tokens: Seq<char>,
) -> Seq<Node> {
    let ev = with_open(
        ev,
        "graph"@,
        with_meta(
            no_attrs()
                .push(("root_id"@, int_text(focus.id as int)))
                .push(("tokens"@, tokens))
                .push(("nodes"@, dec(1 + rows.len())))
                .push(("edges"@, int_text(edge_count))),
            m,
            d.compact,
        ),
    );
    let ev = focus_nodes(ev, focus, d.show_focus_snippet, d.max_snippet_lines, d.compact);
    with_close(
        depth_nodes(
            ev,
            "neighbors"@,
            rows,
            d.snippets,
            SnippetMode::Own(d.max_snippet_lines),
            d.compact,
            deepest(rows, rows.len() as int),
        ),
        "graph"@,
    )
}

/// Write the document on the neighbours in the window.
pub fn write_graph_xml(
    w: &mut XmlWriter,
    focus: &NodeRow,
    neighbors: &Vec<NeighborRow>,
    edge_count: i64,
    meta: WindowMeta,
    d: Display,
)
    requires
        shown_lines_fit(focus@, views(neighbors@), d),
    ensures
        xml_events(*final(w)) == graph_nodes(
            xml_events(*old(w)),
            focus@,
            views(neighbors@),
            edge_count as int,
            meta,
            d,
        ),
{
    let mut uncounted = new_writer();
    write_graph(&mut uncounted, focus, neighbors, edge_count, meta, d, "");
    let tokens = count_tokens(&finish(uncounted));
    write_graph(w, focus, neighbors, edge_count, meta, d, &tokens);
}

fn write_graph(
    w: &mut XmlWriter,
    focus: &NodeRow,
    neighbors: &Vec<NeighborRow>,
    edge_count: i64,
    meta: WindowMeta,
    d: Display,
    tokens: &str,
)
    requires
        shown_lines_fit(focus@, views(neighbors@), d),
    ensures
        xml_events(*final(w)) == graph_events(
            xml_events(*old(w)),
            focus@,
            views(neighbors@),
            edge_count as int,
            meta,
            d,
            tokens@,
        ),
{
    let nodes = crate::text::successor_text(neighbors.len());
    open_attrs(
        w,
        "graph",
        &add_meta(
            Attrs::new().with("root_id", &i64_text(focus.id)).with("tokens", tokens).with(
                "nodes",
                &nodes,
            ).with("edges", &i64_text(edge_count)),
            meta,
            d.compact,
        ),
    );
    write_focus(w, focus, d.show_focus_snippet, d.max_snippet_lines, d.compact);
    write_depths(
        w,
        "neighbors",
        neighbors,
        d.snippets,
        &Snippets::Own(d.max_snippet_lines),
        d.compact,
    );
    close(w, "graph");
}

/// The document on the dependents in the window, with the tokens that it takes by itself.
pub open spec fn blast_nodes(
    ev: Seq<Node>,
    focus: NodeRowView,
    rows: Seq<NeighborRowView>,
    m: WindowMeta,
    d: Display,
) -> Seq<Node> {
    blast_events(
        ev,
        focus,
        rows,
        m,
        d,
        tokens_of(blast_events(Seq::empty(), focus, rows, m, d, ""@)),
    )
}

/// The document on the dependents in the window, where it takes so many tokens.
pub open spec fn blast_events(
    ev: Seq<Node>,
    focus: NodeRowView,
    rows: Seq<NeighborRowView>,
    m: WindowMeta,
    d: Display,
    tokens: Seq<char>,
) -> Seq<Node> {
    let ev = with_open(
        ev,
        "blast_radius"@,
        with_meta(
            no_attrs()
                .push(("root_id"@, int_text(focus.id as int)))
                .push(("root_name"@, focus.name))
                .push(("tokens"@, tokens))
                .push(("dependent_count"@, dec(rows.len()))),
            m,
            d.compact,
        ),
    );
    let ev = focus_nodes(ev, focus, d.show_focus_snippet, d.max_snippet_lines, d.compact);
    with_close(
        depth_nodes(
            ev,
            "dependents"@,
            rows,
            d.snippets,
            SnippetMode::Uses(focus.name, d.max_snippet_lines),
            d.compact,
            deepest(rows, rows.len() as int),
        ),
        "blast_radius"@,
    )
}

/// Write the document on the dependents in the window.
pub fn write_blast_radius_xml(
    w: &mut XmlWriter,
    focus: &NodeRow,
    dependents: &Vec<NeighborRow>,
    meta: WindowMeta,
    d: Display,
)
    requires
        shown_lines_fit(focus@, views(dependents@), d),
    ensures
        xml_events(*final(w)) == blast_nodes(
            xml_events(*old(w)),
            focus@,
            views(dependents@),
            meta,
            d,
        ),
{
    let mut uncounted = new_writer();
    write_blast_radius(&mut uncounted, focus, dependents, meta, d, "");
    let tokens = count_tokens(&finish(uncounted));
    write_blast_radius(w, focus, dependents, meta, d, &tokens);
}

fn write_blast_radius(
    w: &mut XmlWriter,
    focus: &NodeRow,
    dependents: &Vec<NeighborRow>,
    meta: WindowMeta,
    d: Display,
    tokens: &str,
)
    requires
        shown_lines_fit(focus@, views(dependents@), d),
    ensures
        xml_events(*final(w)) == blast_events(
            xml_events(*old(w)),
            focus@,
            views(dependents@),
            meta,
            d,
            tokens@,
        ),
{
    open_attrs(
        w,
        "blast_radius",
        &add_meta(
            Attrs::new().with("root_id", &i64_text(focus.id)).with("root_name", &focus.name).with(
                "tokens",
                tokens,
            ).with("dependent_count", &usize_text(dependents.len())),
            meta,
            d.compact,
        ),
    );
    write_focus(w, focus, d.show_focus_snippet, d.max_snippet_lines, d.compact);
    write_depths(
        w,
        "dependents",
        dependents,
        d.snippets,
        &Snippets::Uses(focus.name.dup(), d.max_snippet_lines),
        d.compact,
    );
    close(w, "blast_radius");
}

/// The rows in the window that the budgets let through.
pub open spec fn windowed(rows: Seq<NeighborRowView>, c: OutputControl) -> Seq<NeighborRowView> {
    let costs = row_costs(rows);
    rows.subrange(
        window_start(costs.len() as int, c.offset as int),
        window_end(costs, c.offset as int, c.budget_lines, c.budget_tokens),
    )
}

/// What the window shows of the rows.
pub open spec fn meta_of(rows: Seq<NeighborRowView>, c: OutputControl) -> WindowMeta {
    window_meta(row_costs(rows), c.offset as int, c.budget_lines, c.budget_tokens)
}

fn take_window(rows: Vec<NeighborRow>, c: OutputControl) -> (r: (Vec<NeighborRow>, WindowMeta))
    ensures
        views(r.0@) == windowed(views(rows@), c),
        r.1 == meta_of(views(rows@), c),
{
    let costs = costs_of(&rows);
    let (start, end, meta) = apply_window(&costs, c.offset, c.budget_lines, c.budget_tokens);
    let ghost rv = views(rows@);
    assert(rv.len() == rows@.len());
    let mut rest = rows;
    let mut out = rest.split_off(start);
    let ghost tail = out@;
    out.truncate(end - start);
    assert(views(out@) =~= rv.subrange(start as int, end as int));
    (out, meta)
}

/// The document on what stands around a symbol.
pub open spec fn neighborhood_document(
    ev: Seq<Node>,
    focus: NodeRowView,
    rows: Seq<NeighborRowView>,
    edge_count: int,
    d: Display,
    c: OutputControl,
) -> Seq<Node> {
    graph_nodes(ev, focus, windowed(rows, c), edge_count, meta_of(rows, c), d)
}

/// The document on what depends on a symbol.
pub open spec fn dependents_document(
    ev: Seq<Node>,
    focus: NodeRowView,
    rows: Seq<NeighborRowView>,
    d: Display,
    c: OutputControl,
) -> Seq<Node> {
    blast_nodes(ev, focus, windowed(rows, c), meta_of(rows, c), d)
}

/// The first `n` edges that come from a trusted source, or that do not.
pub open spec fn edges_by_trust(edges: Seq<EdgeInfoView>, trust: bool, n: int) -> Seq<EdgeInfoView>
    decreases n,
{
    if n <= 0 {
        Seq::empty()
    } else {
        let rest = edges_by_trust(edges, trust, n - 1);
        if trusted(edges[n - 1].source) == trust {
            rest.push(edges[n - 1])
        } else {
            rest
        }
    }
}

/// Every edge is on one side: trusted or not.
pub proof fn trust_splits_edges(edges: Seq<EdgeInfoView>, n: int)
    requires
        0 <= n <= edges.len(),
    ensures
        edges_by_trust(edges, true, n).len() + edges_by_trust(edges, false, n).len() == n,
    decreases n,
{
    if n > 0 {
        trust_splits_edges(edges, n - 1);
    }
}

/// The document with the edge.
pub open spec fn edge_node(ev: Seq<Node>, e: EdgeInfoView) -> Seq<Node> {
    with_empty(
        ev,
        "edge"@,
        no_attrs()
            .push(("type"@, e.edge_type))
            .push(("from_id"@, int_text(e.from_id as int)))
            .push(("to_id"@, int_text(e.to_id as int)))
            .push(("from_name"@, e.from_name))
            .push(("to_name"@, e.to_name))
            .push(("source"@, e.source)),
    )
}

/// The document with the first `n` edges.
pub open spec fn edge_nodes(ev: Seq<Node>, edges: Seq<EdgeInfoView>, n: int) -> Seq<Node>
    decreases n,
{
    if n <= 0 {
        ev
    } else {
        edge_node(edge_nodes(ev, edges, n - 1), edges[n - 1])
    }
}

/// The document with a section of edges, where there are any.
pub open spec fn edge_section(
    ev: Seq<Node>,
    tag: Seq<char>,
    confidence: Seq<char>,
    edges: Seq<EdgeInfoView>,
) -> Seq<Node> {
    if edges.len() == 0 {
        ev
    } else {
        with_close(
            edge_nodes(
                with_open(ev, tag, no_attrs().push(("confidence"@, confidence))),
                edges,
                edges.len() as int,
            ),
            tag,
        )
    }
}

/// The document on the edges at a symbol, parted by trust, with the tokens that it takes.
pub open spec fn trust_document(focus: NodeRowView, edges: Seq<EdgeInfoView>) -> Seq<Node> {
    trust_nodes(focus, edges, tokens_of(trust_nodes(focus, edges, ""@)))
}

/// The document on the edges at a symbol, parted by trust, where it takes so many tokens.
pub open spec fn trust_nodes(
    focus: NodeRowView,
    edges: Seq<EdgeInfoView>,
    tokens: Seq<char>,
) -> Seq<Node> {
    let n = edges.len() as int;
    let sure = edges_by_trust(edges, true, n);
    let syntax = edges_by_trust(edges, false, n);
    let ev = with_open(
        Seq::empty(),
        "graph"@,
        no_attrs()
            .push(("root_id"@, int_text(focus.id as int)))
            .push(("tokens"@, tokens))
            .push(("trusted_edges"@, dec(sure.len())))
            .push(("syntax_edges"@, dec(syntax.len()))),
    );
    let ev = with_open(
        with_open(ev, "focus"@, no_attrs()),
        "node"@,
        no_attrs()
            .push(("id"@, int_text(focus.id as int)))
            .push(("name"@, focus.name))
            .push(("kind"@, focus.kind))
            .push(("file"@, focus.file))
            .push(("range"@, range_text(focus.range_start as int, focus.range_end as int))),
    );
    let ev = opt_text_node(
        opt_text_node(ev, "signature"@, focus.signature),
        "snippet"@,
        own_snippet(focus, None),
    );
    let ev = with_close(with_close(ev, "node"@), "focus"@);
    let ev = edge_section(ev, "trusted_edges"@, "1.0"@, sure);
    let ev = edge_section(ev, "syntax_edges"@, "0.8"@, syntax);
    with_close(ev, "graph"@)
}

fn count_by_trust(edges: &Vec<EdgeInfo>, trust: bool) -> (r: usize)
    ensures
        r == edges_by_trust(views(edges@), trust, edges@.len() as int).len(),
{
    let mut count: usize = 0;
    let mut i: usize = 0;
    while i < edges.len()
        invariant
            count <= i <= edges@.len(),
            count == edges_by_trust(views(edges@), trust, i as int).len(),
        decreases edges@.len() - i,
    {
        assert(views(edges@)[i as int] == edges@[i as int]@);
        if is_trusted_source(&edges[i].source) == trust {
            count = count + 1;
        }
        i = i + 1;
    }
    count
}

/// Writing the edges of one side one by one is writing them all.
proof fn edges_in_turn(ev: Seq<Node>, edges: Seq<EdgeInfoView>, trust: bool, n: int)
    requires
        0 <= n < edges.len(),
    ensures
        ({
            let before = edges_by_trust(edges, trust, n);
            let after = edges_by_trust(edges, trust, n + 1);
            edge_nodes(ev, after, after.len() as int) == if trusted(edges[n].source) == trust {
                edge_node(edge_nodes(ev, before, before.len() as int), edges[n])
            } else {
                edge_nodes(ev, before, before.len() as int)
            }
        }),
{
    let before = edges_by_trust(edges, trust, n);
    if trusted(edges[n].source) == trust {
        edge_nodes_prefix(ev, before, edges[n], before.len() as int);
    }
}

proof fn edge_nodes_prefix(ev: Seq<Node>, edges: Seq<EdgeInfoView>, e: EdgeInfoView, n: int)
    requires
        0 <= n <= edges.len(),
    ensures
        edge_nodes(ev, edges.push(e), n) == edge_nodes(ev, edges, n),
    decreases n,
{
    if n > 0 {
        edge_nodes_prefix(ev, edges, e, n - 1);
    }
}

fn write_edge_section(
    w: &mut XmlWriter,
    tag: &str,
    confidence: &str,
    edges: &Vec<EdgeInfo>,
    trust: bool,
)
    ensures
        xml_events(*final(w)) == edge_section(
            xml_events(*old(w)),
            tag@,
            confidence@,
            edges_by_trust(views(edges@), trust, edges@.len() as int),
        ),
{
    if count_by_trust(edges, trust) == 0 {
        return;
    }
    open_attrs(w, tag, &Attrs::new().with("confidence", confidence));
    let ghost ev = xml_events(*w);
    let mut i: usize = 0;
    while i < edges.len()
        invariant
            i <= edges@.len(),
            ({
                let s = edges_by_trust(views(edges@), trust, i as int);
                xml_events(*w) == edge_nodes(ev, s, s.len() as int)
            }),
        decreases edges@.len() - i,
    {
        let e = &edges[i];
        assert(views(edges@)[i as int] == e@);
        proof {
            edges_in_turn(ev, views(edges@), trust, i as int);
        }
        if is_trusted_source(&e.source) == trust {
            empty(
                w,
                "edge",
                &Attrs::new().with("type", &e.edge_type).with("from_id", &i64_text(e.from_id)).with(
                    "to_id",
                    &i64_text(e.to_id),
                ).with("from_name", &e.from_name).with("to_name", &e.to_name).with(
                    "source",
                    &e.source,
                ),
            );
        }
        i = i + 1;
    }
    close(w, tag);
}

/// Show the edges at a symbol, parted by trust.
pub fn print_xml_trust_split(focus: &NodeRow, edges: &Vec<EdgeInfo>) -> (document: String)
    requires
        lines_fit(focus@),
    ensures
        document@ == xml_text(trust_document(focus@, views(edges@))),
{
    let uncounted = write_trust_split(focus, edges, "");
    write_trust_split(focus, edges, &count_tokens(&uncounted))
}

fn write_trust_split(focus: &NodeRow, edges: &Vec<EdgeInfo>, tokens: &str) -> (document: String)
    requires
        lines_fit(focus@),
    ensures
        document@ == xml_text(trust_nodes(focus@, views(edges@), tokens@)),
{
    let mut w = new_writer();
    open_attrs(
        &mut w,
        "graph",
        &Attrs::new().with("root_id", &i64_text(focus.id)).with("tokens", tokens).with(
            "trusted_edges",
            &usize_text(count_by_trust(edges, true)),
        ).with("syntax_edges", &usize_text(count_by_trust(edges, false))),
    );
    open(&mut w, "focus");
    open_attrs(
        &mut w,
        "node",
        &Attrs::new().with("id", &i64_text(focus.id)).with("name", &focus.name).with(
            "kind",
            &focus.kind,
        ).with("file", &focus.file).with("range", &range_of(focus.range_start, focus.range_end)),
    );
    write_opt_text(&mut w, "signature", &focus.signature);
    let snippet = snippet_of(focus, None);
    write_opt_text(&mut w, "snippet", &snippet);
    close(&mut w, "node");
    close(&mut w, "focus");
    write_edge_section(&mut w, "trusted_edges", "1.0", edges, true);
    write_edge_section(&mut w, "syntax_edges", "0.8", edges, false);
    close(&mut w, "graph");
    finish(w)
}

// ---------------------------------------------------------------------------
// Commands
// ---------------------------------------------------------------------------

/// What is known of a symbol for the graph command.
pub struct GraphInput {
    pub focus: NodeRow,
    pub neighbors: Vec<NeighborRow>,
    pub edge_count: i64,
    pub edges: Vec<EdgeInfo>,
}

/// What is known of a symbol for the blast radius command.
pub struct BlastInput {
    pub focus: NodeRow,
    pub dependents: Vec<NeighborRow>,
    pub type_users: i64,
}

/// What is known of a symbol for the context command.
pub struct ContextInput {
    pub focus: NodeRow,
    pub neighbors: Vec<NeighborRow>,
    pub edge_count: i64,
    pub dependents: Vec<NeighborRow>,
}

/// The answer of a command on several symbols: the documents one behind the other, between
/// an opening tag that counts them and its closing tag. One symbol gives its document
/// alone, and none gives nothing.
pub open spec fn wrapped(tag: Seq<char>, docs: Seq<Seq<char>>) -> Seq<char> {
    if docs.len() == 0 {
        Seq::empty()
    } else if docs.len() == 1 {
        docs[0]
    } else {
        xml_text(
            with_open(Seq::empty(), tag, no_attrs().push(("count"@, dec(docs.len())))),
        ) + run_together(docs, docs.len() as int) + xml_text(with_close(Seq::empty(), tag))
    }
}

/// The first `n` texts one behind the other.
pub open spec fn run_together(docs: Seq<Seq<char>>, n: int) -> Seq<char>
    decreases n,
{
    if n <= 0 {
        Seq::empty()
    } else {
        run_together(docs, n - 1) + docs[n - 1]
    }
}

fn write_wrapper_start(tag: &str, count: usize) -> (r: String)
    ensures
        r@ == xml_text(with_open(Seq::empty(), tag@, no_attrs().push(("count"@, dec(count as nat))))),
{
    let mut w = new_writer();
    open_attrs(&mut w, tag, &Attrs::new().with("count", &usize_text(count)));
    finish(w)
}

fn write_wrapper_end(tag: &str) -> (r: String)
    ensures
        r@ == xml_text(with_close(Seq::empty(), tag@)),
{
    let mut w = new_writer();
    close(&mut w, tag);
    finish(w)
}

fn wrap(tag: &str, docs: Vec<String>) -> (r: String)
    ensures
        r@ == wrapped(tag@, views(docs@)),
{
    let n: usize = docs.len();
    assert(views(docs@).len() == n);
    if n == 0 {
        return String::new();
    }
    if n == 1 {
        assert(views(docs@)[0] == docs@[0]@);
        return docs[0].dup();
    }
    let mut body = String::new();
    let mut i: usize = 0;
    while i < n
        invariant
            n == docs@.len(),
            i <= n,
            body@ == run_together(views(docs@), i as int),
        decreases n - i,
    {
        assert(views(docs@)[i as int] == docs@[i as int]@);
        body.append(&docs[i]);
        i = i + 1;
    }
    let mut r = write_wrapper_start(tag, n);
    r.append(&body);
    r.append(&write_wrapper_end(tag));
    r
}

/// How a symbol is shown by the graph and blast radius commands.
pub open spec fn plain_display(snippets: bool, max: Option<usize>, compact: bool) -> Display {
    Display { snippets, show_focus_snippet: snippets, max_snippet_lines: max, compact }
}

/// The document that the graph command shows on one symbol.
pub open spec fn graph_text(
    i: GraphInput,
    show_trust: bool,
    snippets: bool,
    max: Option<usize>,
    c: OutputControl,
) -> Seq<char> {
    if show_trust {
        xml_text(trust_document(i.focus@, views(i.edges@)))
    } else {
        xml_text(
            neighborhood_document(
                Seq::empty(),
                i.focus@,
                views(i.neighbors@),
                i.edge_count as int,
                plain_display(snippets, max, c.compact),
                c,
            ),
        )
    }
}

/// The lines that a graph command shows can be cut out of their files.
pub open spec fn graph_input_fits(
    i: GraphInput,
    show_trust: bool,
    snippets: bool,
    c: OutputControl,
) -> bool {
    if show_trust {
        lines_fit(i.focus@)
    } else {
        shown_lines_fit(
            i.focus@,
            windowed(views(i.neighbors@), c),
            plain_display(snippets, None, c.compact),
        )
    }
}

fn graph_one(
    i: GraphInput,
    show_trust: bool,
    snippets: bool,
    max_snippet_lines: Option<usize>,
    control: OutputControl,
) -> (document: String)
    requires
        graph_input_fits(i, show_trust, snippets, control),
    ensures
        document@ == graph_text(i, show_trust, snippets, max_snippet_lines, control),
{
    if show_trust {
        return print_xml_trust_split(&i.focus, &i.edges);
    }
    let d = Display {
        snippets,
        show_focus_snippet: snippets,
        max_snippet_lines,
        compact: control.compact,
    };
    let (rows, meta) = take_window(i.neighbors, control);
    let mut w = new_writer();
    write_graph_xml(&mut w, &i.focus, &rows, i.edge_count, meta, d);
    finish(w)
}

/// Show what stands around symbols, or the edges at them parted by trust.
pub fn graph(
    symbols: Vec<GraphInput>,
    show_trust: bool,
    snippets: bool,
    max_snippet_lines: Option<usize>,
    control: OutputControl,
) -> (r: String)
    requires
        forall|k: int|
            0 <= k < symbols@.len() ==> graph_input_fits(
                #[trigger] symbols@[k],
                show_trust,
                snippets,
                control,
            ),
    ensures
        r@ == wrapped(
            "graphs"@,
            Seq::new(
                symbols@.len(),
                |k: int| graph_text(symbols@[k], show_trust, snippets, max_snippet_lines, control),
            ),
        ),
{
    let ghost all = Seq::new(
        symbols@.len(),
        |k: int| graph_text(symbols@[k], show_trust, snippets, max_snippet_lines, control),
    );
    let ghost given = symbols@;
    let mut docs: Vec<String> = Vec::new();
    for i in it: symbols
        invariant
            it.seq() == given,
            all.len() == given.len(),
            forall|k: int|
                0 <= k < given.len() ==> graph_input_fits(
                    #[trigger] given[k],
                    show_trust,
                    snippets,
                    control,
                ),
            forall|k: int|
                0 <= k < given.len() ==> #[trigger] all[k] == graph_text(
                    given[k],
                    show_trust,
                    snippets,
                    max_snippet_lines,
                    control,
                ),
            views(docs@) =~= all.take(it.index() as int),
    {
        assert(i == given[it.index() as int]);
        docs.push(graph_one(i, show_trust, snippets, max_snippet_lines, control));
    }
    assert(views(docs@) =~= all);
    wrap("graphs", docs)
}

/// The symbol with the users of its name counted among the symbols that depend on it.
pub open spec fn with_type_users(n: NodeRowView, users: int) -> NodeRowView {
    NodeRowView {
        fan_in: if type_kind(n.kind) {
            (n.fan_in + users) as i64
        } else {
            n.fan_in
        },
        ..n
    }
}

/// The document that the blast radius command shows on one symbol.
pub open spec fn blast_text(
    i: BlastInput,
    snippets: bool,
    max: Option<usize>,
    c: OutputControl,
) -> Seq<char> {
    xml_text(
        dependents_document(
            Seq::empty(),
            with_type_users(i.focus@, i.type_users as int),
            views(i.dependents@),
            plain_display(snippets, max, c.compact),
            c,
        ),
    )
}

/// The lines that a blast radius command shows can be cut out of their files, and the users
/// can be counted.
pub open spec fn blast_input_fits(i: BlastInput, snippets: bool, c: OutputControl) -> bool {
    shown_lines_fit(
        i.focus@,
        windowed(views(i.dependents@), c),
        plain_display(snippets, None, c.compact),
    ) && (type_kind(i.focus.kind@) ==> i64::MIN <= i.focus.fan_in + i.type_users <= i64::MAX)
}

fn blast_radius_one(
    i: BlastInput,
    snippets: bool,
    max_snippet_lines: Option<usize>,
    control: OutputControl,
) -> (document: String)
    requires
        blast_input_fits(i, snippets, control),
    ensures
        document@ == blast_text(i, snippets, max_snippet_lines, control),
{
    let d = Display {
        snippets,
        show_focus_snippet: snippets,
        max_snippet_lines,
        compact: control.compact,
    };
    let mut focus = i.focus;
    if includes_type_users(&focus.kind) {
        focus.fan_in = focus.fan_in + i.type_users;
    }
    assert(focus@ == with_type_users(i.focus@, i.type_users as int));
    let (rows, meta) = take_window(i.dependents, control);
    let mut w = new_writer();
    write_blast_radius_xml(&mut w, &focus, &rows, meta, d);
    finish(w)
}

/// Show what depends on symbols.
pub fn blast_radius(
    symbols: Vec<BlastInput>,
    snippets: bool,
    max_snippet_lines: Option<usize>,
    control: OutputControl,
) -> (r: String)
    requires
        forall|k: int|
            0 <= k < symbols@.len() ==> blast_input_fits(
                #[trigger] symbols@[k],
                snippets,
                control,
            ),
    ensures
        r@ == wrapped(
            "blast_radii"@,
            Seq::new(
                symbols@.len(),
                |k: int| blast_text(symbols@[k], snippets, max_snippet_lines, control),
            ),
        ),
{
    let ghost all = Seq::new(
        symbols@.len(),
        |k: int| blast_text(symbols@[k], snippets, max_snippet_lines, control),
    );
    let ghost given = symbols@;
    let mut docs: Vec<String> = Vec::new();
    for i in it: symbols
        invariant
            it.seq() == given,
            all.len() == given.len(),
            forall|k: int|
                0 <= k < given.len() ==> blast_input_fits(#[trigger] given[k], snippets, control),
            forall|k: int|
                0 <= k < given.len() ==> #[trigger] all[k] == blast_text(
                    given[k],
                    snippets,
                    max_snippet_lines,
                    control,
                ),
            views(docs@) =~= all.take(it.index() as int),
    {
        assert(i == given[it.index() as int]);
        docs.push(blast_radius_one(i, snippets, max_snippet_lines, control));
    }
    assert(views(docs@) =~= all);
    wrap("blast_radii", docs)
}

/// How far the context command looks, and what it shows. Where a symbol is to be edited, it
/// looks one step each way and shows no snippets.
#[derive(Clone, Copy, Debug)]
pub struct ContextPlan {
    pub snippets: bool,
    pub depth: usize,
    pub blast_depth: usize,
    pub show_focus_snippet: bool,
}

/// The plan of the context command.
pub open spec fn plan_of(snippets: bool, depth: usize, blast_depth: usize, edit_mode: bool) -> ContextPlan {
    if edit_mode {
        ContextPlan { snippets: false, depth: 1, blast_depth: 1, show_focus_snippet: false }
    } else {
        ContextPlan { snippets, depth, blast_depth, show_focus_snippet: snippets }
    }
}

/// Decide how far the context command looks, and what it shows.
pub fn context_plan(snippets: bool, depth: usize, blast_depth: usize, edit_mode: bool) -> (r:
    ContextPlan)
    ensures
        r == plan_of(snippets, depth, blast_depth, edit_mode),
{
    if edit_mode {
        ContextPlan { snippets: false, depth: 1, blast_depth: 1, show_focus_snippet: false }
    } else {
        ContextPlan { snippets, depth, blast_depth, show_focus_snippet: snippets }
    }
}

/// How the context command shows symbols.
pub open spec fn context_display(p: ContextPlan, max: Option<usize>, compact: bool) -> Display {
    Display {
        snippets: p.snippets,
        show_focus_snippet: p.show_focus_snippet,
        max_snippet_lines: max,
        compact,
    }
}

/// The opening tag of the document that the context command shows.
pub open spec fn context_head(focus: NodeRowView, tokens: Seq<char>) -> Seq<Node> {
    with_open(
        Seq::empty(),
        "context"@,
        no_attrs()
            .push(("symbol"@, focus.name))
            .push(("root_id"@, int_text(focus.id as int)))
            .push(("total_tokens"@, tokens)),
    )
}

/// The document that the context command shows on one symbol: what stands around it, then
/// what depends on it, with the tokens that it takes.
pub open spec fn context_document(
    i: ContextInput,
    p: ContextPlan,
    max: Option<usize>,
    c: OutputControl,
) -> Seq<Node> {
    context_nodes(i, p, max, c, tokens_of(context_nodes(i, p, max, c, ""@)))
}

/// The document that the context command shows on one symbol, where it takes so many tokens.
pub open spec fn context_nodes(
    i: ContextInput,
    p: ContextPlan,
    max: Option<usize>,
    c: OutputControl,
    tokens: Seq<char>,
) -> Seq<Node> {
    let d = context_display(p, max, c.compact);
    let ev = context_head(i.focus@, tokens);
    let ev = neighborhood_document(
        ev,
        i.focus@,
        views(i.neighbors@),
        i.edge_count as int,
        d,
        c,
    );
    with_close(dependents_document(ev, i.focus@, views(i.dependents@), d, c), "context"@)
}

/// The lines that a context command shows can be cut out of their files.
pub open spec fn context_input_fits(i: ContextInput, p: ContextPlan, c: OutputControl) -> bool {
    let d = context_display(p, None, c.compact);
    shown_lines_fit(i.focus@, windowed(views(i.neighbors@), c), d) && shown_lines_fit(
        i.focus@,
        windowed(views(i.dependents@), c),
        d,
    )
}

fn context_one(
    i: ContextInput,
    p: ContextPlan,
    max_snippet_lines: Option<usize>,
    control: OutputControl,
) -> (document: String)
    requires
        context_input_fits(i, p, control),
    ensures
        document@ == xml_text(context_document(i, p, max_snippet_lines, control)),
{
    let d = Display {
        snippets: p.snippets,
        show_focus_snippet: p.show_focus_snippet,
        max_snippet_lines,
        compact: control.compact,
    };
    let around = take_window(i.neighbors, control);
    let above = take_window(i.dependents, control);
    let uncounted = write_context(&i.focus, i.edge_count, &around, &above, d, "");
    let tokens = count_tokens(&uncounted);
    write_context(&i.focus, i.edge_count, &around, &above, d, &tokens)
}

fn write_context(
    focus: &NodeRow,
    edge_count: i64,
    around: &(Vec<NeighborRow>, WindowMeta),
    above: &(Vec<NeighborRow>, WindowMeta),
    d: Display,
    tokens: &str,
) -> (document: String)
    requires
        shown_lines_fit(focus@, views(around.0@), d),
        shown_lines_fit(focus@, views(above.0@), d),
    ensures
        document@ == xml_text(
            with_close(
                blast_nodes(
                    graph_nodes(
                        context_head(focus@, tokens@),
                        focus@,
                        views(around.0@),
                        edge_count as int,
                        around.1,
                        d,
                    ),
                    focus@,
                    views(above.0@),
                    above.1,
                    d,
                ),
                "context"@,
            ),
        ),
{
    let mut w = new_writer();
    open_attrs(
        &mut w,
        "context",
        &Attrs::new().with("symbol", &focus.name).with("root_id", &i64_text(focus.id)).with(
            "total_tokens",
            tokens,
        ),
    );
    write_graph_xml(&mut w, focus, &around.0, edge_count, around.1, d);
    write_blast_radius_xml(&mut w, focus, &above.0, above.1, d);
    close(&mut w, "context");
    finish(w)
}

/// Show the contexts of symbols: what stands around them and what depends on them.
pub fn context(
    symbols: Vec<ContextInput>,
    plan: ContextPlan,
    max_snippet_lines: Option<usize>,
    control: OutputControl,
) -> (r: String)
    requires
        forall|k: int|
            0 <= k < symbols@.len() ==> context_input_fits(#[trigger] symbols@[k], plan, control),
    ensures
        r@ == wrapped(
            "contexts"@,
            Seq::new(
                symbols@.len(),
                |k: int| xml_text(context_document(symbols@[k], plan, max_snippet_lines, control)),
            ),
        ),
{
    let ghost all = Seq::new(
        symbols@.len(),
        |k: int| xml_text(context_document(symbols@[k], plan, max_snippet_lines, control)),
    );
    let ghost given = symbols@;
    let mut docs: Vec<String> = Vec::new();
    for i in it: symbols
        invariant
            it.seq() == given,
            all.len() == given.len(),
            forall|k: int|
                0 <= k < given.len() ==> context_input_fits(#[trigger] given[k], plan, control),
            forall|k: int|
                0 <= k < given.len() ==> #[trigger] all[k] == xml_text(
                    context_document(given[k], plan, max_snippet_lines, control),
                ),
            views(docs@) =~= all.take(it.index() as int),
    {
        assert(i == given[it.index() as int]);
        docs.push(context_one(i, plan, max_snippet_lines, control));
    }
    assert(views(docs@) =~= all);
    wrap("contexts", docs)
}

// ---------------------------------------------------------------------------
// Compact documents
// ---------------------------------------------------------------------------

/// A compact document does not depend on docs, signatures, notes, findings or files: two
/// symbols that agree in everything else are shown alike.
pub proof fn compact_leaves_details_out(
    ev: Seq<Node>,
    a: NodeRowView,
    b: NodeRowView,
    show_snippet: bool,
    max: Option<usize>,
)
    requires
        node_attrs(a) == node_attrs(b),
    ensures
        focus_nodes(ev, a, show_snippet, max, true) == focus_nodes(ev, b, show_snippet, max, true),
        focus_nodes(ev, a, show_snippet, max, true) == with_close(
            with_close(
                with_open(with_open(ev, "focus"@, no_attrs()), "node"@, node_attrs(a)),
                "node"@,
            ),
            "focus"@,
        ),
{
}

/// In a compact document every neighbour is one empty tag.
pub proof fn compact_neighbors_are_empty_tags(
    ev: Seq<Node>,
    r: NeighborRowView,
    snippet: Option<Seq<char>>,
)
    ensures
        neighbor_nodes(ev, r, snippet, true) == with_empty(ev, "node"@, neighbor_attrs(r, true)),
{
}

// ---------------------------------------------------------------------------
// What documents show
// ---------------------------------------------------------------------------

/// The attributes tell of the symbol: what it is, where it stands and how it is connected.
pub open spec fn tells_of(a: Seq<(Seq<char>, Seq<char>)>, n: NodeRowView) -> bool {
    &&& a.contains(("id"@, int_text(n.id as int)))
    &&& a.contains(("stable_id"@, n.stable_id))
    &&& a.contains(("name"@, n.name))
    &&& a.contains(("kind"@, n.kind))
    &&& a.contains(("file"@, n.file))
    &&& a.contains(
        ("range"@, "L"@ + int_text(n.range_start as int) + "-L"@ + int_text(n.range_end as int)),
    )
    &&& a.contains(("visibility"@, n.visibility))
    &&& a.contains(("fan_in"@, int_text(n.fan_in as int)))
    &&& a.contains(("fan_out"@, int_text(n.fan_out as int)))
    &&& a.contains(("role"@, n.role))
    &&& a.contains(("role_confidence"@, n.role_confidence))
    &&& n.role_uncertain ==> a.contains(("role_uncertain"@, "true"@))
}

proof fn symbols_are_told(n: NodeRowView)
    ensures
        tells_of(node_attrs(n), n),
        node_attrs(n).len() >= 11,
{
    let a = node_attrs(n);
    assert(a[0] == ("id"@, int_text(n.id as int)));
    assert(a[1] == ("stable_id"@, n.stable_id));
    assert(a[2] == ("name"@, n.name));
    assert(a[3] == ("kind"@, n.kind));
    assert(a[4] == ("file"@, n.file));
    assert(a[5] == ("range"@, range_text(n.range_start as int, n.range_end as int)));
    assert(a[6] == ("visibility"@, n.visibility));
    assert(a[7] == ("fan_in"@, int_text(n.fan_in as int)));
    assert(a[8] == ("fan_out"@, int_text(n.fan_out as int)));
    assert(a[9] == ("role"@, n.role));
    assert(a[10] == ("role_confidence"@, n.role_confidence));
    if n.role_uncertain {
        assert(a[11] == ("role_uncertain"@, "true"@));
    }
}

proof fn neighbours_are_told(r: NeighborRowView, compact: bool)
    ensures
        tells_of(neighbor_attrs(r, compact), r.node),
        r.edge_type is Some ==> neighbor_attrs(r, compact).contains(
            ("edge_type"@, r.edge_type->0),
        ),
        !compact && r.node.signature is Some ==> neighbor_attrs(r, compact).contains(
            ("signature"@, r.node.signature->0),
        ),
{
    symbols_are_told(r.node);
    let a = node_attrs(r.node);
    let b = match r.edge_type {
        Some(t) => a.push(("edge_type"@, t)),
        None => a,
    };
    let c = neighbor_attrs(r, compact);
    assert forall|x: (Seq<char>, Seq<char>)| #[trigger] a.contains(x) implies c.contains(x) by {
        let i = choose|i: int| 0 <= i < a.len() && a[i] == x;
        assert(c[i] == x);
    }
    if r.edge_type is Some {
        assert(c[a.len() as int] == ("edge_type"@, r.edge_type->0));
    }
    if !compact && r.node.signature is Some {
        assert(c[b.len() as int] == ("signature"@, r.node.signature->0));
    }
}

proof fn annotations_extend(ev: Seq<Node>, a: Option<AnnotationRowView>)
    ensures
        goes_on_from(ev, opt_annotation_nodes(ev, a)),
{
}

proof fn diagnostics_extend(ev: Seq<Node>, ds: Seq<NodeDiagnosticView>, n: int)
    ensures
        goes_on_from(ev, diagnostic_nodes(ev, ds, n)),
    decreases n,
{
    if n > 0 {
        diagnostics_extend(ev, ds, n - 1);
    }
}

proof fn focus_extends(
    ev: Seq<Node>,
    n: NodeRowView,
    show_snippet: bool,
    max: Option<usize>,
    compact: bool,
)
    ensures
        goes_on_from(
            with_open(with_open(ev, "focus"@, no_attrs()), "node"@, node_attrs(n)),
            focus_nodes(ev, n, show_snippet, max, compact),
        ),
        !compact && n.signature is Some ==> focus_nodes(
            ev,
            n,
            show_snippet,
            max,
            compact,
        ).contains(Node::Text(n.signature->0)),
        !compact && show_snippet && own_snippet(n, max) is Some ==> focus_nodes(
            ev,
            n,
            show_snippet,
            max,
            compact,
        ).contains(Node::Text(own_snippet(n, max)->0)),
{
    if !compact {
        let e0 = with_open(with_open(ev, "focus"@, no_attrs()), "node"@, node_attrs(n));
        let e1 = opt_text_node(e0, "signature"@, n.signature);
        let e2 = opt_text_node(e1, "doc"@, real_doc(n.doc));
        let e3 = opt_annotation_nodes(e2, n.annotation);
        annotations_extend(e2, n.annotation);
        let head = with_open(e3, "diagnostics"@, no_attrs().push(("count"@, dec(n.diagnostics.len()))));
        diagnostics_extend(head, n.diagnostics, n.diagnostics.len() as int);
        let e4 = diagnostics_section(e3, n.diagnostics);
        assert(goes_on_from(e3, e4));
        let shown = if show_snippet {
            own_snippet(n, max)
        } else {
            None
        };
        let e5 = opt_text_node(e4, "snippet"@, shown);
        let all = focus_nodes(ev, n, show_snippet, max, compact);
        assert(goes_on_from(e5, all));
        if n.signature is Some {
            assert(e1[e0.len() as int + 1] == Node::Text(n.signature->0));
            assert(all[e0.len() as int + 1] == Node::Text(n.signature->0));
        }
        if shown is Some {
            assert(e5[e4.len() as int + 1] == Node::Text(shown->0));
            assert(all[e4.len() as int + 1] == Node::Text(shown->0));
        }
    }
}

/// The symbol is shown: some tag for a symbol tells of it.
pub open spec fn shows(ev: Seq<Node>, n: NodeRowView) -> bool {
    exists|k: int|
        0 <= k < ev.len() && match #[trigger] ev[k] {
            Node::Start(tag, a) => tag == "node"@ && tells_of(a, n),
            Node::Empty(tag, a) => tag == "node"@ && tells_of(a, n),
            _ => false,
        }
}

proof fn shown_stays(a: Seq<Node>, b: Seq<Node>, n: NodeRowView)
    requires
        goes_on_from(a, b),
        shows(a, n),
    ensures
        shows(b, n),
{
    let k = choose|k: int|
        0 <= k < a.len() && match #[trigger] a[k] {
            Node::Start(tag, x) => tag == "node"@ && tells_of(x, n),
            Node::Empty(tag, x) => tag == "node"@ && tells_of(x, n),
            _ => false,
        };
    assert(b[k] == a[k]);
}

proof fn neighbour_is_shown(
    ev: Seq<Node>,
    r: NeighborRowView,
    snippet: Option<Seq<char>>,
    compact: bool,
)
    ensures
        goes_on_from(ev, neighbor_nodes(ev, r, snippet, compact)),
        shows(neighbor_nodes(ev, r, snippet, compact), r.node),
        !compact && snippet is Some ==> neighbor_nodes(ev, r, snippet, compact).contains(
            Node::Text(snippet->0),
        ),
{
    neighbours_are_told(r, compact);
    let all = neighbor_nodes(ev, r, snippet, compact);
    let a = neighbor_attrs(r, compact);
    let doc = real_doc(r.node.doc);
    if compact || (doc is None && snippet is None && r.node.annotation is None) {
        assert(all[ev.len() as int] == Node::Empty("node"@, a));
    } else {
        let e1 = opt_text_node(with_open(ev, "node"@, a), "doc"@, doc);
        let e2 = opt_annotation_nodes(e1, r.node.annotation);
        annotations_extend(e1, r.node.annotation);
        let e3 = opt_text_node(e2, "snippet"@, snippet);
        assert(e1[ev.len() as int] == Node::Start("node"@, a));
        assert(all[ev.len() as int] == Node::Start("node"@, a));
        if snippet is Some {
            assert(e3[e2.len() as int + 1] == Node::Text(snippet->0));
            assert(all[e2.len() as int + 1] == Node::Text(snippet->0));
        }
    }
}

proof fn members_are_shown(
    ev: Seq<Node>,
    rows: Seq<NeighborRowView>,
    depth: int,
    snippets: bool,
    how: SnippetMode,
    compact: bool,
    n: int,
    i: int,
)
    requires
        0 <= n <= rows.len(),
    ensures
        goes_on_from(ev, depth_members(ev, rows, depth, snippets, how, compact, n)),
        0 <= i < n && rows[i].depth == depth ==> shows(
            depth_members(ev, rows, depth, snippets, how, compact, n),
            rows[i].node,
        ) && (shown_snippet(rows[i], snippets, how, compact) is Some ==> depth_members(
            ev,
            rows,
            depth,
            snippets,
            how,
            compact,
            n,
        ).contains(Node::Text(shown_snippet(rows[i], snippets, how, compact)->0))),
    decreases n,
{
    if n > 0 {
        members_are_shown(ev, rows, depth, snippets, how, compact, n - 1, i);
        let before = depth_members(ev, rows, depth, snippets, how, compact, n - 1);
        let all = depth_members(ev, rows, depth, snippets, how, compact, n);
        let r = rows[n - 1];
        neighbour_is_shown(before, r, shown_snippet(r, snippets, how, compact), compact);
        assert(goes_on_from(before, all));
        if 0 <= i < n - 1 && rows[i].depth == depth {
            shown_stays(before, all, rows[i].node);
            if let Some(t) = shown_snippet(rows[i], snippets, how, compact) {
                let k = choose|k: int| 0 <= k < before.len() && before[k] == Node::Text(t);
                assert(all[k] == Node::Text(t));
            }
        }
    }
}

proof fn depths_are_shown(
    ev: Seq<Node>,
    tag: Seq<char>,
    rows: Seq<NeighborRowView>,
    snippets: bool,
    how: SnippetMode,
    compact: bool,
    depth: int,
    i: int,
)
    requires
        0 <= i < rows.len(),
    ensures
        goes_on_from(ev, depth_nodes(ev, tag, rows, snippets, how, compact, depth)),
        1 <= rows[i].depth <= depth ==> shows(
            depth_nodes(ev, tag, rows, snippets, how, compact, depth),
            rows[i].node,
        ) && (shown_snippet(rows[i], snippets, how, compact) is Some ==> depth_nodes(
            ev,
            tag,
            rows,
            snippets,
            how,
            compact,
            depth,
        ).contains(Node::Text(shown_snippet(rows[i], snippets, how, compact)->0))),
    decreases depth,
{
    if depth > 0 {
        depths_are_shown(ev, tag, rows, snippets, how, compact, depth - 1, i);
        let before = depth_nodes(ev, tag, rows, snippets, how, compact, depth - 1);
        let open = with_open(before, tag, no_attrs().push(("depth"@, int_text(depth))));
        let n = rows.len() as int;
        members_are_shown(open, rows, depth, snippets, how, compact, n, i);
        let inner = depth_members(open, rows, depth, snippets, how, compact, n);
        let all = depth_nodes(ev, tag, rows, snippets, how, compact, depth);
        assert(goes_on_from(inner, all));
        assert(goes_on_from(before, open));
        assert(goes_on_from(before, all));
        if rows[i].depth == depth {
            shown_stays(inner, all, rows[i].node);
            if let Some(t) = shown_snippet(rows[i], snippets, how, compact) {
                let k = choose|k: int| 0 <= k < inner.len() && inner[k] == Node::Text(t);
                assert(all[k] == Node::Text(t));
            }
        } else if 1 <= rows[i].depth <= depth {
            shown_stays(before, all, rows[i].node);
            if let Some(t) = shown_snippet(rows[i], snippets, how, compact) {
                let k = choose|k: int| 0 <= k < before.len() && before[k] == Node::Text(t);
                assert(all[k] == Node::Text(t));
            }
        }
    }
}

proof fn deepest_bounds(rows: Seq<NeighborRowView>, n: int, i: int)
    requires
        0 <= i < n <= rows.len(),
    ensures
        rows[i].depth <= deepest(rows, n),
    decreases n,
{
    if i < n - 1 {
        deepest_bounds(rows, n - 1, i);
    }
}

/// Every neighbour in the window that lies a step away or more is shown. Unless the document
/// is compact, it is shown with its own lines where snippets are asked for.
pub proof fn neighbours_are_shown(
    focus: NodeRowView,
    rows: Seq<NeighborRowView>,
    edge_count: int,
    m: WindowMeta,
    d: Display,
    i: int,
)
    requires
        0 <= i < rows.len(),
        rows[i].depth >= 1,
    ensures
        ({
            let doc = graph_nodes(Seq::empty(), focus, rows, edge_count, m, d);
            &&& shows(doc, focus)
            &&& shows(doc, rows[i].node)
            &&& d.snippets && !d.compact && rows[i].node.content is Some ==> doc.contains(
                Node::Text(
                    snippet_text(
                        line_seq(rows[i].node.content->0),
                        rows[i].node.range_start as int,
                        rows[i].node.range_end as int,
                        d.max_snippet_lines,
                    ),
                ),
            )
            &&& d.show_focus_snippet && !d.compact && focus.content is Some ==> doc.contains(
                Node::Text(
                    snippet_text(
                        line_seq(focus.content->0),
                        focus.range_start as int,
                        focus.range_end as int,
                        d.max_snippet_lines,
                    ),
                ),
            )
        }),
{
    let empty = Seq::<Node>::empty();
    let tokens = tokens_of(graph_events(empty, focus, rows, edge_count, m, d, ""@));
    let open = with_open(
        empty,
        "graph"@,
        with_meta(
            no_attrs()
                .push(("root_id"@, int_text(focus.id as int)))
                .push(("tokens"@, tokens))
                .push(("nodes"@, dec(1 + rows.len())))
                .push(("edges"@, int_text(edge_count))),
            m,
            d.compact,
        ),
    );
    let ev = focus_nodes(open, focus, d.show_focus_snippet, d.max_snippet_lines, d.compact);
    focus_extends(open, focus, d.show_focus_snippet, d.max_snippet_lines, d.compact);
    symbols_are_told(focus);
    assert(ev[open.len() as int + 1] == Node::Start("node"@, node_attrs(focus)));
    let last = deepest(rows, rows.len() as int);
    let how = SnippetMode::Own(d.max_snippet_lines);
    depths_are_shown(ev, "neighbors"@, rows, d.snippets, how, d.compact, last, i);
    deepest_bounds(rows, rows.len() as int, i);
    let inner = depth_nodes(ev, "neighbors"@, rows, d.snippets, how, d.compact, last);
    let doc = graph_nodes(empty, focus, rows, edge_count, m, d);
    assert(goes_on_from(inner, doc));
    assert(goes_on_from(ev, doc));
    shown_stays(inner, doc, rows[i].node);
    shown_stays(ev, doc, focus);
    if d.snippets && !d.compact && rows[i].node.content is Some {
        let t = shown_snippet(rows[i], d.snippets, how, d.compact)->0;
        let k = choose|k: int| 0 <= k < inner.len() && inner[k] == Node::Text(t);
        assert(doc[k] == Node::Text(t));
    }
    if d.show_focus_snippet && !d.compact && focus.content is Some {
        let t = own_snippet(focus, d.max_snippet_lines)->0;
        let k = choose|k: int| 0 <= k < ev.len() && ev[k] == Node::Text(t);
        assert(doc[k] == Node::Text(t));
    }
}

/// Every dependent in the window is shown. Unless the document is compact, it is shown with the
/// lines around the places where it names the symbol, where snippets are asked for and it does.
pub proof fn dependents_are_shown(
    focus: NodeRowView,
    rows: Seq<NeighborRowView>,
    m: WindowMeta,
    d: Display,
    i: int,
)
    requires
        0 <= i < rows.len(),
        rows[i].depth >= 1,
    ensures
        ({
            let doc = blast_nodes(Seq::empty(), focus, rows, m, d);
            &&& shows(doc, focus)
            &&& shows(doc, rows[i].node)
            &&& d.snippets && !d.compact && rows[i].node.content is Some ==> (call_site_text(
                line_seq(rows[i].node.content->0),
                rows[i].node.range_start as int,
                rows[i].node.range_end as int,
                focus.name,
                d.max_snippet_lines,
            ) matches Some(t) ==> doc.contains(Node::Text(t)))
        }),
{
    let empty = Seq::<Node>::empty();
    let tokens = tokens_of(blast_events(empty, focus, rows, m, d, ""@));
    let open = with_open(
        empty,
        "blast_radius"@,
        with_meta(
            no_attrs()
                .push(("root_id"@, int_text(focus.id as int)))
                .push(("root_name"@, focus.name))
                .push(("tokens"@, tokens))
                .push(("dependent_count"@, dec(rows.len()))),
            m,
            d.compact,
        ),
    );
    let ev = focus_nodes(open, focus, d.show_focus_snippet, d.max_snippet_lines, d.compact);
    focus_extends(open, focus, d.show_focus_snippet, d.max_snippet_lines, d.compact);
    symbols_are_told(focus);
    assert(ev[open.len() as int + 1] == Node::Start("node"@, node_attrs(focus)));
    let last = deepest(rows, rows.len() as int);
    let how = SnippetMode::Uses(focus.name, d.max_snippet_lines);
    depths_are_shown(ev, "dependents"@, rows, d.snippets, how, d.compact, last, i);
    deepest_bounds(rows, rows.len() as int, i);
    let inner = depth_nodes(ev, "dependents"@, rows, d.snippets, how, d.compact, last);
    let doc = blast_nodes(empty, focus, rows, m, d);
    assert(goes_on_from(inner, doc));
    assert(goes_on_from(ev, doc));
    shown_stays(inner, doc, rows[i].node);
    shown_stays(ev, doc, focus);
    if d.snippets && !d.compact && rows[i].node.content is Some {
        if let Some(t) = shown_snippet(rows[i], d.snippets, how, d.compact) {
            let k = choose|k: int| 0 <= k < inner.len() && inner[k] == Node::Text(t);
            assert(doc[k] == Node::Text(t));
        }
    }
}

/// The head of a document counts what it shows and says where its window stands.
pub proof fn heads_count(
    focus: NodeRowView,
    rows: Seq<NeighborRowView>,
    edge_count: int,
    m: WindowMeta,
    d: Display,
)
    ensures
        graph_nodes(Seq::empty(), focus, rows, edge_count, m, d)[0] matches Node::Start(tag, a)
            && tag == "graph"@ && a.contains(("root_id"@, int_text(focus.id as int)))
            && a.contains(("nodes"@, dec(1 + rows.len()))) && a.contains(
            ("edges"@, int_text(edge_count)),
        ) && says_window(a, m, d.compact),
        blast_nodes(Seq::empty(), focus, rows, m, d)[0] matches Node::Start(tag, a) && tag
            == "blast_radius"@ && a.contains(("root_id"@, int_text(focus.id as int)))
            && a.contains(("root_name"@, focus.name)) && a.contains(
            ("dependent_count"@, dec(rows.len())),
        ) && says_window(a, m, d.compact),
{
    let empty = Seq::<Node>::empty();
    let last = deepest(rows, rows.len() as int);
    let t1 = tokens_of(graph_events(empty, focus, rows, edge_count, m, d, ""@));
    let a1 = no_attrs()
        .push(("root_id"@, int_text(focus.id as int)))
        .push(("tokens"@, t1))
        .push(("nodes"@, dec(1 + rows.len())))
        .push(("edges"@, int_text(edge_count)));
    windows_are_said(a1, m, d.compact);
    assert(with_meta(a1, m, d.compact)[0] == a1[0]);
    assert(with_meta(a1, m, d.compact)[2] == a1[2]);
    assert(with_meta(a1, m, d.compact)[3] == a1[3]);
    let o1 = with_open(empty, "graph"@, with_meta(a1, m, d.compact));
    focus_extends(o1, focus, d.show_focus_snippet, d.max_snippet_lines, d.compact);
    let f1 = focus_nodes(o1, focus, d.show_focus_snippet, d.max_snippet_lines, d.compact);
    assert(f1[0] == o1[0]);
    let how1 = SnippetMode::Own(d.max_snippet_lines);
    depths_extend(f1, "neighbors"@, rows, d.snippets, how1, d.compact, last);
    let t2 = tokens_of(blast_events(empty, focus, rows, m, d, ""@));
    let a2 = no_attrs()
        .push(("root_id"@, int_text(focus.id as int)))
        .push(("root_name"@, focus.name))
        .push(("tokens"@, t2))
        .push(("dependent_count"@, dec(rows.len())));
    windows_are_said(a2, m, d.compact);
    assert(with_meta(a2, m, d.compact)[0] == a2[0]);
    assert(with_meta(a2, m, d.compact)[1] == a2[1]);
    assert(with_meta(a2, m, d.compact)[3] == a2[3]);
    let o2 = with_open(empty, "blast_radius"@, with_meta(a2, m, d.compact));
    focus_extends(o2, focus, d.show_focus_snippet, d.max_snippet_lines, d.compact);
    let f2 = focus_nodes(o2, focus, d.show_focus_snippet, d.max_snippet_lines, d.compact);
    assert(f2[0] == o2[0]);
    let how2 = SnippetMode::Uses(focus.name, d.max_snippet_lines);
    depths_extend(f2, "dependents"@, rows, d.snippets, how2, d.compact, last);
}

proof fn depths_extend(
    ev: Seq<Node>,
    tag: Seq<char>,
    rows: Seq<NeighborRowView>,
    snippets: bool,
    how: SnippetMode,
    compact: bool,
    depth: int,
)
    ensures
        goes_on_from(ev, depth_nodes(ev, tag, rows, snippets, how, compact, depth)),
    decreases depth,
{
    if depth > 0 {
        depths_extend(ev, tag, rows, snippets, how, compact, depth - 1);
        let before = depth_nodes(ev, tag, rows, snippets, how, compact, depth - 1);
        let open = with_open(before, tag, no_attrs().push(("depth"@, int_text(depth))));
        members_are_shown(open, rows, depth, snippets, how, compact, rows.len() as int, 0);
    }
}

/// The attributes say where a window stands: how many rows there are, where it starts, how many
/// it shows, whether more follow and where, and the budgets that it was given.
pub open spec fn says_window(
    a: Seq<(Seq<char>, Seq<char>)>,
    m: WindowMeta,
    compact: bool,
) -> bool {
    &&& a.contains(("total_items"@, dec(m.total_items as nat)))
    &&& a.contains(("offset"@, dec(m.offset as nat)))
    &&& a.contains(("shown_items"@, dec(m.shown_items as nat)))
    &&& a.contains(("truncated"@, if m.truncated { "true"@ } else { "false"@ }))
    &&& m.next_offset is Some ==> a.contains(("next_offset"@, dec(m.next_offset->0 as nat)))
    &&& m.budget_lines is Some ==> a.contains(("budget_lines"@, dec(m.budget_lines->0 as nat)))
    &&& m.budget_tokens is Some ==> a.contains(("budget_tokens"@, dec(m.budget_tokens->0 as nat)))
    &&& compact ==> a.contains(("compact"@, "true"@))
}

proof fn windows_are_said(a: Seq<(Seq<char>, Seq<char>)>, m: WindowMeta, compact: bool)
    ensures
        says_window(with_meta(a, m, compact), m, compact),
        with_meta(a, m, compact).len() >= a.len(),
        forall|i: int| 0 <= i < a.len() ==> #[trigger] with_meta(a, m, compact)[i] == a[i],
{
    let out = with_meta(a, m, compact);
    let b = if compact {
        a.push(("compact"@, "true"@))
    } else {
        a
    };
    let n = b.len() as int;
    if compact {
        assert(out[a.len() as int] == ("compact"@, "true"@));
    }
    assert(out[n] == ("total_items"@, dec(m.total_items as nat)));
    assert(out[n + 1] == ("offset"@, dec(m.offset as nat)));
    assert(out[n + 2] == ("shown_items"@, dec(m.shown_items as nat)));
    assert(out[n + 3] == ("truncated"@, bool_text(m.truncated)));
    let k: int = if m.next_offset is Some {
        n + 5
    } else {
        n + 4
    };
    if m.next_offset is Some {
        assert(out[n + 4] == ("next_offset"@, dec(m.next_offset->0 as nat)));
    }
    if m.budget_lines is Some {
        assert(out[k] == ("budget_lines"@, dec(m.budget_lines->0 as nat)));
    }
    let l: int = if m.budget_lines is Some {
        k + 1
    } else {
        k
    };
    if m.budget_tokens is Some {
        assert(out[l] == ("budget_tokens"@, dec(m.budget_tokens->0 as nat)));
    }
}

/// The rows that a command shows are those in its window, row by row.
pub proof fn windows_show_rows(rows: Seq<NeighborRowView>, c: OutputControl, i: int)
    requires
        0 <= i < windowed(rows, c).len(),
        rows.len() <= usize::MAX,
    ensures
        c.offset + i < rows.len(),
        windowed(rows, c)[i] == rows[c.offset + i],
        c.budget_lines is None && c.budget_tokens is None ==> windowed(rows, c).len() == rows.len()
            - c.offset,
        c.budget_lines is Some ==> windowed(rows, c).len() <= c.budget_lines->0,
{
    let costs = row_costs(rows);
    crate::window::window_is_within(costs, c.offset as int, c.budget_lines, c.budget_tokens);
    crate::window::windows_say_where_to_go_on(
        costs,
        c.offset as int,
        c.budget_lines,
        c.budget_tokens,
    );
}

/// What a row costs grows with the texts that are shown of it, a quarter of their bytes; at
/// most 256 bytes of its doc count, and it costs one token at least.
pub proof fn rows_cost_their_bytes(n: NodeRowView)
    ensures
        ({
            let bytes = byte_size(n.name) + byte_size(n.kind) + byte_size(n.file) + byte_size(
                n.visibility,
            ) + byte_size(n.role) + byte_size(n.stable_id) + 24 + (match n.signature {
                Some(s) => byte_size(s),
                None => 0,
            }) + (match n.doc {
                Some(d) => if byte_size(d) < 256 {
                    byte_size(d)
                } else {
                    256
                },
                None => 0,
            });
            bytes / 4 <= usize::MAX ==> node_cost(n) == bytes / 4
        }),
        node_cost(n) >= 1,
{
}

/// The symbols that use a type's name are counted among what depends on it, and on no other
/// kind of symbol.
pub proof fn users_of_types_are_counted(n: NodeRowView, users: int)
    requires
        i64::MIN <= n.fan_in + users <= i64::MAX,
    ensures
        n.kind == "struct"@ || n.kind == "enum"@ || n.kind == "type"@ || n.kind == "trait"@
            || n.kind == "union"@ ==> with_type_users(n, users).fan_in == n.fan_in + users,
        n.kind != "struct"@ && n.kind != "enum"@ && n.kind != "type"@ && n.kind != "trait"@
            && n.kind != "union"@ ==> with_type_users(n, users) == n,
        with_type_users(n, users).id == n.id && with_type_users(n, users).name == n.name,
{
}

/// Edges are trusted where the resolver or rustdoc found them, and no others are; parted by
/// trust they keep their order.
pub proof fn sources_are_trusted(edges: Seq<EdgeInfoView>, trust: bool, n: int)
    requires
        0 <= n <= edges.len(),
    ensures
        edges_by_trust(edges, trust, n) == edges.take(n).filter(
            |e: EdgeInfoView| (e.source == "resolver"@ || e.source == "rustdoc"@) == trust,
        ),
    decreases n,
{
    reveal(Seq::filter);
    if n > 0 {
        sources_are_trusted(edges, trust, n - 1);
        assert(edges.take(n).drop_last() =~= edges.take(n - 1));
        assert(edges.take(n).last() == edges[n - 1]);
    }
}

/// Editing looks one step each way and shows no lines; else the plan is what is asked for.
pub proof fn editing_needs_little(snippets: bool, depth: usize, blast_depth: usize)
    ensures
        ({
            let p = plan_of(snippets, depth, blast_depth, true);
            !p.snippets && !p.show_focus_snippet && p.depth == 1 && p.blast_depth == 1
        }),
        ({
            let p = plan_of(snippets, depth, blast_depth, false);
            p.snippets == snippets && p.show_focus_snippet == snippets && p.depth == depth
                && p.blast_depth == blast_depth
        }),
{
}

/// The context of a symbol shows its neighbours and its dependents, each as the commands for
/// them do.
pub proof fn contexts_show_both_sides(
    i: ContextInput,
    p: ContextPlan,
    max: Option<usize>,
    c: OutputControl,
)
    ensures
        ({
            let d = Display {
                snippets: p.snippets,
                show_focus_snippet: p.show_focus_snippet,
                max_snippet_lines: max,
                compact: c.compact,
            };
            let doc = context_document(i, p, max, c);
            let around = windowed(views(i.neighbors@), c);
            let above = windowed(views(i.dependents@), c);
            exists|ev: Seq<Node>|
                doc == (#[trigger] blast_nodes(
                    graph_nodes(
                        ev,
                        i.focus@,
                        around,
                        i.edge_count as int,
                        meta_of(views(i.neighbors@), c),
                        d,
                    ),
                    i.focus@,
                    above,
                    meta_of(views(i.dependents@), c),
                    d,
                )).push(Node::End("context"@))
        }),
{
    let d = Display {
        snippets: p.snippets,
        show_focus_snippet: p.show_focus_snippet,
        max_snippet_lines: max,
        compact: c.compact,
    };
    let ev = context_head(i.focus@, tokens_of(context_nodes(i, p, max, c, ""@)));
    let around = graph_nodes(
        ev,
        i.focus@,
        windowed(views(i.neighbors@), c),
        i.edge_count as int,
        meta_of(views(i.neighbors@), c),
        d,
    );
    assert(context_document(i, p, max, c) == blast_nodes(
        around,
        i.focus@,
        windowed(views(i.dependents@), c),
        meta_of(views(i.dependents@), c),
        d,
    ).push(Node::End("context"@)));
}

/// What is told of an edge.
pub open spec fn told_of_edge(e: EdgeInfoView) -> Seq<(Seq<char>, Seq<char>)> {
    seq![
        ("type"@, e.edge_type),
        ("from_id"@, int_text(e.from_id as int)),
        ("to_id"@, int_text(e.to_id as int)),
        ("from_name"@, e.from_name),
        ("to_name"@, e.to_name),
        ("source"@, e.source),
    ]
}

proof fn edges_are_written(ev: Seq<Node>, edges: Seq<EdgeInfoView>, n: int, i: int)
    requires
        0 <= n <= edges.len(),
    ensures
        goes_on_from(ev, edge_nodes(ev, edges, n)),
        0 <= i < n ==> has_tag(edge_nodes(ev, edges, n), "edge"@, told_of_edge(edges[i])),
    decreases n,
{
    if n > 0 {
        edges_are_written(ev, edges, n - 1, i);
        let rest = edge_nodes(ev, edges, n - 1);
        let all = edge_nodes(ev, edges, n);
        assert(goes_on_from(rest, all));
        if i == n - 1 {
            let a = told_of_edge(edges[i]);
            assert(all[rest.len() as int] == Node::Empty("edge"@, a)) by {
                assert(all.last()->Empty_1 =~= a);
            }
            all_are_held(a);
        } else if 0 <= i < n - 1 {
            tags_stay(rest, all, "edge"@, told_of_edge(edges[i]));
        }
    }
}

/// A section on edges says how sure they are and shows each of them; without edges there is no
/// such section.
pub proof fn sections_show_their_edges(
    ev: Seq<Node>,
    tag: Seq<char>,
    confidence: Seq<char>,
    edges: Seq<EdgeInfoView>,
    i: int,
)
    ensures
        goes_on_from(ev, edge_section(ev, tag, confidence, edges)),
        edges.len() == 0 ==> edge_section(ev, tag, confidence, edges) == ev,
        0 <= i < edges.len() ==> has_tag(
            edge_section(ev, tag, confidence, edges),
            tag,
            seq![("confidence"@, confidence)],
        ) && has_tag(
            edge_section(ev, tag, confidence, edges),
            "edge"@,
            told_of_edge(edges[i]),
        ),
{
    let open = with_open(ev, tag, no_attrs().push(("confidence"@, confidence)));
    let all = edge_nodes(open, edges, edges.len() as int);
    edges_are_written(open, edges, edges.len() as int, i);
    if edges.len() > 0 {
        let doc = edge_section(ev, tag, confidence, edges);
        assert(goes_on_from(all, doc));
        assert(goes_on_from(open, doc));
        if 0 <= i < edges.len() {
            let a = seq![("confidence"@, confidence)];
            assert(open[ev.len() as int] == Node::Start(tag, a)) by {
                assert(open.last()->Start_1 =~= a);
            }
            all_are_held(a);
            assert(has_tag(open, tag, a));
            tags_stay(open, doc, tag, a);
            tags_stay(all, doc, "edge"@, told_of_edge(edges[i]));
        }
    }
}

/// Each edge is shown by how sure it is: those of the resolver and of rustdoc as certain, the
/// others as read off the syntax.
pub proof fn edges_are_shown_by_trust(
    focus: NodeRowView,
    edges: Seq<EdgeInfoView>,
    tokens: Seq<char>,
    i: int,
)
    ensures
        ({
            let sure = edges_by_trust(edges, true, edges.len() as int);
            let syntax = edges_by_trust(edges, false, edges.len() as int);
            let doc = trust_nodes(focus, edges, tokens);
            &&& 0 <= i < sure.len() ==> has_tag(doc, "edge"@, told_of_edge(sure[i])) && has_tag(
                doc,
                "trusted_edges"@,
                seq![("confidence"@, "1.0"@)],
            )
            &&& 0 <= i < syntax.len() ==> has_tag(doc, "edge"@, told_of_edge(syntax[i]))
                && has_tag(doc, "syntax_edges"@, seq![("confidence"@, "0.8"@)])
            &&& has_tag(
                doc,
                "graph"@,
                seq![
                    ("root_id"@, int_text(focus.id as int)),
                    ("tokens"@, tokens),
                    ("trusted_edges"@, dec(sure.len())),
                    ("syntax_edges"@, dec(syntax.len())),
                ],
            )
        }),
{
    let n = edges.len() as int;
    let sure = edges_by_trust(edges, true, n);
    let syntax = edges_by_trust(edges, false, n);
    let doc = trust_nodes(focus, edges, tokens);
    let a = seq![
        ("root_id"@, int_text(focus.id as int)),
        ("tokens"@, tokens),
        ("trusted_edges"@, dec(sure.len())),
        ("syntax_edges"@, dec(syntax.len())),
    ];
    let e0 = with_open(
        Seq::empty(),
        "graph"@,
        no_attrs()
            .push(("root_id"@, int_text(focus.id as int)))
            .push(("tokens"@, tokens))
            .push(("trusted_edges"@, dec(sure.len())))
            .push(("syntax_edges"@, dec(syntax.len()))),
    );
    assert(e0[0] == Node::Start("graph"@, a)) by {
        assert(e0[0]->Start_1 =~= a);
    }
    all_are_held(a);
    assert(has_tag(e0, "graph"@, a));
    let e1 = with_open(
        with_open(e0, "focus"@, no_attrs()),
        "node"@,
        no_attrs()
            .push(("id"@, int_text(focus.id as int)))
            .push(("name"@, focus.name))
            .push(("kind"@, focus.kind))
            .push(("file"@, focus.file))
            .push(("range"@, range_text(focus.range_start as int, focus.range_end as int))),
    );
    let e2 = opt_text_node(
        opt_text_node(e1, "signature"@, focus.signature),
        "snippet"@,
        own_snippet(focus, None),
    );
    let e3 = with_close(with_close(e2, "node"@), "focus"@);
    assert(goes_on_from(e0, e1));
    assert(goes_on_from(e1, e2));
    assert(goes_on_from(e2, e3));
    let e4 = edge_section(e3, "trusted_edges"@, "1.0"@, sure);
    let e5 = edge_section(e4, "syntax_edges"@, "0.8"@, syntax);
    sections_show_their_edges(e3, "trusted_edges"@, "1.0"@, sure, i);
    sections_show_their_edges(e4, "syntax_edges"@, "0.8"@, syntax, i);
    assert(goes_on_from(e5, doc));
    assert(goes_on_from(e4, doc));
    assert(goes_on_from(e0, doc));
    tags_stay(e0, doc, "graph"@, a);
    if 0 <= i < sure.len() {
        tags_stay(e4, doc, "edge"@, told_of_edge(sure[i]));
        tags_stay(e4, doc, "trusted_edges"@, seq![("confidence"@, "1.0"@)]);
    }
    if 0 <= i < syntax.len() {
        tags_stay(e5, doc, "edge"@, told_of_edge(syntax[i]));
        tags_stay(e5, doc, "syntax_edges"@, seq![("confidence"@, "0.8"@)]);
    }
}

/// The graph and blast radius commands show the snippet of the symbol in question exactly where
/// they show those of the others, and cut both at the same length.
pub proof fn snippets_are_shown_alike(snippets: bool, max: Option<usize>, compact: bool)
    ensures
        plain_display(snippets, max, compact).snippets == snippets,
        plain_display(snippets, max, compact).show_focus_snippet == snippets,
        plain_display(snippets, max, compact).max_snippet_lines == max,
        plain_display(snippets, max, compact).compact == compact,
{
}

/// A text stands between the tags.
pub open spec fn has_text(ev: Seq<Node>, tag: Seq<char>, text: Seq<char>) -> bool {
    exists|k: int|
        0 < k && k + 1 < ev.len() && #[trigger] ev[k] == Node::Text(text) && ev[k - 1]
            == Node::Start(tag, no_attrs()) && ev[k + 1] == Node::End(tag)
}

proof fn texts_stay(a: Seq<Node>, b: Seq<Node>, tag: Seq<char>, text: Seq<char>)
    requires
        goes_on_from(a, b),
        has_text(a, tag, text),
    ensures
        has_text(b, tag, text),
{
    let k = choose|k: int|
        0 < k && k + 1 < a.len() && #[trigger] a[k] == Node::Text(text) && a[k - 1] == Node::Start(
            tag,
            no_attrs(),
        ) && a[k + 1] == Node::End(tag);
    assert(b[k] == a[k] && b[k - 1] == a[k - 1] && b[k + 1] == a[k + 1]);
}

proof fn text_is_written(ev: Seq<Node>, tag: Seq<char>, text: Option<Seq<char>>)
    ensures
        goes_on_from(ev, opt_text_node(ev, tag, text)),
        text matches Some(t) ==> has_text(opt_text_node(ev, tag, text), tag, t),
{
    if let Some(t) = text {
        let all = opt_text_node(ev, tag, text);
        let k = ev.len() as int + 1;
        assert(all[k] == Node::Text(t));
        assert(all[k - 1] == Node::Start(tag, no_attrs()));
        assert(all[k + 1] == Node::End(tag));
    }
}

/// A note is shown with where it comes from, how sure it is and whether it is stale, and with
/// what it says of intent, behaviour and tags, each under its own name.
pub proof fn notes_are_shown(ev: Seq<Node>, a: AnnotationRowView)
    ensures
        ({
            let doc = annotation_nodes(ev, a);
            &&& goes_on_from(ev, doc)
            &&& has_tag(
                doc,
                "annotation"@,
                seq![
                    ("source"@, a.source),
                    ("confidence"@, a.confidence),
                    ("stale"@, bool_text(a.stale)),
                ],
            )
            &&& a.intent matches Some(t) ==> has_text(doc, "intent"@, t)
            &&& a.behavior matches Some(t) ==> has_text(doc, "behavior"@, t)
            &&& a.tags matches Some(t) ==> has_text(doc, "tags"@, t)
        }),
{
    let doc = annotation_nodes(ev, a);
    let told = seq![
        ("source"@, a.source),
        ("confidence"@, a.confidence),
        ("stale"@, bool_text(a.stale)),
    ];
    let e0 = with_open(
        ev,
        "annotation"@,
        no_attrs().push(("source"@, a.source)).push(("confidence"@, a.confidence)).push(
            ("stale"@, bool_text(a.stale)),
        ),
    );
    assert(e0[ev.len() as int] == Node::Start("annotation"@, told)) by {
        assert(e0.last()->Start_1 =~= told);
    }
    all_are_held(told);
    assert(has_tag(e0, "annotation"@, told));
    let e1 = opt_text_node(e0, "intent"@, a.intent);
    let e2 = opt_text_node(e1, "behavior"@, a.behavior);
    let e3 = opt_text_node(e2, "tags"@, a.tags);
    text_is_written(e0, "intent"@, a.intent);
    text_is_written(e1, "behavior"@, a.behavior);
    text_is_written(e2, "tags"@, a.tags);
    assert(goes_on_from(e3, doc));
    assert(goes_on_from(e2, doc));
    assert(goes_on_from(e1, doc));
    assert(goes_on_from(e0, doc));
    tags_stay(e0, doc, "annotation"@, told);
    if let Some(t) = a.intent {
        texts_stay(e1, doc, "intent"@, t);
    }
    if let Some(t) = a.behavior {
        texts_stay(e2, doc, "behavior"@, t);
    }
    if let Some(t) = a.tags {
        texts_stay(e3, doc, "tags"@, t);
    }
}

/// Each diagnostic of a symbol is shown with its code, its level and its message, and with what
/// it suggests, if anything.
pub proof fn diagnostics_are_shown(ev: Seq<Node>, ds: Seq<NodeDiagnosticView>, n: int, i: int)
    requires
        0 <= n <= ds.len(),
    ensures
        goes_on_from(ev, diagnostic_nodes(ev, ds, n)),
        0 <= i < n ==> has_tag(
            diagnostic_nodes(ev, ds, n),
            "diagnostic"@,
            seq![("code"@, ds[i].code), ("level"@, ds[i].level)],
        ) && has_text(diagnostic_nodes(ev, ds, n), "message"@, ds[i].message),
        0 <= i < n && ds[i].suggestion is Some ==> has_tag(
            diagnostic_nodes(ev, ds, n),
            "diagnostic"@,
            seq![
                ("code"@, ds[i].code),
                ("level"@, ds[i].level),
                ("suggestion"@, ds[i].suggestion->0),
            ],
        ),
    decreases n,
{
    if n > 0 {
        diagnostics_are_shown(ev, ds, n - 1, i);
        let rest = diagnostic_nodes(ev, ds, n - 1);
        let all = diagnostic_nodes(ev, ds, n);
        assert(goes_on_from(rest, all));
        if 0 <= i < n {
            let d = ds[i];
            let few = seq![("code"@, d.code), ("level"@, d.level)];
            if i == n - 1 {
                let k = rest.len() as int;
                let a = all[k]->Start_1;
                assert(all[k] == Node::Start("diagnostic"@, a));
                assert(a[0] == few[0] && a[1] == few[1]);
                assert(crate::xml::holds_all(a, few));
                if let Some(s) = d.suggestion {
                    let full = seq![("code"@, d.code), ("level"@, d.level), ("suggestion"@, s)];
                    assert(a =~= full);
                    all_are_held(full);
                }
                assert(all[k + 1] == Node::Start("message"@, no_attrs()));
                assert(all[k + 2] == Node::Text(d.message));
                assert(all[k + 3] == Node::End("message"@));
            } else {
                tags_stay(rest, all, "diagnostic"@, few);
                texts_stay(rest, all, "message"@, d.message);
                if let Some(s) = d.suggestion {
                    tags_stay(
                        rest,
                        all,
                        "diagnostic"@,
                        seq![("code"@, d.code), ("level"@, d.level), ("suggestion"@, s)],
                    );
                }
            }
        }
    }
}

} // verus!
