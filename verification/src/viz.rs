//! The picture of a code graph: its symbols grouped by context, and its edges with those that
//! break a rule marked.

use vstd::prelude::*;

use crate::arch::{
    context_of, context_violation_reason, coupling_reason, covering_reason, edge_exception_reason,
    file_to_context,
};
use crate::config::{
    ViolationException, ViolationExceptionView, ViolationRule, ViolationRuleView,
};
use crate::model::{views, Dup};
use crate::order::{count_text, distinct_keys, key_set, times};
use crate::text::{
    begins_with, fnv1a, fnv1a_range, has_str, occurs_at, replace, replaced, str_eq,
};

verus! {

broadcast use crate::model::group_views;

/// A context: its name, how many symbols are in it, and its place on the ring of contexts;
/// `root` stands in the middle.
#[derive(Debug)]
pub struct ContextInfo {
    pub name: String,
    pub node_count: usize,
    pub place: Option<usize>,
}

/// What a [`ContextInfo`] holds.
#[verifier::ext_equal]
pub struct ContextInfoView {
    pub name: Seq<char>,
    pub node_count: usize,
    pub place: Option<usize>,
}

impl DeepView for ContextInfo {
    type V = ContextInfoView;

    open spec fn deep_view(&self) -> ContextInfoView {
        ContextInfoView {
            name: self.name.deep_view(),
            node_count: self.node_count.deep_view(),
            place: self.place.deep_view(),
        }
    }
}

impl View for ContextInfo {
    type V = ContextInfoView;

    open spec fn view(&self) -> ContextInfoView {
        self.deep_view()
    }
}

/// Where a symbol stands: its context, and how far it is moved from the middle of that, by
/// angle, by distance and in height, each out of 65536.
#[derive(Debug)]
pub struct VizNode {
    pub id: i64,
    pub context: String,
    pub angle: u64,
    pub distance: u64,
    pub height: u64,
}

/// What a [`VizNode`] holds.
#[verifier::ext_equal]
pub struct VizNodeView {
    pub id: i64,
    pub context: Seq<char>,
    pub angle: u64,
    pub distance: u64,
    pub height: u64,
}

impl DeepView for VizNode {
    type V = VizNodeView;

    open spec fn deep_view(&self) -> VizNodeView {
        VizNodeView {
            id: self.id.deep_view(),
            context: self.context.deep_view(),
            angle: self.angle.deep_view(),
            distance: self.distance.deep_view(),
            height: self.height.deep_view(),
        }
    }
}

impl View for VizNode {
    type V = VizNodeView;

    open spec fn view(&self) -> VizNodeView {
        self.deep_view()
    }
}

/// A symbol to be placed.
#[derive(Debug)]
pub struct RawNode {
    pub id: i64,
    pub stable_id: String,
    pub file: String,
}

/// What a [`RawNode`] holds.
#[verifier::ext_equal]
pub struct RawNodeView {
    pub id: i64,
    pub stable_id: Seq<char>,
    pub file: Seq<char>,
}

impl DeepView for RawNode {
    type V = RawNodeView;

    open spec fn deep_view(&self) -> RawNodeView {
        RawNodeView {
            id: self.id.deep_view(),
            stable_id: self.stable_id.deep_view(),
            file: self.file.deep_view(),
        }
    }
}

impl View for RawNode {
    type V = RawNodeView;

    open spec fn view(&self) -> RawNodeView {
        self.deep_view()
    }
}

/// An edge to be judged; `role_reason` is why the roles at its ends do not go together, where
/// they do not.
#[derive(Debug)]
pub struct RawEdge {
    pub from_id: i64,
    pub to_id: i64,
    pub edge_type: String,
    pub source: String,
    pub from_role: String,
    pub to_role: String,
    pub from_file: String,
    pub to_file: String,
    pub from_stable_id: String,
    pub to_stable_id: String,
    pub role_reason: Option<String>,
}

/// What a [`RawEdge`] holds.
#[verifier::ext_equal]
pub struct RawEdgeView {
    pub from_id: i64,
    pub to_id: i64,
    pub edge_type: Seq<char>,
    pub source: Seq<char>,
    pub from_role: Seq<char>,
    pub to_role: Seq<char>,
    pub from_file: Seq<char>,
    pub to_file: Seq<char>,
    pub from_stable_id: Seq<char>,
    pub to_stable_id: Seq<char>,
    pub role_reason: Option<Seq<char>>,
}

impl DeepView for RawEdge {
    type V = RawEdgeView;

    open spec fn deep_view(&self) -> RawEdgeView {
        RawEdgeView {
            from_id: self.from_id.deep_view(),
            to_id: self.to_id.deep_view(),
            edge_type: self.edge_type.deep_view(),
            source: self.source.deep_view(),
            from_role: self.from_role.deep_view(),
            to_role: self.to_role.deep_view(),
            from_file: self.from_file.deep_view(),
            to_file: self.to_file.deep_view(),
            from_stable_id: self.from_stable_id.deep_view(),
            to_stable_id: self.to_stable_id.deep_view(),
            role_reason: self.role_reason.deep_view(),
        }
    }
}

impl View for RawEdge {
    type V = RawEdgeView;

    open spec fn view(&self) -> RawEdgeView {
        self.deep_view()
    }
}

/// An edge, and why it breaks a rule, where it does and no exception covers it.
#[derive(Debug)]
pub struct VizEdge {
    pub from: i64,
    pub to: i64,
    pub edge_type: String,
    pub source: String,
    pub violation: Option<String>,
}

/// What a [`VizEdge`] holds.
#[verifier::ext_equal]
pub struct VizEdgeView {
    pub from: i64,
    pub to: i64,
    pub edge_type: Seq<char>,
    pub source: Seq<char>,
    pub violation: Option<Seq<char>>,
}

impl DeepView for VizEdge {
    type V = VizEdgeView;

    open spec fn deep_view(&self) -> VizEdgeView {
        VizEdgeView {
            from: self.from.deep_view(),
            to: self.to.deep_view(),
            edge_type: self.edge_type.deep_view(),
            source: self.source.deep_view(),
            violation: self.violation.deep_view(),
        }
    }
}

impl View for VizEdge {
    type V = VizEdgeView;

    open spec fn view(&self) -> VizEdgeView {
        self.deep_view()
    }
}

/// The FNV-1a hash of a text's bytes.
pub fn fnv1a_u64(data: &str) -> (r: u64)
    ensures
        r == fnv1a(vstd::utf8::encode_utf8(data@)),
{
    let n: usize = crate::text::byte_len(data);
    let ghost bytes = vstd::utf8::encode_utf8(data@);
    assert(bytes.subrange(0, n as int) =~= bytes);
    fnv1a_range(data, 0, n)
}

/// The contexts of the first `n` symbols.
pub open spec fn contexts_of(nodes: Seq<RawNodeView>, n: int) -> Seq<Seq<char>>
    decreases n,
{
    if n <= 0 {
        Seq::empty()
    } else {
        contexts_of(nodes, n - 1).push(context_of(nodes[n - 1].file))
    }
}

/// How many of the first `n` names are not `root`.
pub open spec fn ring_size(names: Seq<Seq<char>>, n: int) -> nat
    decreases n,
{
    if n <= 0 {
        0
    } else {
        ring_size(names, n - 1) + if names[n - 1] == "root"@ {
            0nat
        } else {
            1nat
        }
    }
}

/// The first `n` contexts of the names, with how many of the symbols are in each.
pub open spec fn context_list(names: Seq<Seq<char>>, all: Seq<Seq<char>>, n: int) -> Seq<
    ContextInfoView,
>
    decreases n,
{
    if n <= 0 {
        Seq::empty()
    } else {
        context_list(names, all, n - 1).push(
            ContextInfoView {
                name: names[n - 1],
                node_count: times(all, names[n - 1]) as usize,
                place: if names[n - 1] == "root"@ {
                    None
                } else {
                    Some(ring_size(names, n - 1) as usize)
                },
            },
        )
    }
}

/// The contexts of the symbols, in the order of their names.
pub open spec fn contexts_in(nodes: Seq<RawNodeView>) -> Seq<ContextInfoView> {
    let all = contexts_of(nodes, nodes.len() as int);
    let names = key_set::<String>(all);
    context_list(names, all, names.len() as int)
}

fn list_contexts(nodes: &Vec<RawNode>) -> (r: Vec<String>)
    ensures
        views(r@) == contexts_of(views(nodes@), nodes@.len() as int),
{
    let mut out: Vec<String> = Vec::new();
    let mut n: usize = 0;
    while n < nodes.len()
        invariant
            n <= nodes@.len(),
            views(out@) == contexts_of(views(nodes@), n as int),
        decreases nodes@.len() - n,
    {
        assert(views(nodes@)[n as int] == nodes@[n as int]@);
        out.push(file_to_context(&nodes[n].file));
        n = n + 1;
    }
    out
}

/// The contexts of the symbols, in the order of their names.
pub fn build_contexts(nodes: &Vec<RawNode>) -> (r: Vec<ContextInfo>)
    ensures
        views(r@) == contexts_in(views(nodes@)),
{
    let all = list_contexts(nodes);
    let names = distinct_keys(&all);
    assert(views(names@).len() == names@.len());
    let mut out: Vec<ContextInfo> = Vec::new();
    let mut ring: usize = 0;
    let mut n: usize = 0;
    while n < names.len()
        invariant
            ring <= n <= names@.len(),
            ring == ring_size(views(names@), n as int),
            views(out@) == context_list(views(names@), views(all@), n as int),
        decreases names@.len() - n,
    {
        assert(views(names@)[n as int] == names@[n as int]@);
        let node_count: usize = count_text(&all, &names[n]);
        let is_root = str_eq(&names[n], "root");
        let place = if is_root {
            None
        } else {
            Some(ring)
        };
        out.push(ContextInfo { name: names[n].dup(), node_count, place });
        if !is_root {
            ring = ring + 1;
        }
        n = n + 1;
    }
    out
}

/// Where a symbol stands. It is moved by the hash of its stable id, so it stays where it is.
pub open spec fn node_place(n: RawNodeView) -> VizNodeView {
    let h = fnv1a(vstd::utf8::encode_utf8(n.stable_id)) as int;
    VizNodeView {
        id: n.id,
        context: context_of(n.file),
        angle: (h % 0x10000) as u64,
        distance: (h / 0x10000 % 0x10000) as u64,
        height: (h / 0x1_0000_0000 % 0x10000) as u64,
    }
}

/// Where a symbol stands.
pub fn place_node(n: &RawNode) -> (r: VizNode)
    ensures
        r@ == node_place(n@),
{
    let h: u64 = fnv1a_u64(&n.stable_id);
    VizNode {
        id: n.id,
        context: file_to_context(&n.file),
        angle: h % 0x10000,
        distance: h / 0x10000 % 0x10000,
        height: h / 0x1_0000_0000 % 0x10000,
    }
}

/// Why an edge breaks a rule, whether or not an exception covers it: a rule on contexts
/// forbids it, or its roles do not go together and its source is trusted.
pub open spec fn candidate_reason(e: RawEdgeView, rules: Seq<ViolationRuleView>) -> Option<
    Seq<char>,
> {
    match coupling_reason(context_of(e.from_file), context_of(e.to_file), rules) {
        Some(r) => Some(r),
        None => if e.source == "rust-analyzer"@ {
            e.role_reason
        } else {
            None
        },
    }
}

/// An exception covers the edge.
pub open spec fn is_covered(e: RawEdgeView, exceptions: Seq<ViolationExceptionView>) -> bool {
    covering_reason(
        context_of(e.from_file),
        context_of(e.to_file),
        e.from_role,
        e.to_role,
        Some((e.from_stable_id, e.to_stable_id)),
        exceptions,
        0,
    ) is Some
}

/// An edge as it is shown.
pub open spec fn judged(
    e: RawEdgeView,
    rules: Seq<ViolationRuleView>,
    exceptions: Seq<ViolationExceptionView>,
) -> VizEdgeView {
    VizEdgeView {
        from: e.from_id,
        to: e.to_id,
        edge_type: e.edge_type,
        source: e.source,
        violation: if is_covered(e, exceptions) {
            None
        } else {
            candidate_reason(e, rules)
        },
    }
}

/// The first `n` edges as they are shown.
pub open spec fn judged_edges(
    edges: Seq<RawEdgeView>,
    rules: Seq<ViolationRuleView>,
    exceptions: Seq<ViolationExceptionView>,
    n: int,
) -> Seq<VizEdgeView>
    decreases n,
{
    if n <= 0 {
        Seq::empty()
    } else {
        judged_edges(edges, rules, exceptions, n - 1).push(
            judged(edges[n - 1], rules, exceptions),
        )
    }
}

/// How many of the first `n` edges break a rule, with an exception that covers them or
/// without one.
pub open spec fn broken(
    edges: Seq<RawEdgeView>,
    rules: Seq<ViolationRuleView>,
    exceptions: Seq<ViolationExceptionView>,
    suppressed: bool,
    n: int,
) -> nat
    decreases n,
{
    if n <= 0 {
        0
    } else {
        let e = edges[n - 1];
        broken(edges, rules, exceptions, suppressed, n - 1) + if candidate_reason(e, rules) is Some
            && is_covered(e, exceptions) == suppressed {
            1nat
        } else {
            0nat
        }
    }
}

/// How many of the first `n` edges break a rule at all.
pub open spec fn broken_at_all(edges: Seq<RawEdgeView>, rules: Seq<ViolationRuleView>, n: int) -> nat
    decreases n,
{
    if n <= 0 {
        0
    } else {
        broken_at_all(edges, rules, n - 1) + if candidate_reason(edges[n - 1], rules) is Some {
            1nat
        } else {
            0nat
        }
    }
}

/// The edges that break a rule are those that are counted as violations and those that are
/// counted as suppressed.
pub proof fn violations_are_counted_once(
    edges: Seq<RawEdgeView>,
    rules: Seq<ViolationRuleView>,
    exceptions: Seq<ViolationExceptionView>,
    n: int,
)
    requires
        0 <= n <= edges.len(),
    ensures
        broken(edges, rules, exceptions, false, n) + broken(edges, rules, exceptions, true, n)
            == broken_at_all(edges, rules, n),
    decreases n,
{
    if n > 0 {
        violations_are_counted_once(edges, rules, exceptions, n - 1);
    }
}

/// The picture of a code graph.
pub struct VizOutput {
    pub contexts: Vec<ContextInfo>,
    pub nodes: Vec<VizNode>,
    pub edges: Vec<VizEdge>,
    pub violation_count: usize,
    pub suppressed_violation_count: usize,
}

/// The first `n` symbols where they stand.
pub open spec fn placed_nodes(nodes: Seq<RawNodeView>, n: int) -> Seq<VizNodeView>
    decreases n,
{
    if n <= 0 {
        Seq::empty()
    } else {
        placed_nodes(nodes, n - 1).push(node_place(nodes[n - 1]))
    }
}

/// The picture of a code graph.
pub fn build_output(
    nodes: &Vec<RawNode>,
    edges: &Vec<RawEdge>,
    rules: &Vec<ViolationRule>,
    exceptions: &Vec<ViolationException>,
) -> (r: VizOutput)
    ensures
        views(r.contexts@) == contexts_in(views(nodes@)),
        views(r.nodes@) == placed_nodes(views(nodes@), nodes@.len() as int),
        views(r.edges@) == judged_edges(
            views(edges@),
            views(rules@),
            views(exceptions@),
            edges@.len() as int,
        ),
        r.violation_count == broken(
            views(edges@),
            views(rules@),
            views(exceptions@),
            false,
            edges@.len() as int,
        ),
        r.suppressed_violation_count == broken(
            views(edges@),
            views(rules@),
            views(exceptions@),
            true,
            edges@.len() as int,
        ),
{
    let contexts = build_contexts(nodes);
    let mut placed: Vec<VizNode> = Vec::new();
    let mut n: usize = 0;
    while n < nodes.len()
        invariant
            n <= nodes@.len(),
            views(placed@) == placed_nodes(views(nodes@), n as int),
        decreases nodes@.len() - n,
    {
        assert(views(nodes@)[n as int] == nodes@[n as int]@);
        placed.push(place_node(&nodes[n]));
        n = n + 1;
    }
    let ghost rv = views(rules@);
    let ghost xv = views(exceptions@);
    let mut shown: Vec<VizEdge> = Vec::new();
    let mut violation_count: usize = 0;
    let mut suppressed_violation_count: usize = 0;
    let mut n: usize = 0;
    while n < edges.len()
        invariant
            n <= edges@.len(),
            rv == views(rules@),
            xv == views(exceptions@),
            views(shown@) == judged_edges(views(edges@), rv, xv, n as int),
            violation_count <= n,
            suppressed_violation_count <= n,
            violation_count == broken(views(edges@), rv, xv, false, n as int),
            suppressed_violation_count == broken(views(edges@), rv, xv, true, n as int),
        decreases edges@.len() - n,
    {
        let e = &edges[n];
        assert(views(edges@)[n as int] == e@);
        let from_ctx = file_to_context(&e.from_file);
        let to_ctx = file_to_context(&e.to_file);
        let candidate = match context_violation_reason(&from_ctx, &to_ctx, rules) {
            Some(r) => Some(r),
            None => if str_eq(&e.source, "rust-analyzer") {
                e.role_reason.dup()
            } else {
                None
            },
        };
        let covered = edge_exception_reason(
            &from_ctx,
            &to_ctx,
            &e.from_role,
            &e.to_role,
            &e.from_stable_id,
            &e.to_stable_id,
            exceptions,
        ).is_some();
        if candidate.is_some() {
            if covered {
                suppressed_violation_count = suppressed_violation_count + 1;
            } else {
                violation_count = violation_count + 1;
            }
        }
        let violation = if covered {
            None
        } else {
            candidate
        };
        let edge = VizEdge {
            from: e.from_id,
            to: e.to_id,
            edge_type: e.edge_type.dup(),
            source: e.source.dup(),
            violation,
        };
        assert(edge@ == judged(e@, rv, xv));
        shown.push(edge);
        n = n + 1;
    }
    VizOutput {
        contexts,
        nodes: placed,
        edges: shown,
        violation_count,
        suppressed_violation_count,
    }
}

// ---------------------------------------------------------------------------
// The page
// ---------------------------------------------------------------------------

/// JSON as it can stand in a script element.
pub open spec fn script_json(json: Seq<char>) -> Seq<char> {
    replaced(json, "</script>"@, "<\\/script>"@)
}

proof fn tail_was_there(s: Seq<char>, p: Seq<char>, by: Seq<char>, t: Seq<char>)
    requires
        p.len() > 0,
        p[0] == '<',
        by.len() > 0,
        by[0] == '<',
        forall|i: int| 0 <= i < t.len() ==> t[i] != '<',
        begins_with(replaced(s, p, by), t),
    ensures
        begins_with(s, t),
    decreases s.len(),
{
    let r = replaced(s, p, by);
    if s.len() >= p.len() {
        if t.len() == 0 {
            assert(s.take(0) =~= t);
        } else {
            assert(r.take(t.len() as int)[0] == t[0]);
            if begins_with(s, p) {
                assert(r[0] == '<');
            } else {
                let rest = replaced(s.skip(1), p, by);
                let u = t.skip(1);
                assert(r =~= seq![s[0]] + rest);
                assert(rest.take(u.len() as int) =~= u) by {
                    assert forall|i: int| 0 <= i < u.len() implies rest[i] == u[i] by {
                        assert(r.take(t.len() as int)[i + 1] == t[i + 1]);
                    }
                }
                tail_was_there(s.skip(1), p, by, u);
                assert(s.take(t.len() as int) =~= t) by {
                    assert forall|i: int| 0 <= i < t.len() implies s[i] == t[i] by {
                        if i > 0 {
                            assert(s.skip(1).take(u.len() as int)[i - 1] == u[i - 1]);
                        }
                    }
                }
            }
        }
    }
}

proof fn no_end_tag(s: Seq<char>, i: int)
    ensures
        !occurs_at(script_json(s), "</script>"@, i),
    decreases s.len(),
{
    reveal_strlit("</script>");
    reveal_strlit("<\\/script>");
    let p = "</script>"@;
    let by = "<\\/script>"@;
    let r = script_json(s);
    if occurs_at(r, p, i) {
        assert(r.subrange(i, i + p.len()) == p);
        assert forall|k: int| 0 <= k < p.len() implies r[i + k] == p[k] by {
            assert(r.subrange(i, i + p.len())[k] == p[k]);
        }
        if s.len() < p.len() {
            assert(r == s);
        } else if begins_with(s, p) {
            let rest = script_json(s.skip(p.len() as int));
            assert(r =~= by + rest);
            if i >= by.len() {
                no_end_tag(s.skip(p.len() as int), i - by.len());
                assert(rest.subrange(i - by.len(), i - by.len() + p.len()) =~= p);
            } else {
                assert(r[i + 0] == p[0]);
                assert(r[i] == by[i]);
                assert(i == 0);
                assert(r[i + 1] == p[1]);
                assert(r[1] == by[1]);
            }
        } else {
            let rest = script_json(s.skip(1));
            assert(r =~= seq![s[0]] + rest);
            if i >= 1 {
                no_end_tag(s.skip(1), i - 1);
                assert(rest.subrange(i - 1, i - 1 + p.len()) =~= p);
            } else {
                let t = p.skip(1);
                assert(rest.take(t.len() as int) =~= t) by {
                    assert forall|k: int| 0 <= k < t.len() implies rest[k] == t[k] by {
                        assert(r[i + (k + 1)] == p[k + 1]);
                    }
                }
                tail_was_there(s.skip(1), p, by, t);
                assert(r[i + 0] == p[0]);
                assert(s.take(p.len() as int) =~= p) by {
                    assert forall|k: int| 0 <= k < p.len() implies s[k] == p[k] by {
                        if k > 0 {
                            assert(s.skip(1).take(t.len() as int)[k - 1] == t[k - 1]);
                        }
                    }
                }
            }
        }
    }
}

/// The JSON that stands in the page's script cannot end the script: the end tag does not
/// occur in it.
pub proof fn json_cannot_end_script(json: Seq<char>)
    ensures
        !has_str(script_json(json), "</script>"@),
{
    assert forall|i: int| !occurs_at(script_json(json), "</script>"@, i) by {
        no_end_tag(json, i);
    }
}

/// The page that shows a picture, written as JSON, in a template.
pub fn output_to_html(json: &str, template: &str) -> (r: String)
    ensures
        r@ == replaced(template@, "__GRAPH_DATA__"@, script_json(json@)),
{
    proof {
        reveal_strlit("</script>");
        reveal_strlit("__GRAPH_DATA__");
    }
    let safe = replace(json, "</script>", "<\\/script>");
    replace(template, "__GRAPH_DATA__", &safe)
}

// ---------------------------------------------------------------------------
// What pictures show
// ---------------------------------------------------------------------------

/// An edge is marked as a violation exactly where it couples contexts that a rule keeps apart,
/// or the language server found it and its roles forbid it, and no exception is meant for it.
pub proof fn edges_are_judged(
    e: RawEdgeView,
    rules: Seq<ViolationRuleView>,
    exceptions: Seq<ViolationExceptionView>,
)
    ensures
        ({
            let from = context_of(e.from_file);
            let to = context_of(e.to_file);
            let v = judged(e, rules, exceptions);
            let ruled = from != to && exists|k: int|
                0 <= k < rules.len() && (#[trigger] rules[k]).from_context == from
                    && rules[k].to_context == to;
            let excepted = exists|k: int|
                0 <= k < exceptions.len() && crate::arch::meant_for(
                    #[trigger] exceptions[k],
                    from,
                    to,
                    e.from_role,
                    e.to_role,
                    e.from_stable_id,
                    e.to_stable_id,
                );
            &&& v.violation is Some <==> !excepted && (ruled || (e.source == "rust-analyzer"@
                && e.role_reason is Some))
            &&& v.from == e.from_id && v.to == e.to_id
            &&& v.edge_type == e.edge_type && v.source == e.source
            &&& !excepted && !ruled && e.source == "rust-analyzer"@ ==> v.violation
                == e.role_reason
        }),
{
    let from = context_of(e.from_file);
    let to = context_of(e.to_file);
    crate::arch::forbidden_iff_ruled(from, to, rules);
    crate::arch::exceptions_suppress(
        from,
        to,
        e.from_role,
        e.to_role,
        e.from_stable_id,
        e.to_stable_id,
        exceptions,
        0,
    );
}

/// Every edge and every symbol is shown, in order.
pub proof fn everything_is_shown(
    nodes: Seq<RawNodeView>,
    edges: Seq<RawEdgeView>,
    rules: Seq<ViolationRuleView>,
    exceptions: Seq<ViolationExceptionView>,
    n: int,
    m: int,
)
    requires
        0 <= n <= nodes.len(),
        0 <= m <= edges.len(),
    ensures
        placed_nodes(nodes, n) == nodes.take(n).map_values(|x: RawNodeView| node_place(x)),
        judged_edges(edges, rules, exceptions, m) == edges.take(m).map_values(
            |x: RawEdgeView| judged(x, rules, exceptions),
        ),
    decreases n, m,
{
    let place = |x: RawNodeView| node_place(x);
    let judge = |x: RawEdgeView| judged(x, rules, exceptions);
    if n > 0 {
        everything_is_shown(nodes, edges, rules, exceptions, n - 1, m);
        assert(nodes.take(n).map_values(place) =~= nodes.take(n - 1).map_values(place).push(
            node_place(nodes[n - 1]),
        ));
    } else {
        assert(nodes.take(n).map_values(place) =~= Seq::<VizNodeView>::empty());
        if m > 0 {
            everything_is_shown(nodes, edges, rules, exceptions, n, m - 1);
            assert(edges.take(m).map_values(judge) =~= edges.take(m - 1).map_values(judge).push(
                judged(edges[m - 1], rules, exceptions),
            ));
        } else {
            assert(edges.take(m).map_values(judge) =~= Seq::<VizEdgeView>::empty());
        }
    }
}

/// The violations that are counted are the edges that are marked, and the suppressed ones those
/// that would be but for an exception.
pub proof fn marked_edges_are_counted(
    edges: Seq<RawEdgeView>,
    rules: Seq<ViolationRuleView>,
    exceptions: Seq<ViolationExceptionView>,
    n: int,
)
    requires
        0 <= n <= edges.len(),
    ensures
        broken(edges, rules, exceptions, false, n) == edges.take(n).filter(
            |e: RawEdgeView| judged(e, rules, exceptions).violation is Some,
        ).len(),
        broken(edges, rules, exceptions, true, n) == edges.take(n).filter(
            |e: RawEdgeView|
                judged(e, rules, exceptions).violation is None && judged(
                    e,
                    rules,
                    Seq::empty(),
                ).violation is Some,
        ).len(),
    decreases n,
{
    reveal(Seq::filter);
    if n > 0 {
        marked_edges_are_counted(edges, rules, exceptions, n - 1);
        assert(edges.take(n).drop_last() =~= edges.take(n - 1));
        assert(edges.take(n).last() == edges[n - 1]);
    }
}

/// A symbol is placed in its context, at a place that its stable id alone decides.
pub proof fn places_follow_stable_ids(a: RawNodeView, b: RawNodeView)
    requires
        a.stable_id == b.stable_id,
    ensures
        node_place(a).context == context_of(a.file),
        node_place(a).id == a.id,
        node_place(a).angle == node_place(b).angle,
        node_place(a).distance == node_place(b).distance,
        node_place(a).height == node_place(b).height,
        node_place(a).angle < 0x10000,
        node_place(a).distance < 0x10000,
        node_place(a).height < 0x10000,
{
}

proof fn contexts_are_those_of_files(nodes: Seq<RawNodeView>, n: int)
    requires
        0 <= n <= nodes.len(),
    ensures
        contexts_of(nodes, n).len() == n,
        forall|i: int| 0 <= i < n ==> #[trigger] contexts_of(nodes, n)[i] == context_of(nodes[i].file),
    decreases n,
{
    if n > 0 {
        contexts_are_those_of_files(nodes, n - 1);
    }
}

proof fn listed_contexts(names: Seq<Seq<char>>, all: Seq<Seq<char>>, n: int, i: int)
    requires
        0 <= n <= names.len(),
    ensures
        context_list(names, all, n).len() == n,
        0 <= i < n ==> context_list(names, all, n)[i].name == names[i] && context_list(
            names,
            all,
            n,
        )[i].node_count == times(all, names[i]) as usize && (names[i] == "root"@ <==> context_list(
            names,
            all,
            n,
        )[i].place is None),
    decreases n,
{
    if n > 0 {
        listed_contexts(names, all, n - 1, i);
    }
}

/// Every context of a symbol is shown once, with how many symbols it has; only the root has no
/// place on the ring.
pub proof fn contexts_are_shown_once(nodes: Seq<RawNodeView>, k: int)
    requires
        0 <= k < nodes.len(),
    ensures
        exists|i: int|
            {
                let c = #[trigger] contexts_in(nodes)[i];
                &&& 0 <= i < contexts_in(nodes).len()
                &&& c.name == context_of(nodes[k].file)
                &&& c.node_count == times(
                    contexts_of(nodes, nodes.len() as int),
                    context_of(nodes[k].file),
                ) as usize
                &&& c.place is None <==> c.name == "root"@
            },
        forall|i: int, j: int|
            0 <= i < j < contexts_in(nodes).len() ==> (#[trigger] contexts_in(nodes)[i]).name != (
            #[trigger] contexts_in(nodes)[j]).name,
{
    let all = contexts_of(nodes, nodes.len() as int);
    let names = key_set::<String>(all);
    contexts_are_those_of_files(nodes, nodes.len() as int);
    crate::order::text_keys_stay(all);
    assert(all[k] == context_of(nodes[k].file));
    assert(all.contains(all[k]));
    assert(names.contains(all[k]));
    let i = choose|i: int| 0 <= i < names.len() && names[i] == all[k];
    listed_contexts(names, all, names.len() as int, i);
    assert(contexts_in(nodes)[i].name == all[k]);
    assert forall|a: int, b: int| 0 <= a < b < contexts_in(nodes).len() implies (
    #[trigger] contexts_in(nodes)[a]).name != (#[trigger] contexts_in(nodes)[b]).name by {
        listed_contexts(names, all, names.len() as int, a);
        listed_contexts(names, all, names.len() as int, b);
    }
}

} // verus!
