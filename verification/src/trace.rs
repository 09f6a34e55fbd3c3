//! Paths through the code graph: a breadth-first search for the simple paths that start at
//! a symbol, and the document that shows them.

use vstd::prelude::*;

use crate::model::{dup_all, or_text, text_or, views, Dup};
use crate::text::{
    ascii_lower, bool_text, concat3, contains, dec, has_str, i64_text, int_text, str_eq,
    text_of_bool, to_ascii_lowercase, usize_text,
};
use crate::xml::{
    all_are_held, close, count_tokens, empty, finish, goes_on_from, has_tag, holds_all, new_writer,
    no_attrs, open_attrs, tags_stay, tokens_of, with_close, with_empty, with_open, xml_events,
    xml_text, Attrs, Node, XmlWriter,
};

verus! {

broadcast use crate::model::group_views;

/// What the search needs to know of a symbol.
#[derive(Debug)]
pub struct TraceNode {
    pub id: i64,
    pub name: String,
    pub stable_id: String,
    pub role: String,
    pub signature: Option<String>,
    pub fan_out: i64,
}

/// What a [`TraceNode`] holds.
#[verifier::ext_equal]
pub struct TraceNodeView {
    pub id: i64,
    pub name: Seq<char>,
    pub stable_id: Seq<char>,
    pub role: Seq<char>,
    pub signature: Option<Seq<char>>,
    pub fan_out: i64,
}

impl DeepView for TraceNode {
    type V = TraceNodeView;

    open spec fn deep_view(&self) -> TraceNodeView {
        TraceNodeView {
            id: self.id.deep_view(),
            name: self.name.deep_view(),
            stable_id: self.stable_id.deep_view(),
            role: self.role.deep_view(),
            signature: self.signature.deep_view(),
            fan_out: self.fan_out.deep_view(),
        }
    }
}

impl View for TraceNode {
    type V = TraceNodeView;

    open spec fn view(&self) -> TraceNodeView {
        self.deep_view()
    }
}

impl Dup for TraceNode {
    fn dup(&self) -> (r: TraceNode) {
        TraceNode {
            id: self.id.dup(),
            name: self.name.dup(),
            stable_id: self.stable_id.dup(),
            role: self.role.dup(),
            signature: self.signature.dup(),
            fan_out: self.fan_out.dup(),
        }
    }
}

/// A trusted edge of the code graph.
#[derive(Debug)]
pub struct TraceEdge {
    pub from_id: i64,
    pub to_id: i64,
    pub edge_type: String,
    pub source: String,
}

/// What a [`TraceEdge`] holds.
#[verifier::ext_equal]
pub struct TraceEdgeView {
    pub from_id: i64,
    pub to_id: i64,
    pub edge_type: Seq<char>,
    pub source: Seq<char>,
}

impl DeepView for TraceEdge {
    type V = TraceEdgeView;

    open spec fn deep_view(&self) -> TraceEdgeView {
        TraceEdgeView {
            from_id: self.from_id.deep_view(),
            to_id: self.to_id.deep_view(),
            edge_type: self.edge_type.deep_view(),
            source: self.source.deep_view(),
        }
    }
}

impl View for TraceEdge {
    type V = TraceEdgeView;

    open spec fn view(&self) -> TraceEdgeView {
        self.deep_view()
    }
}

/// The symbols and trusted edges that paths are looked for in.
#[derive(Debug)]
pub struct TraceGraph {
    pub nodes: Vec<TraceNode>,
    pub edges: Vec<TraceEdge>,
}

/// What a [`TraceGraph`] holds.
#[verifier::ext_equal]
pub struct TraceGraphView {
    pub nodes: Seq<TraceNodeView>,
    pub edges: Seq<TraceEdgeView>,
}

impl DeepView for TraceGraph {
    type V = TraceGraphView;

    open spec fn deep_view(&self) -> TraceGraphView {
        TraceGraphView {
            nodes: views(self.nodes@),
            edges: views(self.edges@),
        }
    }
}

impl View for TraceGraph {
    type V = TraceGraphView;

    open spec fn view(&self) -> TraceGraphView {
        self.deep_view()
    }
}

/// One step of a path, along the edge from `from` to `to`.
#[derive(Debug)]
pub struct Hop {
    pub from: i64,
    pub to: i64,
    pub edge_type: String,
    pub source: String,
}

/// What a [`Hop`] holds.
#[verifier::ext_equal]
pub struct HopView {
    pub from: i64,
    pub to: i64,
    pub edge_type: Seq<char>,
    pub source: Seq<char>,
}

impl DeepView for Hop {
    type V = HopView;

    open spec fn deep_view(&self) -> HopView {
        HopView {
            from: self.from.deep_view(),
            to: self.to.deep_view(),
            edge_type: self.edge_type.deep_view(),
            source: self.source.deep_view(),
        }
    }
}

impl View for Hop {
    type V = HopView;

    open spec fn view(&self) -> HopView {
        self.deep_view()
    }
}

impl Dup for Hop {
    fn dup(&self) -> (r: Hop) {
        Hop {
            from: self.from.dup(),
            to: self.to.dup(),
            edge_type: self.edge_type.dup(),
            source: self.source.dup(),
        }
    }
}

/// A path through the code graph.
#[derive(Debug)]
pub struct TracePath {
    pub hops: Vec<Hop>,
}

/// What a [`TracePath`] holds.
#[verifier::ext_equal]
pub struct TracePathView {
    pub hops: Seq<HopView>,
}

impl DeepView for TracePath {
    type V = TracePathView;

    open spec fn deep_view(&self) -> TracePathView {
        TracePathView {
            hops: views(self.hops@),
        }
    }
}

impl View for TracePath {
    type V = TracePathView;

    open spec fn view(&self) -> TracePathView {
        self.deep_view()
    }
}

impl Dup for TracePath {
    fn dup(&self) -> (r: TracePath) {
        TracePath {
            hops: dup_all(&self.hops),
        }
    }
}

/// A path that the search may still extend: the symbols on it, from the start on, and the
/// steps between them.
#[derive(Debug)]
pub struct Partial {
    pub nodes: Vec<i64>,
    pub hops: Vec<Hop>,
}

/// What a [`Partial`] holds.
#[verifier::ext_equal]
pub struct PartialView {
    pub nodes: Seq<i64>,
    pub hops: Seq<HopView>,
}

impl DeepView for Partial {
    type V = PartialView;

    open spec fn deep_view(&self) -> PartialView {
        PartialView {
            nodes: views(self.nodes@),
            hops: views(self.hops@),
        }
    }
}

impl View for Partial {
    type V = PartialView;

    open spec fn view(&self) -> PartialView {
        self.deep_view()
    }
}

/// Which way edges are followed.
#[derive(Clone, Copy, PartialEq, Eq, Structural, Debug)]
pub enum Direction {
    Outgoing,
    Incoming,
    Both,
}

/// The direction that a word names, in any ASCII case.
pub open spec fn direction_of(word: Seq<char>) -> Option<Direction> {
    let w = ascii_lower(word);
    if w == "outgoing"@ || w == "write"@ {
        Some(Direction::Outgoing)
    } else if w == "incoming"@ || w == "read"@ {
        Some(Direction::Incoming)
    } else if w == "both"@ {
        Some(Direction::Both)
    } else {
        None
    }
}

/// The complaint about a word that names no direction.
pub open spec fn direction_error(word: Seq<char>) -> Seq<char> {
    "invalid direction '"@ + word + "'; expected outgoing|incoming|both|read|write"@
}

/// The direction that a word names: `write` and `read` stand for outgoing and incoming.
pub fn parse_direction(word: &str) -> (r: Result<Direction, String>)
    ensures
        match r {
            Ok(d) => direction_of(word@) == Some(d),
            Err(e) => direction_of(word@) is None && e@ == direction_error(word@),
        },
{
    let w = to_ascii_lowercase(word);
    if str_eq(&w, "outgoing") || str_eq(&w, "write") {
        Ok(Direction::Outgoing)
    } else if str_eq(&w, "incoming") || str_eq(&w, "read") {
        Ok(Direction::Incoming)
    } else if str_eq(&w, "both") {
        Ok(Direction::Both)
    } else {
        Err(
            concat3(
                "invalid direction '",
                word,
                "'; expected outgoing|incoming|both|read|write",
            ),
        )
    }
}

/// The direction's name.
pub open spec fn direction_text(d: Direction) -> Seq<char> {
    match d {
        Direction::Outgoing => "outgoing"@,
        Direction::Incoming => "incoming"@,
        Direction::Both => "both"@,
    }
}

fn direction_name(d: Direction) -> (r: &'static str)
    ensures
        r@ == direction_text(d),
{
    match d {
        Direction::Outgoing => "outgoing",
        Direction::Incoming => "incoming",
        Direction::Both => "both",
    }
}

/// The first symbol from `i` on with the id.
pub open spec fn node_at(nodes: Seq<TraceNodeView>, id: i64, i: int) -> Option<TraceNodeView>
    decreases nodes.len() - i,
{
    if i < 0 || i >= nodes.len() {
        None
    } else if nodes[i].id == id {
        Some(nodes[i])
    } else {
        node_at(nodes, id, i + 1)
    }
}

/// The symbol with the id.
pub open spec fn node_of(g: TraceGraphView, id: i64) -> Option<TraceNodeView> {
    node_at(g.nodes, id, 0)
}

fn find_node<'a>(g: &'a TraceGraph, id: i64) -> (r: Option<&'a TraceNode>)
    ensures
        match r {
            Some(n) => node_of(g@, id) == Some(n@),
            None => node_of(g@, id) is None,
        },
{
    let mut i: usize = 0;
    while i < g.nodes.len()
        invariant
            i <= g.nodes@.len(),
            node_of(g@, id) == node_at(g@.nodes, id, i as int),
        decreases g.nodes@.len() - i,
    {
        assert(g@.nodes[i as int] == g.nodes@[i as int]@);
        if g.nodes[i].id == id {
            return Some(&g.nodes[i]);
        }
        i = i + 1;
    }
    None
}

/// A step that can be taken: the symbol it leads to, and the edge.
#[verifier::ext_equal]
pub struct Step {
    pub next: i64,
    pub hop: HopView,
}

/// The steps along the first `n` edges that leave the symbol.
pub open spec fn steps_out(edges: Seq<TraceEdgeView>, at: i64, n: int) -> Seq<Step>
    decreases n,
{
    if n <= 0 {
        Seq::empty()
    } else {
        let e = edges[n - 1];
        let rest = steps_out(edges, at, n - 1);
        if e.from_id == at {
            rest.push(
                Step {
                    next: e.to_id,
                    hop: HopView { from: at, to: e.to_id, edge_type: e.edge_type, source: e.source },
                },
            )
        } else {
            rest
        }
    }
}

/// `before` and the steps against the first `n` edges that arrive at the symbol.
pub open spec fn steps_in(before: Seq<Step>, edges: Seq<TraceEdgeView>, at: i64, n: int) -> Seq<Step>
    decreases n,
{
    if n <= 0 {
        before
    } else {
        let e = edges[n - 1];
        let rest = steps_in(before, edges, at, n - 1);
        if e.to_id == at {
            rest.push(
                Step {
                    next: e.from_id,
                    hop: HopView { from: e.from_id, to: at, edge_type: e.edge_type, source: e.source },
                },
            )
        } else {
            rest
        }
    }
}

/// The steps from a symbol: along the edges that leave it, then against those that arrive.
pub open spec fn steps_from(g: TraceGraphView, at: i64, d: Direction) -> Seq<Step> {
    let n = g.edges.len() as int;
    match d {
        Direction::Outgoing => steps_out(g.edges, at, n),
        Direction::Incoming => steps_in(Seq::empty(), g.edges, at, n),
        Direction::Both => steps_in(steps_out(g.edges, at, n), g.edges, at, n),
    }
}

/// A step that can be taken.
#[derive(Debug)]
pub struct Move {
    pub next: i64,
    pub hop: Hop,
}

/// What a [`Move`] holds.
#[verifier::ext_equal]
pub struct MoveView {
    pub next: i64,
    pub hop: HopView,
}

impl DeepView for Move {
    type V = MoveView;

    open spec fn deep_view(&self) -> MoveView {
        MoveView {
            next: self.next.deep_view(),
            hop: self.hop.deep_view(),
        }
    }
}

impl View for Move {
    type V = MoveView;

    open spec fn view(&self) -> MoveView {
        self.deep_view()
    }
}

/// The step that a move is.
pub open spec fn step_of(m: MoveView) -> Step {
    Step { next: m.next, hop: m.hop }
}

/// The steps that moves are.
pub open spec fn steps_of(ms: Seq<MoveView>) -> Seq<Step> {
    Seq::new(ms.len(), |i: int| step_of(ms[i]))
}

proof fn steps_of_push(ms: Seq<MoveView>, m: MoveView)
    ensures
        steps_of(ms.push(m)) == steps_of(ms).push(step_of(m)),
{
    assert(steps_of(ms.push(m)) =~= steps_of(ms).push(step_of(m)));
}

fn moves_from(g: &TraceGraph, at: i64, d: Direction) -> (r: Vec<Move>)
    ensures
        steps_of(views(r@)) == steps_from(g@, at, d),
{
    let mut out: Vec<Move> = Vec::new();
    assert(steps_of(views(out@)) =~= Seq::<Step>::empty());
    if d != Direction::Incoming {
        let mut i: usize = 0;
        while i < g.edges.len()
            invariant
                i <= g.edges@.len(),
                steps_of(views(out@)) == steps_out(g@.edges, at, i as int),
            decreases g.edges@.len() - i,
        {
            let e = &g.edges[i];
            assert(g@.edges[i as int] == e@);
            if e.from_id == at {
                let hop = Hop {
                    from: at,
                    to: e.to_id,
                    edge_type: e.edge_type.dup(),
                    source: e.source.dup(),
                };
                let m = Move { next: e.to_id, hop };
                proof {
                    steps_of_push(views(out@), m@);
                }
                out.push(m);
            }
            i = i + 1;
        }
    }
    if d != Direction::Outgoing {
        let ghost before = steps_of(views(out@));
        let mut i: usize = 0;
        while i < g.edges.len()
            invariant
                i <= g.edges@.len(),
                steps_of(views(out@)) == steps_in(before, g@.edges, at, i as int),
            decreases g.edges@.len() - i,
        {
            let e = &g.edges[i];
            assert(g@.edges[i as int] == e@);
            if e.to_id == at {
                let hop = Hop {
                    from: e.from_id,
                    to: at,
                    edge_type: e.edge_type.dup(),
                    source: e.source.dup(),
                };
                let m = Move { next: e.from_id, hop };
                proof {
                    steps_of_push(views(out@), m@);
                }
                out.push(m);
            }
            i = i + 1;
        }
    }
    out
}

/// What the search is for and how far it goes.
#[derive(Clone, Copy, Debug)]
pub struct Goal {
    /// The symbol that ends a path, if one is given. Paths that run to the depth limit or into a
    /// dead end without it are found too.
    pub target: Option<i64>,
    pub direction: Direction,
    pub max_depth: usize,
    pub max_paths: usize,
}

/// How far the search has come: the paths found, the paths to extend in the next round, and
/// whether it ran into a symbol that the graph does not hold.
#[verifier::ext_equal]
pub struct Search {
    pub found: Seq<TracePathView>,
    pub next: Seq<PartialView>,
    pub missing: bool,
}

/// The search is over.
pub open spec fn halted(s: Search, goal: Goal) -> bool {
    s.missing || s.found.len() >= goal.max_paths
}

/// The search with one more path found.
pub open spec fn with_found(s: Search, hops: Seq<HopView>) -> Search {
    Search { found: s.found.push(TracePathView { hops }), next: s.next, missing: s.missing }
}

/// The search with one more path to extend.
pub open spec fn with_next(s: Search, p: PartialView) -> Search {
    Search { found: s.found, next: s.next.push(p), missing: s.missing }
}

/// Paths end at structural leaves and at worker boundaries.
pub open spec fn completes(n: TraceNodeView) -> bool {
    n.fan_out == 0 || n.role == "leaf"@ || n.role == "infra"@ || n.role == "entrypoint"@
}

/// The path with one more step.
pub open spec fn extended(p: PartialView, step: Step) -> PartialView {
    PartialView { nodes: p.nodes.push(step.next), hops: p.hops.push(step.hop) }
}

/// The search after a step of the path was looked at: steps back onto the path are left
/// out; a path that reaches the target, or a completion where there is no target, is
/// found; every other path is extended in the next round.
pub open spec fn after_step(
    s: Search,
    g: TraceGraphView,
    goal: Goal,
    p: PartialView,
    step: Step,
) -> Search {
    if halted(s, goal) || p.nodes.contains(step.next) {
        s
    } else {
        let q = extended(p, step);
        match goal.target {
            Some(t) => if t == step.next {
                with_found(s, q.hops)
            } else {
                with_next(s, q)
            },
            None => match node_of(g, step.next) {
                None => Search { found: s.found, next: s.next, missing: true },
                Some(n) => if completes(n) {
                    with_found(s, q.hops)
                } else {
                    with_next(s, q)
                },
            },
        }
    }
}

/// The search after the first `n` steps of the path.
pub open spec fn after_steps(
    s: Search,
    g: TraceGraphView,
    goal: Goal,
    p: PartialView,
    steps: Seq<Step>,
    n: int,
) -> Search
    decreases n,
{
    if n <= 0 {
        s
    } else {
        after_step(after_steps(s, g, goal, p, steps, n - 1), g, goal, p, steps[n - 1])
    }
}

/// The search after a path was looked at: one that is as long as allowed, or that has no
/// step, is found as it is.
pub open spec fn after_path(s: Search, g: TraceGraphView, goal: Goal, p: PartialView) -> Search {
    if halted(s, goal) {
        s
    } else if p.hops.len() >= goal.max_depth {
        with_found(s, p.hops)
    } else {
        let steps = steps_from(g, p.nodes.last(), goal.direction);
        if steps.len() == 0 {
            with_found(s, p.hops)
        } else {
            after_steps(s, g, goal, p, steps, steps.len() as int)
        }
    }
}

/// The search after the first `n` paths of a round.
pub open spec fn after_paths(
    s: Search,
    g: TraceGraphView,
    goal: Goal,
    round: Seq<PartialView>,
    n: int,
) -> Search
    decreases n,
{
    if n <= 0 {
        s
    } else {
        after_path(after_paths(s, g, goal, round, n - 1), g, goal, round[n - 1])
    }
}

/// The search after `left + 1` rounds, each with the paths that the round before it left to
/// extend.
pub open spec fn after_rounds(s: Search, g: TraceGraphView, goal: Goal, left: int) -> Search
    decreases left,
{
    let round = s.next;
    let t = after_paths(
        Search { found: s.found, next: Seq::empty(), missing: s.missing },
        g,
        goal,
        round,
        round.len() as int,
    );
    if left <= 0 {
        t
    } else {
        after_rounds(t, g, goal, left - 1)
    }
}

/// The search before it starts.
pub open spec fn search_start(start: i64) -> Search {
    Search {
        found: Seq::empty(),
        next: Seq::<PartialView>::empty().push(
            PartialView { nodes: Seq::<i64>::empty().push(start), hops: Seq::empty() },
        ),
        missing: false,
    }
}

/// The whole search: as many rounds as a path may have steps, and one more.
pub open spec fn searched(g: TraceGraphView, goal: Goal, start: i64) -> Search {
    after_rounds(search_start(start), g, goal, goal.max_depth as int)
}

/// The search as it runs.
pub struct SearchState {
    pub found: Vec<TracePath>,
    pub next: Vec<Partial>,
    pub missing: bool,
}

impl SearchState {
    /// How far the search has come.
    pub open spec fn view(&self) -> Search {
        Search { found: views(self.found@), next: views(self.next@), missing: self.missing }
    }
}

fn has_id(v: &Vec<i64>, id: i64) -> (r: bool)
    ensures
        r == views(v@).contains(id),
{
    let mut i: usize = 0;
    while i < v.len()
        invariant
            i <= v@.len(),
            forall|k: int| 0 <= k < i ==> views(v@)[k] != id,
        decreases v@.len() - i,
    {
        if v[i] == id {
            assert(views(v@)[i as int] == id);
            return true;
        }
        i = i + 1;
    }
    false
}

fn is_completion(n: &TraceNode) -> (r: bool)
    ensures
        r == completes(n@),
{
    n.fan_out == 0 || str_eq(&n.role, "leaf") || str_eq(&n.role, "infra") || str_eq(
        &n.role,
        "entrypoint",
    )
}

fn extend_path(p: &Partial, m: &Move) -> (q: Partial)
    ensures
        q@ == extended(p@, step_of(m@)),
{
    let mut nodes = dup_all(&p.nodes);
    nodes.push(m.next);
    let mut hops = dup_all(&p.hops);
    hops.push(m.hop.dup());
    Partial { nodes, hops }
}

fn take_step(s: &mut SearchState, g: &TraceGraph, goal: Goal, p: &Partial, m: &Move)
    ensures
        final(s)@ == after_step(old(s)@, g@, goal, p@, step_of(m@)),
{
    if s.missing || s.found.len() >= goal.max_paths || has_id(&p.nodes, m.next) {
        return;
    }
    let q = extend_path(p, m);
    let done = match goal.target {
        Some(t) => t == m.next,
        None => match find_node(g, m.next) {
            None => {
                s.missing = true;
                return;
            },
            Some(n) => is_completion(n),
        },
    };
    if done {
        s.found.push(TracePath { hops: q.hops });
    } else {
        s.next.push(q);
    }
}

fn take_path(s: &mut SearchState, g: &TraceGraph, goal: Goal, p: &Partial)
    requires
        p@.nodes.len() > 0,
    ensures
        final(s)@ == after_path(old(s)@, g@, goal, p@),
{
    if s.missing || s.found.len() >= goal.max_paths {
        return;
    }
    if p.hops.len() >= goal.max_depth {
        s.found.push(TracePath { hops: dup_all(&p.hops) });
        return;
    }
    let at = p.nodes[p.nodes.len() - 1];
    assert(p@.nodes.last() == at);
    let moves = moves_from(g, at, goal.direction);
    let ghost steps = steps_of(views(moves@));
    assert(steps.len() == moves@.len());
    if moves.len() == 0 {
        s.found.push(TracePath { hops: dup_all(&p.hops) });
        return;
    }
    let ghost start = s@;
    let mut i: usize = 0;
    while i < moves.len()
        invariant
            i <= moves@.len(),
            steps == steps_of(views(moves@)),
            s@ == after_steps(start, g@, goal, p@, steps, i as int),
        decreases moves@.len() - i,
    {
        assert(steps[i as int] == step_of(moves@[i as int]@));
        take_step(s, g, goal, p, &moves[i]);
        i = i + 1;
    }
}

/// Every path to extend has a symbol on it.
pub open spec fn grounded(next: Seq<PartialView>) -> bool {
    forall|i: int| 0 <= i < next.len() ==> (#[trigger] next[i]).nodes.len() > 0
}

proof fn steps_keep_grounded(
    s: Search,
    g: TraceGraphView,
    goal: Goal,
    p: PartialView,
    steps: Seq<Step>,
    n: int,
)
    requires
        grounded(s.next),
    ensures
        grounded(after_steps(s, g, goal, p, steps, n).next),
    decreases n,
{
    if n > 0 {
        steps_keep_grounded(s, g, goal, p, steps, n - 1);
    }
}

proof fn path_keeps_grounded(s: Search, g: TraceGraphView, goal: Goal, p: PartialView)
    requires
        grounded(s.next),
    ensures
        grounded(after_path(s, g, goal, p).next),
{
    let steps = steps_from(g, p.nodes.last(), goal.direction);
    steps_keep_grounded(s, g, goal, p, steps, steps.len() as int);
}

/// Search for the paths from a symbol.
pub fn search_paths(g: &TraceGraph, goal: Goal, start: i64) -> (s: SearchState)
    ensures
        s@ == searched(g@, goal, start),
{
    let mut nodes: Vec<i64> = Vec::new();
    nodes.push(start);
    let mut next: Vec<Partial> = Vec::new();
    next.push(Partial { nodes, hops: Vec::new() });
    let mut s = SearchState { found: Vec::new(), next, missing: false };
    assert(s@ == search_start(start));
    let ghost all = searched(g@, goal, start);
    let mut left: usize = goal.max_depth;
    loop
        invariant_except_break
            all == after_rounds(s@, g@, goal, left as int),
        invariant
            left <= goal.max_depth,
            grounded(s@.next),
        ensures
            s@ == all,
        decreases left,
    {
        let ghost before = s@;
        let round = s.next;
        s = SearchState { found: s.found, next: Vec::new(), missing: s.missing };
        let ghost blank = s@;
        assert(views(round@) == before.next);
        let mut i: usize = 0;
        while i < round.len()
            invariant
                i <= round@.len(),
                grounded(views(round@)),
                grounded(s@.next),
                s@ == after_paths(blank, g@, goal, views(round@), i as int),
            decreases round@.len() - i,
        {
            let ghost st = s@;
            assert(views(round@)[i as int] == round@[i as int]@);
            take_path(&mut s, g, goal, &round[i]);
            proof {
                path_keeps_grounded(st, g@, goal, round@[i as int]@);
            }
            i = i + 1;
        }
        if left == 0 {
            break;
        }
        left = left - 1;
    }
    s
}

// ---------------------------------------------------------------------------
// What the search promises
// ---------------------------------------------------------------------------

/// The steps join: each goes between the symbol it starts from and the one it leads to,
/// one way or the other.
pub open spec fn joins(nodes: Seq<i64>, hops: Seq<HopView>) -> bool {
    &&& nodes.len() == hops.len() + 1
    &&& forall|i: int|
        0 <= i < hops.len() ==> ({
            ||| (#[trigger] hops[i]).from == nodes[i] && hops[i].to == nodes[i + 1]
            ||| hops[i].to == nodes[i] && hops[i].from == nodes[i + 1]
        })
}

/// A path from the start over the symbols, none of them twice.
pub open spec fn simple_walk(start: i64, nodes: Seq<i64>, hops: Seq<HopView>) -> bool {
    joins(nodes, hops) && nodes[0] == start && nodes.no_duplicates()
}

/// The steps are those of a simple path from the start, with at most `limit` steps.
pub open spec fn simple_path(start: i64, hops: Seq<HopView>, limit: int) -> bool {
    hops.len() <= limit && exists|nodes: Seq<i64>| simple_walk(start, nodes, hops)
}

/// What holds all through the search.
pub open spec fn sound(s: Search, goal: Goal, start: i64) -> bool {
    &&& s.found.len() <= goal.max_paths
    &&& forall|i: int|
        0 <= i < s.found.len() ==> simple_path(
            start,
            (#[trigger] s.found[i]).hops,
            goal.max_depth as int,
        )
    &&& forall|i: int|
        0 <= i < s.next.len() ==> simple_walk(start, (#[trigger] s.next[i]).nodes, s.next[i].hops)
            && s.next[i].hops.len() <= goal.max_depth
}

proof fn steps_out_join(edges: Seq<TraceEdgeView>, at: i64, n: int, k: int)
    requires
        0 <= n <= edges.len(),
        0 <= k < steps_out(edges, at, n).len(),
    ensures
        steps_out(edges, at, n)[k].hop.from == at,
        steps_out(edges, at, n)[k].hop.to == steps_out(edges, at, n)[k].next,
    decreases n,
{
    if n > 0 && k < steps_out(edges, at, n - 1).len() {
        steps_out_join(edges, at, n - 1, k);
    }
}

proof fn steps_in_join(before: Seq<Step>, edges: Seq<TraceEdgeView>, at: i64, n: int, k: int)
    requires
        0 <= n <= edges.len(),
        0 <= k < steps_in(before, edges, at, n).len(),
    ensures
        steps_in(before, edges, at, n).len() >= before.len(),
        k < before.len() ==> steps_in(before, edges, at, n)[k] == before[k],
        k >= before.len() ==> steps_in(before, edges, at, n)[k].hop.to == at && steps_in(
            before,
            edges,
            at,
            n,
        )[k].hop.from == steps_in(before, edges, at, n)[k].next,
    decreases n,
{
    if n > 0 {
        if steps_in(before, edges, at, n - 1).len() > 0 {
            let m = steps_in(before, edges, at, n - 1).len() - 1;
            steps_in_join(before, edges, at, n - 1, if k < m { k } else { m });
        } else {
            steps_in_length(before, edges, at, n - 1);
        }
    }
}

proof fn steps_in_length(before: Seq<Step>, edges: Seq<TraceEdgeView>, at: i64, n: int)
    ensures
        steps_in(before, edges, at, n).len() >= before.len(),
    decreases n,
{
    if n > 0 {
        steps_in_length(before, edges, at, n - 1);
    }
}

/// A step from a symbol goes along an edge between it and the symbol it leads to.
proof fn steps_join(g: TraceGraphView, at: i64, d: Direction, k: int)
    requires
        0 <= k < steps_from(g, at, d).len(),
    ensures
        ({
            let s = steps_from(g, at, d)[k];
            (s.hop.from == at && s.hop.to == s.next) || (s.hop.to == at && s.hop.from == s.next)
        }),
{
    let n = g.edges.len() as int;
    let out = steps_out(g.edges, at, n);
    if d == Direction::Outgoing {
        steps_out_join(g.edges, at, n, k);
    } else if d == Direction::Incoming {
        steps_in_join(Seq::empty(), g.edges, at, n, k);
    } else {
        steps_in_join(out, g.edges, at, n, k);
        if k < out.len() {
            steps_out_join(g.edges, at, n, k);
        }
    }
}

proof fn step_is_sound(
    s: Search,
    g: TraceGraphView,
    goal: Goal,
    p: PartialView,
    step: Step,
    start: i64,
)
    requires
        sound(s, goal, start),
        simple_walk(start, p.nodes, p.hops),
        p.hops.len() < goal.max_depth,
        (step.hop.from == p.nodes.last() && step.hop.to == step.next) || (step.hop.to
            == p.nodes.last() && step.hop.from == step.next),
    ensures
        sound(after_step(s, g, goal, p, step), goal, start),
{
    if !halted(s, goal) && !p.nodes.contains(step.next) {
        let q = extended(p, step);
        assert(simple_walk(start, q.nodes, q.hops)) by {
            assert forall|i: int| 0 <= i < q.hops.len() implies ({
                ||| (#[trigger] q.hops[i]).from == q.nodes[i] && q.hops[i].to == q.nodes[i + 1]
                ||| q.hops[i].to == q.nodes[i] && q.hops[i].from == q.nodes[i + 1]
            }) by {
                if i < p.hops.len() {
                    assert(q.hops[i] == p.hops[i]);
                }
            }
        }
        assert(simple_path(start, q.hops, goal.max_depth as int));
    }
}

proof fn steps_are_sound(
    s: Search,
    g: TraceGraphView,
    goal: Goal,
    p: PartialView,
    n: int,
    start: i64,
)
    requires
        sound(s, goal, start),
        simple_walk(start, p.nodes, p.hops),
        p.hops.len() < goal.max_depth,
        0 <= n <= steps_from(g, p.nodes.last(), goal.direction).len(),
    ensures
        sound(
            after_steps(
                s,
                g,
                goal,
                p,
                steps_from(g, p.nodes.last(), goal.direction),
                n,
            ),
            goal,
            start,
        ),
    decreases n,
{
    if n > 0 {
        let steps = steps_from(g, p.nodes.last(), goal.direction);
        steps_are_sound(s, g, goal, p, n - 1, start);
        steps_join(g, p.nodes.last(), goal.direction, n - 1);
        step_is_sound(after_steps(s, g, goal, p, steps, n - 1), g, goal, p, steps[n - 1], start);
    }
}

proof fn paths_are_sound(
    s: Search,
    g: TraceGraphView,
    goal: Goal,
    round: Seq<PartialView>,
    n: int,
    start: i64,
)
    requires
        sound(s, goal, start),
        0 <= n <= round.len(),
        forall|i: int|
            0 <= i < round.len() ==> simple_walk(start, (#[trigger] round[i]).nodes, round[i].hops)
                && round[i].hops.len() <= goal.max_depth,
    ensures
        sound(after_paths(s, g, goal, round, n), goal, start),
    decreases n,
{
    if n > 0 {
        paths_are_sound(s, g, goal, round, n - 1, start);
        let t = after_paths(s, g, goal, round, n - 1);
        let p = round[n - 1];
        if !halted(t, goal) {
            assert(simple_path(start, p.hops, goal.max_depth as int)) by {
                assert(simple_walk(start, p.nodes, p.hops));
            }
            if p.hops.len() < goal.max_depth {
                let steps = steps_from(g, p.nodes.last(), goal.direction);
                steps_are_sound(t, g, goal, p, steps.len() as int, start);
            }
        }
    }
}

proof fn rounds_are_sound(s: Search, g: TraceGraphView, goal: Goal, left: int, start: i64)
    requires
        sound(s, goal, start),
    ensures
        sound(after_rounds(s, g, goal, left), goal, start),
    decreases left,
{
    let blank = Search { found: s.found, next: Seq::empty(), missing: s.missing };
    let n = s.next.len() as int;
    paths_are_sound(blank, g, goal, s.next, n, start);
    if left > 0 {
        rounds_are_sound(after_paths(blank, g, goal, s.next, n), g, goal, left - 1, start);
    }
}

/// At most as many paths are found as are asked for. Each starts at the start symbol, has
/// at most as many steps as are allowed, joins up from symbol to symbol along edges, and
/// comes to no symbol twice.
pub proof fn found_paths_are_simple(g: TraceGraphView, goal: Goal, start: i64)
    ensures
        searched(g, goal, start).found.len() <= goal.max_paths,
        forall|i: int|
            0 <= i < searched(g, goal, start).found.len() ==> simple_path(
                start,
                (#[trigger] searched(g, goal, start).found[i]).hops,
                goal.max_depth as int,
            ),
{
    let s = search_start(start);
    assert(simple_walk(start, s.next[0].nodes, s.next[0].hops));
    rounds_are_sound(s, g, goal, goal.max_depth as int, start);
}

/// The names of directions come in pairs: `write` means outgoing and `read` incoming.
pub proof fn read_and_write_are_aliases()
    ensures
        direction_of("write"@) == direction_of("outgoing"@),
        direction_of("read"@) == direction_of("incoming"@),
{
    reveal_strlit("write");
    reveal_strlit("outgoing");
    reveal_strlit("read");
    reveal_strlit("incoming");
    reveal_strlit("both");
    assert(ascii_lower("write"@) =~= "write"@);
    assert(ascii_lower("outgoing"@) =~= "outgoing"@);
    assert(ascii_lower("read"@) =~= "read"@);
    assert(ascii_lower("incoming"@) =~= "incoming"@);
    assert("read"@.len() != "write"@.len() && "read"@.len() != "outgoing"@.len());
    assert("incoming"@[0] != "outgoing"@[0]);
    assert("incoming"@.len() != "write"@.len());
}

// ---------------------------------------------------------------------------
// The document
// ---------------------------------------------------------------------------

/// A role that says little about what a symbol is for.
pub open spec fn low_role(r: Seq<char>) -> bool {
    r == "leaf"@ || r == "utility"@ || r == "unknown"@
}

fn is_low_role(r: &str) -> (b: bool)
    ensures
        b == low_role(r@),
{
    str_eq(r, "leaf") || str_eq(r, "utility") || str_eq(r, "unknown")
}

/// Both ends of every step are known.
pub open spec fn known_path(g: TraceGraphView, hops: Seq<HopView>) -> bool {
    forall|i: int|
        0 <= i < hops.len() ==> node_of(g, (#[trigger] hops[i]).from) is Some && node_of(
            g,
            hops[i].to,
        ) is Some
}

/// Of the first `n` steps of a path, those that a high-level view shows: the first, the
/// last, and those between symbols not both of low roles.
pub open spec fn telling_hops(g: TraceGraphView, hops: Seq<HopView>, n: int) -> Seq<HopView>
    decreases n,
{
    if n <= 0 {
        Seq::empty()
    } else {
        let rest = telling_hops(g, hops, n - 1);
        let h = hops[n - 1];
        let low = low_role(node_of(g, h.from)->0.role) && low_role(node_of(g, h.to)->0.role);
        if n == 1 || n == hops.len() || !low {
            rest.push(h)
        } else {
            rest
        }
    }
}

/// The steps of a path that are shown.
pub open spec fn shown_hops(g: TraceGraphView, hops: Seq<HopView>, high_level: bool) -> Seq<HopView> {
    if high_level {
        telling_hops(g, hops, hops.len() as int)
    } else {
        hops
    }
}

/// One of the words stands in the name or the signature, in any ASCII case.
pub open spec fn channelish(name: Seq<char>, signature: Option<Seq<char>>) -> bool {
    let n = ascii_lower(name);
    let s = ascii_lower(or_text(signature, ""@));
    ||| has_str(n, "channel"@) || has_str(s, "channel"@)
    ||| has_str(n, "mpsc"@) || has_str(s, "mpsc"@)
    ||| has_str(n, "broadcast"@) || has_str(s, "broadcast"@)
    ||| has_str(n, "oneshot"@) || has_str(s, "oneshot"@)
    ||| has_str(n, "actor"@) || has_str(s, "actor"@)
    ||| has_str(n, "mailbox"@) || has_str(s, "mailbox"@)
}

fn in_either(a: &str, b: &str, word: &str) -> (r: bool)
    ensures
        r == (has_str(a@, word@) || has_str(b@, word@)),
{
    contains(a, word) || contains(b, word)
}

/// Whether a symbol has to do with channels or actors, by its name and signature.
pub fn is_channelish(name: &str, signature: &Option<String>) -> (r: bool)
    ensures
        r == channelish(name@, signature.deep_view()),
{
    let n = to_ascii_lowercase(name);
    let s = to_ascii_lowercase(&text_or(signature, ""));
    in_either(&n, &s, "channel") || in_either(&n, &s, "mpsc") || in_either(&n, &s, "broadcast")
        || in_either(&n, &s, "oneshot") || in_either(&n, &s, "actor") || in_either(
        &n,
        &s,
        "mailbox",
    )
}

/// The signature holds `async `.
pub open spec fn asyncish(signature: Option<Seq<char>>) -> bool {
    signature matches Some(s) && has_str(s, "async "@)
}

fn is_asyncish(signature: &Option<String>) -> (r: bool)
    ensures
        r == asyncish(signature.deep_view()),
{
    match signature {
        Some(s) => contains(s, "async "),
        None => false,
    }
}

/// What the document shows besides the steps.
#[derive(Clone, Copy, Debug)]
pub struct TraceOptions {
    pub with_async_boundaries: bool,
    pub with_channels: bool,
    pub high_level: bool,
}

/// The document with a boundary of the given type, where the condition holds.
pub open spec fn boundary_node(ev: Seq<Node>, there: bool, what: Seq<char>) -> Seq<Node> {
    if there {
        with_empty(ev, "boundary"@, no_attrs().push(("type"@, what)))
    } else {
        ev
    }
}

/// The document with one step between two known symbols.
pub open spec fn hop_nodes(
    ev: Seq<Node>,
    h: HopView,
    from: TraceNodeView,
    to: TraceNodeView,
    o: TraceOptions,
) -> Seq<Node> {
    let ev = with_open(
        ev,
        "hop"@,
        no_attrs()
            .push(("from_id"@, int_text(h.from as int)))
            .push(("to_id"@, int_text(h.to as int)))
            .push(("from_name"@, from.name))
            .push(("to_name"@, to.name))
            .push(("edge_type"@, h.edge_type))
            .push(("source"@, h.source))
            .push(("from_stable_id"@, from.stable_id))
            .push(("to_stable_id"@, to.stable_id)),
    );
    let ev = boundary_node(
        ev,
        o.with_async_boundaries && (asyncish(from.signature) || asyncish(to.signature)),
        "async"@,
    );
    let ev = boundary_node(
        ev,
        o.with_channels && (channelish(from.name, from.signature) || channelish(
            to.name,
            to.signature,
        )),
        "channel_or_actor"@,
    );
    let ev = boundary_node(ev, o.high_level, "high_level_filter"@);
    with_close(ev, "hop"@)
}

/// The document with the first `n` steps.
pub open spec fn hops_nodes(
    ev: Seq<Node>,
    g: TraceGraphView,
    hops: Seq<HopView>,
    o: TraceOptions,
    n: int,
) -> Seq<Node>
    decreases n,
{
    if n <= 0 {
        ev
    } else {
        let h = hops[n - 1];
        hop_nodes(
            hops_nodes(ev, g, hops, o, n - 1),
            h,
            node_of(g, h.from)->0,
            node_of(g, h.to)->0,
            o,
        )
    }
}

/// The document with the path number `index`, unless nothing of it is shown.
pub open spec fn path_nodes(
    ev: Seq<Node>,
    g: TraceGraphView,
    path: TracePathView,
    index: int,
    o: TraceOptions,
) -> Seq<Node> {
    let hops = shown_hops(g, path.hops, o.high_level);
    if hops.len() == 0 {
        ev
    } else {
        let ev = with_open(
            ev,
            "path"@,
            no_attrs().push(("index"@, dec(index as nat))).push(("hops"@, dec(hops.len()))),
        );
        with_close(hops_nodes(ev, g, hops, o, hops.len() as int), "path"@)
    }
}

/// The document with the first `n` paths.
pub open spec fn paths_nodes(
    ev: Seq<Node>,
    g: TraceGraphView,
    paths: Seq<TracePathView>,
    o: TraceOptions,
    n: int,
) -> Seq<Node>
    decreases n,
{
    if n <= 0 {
        ev
    } else {
        path_nodes(paths_nodes(ev, g, paths, o, n - 1), g, paths[n - 1], n, o)
    }
}

/// The document on the paths found, where it takes so many tokens.
pub open spec fn trace_nodes(
    g: TraceGraphView,
    symbol: Seq<char>,
    start: TraceNodeView,
    goal: Goal,
    o: TraceOptions,
    paths: Seq<TracePathView>,
    tokens: Seq<char>,
) -> Seq<Node> {
    let ev = with_open(
        Seq::empty(),
        "trace_path"@,
        no_attrs()
            .push(("symbol"@, symbol))
            .push(("root_id"@, int_text(start.id as int)))
            .push(("root_name"@, start.name))
            .push(("direction"@, direction_text(goal.direction)))
            .push(("max_depth"@, dec(goal.max_depth as nat)))
            .push(("max_paths"@, dec(goal.max_paths as nat)))
            .push(("found"@, dec(paths.len())))
            .push(("high_level"@, bool_text(o.high_level)))
            .push(("tokens"@, tokens)),
    );
    let ev = match goal.target {
        Some(t) => match node_of(g, t) {
            Some(n) => with_empty(
                ev,
                "target"@,
                no_attrs().push(("id"@, int_text(t as int))).push(("name"@, n.name)).push(
                    ("stable_id"@, n.stable_id),
                ),
            ),
            None => ev,
        },
        None => ev,
    };
    with_close(paths_nodes(ev, g, paths, o, paths.len() as int), "trace_path"@)
}

/// The document on the paths found, with the tokens that it takes.
pub open spec fn trace_document(
    g: TraceGraphView,
    symbol: Seq<char>,
    start: TraceNodeView,
    goal: Goal,
    o: TraceOptions,
    paths: Seq<TracePathView>,
) -> Seq<Node> {
    trace_nodes(
        g,
        symbol,
        start,
        goal,
        o,
        paths,
        tokens_of(trace_nodes(g, symbol, start, goal, o, paths, ""@)),
    )
}

/// The steps of every path are between known symbols.
pub open spec fn known_paths(g: TraceGraphView, paths: Seq<TracePathView>) -> bool {
    forall|i: int| 0 <= i < paths.len() ==> known_path(g, (#[trigger] paths[i]).hops)
}

fn path_is_known(g: &TraceGraph, hops: &Vec<Hop>) -> (r: bool)
    ensures
        r == known_path(g@, views(hops@)),
{
    let mut i: usize = 0;
    while i < hops.len()
        invariant
            i <= hops@.len(),
            forall|k: int|
                0 <= k < i ==> node_of(g@, (#[trigger] views(hops@)[k]).from) is Some && node_of(
                    g@,
                    views(hops@)[k].to,
                ) is Some,
        decreases hops@.len() - i,
    {
        assert(views(hops@)[i as int] == hops@[i as int]@);
        if find_node(g, hops[i].from).is_none() || find_node(g, hops[i].to).is_none() {
            return false;
        }
        i = i + 1;
    }
    true
}

fn paths_are_known(g: &TraceGraph, paths: &Vec<TracePath>) -> (r: bool)
    ensures
        r == known_paths(g@, views(paths@)),
{
    let mut i: usize = 0;
    while i < paths.len()
        invariant
            i <= paths@.len(),
            forall|k: int| 0 <= k < i ==> known_path(g@, (#[trigger] views(paths@)[k]).hops),
        decreases paths@.len() - i,
    {
        assert(views(paths@)[i as int] == paths@[i as int]@);
        if !path_is_known(g, &paths[i].hops) {
            return false;
        }
        i = i + 1;
    }
    true
}

fn select_hops(g: &TraceGraph, hops: &Vec<Hop>, high_level: bool) -> (r: Vec<Hop>)
    requires
        known_path(g@, views(hops@)),
    ensures
        views(r@) == shown_hops(g@, views(hops@), high_level),
{
    if !high_level {
        return dup_all(hops);
    }
    let mut out: Vec<Hop> = Vec::new();
    let mut n: usize = 0;
    while n < hops.len()
        invariant
            known_path(g@, views(hops@)),
            n <= hops@.len(),
            views(out@) == telling_hops(g@, views(hops@), n as int),
        decreases hops@.len() - n,
    {
        let h = &hops[n];
        assert(views(hops@)[n as int] == h@);
        let low = match find_node(g, h.from) {
            Some(a) => match find_node(g, h.to) {
                Some(b) => is_low_role(&a.role) && is_low_role(&b.role),
                None => false,
            },
            None => false,
        };
        if n == 0 || n == hops.len() - 1 || !low {
            out.push(h.dup());
        }
        n = n + 1;
    }
    out
}

fn write_boundary(w: &mut XmlWriter, there: bool, what: &str)
    ensures
        xml_events(*final(w)) == boundary_node(xml_events(*old(w)), there, what@),
{
    if there {
        empty(w, "boundary", &Attrs::new().with("type", what));
    }
}

fn write_hop(w: &mut XmlWriter, h: &Hop, from: &TraceNode, to: &TraceNode, o: TraceOptions)
    ensures
        xml_events(*final(w)) == hop_nodes(xml_events(*old(w)), h@, from@, to@, o),
{
    open_attrs(
        w,
        "hop",
        &Attrs::new().with("from_id", &i64_text(h.from)).with("to_id", &i64_text(h.to)).with(
            "from_name",
            &from.name,
        ).with("to_name", &to.name).with("edge_type", &h.edge_type).with("source", &h.source).with(
            "from_stable_id",
            &from.stable_id,
        ).with("to_stable_id", &to.stable_id),
    );
    write_boundary(
        w,
        o.with_async_boundaries && (is_asyncish(&from.signature) || is_asyncish(&to.signature)),
        "async",
    );
    write_boundary(
        w,
        o.with_channels && (is_channelish(&from.name, &from.signature) || is_channelish(
            &to.name,
            &to.signature,
        )),
        "channel_or_actor",
    );
    write_boundary(w, o.high_level, "high_level_filter");
    close(w, "hop");
}

/// What a high-level view shows are steps of the path.
proof fn telling_hops_are_known(g: TraceGraphView, hops: Seq<HopView>, n: int)
    requires
        known_path(g, hops),
        0 <= n <= hops.len(),
    ensures
        known_path(g, telling_hops(g, hops, n)),
    decreases n,
{
    if n > 0 {
        telling_hops_are_known(g, hops, n - 1);
    }
}

fn write_path(w: &mut XmlWriter, g: &TraceGraph, path: &TracePath, index: usize, o: TraceOptions)
    requires
        known_path(g@, path@.hops),
    ensures
        xml_events(*final(w)) == path_nodes(xml_events(*old(w)), g@, path@, index as int, o),
{
    let hops = select_hops(g, &path.hops, o.high_level);
    proof {
        telling_hops_are_known(g@, path@.hops, path@.hops.len() as int);
    }
    assert(views(hops@).len() == hops@.len());
    if hops.len() == 0 {
        return;
    }
    open_attrs(
        w,
        "path",
        &Attrs::new().with("index", &usize_text(index)).with("hops", &usize_text(hops.len())),
    );
    let ghost ev = xml_events(*w);
    let mut n: usize = 0;
    while n < hops.len()
        invariant
            known_path(g@, views(hops@)),
            n <= hops@.len(),
            xml_events(*w) == hops_nodes(ev, g@, views(hops@), o, n as int),
        decreases hops@.len() - n,
    {
        let h = &hops[n];
        assert(views(hops@)[n as int] == h@);
        if let Some(from) = find_node(g, h.from) {
            if let Some(to) = find_node(g, h.to) {
                write_hop(w, h, from, to, o);
            }
        }
        n = n + 1;
    }
    close(w, "path");
}

fn write_trace(
    g: &TraceGraph,
    symbol: &str,
    start: &TraceNode,
    goal: Goal,
    o: TraceOptions,
    paths: &Vec<TracePath>,
    tokens: &str,
) -> (document: String)
    requires
        known_paths(g@, views(paths@)),
    ensures
        document@ == xml_text(
            trace_nodes(g@, symbol@, start@, goal, o, views(paths@), tokens@),
        ),
{
    let mut w = new_writer();
    open_attrs(
        &mut w,
        "trace_path",
        &Attrs::new().with("symbol", symbol).with("root_id", &i64_text(start.id)).with(
            "root_name",
            &start.name,
        ).with("direction", direction_name(goal.direction)).with(
            "max_depth",
            &usize_text(goal.max_depth),
        ).with("max_paths", &usize_text(goal.max_paths)).with("found", &usize_text(paths.len())).with(
            "high_level",
            &text_of_bool(o.high_level),
        ).with("tokens", tokens),
    );
    if let Some(t) = goal.target {
        if let Some(n) = find_node(g, t) {
            empty(
                &mut w,
                "target",
                &Attrs::new().with("id", &i64_text(t)).with("name", &n.name).with(
                    "stable_id",
                    &n.stable_id,
                ),
            );
        }
    }
    let ghost ev = xml_events(w);
    let mut n: usize = 0;
    while n < paths.len()
        invariant
            known_paths(g@, views(paths@)),
            n <= paths@.len(),
            xml_events(w) == paths_nodes(ev, g@, views(paths@), o, n as int),
        decreases paths@.len() - n,
    {
        assert(views(paths@)[n as int] == paths@[n as int]@);
        write_path(&mut w, g, &paths[n], n + 1, o);
        n = n + 1;
    }
    close(&mut w, "trace_path");
    finish(w)
}

/// The complaint about a symbol that the code graph does not hold.
pub open spec fn no_such_symbol() -> Seq<char> {
    "Query returned no rows"@
}

/// What comes of a search: the document on the paths found, or a complaint about the start
/// symbol, the direction, or a symbol on the way that the code graph does not hold.
pub open spec fn trace_outcome(
    g: TraceGraphView,
    symbol: Seq<char>,
    start_id: i64,
    target: Option<i64>,
    direction: Seq<char>,
    max_depth: usize,
    max_paths: usize,
    o: TraceOptions,
) -> Result<Seq<char>, Seq<char>> {
    match node_of(g, start_id) {
        None => Err(no_such_symbol()),
        Some(start) => match direction_of(direction) {
            None => Err(direction_error(direction)),
            Some(d) => {
                let goal = Goal { target, direction: d, max_depth, max_paths };
                let s = searched(g, goal, start_id);
                if s.missing || !known_paths(g, s.found) {
                    Err(no_such_symbol())
                } else {
                    Ok(xml_text(trace_document(g, symbol, start, goal, o, s.found)))
                }
            },
        },
    }
}

/// Find the paths from a symbol, to the target where one is given, and show them.
pub fn trace_path(
    g: &TraceGraph,
    symbol: &str,
    start_id: i64,
    target: Option<i64>,
    direction: &str,
    max_depth: usize,
    max_paths: usize,
    o: TraceOptions,
) -> (r: Result<String, String>)
    ensures
        match trace_outcome(
            g@,
            symbol@,
            start_id,
            target,
            direction@,
            max_depth,
            max_paths,
            o,
        ) {
            Ok(d) => r matches Ok(document) && document@ == d,
            Err(m) => r matches Err(e) && e@ == m,
        },
{
    let start = match find_node(g, start_id) {
        Some(n) => n,
        None => {
            return Err("Query returned no rows".to_owned());
        },
    };
    let d = match parse_direction(direction) {
        Ok(d) => d,
        Err(e) => {
            return Err(e);
        },
    };
    let goal = Goal { target, direction: d, max_depth, max_paths };
    let s = search_paths(g, goal, start_id);
    if s.missing || !paths_are_known(g, &s.found) {
        return Err("Query returned no rows".to_owned());
    }
    let uncounted = write_trace(g, symbol, start, goal, o, &s.found, "");
    Ok(write_trace(g, symbol, start, goal, o, &s.found, &count_tokens(&uncounted)))
}

// ---------------------------------------------------------------------------
// Which paths are found
// ---------------------------------------------------------------------------

/// A hop goes from a symbol to the next in the direction: along an edge, against it, or either.
pub open spec fn heads(d: Direction, h: HopView, at: i64, next: i64) -> bool {
    match d {
        Direction::Outgoing => h.from == at && h.to == next,
        Direction::Incoming => h.to == at && h.from == next,
        Direction::Both => (h.from == at && h.to == next) || (h.to == at && h.from == next),
    }
}

/// The hop is an edge of the graph.
pub open spec fn is_edge(g: TraceGraphView, h: HopView) -> bool {
    exists|k: int|
        0 <= k < g.edges.len() && (#[trigger] g.edges[k]).from_id == h.from && g.edges[k].to_id
            == h.to && g.edges[k].edge_type == h.edge_type && g.edges[k].source == h.source
}

proof fn steps_out_are_edges(g: TraceGraphView, at: i64, n: int, step: Step)
    requires
        0 <= n <= g.edges.len(),
    ensures
        steps_out(g.edges, at, n).contains(step) <==> exists|k: int|
            0 <= k < n && (#[trigger] g.edges[k]).from_id == at && step.next == g.edges[k].to_id
                && step.hop == (HopView {
                from: at,
                to: g.edges[k].to_id,
                edge_type: g.edges[k].edge_type,
                source: g.edges[k].source,
            }),
    decreases n,
{
    if n > 0 {
        steps_out_are_edges(g, at, n - 1, step);
        let rest = steps_out(g.edges, at, n - 1);
        let all = steps_out(g.edges, at, n);
        if rest.contains(step) {
            let j = choose|j: int| 0 <= j < rest.len() && rest[j] == step;
            assert(all[j] == step);
        }
        if g.edges[n - 1].from_id == at {
            assert(all[rest.len() as int] == all.last());
            if all.contains(step) && !rest.contains(step) {
                let j = choose|j: int| 0 <= j < all.len() && all[j] == step;
                if j < rest.len() {
                    assert(rest[j] == step);
                }
                assert(step == all.last());
            }
        }
    }
}

proof fn steps_in_are_edges(before: Seq<Step>, g: TraceGraphView, at: i64, n: int, step: Step)
    requires
        0 <= n <= g.edges.len(),
    ensures
        steps_in(before, g.edges, at, n).contains(step) <==> before.contains(step) || exists|k: int|
            0 <= k < n && (#[trigger] g.edges[k]).to_id == at && step.next == g.edges[k].from_id
                && step.hop == (HopView {
                from: g.edges[k].from_id,
                to: at,
                edge_type: g.edges[k].edge_type,
                source: g.edges[k].source,
            }),
    decreases n,
{
    if n > 0 {
        steps_in_are_edges(before, g, at, n - 1, step);
        let rest = steps_in(before, g.edges, at, n - 1);
        let all = steps_in(before, g.edges, at, n);
        if rest.contains(step) {
            let j = choose|j: int| 0 <= j < rest.len() && rest[j] == step;
            assert(all[j] == step);
        }
        if g.edges[n - 1].to_id == at {
            assert(all[rest.len() as int] == all.last());
            if all.contains(step) && !rest.contains(step) {
                let j = choose|j: int| 0 <= j < all.len() && all[j] == step;
                if j < rest.len() {
                    assert(rest[j] == step);
                }
                assert(step == all.last());
            }
        }
    }
}

/// The steps from a symbol are its edges in the direction and no others: outgoing, those that
/// leave it, each to where the edge leads; incoming, those that arrive at it, each to where the
/// edge comes from; and both, all of these.
pub proof fn steps_are_edges(g: TraceGraphView, at: i64, d: Direction, step: Step)
    ensures
        steps_from(g, at, d).contains(step) <==> heads(d, step.hop, at, step.next) && is_edge(
            g,
            step.hop,
        ),
{
    let n = g.edges.len() as int;
    let out = steps_out(g.edges, at, n);
    steps_out_are_edges(g, at, n, step);
    steps_in_are_edges(Seq::empty(), g, at, n, step);
    steps_in_are_edges(out, g, at, n, step);
    if heads(d, step.hop, at, step.next) && is_edge(g, step.hop) {
        let k = choose|k: int|
            0 <= k < g.edges.len() && (#[trigger] g.edges[k]).from_id == step.hop.from
                && g.edges[k].to_id == step.hop.to && g.edges[k].edge_type == step.hop.edge_type
                && g.edges[k].source == step.hop.source;
        assert(g.edges[k].from_id == step.hop.from);
    }
    if steps_from(g, at, d).contains(step) {
        let left = exists|k: int|
            0 <= k < n && (#[trigger] g.edges[k]).from_id == at && step.next == g.edges[k].to_id
                && step.hop == (HopView {
                from: at,
                to: g.edges[k].to_id,
                edge_type: g.edges[k].edge_type,
                source: g.edges[k].source,
            });
        if left && d != Direction::Incoming {
            let k = choose|k: int|
                0 <= k < n && (#[trigger] g.edges[k]).from_id == at && step.next
                    == g.edges[k].to_id && step.hop == (HopView {
                    from: at,
                    to: g.edges[k].to_id,
                    edge_type: g.edges[k].edge_type,
                    source: g.edges[k].source,
                });
            assert(g.edges[k].from_id == step.hop.from);
        } else {
            let k = choose|k: int|
                0 <= k < n && (#[trigger] g.edges[k]).to_id == at && step.next
                    == g.edges[k].from_id && step.hop == (HopView {
                    from: g.edges[k].from_id,
                    to: at,
                    edge_type: g.edges[k].edge_type,
                    source: g.edges[k].source,
                });
            assert(g.edges[k].from_id == step.hop.from);
        }
    }
}

/// A way over symbols, none of them twice, along edges in the direction.
pub open spec fn leads(
    g: TraceGraphView,
    d: Direction,
    start: i64,
    nodes: Seq<i64>,
    hops: Seq<HopView>,
) -> bool {
    &&& nodes.len() == hops.len() + 1
    &&& nodes[0] == start
    &&& nodes.no_duplicates()
    &&& forall|i: int|
        0 <= i < hops.len() ==> heads(d, #[trigger] hops[i], nodes[i], nodes[i + 1]) && is_edge(
            g,
            hops[i],
        )
}

/// The search is over at a symbol: it is the target where there is one; where there is none,
/// nothing leads from it, or it is a leaf, infrastructure or an entrypoint.
pub open spec fn ends_at(g: TraceGraphView, goal: Goal, id: i64) -> bool {
    match goal.target {
        Some(t) => id == t,
        None => node_of(g, id) matches Some(n) && (n.fan_out == 0 || n.role == "leaf"@ || n.role
            == "infra"@ || n.role == "entrypoint"@),
    }
}

/// No edge leads on from the symbol in the direction.
pub open spec fn dead_end(g: TraceGraphView, d: Direction, id: i64) -> bool {
    forall|k: int|
        0 <= k < g.edges.len() ==> match d {
            Direction::Outgoing => (#[trigger] g.edges[k]).from_id != id,
            Direction::Incoming => g.edges[k].to_id != id,
            Direction::Both => g.edges[k].from_id != id && g.edges[k].to_id != id,
        }
}

/// A path as it may be found: a way from the start that ends at the goal, at the depth limit or
/// in a dead end, and that passes the goal nowhere before.
pub open spec fn may_be_found(
    g: TraceGraphView,
    goal: Goal,
    start: i64,
    nodes: Seq<i64>,
    hops: Seq<HopView>,
) -> bool {
    &&& leads(g, goal.direction, start, nodes, hops)
    &&& hops.len() <= goal.max_depth
    &&& forall|i: int| 1 <= i < hops.len() ==> !ends_at(g, goal, #[trigger] nodes[i])
    &&& (hops.len() > 0 && ends_at(g, goal, nodes.last())) || hops.len() == goal.max_depth
        || dead_end(g, goal.direction, nodes.last())
}

/// A path that is still to be extended.
pub open spec fn is_open(
    g: TraceGraphView,
    goal: Goal,
    start: i64,
    nodes: Seq<i64>,
    hops: Seq<HopView>,
) -> bool {
    &&& leads(g, goal.direction, start, nodes, hops)
    &&& hops.len() <= goal.max_depth
    &&& forall|i: int| 1 <= i < nodes.len() ==> !ends_at(g, goal, #[trigger] nodes[i])
}

/// Some way over symbols makes the hops a path that may be found.
pub open spec fn found_fits(g: TraceGraphView, goal: Goal, start: i64, hops: Seq<HopView>) -> bool {
    exists|nodes: Seq<i64>| may_be_found(g, goal, start, nodes, hops)
}

spec fn led(s: Search, g: TraceGraphView, goal: Goal, start: i64) -> bool {
    &&& forall|i: int|
        0 <= i < s.found.len() ==> found_fits(g, goal, start, (#[trigger] s.found[i]).hops)
    &&& forall|i: int|
        0 <= i < s.next.len() ==> is_open(
            g,
            goal,
            start,
            (#[trigger] s.next[i]).nodes,
            s.next[i].hops,
        )
}

proof fn step_leads(
    s: Search,
    g: TraceGraphView,
    goal: Goal,
    start: i64,
    p: PartialView,
    step: Step,
)
    requires
        led(s, g, goal, start),
        is_open(g, goal, start, p.nodes, p.hops),
        p.hops.len() < goal.max_depth,
        steps_from(g, p.nodes.last(), goal.direction).contains(step),
    ensures
        led(after_step(s, g, goal, p, step), g, goal, start),
{
    steps_are_edges(g, p.nodes.last(), goal.direction, step);
    if !halted(s, goal) && !p.nodes.contains(step.next) {
        let q = extended(p, step);
        assert(leads(g, goal.direction, start, q.nodes, q.hops)) by {
            assert forall|i: int| 0 <= i < q.hops.len() implies heads(
                goal.direction,
                #[trigger] q.hops[i],
                q.nodes[i],
                q.nodes[i + 1],
            ) && is_edge(g, q.hops[i]) by {
                if i < p.hops.len() {
                    assert(q.hops[i] == p.hops[i]);
                }
            }
        }
        assert forall|i: int| 1 <= i < p.nodes.len() implies !ends_at(
            g,
            goal,
            #[trigger] q.nodes[i],
        ) by {
            assert(q.nodes[i] == p.nodes[i]);
        }
        if ends_at(g, goal, step.next) {
            assert(may_be_found(g, goal, start, q.nodes, q.hops));
            assert(found_fits(g, goal, start, q.hops));
        } else {
            assert(is_open(g, goal, start, q.nodes, q.hops));
        }
    }
}

proof fn steps_lead(s: Search, g: TraceGraphView, goal: Goal, start: i64, p: PartialView, n: int)
    requires
        led(s, g, goal, start),
        is_open(g, goal, start, p.nodes, p.hops),
        p.hops.len() < goal.max_depth,
        0 <= n <= steps_from(g, p.nodes.last(), goal.direction).len(),
    ensures
        led(
            after_steps(s, g, goal, p, steps_from(g, p.nodes.last(), goal.direction), n),
            g,
            goal,
            start,
        ),
    decreases n,
{
    if n > 0 {
        let steps = steps_from(g, p.nodes.last(), goal.direction);
        steps_lead(s, g, goal, start, p, n - 1);
        assert(steps.contains(steps[n - 1]));
        step_leads(after_steps(s, g, goal, p, steps, n - 1), g, goal, start, p, steps[n - 1]);
    }
}

proof fn no_steps_is_dead_end(g: TraceGraphView, d: Direction, at: i64)
    requires
        steps_from(g, at, d).len() == 0,
    ensures
        dead_end(g, d, at),
{
    assert forall|k: int| 0 <= k < g.edges.len() implies match d {
        Direction::Outgoing => (#[trigger] g.edges[k]).from_id != at,
        Direction::Incoming => g.edges[k].to_id != at,
        Direction::Both => g.edges[k].from_id != at && g.edges[k].to_id != at,
    } by {
        let e = g.edges[k];
        let hop = HopView {
            from: e.from_id,
            to: e.to_id,
            edge_type: e.edge_type,
            source: e.source,
        };
        assert(is_edge(g, hop));
        steps_are_edges(g, at, d, Step { next: e.to_id, hop });
        steps_are_edges(g, at, d, Step { next: e.from_id, hop });
    }
}

proof fn rounds_lead(s: Search, g: TraceGraphView, goal: Goal, start: i64, n: int, round: Seq<PartialView>)
    requires
        led(s, g, goal, start),
        0 <= n <= round.len(),
        forall|i: int|
            0 <= i < round.len() ==> is_open(
                g,
                goal,
                start,
                (#[trigger] round[i]).nodes,
                round[i].hops,
            ),
    ensures
        led(after_paths(s, g, goal, round, n), g, goal, start),
    decreases n,
{
    if n > 0 {
        rounds_lead(s, g, goal, start, n - 1, round);
        let t = after_paths(s, g, goal, round, n - 1);
        let p = round[n - 1];
        assert(is_open(g, goal, start, p.nodes, p.hops));
        if !halted(t, goal) {
            let steps = steps_from(g, p.nodes.last(), goal.direction);
            if p.hops.len() >= goal.max_depth {
                assert(may_be_found(g, goal, start, p.nodes, p.hops));
                assert(found_fits(g, goal, start, p.hops));
            } else if steps.len() == 0 {
                no_steps_is_dead_end(g, goal.direction, p.nodes.last());
                assert(may_be_found(g, goal, start, p.nodes, p.hops));
                assert(found_fits(g, goal, start, p.hops));
            } else {
                steps_lead(t, g, goal, start, p, steps.len() as int);
            }
        }
    }
}

proof fn search_leads(s: Search, g: TraceGraphView, goal: Goal, start: i64, left: int)
    requires
        led(s, g, goal, start),
    ensures
        led(after_rounds(s, g, goal, left), g, goal, start),
    decreases left,
{
    let fresh = Search { found: s.found, next: Seq::empty(), missing: s.missing };
    let t = after_paths(fresh, g, goal, s.next, s.next.len() as int);
    rounds_lead(fresh, g, goal, start, s.next.len() as int, s.next);
    if left > 0 {
        search_leads(t, g, goal, start, left - 1);
    }
}

/// Every path found is a way from the start along edges in the direction asked for, over no
/// symbol twice and within the depth limit. It ends at the goal, at the limit or in a dead end,
/// and passes the goal nowhere before.
pub proof fn found_paths_lead_to_the_goal(g: TraceGraphView, goal: Goal, start: i64, i: int)
    requires
        0 <= i < searched(g, goal, start).found.len(),
    ensures
        exists|nodes: Seq<i64>|
            may_be_found(g, goal, start, nodes, searched(g, goal, start).found[i].hops),
{
    let s = search_start(start);
    let p = s.next[0];
    assert(is_open(g, goal, start, p.nodes, p.hops));
    search_leads(s, g, goal, start, goal.max_depth as int);
    assert(found_fits(g, goal, start, searched(g, goal, start).found[i].hops));
}

/// What was found and what is to be extended is kept, and so is that a symbol was missing.
spec fn keeps(s: Search, t: Search) -> bool {
    &&& s.found.len() <= t.found.len()
    &&& s.next.len() <= t.next.len()
    &&& forall|i: int| 0 <= i < s.found.len() ==> #[trigger] t.found[i] == s.found[i]
    &&& forall|i: int| 0 <= i < s.next.len() ==> #[trigger] t.next[i] == s.next[i]
    &&& s.missing ==> t.missing
}

proof fn steps_keep(s: Search, g: TraceGraphView, goal: Goal, p: PartialView, steps: Seq<Step>, k: int, n: int)
    requires
        0 <= k <= n <= steps.len(),
    ensures
        keeps(
            after_steps(s, g, goal, p, steps, k),
            after_steps(s, g, goal, p, steps, n),
        ),
    decreases n,
{
    if k < n {
        steps_keep(s, g, goal, p, steps, k, n - 1);
    }
}

proof fn paths_keep(s: Search, g: TraceGraphView, goal: Goal, round: Seq<PartialView>, k: int, n: int)
    requires
        0 <= k <= n <= round.len(),
    ensures
        keeps(after_paths(s, g, goal, round, k), after_paths(s, g, goal, round, n)),
    decreases n,
{
    if k < n {
        paths_keep(s, g, goal, round, k, n - 1);
        let t = after_paths(s, g, goal, round, n - 1);
        let p = round[n - 1];
        let steps = steps_from(g, p.nodes.last(), goal.direction);
        steps_keep(t, g, goal, p, steps, 0, steps.len() as int);
    }
}

proof fn rounds_keep(s: Search, g: TraceGraphView, goal: Goal, left: int)
    ensures
        ({
            let t = after_rounds(s, g, goal, left);
            &&& s.found.len() <= t.found.len()
            &&& forall|i: int| 0 <= i < s.found.len() ==> #[trigger] t.found[i] == s.found[i]
            &&& s.missing ==> t.missing
        }),
    decreases left,
{
    let fresh = Search { found: s.found, next: Seq::empty(), missing: s.missing };
    let t = after_paths(fresh, g, goal, s.next, s.next.len() as int);
    paths_keep(fresh, g, goal, s.next, 0, s.next.len() as int);
    if left > 0 {
        rounds_keep(t, g, goal, left - 1);
        let u = after_rounds(t, g, goal, left - 1);
        assert forall|i: int| 0 <= i < s.found.len() implies #[trigger] u.found[i] == s.found[i] by {
            assert(t.found[i] == s.found[i]);
        }
    }
}

/// A way from the start whose inner symbols the search goes on from.
pub open spec fn goes_on(
    g: TraceGraphView,
    goal: Goal,
    start: i64,
    nodes: Seq<i64>,
    hops: Seq<HopView>,
) -> bool {
    &&& leads(g, goal.direction, start, nodes, hops)
    &&& 0 < hops.len() <= goal.max_depth
    &&& forall|i: int|
        1 <= i < hops.len() ==> !ends_at(g, goal, #[trigger] nodes[i]) && (goal.target is None
            ==> node_of(g, nodes[i]) is Some)
}

proof fn way_is_followed(
    s: Search,
    g: TraceGraphView,
    goal: Goal,
    start: i64,
    nodes: Seq<i64>,
    hops: Seq<HopView>,
    k: int,
    left: int,
)
    requires
        goes_on(g, goal, start, nodes, hops),
        ends_at(g, goal, nodes.last()),
        0 <= k < hops.len(),
        left + k >= hops.len() - 1,
        s.next.contains(PartialView { nodes: nodes.take(k + 1), hops: hops.take(k) }),
        !halted(after_rounds(s, g, goal, left), goal),
    ensures
        exists|i: int|
            0 <= i < after_rounds(s, g, goal, left).found.len() && (
            #[trigger] after_rounds(s, g, goal, left).found[i]).hops == hops,
    decreases hops.len() - k,
{
    let round = s.next;
    let p = PartialView { nodes: nodes.take(k + 1), hops: hops.take(k) };
    let j = choose|j: int| 0 <= j < round.len() && round[j] == p;
    let fresh = Search { found: s.found, next: Seq::empty(), missing: s.missing };
    let before = after_paths(fresh, g, goal, round, j);
    let after = after_paths(fresh, g, goal, round, j + 1);
    let t = after_paths(fresh, g, goal, round, round.len() as int);
    let end = after_rounds(s, g, goal, left);
    paths_keep(fresh, g, goal, round, j + 1, round.len() as int);
    paths_keep(fresh, g, goal, round, j, j + 1);
    if left > 0 {
        rounds_keep(t, g, goal, left - 1);
    }
    let steps = steps_from(g, nodes[k], goal.direction);
    let step = Step { next: nodes[k + 1], hop: hops[k] };
    assert(heads(goal.direction, hops[k], nodes[k], nodes[k + 1]));
    steps_are_edges(g, nodes[k], goal.direction, step);
    let m = choose|m: int| 0 <= m < steps.len() && steps[m] == step;
    assert(p.nodes.last() == nodes[k]);
    let a = after_steps(before, g, goal, p, steps, m);
    let b = after_steps(before, g, goal, p, steps, m + 1);
    steps_keep(before, g, goal, p, steps, m, m + 1);
    steps_keep(before, g, goal, p, steps, m + 1, steps.len() as int);
    assert(after == after_steps(before, g, goal, p, steps, steps.len() as int));
    assert(!halted(a, goal));
    assert(!p.nodes.contains(step.next)) by {
        if p.nodes.contains(step.next) {
            let x = choose|x: int| 0 <= x < p.nodes.len() && p.nodes[x] == step.next;
            assert(nodes[x] == nodes[k + 1]);
        }
    }
    let q = extended(p, step);
    assert(q.nodes =~= nodes.take(k + 2));
    assert(q.hops =~= hops.take(k + 1));
    if k + 1 == hops.len() {
        assert(nodes.last() == step.next);
        assert(hops.take(k + 1) =~= hops);
        let i = a.found.len() as int;
        assert(b.found[i].hops == hops);
        assert(after.found[i].hops == hops);
        assert(t.found[i].hops == hops);
        assert(end.found[i].hops == hops);
    } else {
        assert(!ends_at(g, goal, nodes[k + 1]));
        let i = a.next.len() as int;
        assert(b.next[i] == q);
        assert(after.next[i] == q);
        assert(t.next[i] == q);
        assert(t.next.contains(q));
        way_is_followed(t, g, goal, start, nodes, hops, k + 1, left - 1);
    }
}

/// No path to the goal is missed: where the search neither runs into a symbol that the graph
/// does not hold nor finds as many paths as it may, every way from the start to the goal within
/// the depth limit, over no symbol twice and past the goal nowhere before, is found.
pub proof fn every_path_to_the_goal_is_found(
    g: TraceGraphView,
    goal: Goal,
    start: i64,
    nodes: Seq<i64>,
    hops: Seq<HopView>,
)
    requires
        goes_on(g, goal, start, nodes, hops),
        ends_at(g, goal, nodes.last()),
        !searched(g, goal, start).missing,
        searched(g, goal, start).found.len() < goal.max_paths,
    ensures
        exists|i: int|
            0 <= i < searched(g, goal, start).found.len() && (
            #[trigger] searched(g, goal, start).found[i]).hops == hops,
{
    let s = search_start(start);
    let p = PartialView { nodes: nodes.take(1), hops: hops.take(0) };
    assert(s.next[0].nodes =~= p.nodes);
    assert(s.next[0].hops =~= p.hops);
    assert(s.next[0] == p);
    way_is_followed(s, g, goal, start, nodes, hops, 0, goal.max_depth as int);
}

/// The high-level view leaves out only hops between two symbols of little signal: leaves,
/// utilities and symbols without a role. The first hop and the last always stay.
pub proof fn high_level_keeps_what_tells(g: TraceGraphView, hops: Seq<HopView>, i: int)
    requires
        0 <= i < hops.len(),
        ({
            let from = node_of(g, hops[i].from)->0.role;
            let to = node_of(g, hops[i].to)->0.role;
            ||| i == 0
            ||| i == hops.len() - 1
            ||| from != "leaf"@ && from != "utility"@ && from != "unknown"@
            ||| to != "leaf"@ && to != "utility"@ && to != "unknown"@
        }),
    ensures
        shown_hops(g, hops, true).contains(hops[i]),
        shown_hops(g, hops, false) == hops,
{
    telling_hop_stays(g, hops, hops.len() as int, i);
}

proof fn telling_hop_stays(g: TraceGraphView, hops: Seq<HopView>, n: int, i: int)
    requires
        0 <= i < n <= hops.len(),
        i == 0 || i == hops.len() - 1 || !(low_role(node_of(g, hops[i].from)->0.role) && low_role(
            node_of(g, hops[i].to)->0.role,
        )),
    ensures
        telling_hops(g, hops, n).contains(hops[i]),
    decreases n,
{
    let rest = telling_hops(g, hops, n - 1);
    let all = telling_hops(g, hops, n);
    if i < n - 1 {
        telling_hop_stays(g, hops, n - 1, i);
        let j = choose|j: int| 0 <= j < rest.len() && rest[j] == hops[i];
        assert(all[j] == hops[i]);
    } else {
        assert(all[rest.len() as int] == hops[i]);
    }
}

/// A hop that the high-level view shows is a hop of the path, and one in the middle has an end
/// that is no leaf, no utility and no symbol without a role.
pub proof fn high_level_shows_hops(g: TraceGraphView, hops: Seq<HopView>, n: int, h: HopView)
    requires
        0 <= n <= hops.len(),
        telling_hops(g, hops, n).contains(h),
    ensures
        exists|i: int|
            0 <= i < n && #[trigger] hops[i] == h && (i == 0 || i == hops.len() - 1 || ({
                let from = node_of(g, h.from)->0.role;
                let to = node_of(g, h.to)->0.role;
                ||| from != "leaf"@ && from != "utility"@ && from != "unknown"@
                ||| to != "leaf"@ && to != "utility"@ && to != "unknown"@
            })),
    decreases n,
{
    if n > 0 {
        let rest = telling_hops(g, hops, n - 1);
        let all = telling_hops(g, hops, n);
        let j = choose|j: int| 0 <= j < all.len() && all[j] == h;
        if j < rest.len() {
            assert(rest[j] == h);
            high_level_shows_hops(g, hops, n - 1, h);
        } else {
            assert(hops[n - 1] == h);
        }
    }
}

/// The words for directions, whatever their case: a path goes along edges for `outgoing` and
/// `write`, against them for `incoming` and `read`, either way for `both`, and no other word is
/// a direction.
pub proof fn words_name_directions(word: Seq<char>)
    ensures
        direction_of(word) == Some(Direction::Outgoing) <==> ascii_lower(word) == "outgoing"@
            || ascii_lower(word) == "write"@,
        direction_of(word) == Some(Direction::Incoming) <==> ascii_lower(word) == "incoming"@
            || ascii_lower(word) == "read"@,
        direction_of(word) == Some(Direction::Both) <==> ascii_lower(word) == "both"@,
{
    reveal_strlit("outgoing");
    reveal_strlit("write");
    reveal_strlit("incoming");
    reveal_strlit("read");
    reveal_strlit("both");
    assert("outgoing"@[0] == 'o' && "write"@[0] == 'w' && "incoming"@[0] == 'i' && "read"@[0]
        == 'r' && "both"@[0] == 'b');
}

proof fn node_at_finds(nodes: Seq<TraceNodeView>, id: i64, i: int)
    requires
        0 <= i <= nodes.len(),
    ensures
        match node_at(nodes, id, i) {
            Some(n) => exists|k: int|
                i <= k < nodes.len() && #[trigger] nodes[k] == n && n.id == id && forall|j: int|
                    i <= j < k ==> (#[trigger] nodes[j]).id != id,
            None => forall|k: int| i <= k < nodes.len() ==> (#[trigger] nodes[k]).id != id,
        },
    decreases nodes.len() - i,
{
    if i < nodes.len() {
        node_at_finds(nodes, id, i + 1);
        if nodes[i].id != id {
            if let Some(n) = node_at(nodes, id, i + 1) {
                let k = choose|k: int|
                    i + 1 <= k < nodes.len() && #[trigger] nodes[k] == n && n.id == id && forall|
                        j: int,
                    | i + 1 <= j < k ==> (#[trigger] nodes[j]).id != id;
                assert(nodes[k] == n);
            }
        }
    }
}

/// A trace is refused where the graph does not hold the start, or the direction is no word for
/// one. Otherwise what it shows are paths from the start, at most as many and as long as asked
/// for, each in the direction and to the target asked for.
pub proof fn traces_show_what_is_asked_for(
    g: TraceGraphView,
    symbol: Seq<char>,
    start_id: i64,
    target: Option<i64>,
    direction: Seq<char>,
    max_depth: usize,
    max_paths: usize,
    o: TraceOptions,
)
    ensures
        (forall|k: int| 0 <= k < g.nodes.len() ==> (#[trigger] g.nodes[k]).id != start_id)
            ==> trace_outcome(
            g,
            symbol,
            start_id,
            target,
            direction,
            max_depth,
            max_paths,
            o,
        ) is Err,
        trace_outcome(g, symbol, start_id, target, direction, max_depth, max_paths, o) matches Ok(
            text,
        ) ==> direction_of(direction) is Some && exists|k: int, paths: Seq<TracePathView>|
            {
                &&& 0 <= k < g.nodes.len()
                &&& (#[trigger] g.nodes[k]).id == start_id
                &&& #[trigger] found_all(
                    g,
                    Goal { target, direction: direction_of(direction)->0, max_depth, max_paths },
                    start_id,
                    paths,
                )
                &&& text == xml_text(
                    trace_document(
                        g,
                        symbol,
                        g.nodes[k],
                        Goal {
                            target,
                            direction: direction_of(direction)->0,
                            max_depth,
                            max_paths,
                        },
                        o,
                        paths,
                    ),
                )
            },
{
    node_at_finds(g.nodes, start_id, 0);
    if let Ok(text) = trace_outcome(
        g,
        symbol,
        start_id,
        target,
        direction,
        max_depth,
        max_paths,
        o,
    ) {
        let n = node_of(g, start_id)->0;
        let k = choose|k: int|
            0 <= k < g.nodes.len() && #[trigger] g.nodes[k] == n && n.id == start_id && forall|
                j: int,
            | 0 <= j < k ==> (#[trigger] g.nodes[j]).id != start_id;
        let d = direction_of(direction)->0;
        let goal = Goal { target, direction: d, max_depth, max_paths };
        let paths = searched(g, goal, start_id).found;
        found_paths_are_simple(g, goal, start_id);
        assert forall|i: int| 0 <= i < paths.len() implies found_fits(
            g,
            goal,
            start_id,
            (#[trigger] paths[i]).hops,
        ) by {
            found_paths_lead_to_the_goal(g, goal, start_id, i);
        }
        assert(found_all(g, goal, start_id, paths));
        assert(g.nodes[k].id == start_id);
    }
}

/// The paths may all be found, and are no more than asked for.
pub open spec fn found_all(
    g: TraceGraphView,
    goal: Goal,
    start: i64,
    paths: Seq<TracePathView>,
) -> bool {
    paths.len() <= goal.max_paths && forall|i: int|
        0 <= i < paths.len() ==> found_fits(g, goal, start, (#[trigger] paths[i]).hops)
}

// ---------------------------------------------------------------------------
// What the document shows
// ---------------------------------------------------------------------------

/// What is told of a hop: its ends, by identity, name and lasting identity, and its edge.
pub open spec fn told_of_hop(h: HopView, from: TraceNodeView, to: TraceNodeView) -> Seq<
    (Seq<char>, Seq<char>),
> {
    seq![
        ("from_id"@, int_text(h.from as int)),
        ("to_id"@, int_text(h.to as int)),
        ("from_name"@, from.name),
        ("to_name"@, to.name),
        ("edge_type"@, h.edge_type),
        ("source"@, h.source),
        ("from_stable_id"@, from.stable_id),
        ("to_stable_id"@, to.stable_id),
    ]
}

/// A sign of the given kind.
pub open spec fn is_boundary(node: Node, what: Seq<char>) -> bool {
    node matches Node::Empty(tag, a) && tag == "boundary"@ && a == seq![("type"@, what)]
}

/// The hop is shown, with the sign of an async function right behind it exactly where such
/// signs are wanted and either end is one.
pub open spec fn shows_hop(
    ev: Seq<Node>,
    h: HopView,
    from: TraceNodeView,
    to: TraceNodeView,
    o: TraceOptions,
) -> bool {
    exists|k: int|
        0 <= k && k + 1 < ev.len() && (#[trigger] ev[k] matches Node::Start(tag, a) && tag
            == "hop"@ && holds_all(a, told_of_hop(h, from, to))) && (is_boundary(
            ev[k + 1],
            "async"@,
        ) <==> o.with_async_boundaries && ((from.signature matches Some(s) && has_str(s, "async "@))
            || (to.signature matches Some(s) && has_str(s, "async "@))))
}

proof fn hops_stay(
    a: Seq<Node>,
    b: Seq<Node>,
    h: HopView,
    from: TraceNodeView,
    to: TraceNodeView,
    o: TraceOptions,
)
    requires
        goes_on_from(a, b),
        shows_hop(a, h, from, to, o),
    ensures
        shows_hop(b, h, from, to, o),
{
    let k = choose|k: int|
        0 <= k && k + 1 < a.len() && (#[trigger] a[k] matches Node::Start(tag, x) && tag
            == "hop"@ && holds_all(x, told_of_hop(h, from, to))) && (is_boundary(
            a[k + 1],
            "async"@,
        ) <==> o.with_async_boundaries && ((from.signature matches Some(s) && has_str(s, "async "@))
            || (to.signature matches Some(s) && has_str(s, "async "@))));
    assert(b[k] == a[k] && b[k + 1] == a[k + 1]);
}

proof fn hop_is_written(
    ev: Seq<Node>,
    h: HopView,
    from: TraceNodeView,
    to: TraceNodeView,
    o: TraceOptions,
)
    ensures
        goes_on_from(ev, hop_nodes(ev, h, from, to, o)),
        shows_hop(hop_nodes(ev, h, from, to, o), h, from, to, o),
{
    reveal_strlit("async");
    reveal_strlit("channel_or_actor");
    reveal_strlit("high_level_filter");
    let all = hop_nodes(ev, h, from, to, o);
    let k = ev.len() as int;
    let a = told_of_hop(h, from, to);
    assert(all[k] == Node::Start("hop"@, a)) by {
        assert(all[k]->Start_1 =~= a);
    }
    all_are_held(a);
    let attrs = |what: Seq<char>| no_attrs().push(("type"@, what));
    assert(attrs("async"@) =~= seq![("type"@, "async"@)]);
    assert("async"@.len() == 5 && "channel_or_actor"@.len() == 16 && "high_level_filter"@.len()
        == 17);
    assert(attrs("channel_or_actor"@)[0].1 != seq![("type"@, "async"@)][0].1);
    assert(attrs("high_level_filter"@)[0].1 != seq![("type"@, "async"@)][0].1);
}

proof fn hops_are_written(
    ev: Seq<Node>,
    g: TraceGraphView,
    hops: Seq<HopView>,
    o: TraceOptions,
    n: int,
    i: int,
)
    requires
        0 <= n <= hops.len(),
    ensures
        goes_on_from(ev, hops_nodes(ev, g, hops, o, n)),
        0 <= i < n ==> shows_hop(
            hops_nodes(ev, g, hops, o, n),
            hops[i],
            node_of(g, hops[i].from)->0,
            node_of(g, hops[i].to)->0,
            o,
        ),
    decreases n,
{
    if n > 0 {
        hops_are_written(ev, g, hops, o, n - 1, i);
        let rest = hops_nodes(ev, g, hops, o, n - 1);
        let h = hops[n - 1];
        hop_is_written(rest, h, node_of(g, h.from)->0, node_of(g, h.to)->0, o);
        if 0 <= i < n - 1 {
            hops_stay(
                rest,
                hops_nodes(ev, g, hops, o, n),
                hops[i],
                node_of(g, hops[i].from)->0,
                node_of(g, hops[i].to)->0,
                o,
            );
        }
    }
}

proof fn paths_are_written(
    ev: Seq<Node>,
    g: TraceGraphView,
    paths: Seq<TracePathView>,
    o: TraceOptions,
    n: int,
    p: int,
    i: int,
)
    requires
        0 <= n <= paths.len(),
    ensures
        goes_on_from(ev, paths_nodes(ev, g, paths, o, n)),
        0 <= p < n && 0 <= i < shown_hops(g, paths[p].hops, o.high_level).len() ==> ({
            let hops = shown_hops(g, paths[p].hops, o.high_level);
            let all = paths_nodes(ev, g, paths, o, n);
            &&& has_tag(
                all,
                "path"@,
                seq![("index"@, dec((p + 1) as nat)), ("hops"@, dec(hops.len()))],
            )
            &&& shows_hop(all, hops[i], node_of(g, hops[i].from)->0, node_of(g, hops[i].to)->0, o)
        }),
    decreases n,
{
    if n > 0 {
        paths_are_written(ev, g, paths, o, n - 1, p, i);
        let rest = paths_nodes(ev, g, paths, o, n - 1);
        let all = paths_nodes(ev, g, paths, o, n);
        let hops = shown_hops(g, paths[n - 1].hops, o.high_level);
        let a = seq![("index"@, dec(n as nat)), ("hops"@, dec(hops.len()))];
        let open = with_open(
            rest,
            "path"@,
            no_attrs().push(("index"@, dec(n as nat))).push(("hops"@, dec(hops.len()))),
        );
        let inner = hops_nodes(open, g, hops, o, hops.len() as int);
        hops_are_written(open, g, hops, o, hops.len() as int, i);
        assert(goes_on_from(rest, open));
        assert(hops.len() > 0 ==> goes_on_from(inner, all));
        assert(goes_on_from(rest, all));
        if p == n - 1 && 0 <= i < hops.len() {
            assert(open[rest.len() as int] == Node::Start("path"@, a)) by {
                assert(open.last()->Start_1 =~= a);
            }
            all_are_held(a);
            assert(has_tag(open, "path"@, a));
            tags_stay(open, all, "path"@, a);
            hops_stay(
                inner,
                all,
                hops[i],
                node_of(g, hops[i].from)->0,
                node_of(g, hops[i].to)->0,
                o,
            );
        } else if 0 <= p < n - 1 {
            let before = shown_hops(g, paths[p].hops, o.high_level);
            if 0 <= i < before.len() {
                tags_stay(
                    rest,
                    all,
                    "path"@,
                    seq![("index"@, dec((p + 1) as nat)), ("hops"@, dec(before.len()))],
                );
                hops_stay(
                    rest,
                    all,
                    before[i],
                    node_of(g, before[i].from)->0,
                    node_of(g, before[i].to)->0,
                    o,
                );
            }
        }
    }
}

/// The document says what was asked for and how much was found, and shows each path, counted
/// from 1, with every hop of it that is wanted.
pub proof fn every_hop_is_shown(
    g: TraceGraphView,
    symbol: Seq<char>,
    start: TraceNodeView,
    goal: Goal,
    o: TraceOptions,
    paths: Seq<TracePathView>,
    tokens: Seq<char>,
    p: int,
    i: int,
)
    ensures
        ({
            let doc = trace_nodes(g, symbol, start, goal, o, paths, tokens);
            &&& has_tag(
                doc,
                "trace_path"@,
                seq![
                    ("symbol"@, symbol),
                    ("root_id"@, int_text(start.id as int)),
                    ("root_name"@, start.name),
                    ("direction"@, direction_text(goal.direction)),
                    ("max_depth"@, dec(goal.max_depth as nat)),
                    ("max_paths"@, dec(goal.max_paths as nat)),
                    ("found"@, dec(paths.len())),
                    ("high_level"@, bool_text(o.high_level)),
                    ("tokens"@, tokens),
                ],
            )
            &&& goal.target matches Some(t) ==> (node_of(g, t) matches Some(n) ==> has_tag(
                doc,
                "target"@,
                seq![("id"@, int_text(t as int)), ("name"@, n.name), ("stable_id"@, n.stable_id)],
            ))
            &&& 0 <= p < paths.len() && 0 <= i < shown_hops(g, paths[p].hops, o.high_level).len()
                ==> ({
                let hops = shown_hops(g, paths[p].hops, o.high_level);
                &&& has_tag(
                    doc,
                    "path"@,
                    seq![("index"@, dec((p + 1) as nat)), ("hops"@, dec(hops.len()))],
                )
                &&& shows_hop(
                    doc,
                    hops[i],
                    node_of(g, hops[i].from)->0,
                    node_of(g, hops[i].to)->0,
                    o,
                )
            })
        }),
{
    let doc = trace_nodes(g, symbol, start, goal, o, paths, tokens);
    let a = seq![
        ("symbol"@, symbol),
        ("root_id"@, int_text(start.id as int)),
        ("root_name"@, start.name),
        ("direction"@, direction_text(goal.direction)),
        ("max_depth"@, dec(goal.max_depth as nat)),
        ("max_paths"@, dec(goal.max_paths as nat)),
        ("found"@, dec(paths.len())),
        ("high_level"@, bool_text(o.high_level)),
        ("tokens"@, tokens),
    ];
    let head = Seq::<Node>::empty().push(Node::Start("trace_path"@, a));
    all_are_held(a);
    assert(head[0] == Node::Start("trace_path"@, a));
    assert(has_tag(head, "trace_path"@, a));
    let told = |t: i64, n: TraceNodeView|
        seq![("id"@, int_text(t as int)), ("name"@, n.name), ("stable_id"@, n.stable_id)];
    let ev = match goal.target {
        Some(t) => match node_of(g, t) {
            Some(n) => head.push(Node::Empty("target"@, told(t, n))),
            None => head,
        },
        None => head,
    };
    let all = paths_nodes(ev, g, paths, o, paths.len() as int);
    assert(doc == with_close(all, "trace_path"@)) by {
        assert(no_attrs()
            .push(("symbol"@, symbol))
            .push(("root_id"@, int_text(start.id as int)))
            .push(("root_name"@, start.name))
            .push(("direction"@, direction_text(goal.direction)))
            .push(("max_depth"@, dec(goal.max_depth as nat)))
            .push(("max_paths"@, dec(goal.max_paths as nat)))
            .push(("found"@, dec(paths.len())))
            .push(("high_level"@, bool_text(o.high_level)))
            .push(("tokens"@, tokens)) =~= a);
        if let Some(t) = goal.target {
            if let Some(n) = node_of(g, t) {
                assert(no_attrs().push(("id"@, int_text(t as int))).push(("name"@, n.name)).push(
                    ("stable_id"@, n.stable_id),
                ) =~= told(t, n));
            }
        }
    }
    paths_are_written(ev, g, paths, o, paths.len() as int, p, i);
    assert(goes_on_from(head, ev));
    assert(goes_on_from(all, doc));
    assert(goes_on_from(ev, doc));
    tags_stay(head, doc, "trace_path"@, a);
    if let Some(t) = goal.target {
        if let Some(n) = node_of(g, t) {
            all_are_held(told(t, n));
            assert(ev[1] == Node::Empty("target"@, told(t, n)));
            assert(has_tag(ev, "target"@, told(t, n)));
            tags_stay(ev, doc, "target"@, told(t, n));
        }
    }
    if 0 <= p < paths.len() {
        let hops = shown_hops(g, paths[p].hops, o.high_level);
        if 0 <= i < hops.len() {
            tags_stay(
                all,
                doc,
                "path"@,
                seq![("index"@, dec((p + 1) as nat)), ("hops"@, dec(hops.len()))],
            );
            hops_stay(
                all,
                doc,
                hops[i],
                node_of(g, hops[i].from)->0,
                node_of(g, hops[i].to)->0,
                o,
            );
        }
    }
}

/// A hop leads through a channel where one of six words stands in a name or a signature, in
/// capitals or not.
pub proof fn six_words_mean_channels(name: Seq<char>, signature: Option<Seq<char>>)
    ensures
        ({
            let words = seq!["channel"@, "mpsc"@, "broadcast"@, "oneshot"@, "actor"@, "mailbox"@];
            let s = if signature is Some {
                signature->0
            } else {
                ""@
            };
            channelish(name, signature) <==> exists|i: int|
                0 <= i < 6 && (has_str(ascii_lower(name), #[trigger] words[i]) || has_str(
                    ascii_lower(s),
                    words[i],
                ))
        }),
{
    let words = seq!["channel"@, "mpsc"@, "broadcast"@, "oneshot"@, "actor"@, "mailbox"@];
    assert(words[0] == "channel"@ && words[1] == "mpsc"@ && words[2] == "broadcast"@);
    assert(words[3] == "oneshot"@ && words[4] == "actor"@ && words[5] == "mailbox"@);
}

/// Directions are shown by the words that ask for them.
pub proof fn directions_are_shown_by_their_words(d: Direction)
    ensures
        d is Outgoing ==> direction_text(d) == "outgoing"@,
        d is Incoming ==> direction_text(d) == "incoming"@,
        d is Both ==> direction_text(d) == "both"@,
{
}

} // verus!
