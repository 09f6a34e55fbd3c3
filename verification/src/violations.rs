//! Architecture violations: forbidden couplings between contexts, symbols that are more
//! visible than their layer allows, and forbidden dependencies between workspace layers.

use vstd::prelude::*;

use crate::arch::{
    context_of, context_violation_reason, coupling_reason, covering_reason, edge_exception_reason,
    file_to_context,
};
use crate::config::{
    layer_in, Config, ConfigView, ViolationException, ViolationExceptionView, ViolationRule, ViolationRuleView,
    VisibilityRule, VisibilityRuleView, WorkspaceConfig, WorkspaceConfigView,
    WorkspaceViolationRuleView,
};
use crate::model::{or_text, text_or, views, Dup};
use crate::order::{
    count_pair, count_text, distinct_keys, key_set, stable_sort, stable_sorted, times, Ranked,
};
use crate::policy::{
    cqrs_pack, ddd_pack, effective_policy, no_pack, pack_named, policy_of, selected_pack,
    EffectivePolicy, EffectivePolicyView, PolicyPackView,
};
use crate::text::{
    begins_with, bool_text, concat2, concat3, contains, dec, has_str, i64_text, int_text, is_space,
    join, joined, lex_before, lowercase, split_whitespace, starts_with, str_eq, str_precedes,
    strip_prefix, text_of_bool, to_lowercase, trim, trim_end_char, trimmed, trimmed_char_end,
    trimmed_end, usize_text, without_prefix, words,
};
use crate::workspace::{crate_for_file_path, crate_of, WorkspaceGraph, WorkspaceGraphView};
use crate::xml::{
    all_are_held, close, count_tokens, empty, finish, goes_on_from, has_tag, holds_all, new_writer,
    no_attrs, open, open_attrs, tags_stay, text_tag, tokens_of, with_close, with_empty, with_open,
    with_text, xml_events, xml_text, Attrs, Node, XmlWriter,
};

verus! {

broadcast use crate::model::group_views;

/// What is shown of the violations.
#[derive(Debug)]
pub struct Params {
    /// Only edges that leave this context.
    pub from_context: Option<String>,
    /// Only edges that arrive at this context.
    pub to_context: Option<String>,
    /// Only edges that leave this context or arrive at it.
    pub context: Option<String>,
    /// How many violations are shown at most (0 = unlimited).
    pub top: usize,
    /// A text that must stand in a context, symbol, file or layer field, in any case.
    pub pattern: Option<String>,
    /// Whether couplings are also counted by the crates that own the two files.
    pub by_crate: bool,
    /// The crates that an edge must go between (`from:adapter to:domain`).
    pub edge: Option<String>,
    /// Whether the signatures of caller and callee are left out.
    pub no_snippets: bool,
    /// Whether the policy must assign every layer.
    pub strict_policy: bool,
    /// Whether compiler findings are reported too.
    pub check: bool,
    /// Whether advisories on crates are reported too.
    pub audit: bool,
}

/// What a [`Params`] holds.
#[verifier::ext_equal]
pub struct ParamsView {
    pub from_context: Option<Seq<char>>,
    pub to_context: Option<Seq<char>>,
    pub context: Option<Seq<char>>,
    pub top: usize,
    pub pattern: Option<Seq<char>>,
    pub by_crate: bool,
    pub edge: Option<Seq<char>>,
    pub no_snippets: bool,
    pub strict_policy: bool,
    pub check: bool,
    pub audit: bool,
}

impl DeepView for Params {
    type V = ParamsView;

    open spec fn deep_view(&self) -> ParamsView {
        ParamsView {
            from_context: self.from_context.deep_view(),
            to_context: self.to_context.deep_view(),
            context: self.context.deep_view(),
            top: self.top.deep_view(),
            pattern: self.pattern.deep_view(),
            by_crate: self.by_crate.deep_view(),
            edge: self.edge.deep_view(),
            no_snippets: self.no_snippets.deep_view(),
            strict_policy: self.strict_policy.deep_view(),
            check: self.check.deep_view(),
            audit: self.audit.deep_view(),
        }
    }
}

impl View for Params {
    type V = ParamsView;

    open spec fn view(&self) -> ParamsView {
        self.deep_view()
    }
}

/// A trusted edge between two symbols that are no tests.
#[derive(Debug)]
pub struct RawEdge {
    pub from_id: i64,
    pub from_name: String,
    pub from_file: String,
    pub from_role: String,
    pub from_stable_id: String,
    pub from_visibility: String,
    pub from_fan_in: i64,
    pub from_fan_out: i64,
    pub from_sig: Option<String>,
    pub to_id: i64,
    pub to_name: String,
    pub to_file: String,
    pub to_role: String,
    pub to_stable_id: String,
    pub to_visibility: String,
    pub to_fan_in: i64,
    pub to_fan_out: i64,
    pub to_sig: Option<String>,
}

/// What a [`RawEdge`] holds.
#[verifier::ext_equal]
pub struct RawEdgeView {
    pub from_id: i64,
    pub from_name: Seq<char>,
    pub from_file: Seq<char>,
    pub from_role: Seq<char>,
    pub from_stable_id: Seq<char>,
    pub from_visibility: Seq<char>,
    pub from_fan_in: i64,
    pub from_fan_out: i64,
    pub from_sig: Option<Seq<char>>,
    pub to_id: i64,
    pub to_name: Seq<char>,
    pub to_file: Seq<char>,
    pub to_role: Seq<char>,
    pub to_stable_id: Seq<char>,
    pub to_visibility: Seq<char>,
    pub to_fan_in: i64,
    pub to_fan_out: i64,
    pub to_sig: Option<Seq<char>>,
}

impl DeepView for RawEdge {
    type V = RawEdgeView;

    open spec fn deep_view(&self) -> RawEdgeView {
        RawEdgeView {
            from_id: self.from_id.deep_view(),
            from_name: self.from_name.deep_view(),
            from_file: self.from_file.deep_view(),
            from_role: self.from_role.deep_view(),
            from_stable_id: self.from_stable_id.deep_view(),
            from_visibility: self.from_visibility.deep_view(),
            from_fan_in: self.from_fan_in.deep_view(),
            from_fan_out: self.from_fan_out.deep_view(),
            from_sig: self.from_sig.deep_view(),
            to_id: self.to_id.deep_view(),
            to_name: self.to_name.deep_view(),
            to_file: self.to_file.deep_view(),
            to_role: self.to_role.deep_view(),
            to_stable_id: self.to_stable_id.deep_view(),
            to_visibility: self.to_visibility.deep_view(),
            to_fan_in: self.to_fan_in.deep_view(),
            to_fan_out: self.to_fan_out.deep_view(),
            to_sig: self.to_sig.deep_view(),
        }
    }
}

impl View for RawEdge {
    type V = RawEdgeView;

    open spec fn view(&self) -> RawEdgeView {
        self.deep_view()
    }
}

/// An edge that couples two contexts against the rules.
#[derive(Debug)]
pub struct Violation {
    pub from_id: i64,
    pub from_name: String,
    pub from_file: String,
    pub from_ctx: String,
    pub from_crate: Option<String>,
    pub from_role: String,
    pub from_visibility: String,
    pub from_fan_in: i64,
    pub from_fan_out: i64,
    pub from_sig: Option<String>,
    pub to_id: i64,
    pub to_name: String,
    pub to_file: String,
    pub to_ctx: String,
    pub to_crate: Option<String>,
    pub to_role: String,
    pub to_visibility: String,
    pub to_fan_in: i64,
    pub to_fan_out: i64,
    pub to_sig: Option<String>,
}

/// What a [`Violation`] holds.
#[verifier::ext_equal]
pub struct ViolationView {
    pub from_id: i64,
    pub from_name: Seq<char>,
    pub from_file: Seq<char>,
    pub from_ctx: Seq<char>,
    pub from_crate: Option<Seq<char>>,
    pub from_role: Seq<char>,
    pub from_visibility: Seq<char>,
    pub from_fan_in: i64,
    pub from_fan_out: i64,
    pub from_sig: Option<Seq<char>>,
    pub to_id: i64,
    pub to_name: Seq<char>,
    pub to_file: Seq<char>,
    pub to_ctx: Seq<char>,
    pub to_crate: Option<Seq<char>>,
    pub to_role: Seq<char>,
    pub to_visibility: Seq<char>,
    pub to_fan_in: i64,
    pub to_fan_out: i64,
    pub to_sig: Option<Seq<char>>,
}

impl DeepView for Violation {
    type V = ViolationView;

    open spec fn deep_view(&self) -> ViolationView {
        ViolationView {
            from_id: self.from_id.deep_view(),
            from_name: self.from_name.deep_view(),
            from_file: self.from_file.deep_view(),
            from_ctx: self.from_ctx.deep_view(),
            from_crate: self.from_crate.deep_view(),
            from_role: self.from_role.deep_view(),
            from_visibility: self.from_visibility.deep_view(),
            from_fan_in: self.from_fan_in.deep_view(),
            from_fan_out: self.from_fan_out.deep_view(),
            from_sig: self.from_sig.deep_view(),
            to_id: self.to_id.deep_view(),
            to_name: self.to_name.deep_view(),
            to_file: self.to_file.deep_view(),
            to_ctx: self.to_ctx.deep_view(),
            to_crate: self.to_crate.deep_view(),
            to_role: self.to_role.deep_view(),
            to_visibility: self.to_visibility.deep_view(),
            to_fan_in: self.to_fan_in.deep_view(),
            to_fan_out: self.to_fan_out.deep_view(),
            to_sig: self.to_sig.deep_view(),
        }
    }
}

impl View for Violation {
    type V = ViolationView;

    open spec fn view(&self) -> ViolationView {
        self.deep_view()
    }
}

/// A symbol that is no test: where it stands and how visible it is.
#[derive(Debug)]
pub struct SymbolRow {
    pub stable_id: String,
    pub name: String,
    pub file: String,
    pub line: i64,
    pub visibility: Option<String>,
}

/// What a [`SymbolRow`] holds.
#[verifier::ext_equal]
pub struct SymbolRowView {
    pub stable_id: Seq<char>,
    pub name: Seq<char>,
    pub file: Seq<char>,
    pub line: i64,
    pub visibility: Option<Seq<char>>,
}

impl DeepView for SymbolRow {
    type V = SymbolRowView;

    open spec fn deep_view(&self) -> SymbolRowView {
        SymbolRowView {
            stable_id: self.stable_id.deep_view(),
            name: self.name.deep_view(),
            file: self.file.deep_view(),
            line: self.line.deep_view(),
            visibility: self.visibility.deep_view(),
        }
    }
}

impl View for SymbolRow {
    type V = SymbolRowView;

    open spec fn view(&self) -> SymbolRowView {
        self.deep_view()
    }
}

/// A symbol that is more visible than its layer allows.
#[derive(Debug)]
pub struct VisibilityViolation {
    pub stable_id: String,
    pub symbol: String,
    pub file: String,
    pub line: i64,
    pub layer: String,
    pub actual_visibility: String,
    pub max_visibility: String,
    pub reason: String,
}

/// What a [`VisibilityViolation`] holds.
#[verifier::ext_equal]
pub struct VisibilityViolationView {
    pub stable_id: Seq<char>,
    pub symbol: Seq<char>,
    pub file: Seq<char>,
    pub line: i64,
    pub layer: Seq<char>,
    pub actual_visibility: Seq<char>,
    pub max_visibility: Seq<char>,
    pub reason: Seq<char>,
}

impl DeepView for VisibilityViolation {
    type V = VisibilityViolationView;

    open spec fn deep_view(&self) -> VisibilityViolationView {
        VisibilityViolationView {
            stable_id: self.stable_id.deep_view(),
            symbol: self.symbol.deep_view(),
            file: self.file.deep_view(),
            line: self.line.deep_view(),
            layer: self.layer.deep_view(),
            actual_visibility: self.actual_visibility.deep_view(),
            max_visibility: self.max_visibility.deep_view(),
            reason: self.reason.deep_view(),
        }
    }
}

impl View for VisibilityViolation {
    type V = VisibilityViolationView;

    open spec fn view(&self) -> VisibilityViolationView {
        self.deep_view()
    }
}

/// A dependency between crates whose layers must not depend on each other.
#[derive(Debug)]
pub struct WorkspaceViolation {
    pub from_crate: String,
    pub from_layer: String,
    pub to_crate: String,
    pub to_layer: String,
    pub reason: String,
}

/// What a [`WorkspaceViolation`] holds.
#[verifier::ext_equal]
pub struct WorkspaceViolationView {
    pub from_crate: Seq<char>,
    pub from_layer: Seq<char>,
    pub to_crate: Seq<char>,
    pub to_layer: Seq<char>,
    pub reason: Seq<char>,
}

impl DeepView for WorkspaceViolation {
    type V = WorkspaceViolationView;

    open spec fn deep_view(&self) -> WorkspaceViolationView {
        WorkspaceViolationView {
            from_crate: self.from_crate.deep_view(),
            from_layer: self.from_layer.deep_view(),
            to_crate: self.to_crate.deep_view(),
            to_layer: self.to_layer.deep_view(),
            reason: self.reason.deep_view(),
        }
    }
}

impl View for WorkspaceViolation {
    type V = WorkspaceViolationView;

    open spec fn view(&self) -> WorkspaceViolationView {
        self.deep_view()
    }
}

/// What the analysis was based on.
#[derive(Debug)]
pub struct PolicyDiagnostics {
    pub policy_source: String,
    pub strict_policy: bool,
    pub context_rule_count: usize,
    pub exception_count: usize,
    pub workspace_layers_total: usize,
    pub workspace_layers_assigned: usize,
    pub workspace_rule_count: usize,
    pub trusted_edges_loaded: usize,
}

/// What a [`PolicyDiagnostics`] holds.
#[verifier::ext_equal]
pub struct PolicyDiagnosticsView {
    pub policy_source: Seq<char>,
    pub strict_policy: bool,
    pub context_rule_count: usize,
    pub exception_count: usize,
    pub workspace_layers_total: usize,
    pub workspace_layers_assigned: usize,
    pub workspace_rule_count: usize,
    pub trusted_edges_loaded: usize,
}

impl DeepView for PolicyDiagnostics {
    type V = PolicyDiagnosticsView;

    open spec fn deep_view(&self) -> PolicyDiagnosticsView {
        PolicyDiagnosticsView {
            policy_source: self.policy_source.deep_view(),
            strict_policy: self.strict_policy.deep_view(),
            context_rule_count: self.context_rule_count.deep_view(),
            exception_count: self.exception_count.deep_view(),
            workspace_layers_total: self.workspace_layers_total.deep_view(),
            workspace_layers_assigned: self.workspace_layers_assigned.deep_view(),
            workspace_rule_count: self.workspace_rule_count.deep_view(),
            trusted_edges_loaded: self.trusted_edges_loaded.deep_view(),
        }
    }
}

impl View for PolicyDiagnostics {
    type V = PolicyDiagnosticsView;

    open spec fn view(&self) -> PolicyDiagnosticsView {
        self.deep_view()
    }
}

/// A compiler finding on a symbol.
#[derive(Debug)]
pub struct CheckViolation {
    pub node_id: i64,
    pub name: String,
    pub file: String,
    pub role: String,
    pub visibility: String,
    pub code: String,
    pub level: String,
    pub message: String,
}

/// What a [`CheckViolation`] holds.
#[verifier::ext_equal]
pub struct CheckViolationView {
    pub node_id: i64,
    pub name: Seq<char>,
    pub file: Seq<char>,
    pub role: Seq<char>,
    pub visibility: Seq<char>,
    pub code: Seq<char>,
    pub level: Seq<char>,
    pub message: Seq<char>,
}

impl DeepView for CheckViolation {
    type V = CheckViolationView;

    open spec fn deep_view(&self) -> CheckViolationView {
        CheckViolationView {
            node_id: self.node_id.deep_view(),
            name: self.name.deep_view(),
            file: self.file.deep_view(),
            role: self.role.deep_view(),
            visibility: self.visibility.deep_view(),
            code: self.code.deep_view(),
            level: self.level.deep_view(),
            message: self.message.deep_view(),
        }
    }
}

impl View for CheckViolation {
    type V = CheckViolationView;

    open spec fn view(&self) -> CheckViolationView {
        self.deep_view()
    }
}

/// An advisory on a crate.
#[derive(Debug)]
pub struct AdvisoryViolation {
    pub package_name: String,
    pub version: String,
    pub advisory_id: String,
    pub title: String,
    pub severity: String,
    pub kind: String,
}

/// What a [`AdvisoryViolation`] holds.
#[verifier::ext_equal]
pub struct AdvisoryViolationView {
    pub package_name: Seq<char>,
    pub version: Seq<char>,
    pub advisory_id: Seq<char>,
    pub title: Seq<char>,
    pub severity: Seq<char>,
    pub kind: Seq<char>,
}

impl DeepView for AdvisoryViolation {
    type V = AdvisoryViolationView;

    open spec fn deep_view(&self) -> AdvisoryViolationView {
        AdvisoryViolationView {
            package_name: self.package_name.deep_view(),
            version: self.version.deep_view(),
            advisory_id: self.advisory_id.deep_view(),
            title: self.title.deep_view(),
            severity: self.severity.deep_view(),
            kind: self.kind.deep_view(),
        }
    }
}

impl View for AdvisoryViolation {
    type V = AdvisoryViolationView;

    open spec fn view(&self) -> AdvisoryViolationView {
        self.deep_view()
    }
}

// ---------------------------------------------------------------------------
// Layers of crates
// ---------------------------------------------------------------------------

/// The layer that a crate is assigned; none while that is `?`.
pub open spec fn assigned_layer(layers: Seq<(Seq<char>, Seq<char>)>, name: Seq<char>) -> Option<
    Seq<char>,
> {
    match layer_in(layers, name, 0) {
        Some(l) => if l == "?"@ {
            None
        } else {
            Some(l)
        },
        None => None,
    }
}

fn layer_of(ws: &WorkspaceConfig, name: &str) -> (r: Option<String>)
    ensures
        r.deep_view() == assigned_layer(ws@.layers, name@),
{
    match ws.layers.get(name) {
        Some(l) => if str_eq(l, "?") {
            None
        } else {
            Some(l.dup())
        },
        None => None,
    }
}

/// The reason of the first rule from `i` on that forbids the dependency between the layers.
pub open spec fn layer_rule_reason(
    rules: Seq<WorkspaceViolationRuleView>,
    from_layer: Seq<char>,
    to_layer: Seq<char>,
    i: int,
) -> Option<Seq<char>>
    decreases rules.len() - i,
{
    if i < 0 || i >= rules.len() {
        None
    } else if rules[i].from_layer == from_layer && rules[i].to_layer == to_layer {
        Some(or_text(rules[i].reason, from_layer + " must not depend on "@ + to_layer))
    } else {
        layer_rule_reason(rules, from_layer, to_layer, i + 1)
    }
}

/// The violation that a dependency is, if it is one.
pub open spec fn dep_violation(ws: WorkspaceConfigView, dep: (Seq<char>, Seq<char>)) -> Option<
    WorkspaceViolationView,
> {
    match (assigned_layer(ws.layers, dep.0), assigned_layer(ws.layers, dep.1)) {
        (Some(from_layer), Some(to_layer)) => match layer_rule_reason(
            ws.violations,
            from_layer,
            to_layer,
            0,
        ) {
            Some(reason) => Some(
                WorkspaceViolationView {
                    from_crate: dep.0,
                    from_layer,
                    to_crate: dep.1,
                    to_layer,
                    reason,
                },
            ),
            None => None,
        },
        _ => None,
    }
}

/// The violations among the dependencies, in their order.
pub open spec fn dep_violations(ws: WorkspaceConfigView, deps: Seq<(Seq<char>, Seq<char>)>) -> Seq<
    WorkspaceViolationView,
>
    decreases deps.len(),
{
    if deps.len() == 0 {
        Seq::empty()
    } else {
        let rest = dep_violations(ws, deps.drop_last());
        match dep_violation(ws, deps.last()) {
            Some(v) => rest.push(v),
            None => rest,
        }
    }
}

/// The dependencies of the workspace that its layer rules forbid.
pub open spec fn workspace_violations_of(
    cfg: Option<WorkspaceConfigView>,
    graph: Option<WorkspaceGraphView>,
) -> Seq<WorkspaceViolationView> {
    match (cfg, graph) {
        (Some(ws), Some(g)) => dep_violations(ws, g.deps),
        _ => Seq::empty(),
    }
}

fn find_layer_reason(ws: &WorkspaceConfig, from_layer: &str, to_layer: &str) -> (r: Option<String>)
    ensures
        r.deep_view() == layer_rule_reason(ws@.violations, from_layer@, to_layer@, 0),
{
    let rules = &ws.violations;
    let mut i: usize = 0;
    while i < rules.len()
        invariant
            rules@ == ws.violations@,
            i <= rules@.len(),
            layer_rule_reason(views(rules@), from_layer@, to_layer@, 0) == layer_rule_reason(
                views(rules@),
                from_layer@,
                to_layer@,
                i as int,
            ),
        decreases rules@.len() - i,
    {
        let rule = &rules[i];
        assert(views(rules@)[i as int] == rule@);
        if str_eq(&rule.from_layer, from_layer) && str_eq(&rule.to_layer, to_layer) {
            let usual = concat3(from_layer, " must not depend on ", to_layer);
            return Some(text_or(&rule.reason, &usual));
        }
        i = i + 1;
    }
    None
}

/// The dependencies between workspace crates that the layer rules forbid.
pub fn check_workspace_violations(
    ws_cfg: &Option<WorkspaceConfig>,
    graph: &Option<WorkspaceGraph>,
) -> (r: Vec<WorkspaceViolation>)
    ensures
        views(r@) == workspace_violations_of(ws_cfg.deep_view(), graph.deep_view()),
{
    let mut out: Vec<WorkspaceViolation> = Vec::new();
    let ws = match ws_cfg {
        Some(ws) => ws,
        None => {
            return out;
        },
    };
    let deps = match graph {
        Some(g) => &g.deps,
        None => {
            return out;
        },
    };
    let mut i: usize = 0;
    while i < deps.len()
        invariant
            i <= deps@.len(),
            views(out@) == dep_violations(ws@, views(deps@).take(i as int)),
        decreases deps@.len() - i,
    {
        let dep = &deps[i];
        assert(views(deps@)[i as int] == dep.deep_view());
        assert(views(deps@).take(i + 1).drop_last() =~= views(deps@).take(i as int));
        let from_layer = layer_of(ws, &dep.0);
        let to_layer = layer_of(ws, &dep.1);
        if let Some(from_layer) = from_layer {
            if let Some(to_layer) = to_layer {
                if let Some(reason) = find_layer_reason(ws, &from_layer, &to_layer) {
                    let v = WorkspaceViolation {
                        from_crate: dep.0.dup(),
                        from_layer,
                        to_crate: dep.1.dup(),
                        to_layer,
                        reason,
                    };
                    out.push(v);
                }
            }
        }
        i = i + 1;
    }
    assert(views(deps@).take(i as int) =~= views(deps@));
    out
}

// ---------------------------------------------------------------------------
// Validity of the policy
// ---------------------------------------------------------------------------

/// The layers that a policy may name.
pub open spec fn known_layer(l: Seq<char>) -> bool {
    l == "shared"@ || l == "domain"@ || l == "port"@ || l == "application"@ || l == "infra"@ || l
        == "adapter"@ || l == "composition"@
}

fn is_known_layer(l: &str) -> (r: bool)
    ensures
        r == known_layer(l@),
{
    str_eq(l, "shared") || str_eq(l, "domain") || str_eq(l, "port") || str_eq(l, "application")
        || str_eq(l, "infra") || str_eq(l, "adapter") || str_eq(l, "composition")
}

/// The layers that a rule on the dependencies of crates may name: those of crates, and those
/// that part commands from queries.
pub open spec fn known_rule_layer(l: Seq<char>) -> bool {
    known_layer(l) || l == "command"@ || l == "query"@ || l == "projection"@
}

fn is_known_rule_layer(l: &str) -> (r: bool)
    ensures
        r == known_rule_layer(l@),
{
    is_known_layer(l) || str_eq(l, "command") || str_eq(l, "query") || str_eq(l, "projection")
}

/// The limits that a visibility rule may name.
pub open spec fn known_visibility(v: Seq<char>) -> bool {
    v == "default"@ || v == "crate"@ || v == "restricted"@ || v == "public"@
}

fn is_known_visibility(v: &str) -> (r: bool)
    ensures
        r == known_visibility(v@),
{
    str_eq(v, "default") || str_eq(v, "crate") || str_eq(v, "restricted") || str_eq(v, "public")
}

/// The errors with those on the first `n` layer assignments: `?` where the policy is strict,
/// and names that are no layers.
pub open spec fn layer_errors(
    errs: Seq<Seq<char>>,
    layers: Seq<(Seq<char>, Seq<char>)>,
    n: int,
    strict: bool,
) -> Seq<Seq<char>>
    decreases n,
{
    if n <= 0 {
        errs
    } else {
        let errs = layer_errors(errs, layers, n - 1, strict);
        let name = layers[n - 1].0;
        let layer = layers[n - 1].1;
        if layer == "?"@ && strict {
            errs.push("workspace layer unresolved for crate '"@ + name + "' (value '?')"@)
        } else if layer != "?"@ && !known_layer(layer) {
            errs.push(
                "workspace layer '"@ + layer + "' for crate '"@ + name
                    + "' is invalid; valid values: "@
                    + "shared, domain, port, application, infra, adapter, composition"@,
            )
        } else {
            errs
        }
    }
}

/// The errors with those on the first `n` layer rules that name no layer.
pub open spec fn layer_rule_errors(
    errs: Seq<Seq<char>>,
    rules: Seq<WorkspaceViolationRuleView>,
    n: int,
) -> Seq<Seq<char>>
    decreases n,
{
    if n <= 0 {
        errs
    } else {
        let errs = layer_rule_errors(errs, rules, n - 1);
        let rule = rules[n - 1];
        let errs = if known_rule_layer(rule.from_layer) {
            errs
        } else {
            errs.push(
                "workspace violation rule has invalid from_layer '"@ + rule.from_layer + "'"@,
            )
        };
        if known_rule_layer(rule.to_layer) {
            errs
        } else {
            errs.push("workspace violation rule has invalid to_layer '"@ + rule.to_layer + "'"@)
        }
    }
}

/// The errors with those on the first `n` context rules that name a blank context.
pub open spec fn context_rule_errors(
    errs: Seq<Seq<char>>,
    rules: Seq<ViolationRuleView>,
    n: int,
) -> Seq<Seq<char>>
    decreases n,
{
    if n <= 0 {
        errs
    } else {
        let errs = context_rule_errors(errs, rules, n - 1);
        let rule = rules[n - 1];
        if trimmed(rule.from_context).len() == 0 || trimmed(rule.to_context).len() == 0 {
            errs.push(
                "context violation rule #"@ + dec(n as nat)
                    + " has empty from_context or to_context"@,
            )
        } else {
            errs
        }
    }
}

/// The errors with those on the first `n` visibility rules that name no layer or no limit.
pub open spec fn visibility_rule_errors(
    errs: Seq<Seq<char>>,
    rules: Seq<VisibilityRuleView>,
    n: int,
) -> Seq<Seq<char>>
    decreases n,
{
    if n <= 0 {
        errs
    } else {
        let errs = visibility_rule_errors(errs, rules, n - 1);
        let rule = rules[n - 1];
        let errs = if known_layer(rule.layer) {
            errs
        } else {
            errs.push("visibility rule has invalid layer '"@ + rule.layer + "'"@)
        };
        if known_visibility(rule.max_visibility) {
            errs
        } else {
            errs.push(
                "visibility rule for layer '"@ + rule.layer + "' has invalid max_visibility '"@
                    + rule.max_visibility + "' (expected one of: "@
                    + "default, crate, restricted, public"@ + ")"@,
            )
        }
    }
}

/// What is wrong with a policy.
pub open spec fn policy_errors(
    workspace: Option<WorkspaceConfigView>,
    violations: Seq<ViolationRuleView>,
    visibility_rules: Seq<VisibilityRuleView>,
    strict: bool,
) -> Seq<Seq<char>> {
    let errs = match workspace {
        Some(ws) => layer_rule_errors(
            layer_errors(Seq::empty(), ws.layers, ws.layers.len() as int, strict),
            ws.violations,
            ws.violations.len() as int,
        ),
        None => Seq::empty(),
    };
    visibility_rule_errors(
        context_rule_errors(errs, violations, violations.len() as int),
        visibility_rules,
        visibility_rules.len() as int,
    )
}

/// The message on a policy with errors.
pub open spec fn policy_message(errs: Seq<Seq<char>>) -> Seq<char> {
    "policy validation failed:\n- "@ + joined(errs, "\n- "@)
}

/// Accept a policy without errors; otherwise say what is wrong with it.
pub fn validate_policy(
    workspace: &Option<WorkspaceConfig>,
    violations: &Vec<ViolationRule>,
    visibility_rules: &Vec<VisibilityRule>,
    strict_policy: bool,
) -> (r: Result<(), String>)
    ensures
        ({
            let errs = policy_errors(
                workspace.deep_view(),
                views(violations@),
                views(visibility_rules@),
                strict_policy,
            );
            match r {
                Ok(_) => errs.len() == 0,
                Err(e) => errs.len() > 0 && e@ == policy_message(errs),
            }
        }),
{
    let mut errors: Vec<String> = Vec::new();
    if let Some(ws) = workspace {
        let mut n: usize = 0;
        while n < ws.layers.len()
            invariant
                n <= ws.layers@.len(),
                views(errors@) == layer_errors(Seq::empty(), ws@.layers, n as int, strict_policy),
            decreases ws.layers@.len() - n,
        {
            let layer = ws.layers.layer(n);
            let name = ws.layers.name(n);
            let open = str_eq(layer, "?");
            if open && strict_policy {
                errors.push(
                    concat3("workspace layer unresolved for crate '", name, "' (value '?')"),
                );
            } else if !open && !is_known_layer(layer) {
                let mut m = concat3("workspace layer '", layer, "' for crate '");
                m.append(name);
                m.append("' is invalid; valid values: ");
                m.append("shared, domain, port, application, infra, adapter, composition");
                errors.push(m);
            }
            n = n + 1;
        }
        let ghost start = views(errors@);
        let mut n: usize = 0;
        while n < ws.violations.len()
            invariant
                n <= ws.violations@.len(),
                views(errors@) == layer_rule_errors(start, ws@.violations, n as int),
            decreases ws.violations@.len() - n,
        {
            let rule = &ws.violations[n];
            assert(ws@.violations[n as int] == rule@);
            if !is_known_rule_layer(&rule.from_layer) {
                errors.push(
                    concat3(
                        "workspace violation rule has invalid from_layer '",
                        &rule.from_layer,
                        "'",
                    ),
                );
            }
            if !is_known_rule_layer(&rule.to_layer) {
                errors.push(
                    concat3("workspace violation rule has invalid to_layer '", &rule.to_layer, "'"),
                );
            }
            n = n + 1;
        }
    }
    let ghost start = views(errors@);
    let mut n: usize = 0;
    while n < violations.len()
        invariant
            n <= violations@.len(),
            views(errors@) == context_rule_errors(start, views(violations@), n as int),
        decreases violations@.len() - n,
    {
        let rule = &violations[n];
        assert(views(violations@)[n as int] == rule@);
        if trim(&rule.from_context).as_str().is_empty() || trim(
            &rule.to_context,
        ).as_str().is_empty() {
            errors.push(
                concat3(
                    "context violation rule #",
                    &usize_text(n + 1),
                    " has empty from_context or to_context",
                ),
            );
        }
        n = n + 1;
    }
    let ghost start = views(errors@);
    let mut n: usize = 0;
    while n < visibility_rules.len()
        invariant
            n <= visibility_rules@.len(),
            views(errors@) == visibility_rule_errors(start, views(visibility_rules@), n as int),
        decreases visibility_rules@.len() - n,
    {
        let rule = &visibility_rules[n];
        assert(views(visibility_rules@)[n as int] == rule@);
        if !is_known_layer(&rule.layer) {
            errors.push(concat3("visibility rule has invalid layer '", &rule.layer, "'"));
        }
        if !is_known_visibility(&rule.max_visibility) {
            let mut m = concat3(
                "visibility rule for layer '",
                &rule.layer,
                "' has invalid max_visibility '",
            );
            m.append(&rule.max_visibility);
            m.append("' (expected one of: ");
            m.append("default, crate, restricted, public");
            m.append(")");
            errors.push(m);
        }
        n = n + 1;
    }
    assert(views(errors@).len() == errors@.len());
    if errors.len() > 0 {
        return Err(concat2("policy validation failed:\n- ", &join(&errors, "\n- ")));
    }
    Ok(())
}

// ---------------------------------------------------------------------------
// Couplings
// ---------------------------------------------------------------------------

/// How visible a symbol is: 3 for public, 2 for restricted, 1 for the crate, 0 otherwise.
pub open spec fn rank_of(v: Seq<char>) -> int {
    if v == "public"@ || v == "pub"@ {
        3
    } else if begins_with(v, "restricted"@) {
        2
    } else if v == "crate"@ {
        1
    } else {
        0
    }
}

/// How visible a symbol is.
pub fn visibility_rank(v: &str) -> (r: i32)
    ensures
        r == rank_of(v@),
{
    if str_eq(v, "public") || str_eq(v, "pub") {
        3
    } else if starts_with(v, "restricted") {
        2
    } else if str_eq(v, "crate") {
        1
    } else {
        0
    }
}

/// The exception is about the symbols with the stable ids and about nothing else: it names one
/// of them, and gives no context and no role.
pub open spec fn names_symbol(
    exc: ViolationExceptionView,
    from_id: Seq<char>,
    to_id: Seq<char>,
) -> bool {
    &&& exc.stable_id matches Some(id) && (id == from_id || id == to_id)
    &&& exc.from_context is None
    &&& exc.to_context is None
    &&& exc.from_role is None
    &&& exc.to_role is None
}

/// The reason of the first exception from `i` on that is about one of the symbols.
pub open spec fn id_reason(
    from_id: Seq<char>,
    to_id: Seq<char>,
    exceptions: Seq<ViolationExceptionView>,
    i: int,
) -> Option<Seq<char>>
    decreases exceptions.len() - i,
{
    if i < 0 || i >= exceptions.len() {
        None
    } else if names_symbol(exceptions[i], from_id, to_id) {
        Some(or_text(exceptions[i].reason, "suppressed"@))
    } else {
        id_reason(from_id, to_id, exceptions, i + 1)
    }
}

/// The reason of the first exception that is about one of the symbols with the stable ids.
/// One that gives a context or a role is about edges, which a symbol by itself does not match.
pub fn stable_id_exception_reason(
    from_stable_id: &str,
    to_stable_id: &str,
    exceptions: &Vec<ViolationException>,
) -> (r: Option<String>)
    ensures
        r.deep_view() == id_reason(from_stable_id@, to_stable_id@, views(exceptions@), 0),
{
    let mut i: usize = 0;
    while i < exceptions.len()
        invariant
            i <= exceptions@.len(),
            id_reason(from_stable_id@, to_stable_id@, views(exceptions@), 0) == id_reason(
                from_stable_id@,
                to_stable_id@,
                views(exceptions@),
                i as int,
            ),
        decreases exceptions@.len() - i,
    {
        let exc = &exceptions[i];
        assert(views(exceptions@)[i as int] == exc@);
        if let Some(id) = &exc.stable_id {
            if (str_eq(id, from_stable_id) || str_eq(id, to_stable_id)) && exc.from_context.is_none()
                && exc.to_context.is_none() && exc.from_role.is_none() && exc.to_role.is_none() {
                return Some(text_or(&exc.reason, "suppressed"));
            }
        }
        i = i + 1;
    }
    None
}

/// `p` stands in one of the texts.
pub open spec fn any_has(fields: Seq<Seq<char>>, p: Seq<char>) -> bool {
    exists|i: int| 0 <= i < fields.len() && has_str(#[trigger] fields[i], p)
}

/// Whether `p` stands in one of the texts.
pub fn stands_in_any(fields: &Vec<String>, p: &str) -> (r: bool)
    ensures
        r == any_has(views(fields@), p@),
{
    let mut i: usize = 0;
    while i < fields.len()
        invariant
            i <= fields@.len(),
            forall|k: int| 0 <= k < i ==> !has_str(#[trigger] views(fields@)[k], p@),
        decreases fields@.len() - i,
    {
        assert(views(fields@)[i as int] == fields@[i as int]@);
        if contains(&fields[i], p) {
            return true;
        }
        i = i + 1;
    }
    false
}

/// The texts in lower case.
pub open spec fn all_lower(fields: Seq<Seq<char>>) -> Seq<Seq<char>> {
    Seq::new(fields.len(), |i: int| lowercase(fields[i]))
}

/// Whether the pattern stands in one of the fields, in any case.
pub fn matches_pattern(pattern: &str, fields: &Vec<String>) -> (r: bool)
    ensures
        r == any_has(all_lower(views(fields@)), lowercase(pattern@)),
{
    let p = to_lowercase(pattern);
    let mut lower: Vec<String> = Vec::new();
    let mut i: usize = 0;
    while i < fields.len()
        invariant
            i <= fields@.len(),
            views(lower@) =~= all_lower(views(fields@)).take(i as int),
        decreases fields@.len() - i,
    {
        assert(views(fields@)[i as int] == fields@[i as int]@);
        lower.push(to_lowercase(&fields[i]));
        i = i + 1;
    }
    assert(views(lower@) =~= all_lower(views(fields@)));
    stands_in_any(&lower, &p)
}

/// What stands behind `tag` in a word, without commas at the end; none where that is empty.
pub open spec fn tagged(word: Seq<char>, tag: Seq<char>) -> Option<Seq<char>> {
    match without_prefix(trimmed_char_end(word, ','), tag) {
        Some(v) => if v.len() == 0 {
            None
        } else {
            Some(v)
        },
        None => None,
    }
}

/// What the last word with the tag gives.
pub open spec fn last_tagged(ws: Seq<Seq<char>>, tag: Seq<char>) -> Option<Seq<char>>
    decreases ws.len(),
{
    if ws.len() == 0 {
        None
    } else {
        match tagged(ws.last(), tag) {
            Some(v) => Some(v),
            None => last_tagged(ws.drop_last(), tag),
        }
    }
}

/// The crates that an edge selector names.
pub open spec fn selector_of(edge: Seq<char>) -> Option<(Option<Seq<char>>, Option<Seq<char>>)> {
    let from = last_tagged(words(edge), "from:"@);
    let to = last_tagged(words(edge), "to:"@);
    if from is None && to is None {
        None
    } else {
        Some((from, to))
    }
}

fn tag_value(word: &str, tag: &str) -> (r: Option<String>)
    ensures
        r.deep_view() == tagged(word@, tag@),
{
    let t = trim_end_char(word, ',');
    match strip_prefix(&t, tag) {
        Some(v) => if v.as_str().is_empty() {
            None
        } else {
            Some(v)
        },
        None => None,
    }
}

/// The crates that an edge selector (`from:a to:b`) names.
pub fn parse_edge_selector(edge: &str) -> (r: Option<(Option<String>, Option<String>)>)
    ensures
        r.deep_view() == selector_of(edge@),
{
    let tokens = split_whitespace(edge);
    let mut from: Option<String> = None;
    let mut to: Option<String> = None;
    let mut i: usize = 0;
    while i < tokens.len()
        invariant
            views(tokens@) == words(edge@),
            i <= tokens@.len(),
            from.deep_view() == last_tagged(words(edge@).take(i as int), "from:"@),
            to.deep_view() == last_tagged(words(edge@).take(i as int), "to:"@),
        decreases tokens@.len() - i,
    {
        let ghost t = words(edge@).take(i + 1);
        assert(t.drop_last() =~= words(edge@).take(i as int));
        assert(t.last() == tokens@[i as int]@);
        if let Some(v) = tag_value(&tokens[i], "from:") {
            from = Some(v);
        }
        if let Some(v) = tag_value(&tokens[i], "to:") {
            to = Some(v);
        }
        i = i + 1;
    }
    assert(words(edge@).take(i as int) =~= words(edge@));
    if from.is_none() && to.is_none() {
        None
    } else {
        Some((from, to))
    }
}

/// The name of the crate that owns the file, where the workspace is known.
pub open spec fn owning_crate(ws: Option<WorkspaceGraphView>, file: Seq<char>) -> Option<Seq<char>> {
    match ws {
        Some(g) => crate_of(g, file),
        None => None,
    }
}

fn owner_of(ws: &Option<WorkspaceGraph>, file: &str) -> (r: Option<String>)
    ensures
        r.deep_view() == owning_crate(ws.deep_view(), file@),
{
    match ws {
        Some(g) => crate_for_file_path(g, file),
        None => None,
    }
}

/// The coupling that an edge is.
pub open spec fn coupling_of(e: RawEdgeView, ws: Option<WorkspaceGraphView>) -> ViolationView {
    ViolationView {
        from_id: e.from_id,
        from_name: e.from_name,
        from_file: e.from_file,
        from_ctx: context_of(e.from_file),
        from_crate: owning_crate(ws, e.from_file),
        from_role: e.from_role,
        from_visibility: e.from_visibility,
        from_fan_in: e.from_fan_in,
        from_fan_out: e.from_fan_out,
        from_sig: e.from_sig,
        to_id: e.to_id,
        to_name: e.to_name,
        to_file: e.to_file,
        to_ctx: context_of(e.to_file),
        to_crate: owning_crate(ws, e.to_file),
        to_role: e.to_role,
        to_visibility: e.to_visibility,
        to_fan_in: e.to_fan_in,
        to_fan_out: e.to_fan_out,
        to_sig: e.to_sig,
    }
}

/// The fields of a coupling that the pattern is looked for in.
pub open spec fn coupling_fields(v: ViolationView) -> Seq<Seq<char>> {
    Seq::<Seq<char>>::empty().push(v.from_ctx).push(v.to_ctx).push(v.from_name).push(v.to_name).push(
        v.from_file,
    ).push(v.to_file).push(or_text(v.from_crate, ""@)).push(or_text(v.to_crate, ""@))
}

/// The given crate is the one that is wanted, if one is.
pub open spec fn wanted(want: Option<Seq<char>>, got: Option<Seq<char>>) -> bool {
    want is Some ==> want == got
}

/// The coupling is among those that are asked for.
pub open spec fn asked_for(v: ViolationView, p: ParamsView) -> bool {
    &&& p.context matches Some(c) ==> v.from_ctx == c || v.to_ctx == c
    &&& p.from_context matches Some(c) ==> v.from_ctx == c
    &&& p.to_context matches Some(c) ==> v.to_ctx == c
    &&& p.pattern matches Some(t) ==> any_has(all_lower(coupling_fields(v)), lowercase(t))
    &&& p.edge matches Some(t) ==> (selector_of(t) matches Some(s) ==> wanted(s.0, v.from_crate)
        && wanted(s.1, v.to_crate))
}

/// Why an edge that couples contexts against the rules is suppressed, if it is.
pub open spec fn suppression(e: RawEdgeView, exceptions: Seq<ViolationExceptionView>) -> Option<
    Seq<char>,
> {
    covering_reason(
        context_of(e.from_file),
        context_of(e.to_file),
        e.from_role,
        e.to_role,
        Some((e.from_stable_id, e.to_stable_id)),
        exceptions,
        0,
    )
}

/// The edge couples contexts against the rules.
pub open spec fn forbidden(e: RawEdgeView, rules: Seq<ViolationRuleView>) -> bool {
    coupling_reason(context_of(e.from_file), context_of(e.to_file), rules) is Some
}

/// The couplings that are reported, in the order of the edges: forbidden, not suppressed,
/// and asked for.
pub open spec fn reported(
    edges: Seq<RawEdgeView>,
    policy: EffectivePolicyView,
    ws: Option<WorkspaceGraphView>,
    p: ParamsView,
) -> Seq<ViolationView>
    decreases edges.len(),
{
    if edges.len() == 0 {
        Seq::empty()
    } else {
        let rest = reported(edges.drop_last(), policy, ws, p);
        let e = edges.last();
        if forbidden(e, policy.violations) && suppression(e, policy.exceptions) is None && asked_for(
            coupling_of(e, ws),
            p,
        ) {
            rest.push(coupling_of(e, ws))
        } else {
            rest
        }
    }
}

/// The reasons of the suppressed couplings, in the order of the edges.
pub open spec fn suppressed_reasons(
    edges: Seq<RawEdgeView>,
    policy: EffectivePolicyView,
) -> Seq<Seq<char>>
    decreases edges.len(),
{
    if edges.len() == 0 {
        Seq::empty()
    } else {
        let rest = suppressed_reasons(edges.drop_last(), policy);
        let e = edges.last();
        if forbidden(e, policy.violations) {
            match suppression(e, policy.exceptions) {
                Some(r) => rest.push(r),
                None => rest,
            }
        } else {
            rest
        }
    }
}

/// How many of the edges couple contexts against the rules.
pub open spec fn forbidden_count(edges: Seq<RawEdgeView>, rules: Seq<ViolationRuleView>) -> nat
    decreases edges.len(),
{
    if edges.len() == 0 {
        0
    } else {
        forbidden_count(edges.drop_last(), rules) + if forbidden(edges.last(), rules) {
            1nat
        } else {
            0nat
        }
    }
}

/// Nothing narrows what is asked for.
pub open spec fn asks_for_all(p: ParamsView) -> bool {
    p.context is None && p.from_context is None && p.to_context is None && p.pattern is None
        && p.edge is None
}

/// Every coupling against the rules is either reported or counted as suppressed, where
/// everything is asked for: none is lost and none appears twice.
pub proof fn forbidden_edges_are_accounted_for(
    edges: Seq<RawEdgeView>,
    policy: EffectivePolicyView,
    ws: Option<WorkspaceGraphView>,
    p: ParamsView,
)
    requires
        asks_for_all(p),
    ensures
        reported(edges, policy, ws, p).len() + suppressed_reasons(edges, policy).len()
            == forbidden_count(edges, policy.violations),
    decreases edges.len(),
{
    if edges.len() > 0 {
        forbidden_edges_are_accounted_for(edges.drop_last(), policy, ws, p);
    }
}

/// What is reported is a coupling against the rules that nothing suppresses and that is asked
/// for.
pub proof fn reported_are_forbidden(
    edges: Seq<RawEdgeView>,
    policy: EffectivePolicyView,
    ws: Option<WorkspaceGraphView>,
    p: ParamsView,
)
    ensures
        forall|i: int|
            0 <= i < reported(edges, policy, ws, p).len() ==> exists|j: int|
                0 <= j < edges.len() && #[trigger] coupling_of(edges[j], ws) == (
                #[trigger] reported(edges, policy, ws, p)[i]) && forbidden(
                    edges[j],
                    policy.violations,
                ) && suppression(edges[j], policy.exceptions) is None && asked_for(
                    coupling_of(edges[j], ws),
                    p,
                ),
    decreases edges.len(),
{
    if edges.len() > 0 {
        let before = edges.drop_last();
        let rest = reported(before, policy, ws, p);
        let all = reported(edges, policy, ws, p);
        reported_are_forbidden(before, policy, ws, p);
        assert forall|i: int| 0 <= i < all.len() implies exists|j: int|
            0 <= j < edges.len() && #[trigger] coupling_of(edges[j], ws) == (#[trigger] all[i])
                && forbidden(edges[j], policy.violations) && suppression(
                edges[j],
                policy.exceptions,
            ) is None && asked_for(coupling_of(edges[j], ws), p) by {
            if i < rest.len() {
                assert(all[i] == rest[i]);
                let j = choose|j: int|
                    0 <= j < before.len() && #[trigger] coupling_of(before[j], ws) == rest[i]
                        && forbidden(before[j], policy.violations) && suppression(
                        before[j],
                        policy.exceptions,
                    ) is None && asked_for(coupling_of(before[j], ws), p);
                assert(edges[j] == before[j]);
                assert(coupling_of(edges[j], ws) == all[i]);
            } else {
                let j = edges.len() - 1;
                assert(coupling_of(edges[j], ws) == all[i]);
            }
        }
    }
}

/// Narrowing what is asked for never adds to the report.
pub proof fn narrowing_never_adds(
    edges: Seq<RawEdgeView>,
    policy: EffectivePolicyView,
    ws: Option<WorkspaceGraphView>,
    p: ParamsView,
    all: ParamsView,
)
    requires
        asks_for_all(all),
    ensures
        reported(edges, policy, ws, p).len() <= reported(edges, policy, ws, all).len(),
    decreases edges.len(),
{
    if edges.len() > 0 {
        narrowing_never_adds(edges.drop_last(), policy, ws, p, all);
    }
}

/// A crate whose layer is not assigned breaks no layer rule.
pub proof fn unassigned_crates_break_no_rule(
    ws: WorkspaceConfigView,
    dep: (Seq<char>, Seq<char>),
)
    requires
        assigned_layer(ws.layers, dep.0) is None || assigned_layer(ws.layers, dep.1) is None,
    ensures
        dep_violation(ws, dep) is None,
{
}

/// A text option equals the text.
fn opt_is(o: &Option<String>, s: &str) -> (r: bool)
    ensures
        r == (o.deep_view() == Some(s@)),
{
    match o {
        Some(t) => str_eq(t, s),
        None => false,
    }
}

fn is_asked_for(
    v: &Violation,
    p: &Params,
    filter: &Option<(Option<String>, Option<String>)>,
) -> (r: bool)
    requires
        filter.deep_view() == match p@.edge {
            Some(t) => selector_of(t),
            None => None,
        },
    ensures
        r == asked_for(v@, p@),
{
    if let Some(c) = &p.context {
        if !str_eq(&v.from_ctx, c) && !str_eq(&v.to_ctx, c) {
            return false;
        }
    }
    if let Some(c) = &p.from_context {
        if !str_eq(&v.from_ctx, c) {
            return false;
        }
    }
    if let Some(c) = &p.to_context {
        if !str_eq(&v.to_ctx, c) {
            return false;
        }
    }
    if let Some(t) = &p.pattern {
        let mut fields: Vec<String> = Vec::new();
        fields.push(v.from_ctx.dup());
        fields.push(v.to_ctx.dup());
        fields.push(v.from_name.dup());
        fields.push(v.to_name.dup());
        fields.push(v.from_file.dup());
        fields.push(v.to_file.dup());
        fields.push(text_or(&v.from_crate, ""));
        fields.push(text_or(&v.to_crate, ""));
        if !matches_pattern(t, &fields) {
            return false;
        }
    }
    if let Some(sel) = filter {
        if let Some(want) = &sel.0 {
            if !opt_is(&v.from_crate, want) {
                return false;
            }
        }
        if let Some(want) = &sel.1 {
            if !opt_is(&v.to_crate, want) {
                return false;
            }
        }
    }
    true
}

fn make_coupling(e: &RawEdge, ws: &Option<WorkspaceGraph>) -> (v: Violation)
    ensures
        v@ == coupling_of(e@, ws.deep_view()),
{
    Violation {
        from_id: e.from_id,
        from_name: e.from_name.dup(),
        from_file: e.from_file.dup(),
        from_ctx: file_to_context(&e.from_file),
        from_crate: owner_of(ws, &e.from_file),
        from_role: e.from_role.dup(),
        from_visibility: e.from_visibility.dup(),
        from_fan_in: e.from_fan_in,
        from_fan_out: e.from_fan_out,
        from_sig: e.from_sig.dup(),
        to_id: e.to_id,
        to_name: e.to_name.dup(),
        to_file: e.to_file.dup(),
        to_ctx: file_to_context(&e.to_file),
        to_crate: owner_of(ws, &e.to_file),
        to_role: e.to_role.dup(),
        to_visibility: e.to_visibility.dup(),
        to_fan_in: e.to_fan_in,
        to_fan_out: e.to_fan_out,
        to_sig: e.to_sig.dup(),
    }
}

/// Classify the edges: the couplings that are reported, and the reasons of those that are
/// suppressed.
pub fn classify_edges(
    raw: &Vec<RawEdge>,
    policy: &EffectivePolicy,
    ws: &Option<WorkspaceGraph>,
    p: &Params,
) -> (r: (Vec<Violation>, Vec<String>))
    ensures
        views(r.0@) == reported(views(raw@), policy@, ws.deep_view(), p@),
        views(r.1@) == suppressed_reasons(views(raw@), policy@),
        r.1@.len() <= raw@.len(),
{
    let filter = match &p.edge {
        Some(t) => parse_edge_selector(t),
        None => None,
    };
    let mut out: Vec<Violation> = Vec::new();
    let mut suppressed: Vec<String> = Vec::new();
    let mut i: usize = 0;
    while i < raw.len()
        invariant
            i <= raw@.len(),
            suppressed@.len() <= i,
            filter.deep_view() == match p@.edge {
                Some(t) => selector_of(t),
                None => None,
            },
            views(out@) == reported(views(raw@).take(i as int), policy@, ws.deep_view(), p@),
            views(suppressed@) == suppressed_reasons(views(raw@).take(i as int), policy@),
        decreases raw@.len() - i,
    {
        let e = &raw[i];
        assert(views(raw@)[i as int] == e@);
        assert(views(raw@).take(i + 1).drop_last() =~= views(raw@).take(i as int));
        let from_ctx = file_to_context(&e.from_file);
        let to_ctx = file_to_context(&e.to_file);
        if context_violation_reason(&from_ctx, &to_ctx, &policy.violations).is_some() {
            let why = edge_exception_reason(
                &from_ctx,
                &to_ctx,
                &e.from_role,
                &e.to_role,
                &e.from_stable_id,
                &e.to_stable_id,
                &policy.exceptions,
            );
            match why {
                Some(r) => {
                    suppressed.push(r);
                },
                None => {
                    let v = make_coupling(e, ws);
                    if is_asked_for(&v, p, &filter) {
                        out.push(v);
                    }
                },
            }
        }
        i = i + 1;
    }
    assert(views(raw@).take(i as int) =~= views(raw@));
    (out, suppressed)
}

// ---------------------------------------------------------------------------
// Visibility
// ---------------------------------------------------------------------------

/// The last visibility rule on the layer.
pub open spec fn last_rule_on(rules: Seq<VisibilityRuleView>, layer: Seq<char>) -> Option<
    VisibilityRuleView,
>
    decreases rules.len(),
{
    if rules.len() == 0 {
        None
    } else if rules.last().layer == layer {
        Some(rules.last())
    } else {
        last_rule_on(rules.drop_last(), layer)
    }
}

/// The violation that a symbol is, if it is more visible than its layer allows.
pub open spec fn overexposed(
    s: SymbolRowView,
    rules: Seq<VisibilityRuleView>,
    cfg: WorkspaceConfigView,
    ws: WorkspaceGraphView,
) -> Option<VisibilityViolationView> {
    let actual = or_text(s.visibility, "default"@);
    match crate_of(ws, s.file) {
        None => None,
        Some(name) => match assigned_layer(cfg.layers, name) {
            None => None,
            Some(layer) => match last_rule_on(rules, layer) {
                None => None,
                Some(rule) => if rank_of(actual) > rank_of(rule.max_visibility) {
                    Some(
                        VisibilityViolationView {
                            stable_id: s.stable_id,
                            symbol: s.name,
                            file: s.file,
                            line: s.line,
                            layer,
                            actual_visibility: actual,
                            max_visibility: rule.max_visibility,
                            reason: or_text(rule.reason, "visibility exceeds layer policy"@),
                        },
                    )
                } else {
                    None
                },
            },
        },
    }
}

/// The symbols that are more visible than their layers allow, in their order.
pub open spec fn all_overexposed(
    symbols: Seq<SymbolRowView>,
    rules: Seq<VisibilityRuleView>,
    cfg: WorkspaceConfigView,
    ws: WorkspaceGraphView,
) -> Seq<VisibilityViolationView>
    decreases symbols.len(),
{
    if symbols.len() == 0 {
        Seq::empty()
    } else {
        let rest = all_overexposed(symbols.drop_last(), rules, cfg, ws);
        match overexposed(symbols.last(), rules, cfg, ws) {
            Some(v) => rest.push(v),
            None => rest,
        }
    }
}

/// The symbols that are more visible than the policy allows. There are none where there is
/// no workspace.
pub open spec fn visibility_violations_of(
    policy: EffectivePolicyView,
    ws: Option<WorkspaceGraphView>,
    symbols: Seq<SymbolRowView>,
) -> Seq<VisibilityViolationView> {
    match (policy.workspace, ws) {
        (Some(cfg), Some(g)) => all_overexposed(symbols, policy.visibility_rules, cfg, g),
        _ => Seq::empty(),
    }
}

fn find_last_rule<'a>(rules: &'a Vec<VisibilityRule>, layer: &str) -> (r: Option<&'a VisibilityRule>)
    ensures
        match r {
            Some(x) => last_rule_on(views(rules@), layer@) == Some(x@),
            None => last_rule_on(views(rules@), layer@) is None,
        },
{
    let mut i: usize = rules.len();
    assert(views(rules@).take(i as int) =~= views(rules@));
    while i > 0
        invariant
            i <= rules@.len(),
            last_rule_on(views(rules@), layer@) == last_rule_on(
                views(rules@).take(i as int),
                layer@,
            ),
        decreases i,
    {
        assert(views(rules@).take(i as int).drop_last() =~= views(rules@).take(i - 1));
        assert(views(rules@)[i - 1] == rules@[i - 1]@);
        if str_eq(&rules[i - 1].layer, layer) {
            return Some(&rules[i - 1]);
        }
        i = i - 1;
    }
    None
}

fn check_symbol(
    s: &SymbolRow,
    rules: &Vec<VisibilityRule>,
    cfg: &WorkspaceConfig,
    ws: &WorkspaceGraph,
) -> (r: Option<VisibilityViolation>)
    ensures
        r.deep_view() == overexposed(s@, views(rules@), cfg@, ws@),
{
    let name = match crate_for_file_path(ws, &s.file) {
        Some(n) => n,
        None => {
            return None;
        },
    };
    let layer = match layer_of(cfg, &name) {
        Some(l) => l,
        None => {
            return None;
        },
    };
    let rule = match find_last_rule(rules, &layer) {
        Some(r) => r,
        None => {
            return None;
        },
    };
    let actual = text_or(&s.visibility, "default");
    if visibility_rank(&actual) > visibility_rank(&rule.max_visibility) {
        Some(
            VisibilityViolation {
                stable_id: s.stable_id.dup(),
                symbol: s.name.dup(),
                file: s.file.dup(),
                line: s.line,
                layer,
                actual_visibility: actual,
                max_visibility: rule.max_visibility.dup(),
                reason: text_or(&rule.reason, "visibility exceeds layer policy"),
            },
        )
    } else {
        None
    }
}

/// The symbols that are more visible than the policy allows.
pub fn check_visibility_violations(
    policy: &EffectivePolicy,
    ws: &Option<WorkspaceGraph>,
    symbols: &Vec<SymbolRow>,
) -> (r: Vec<VisibilityViolation>)
    ensures
        views(r@) == visibility_violations_of(policy@, ws.deep_view(), views(symbols@)),
{
    let mut out: Vec<VisibilityViolation> = Vec::new();
    let cfg = match &policy.workspace {
        Some(c) => c,
        None => {
            return out;
        },
    };
    let graph = match ws {
        Some(g) => g,
        None => {
            return out;
        },
    };
    let rules = &policy.visibility_rules;
    let mut i: usize = 0;
    while i < symbols.len()
        invariant
            i <= symbols@.len(),
            views(out@) == all_overexposed(
                views(symbols@).take(i as int),
                views(rules@),
                cfg@,
                graph@,
            ),
        decreases symbols@.len() - i,
    {
        assert(views(symbols@)[i as int] == symbols@[i as int]@);
        assert(views(symbols@).take(i + 1).drop_last() =~= views(symbols@).take(i as int));
        if let Some(v) = check_symbol(&symbols[i], rules, cfg, graph) {
            out.push(v);
        }
        i = i + 1;
    }
    assert(views(symbols@).take(i as int) =~= views(symbols@));
    out
}

/// The fields of a visibility violation that the pattern is looked for in.
pub open spec fn visibility_fields(v: VisibilityViolationView) -> Seq<Seq<char>> {
    Seq::<Seq<char>>::empty().push(v.symbol).push(v.file).push(v.layer).push(
        v.actual_visibility,
    ).push(v.max_visibility).push(v.stable_id)
}

/// The visibility violation is among those that are asked for.
pub open spec fn visibility_asked_for(v: VisibilityViolationView, p: ParamsView) -> bool {
    p.pattern matches Some(t) ==> any_has(all_lower(visibility_fields(v)), lowercase(t))
}

/// The visibility violations that are asked for and not suppressed.
pub open spec fn visibility_reported(
    all: Seq<VisibilityViolationView>,
    exceptions: Seq<ViolationExceptionView>,
    p: ParamsView,
) -> Seq<VisibilityViolationView>
    decreases all.len(),
{
    if all.len() == 0 {
        Seq::empty()
    } else {
        let rest = visibility_reported(all.drop_last(), exceptions, p);
        let v = all.last();
        if visibility_asked_for(v, p) && id_reason(v.stable_id, v.stable_id, exceptions, 0) is None {
            rest.push(v)
        } else {
            rest
        }
    }
}

/// The reasons, behind `reasons`, of the visibility violations that are asked for and
/// suppressed.
pub open spec fn visibility_suppressed(
    reasons: Seq<Seq<char>>,
    all: Seq<VisibilityViolationView>,
    exceptions: Seq<ViolationExceptionView>,
    p: ParamsView,
) -> Seq<Seq<char>>
    decreases all.len(),
{
    if all.len() == 0 {
        reasons
    } else {
        let rest = visibility_suppressed(reasons, all.drop_last(), exceptions, p);
        let v = all.last();
        match id_reason(v.stable_id, v.stable_id, exceptions, 0) {
            Some(r) => if visibility_asked_for(v, p) {
                rest.push(r)
            } else {
                rest
            },
            None => rest,
        }
    }
}

fn is_visibility_asked_for(v: &VisibilityViolation, p: &Params) -> (r: bool)
    ensures
        r == visibility_asked_for(v@, p@),
{
    match &p.pattern {
        Some(t) => {
            let mut fields: Vec<String> = Vec::new();
            fields.push(v.symbol.dup());
            fields.push(v.file.dup());
            fields.push(v.layer.dup());
            fields.push(v.actual_visibility.dup());
            fields.push(v.max_visibility.dup());
            fields.push(v.stable_id.dup());
            matches_pattern(t, &fields)
        },
        None => true,
    }
}

fn filter_visibility(
    all: Vec<VisibilityViolation>,
    exceptions: &Vec<ViolationException>,
    p: &Params,
    reasons: &mut Vec<String>,
) -> (r: Vec<VisibilityViolation>)
    ensures
        views(r@) == visibility_reported(views(all@), views(exceptions@), p@),
        views(final(reasons)@) == visibility_suppressed(
            views(old(reasons)@),
            views(all@),
            views(exceptions@),
            p@,
        ),
{
    let ghost start = views(reasons@);
    let ghost av = views(all@);
    let mut out: Vec<VisibilityViolation> = Vec::new();
    for v in it: all
        invariant
            views(it.seq()) == av,
            views(out@) == visibility_reported(
                av.take(it.index() as int),
                views(exceptions@),
                p@,
            ),
            views(reasons@) == visibility_suppressed(
                start,
                av.take(it.index() as int),
                views(exceptions@),
                p@,
            ),
    {
        let ghost n = it.index() as int;
        assert(views(it.seq())[n] == v@);
        assert(av.take(n + 1).drop_last() =~= av.take(n));
        if is_visibility_asked_for(&v, p) {
            match stable_id_exception_reason(&v.stable_id, &v.stable_id, exceptions) {
                Some(r) => {
                    reasons.push(r);
                },
                None => {
                    out.push(v);
                },
            }
        }
    }
    assert(av.take(av.len() as int) =~= av);
    out
}

impl Ranked for Violation {
    /// Callees that more symbols depend on come first.
    open spec fn before(a: ViolationView, b: ViolationView) -> bool {
        a.to_fan_in > b.to_fan_in
    }

    fn precedes(&self, other: &Violation) -> (r: bool) {
        self.to_fan_in > other.to_fan_in
    }

    proof fn weak_order(a: ViolationView, b: ViolationView, c: ViolationView) {
    }
}

impl Ranked for VisibilityViolation {
    /// Higher lines come first.
    open spec fn before(a: VisibilityViolationView, b: VisibilityViolationView) -> bool {
        a.line > b.line
    }

    fn precedes(&self, other: &VisibilityViolation) -> (r: bool) {
        self.line > other.line
    }

    proof fn weak_order(
        a: VisibilityViolationView,
        b: VisibilityViolationView,
        c: VisibilityViolationView,
    ) {
    }
}

/// The first `top` items; all of them where `top` is 0.
pub open spec fn shown_of<V>(s: Seq<V>, top: int) -> Seq<V> {
    if top > 0 && s.len() > top {
        s.take(top)
    } else {
        s
    }
}

// ---------------------------------------------------------------------------
// The report
// ---------------------------------------------------------------------------

/// How often a suppression fired for a reason.
#[derive(Debug)]
pub struct ReasonCount {
    pub reason: String,
    pub count: usize,
}

/// What a [`ReasonCount`] holds.
#[verifier::ext_equal]
pub struct ReasonCountView {
    pub reason: Seq<char>,
    pub count: usize,
}

impl DeepView for ReasonCount {
    type V = ReasonCountView;

    open spec fn deep_view(&self) -> ReasonCountView {
        ReasonCountView {
            reason: self.reason.deep_view(),
            count: self.count.deep_view(),
        }
    }
}

impl View for ReasonCount {
    type V = ReasonCountView;

    open spec fn view(&self) -> ReasonCountView {
        self.deep_view()
    }
}

impl Ranked for ReasonCount {
    /// More frequent reasons come first; equally frequent ones in the order of their texts.
    open spec fn before(a: ReasonCountView, b: ReasonCountView) -> bool {
        a.count > b.count || (a.count == b.count && lex_before(a.reason, b.reason))
    }

    fn precedes(&self, other: &ReasonCount) -> (r: bool) {
        self.count > other.count || (self.count == other.count && str_precedes(
            &self.reason,
            &other.reason,
        ))
    }

    proof fn weak_order(a: ReasonCountView, b: ReasonCountView, c: ReasonCountView) {
        crate::text::lex_is_order(a.reason, b.reason, c.reason);
    }
}

/// The reasons, in the order of their texts, with how often each stands in the list.
pub open spec fn reason_counts(reasons: Seq<Seq<char>>) -> Seq<ReasonCountView> {
    let keys = key_set::<String>(reasons);
    Seq::new(
        keys.len(),
        |i: int| ReasonCountView { reason: keys[i], count: times(reasons, keys[i]) as usize },
    )
}

fn count_reasons(reasons: &Vec<String>) -> (r: Vec<ReasonCount>)
    ensures
        views(r@) == reason_counts(views(reasons@)),
{
    let keys = distinct_keys(reasons);
    let mut out: Vec<ReasonCount> = Vec::new();
    let mut i: usize = 0;
    while i < keys.len()
        invariant
            views(keys@) == key_set::<String>(views(reasons@)),
            i <= keys@.len(),
            views(out@) =~= reason_counts(views(reasons@)).take(i as int),
        decreases keys@.len() - i,
    {
        assert(views(keys@)[i as int] == keys@[i as int]@);
        let count = count_text(reasons, &keys[i]);
        let rc = ReasonCount { reason: keys[i].dup(), count };
        out.push(rc);
        i = i + 1;
    }
    assert(views(out@) =~= reason_counts(views(reasons@)));
    out
}

/// The document with the first `n` counted reasons.
pub open spec fn reason_nodes(ev: Seq<Node>, counts: Seq<ReasonCountView>, n: int) -> Seq<Node>
    decreases n,
{
    if n <= 0 {
        ev
    } else {
        with_empty(
            reason_nodes(ev, counts, n - 1),
            "exception"@,
            no_attrs().push(("count"@, dec(counts[n - 1].count as nat))).push(
                ("reason"@, counts[n - 1].reason),
            ),
        )
    }
}

fn write_reasons(w: &mut XmlWriter, counts: &Vec<ReasonCount>, upto: usize)
    requires
        upto <= counts@.len(),
    ensures
        xml_events(*final(w)) == reason_nodes(xml_events(*old(w)), views(counts@), upto as int),
{
    let ghost ev = xml_events(*w);
    let mut i: usize = 0;
    while i < upto
        invariant
            i <= upto <= counts@.len(),
            xml_events(*w) == reason_nodes(ev, views(counts@), i as int),
        decreases upto - i,
    {
        assert(views(counts@)[i as int] == counts@[i as int]@);
        empty(
            w,
            "exception",
            &Attrs::new().with("count", &usize_text(counts[i].count)).with(
                "reason",
                &counts[i].reason,
            ),
        );
        i = i + 1;
    }
}

pub open spec fn at_most(n: int, limit: int) -> int {
    if n < limit {
        n
    } else {
        limit
    }
}

/// The document with the suppressions: all by reason, then the ten most frequent. Nothing
/// where nothing was suppressed.
pub open spec fn suppression_nodes(ev: Seq<Node>, reasons: Seq<Seq<char>>) -> Seq<Node> {
    if reasons.len() == 0 {
        ev
    } else {
        let counts = reason_counts(reasons);
        let ranked = stable_sorted::<ReasonCount>(counts);
        let ev = with_close(
            reason_nodes(
                with_open(ev, "suppressed_summary"@, no_attrs()),
                counts,
                counts.len() as int,
            ),
            "suppressed_summary"@,
        );
        with_close(
            reason_nodes(
                with_open(ev, "top_suppressions"@, no_attrs()),
                ranked,
                at_most(ranked.len() as int, 10),
            ),
            "top_suppressions"@,
        )
    }
}

fn write_suppressions(w: &mut XmlWriter, reasons: &Vec<String>)
    ensures
        xml_events(*final(w)) == suppression_nodes(xml_events(*old(w)), views(reasons@)),
{
    if reasons.len() == 0 {
        return;
    }
    let counts = count_reasons(reasons);
    open(w, "suppressed_summary");
    write_reasons(w, &counts, counts.len());
    close(w, "suppressed_summary");
    let ranked = stable_sort(counts);
    assert(views(ranked@).len() == ranked@.len());
    open(w, "top_suppressions");
    let upto: usize = if ranked.len() < 10 {
        ranked.len()
    } else {
        10
    };
    write_reasons(w, &ranked, upto);
    close(w, "top_suppressions");
}

/// The contexts of each coupling.
pub open spec fn context_pairs(vs: Seq<ViolationView>) -> Seq<(Seq<char>, Seq<char>)> {
    Seq::new(vs.len(), |i: int| (vs[i].from_ctx, vs[i].to_ctx))
}

fn pairs_of(vs: &Vec<Violation>) -> (r: Vec<(String, String)>)
    ensures
        views(r@) == context_pairs(views(vs@)),
{
    let mut out: Vec<(String, String)> = Vec::new();
    let mut i: usize = 0;
    while i < vs.len()
        invariant
            i <= vs@.len(),
            views(out@) =~= context_pairs(views(vs@)).take(i as int),
        decreases vs@.len() - i,
    {
        assert(views(vs@)[i as int] == vs@[i as int]@);
        out.push((vs[i].from_ctx.dup(), vs[i].to_ctx.dup()));
        i = i + 1;
    }
    assert(views(out@) =~= context_pairs(views(vs@)));
    out
}

/// The document with the first `n` pairs of contexts and how often each occurs.
pub open spec fn pattern_nodes(
    ev: Seq<Node>,
    keys: Seq<(Seq<char>, Seq<char>)>,
    pairs: Seq<(Seq<char>, Seq<char>)>,
    n: int,
) -> Seq<Node>
    decreases n,
{
    if n <= 0 {
        ev
    } else {
        let k = keys[n - 1];
        with_empty(
            pattern_nodes(ev, keys, pairs, n - 1),
            "pattern"@,
            no_attrs().push(("from_context"@, k.0)).push(("to_context"@, k.1)).push(
                ("count"@, dec(times(pairs, k))),
            ),
        )
    }
}

fn write_patterns(w: &mut XmlWriter, keys: &Vec<(String, String)>, pairs: &Vec<(String, String)>)
    ensures
        xml_events(*final(w)) == pattern_nodes(
            xml_events(*old(w)),
            views(keys@),
            views(pairs@),
            keys@.len() as int,
        ),
{
    let ghost ev = xml_events(*w);
    let mut i: usize = 0;
    while i < keys.len()
        invariant
            i <= keys@.len(),
            xml_events(*w) == pattern_nodes(ev, views(keys@), views(pairs@), i as int),
        decreases keys@.len() - i,
    {
        assert(views(keys@)[i as int] == keys@[i as int].deep_view());
        let n = count_pair(pairs, &keys[i].0, &keys[i].1);
        empty(
            w,
            "pattern",
            &Attrs::new().with("from_context", &keys[i].0).with("to_context", &keys[i].1).with(
                "count",
                &usize_text(n),
            ),
        );
        i = i + 1;
    }
}

/// The owning crates of the couplings for which both are known.
pub open spec fn crate_pairs(vs: Seq<ViolationView>) -> Seq<(Seq<char>, Seq<char>)>
    decreases vs.len(),
{
    if vs.len() == 0 {
        Seq::empty()
    } else {
        let rest = crate_pairs(vs.drop_last());
        match (vs.last().from_crate, vs.last().to_crate) {
            (Some(a), Some(b)) => rest.push((a, b)),
            _ => rest,
        }
    }
}

fn crate_pairs_of(vs: &Vec<Violation>) -> (r: Vec<(String, String)>)
    ensures
        views(r@) == crate_pairs(views(vs@)),
{
    let mut out: Vec<(String, String)> = Vec::new();
    let mut i: usize = 0;
    while i < vs.len()
        invariant
            i <= vs@.len(),
            views(out@) == crate_pairs(views(vs@).take(i as int)),
        decreases vs@.len() - i,
    {
        assert(views(vs@)[i as int] == vs@[i as int]@);
        assert(views(vs@).take(i + 1).drop_last() =~= views(vs@).take(i as int));
        if let Some(a) = &vs[i].from_crate {
            if let Some(b) = &vs[i].to_crate {
                out.push((a.dup(), b.dup()));
            }
        }
        i = i + 1;
    }
    assert(views(vs@).take(i as int) =~= views(vs@));
    out
}

/// The document with the first `n` pairs of crates and how often each occurs.
pub open spec fn crate_edge_nodes(
    ev: Seq<Node>,
    keys: Seq<(Seq<char>, Seq<char>)>,
    pairs: Seq<(Seq<char>, Seq<char>)>,
    n: int,
) -> Seq<Node>
    decreases n,
{
    if n <= 0 {
        ev
    } else {
        let k = keys[n - 1];
        with_empty(
            crate_edge_nodes(ev, keys, pairs, n - 1),
            "edge"@,
            no_attrs().push(("from_crate"@, k.0)).push(("to_crate"@, k.1)).push(
                ("count"@, dec(times(pairs, k))),
            ),
        )
    }
}

fn write_crate_edges(w: &mut XmlWriter, keys: &Vec<(String, String)>, pairs: &Vec<(String, String)>)
    ensures
        xml_events(*final(w)) == crate_edge_nodes(
            xml_events(*old(w)),
            views(keys@),
            views(pairs@),
            keys@.len() as int,
        ),
{
    let ghost ev = xml_events(*w);
    let mut i: usize = 0;
    while i < keys.len()
        invariant
            i <= keys@.len(),
            xml_events(*w) == crate_edge_nodes(ev, views(keys@), views(pairs@), i as int),
        decreases keys@.len() - i,
    {
        assert(views(keys@)[i as int] == keys@[i as int].deep_view());
        let n = count_pair(pairs, &keys[i].0, &keys[i].1);
        empty(
            w,
            "edge",
            &Attrs::new().with("from_crate", &keys[i].0).with("to_crate", &keys[i].1).with(
                "count",
                &usize_text(n),
            ),
        );
        i = i + 1;
    }
}

/// The document with the couplings counted by contexts, and by crates where that is asked.
pub open spec fn summary_nodes(ev: Seq<Node>, vs: Seq<ViolationView>, by_crate: bool) -> Seq<Node> {
    let pairs = context_pairs(vs);
    let keys = key_set::<(String, String)>(pairs);
    let ev = with_close(
        pattern_nodes(with_open(ev, "summary"@, no_attrs()), keys, pairs, keys.len() as int),
        "summary"@,
    );
    if by_crate {
        let pairs = crate_pairs(vs);
        let keys = key_set::<(String, String)>(pairs);
        with_close(
            crate_edge_nodes(
                with_open(ev, "crate_summary"@, no_attrs()),
                keys,
                pairs,
                keys.len() as int,
            ),
            "crate_summary"@,
        )
    } else {
        ev
    }
}

fn write_summary(w: &mut XmlWriter, vs: &Vec<Violation>, by_crate: bool)
    ensures
        xml_events(*final(w)) == summary_nodes(xml_events(*old(w)), views(vs@), by_crate),
{
    let pairs = pairs_of(vs);
    let keys = distinct_keys(&pairs);
    assert(views(keys@).len() == keys@.len());
    open(w, "summary");
    write_patterns(w, &keys, &pairs);
    close(w, "summary");
    if by_crate {
        let pairs = crate_pairs_of(vs);
        let keys = distinct_keys(&pairs);
        assert(views(keys@).len() == keys@.len());
        open(w, "crate_summary");
        write_crate_edges(w, &keys, &pairs);
        close(w, "crate_summary");
    }
}

/// The attributes with the owning crate behind them, where it is known.
pub open spec fn with_crate(a: Seq<(Seq<char>, Seq<char>)>, name: Option<Seq<char>>) -> Seq<
    (Seq<char>, Seq<char>),
> {
    match name {
        Some(n) => a.push(("crate"@, n)),
        None => a,
    }
}

/// The document with a tag around the text, where there is one.
pub open spec fn opt_text_node(ev: Seq<Node>, tag: Seq<char>, text: Option<Seq<char>>) -> Seq<Node> {
    match text {
        Some(t) => with_text(ev, tag, t),
        None => ev,
    }
}

/// The document with one coupling.
pub open spec fn coupling_nodes(ev: Seq<Node>, v: ViolationView, no_snippets: bool) -> Seq<Node> {
    let ev = with_open(
        ev,
        "violation"@,
        no_attrs().push(("kind"@, "coupling"@)).push(
            ("callee_fan_in"@, int_text(v.to_fan_in as int)),
        ).push(("caller_fan_out"@, int_text(v.from_fan_out as int))),
    );
    let ev = with_empty(
        ev,
        "caller"@,
        with_crate(
            no_attrs()
                .push(("id"@, int_text(v.from_id as int)))
                .push(("name"@, v.from_name))
                .push(("file"@, v.from_file))
                .push(("context"@, v.from_ctx))
                .push(("role"@, v.from_role))
                .push(("visibility"@, v.from_visibility))
                .push(("fan_in"@, int_text(v.from_fan_in as int)))
                .push(("fan_out"@, int_text(v.from_fan_out as int))),
            v.from_crate,
        ),
    );
    let ev = with_empty(
        ev,
        "callee"@,
        with_crate(
            no_attrs()
                .push(("id"@, int_text(v.to_id as int)))
                .push(("name"@, v.to_name))
                .push(("file"@, v.to_file))
                .push(("context"@, v.to_ctx))
                .push(("role"@, v.to_role))
                .push(("visibility"@, v.to_visibility))
                .push(("fan_in"@, int_text(v.to_fan_in as int)))
                .push(("fan_out"@, int_text(v.to_fan_out as int))),
            v.to_crate,
        ),
    );
    let ev = if no_snippets {
        ev
    } else {
        opt_text_node(
            opt_text_node(ev, "caller_signature"@, v.from_sig),
            "callee_signature"@,
            v.to_sig,
        )
    };
    with_close(ev, "violation"@)
}

fn add_crate(a: Attrs, name: &Option<String>) -> (r: Attrs)
    ensures
        r@ == with_crate(a@, name.deep_view()),
{
    match name {
        Some(n) => a.with("crate", n),
        None => a,
    }
}

fn write_opt_text(w: &mut XmlWriter, tag: &str, text: &Option<String>)
    ensures
        xml_events(*final(w)) == opt_text_node(xml_events(*old(w)), tag@, text.deep_view()),
{
    if let Some(t) = text {
        text_tag(w, tag, t);
    }
}

fn write_coupling(w: &mut XmlWriter, v: &Violation, no_snippets: bool)
    ensures
        xml_events(*final(w)) == coupling_nodes(xml_events(*old(w)), v@, no_snippets),
{
    open_attrs(
        w,
        "violation",
        &Attrs::new().with("kind", "coupling").with("callee_fan_in", &i64_text(v.to_fan_in)).with(
            "caller_fan_out",
            &i64_text(v.from_fan_out),
        ),
    );
    let caller = Attrs::new().with("id", &i64_text(v.from_id)).with("name", &v.from_name).with(
        "file",
        &v.from_file,
    ).with("context", &v.from_ctx).with("role", &v.from_role).with(
        "visibility",
        &v.from_visibility,
    ).with("fan_in", &i64_text(v.from_fan_in)).with("fan_out", &i64_text(v.from_fan_out));
    empty(w, "caller", &add_crate(caller, &v.from_crate));
    let callee = Attrs::new().with("id", &i64_text(v.to_id)).with("name", &v.to_name).with(
        "file",
        &v.to_file,
    ).with("context", &v.to_ctx).with("role", &v.to_role).with("visibility", &v.to_visibility).with(
        "fan_in",
        &i64_text(v.to_fan_in),
    ).with("fan_out", &i64_text(v.to_fan_out));
    empty(w, "callee", &add_crate(callee, &v.to_crate));
    if !no_snippets {
        write_opt_text(w, "caller_signature", &v.from_sig);
        write_opt_text(w, "callee_signature", &v.to_sig);
    }
    close(w, "violation");
}

/// The document with those of the first `n` couplings that are between the contexts.
pub open spec fn group_members(
    ev: Seq<Node>,
    vs: Seq<ViolationView>,
    key: (Seq<char>, Seq<char>),
    no_snippets: bool,
    n: int,
) -> Seq<Node>
    decreases n,
{
    if n <= 0 {
        ev
    } else {
        let ev = group_members(ev, vs, key, no_snippets, n - 1);
        let v = vs[n - 1];
        if (v.from_ctx, v.to_ctx) == key {
            coupling_nodes(ev, v, no_snippets)
        } else {
            ev
        }
    }
}

/// The document with the groups of the first `n` pairs of contexts.
pub open spec fn group_nodes(
    ev: Seq<Node>,
    vs: Seq<ViolationView>,
    keys: Seq<(Seq<char>, Seq<char>)>,
    no_snippets: bool,
    n: int,
) -> Seq<Node>
    decreases n,
{
    if n <= 0 {
        ev
    } else {
        let k = keys[n - 1];
        let ev = with_open(
            group_nodes(ev, vs, keys, no_snippets, n - 1),
            "group"@,
            no_attrs().push(("from_context"@, k.0)).push(("to_context"@, k.1)),
        );
        with_close(group_members(ev, vs, k, no_snippets, vs.len() as int), "group"@)
    }
}

fn write_groups(w: &mut XmlWriter, vs: &Vec<Violation>, no_snippets: bool)
    ensures
        ({
            let keys = key_set::<(String, String)>(context_pairs(views(vs@)));
            xml_events(*final(w)) == group_nodes(
                xml_events(*old(w)),
                views(vs@),
                keys,
                no_snippets,
                keys.len() as int,
            )
        }),
{
    let pairs = pairs_of(vs);
    let keys = distinct_keys(&pairs);
    let ghost ev = xml_events(*w);
    assert(views(keys@).len() == keys@.len());
    let mut k: usize = 0;
    while k < keys.len()
        invariant
            k <= keys@.len(),
            xml_events(*w) == group_nodes(ev, views(vs@), views(keys@), no_snippets, k as int),
        decreases keys@.len() - k,
    {
        let key = &keys[k];
        assert(views(keys@)[k as int] == key.deep_view());
        open_attrs(
            w,
            "group",
            &Attrs::new().with("from_context", &key.0).with("to_context", &key.1),
        );
        let ghost start = xml_events(*w);
        let mut i: usize = 0;
        while i < vs.len()
            invariant
                i <= vs@.len(),
                xml_events(*w) == group_members(
                    start,
                    views(vs@),
                    (key.0@, key.1@),
                    no_snippets,
                    i as int,
                ),
            decreases vs@.len() - i,
        {
            let v = &vs[i];
            assert(views(vs@)[i as int] == v@);
            if str_eq(&v.from_ctx, &key.0) && str_eq(&v.to_ctx, &key.1) {
                write_coupling(w, v, no_snippets);
            }
            i = i + 1;
        }
        close(w, "group");
        k = k + 1;
    }
}

/// The document with the first `n` visibility violations.
pub open spec fn visibility_nodes(ev: Seq<Node>, vs: Seq<VisibilityViolationView>, n: int) -> Seq<
    Node,
>
    decreases n,
{
    if n <= 0 {
        ev
    } else {
        let v = vs[n - 1];
        with_empty(
            visibility_nodes(ev, vs, n - 1),
            "violation"@,
            no_attrs()
                .push(("kind"@, "visibility"@))
                .push(("stable_id"@, v.stable_id))
                .push(("symbol"@, v.symbol))
                .push(("file"@, v.file))
                .push(("line"@, int_text(v.line as int)))
                .push(("layer"@, v.layer))
                .push(("actual_visibility"@, v.actual_visibility))
                .push(("max_visibility"@, v.max_visibility))
                .push(("reason"@, v.reason)),
        )
    }
}

/// The document with the section on visibility, where it is not empty.
pub open spec fn visibility_section(ev: Seq<Node>, vs: Seq<VisibilityViolationView>) -> Seq<Node> {
    if vs.len() == 0 {
        ev
    } else {
        with_close(
            visibility_nodes(
                with_open(
                    ev,
                    "visibility_violations"@,
                    no_attrs().push(("total"@, dec(vs.len()))),
                ),
                vs,
                vs.len() as int,
            ),
            "visibility_violations"@,
        )
    }
}

fn write_visibility(w: &mut XmlWriter, vs: &Vec<VisibilityViolation>)
    ensures
        xml_events(*final(w)) == visibility_section(xml_events(*old(w)), views(vs@)),
{
    if vs.len() == 0 {
        return;
    }
    open_attrs(w, "visibility_violations", &Attrs::new().with("total", &usize_text(vs.len())));
    let ghost ev = xml_events(*w);
    let mut i: usize = 0;
    while i < vs.len()
        invariant
            i <= vs@.len(),
            xml_events(*w) == visibility_nodes(ev, views(vs@), i as int),
        decreases vs@.len() - i,
    {
        let v = &vs[i];
        assert(views(vs@)[i as int] == v@);
        empty(
            w,
            "violation",
            &Attrs::new().with("kind", "visibility").with("stable_id", &v.stable_id).with(
                "symbol",
                &v.symbol,
            ).with("file", &v.file).with("line", &i64_text(v.line)).with("layer", &v.layer).with(
                "actual_visibility",
                &v.actual_visibility,
            ).with("max_visibility", &v.max_visibility).with("reason", &v.reason),
        );
        i = i + 1;
    }
    close(w, "visibility_violations");
}

/// The layers of each forbidden dependency.
pub open spec fn layer_pairs(vs: Seq<WorkspaceViolationView>) -> Seq<(Seq<char>, Seq<char>)> {
    Seq::new(vs.len(), |i: int| (vs[i].from_layer, vs[i].to_layer))
}

fn layer_pairs_of(vs: &Vec<WorkspaceViolation>) -> (r: Vec<(String, String)>)
    ensures
        views(r@) == layer_pairs(views(vs@)),
{
    let mut out: Vec<(String, String)> = Vec::new();
    let mut i: usize = 0;
    while i < vs.len()
        invariant
            i <= vs@.len(),
            views(out@) =~= layer_pairs(views(vs@)).take(i as int),
        decreases vs@.len() - i,
    {
        assert(views(vs@)[i as int] == vs@[i as int]@);
        out.push((vs[i].from_layer.dup(), vs[i].to_layer.dup()));
        i = i + 1;
    }
    assert(views(out@) =~= layer_pairs(views(vs@)));
    out
}

/// The document with those of the first `n` dependencies that are between the layers.
pub open spec fn dep_members(
    ev: Seq<Node>,
    vs: Seq<WorkspaceViolationView>,
    key: (Seq<char>, Seq<char>),
    n: int,
) -> Seq<Node>
    decreases n,
{
    if n <= 0 {
        ev
    } else {
        let ev = dep_members(ev, vs, key, n - 1);
        let v = vs[n - 1];
        if (v.from_layer, v.to_layer) == key {
            with_empty(
                ev,
                "dep"@,
                no_attrs().push(("from_crate"@, v.from_crate)).push(("to_crate"@, v.to_crate)).push(
                    ("reason"@, v.reason),
                ),
            )
        } else {
            ev
        }
    }
}

/// The document with the groups of the first `n` pairs of layers.
pub open spec fn layer_group_nodes(
    ev: Seq<Node>,
    vs: Seq<WorkspaceViolationView>,
    keys: Seq<(Seq<char>, Seq<char>)>,
    n: int,
) -> Seq<Node>
    decreases n,
{
    if n <= 0 {
        ev
    } else {
        let k = keys[n - 1];
        let ev = with_open(
            layer_group_nodes(ev, vs, keys, n - 1),
            "layer_violation"@,
            no_attrs().push(("from_layer"@, k.0)).push(("to_layer"@, k.1)).push(
                ("count"@, dec(times(layer_pairs(vs), k))),
            ),
        );
        with_close(dep_members(ev, vs, k, vs.len() as int), "layer_violation"@)
    }
}

/// The document with the section on workspace layers, where it is not empty.
pub open spec fn workspace_section(ev: Seq<Node>, vs: Seq<WorkspaceViolationView>) -> Seq<Node> {
    if vs.len() == 0 {
        ev
    } else {
        let keys = key_set::<(String, String)>(layer_pairs(vs));
        with_close(
            layer_group_nodes(
                with_open(
                    ev,
                    "workspace_violations"@,
                    no_attrs().push(("total"@, dec(vs.len()))),
                ),
                vs,
                keys,
                keys.len() as int,
            ),
            "workspace_violations"@,
        )
    }
}

fn write_workspace(w: &mut XmlWriter, vs: &Vec<WorkspaceViolation>)
    ensures
        xml_events(*final(w)) == workspace_section(xml_events(*old(w)), views(vs@)),
{
    if vs.len() == 0 {
        return;
    }
    open_attrs(w, "workspace_violations", &Attrs::new().with("total", &usize_text(vs.len())));
    let pairs = layer_pairs_of(vs);
    let keys = distinct_keys(&pairs);
    assert(views(keys@).len() == keys@.len());
    let ghost ev = xml_events(*w);
    let mut k: usize = 0;
    while k < keys.len()
        invariant
            k <= keys@.len(),
            views(pairs@) == layer_pairs(views(vs@)),
            xml_events(*w) == layer_group_nodes(ev, views(vs@), views(keys@), k as int),
        decreases keys@.len() - k,
    {
        let key = &keys[k];
        assert(views(keys@)[k as int] == key.deep_view());
        let count = count_pair(&pairs, &key.0, &key.1);
        open_attrs(
            w,
            "layer_violation",
            &Attrs::new().with("from_layer", &key.0).with("to_layer", &key.1).with(
                "count",
                &usize_text(count),
            ),
        );
        let ghost start = xml_events(*w);
        let mut i: usize = 0;
        while i < vs.len()
            invariant
                i <= vs@.len(),
                xml_events(*w) == dep_members(start, views(vs@), (key.0@, key.1@), i as int),
            decreases vs@.len() - i,
        {
            let v = &vs[i];
            assert(views(vs@)[i as int] == v@);
            if str_eq(&v.from_layer, &key.0) && str_eq(&v.to_layer, &key.1) {
                empty(
                    w,
                    "dep",
                    &Attrs::new().with("from_crate", &v.from_crate).with(
                        "to_crate",
                        &v.to_crate,
                    ).with("reason", &v.reason),
                );
            }
            i = i + 1;
        }
        close(w, "layer_violation");
        k = k + 1;
    }
    close(w, "workspace_violations");
}

/// The document with the first `n` compiler findings.
pub open spec fn check_nodes(ev: Seq<Node>, vs: Seq<CheckViolationView>, n: int) -> Seq<Node>
    decreases n,
{
    if n <= 0 {
        ev
    } else {
        let v = vs[n - 1];
        let ev = with_open(
            check_nodes(ev, vs, n - 1),
            "violation"@,
            no_attrs()
                .push(("kind"@, "check"@))
                .push(("id"@, int_text(v.node_id as int)))
                .push(("name"@, v.name))
                .push(("file"@, v.file))
                .push(("role"@, v.role))
                .push(("visibility"@, v.visibility))
                .push(("code"@, v.code))
                .push(("level"@, v.level)),
        );
        with_close(with_text(ev, "message"@, v.message), "violation"@)
    }
}

/// The document with the section on compiler findings, where it is not empty.
pub open spec fn check_section(ev: Seq<Node>, vs: Seq<CheckViolationView>) -> Seq<Node> {
    if vs.len() == 0 {
        ev
    } else {
        with_close(
            check_nodes(
                with_open(ev, "check_violations"@, no_attrs().push(("total"@, dec(vs.len())))),
                vs,
                vs.len() as int,
            ),
            "check_violations"@,
        )
    }
}

fn write_checks(w: &mut XmlWriter, vs: &Vec<CheckViolation>)
    ensures
        xml_events(*final(w)) == check_section(xml_events(*old(w)), views(vs@)),
{
    if vs.len() == 0 {
        return;
    }
    open_attrs(w, "check_violations", &Attrs::new().with("total", &usize_text(vs.len())));
    let ghost ev = xml_events(*w);
    let mut i: usize = 0;
    while i < vs.len()
        invariant
            i <= vs@.len(),
            xml_events(*w) == check_nodes(ev, views(vs@), i as int),
        decreases vs@.len() - i,
    {
        let v = &vs[i];
        assert(views(vs@)[i as int] == v@);
        open_attrs(
            w,
            "violation",
            &Attrs::new().with("kind", "check").with("id", &i64_text(v.node_id)).with(
                "name",
                &v.name,
            ).with("file", &v.file).with("role", &v.role).with("visibility", &v.visibility).with(
                "code",
                &v.code,
            ).with("level", &v.level),
        );
        text_tag(w, "message", &v.message);
        close(w, "violation");
        i = i + 1;
    }
    close(w, "check_violations");
}

/// The document with the first `n` advisories.
pub open spec fn advisory_nodes(ev: Seq<Node>, vs: Seq<AdvisoryViolationView>, n: int) -> Seq<Node>
    decreases n,
{
    if n <= 0 {
        ev
    } else {
        let a = vs[n - 1];
        with_empty(
            advisory_nodes(ev, vs, n - 1),
            "violation"@,
            no_attrs()
                .push(("kind"@, "audit"@))
                .push(("package"@, a.package_name))
                .push(("version"@, a.version))
                .push(("advisory"@, a.advisory_id))
                .push(("severity"@, a.severity))
                .push(("category"@, a.kind))
                .push(("title"@, a.title)),
        )
    }
}

/// The document with the section on advisories, where it is not empty.
pub open spec fn advisory_section(ev: Seq<Node>, vs: Seq<AdvisoryViolationView>) -> Seq<Node> {
    if vs.len() == 0 {
        ev
    } else {
        with_close(
            advisory_nodes(
                with_open(ev, "advisory_violations"@, no_attrs().push(("total"@, dec(vs.len())))),
                vs,
                vs.len() as int,
            ),
            "advisory_violations"@,
        )
    }
}

fn write_advisories(w: &mut XmlWriter, vs: &Vec<AdvisoryViolation>)
    ensures
        xml_events(*final(w)) == advisory_section(xml_events(*old(w)), views(vs@)),
{
    if vs.len() == 0 {
        return;
    }
    open_attrs(w, "advisory_violations", &Attrs::new().with("total", &usize_text(vs.len())));
    let ghost ev = xml_events(*w);
    let mut i: usize = 0;
    while i < vs.len()
        invariant
            i <= vs@.len(),
            xml_events(*w) == advisory_nodes(ev, views(vs@), i as int),
        decreases vs@.len() - i,
    {
        let a = &vs[i];
        assert(views(vs@)[i as int] == a@);
        empty(
            w,
            "violation",
            &Attrs::new().with("kind", "audit").with("package", &a.package_name).with(
                "version",
                &a.version,
            ).with("advisory", &a.advisory_id).with("severity", &a.severity).with(
                "category",
                &a.kind,
            ).with("title", &a.title),
        );
        i = i + 1;
    }
    close(w, "advisory_violations");
}

/// Everything that is reported: how many findings there are, which of them are shown, and
/// why others are suppressed.
#[derive(Debug)]
pub struct Findings {
    pub diagnostics: PolicyDiagnostics,
    pub violations: Vec<Violation>,
    pub total: usize,
    pub suppressed: Vec<String>,
    pub visibility_violations: Vec<VisibilityViolation>,
    pub visibility_total: usize,
    pub workspace_violations: Vec<WorkspaceViolation>,
    pub check_violations: Vec<CheckViolation>,
    pub advisory_violations: Vec<AdvisoryViolation>,
}

/// What a [`Findings`] holds.
#[verifier::ext_equal]
pub struct FindingsView {
    pub diagnostics: PolicyDiagnosticsView,
    pub violations: Seq<ViolationView>,
    pub total: usize,
    pub suppressed: Seq<Seq<char>>,
    pub visibility_violations: Seq<VisibilityViolationView>,
    pub visibility_total: usize,
    pub workspace_violations: Seq<WorkspaceViolationView>,
    pub check_violations: Seq<CheckViolationView>,
    pub advisory_violations: Seq<AdvisoryViolationView>,
}

impl DeepView for Findings {
    type V = FindingsView;

    open spec fn deep_view(&self) -> FindingsView {
        FindingsView {
            diagnostics: self.diagnostics.deep_view(),
            violations: views(self.violations@),
            total: self.total.deep_view(),
            suppressed: views(self.suppressed@),
            visibility_violations: views(self.visibility_violations@),
            visibility_total: self.visibility_total.deep_view(),
            workspace_violations: views(self.workspace_violations@),
            check_violations: views(self.check_violations@),
            advisory_violations: views(self.advisory_violations@),
        }
    }
}

impl View for Findings {
    type V = FindingsView;

    open spec fn view(&self) -> FindingsView {
        self.deep_view()
    }
}

/// The document's opening tag and the diagnostics. `tokens` is how many tokens the document
/// takes.
pub open spec fn head_nodes(ev: Seq<Node>, f: FindingsView, tokens: Seq<char>) -> Seq<Node> {
    let d = f.diagnostics;
    let ev = with_open(
        ev,
        "violations"@,
        no_attrs()
            .push(("total"@, dec(f.total as nat)))
            .push(("suppressed"@, dec(f.suppressed.len())))
            .push(("shown"@, dec(f.violations.len())))
            .push(("visibility_total"@, dec(f.visibility_total as nat)))
            .push(("visibility_shown"@, dec(f.visibility_violations.len())))
            .push(("workspace_total"@, dec(f.workspace_violations.len())))
            .push(("tokens"@, tokens))
            .push(("source"@, "trusted"@)),
    );
    with_empty(
        ev,
        "diagnostics"@,
        no_attrs()
            .push(("policy_source"@, d.policy_source))
            .push(("strict_policy"@, bool_text(d.strict_policy)))
            .push(("context_rules"@, dec(d.context_rule_count as nat)))
            .push(("exceptions"@, dec(d.exception_count as nat)))
            .push(("workspace_layers_total"@, dec(d.workspace_layers_total as nat)))
            .push(("workspace_layers_assigned"@, dec(d.workspace_layers_assigned as nat)))
            .push(("workspace_rules"@, dec(d.workspace_rule_count as nat)))
            .push(("trusted_edges_loaded"@, dec(d.trusted_edges_loaded as nat))),
    )
}

fn write_head(w: &mut XmlWriter, f: &Findings, tokens: &str)
    ensures
        xml_events(*final(w)) == head_nodes(xml_events(*old(w)), f@, tokens@),
{
    open_attrs(
        w,
        "violations",
        &Attrs::new().with("total", &usize_text(f.total)).with(
            "suppressed",
            &usize_text(f.suppressed.len()),
        ).with("shown", &usize_text(f.violations.len())).with(
            "visibility_total",
            &usize_text(f.visibility_total),
        ).with("visibility_shown", &usize_text(f.visibility_violations.len())).with(
            "workspace_total",
            &usize_text(f.workspace_violations.len()),
        ).with("tokens", tokens).with("source", "trusted"),
    );
    let d = &f.diagnostics;
    empty(
        w,
        "diagnostics",
        &Attrs::new().with("policy_source", &d.policy_source).with(
            "strict_policy",
            &text_of_bool(d.strict_policy),
        ).with("context_rules", &usize_text(d.context_rule_count)).with(
            "exceptions",
            &usize_text(d.exception_count),
        ).with("workspace_layers_total", &usize_text(d.workspace_layers_total)).with(
            "workspace_layers_assigned",
            &usize_text(d.workspace_layers_assigned),
        ).with("workspace_rules", &usize_text(d.workspace_rule_count)).with(
            "trusted_edges_loaded",
            &usize_text(d.trusted_edges_loaded),
        ),
    );
}

/// The whole document, where it takes so many tokens.
pub open spec fn findings_nodes(
    ev: Seq<Node>,
    f: FindingsView,
    by_crate: bool,
    no_snippets: bool,
    tokens: Seq<char>,
) -> Seq<Node> {
    let ev = suppression_nodes(head_nodes(ev, f, tokens), f.suppressed);
    let ev = summary_nodes(ev, f.violations, by_crate);
    let keys = key_set::<(String, String)>(context_pairs(f.violations));
    let ev = group_nodes(ev, f.violations, keys, no_snippets, keys.len() as int);
    let ev = workspace_section(
        visibility_section(ev, f.visibility_violations),
        f.workspace_violations,
    );
    let ev = advisory_section(check_section(ev, f.check_violations), f.advisory_violations);
    with_close(ev, "violations"@)
}

/// The whole document, with the tokens that it takes by itself.
pub open spec fn findings_document(
    ev: Seq<Node>,
    f: FindingsView,
    by_crate: bool,
    no_snippets: bool,
) -> Seq<Node> {
    findings_nodes(
        ev,
        f,
        by_crate,
        no_snippets,
        tokens_of(findings_nodes(Seq::empty(), f, by_crate, no_snippets, ""@)),
    )
}

fn write_findings(w: &mut XmlWriter, f: &Findings, by_crate: bool, no_snippets: bool, tokens: &str)
    ensures
        xml_events(*final(w)) == findings_nodes(
            xml_events(*old(w)),
            f@,
            by_crate,
            no_snippets,
            tokens@,
        ),
{
    write_head(w, f, tokens);
    write_suppressions(w, &f.suppressed);
    write_summary(w, &f.violations, by_crate);
    write_groups(w, &f.violations, no_snippets);
    write_visibility(w, &f.visibility_violations);
    write_workspace(w, &f.workspace_violations);
    write_checks(w, &f.check_violations);
    write_advisories(w, &f.advisory_violations);
    close(w, "violations");
}

/// Write the whole document.
pub fn render_xml(w: &mut XmlWriter, f: &Findings, by_crate: bool, no_snippets: bool)
    ensures
        xml_events(*final(w)) == findings_document(
            xml_events(*old(w)),
            f@,
            by_crate,
            no_snippets,
        ),
{
    let mut uncounted = new_writer();
    write_findings(&mut uncounted, f, by_crate, no_snippets, "");
    let tokens = count_tokens(&finish(uncounted));
    write_findings(w, f, by_crate, no_snippets, &tokens);
}

/// Where the policy comes from.
pub open spec fn source_of(pack: Option<Seq<char>>, config_exists: bool) -> Seq<char> {
    match pack {
        Some(name) => ".graphlite/config.toml + pack:"@ + name,
        None => if config_exists {
            ".graphlite/config.toml"@
        } else {
            "default-config"@
        },
    }
}

/// How many of the first `n` crates are assigned a layer.
pub open spec fn assigned_count(layers: Seq<(Seq<char>, Seq<char>)>, n: int) -> nat
    decreases n,
{
    if n <= 0 {
        0
    } else {
        assigned_count(layers, n - 1) + if layers[n - 1].1 != "?"@ {
            1nat
        } else {
            0nat
        }
    }
}

/// What the analysis is based on.
pub open spec fn diagnostics_of(
    policy: EffectivePolicyView,
    config_exists: bool,
    strict: bool,
    edges: nat,
) -> PolicyDiagnosticsView {
    PolicyDiagnosticsView {
        policy_source: source_of(policy.pack, config_exists),
        strict_policy: strict,
        context_rule_count: policy.violations.len() as usize,
        exception_count: policy.exceptions.len() as usize,
        workspace_layers_total: match policy.workspace {
            Some(ws) => ws.layers.len() as usize,
            None => 0,
        },
        workspace_layers_assigned: match policy.workspace {
            Some(ws) => assigned_count(ws.layers, ws.layers.len() as int) as usize,
            None => 0,
        },
        workspace_rule_count: match policy.workspace {
            Some(ws) => ws.violations.len() as usize,
            None => 0,
        },
        trusted_edges_loaded: edges as usize,
    }
}

fn make_diagnostics(
    policy: &EffectivePolicy,
    config_exists: bool,
    strict: bool,
    edges: usize,
) -> (d: PolicyDiagnostics)
    ensures
        d@ == diagnostics_of(policy@, config_exists, strict, edges as nat),
{
    let policy_source = match &policy.pack {
        Some(name) => concat2(".graphlite/config.toml + pack:", name),
        None => if config_exists {
            ".graphlite/config.toml".to_owned()
        } else {
            "default-config".to_owned()
        },
    };
    let mut total: usize = 0;
    let mut assigned: usize = 0;
    let mut rules: usize = 0;
    if let Some(ws) = &policy.workspace {
        total = ws.layers.len();
        rules = ws.violations.len();
        let mut i: usize = 0;
        while i < total
            invariant
                total == ws.layers@.len(),
                assigned <= i <= total,
                assigned == assigned_count(ws@.layers, i as int),
            decreases total - i,
        {
            if !str_eq(ws.layers.layer(i), "?") {
                assigned = assigned + 1;
            }
            i = i + 1;
        }
    }
    PolicyDiagnostics {
        policy_source,
        strict_policy: strict,
        context_rule_count: policy.violations.len(),
        exception_count: policy.exceptions.len(),
        workspace_layers_total: total,
        workspace_layers_assigned: assigned,
        workspace_rule_count: rules,
        trusted_edges_loaded: edges,
    }
}

/// Load and validate the policy of a configuration.
pub fn load_policy(cfg: &Config, strict_policy: bool) -> (r: Result<EffectivePolicy, String>)
    ensures
        match policy_of(cfg@) {
            None => r matches Err(e) && e@ == "unknown policy pack '"@ + selected_pack(cfg@)->0
                + "'"@,
            Some(p) => ({
                let errs = policy_errors(
                    p.workspace,
                    p.violations,
                    p.visibility_rules,
                    strict_policy,
                );
                match r {
                    Ok(q) => errs.len() == 0 && q@ == p,
                    Err(e) => errs.len() > 0 && e@ == policy_message(errs),
                }
            }),
        },
{
    let effective = match effective_policy(cfg) {
        Ok(p) => p,
        Err(e) => {
            return Err(e);
        },
    };
    match validate_policy(
        &effective.workspace,
        &effective.violations,
        &effective.visibility_rules,
        strict_policy,
    ) {
        Ok(_) => Ok(effective),
        Err(e) => Err(e),
    }
}

/// What the code graph and the workspace hold that violations are looked for in.
pub struct RunInput {
    pub config_exists: bool,
    pub workspace: Option<WorkspaceGraph>,
    pub edges: Vec<RawEdge>,
    pub symbols: Vec<SymbolRow>,
    pub checks: Vec<CheckViolation>,
    pub advisories: Vec<AdvisoryViolation>,
}

/// What is found in the input under the policy.
pub open spec fn findings_of(
    policy: EffectivePolicyView,
    input: RunInput,
    p: ParamsView,
) -> FindingsView {
    let ws = input.workspace.deep_view();
    let edges = views(input.edges@);
    let couplings = stable_sorted::<Violation>(reported(edges, policy, ws, p));
    let exposed = visibility_violations_of(policy, ws, views(input.symbols@));
    let visible = stable_sorted::<VisibilityViolation>(
        visibility_reported(exposed, policy.exceptions, p),
    );
    FindingsView {
        diagnostics: diagnostics_of(policy, input.config_exists, p.strict_policy, edges.len()),
        violations: shown_of(couplings, p.top as int),
        total: couplings.len() as usize,
        suppressed: visibility_suppressed(
            suppressed_reasons(edges, policy),
            exposed,
            policy.exceptions,
            p,
        ),
        visibility_violations: shown_of(visible, p.top as int),
        visibility_total: visible.len() as usize,
        workspace_violations: workspace_violations_of(policy.workspace, ws),
        check_violations: if p.check {
            views(input.checks@)
        } else {
            Seq::empty()
        },
        advisory_violations: if p.audit {
            views(input.advisories@)
        } else {
            Seq::empty()
        },
    }
}

/// Find the violations in the code graph under a policy.
pub fn collect_findings(policy: &EffectivePolicy, input: RunInput, params: &Params) -> (f: Findings)
    ensures
        f@ == findings_of(policy@, input, params@),
{
    let diagnostics = make_diagnostics(
        policy,
        input.config_exists,
        params.strict_policy,
        input.edges.len(),
    );
    let (violations, mut suppressed) = classify_edges(
        &input.edges,
        policy,
        &input.workspace,
        params,
    );
    let mut violations = stable_sort(violations);
    assert(views(violations@).len() == violations@.len());
    let total: usize = violations.len();
    let exposed = check_visibility_violations(policy, &input.workspace, &input.symbols);
    let visible = filter_visibility(exposed, &policy.exceptions, params, &mut suppressed);
    let mut visible = stable_sort(visible);
    assert(views(visible@).len() == visible@.len());
    let visibility_total: usize = visible.len();
    let ghost all = violations@;
    if params.top > 0 && violations.len() > params.top {
        violations.truncate(params.top);
        assert(violations@ =~= all.take(params.top as int));
    }
    let ghost all_visible = visible@;
    if params.top > 0 && visible.len() > params.top {
        visible.truncate(params.top);
        assert(visible@ =~= all_visible.take(params.top as int));
    }
    let workspace_violations = check_workspace_violations(&policy.workspace, &input.workspace);
    let check_violations = if params.check {
        input.checks
    } else {
        Vec::new()
    };
    let advisory_violations = if params.audit {
        input.advisories
    } else {
        Vec::new()
    };
    Findings {
        diagnostics,
        violations,
        total,
        suppressed,
        visibility_violations: visible,
        visibility_total,
        workspace_violations,
        check_violations,
        advisory_violations,
    }
}

/// Report the violations in the code graph under a policy.
pub fn run(policy: &EffectivePolicy, input: RunInput, params: &Params) -> (document: String)
    ensures
        document@ == xml_text(
            findings_document(
                Seq::empty(),
                findings_of(policy@, input, params@),
                params.by_crate,
                params.no_snippets,
            ),
        ),
{
    let f = collect_findings(policy, input, params);
    let mut w = new_writer();
    render_xml(&mut w, &f, params.by_crate, params.no_snippets);
    finish(w)
}

// ---------------------------------------------------------------------------
// Packs
// ---------------------------------------------------------------------------

/// The context rule names two contexts.
pub open spec fn names_contexts(rule: ViolationRuleView) -> bool {
    trimmed(rule.from_context).len() > 0 && trimmed(rule.to_context).len() > 0
}

proof fn layer_rules_are_right(
    errs: Seq<Seq<char>>,
    rules: Seq<WorkspaceViolationRuleView>,
    n: int,
)
    requires
        0 <= n <= rules.len(),
    ensures
        layer_rule_errors(errs, rules, n).len() == 0 <==> errs.len() == 0 && forall|i: int|
            0 <= i < n ==> known_rule_layer((#[trigger] rules[i]).from_layer) && known_rule_layer(
                rules[i].to_layer,
            ),
    decreases n,
{
    if n > 0 {
        layer_rules_are_right(errs, rules, n - 1);
    }
}

proof fn context_rules_are_right(errs: Seq<Seq<char>>, rules: Seq<ViolationRuleView>, n: int)
    requires
        0 <= n <= rules.len(),
    ensures
        context_rule_errors(errs, rules, n).len() == 0 <==> errs.len() == 0 && forall|i: int|
            0 <= i < n ==> names_contexts(#[trigger] rules[i]),
    decreases n,
{
    if n > 0 {
        context_rules_are_right(errs, rules, n - 1);
    }
}

proof fn visibility_rules_are_right(errs: Seq<Seq<char>>, rules: Seq<VisibilityRuleView>, n: int)
    requires
        0 <= n <= rules.len(),
    ensures
        visibility_rule_errors(errs, rules, n).len() == 0 <==> errs.len() == 0 && forall|i: int|
            0 <= i < n ==> known_layer((#[trigger] rules[i]).layer) && known_visibility(
                rules[i].max_visibility,
            ),
    decreases n,
{
    if n > 0 {
        visibility_rules_are_right(errs, rules, n - 1);
    }
}

proof fn text_is_left(s: Seq<char>)
    requires
        s.len() > 0,
        !is_space(s[0]),
    ensures
        trimmed(s).len() > 0,
{
    end_is_left(s);
}

proof fn end_is_left(s: Seq<char>)
    requires
        s.len() > 0,
        !is_space(s[0]),
    ensures
        trimmed_end(s).len() > 0,
    decreases s.len(),
{
    if is_space(s.last()) {
        end_is_left(s.drop_last());
    }
}

proof fn contexts_are_text()
    ensures
        trimmed("adapter"@).len() > 0,
        trimmed("infra"@).len() > 0,
        trimmed("domain"@).len() > 0,
        trimmed("query"@).len() > 0,
        trimmed("command"@).len() > 0,
        trimmed("projection"@).len() > 0,
{
    reveal_strlit("adapter");
    reveal_strlit("infra");
    reveal_strlit("domain");
    reveal_strlit("query");
    reveal_strlit("command");
    reveal_strlit("projection");
    text_is_left("adapter"@);
    text_is_left("infra"@);
    text_is_left("domain"@);
    text_is_left("query"@);
    text_is_left("command"@);
    text_is_left("projection"@);
}

proof fn pack_rules_are_right(pack: PolicyPackView)
    requires
        pack == ddd_pack() || pack == cqrs_pack() || pack == no_pack(),
    ensures
        forall|i: int|
            0 <= i < pack.violations.len() ==> names_contexts(#[trigger] pack.violations[i]),
        forall|i: int|
            0 <= i < pack.visibility_rules.len() ==> known_layer(
                (#[trigger] pack.visibility_rules[i]).layer,
            ) && known_visibility(pack.visibility_rules[i].max_visibility),
        forall|i: int|
            0 <= i < pack.workspace_violations.len() ==> known_rule_layer(
                (#[trigger] pack.workspace_violations[i]).from_layer,
            ) && known_rule_layer(pack.workspace_violations[i].to_layer),
{
    contexts_are_text();
}

/// Every pack is valid by itself, and with every valid policy of a project: selecting one adds
/// no error, however strict the policy is.
pub proof fn packs_are_valid(cfg: ConfigView, strict: bool)
    requires
        policy_of(cfg) is Some,
        policy_errors(cfg.workspace, cfg.violations, cfg.visibility_rules, strict).len() == 0,
    ensures
        ({
            let p = policy_of(cfg)->0;
            policy_errors(p.workspace, p.violations, p.visibility_rules, strict).len() == 0
        }),
{
    let p = policy_of(cfg)->0;
    let pack = match selected_pack(cfg) {
        Some(name) => pack_named(name)->0,
        None => no_pack(),
    };
    pack_rules_are_right(pack);
    let none = Seq::<Seq<char>>::empty();
    let own_layers = match cfg.workspace {
        Some(ws) => layer_errors(none, ws.layers, ws.layers.len() as int, strict),
        None => none,
    };
    let own_rules = match cfg.workspace {
        Some(ws) => ws.violations,
        None => Seq::empty(),
    };
    let own = layer_rule_errors(own_layers, own_rules, own_rules.len() as int);
    layer_rules_are_right(own_layers, own_rules, own_rules.len() as int);
    let own_contexts = context_rule_errors(own, cfg.violations, cfg.violations.len() as int);
    context_rules_are_right(own, cfg.violations, cfg.violations.len() as int);
    visibility_rules_are_right(
        own_contexts,
        cfg.visibility_rules,
        cfg.visibility_rules.len() as int,
    );
    let all_rules = own_rules + pack.workspace_violations;
    assert forall|i: int| 0 <= i < all_rules.len() implies known_rule_layer(
        (#[trigger] all_rules[i]).from_layer,
    ) && known_rule_layer(all_rules[i].to_layer) by {
        if i >= own_rules.len() {
            assert(all_rules[i] == pack.workspace_violations[i - own_rules.len()]);
        } else {
            assert(all_rules[i] == own_rules[i]);
        }
    }
    layer_rules_are_right(own_layers, all_rules, all_rules.len() as int);
    if pack.workspace_violations.len() == 0 {
        assert(all_rules =~= own_rules);
    }
    if cfg.workspace is None {
        assert(all_rules =~= pack.workspace_violations);
        assert(layer_errors(none, Seq::empty(), 0, strict) == none);
    }
    let layers = layer_rule_errors(own_layers, all_rules, all_rules.len() as int);
    assert forall|i: int| 0 <= i < p.violations.len() implies names_contexts(
        #[trigger] p.violations[i],
    ) by {
        if i >= cfg.violations.len() {
            assert(p.violations[i] == pack.violations[i - cfg.violations.len()]);
        } else {
            assert(p.violations[i] == cfg.violations[i]);
        }
    }
    context_rules_are_right(layers, p.violations, p.violations.len() as int);
    let contexts = context_rule_errors(layers, p.violations, p.violations.len() as int);
    assert forall|i: int| 0 <= i < p.visibility_rules.len() implies known_layer(
        (#[trigger] p.visibility_rules[i]).layer,
    ) && known_visibility(p.visibility_rules[i].max_visibility) by {
        if i < pack.visibility_rules.len() {
            assert(p.visibility_rules[i] == pack.visibility_rules[i]);
        } else {
            assert(p.visibility_rules[i] == cfg.visibility_rules[i
                - pack.visibility_rules.len()]);
        }
    }
    visibility_rules_are_right(contexts, p.visibility_rules, p.visibility_rules.len() as int);
}

// ---------------------------------------------------------------------------
// What is reported
// ---------------------------------------------------------------------------

proof fn layer_is_first(layers: Seq<(Seq<char>, Seq<char>)>, name: Seq<char>, i: int)
    requires
        0 <= i <= layers.len(),
    ensures
        match layer_in(layers, name, i) {
            Some(l) => exists|k: int|
                i <= k < layers.len() && (#[trigger] layers[k]).0 == name && layers[k].1 == l
                    && forall|j: int| i <= j < k ==> (#[trigger] layers[j]).0 != name,
            None => forall|k: int| i <= k < layers.len() ==> (#[trigger] layers[k]).0 != name,
        },
    decreases layers.len() - i,
{
    if i < layers.len() {
        layer_is_first(layers, name, i + 1);
        if layers[i].0 == name {
            assert(layers[i].1 == layers[i].1);
        } else if let Some(l) = layer_in(layers, name, i + 1) {
            let k = choose|k: int|
                i + 1 <= k < layers.len() && (#[trigger] layers[k]).0 == name && layers[k].1 == l
                    && forall|j: int| i + 1 <= j < k ==> (#[trigger] layers[j]).0 != name;
            assert(layers[k].0 == name);
        }
    }
}

proof fn layer_rule_is_first(
    rules: Seq<WorkspaceViolationRuleView>,
    from_layer: Seq<char>,
    to_layer: Seq<char>,
    i: int,
)
    requires
        0 <= i <= rules.len(),
    ensures
        match layer_rule_reason(rules, from_layer, to_layer, i) {
            Some(r) => exists|k: int|
                {
                    &&& i <= k < rules.len()
                    &&& (#[trigger] rules[k]).from_layer == from_layer
                    &&& rules[k].to_layer == to_layer
                    &&& r == (match rules[k].reason {
                        Some(t) => t,
                        None => from_layer + " must not depend on "@ + to_layer,
                    })
                },
            None => forall|k: int|
                i <= k < rules.len() ==> (#[trigger] rules[k]).from_layer != from_layer
                    || rules[k].to_layer != to_layer,
        },
    decreases rules.len() - i,
{
    if i < rules.len() {
        layer_rule_is_first(rules, from_layer, to_layer, i + 1);
        if rules[i].from_layer == from_layer && rules[i].to_layer == to_layer {
            assert(rules[i].from_layer == from_layer);
        } else if let Some(r) = layer_rule_reason(rules, from_layer, to_layer, i + 1) {
            let k = choose|k: int|
                {
                    &&& i + 1 <= k < rules.len()
                    &&& (#[trigger] rules[k]).from_layer == from_layer
                    &&& rules[k].to_layer == to_layer
                    &&& r == (match rules[k].reason {
                        Some(t) => t,
                        None => from_layer + " must not depend on "@ + to_layer,
                    })
                };
            assert(rules[k].from_layer == from_layer);
        }
    }
}

/// A dependency between two crates is reported exactly where both have a layer assigned and
/// some rule forbids the layer of the one to depend on the layer of the other.
pub proof fn forbidden_dependencies_are_reported(
    ws: WorkspaceConfigView,
    from: Seq<char>,
    to: Seq<char>,
    i: int,
    j: int,
)
    requires
        0 <= i < ws.layers.len(),
        0 <= j < ws.layers.len(),
        ws.layers[i].0 == from,
        ws.layers[j].0 == to,
        forall|k: int| 0 <= k < i ==> (#[trigger] ws.layers[k]).0 != from,
        forall|k: int| 0 <= k < j ==> (#[trigger] ws.layers[k]).0 != to,
    ensures
        dep_violation(ws, (from, to)) is Some <==> ws.layers[i].1 != "?"@ && ws.layers[j].1 != "?"@
            && exists|k: int|
            0 <= k < ws.violations.len() && (#[trigger] ws.violations[k]).from_layer
                == ws.layers[i].1 && ws.violations[k].to_layer == ws.layers[j].1,
        dep_violation(ws, (from, to)) matches Some(v) ==> v.from_crate == from && v.to_crate == to
            && v.from_layer == ws.layers[i].1 && v.to_layer == ws.layers[j].1,
{
    layer_is_first(ws.layers, from, 0);
    layer_is_first(ws.layers, to, 0);
    let a = layer_in(ws.layers, from, 0)->0;
    let b = layer_in(ws.layers, to, 0)->0;
    let x = choose|x: int|
        0 <= x < ws.layers.len() && (#[trigger] ws.layers[x]).0 == from && ws.layers[x].1 == a
            && forall|k: int| 0 <= k < x ==> (#[trigger] ws.layers[k]).0 != from;
    let y = choose|y: int|
        0 <= y < ws.layers.len() && (#[trigger] ws.layers[y]).0 == to && ws.layers[y].1 == b
            && forall|k: int| 0 <= k < y ==> (#[trigger] ws.layers[k]).0 != to;
    assert(x == i) by {
        if x < i {
            assert(ws.layers[x].0 != from);
        } else if i < x {
            assert(ws.layers[i].0 != from);
        }
    }
    assert(y == j) by {
        if y < j {
            assert(ws.layers[y].0 != to);
        } else if j < y {
            assert(ws.layers[j].0 != to);
        }
    }
    layer_rule_is_first(ws.violations, ws.layers[i].1, ws.layers[j].1, 0);
}

/// A crate that the configuration gives no layer breaks no rule.
pub proof fn crates_without_layers_break_no_rule(
    ws: WorkspaceConfigView,
    dep: (Seq<char>, Seq<char>),
)
    requires
        (forall|k: int| 0 <= k < ws.layers.len() ==> (#[trigger] ws.layers[k]).0 != dep.0)
            || (forall|k: int| 0 <= k < ws.layers.len() ==> (#[trigger] ws.layers[k]).0 != dep.1),
    ensures
        dep_violation(ws, dep) is None,
{
    layer_is_first(ws.layers, dep.0, 0);
    layer_is_first(ws.layers, dep.1, 0);
}

/// All dependencies of the workspace are checked, and nothing else is reported.
pub proof fn every_dependency_is_checked(
    ws: WorkspaceConfigView,
    g: WorkspaceGraphView,
    v: WorkspaceViolationView,
)
    ensures
        workspace_violations_of(Some(ws), Some(g)).contains(v) <==> exists|k: int|
            0 <= k < g.deps.len() && dep_violation(ws, #[trigger] g.deps[k]) == Some(v),
{
    dependencies_are_checked(ws, g.deps, v);
}

proof fn dependencies_are_checked(
    ws: WorkspaceConfigView,
    deps: Seq<(Seq<char>, Seq<char>)>,
    v: WorkspaceViolationView,
)
    ensures
        dep_violations(ws, deps).contains(v) <==> exists|k: int|
            0 <= k < deps.len() && dep_violation(ws, #[trigger] deps[k]) == Some(v),
    decreases deps.len(),
{
    if deps.len() > 0 {
        let less = deps.drop_last();
        dependencies_are_checked(ws, less, v);
        let rest = dep_violations(ws, less);
        let all = dep_violations(ws, deps);
        let last = deps.len() - 1;
        if rest.contains(v) {
            let j = choose|j: int| 0 <= j < rest.len() && rest[j] == v;
            assert(all[j] == v);
            let k = choose|k: int|
                0 <= k < less.len() && dep_violation(ws, #[trigger] less[k]) == Some(v);
            assert(deps[k] == less[k]);
        }
        if dep_violation(ws, deps[last]) == Some(v) {
            assert(all[rest.len() as int] == v);
        }
        if all.contains(v) && !rest.contains(v) {
            let j = choose|j: int| 0 <= j < all.len() && all[j] == v;
            if j < rest.len() {
                assert(rest[j] == v);
            }
            assert(dep_violation(ws, deps[last]) == Some(v));
        }
        if exists|k: int| 0 <= k < deps.len() && dep_violation(ws, #[trigger] deps[k]) == Some(v) {
            let k = choose|k: int|
                0 <= k < deps.len() && dep_violation(ws, #[trigger] deps[k]) == Some(v);
            if k < last {
                assert(less[k] == deps[k]);
            }
        }
    }
}

/// The edge couples two contexts that a rule keeps apart, and no exception is meant for it.
pub open spec fn breaks_a_rule(e: RawEdgeView, policy: EffectivePolicyView) -> bool {
    let from = context_of(e.from_file);
    let to = context_of(e.to_file);
    &&& from != to
    &&& exists|k: int|
        0 <= k < policy.violations.len() && (#[trigger] policy.violations[k]).from_context == from
            && policy.violations[k].to_context == to
    &&& forall|k: int|
        0 <= k < policy.exceptions.len() ==> !crate::arch::meant_for(
            #[trigger] policy.exceptions[k],
            from,
            to,
            e.from_role,
            e.to_role,
            e.from_stable_id,
            e.to_stable_id,
        )
}

/// What is asked for of a coupling: a context at either end, at the calling end or at the
/// called end, a pattern in any of its fields whatever the case, and crates at its ends.
pub open spec fn falls_under(v: ViolationView, p: ParamsView) -> bool {
    &&& p.context is Some ==> p.context == Some(v.from_ctx) || p.context == Some(v.to_ctx)
    &&& p.from_context is Some ==> p.from_context == Some(v.from_ctx)
    &&& p.to_context is Some ==> p.to_context == Some(v.to_ctx)
    &&& p.pattern is Some ==> ({
        let t = lowercase(p.pattern->0);
        ||| has_str(lowercase(v.from_ctx), t) || has_str(lowercase(v.to_ctx), t)
        ||| has_str(lowercase(v.from_name), t) || has_str(lowercase(v.to_name), t)
        ||| has_str(lowercase(v.from_file), t) || has_str(lowercase(v.to_file), t)
        ||| has_str(lowercase(or_text(v.from_crate, ""@)), t)
        ||| has_str(lowercase(or_text(v.to_crate, ""@)), t)
    })
    &&& p.edge is Some && selector_of(p.edge->0) is Some ==> ({
        let s = selector_of(p.edge->0)->0;
        (s.0 is Some ==> s.0 == v.from_crate) && (s.1 is Some ==> s.1 == v.to_crate)
    })
}

proof fn fields_are_searched(v: ViolationView, t: Seq<char>)
    ensures
        any_has(all_lower(coupling_fields(v)), t) <==> ({
            ||| has_str(lowercase(v.from_ctx), t) || has_str(lowercase(v.to_ctx), t)
            ||| has_str(lowercase(v.from_name), t) || has_str(lowercase(v.to_name), t)
            ||| has_str(lowercase(v.from_file), t) || has_str(lowercase(v.to_file), t)
            ||| has_str(lowercase(or_text(v.from_crate, ""@)), t)
            ||| has_str(lowercase(or_text(v.to_crate, ""@)), t)
        }),
{
    let f = all_lower(coupling_fields(v));
    assert(f.len() == 8);
    assert(f[0] == lowercase(v.from_ctx));
    assert(f[1] == lowercase(v.to_ctx));
    assert(f[2] == lowercase(v.from_name));
    assert(f[3] == lowercase(v.to_name));
    assert(f[4] == lowercase(v.from_file));
    assert(f[5] == lowercase(v.to_file));
    assert(f[6] == lowercase(or_text(v.from_crate, ""@)));
    assert(f[7] == lowercase(or_text(v.to_crate, ""@)));
    if any_has(f, t) {
        let i = choose|i: int| 0 <= i < f.len() && has_str(#[trigger] f[i], t);
        assert(has_str(f[i], t));
        assert(i == 0 || i == 1 || i == 2 || i == 3 || i == 4 || i == 5 || i == 6 || i == 7);
    }
}

/// What is reported of the edges is each one that breaks a rule and is asked for, and nothing
/// else.
pub proof fn rule_breakers_are_reported(
    edges: Seq<RawEdgeView>,
    policy: EffectivePolicyView,
    ws: Option<WorkspaceGraphView>,
    p: ParamsView,
    v: ViolationView,
)
    ensures
        reported(edges, policy, ws, p).contains(v) <==> exists|k: int|
            0 <= k < edges.len() && breaks_a_rule(#[trigger] edges[k], policy) && v == coupling_of(
                edges[k],
                ws,
            ) && falls_under(v, p),
    decreases edges.len(),
{
    if edges.len() > 0 {
        let less = edges.drop_last();
        rule_breakers_are_reported(less, policy, ws, p, v);
        let rest = reported(less, policy, ws, p);
        let all = reported(edges, policy, ws, p);
        let last = edges.len() - 1;
        let e = edges[last];
        crate::arch::forbidden_iff_ruled(
            context_of(e.from_file),
            context_of(e.to_file),
            policy.violations,
        );
        crate::arch::exceptions_suppress(
            context_of(e.from_file),
            context_of(e.to_file),
            e.from_role,
            e.to_role,
            e.from_stable_id,
            e.to_stable_id,
            policy.exceptions,
            0,
        );
        let c = coupling_of(e, ws);
        if p.pattern is Some {
            fields_are_searched(c, lowercase(p.pattern->0));
        }
        assert(asked_for(c, p) == falls_under(c, p));
        assert((forbidden(e, policy.violations) && suppression(e, policy.exceptions) is None)
            == breaks_a_rule(e, policy));
        if rest.contains(v) {
            let j = choose|j: int| 0 <= j < rest.len() && rest[j] == v;
            assert(all[j] == v);
            let k = choose|k: int|
                0 <= k < less.len() && breaks_a_rule(#[trigger] less[k], policy) && v
                    == coupling_of(less[k], ws) && falls_under(v, p);
            assert(edges[k] == less[k]);
        }
        if breaks_a_rule(e, policy) && v == c && falls_under(v, p) {
            assert(all[rest.len() as int] == v);
        }
        if all.contains(v) && !rest.contains(v) {
            let j = choose|j: int| 0 <= j < all.len() && all[j] == v;
            if j < rest.len() {
                assert(rest[j] == v);
            }
            assert(breaks_a_rule(edges[last], policy));
        }
        if exists|k: int|
            0 <= k < edges.len() && breaks_a_rule(#[trigger] edges[k], policy) && v == coupling_of(
                edges[k],
                ws,
            ) && falls_under(v, p) {
            let k = choose|k: int|
                0 <= k < edges.len() && breaks_a_rule(#[trigger] edges[k], policy) && v
                    == coupling_of(edges[k], ws) && falls_under(v, p);
            if k < last {
                assert(less[k] == edges[k]);
            }
        }
    }
}

/// A reported coupling tells of the edge that it is: caller from the calling end, callee from
/// the called end.
pub proof fn couplings_tell_of_their_edges(e: RawEdgeView, ws: Option<WorkspaceGraphView>)
    ensures
        ({
            let v = coupling_of(e, ws);
            &&& v.from_id == e.from_id && v.to_id == e.to_id
            &&& v.from_name == e.from_name && v.to_name == e.to_name
            &&& v.from_file == e.from_file && v.to_file == e.to_file
            &&& v.from_role == e.from_role && v.to_role == e.to_role
            &&& v.from_visibility == e.from_visibility && v.to_visibility == e.to_visibility
            &&& v.from_fan_in == e.from_fan_in && v.to_fan_in == e.to_fan_in
            &&& v.from_fan_out == e.from_fan_out && v.to_fan_out == e.to_fan_out
            &&& v.from_sig == e.from_sig && v.to_sig == e.to_sig
            &&& v.from_ctx == context_of(e.from_file) && v.to_ctx == context_of(e.to_file)
            &&& ws matches Some(g) ==> v.from_crate == crate_of(g, e.from_file) && v.to_crate
                == crate_of(g, e.to_file)
            &&& ws is None ==> v.from_crate is None && v.to_crate is None
        }),
{
}

/// The visibilities are ranked: public before restricted before crate before all others.
pub proof fn visibilities_have_ranks(v: Seq<char>, rest: Seq<char>)
    ensures
        rank_of("public"@) == rank_of("pub"@),
        rank_of("public"@) > rank_of("restricted"@ + rest),
        rank_of("restricted"@ + rest) > rank_of("crate"@),
        rank_of("crate"@) > rank_of("default"@),
        v != "public"@ && v != "pub"@ && v != "crate"@ && !begins_with(v, "restricted"@)
            ==> rank_of(v) == rank_of("default"@),
{
    reveal_strlit("public");
    reveal_strlit("pub");
    reveal_strlit("restricted");
    reveal_strlit("crate");
    reveal_strlit("default");
    let r = "restricted"@ + rest;
    assert(r.take(10) =~= "restricted"@);
    assert(r[0] == 'r' && "public"@[0] == 'p' && "pub"@[0] == 'p');
    assert("public"@.len() == 6 && "pub"@.len() == 3 && "restricted"@.len() == 10 && "crate"@.len()
        == 5 && "default"@.len() == 7);
}

proof fn last_rule_is_last(rules: Seq<VisibilityRuleView>, layer: Seq<char>, k: int)
    requires
        0 <= k < rules.len(),
        rules[k].layer == layer,
        forall|j: int| k < j < rules.len() ==> (#[trigger] rules[j]).layer != layer,
    ensures
        last_rule_on(rules, layer) == Some(rules[k]),
    decreases rules.len(),
{
    if k < rules.len() - 1 {
        assert(rules[rules.len() - 1].layer != layer);
        let less = rules.drop_last();
        assert forall|j: int| k < j < less.len() implies (#[trigger] less[j]).layer != layer by {
            assert(less[j] == rules[j]);
        }
        last_rule_is_last(less, layer, k);
    }
}

proof fn no_rule_on_layer(rules: Seq<VisibilityRuleView>, layer: Seq<char>)
    requires
        forall|j: int| 0 <= j < rules.len() ==> (#[trigger] rules[j]).layer != layer,
    ensures
        last_rule_on(rules, layer) is None,
    decreases rules.len(),
{
    if rules.len() > 0 {
        assert(rules[rules.len() - 1].layer != layer);
        let less = rules.drop_last();
        assert forall|j: int| 0 <= j < less.len() implies (#[trigger] less[j]).layer != layer by {
            assert(less[j] == rules[j]);
        }
        no_rule_on_layer(less, layer);
    }
}

/// A symbol is overexposed exactly where it is more visible than the last rule on the layer of
/// its crate allows. One without a visibility is not visible outside.
pub proof fn rules_bound_visibility(
    s: SymbolRowView,
    rules: Seq<VisibilityRuleView>,
    cfg: WorkspaceConfigView,
    ws: WorkspaceGraphView,
    name: Seq<char>,
    layer: Seq<char>,
    k: int,
)
    requires
        crate_of(ws, s.file) == Some(name),
        assigned_layer(cfg.layers, name) == Some(layer),
        0 <= k < rules.len(),
        rules[k].layer == layer,
        forall|j: int| k < j < rules.len() ==> (#[trigger] rules[j]).layer != layer,
    ensures
        ({
            let actual = match s.visibility {
                Some(v) => v,
                None => "default"@,
            };
            let found = overexposed(s, rules, cfg, ws);
            &&& found is Some <==> rank_of(actual) > rank_of(rules[k].max_visibility)
            &&& found matches Some(v) ==> v.stable_id == s.stable_id && v.symbol == s.name && v.file
                == s.file && v.line == s.line && v.layer == layer && v.actual_visibility == actual
                && v.max_visibility == rules[k].max_visibility
        }),
{
    last_rule_is_last(rules, layer, k);
}

/// A symbol of no crate, of a crate without a layer, or of a layer without a rule is never
/// overexposed.
pub proof fn unruled_symbols_are_not_overexposed(
    s: SymbolRowView,
    rules: Seq<VisibilityRuleView>,
    cfg: WorkspaceConfigView,
    ws: WorkspaceGraphView,
)
    requires
        match crate_of(ws, s.file) {
            None => true,
            Some(name) => match assigned_layer(cfg.layers, name) {
                None => true,
                Some(layer) => forall|j: int|
                    0 <= j < rules.len() ==> (#[trigger] rules[j]).layer != layer,
            },
        },
    ensures
        overexposed(s, rules, cfg, ws) is None,
{
    if let Some(name) = crate_of(ws, s.file) {
        if let Some(layer) = assigned_layer(cfg.layers, name) {
            no_rule_on_layer(rules, layer);
        }
    }
}

/// The symbols that are reported as overexposed are those that are, and no others.
pub proof fn overexposed_symbols_are_listed(
    symbols: Seq<SymbolRowView>,
    rules: Seq<VisibilityRuleView>,
    cfg: WorkspaceConfigView,
    ws: WorkspaceGraphView,
    v: VisibilityViolationView,
)
    ensures
        all_overexposed(symbols, rules, cfg, ws).contains(v) <==> exists|k: int|
            0 <= k < symbols.len() && overexposed(#[trigger] symbols[k], rules, cfg, ws) == Some(v),
    decreases symbols.len(),
{
    if symbols.len() > 0 {
        let less = symbols.drop_last();
        overexposed_symbols_are_listed(less, rules, cfg, ws, v);
        let rest = all_overexposed(less, rules, cfg, ws);
        let all = all_overexposed(symbols, rules, cfg, ws);
        let last = symbols.len() - 1;
        if rest.contains(v) {
            let j = choose|j: int| 0 <= j < rest.len() && rest[j] == v;
            assert(all[j] == v);
            let k = choose|k: int|
                0 <= k < less.len() && overexposed(#[trigger] less[k], rules, cfg, ws) == Some(v);
            assert(symbols[k] == less[k]);
        }
        if overexposed(symbols[last], rules, cfg, ws) == Some(v) {
            assert(all[rest.len() as int] == v);
        }
        if all.contains(v) && !rest.contains(v) {
            let j = choose|j: int| 0 <= j < all.len() && all[j] == v;
            if j < rest.len() {
                assert(rest[j] == v);
            }
            assert(overexposed(symbols[last], rules, cfg, ws) == Some(v));
        }
        if exists|k: int|
            0 <= k < symbols.len() && overexposed(#[trigger] symbols[k], rules, cfg, ws) == Some(v) {
            let k = choose|k: int|
                0 <= k < symbols.len() && overexposed(#[trigger] symbols[k], rules, cfg, ws) == Some(
                    v,
                );
            if k < last {
                assert(less[k] == symbols[k]);
            }
        }
    }
}

/// A policy is valid exactly where every layer assignment names one of the seven layers, or `?`
/// unless it is strict; every layer rule names known layers, those of the packs among them;
/// every context rule names two contexts; and every visibility rule names a layer and a
/// visibility.
pub proof fn valid_policies_name_what_is_known(
    workspace: Option<WorkspaceConfigView>,
    violations: Seq<ViolationRuleView>,
    visibility_rules: Seq<VisibilityRuleView>,
    strict: bool,
)
    ensures
        policy_errors(workspace, violations, visibility_rules, strict).len() == 0 <==> {
            &&& workspace matches Some(ws) ==> (forall|i: int|
                0 <= i < ws.layers.len() ==> (!strict && (#[trigger] ws.layers[i]).1 == "?"@)
                    || one_of_seven(ws.layers[i].1)) && (forall|i: int|
                0 <= i < ws.violations.len() ==> layer_of_rules(
                    (#[trigger] ws.violations[i]).from_layer,
                ) && layer_of_rules(ws.violations[i].to_layer))
            &&& forall|i: int|
                0 <= i < violations.len() ==> trimmed((#[trigger] violations[i]).from_context).len()
                    > 0 && trimmed(violations[i].to_context).len() > 0
            &&& forall|i: int|
                0 <= i < visibility_rules.len() ==> one_of_seven(
                    (#[trigger] visibility_rules[i]).layer,
                ) && (visibility_rules[i].max_visibility == "default"@
                    || visibility_rules[i].max_visibility == "crate"@
                    || visibility_rules[i].max_visibility == "restricted"@
                    || visibility_rules[i].max_visibility == "public"@)
        },
{
    reveal_strlit("?");
    reveal_strlit("shared");
    reveal_strlit("domain");
    reveal_strlit("port");
    reveal_strlit("application");
    reveal_strlit("infra");
    reveal_strlit("adapter");
    reveal_strlit("composition");
    assert("?"@.len() == 1 && "shared"@.len() == 6 && "domain"@.len() == 6 && "port"@.len() == 4
        && "application"@.len() == 11 && "infra"@.len() == 5 && "adapter"@.len() == 7
        && "composition"@.len() == 11);
    let none = Seq::<Seq<char>>::empty();
    let errs = match workspace {
        Some(ws) => {
            let a = layer_errors(none, ws.layers, ws.layers.len() as int, strict);
            layer_errors_are_layers(none, ws.layers, ws.layers.len() as int, strict);
            layer_rule_errors_are_rules(a, ws.violations, ws.violations.len() as int);
            layer_rule_errors(a, ws.violations, ws.violations.len() as int)
        },
        None => none,
    };
    context_errors_are_rules(errs, violations, violations.len() as int);
    let more = context_rule_errors(errs, violations, violations.len() as int);
    visibility_errors_are_rules(more, visibility_rules, visibility_rules.len() as int);
}

/// The layers that crates are assigned to.
pub open spec fn one_of_seven(l: Seq<char>) -> bool {
    l == "shared"@ || l == "domain"@ || l == "port"@ || l == "application"@ || l == "infra"@ || l
        == "adapter"@ || l == "composition"@
}

/// The layers that rules may name.
pub open spec fn layer_of_rules(l: Seq<char>) -> bool {
    one_of_seven(l) || l == "command"@ || l == "query"@ || l == "projection"@
}

proof fn layer_errors_are_layers(
    errs: Seq<Seq<char>>,
    layers: Seq<(Seq<char>, Seq<char>)>,
    n: int,
    strict: bool,
)
    requires
        0 <= n <= layers.len(),
    ensures
        layer_errors(errs, layers, n, strict).len() >= errs.len(),
        layer_errors(errs, layers, n, strict).len() == errs.len() <==> forall|i: int|
            0 <= i < n ==> if (#[trigger] layers[i]).1 == "?"@ {
                !strict
            } else {
                one_of_seven(layers[i].1)
            },
    decreases n,
{
    if n > 0 {
        layer_errors_are_layers(errs, layers, n - 1, strict);
        assert(layers[n - 1] == layers[n - 1]);
    }
}

proof fn layer_rule_errors_are_rules(
    errs: Seq<Seq<char>>,
    rules: Seq<WorkspaceViolationRuleView>,
    n: int,
)
    requires
        0 <= n <= rules.len(),
    ensures
        layer_rule_errors(errs, rules, n).len() >= errs.len(),
        layer_rule_errors(errs, rules, n).len() == errs.len() <==> forall|i: int|
            0 <= i < n ==> layer_of_rules((#[trigger] rules[i]).from_layer) && layer_of_rules(
                rules[i].to_layer,
            ),
    decreases n,
{
    if n > 0 {
        layer_rule_errors_are_rules(errs, rules, n - 1);
        assert(rules[n - 1] == rules[n - 1]);
    }
}

proof fn context_errors_are_rules(errs: Seq<Seq<char>>, rules: Seq<ViolationRuleView>, n: int)
    requires
        0 <= n <= rules.len(),
    ensures
        context_rule_errors(errs, rules, n).len() >= errs.len(),
        context_rule_errors(errs, rules, n).len() == errs.len() <==> forall|i: int|
            0 <= i < n ==> trimmed((#[trigger] rules[i]).from_context).len() > 0 && trimmed(
                rules[i].to_context,
            ).len() > 0,
    decreases n,
{
    if n > 0 {
        context_errors_are_rules(errs, rules, n - 1);
        assert(rules[n - 1] == rules[n - 1]);
    }
}

proof fn visibility_errors_are_rules(errs: Seq<Seq<char>>, rules: Seq<VisibilityRuleView>, n: int)
    requires
        0 <= n <= rules.len(),
    ensures
        visibility_rule_errors(errs, rules, n).len() >= errs.len(),
        visibility_rule_errors(errs, rules, n).len() == errs.len() <==> forall|i: int|
            0 <= i < n ==> one_of_seven((#[trigger] rules[i]).layer) && (rules[i].max_visibility
                == "default"@ || rules[i].max_visibility == "crate"@ || rules[i].max_visibility
                == "restricted"@ || rules[i].max_visibility == "public"@),
    decreases n,
{
    if n > 0 {
        visibility_errors_are_rules(errs, rules, n - 1);
        assert(rules[n - 1] == rules[n - 1]);
    }
}

/// The findings stand in order: the couplings whose callee has the most callers first, at most
/// as many as asked for, while all of them are counted. 0 asks for all.
pub proof fn worst_couplings_come_first(policy: EffectivePolicyView, input: RunInput, p: ParamsView)
    ensures
        ({
            let f = findings_of(policy, input, p);
            let all = reported(views(input.edges@), policy, input.workspace.deep_view(), p);
            &&& f.total == all.len() as usize
            &&& f.violations.len() == (if p.top == 0 || all.len() <= p.top {
                all.len() as int
            } else {
                p.top as int
            })
            &&& forall|i: int, j: int|
                0 <= i < j < f.violations.len() ==> (#[trigger] f.violations[i]).to_fan_in >= (
                #[trigger] f.violations[j]).to_fan_in
            &&& p.top == 0 ==> f.violations.to_multiset() == all.to_multiset()
            &&& !p.check ==> f.check_violations.len() == 0
            &&& p.check ==> f.check_violations == views(input.checks@)
            &&& !p.audit ==> f.advisory_violations.len() == 0
            &&& p.audit ==> f.advisory_violations == views(input.advisories@)
        }),
{
    let all = reported(views(input.edges@), policy, input.workspace.deep_view(), p);
    let s = stable_sorted::<Violation>(all);
    crate::order::sorting_orders::<Violation>(all);
    let f = findings_of(policy, input, p);
    assert forall|i: int, j: int| 0 <= i < j < f.violations.len() implies (
    #[trigger] f.violations[i]).to_fan_in >= (#[trigger] f.violations[j]).to_fan_in by {
        assert(f.violations[i] == s[i] && f.violations[j] == s[j]);
        assert(!Violation::before(s[j], s[i]));
    }
}

/// A symbol that is overexposed is reported where it is asked for, unless an exception names it
/// by its stable id alone; and nothing else is.
pub proof fn named_symbols_are_excepted(
    all: Seq<VisibilityViolationView>,
    exceptions: Seq<ViolationExceptionView>,
    p: ParamsView,
    v: VisibilityViolationView,
)
    ensures
        visibility_reported(all, exceptions, p).contains(v) <==> all.contains(v)
            && visibility_asked_for(v, p) && forall|k: int|
            0 <= k < exceptions.len() ==> !((#[trigger] exceptions[k]).stable_id == Some(
                v.stable_id,
            ) && exceptions[k].from_context is None && exceptions[k].to_context is None
                && exceptions[k].from_role is None && exceptions[k].to_role is None),
    decreases all.len(),
{
    if all.len() > 0 {
        let less = all.drop_last();
        named_symbols_are_excepted(less, exceptions, p, v);
        let rest = visibility_reported(less, exceptions, p);
        let out = visibility_reported(all, exceptions, p);
        let last = all[all.len() - 1];
        id_reason_finds(last.stable_id, exceptions, 0);
        if rest.contains(v) {
            let j = choose|j: int| 0 <= j < rest.len() && rest[j] == v;
            assert(out[j] == v);
        }
        if less.contains(v) {
            let j = choose|j: int| 0 <= j < less.len() && less[j] == v;
            assert(all[j] == v);
        }
        if all.contains(v) && !less.contains(v) {
            let j = choose|j: int| 0 <= j < all.len() && all[j] == v;
            if j < less.len() {
                assert(less[j] == v);
            }
            assert(v == last);
        }
        if v == last && out.len() > rest.len() {
            assert(out[rest.len() as int] == v);
        }
        if out.contains(v) && !rest.contains(v) {
            let j = choose|j: int| 0 <= j < out.len() && out[j] == v;
            if j < rest.len() {
                assert(rest[j] == v);
            }
            assert(v == last);
        }
    }
}

proof fn id_reason_finds(id: Seq<char>, exceptions: Seq<ViolationExceptionView>, i: int)
    requires
        0 <= i <= exceptions.len(),
    ensures
        id_reason(id, id, exceptions, i) is None <==> forall|k: int|
            i <= k < exceptions.len() ==> !((#[trigger] exceptions[k]).stable_id == Some(id)
                && exceptions[k].from_context is None && exceptions[k].to_context is None
                && exceptions[k].from_role is None && exceptions[k].to_role is None),
    decreases exceptions.len() - i,
{
    if i < exceptions.len() {
        id_reason_finds(id, exceptions, i + 1);
        assert(exceptions[i] == exceptions[i]);
    }
}

/// A word of a selector says which crate an end must be of: `from:` the depending one, `to:` the
/// other; commas behind it do not count, and the last word of a kind does.
pub proof fn selectors_name_crates(edge: Seq<char>, k: int, name: Seq<char>, tag: Seq<char>)
    requires
        0 <= k < words(edge).len(),
        tag == "from:"@ || tag == "to:"@,
        trimmed_char_end(words(edge)[k], ',') == tag + name,
        name.len() > 0,
        forall|j: int|
            k < j < words(edge).len() ==> !begins_with(
                trimmed_char_end(#[trigger] words(edge)[j], ','),
                tag,
            ),
    ensures
        selector_of(edge) matches Some(s) && (tag == "from:"@ ==> s.0 == Some(name)) && (tag
            == "to:"@ ==> s.1 == Some(name)),
{
    let t = tag + name;
    assert(t.take(tag.len() as int) =~= tag);
    assert(t.skip(tag.len() as int) =~= name);
    last_word_counts(words(edge), k, name, tag);
}

proof fn last_word_counts(ws: Seq<Seq<char>>, k: int, name: Seq<char>, tag: Seq<char>)
    requires
        0 <= k < ws.len(),
        tagged(ws[k], tag) == Some(name),
        forall|j: int|
            k < j < ws.len() ==> !begins_with(trimmed_char_end(#[trigger] ws[j], ','), tag),
    ensures
        last_tagged(ws, tag) == Some(name),
    decreases ws.len(),
{
    if k < ws.len() - 1 {
        assert(!begins_with(trimmed_char_end(ws[ws.len() - 1], ','), tag));
        let less = ws.drop_last();
        assert forall|j: int| k < j < less.len() implies !begins_with(
            trimmed_char_end(#[trigger] less[j], ','),
            tag,
        ) by {
            assert(less[j] == ws[j]);
        }
        last_word_counts(less, k, name, tag);
    }
}

// ---------------------------------------------------------------------------
// What the document shows
// ---------------------------------------------------------------------------

/// What is told of a symbol that may be seen too widely.
pub open spec fn told_of_visibility(v: VisibilityViolationView) -> Seq<(Seq<char>, Seq<char>)> {
    seq![
        ("kind"@, "visibility"@),
        ("stable_id"@, v.stable_id),
        ("symbol"@, v.symbol),
        ("file"@, v.file),
        ("line"@, int_text(v.line as int)),
        ("layer"@, v.layer),
        ("actual_visibility"@, v.actual_visibility),
        ("max_visibility"@, v.max_visibility),
        ("reason"@, v.reason),
    ]
}

/// What is told of a finding of the compiler's.
pub open spec fn told_of_check(v: CheckViolationView) -> Seq<(Seq<char>, Seq<char>)> {
    seq![
        ("kind"@, "check"@),
        ("id"@, int_text(v.node_id as int)),
        ("name"@, v.name),
        ("file"@, v.file),
        ("role"@, v.role),
        ("visibility"@, v.visibility),
        ("code"@, v.code),
        ("level"@, v.level),
    ]
}

/// What is told of an advisory.
pub open spec fn told_of_advisory(a: AdvisoryViolationView) -> Seq<(Seq<char>, Seq<char>)> {
    seq![
        ("kind"@, "audit"@),
        ("package"@, a.package_name),
        ("version"@, a.version),
        ("advisory"@, a.advisory_id),
        ("severity"@, a.severity),
        ("category"@, a.kind),
        ("title"@, a.title),
    ]
}

proof fn visibilities_are_written(ev: Seq<Node>, vs: Seq<VisibilityViolationView>, n: int, i: int)
    requires
        0 <= n <= vs.len(),
    ensures
        goes_on_from(ev, visibility_nodes(ev, vs, n)),
        0 <= i < n ==> has_tag(
            visibility_nodes(ev, vs, n),
            "violation"@,
            told_of_visibility(vs[i]),
        ),
    decreases n,
{
    if n > 0 {
        visibilities_are_written(ev, vs, n - 1, i);
        let rest = visibility_nodes(ev, vs, n - 1);
        let all = visibility_nodes(ev, vs, n);
        assert(goes_on_from(rest, all));
        if i == n - 1 {
            let v = vs[i];
            let a = told_of_visibility(v);
            assert(all[rest.len() as int] == Node::Empty("violation"@, a)) by {
                assert(all.last()->Empty_1 =~= a);
            }
            all_are_held(a);
        } else if 0 <= i < n - 1 {
            tags_stay(rest, all, "violation"@, told_of_visibility(vs[i]));
        }
    }
}

proof fn checks_are_written(ev: Seq<Node>, vs: Seq<CheckViolationView>, n: int, i: int)
    requires
        0 <= n <= vs.len(),
    ensures
        goes_on_from(ev, check_nodes(ev, vs, n)),
        0 <= i < n ==> has_tag(check_nodes(ev, vs, n), "violation"@, told_of_check(vs[i])),
        0 <= i < n ==> check_nodes(ev, vs, n).contains(Node::Text(vs[i].message)),
    decreases n,
{
    if n > 0 {
        checks_are_written(ev, vs, n - 1, i);
        let rest = check_nodes(ev, vs, n - 1);
        let all = check_nodes(ev, vs, n);
        assert(goes_on_from(rest, all));
        if i == n - 1 {
            let v = vs[i];
            let a = told_of_check(v);
            let k = rest.len() as int;
            assert(all[k] == Node::Start("violation"@, a)) by {
                assert(all[k]->Start_1 =~= a);
            }
            all_are_held(a);
            assert(all[k + 2] == Node::Text(v.message));
        } else if 0 <= i < n - 1 {
            tags_stay(rest, all, "violation"@, told_of_check(vs[i]));
            let m = Node::Text(vs[i].message);
            let j = choose|j: int| 0 <= j < rest.len() && rest[j] == m;
            assert(all[j] == m);
        }
    }
}

proof fn advisories_are_written(ev: Seq<Node>, vs: Seq<AdvisoryViolationView>, n: int, i: int)
    requires
        0 <= n <= vs.len(),
    ensures
        goes_on_from(ev, advisory_nodes(ev, vs, n)),
        0 <= i < n ==> has_tag(advisory_nodes(ev, vs, n), "violation"@, told_of_advisory(vs[i])),
    decreases n,
{
    if n > 0 {
        advisories_are_written(ev, vs, n - 1, i);
        let rest = advisory_nodes(ev, vs, n - 1);
        let all = advisory_nodes(ev, vs, n);
        assert(goes_on_from(rest, all));
        if i == n - 1 {
            let a = told_of_advisory(vs[i]);
            assert(all[rest.len() as int] == Node::Empty("violation"@, a)) by {
                assert(all.last()->Empty_1 =~= a);
            }
            all_are_held(a);
        } else if 0 <= i < n - 1 {
            tags_stay(rest, all, "violation"@, told_of_advisory(vs[i]));
        }
    }
}

/// What is told of a dependency that a layer rule forbids.
pub open spec fn told_of_dependency(v: WorkspaceViolationView) -> Seq<(Seq<char>, Seq<char>)> {
    seq![("from_crate"@, v.from_crate), ("to_crate"@, v.to_crate), ("reason"@, v.reason)]
}

proof fn dependencies_are_written(
    ev: Seq<Node>,
    vs: Seq<WorkspaceViolationView>,
    key: (Seq<char>, Seq<char>),
    n: int,
    i: int,
)
    requires
        0 <= n <= vs.len(),
    ensures
        goes_on_from(ev, dep_members(ev, vs, key, n)),
        0 <= i < n && key == (vs[i].from_layer, vs[i].to_layer) ==> has_tag(
            dep_members(ev, vs, key, n),
            "dep"@,
            told_of_dependency(vs[i]),
        ),
    decreases n,
{
    if n > 0 {
        dependencies_are_written(ev, vs, key, n - 1, i);
        let rest = dep_members(ev, vs, key, n - 1);
        let all = dep_members(ev, vs, key, n);
        assert(goes_on_from(rest, all));
        if i == n - 1 && key == (vs[i].from_layer, vs[i].to_layer) {
            let a = told_of_dependency(vs[i]);
            assert(all[rest.len() as int] == Node::Empty("dep"@, a)) by {
                assert(all.last()->Empty_1 =~= a);
            }
            all_are_held(a);
        } else if 0 <= i < n - 1 && key == (vs[i].from_layer, vs[i].to_layer) {
            tags_stay(rest, all, "dep"@, told_of_dependency(vs[i]));
        }
    }
}

/// What is told of a pair of layers: how many dependencies break the rule on them.
pub open spec fn told_of_layers(
    vs: Seq<WorkspaceViolationView>,
    from: Seq<char>,
    to: Seq<char>,
) -> Seq<(Seq<char>, Seq<char>)> {
    seq![
        ("from_layer"@, from),
        ("to_layer"@, to),
        (
            "count"@,
            dec(
                vs.filter(
                    |v: WorkspaceViolationView| v.from_layer == from && v.to_layer == to,
                ).len(),
            ),
        ),
    ]
}

proof fn layers_are_counted(vs: Seq<WorkspaceViolationView>, from: Seq<char>, to: Seq<char>)
    ensures
        times(layer_pairs(vs), (from, to)) == vs.filter(
            |v: WorkspaceViolationView| v.from_layer == from && v.to_layer == to,
        ).len(),
    decreases vs.len(),
{
    reveal(Seq::filter);
    if vs.len() > 0 {
        layers_are_counted(vs.drop_last(), from, to);
        assert(layer_pairs(vs).drop_last() =~= layer_pairs(vs.drop_last()));
    }
}

proof fn layer_groups_are_written(
    ev: Seq<Node>,
    vs: Seq<WorkspaceViolationView>,
    keys: Seq<(Seq<char>, Seq<char>)>,
    n: int,
    k: int,
    i: int,
)
    requires
        0 <= n <= keys.len(),
        0 <= i < vs.len(),
        0 <= k < keys.len(),
        keys[k] == (vs[i].from_layer, vs[i].to_layer),
    ensures
        goes_on_from(ev, layer_group_nodes(ev, vs, keys, n)),
        k < n ==> has_tag(
            layer_group_nodes(ev, vs, keys, n),
            "layer_violation"@,
            told_of_layers(vs, vs[i].from_layer, vs[i].to_layer),
        ),
        k < n ==> has_tag(
            layer_group_nodes(ev, vs, keys, n),
            "dep"@,
            told_of_dependency(vs[i]),
        ),
    decreases n,
{
    if n > 0 {
        layer_groups_are_written(ev, vs, keys, n - 1, k, i);
        let rest = layer_group_nodes(ev, vs, keys, n - 1);
        let all = layer_group_nodes(ev, vs, keys, n);
        let key = keys[n - 1];
        let open = with_open(
            rest,
            "layer_violation"@,
            no_attrs().push(("from_layer"@, key.0)).push(("to_layer"@, key.1)).push(
                ("count"@, dec(times(layer_pairs(vs), key))),
            ),
        );
        let members = dep_members(open, vs, key, vs.len() as int);
        dependencies_are_written(open, vs, key, vs.len() as int, i);
        assert(goes_on_from(rest, open));
        assert(goes_on_from(members, all));
        assert(goes_on_from(open, all));
        assert(goes_on_from(rest, all));
        let group = told_of_layers(vs, vs[i].from_layer, vs[i].to_layer);
        let dep = told_of_dependency(vs[i]);
        if k == n - 1 {
            layers_are_counted(vs, key.0, key.1);
            assert(open[rest.len() as int] == Node::Start("layer_violation"@, group)) by {
                assert(open.last()->Start_1 =~= group);
            }
            all_are_held(group);
            tags_stay(open, all, "layer_violation"@, group);
            tags_stay(members, all, "dep"@, dep);
        } else if k < n - 1 {
            tags_stay(rest, all, "layer_violation"@, group);
            tags_stay(rest, all, "dep"@, dep);
        }
    }
}

/// What is told of the symbol that a coupling leads from.
pub open spec fn told_of_caller(v: ViolationView) -> Seq<(Seq<char>, Seq<char>)> {
    seq![
        ("id"@, int_text(v.from_id as int)),
        ("name"@, v.from_name),
        ("file"@, v.from_file),
        ("context"@, v.from_ctx),
        ("role"@, v.from_role),
        ("visibility"@, v.from_visibility),
        ("fan_in"@, int_text(v.from_fan_in as int)),
        ("fan_out"@, int_text(v.from_fan_out as int)),
    ]
}

/// What is told of the symbol that a coupling leads to.
pub open spec fn told_of_callee(v: ViolationView) -> Seq<(Seq<char>, Seq<char>)> {
    seq![
        ("id"@, int_text(v.to_id as int)),
        ("name"@, v.to_name),
        ("file"@, v.to_file),
        ("context"@, v.to_ctx),
        ("role"@, v.to_role),
        ("visibility"@, v.to_visibility),
        ("fan_in"@, int_text(v.to_fan_in as int)),
        ("fan_out"@, int_text(v.to_fan_out as int)),
    ]
}

/// The coupling is shown: its caller and its callee side by side, each with its crate where
/// that is known, and both signatures unless snippets are left out.
pub open spec fn shows_coupling(ev: Seq<Node>, v: ViolationView, no_snippets: bool) -> bool {
    exists|k: int|
        0 <= k && k + 1 < ev.len() && (#[trigger] ev[k] matches Node::Empty(tag, a) && tag
            == "caller"@ && holds_all(a, told_of_caller(v)) && (v.from_crate matches Some(c)
            ==> a.contains(("crate"@, c)))) && (ev[k + 1] matches Node::Empty(tag, a) && tag
            == "callee"@ && holds_all(a, told_of_callee(v)) && (v.to_crate matches Some(c)
            ==> a.contains(("crate"@, c)))) && (!no_snippets ==> (v.from_sig matches Some(s)
            ==> ev.contains(Node::Text(s))) && (v.to_sig matches Some(s) ==> ev.contains(
            Node::Text(s),
        )))
}

proof fn couplings_stay(a: Seq<Node>, b: Seq<Node>, v: ViolationView, no_snippets: bool)
    requires
        goes_on_from(a, b),
        shows_coupling(a, v, no_snippets),
    ensures
        shows_coupling(b, v, no_snippets),
{
    let k = choose|k: int|
        0 <= k && k + 1 < a.len() && (#[trigger] a[k] matches Node::Empty(tag, x) && tag
            == "caller"@ && holds_all(x, told_of_caller(v)) && (v.from_crate matches Some(c)
            ==> x.contains(("crate"@, c)))) && (a[k + 1] matches Node::Empty(tag, x) && tag
            == "callee"@ && holds_all(x, told_of_callee(v)) && (v.to_crate matches Some(c)
            ==> x.contains(("crate"@, c)))) && (!no_snippets ==> (v.from_sig matches Some(s)
            ==> a.contains(Node::Text(s))) && (v.to_sig matches Some(s) ==> a.contains(
            Node::Text(s),
        )));
    assert(b[k] == a[k] && b[k + 1] == a[k + 1]);
    assert forall|x: Node| a.contains(x) implies #[trigger] b.contains(x) by {
        let j = choose|j: int| 0 <= j < a.len() && a[j] == x;
        assert(b[j] == x);
    }
}

proof fn coupling_is_written(ev: Seq<Node>, v: ViolationView, no_snippets: bool)
    ensures
        goes_on_from(ev, coupling_nodes(ev, v, no_snippets)),
        shows_coupling(coupling_nodes(ev, v, no_snippets), v, no_snippets),
{
    let all = coupling_nodes(ev, v, no_snippets);
    let k = ev.len() as int + 1;
    let a = told_of_caller(v);
    let b = told_of_callee(v);
    assert(all[k] matches Node::Empty(tag, x) && tag == "caller"@ && x =~= with_crate(
        a,
        v.from_crate,
    ));
    assert(all[k + 1] matches Node::Empty(tag, x) && tag == "callee"@ && x =~= with_crate(
        b,
        v.to_crate,
    ));
    crate_is_added(a, v.from_crate);
    crate_is_added(b, v.to_crate);
    if !no_snippets {
        if let Some(s) = v.from_sig {
            assert(all[k + 3] == Node::Text(s));
            if let Some(t) = v.to_sig {
                assert(all[k + 6] == Node::Text(t));
            }
        } else if let Some(t) = v.to_sig {
            assert(all[k + 3] == Node::Text(t));
        }
    }
}

proof fn crate_is_added(a: Seq<(Seq<char>, Seq<char>)>, name: Option<Seq<char>>)
    ensures
        holds_all(with_crate(a, name), a),
        name matches Some(c) ==> with_crate(a, name).contains(("crate"@, c)),
{
    if let Some(c) = name {
        let all = with_crate(a, name);
        assert(all[a.len() as int] == ("crate"@, c));
        assert forall|i: int| 0 <= i < a.len() implies all.contains(#[trigger] a[i]) by {
            assert(all[i] == a[i]);
        }
    }
}

proof fn members_are_written(
    ev: Seq<Node>,
    vs: Seq<ViolationView>,
    key: (Seq<char>, Seq<char>),
    no_snippets: bool,
    n: int,
    i: int,
)
    requires
        0 <= n <= vs.len(),
    ensures
        goes_on_from(ev, group_members(ev, vs, key, no_snippets, n)),
        0 <= i < n && key == (vs[i].from_ctx, vs[i].to_ctx) ==> shows_coupling(
            group_members(ev, vs, key, no_snippets, n),
            vs[i],
            no_snippets,
        ),
    decreases n,
{
    if n > 0 {
        members_are_written(ev, vs, key, no_snippets, n - 1, i);
        let rest = group_members(ev, vs, key, no_snippets, n - 1);
        let all = group_members(ev, vs, key, no_snippets, n);
        coupling_is_written(rest, vs[n - 1], no_snippets);
        assert(goes_on_from(rest, all));
        if 0 <= i < n - 1 && key == (vs[i].from_ctx, vs[i].to_ctx) {
            couplings_stay(rest, all, vs[i], no_snippets);
        }
    }
}

proof fn groups_are_written(
    ev: Seq<Node>,
    vs: Seq<ViolationView>,
    keys: Seq<(Seq<char>, Seq<char>)>,
    no_snippets: bool,
    n: int,
    k: int,
    i: int,
)
    requires
        0 <= n <= keys.len(),
        k < n ==> 0 <= k && 0 <= i < vs.len() && keys[k] == (vs[i].from_ctx, vs[i].to_ctx),
    ensures
        goes_on_from(ev, group_nodes(ev, vs, keys, no_snippets, n)),
        k < n ==> shows_coupling(
            group_nodes(ev, vs, keys, no_snippets, n),
            vs[i],
            no_snippets,
        ),
    decreases n,
{
    if n > 0 {
        let low = if k < n - 1 {
            k
        } else {
            n
        };
        groups_are_written(ev, vs, keys, no_snippets, n - 1, low, i);
        let rest = group_nodes(ev, vs, keys, no_snippets, n - 1);
        let all = group_nodes(ev, vs, keys, no_snippets, n);
        let key = keys[n - 1];
        let open = with_open(
            rest,
            "group"@,
            no_attrs().push(("from_context"@, key.0)).push(("to_context"@, key.1)),
        );
        let members = group_members(open, vs, key, no_snippets, vs.len() as int);
        members_are_written(open, vs, key, no_snippets, vs.len() as int, i);
        assert(goes_on_from(rest, open));
        assert(goes_on_from(members, all));
        assert(goes_on_from(rest, all));
        if k == n - 1 {
            couplings_stay(members, all, vs[i], no_snippets);
        } else if k < n - 1 {
            couplings_stay(rest, all, vs[i], no_snippets);
        }
    }
}

proof fn sections_go_on(ev: Seq<Node>, f: FindingsView)
    ensures
        goes_on_from(ev, visibility_section(ev, f.visibility_violations)),
        goes_on_from(ev, workspace_section(ev, f.workspace_violations)),
        goes_on_from(ev, check_section(ev, f.check_violations)),
        goes_on_from(ev, advisory_section(ev, f.advisory_violations)),
{
    let a = with_open(
        ev,
        "visibility_violations"@,
        no_attrs().push(("total"@, dec(f.visibility_violations.len()))),
    );
    visibilities_are_written(a, f.visibility_violations, f.visibility_violations.len() as int, -1);
    let vs = f.workspace_violations;
    let b = with_open(ev, "workspace_violations"@, no_attrs().push(("total"@, dec(vs.len()))));
    let keys = key_set::<(String, String)>(layer_pairs(vs));
    layer_groups_go_on(b, vs, keys, keys.len() as int);
    let c = with_open(
        ev,
        "check_violations"@,
        no_attrs().push(("total"@, dec(f.check_violations.len()))),
    );
    checks_are_written(c, f.check_violations, f.check_violations.len() as int, -1);
    let d = with_open(
        ev,
        "advisory_violations"@,
        no_attrs().push(("total"@, dec(f.advisory_violations.len()))),
    );
    advisories_are_written(d, f.advisory_violations, f.advisory_violations.len() as int, -1);
}

proof fn layer_groups_go_on(
    ev: Seq<Node>,
    vs: Seq<WorkspaceViolationView>,
    keys: Seq<(Seq<char>, Seq<char>)>,
    n: int,
)
    requires
        0 <= n <= keys.len(),
    ensures
        goes_on_from(ev, layer_group_nodes(ev, vs, keys, n)),
    decreases n,
{
    if n > 0 {
        layer_groups_go_on(ev, vs, keys, n - 1);
        let rest = layer_group_nodes(ev, vs, keys, n - 1);
        let key = keys[n - 1];
        let open = with_open(
            rest,
            "layer_violation"@,
            no_attrs().push(("from_layer"@, key.0)).push(("to_layer"@, key.1)).push(
                ("count"@, dec(times(layer_pairs(vs), key))),
            ),
        );
        dependencies_are_written(open, vs, key, vs.len() as int, -1);
        assert(goes_on_from(rest, open));
    }
}

/// Every finding is shown, with all that is known of it: each coupling, each symbol that may be
/// seen too widely, each forbidden dependency with its layers, each finding of the compiler's
/// with its message, and each advisory.
pub proof fn findings_are_shown(
    f: FindingsView,
    by_crate: bool,
    no_snippets: bool,
    tokens: Seq<char>,
    i: int,
)
    ensures
        ({
            let doc = findings_nodes(Seq::empty(), f, by_crate, no_snippets, tokens);
            &&& 0 <= i < f.violations.len() ==> shows_coupling(doc, f.violations[i], no_snippets)
            &&& 0 <= i < f.visibility_violations.len() ==> has_tag(
                doc,
                "violation"@,
                told_of_visibility(f.visibility_violations[i]),
            )
            &&& 0 <= i < f.workspace_violations.len() ==> has_tag(
                doc,
                "dep"@,
                told_of_dependency(f.workspace_violations[i]),
            ) && has_tag(
                doc,
                "layer_violation"@,
                told_of_layers(
                    f.workspace_violations,
                    f.workspace_violations[i].from_layer,
                    f.workspace_violations[i].to_layer,
                ),
            )
            &&& 0 <= i < f.check_violations.len() ==> has_tag(
                doc,
                "violation"@,
                told_of_check(f.check_violations[i]),
            ) && doc.contains(Node::Text(f.check_violations[i].message))
            &&& 0 <= i < f.advisory_violations.len() ==> has_tag(
                doc,
                "violation"@,
                told_of_advisory(f.advisory_violations[i]),
            )
        }),
{
    let doc = findings_nodes(Seq::empty(), f, by_crate, no_snippets, tokens);
    let e0 = summary_nodes(
        suppression_nodes(head_nodes(Seq::empty(), f, tokens), f.suppressed),
        f.violations,
        by_crate,
    );
    let keys = key_set::<(String, String)>(context_pairs(f.violations));
    let e1 = group_nodes(e0, f.violations, keys, no_snippets, keys.len() as int);
    let e2 = visibility_section(e1, f.visibility_violations);
    let e3 = workspace_section(e2, f.workspace_violations);
    let e4 = check_section(e3, f.check_violations);
    let e5 = advisory_section(e4, f.advisory_violations);
    sections_go_on(e1, f);
    sections_go_on(e2, f);
    sections_go_on(e3, f);
    sections_go_on(e4, f);
    assert(goes_on_from(e5, doc));
    assert(goes_on_from(e4, doc));
    assert(goes_on_from(e3, doc));
    assert(goes_on_from(e2, doc));
    assert(goes_on_from(e1, doc));
    if 0 <= i < f.violations.len() {
        let v = f.violations[i];
        crate::order::pair_keys_stay(context_pairs(f.violations));
        assert(context_pairs(f.violations)[i] == (v.from_ctx, v.to_ctx));
        assert(context_pairs(f.violations).contains((v.from_ctx, v.to_ctx)));
        let k = choose|k: int| 0 <= k < keys.len() && keys[k] == (v.from_ctx, v.to_ctx);
        groups_are_written(e0, f.violations, keys, no_snippets, keys.len() as int, k, i);
        couplings_stay(e1, doc, v, no_snippets);
    }
    if 0 <= i < f.visibility_violations.len() {
        let vs = f.visibility_violations;
        let open = with_open(
            e1,
            "visibility_violations"@,
            no_attrs().push(("total"@, dec(vs.len()))),
        );
        visibilities_are_written(open, vs, vs.len() as int, i);
        let all = visibility_nodes(open, vs, vs.len() as int);
        assert(goes_on_from(all, e2));
        tags_stay(all, doc, "violation"@, told_of_visibility(vs[i]));
    }
    if 0 <= i < f.workspace_violations.len() {
        let vs = f.workspace_violations;
        let v = vs[i];
        let layers = key_set::<(String, String)>(layer_pairs(vs));
        let open = with_open(
            e2,
            "workspace_violations"@,
            no_attrs().push(("total"@, dec(vs.len()))),
        );
        crate::order::pair_keys_stay(layer_pairs(vs));
        assert(layer_pairs(vs)[i] == (v.from_layer, v.to_layer));
        assert(layer_pairs(vs).contains((v.from_layer, v.to_layer)));
        let k = choose|k: int| 0 <= k < layers.len() && layers[k] == (v.from_layer, v.to_layer);
        layer_groups_are_written(open, vs, layers, layers.len() as int, k, i);
        let all = layer_group_nodes(open, vs, layers, layers.len() as int);
        assert(goes_on_from(all, e3));
        tags_stay(all, doc, "dep"@, told_of_dependency(v));
        tags_stay(
            all,
            doc,
            "layer_violation"@,
            told_of_layers(vs, v.from_layer, v.to_layer),
        );
    }
    if 0 <= i < f.check_violations.len() {
        let vs = f.check_violations;
        let open = with_open(
            e3,
            "check_violations"@,
            no_attrs().push(("total"@, dec(vs.len()))),
        );
        checks_are_written(open, vs, vs.len() as int, i);
        let all = check_nodes(open, vs, vs.len() as int);
        assert(goes_on_from(all, e4));
        tags_stay(all, doc, "violation"@, told_of_check(vs[i]));
        let m = Node::Text(vs[i].message);
        let j = choose|j: int| 0 <= j < all.len() && all[j] == m;
        assert(doc[j] == m);
    }
    if 0 <= i < f.advisory_violations.len() {
        let vs = f.advisory_violations;
        let open = with_open(
            e4,
            "advisory_violations"@,
            no_attrs().push(("total"@, dec(vs.len()))),
        );
        advisories_are_written(open, vs, vs.len() as int, i);
        let all = advisory_nodes(open, vs, vs.len() as int);
        assert(goes_on_from(all, e5));
        tags_stay(all, doc, "violation"@, told_of_advisory(vs[i]));
    }
}

/// The document says how many findings there are, how many are shown, how many were suppressed,
/// and what policy was held against them.
pub proof fn findings_are_counted(f: FindingsView, tokens: Seq<char>)
    ensures
        ({
            let head = head_nodes(Seq::empty(), f, tokens);
            let d = f.diagnostics;
            &&& has_tag(
                head,
                "violations"@,
                seq![
                    ("total"@, dec(f.total as nat)),
                    ("suppressed"@, dec(f.suppressed.len())),
                    ("shown"@, dec(f.violations.len())),
                    ("visibility_total"@, dec(f.visibility_total as nat)),
                    ("visibility_shown"@, dec(f.visibility_violations.len())),
                    ("workspace_total"@, dec(f.workspace_violations.len())),
                    ("tokens"@, tokens),
                    ("source"@, "trusted"@),
                ],
            )
            &&& has_tag(
                head,
                "diagnostics"@,
                seq![
                    ("policy_source"@, d.policy_source),
                    ("strict_policy"@, bool_text(d.strict_policy)),
                    ("context_rules"@, dec(d.context_rule_count as nat)),
                    ("exceptions"@, dec(d.exception_count as nat)),
                    ("workspace_layers_total"@, dec(d.workspace_layers_total as nat)),
                    ("workspace_layers_assigned"@, dec(d.workspace_layers_assigned as nat)),
                    ("workspace_rules"@, dec(d.workspace_rule_count as nat)),
                    ("trusted_edges_loaded"@, dec(d.trusted_edges_loaded as nat)),
                ],
            )
        }),
{
    let head = head_nodes(Seq::empty(), f, tokens);
    let d = f.diagnostics;
    let a = seq![
        ("total"@, dec(f.total as nat)),
        ("suppressed"@, dec(f.suppressed.len())),
        ("shown"@, dec(f.violations.len())),
        ("visibility_total"@, dec(f.visibility_total as nat)),
        ("visibility_shown"@, dec(f.visibility_violations.len())),
        ("workspace_total"@, dec(f.workspace_violations.len())),
        ("tokens"@, tokens),
        ("source"@, "trusted"@),
    ];
    let b = seq![
        ("policy_source"@, d.policy_source),
        ("strict_policy"@, bool_text(d.strict_policy)),
        ("context_rules"@, dec(d.context_rule_count as nat)),
        ("exceptions"@, dec(d.exception_count as nat)),
        ("workspace_layers_total"@, dec(d.workspace_layers_total as nat)),
        ("workspace_layers_assigned"@, dec(d.workspace_layers_assigned as nat)),
        ("workspace_rules"@, dec(d.workspace_rule_count as nat)),
        ("trusted_edges_loaded"@, dec(d.trusted_edges_loaded as nat)),
    ];
    assert(head[0] == Node::Start("violations"@, a)) by {
        assert(head[0]->Start_1 =~= a);
    }
    assert(head[1] == Node::Empty("diagnostics"@, b)) by {
        assert(head[1]->Empty_1 =~= b);
    }
    all_are_held(a);
    all_are_held(b);
}

/// The numbers on a policy are those of its rules, its exceptions and its layers, those to whom
/// a layer is assigned counted apart.
pub proof fn policies_are_counted(
    policy: EffectivePolicyView,
    config_exists: bool,
    strict: bool,
    edges: nat,
)
    requires
        policy.violations.len() <= usize::MAX,
        policy.exceptions.len() <= usize::MAX,
        edges <= usize::MAX,
        policy.workspace matches Some(ws) ==> ws.layers.len() <= usize::MAX && ws.violations.len()
            <= usize::MAX,
    ensures
        ({
            let d = diagnostics_of(policy, config_exists, strict, edges);
            &&& d.strict_policy == strict
            &&& d.context_rule_count == policy.violations.len()
            &&& d.exception_count == policy.exceptions.len()
            &&& d.trusted_edges_loaded == edges
            &&& policy.workspace is None ==> d.workspace_layers_total == 0
                && d.workspace_layers_assigned == 0 && d.workspace_rule_count == 0
            &&& policy.workspace matches Some(ws) ==> d.workspace_layers_total == ws.layers.len()
                && d.workspace_rule_count == ws.violations.len() && d.workspace_layers_assigned
                == ws.layers.filter(|l: (Seq<char>, Seq<char>)| l.1 != "?"@).len()
            &&& policy.pack matches Some(name) ==> d.policy_source
                == ".graphlite/config.toml + pack:"@ + name
            &&& policy.pack is None && config_exists ==> d.policy_source
                == ".graphlite/config.toml"@
            &&& policy.pack is None && !config_exists ==> d.policy_source == "default-config"@
        }),
{
    if let Some(ws) = policy.workspace {
        assigned_are_counted(ws.layers, ws.layers.len() as int);
        assert(ws.layers.take(ws.layers.len() as int) =~= ws.layers);
    }
}

proof fn assigned_are_counted(layers: Seq<(Seq<char>, Seq<char>)>, n: int)
    requires
        0 <= n <= layers.len(),
    ensures
        assigned_count(layers, n) == layers.take(n).filter(
            |l: (Seq<char>, Seq<char>)| l.1 != "?"@,
        ).len(),
        assigned_count(layers, n) <= n,
    decreases n,
{
    reveal(Seq::filter);
    if n > 0 {
        assigned_are_counted(layers, n - 1);
        assert(layers.take(n).drop_last() =~= layers.take(n - 1));
        assert(layers.take(n).last() == layers[n - 1]);
    }
}

proof fn reasons_are_written(ev: Seq<Node>, counts: Seq<ReasonCountView>, n: int, i: int)
    requires
        0 <= n <= counts.len(),
    ensures
        goes_on_from(ev, reason_nodes(ev, counts, n)),
        0 <= i < n ==> has_tag(
            reason_nodes(ev, counts, n),
            "exception"@,
            seq![("count"@, dec(counts[i].count as nat)), ("reason"@, counts[i].reason)],
        ),
    decreases n,
{
    if n > 0 {
        reasons_are_written(ev, counts, n - 1, i);
        let rest = reason_nodes(ev, counts, n - 1);
        let all = reason_nodes(ev, counts, n);
        assert(goes_on_from(rest, all));
        if 0 <= i < n {
            let a = seq![("count"@, dec(counts[i].count as nat)), ("reason"@, counts[i].reason)];
            if i == n - 1 {
                assert(all[rest.len() as int] == Node::Empty("exception"@, a)) by {
                    assert(all.last()->Empty_1 =~= a);
                }
                all_are_held(a);
            } else {
                tags_stay(rest, all, "exception"@, a);
            }
        }
    }
}

/// Every reason for which something was suppressed is shown, with how often it was one.
pub proof fn suppressions_are_counted(ev: Seq<Node>, reasons: Seq<Seq<char>>, i: int)
    requires
        0 <= i < reasons.len() <= usize::MAX,
    ensures
        has_tag(
            suppression_nodes(ev, reasons),
            "exception"@,
            seq![
                ("count"@, dec(reasons.filter(|r: Seq<char>| r == reasons[i]).len())),
                ("reason"@, reasons[i]),
            ],
        ),
        goes_on_from(ev, suppression_nodes(ev, reasons)),
{
    let counts = reason_counts(reasons);
    let keys = key_set::<String>(reasons);
    crate::order::text_keys_stay(reasons);
    assert(reasons.contains(reasons[i]));
    let k = choose|k: int| 0 <= k < keys.len() && keys[k] == reasons[i];
    crate::order::times_counts_places(reasons, reasons[i]);
    crate::order::times_bound(reasons, reasons[i]);
    let open = with_open(ev, "suppressed_summary"@, no_attrs());
    reasons_are_written(open, counts, counts.len() as int, k);
    let all = reason_nodes(open, counts, counts.len() as int);
    let closed = with_close(all, "suppressed_summary"@);
    let ranked = stable_sorted::<ReasonCount>(counts);
    let again = with_open(closed, "top_suppressions"@, no_attrs());
    crate::order::sorting_orders::<ReasonCount>(counts);
    reasons_are_written(again, ranked, at_most(ranked.len() as int, 10), -1);
    let doc = suppression_nodes(ev, reasons);
    assert(goes_on_from(all, closed));
    assert(goes_on_from(closed, again));
    assert(goes_on_from(again, doc));
    assert(goes_on_from(all, doc));
    assert(goes_on_from(ev, doc));
    tags_stay(
        all,
        doc,
        "exception"@,
        seq![("count"@, dec(counts[k].count as nat)), ("reason"@, counts[k].reason)],
    );
}

proof fn patterns_are_written(
    ev: Seq<Node>,
    keys: Seq<(Seq<char>, Seq<char>)>,
    pairs: Seq<(Seq<char>, Seq<char>)>,
    n: int,
    k: int,
)
    requires
        0 <= n <= keys.len(),
    ensures
        goes_on_from(ev, pattern_nodes(ev, keys, pairs, n)),
        goes_on_from(ev, crate_edge_nodes(ev, keys, pairs, n)),
        0 <= k < n ==> has_tag(
            pattern_nodes(ev, keys, pairs, n),
            "pattern"@,
            seq![
                ("from_context"@, keys[k].0),
                ("to_context"@, keys[k].1),
                ("count"@, dec(times(pairs, keys[k]))),
            ],
        ),
    decreases n,
{
    if n > 0 {
        patterns_are_written(ev, keys, pairs, n - 1, k);
        let rest = pattern_nodes(ev, keys, pairs, n - 1);
        let all = pattern_nodes(ev, keys, pairs, n);
        assert(goes_on_from(rest, all));
        assert(goes_on_from(
            crate_edge_nodes(ev, keys, pairs, n - 1),
            crate_edge_nodes(ev, keys, pairs, n),
        ));
        if 0 <= k < n {
            let a = seq![
                ("from_context"@, keys[k].0),
                ("to_context"@, keys[k].1),
                ("count"@, dec(times(pairs, keys[k]))),
            ];
            if k == n - 1 {
                assert(all[rest.len() as int] == Node::Empty("pattern"@, a)) by {
                    assert(all.last()->Empty_1 =~= a);
                }
                all_are_held(a);
            } else {
                tags_stay(rest, all, "pattern"@, a);
            }
        }
    }
}

proof fn contexts_are_counted(vs: Seq<ViolationView>, from: Seq<char>, to: Seq<char>)
    ensures
        times(context_pairs(vs), (from, to)) == vs.filter(
            |v: ViolationView| v.from_ctx == from && v.to_ctx == to,
        ).len(),
    decreases vs.len(),
{
    reveal(Seq::filter);
    if vs.len() > 0 {
        contexts_are_counted(vs.drop_last(), from, to);
        assert(context_pairs(vs).drop_last() =~= context_pairs(vs.drop_last()));
    }
}

/// The summary tells of each pair of contexts how many couplings lead from the one to the
/// other.
pub proof fn couplings_are_summed_up(
    ev: Seq<Node>,
    vs: Seq<ViolationView>,
    by_crate: bool,
    i: int,
)
    requires
        0 <= i < vs.len(),
    ensures
        has_tag(
            summary_nodes(ev, vs, by_crate),
            "pattern"@,
            seq![
                ("from_context"@, vs[i].from_ctx),
                ("to_context"@, vs[i].to_ctx),
                (
                    "count"@,
                    dec(
                        vs.filter(
                            |v: ViolationView|
                                v.from_ctx == vs[i].from_ctx && v.to_ctx == vs[i].to_ctx,
                        ).len(),
                    ),
                ),
            ],
        ),
        goes_on_from(ev, summary_nodes(ev, vs, by_crate)),
{
    let pairs = context_pairs(vs);
    let keys = key_set::<(String, String)>(pairs);
    let key = (vs[i].from_ctx, vs[i].to_ctx);
    crate::order::pair_keys_stay(pairs);
    assert(pairs[i] == key);
    assert(pairs.contains(key));
    let k = choose|k: int| 0 <= k < keys.len() && keys[k] == key;
    contexts_are_counted(vs, key.0, key.1);
    let open = with_open(ev, "summary"@, no_attrs());
    patterns_are_written(open, keys, pairs, keys.len() as int, k);
    let all = pattern_nodes(open, keys, pairs, keys.len() as int);
    let closed = with_close(all, "summary"@);
    let more = crate_pairs(vs);
    let crates = key_set::<(String, String)>(more);
    let again = with_open(closed, "crate_summary"@, no_attrs());
    patterns_are_written(again, crates, more, crates.len() as int, -1);
    let doc = summary_nodes(ev, vs, by_crate);
    assert(goes_on_from(all, closed));
    assert(goes_on_from(closed, again));
    assert(goes_on_from(closed, doc));
    assert(goes_on_from(all, doc));
    assert(goes_on_from(ev, doc));
    tags_stay(
        all,
        doc,
        "pattern"@,
        seq![
            ("from_context"@, key.0),
            ("to_context"@, key.1),
            ("count"@, dec(times(pairs, key))),
        ],
    );
}

/// The crates that couplings lead between are those of both ends, where both are known.
pub proof fn known_crates_are_paired(vs: Seq<ViolationView>)
    ensures
        crate_pairs(vs) == vs.filter(
            |v: ViolationView| v.from_crate is Some && v.to_crate is Some,
        ).map_values(|v: ViolationView| (v.from_crate->0, v.to_crate->0)),
    decreases vs.len(),
{
    reveal(Seq::filter);
    let known = |v: ViolationView| v.from_crate is Some && v.to_crate is Some;
    let ends = |v: ViolationView| (v.from_crate->0, v.to_crate->0);
    if vs.len() > 0 {
        known_crates_are_paired(vs.drop_last());
        let before = vs.drop_last().filter(known);
        assert(before.push(vs.last()).map_values(ends) =~= before.map_values(ends).push(
            ends(vs.last()),
        ));
    } else {
        assert(crate_pairs(vs) =~= vs.filter(known).map_values(ends));
    }
}

/// Of more findings than wanted the first are shown; where no number is given, all are.
pub proof fn first_findings_are_shown<V>(s: Seq<V>, top: int)
    ensures
        top <= 0 || s.len() <= top ==> shown_of(s, top) == s,
        0 < top < s.len() ==> shown_of(s, top) == s.take(top),
{
}

} // verus!
