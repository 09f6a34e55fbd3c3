//! Built-in policy packs, the policy in effect, and the checks on the policy itself.

use vstd::prelude::*;

use crate::arch::{
    context_of, coupling_reason, covers, exception_matches, file_to_context, rule_for,
    rule_for_finds,
};
use crate::config::{
    Config, ConfigView, Layers, ViolationException, ViolationExceptionView, ViolationRule,
    ViolationRuleView, VisibilityRule, VisibilityRuleView, WorkspaceConfig, WorkspaceConfigView,
    WorkspaceViolationRule, WorkspaceViolationRuleView,
};
use crate::model::{dup_all, extend_dup, list_has, or_text, text_or, views, Dup};
use crate::order::{distinct_keys, key_set};
use crate::text::{begins_with, concat3, dec, join, joined, starts_with, str_eq, usize_text};
use crate::toml_table::{
    entry_at, new_table, no_entries, parse_table, put, render, table_entries, toml_rendering,
    toml_text, Entry, EntryView,
};
use crate::xml::{
    all_are_held, close, count_tokens, empty, finish, goes_on_from, has_tag, new_writer, no_attrs,
    open_attrs, tags_stay, tokens_of, with_close, with_empty, with_open, xml_events, xml_text,
    Attrs, Node,
};

verus! {

broadcast use crate::model::group_views;

pub const PACK_DDD: &'static str = "ddd-hexagonal-rust";

pub const PACK_CQRS: &'static str = "cqrs-event-sourced-rust";

/// The policy in effect: the selected pack's rules and the project's own.
#[derive(Debug)]
pub struct EffectivePolicy {
    pub pack: Option<String>,
    pub violations: Vec<ViolationRule>,
    pub exceptions: Vec<ViolationException>,
    pub visibility_rules: Vec<VisibilityRule>,
    pub workspace: Option<WorkspaceConfig>,
}

/// What a [`EffectivePolicy`] holds.
#[verifier::ext_equal]
pub struct EffectivePolicyView {
    pub pack: Option<Seq<char>>,
    pub violations: Seq<ViolationRuleView>,
    pub exceptions: Seq<ViolationExceptionView>,
    pub visibility_rules: Seq<VisibilityRuleView>,
    pub workspace: Option<WorkspaceConfigView>,
}

impl DeepView for EffectivePolicy {
    type V = EffectivePolicyView;

    open spec fn deep_view(&self) -> EffectivePolicyView {
        EffectivePolicyView {
            pack: self.pack.deep_view(),
            violations: views(self.violations@),
            exceptions: views(self.exceptions@),
            visibility_rules: views(self.visibility_rules@),
            workspace: self.workspace.deep_view(),
        }
    }
}

impl View for EffectivePolicy {
    type V = EffectivePolicyView;

    open spec fn view(&self) -> EffectivePolicyView {
        self.deep_view()
    }
}

impl Dup for EffectivePolicy {
    fn dup(&self) -> (r: EffectivePolicy) {
        EffectivePolicy {
            pack: self.pack.dup(),
            violations: dup_all(&self.violations),
            exceptions: dup_all(&self.exceptions),
            visibility_rules: dup_all(&self.visibility_rules),
            workspace: self.workspace.dup(),
        }
    }
}

/// The rules of a built-in policy pack.
#[derive(Debug)]
pub struct PolicyPack {
    pub violations: Vec<ViolationRule>,
    pub visibility_rules: Vec<VisibilityRule>,
    pub workspace_violations: Vec<WorkspaceViolationRule>,
}

/// What a [`PolicyPack`] holds.
#[verifier::ext_equal]
pub struct PolicyPackView {
    pub violations: Seq<ViolationRuleView>,
    pub visibility_rules: Seq<VisibilityRuleView>,
    pub workspace_violations: Seq<WorkspaceViolationRuleView>,
}

impl DeepView for PolicyPack {
    type V = PolicyPackView;

    open spec fn deep_view(&self) -> PolicyPackView {
        PolicyPackView {
            violations: views(self.violations@),
            visibility_rules: views(self.visibility_rules@),
            workspace_violations: views(self.workspace_violations@),
        }
    }
}

impl View for PolicyPack {
    type V = PolicyPackView;

    open spec fn view(&self) -> PolicyPackView {
        self.deep_view()
    }
}

/// One finding of the policy checks.
#[derive(Debug)]
pub struct Finding {
    pub severity: String,
    pub code: String,
    pub message: String,
}

/// What a [`Finding`] holds.
#[verifier::ext_equal]
pub struct FindingView {
    pub severity: Seq<char>,
    pub code: Seq<char>,
    pub message: Seq<char>,
}

impl DeepView for Finding {
    type V = FindingView;

    open spec fn deep_view(&self) -> FindingView {
        FindingView {
            severity: self.severity.deep_view(),
            code: self.code.deep_view(),
            message: self.message.deep_view(),
        }
    }
}

impl View for Finding {
    type V = FindingView;

    open spec fn view(&self) -> FindingView {
        self.deep_view()
    }
}

/// What the policy checks report and when they fail.
#[derive(Clone, Copy, Debug)]
pub struct LintOptions {
    pub stale_only: bool,
    pub fail_on_stale: bool,
    pub fail_on_broad: bool,
    pub broad_threshold: usize,
}

/// The names of the built-in policy packs.
pub fn supported_packs() -> (r: Vec<String>)
    ensures
        views(r@) == seq![PACK_DDD@, PACK_CQRS@],
{
    let mut r: Vec<String> = Vec::new();
    r.push(PACK_DDD.to_owned());
    r.push(PACK_CQRS.to_owned());
    r
}

pub open spec fn ctx_rule(from: Seq<char>, to: Seq<char>, reason: Seq<char>) -> ViolationRuleView {
    ViolationRuleView { from_context: from, to_context: to, reason: Some(reason) }
}

fn rule_ctx(from: &str, to: &str, reason: &str) -> (r: ViolationRule)
    ensures
        r@ == ctx_rule(from@, to@, reason@),
{
    ViolationRule {
        from_context: from.to_owned(),
        to_context: to.to_owned(),
        reason: Some(reason.to_owned()),
    }
}

pub open spec fn vis_rule(layer: Seq<char>, max: Seq<char>, reason: Seq<char>) -> VisibilityRuleView {
    VisibilityRuleView { layer, max_visibility: max, reason: Some(reason) }
}

fn rule_vis(layer: &str, max_visibility: &str, reason: &str) -> (r: VisibilityRule)
    ensures
        r@ == vis_rule(layer@, max_visibility@, reason@),
{
    VisibilityRule {
        layer: layer.to_owned(),
        max_visibility: max_visibility.to_owned(),
        reason: Some(reason.to_owned()),
    }
}

pub open spec fn ws_rule(
    from: Seq<char>,
    to: Seq<char>,
    reason: Seq<char>,
) -> WorkspaceViolationRuleView {
    WorkspaceViolationRuleView { from_layer: from, to_layer: to, reason: Some(reason) }
}

fn rule_ws(from_layer: &str, to_layer: &str, reason: &str) -> (r: WorkspaceViolationRule)
    ensures
        r@ == ws_rule(from_layer@, to_layer@, reason@),
{
    WorkspaceViolationRule {
        from_layer: from_layer.to_owned(),
        to_layer: to_layer.to_owned(),
        reason: Some(reason.to_owned()),
    }
}

/// The pack for hexagonal, domain-driven projects.
pub open spec fn ddd_pack() -> PolicyPackView {
    PolicyPackView {
        violations: seq![
            ctx_rule(
                "adapter"@,
                "infra"@,
                "adapter should call application ports/use-cases, not infra directly"@,
            ),
            ctx_rule("adapter"@, "domain"@, "adapter should enter through application boundary"@),
            ctx_rule("infra"@, "adapter"@, "infra should not depend on driving adapters"@),
            ctx_rule("domain"@, "infra"@, "domain must remain persistence-agnostic"@),
            ctx_rule("domain"@, "adapter"@, "domain must remain transport-agnostic"@),
        ],
        visibility_rules: seq![
            vis_rule("domain"@, "crate"@, "domain symbols should remain crate-internal"@),
            vis_rule("infra"@, "crate"@, "infra implementation details should remain internal"@),
        ],
        workspace_violations: seq![
            ws_rule("domain"@, "infra"@, "domain must not depend on infra"@),
            ws_rule("domain"@, "adapter"@, "domain must not depend on adapter"@),
            ws_rule("port"@, "infra"@, "ports define contracts; infra implements them"@),
            ws_rule("port"@, "adapter"@, "ports should not depend on adapters"@),
            ws_rule("application"@, "adapter"@, "application should not depend on adapters"@),
        ],
    }
}

/// The pack for event-sourced projects that part commands from queries.
pub open spec fn cqrs_pack() -> PolicyPackView {
    PolicyPackView {
        violations: seq![
            ctx_rule("query"@, "command"@, "read side must not depend on write side"@),
            ctx_rule("command"@, "query"@, "write side should not couple to read projections"@),
            ctx_rule("projection"@, "command"@, "projections should not drive command execution"@),
            ctx_rule("infra"@, "adapter"@, "infra should not depend on delivery adapters"@),
        ],
        visibility_rules: seq![
            vis_rule("domain"@, "crate"@, "domain internals should not leak via public API"@),
            vis_rule("application"@, "crate"@, "use-case internals should be crate scoped"@),
        ],
        workspace_violations: seq![
            ws_rule("query"@, "command"@, "query crates must not depend on command crates"@),
            ws_rule("projection"@, "command"@, "projection crates must not depend on command crates"@),
            ws_rule("domain"@, "infra"@, "domain must not depend on infra"@),
        ],
    }
}

/// The built-in pack of the given name.
pub open spec fn pack_named(name: Seq<char>) -> Option<PolicyPackView> {
    if name == PACK_DDD@ {
        Some(ddd_pack())
    } else if name == PACK_CQRS@ {
        Some(cqrs_pack())
    } else {
        None
    }
}

fn pack_for(name: &str) -> (r: Option<PolicyPack>)
    ensures
        r.deep_view() == pack_named(name@),
{
    if str_eq(name, PACK_DDD) {
        let mut violations: Vec<ViolationRule> = Vec::new();
        violations.push(
            rule_ctx(
                "adapter",
                "infra",
                "adapter should call application ports/use-cases, not infra directly",
            ),
        );
        violations.push(
            rule_ctx("adapter", "domain", "adapter should enter through application boundary"),
        );
        violations.push(rule_ctx("infra", "adapter", "infra should not depend on driving adapters"));
        violations.push(rule_ctx("domain", "infra", "domain must remain persistence-agnostic"));
        violations.push(rule_ctx("domain", "adapter", "domain must remain transport-agnostic"));
        let mut visibility_rules: Vec<VisibilityRule> = Vec::new();
        visibility_rules.push(
            rule_vis("domain", "crate", "domain symbols should remain crate-internal"),
        );
        visibility_rules.push(
            rule_vis("infra", "crate", "infra implementation details should remain internal"),
        );
        let mut workspace_violations: Vec<WorkspaceViolationRule> = Vec::new();
        workspace_violations.push(rule_ws("domain", "infra", "domain must not depend on infra"));
        workspace_violations.push(rule_ws("domain", "adapter", "domain must not depend on adapter"));
        workspace_violations.push(
            rule_ws("port", "infra", "ports define contracts; infra implements them"),
        );
        workspace_violations.push(rule_ws("port", "adapter", "ports should not depend on adapters"));
        workspace_violations.push(
            rule_ws("application", "adapter", "application should not depend on adapters"),
        );
        Some(PolicyPack { violations, visibility_rules, workspace_violations })
    } else if str_eq(name, PACK_CQRS) {
        let mut violations: Vec<ViolationRule> = Vec::new();
        violations.push(rule_ctx("query", "command", "read side must not depend on write side"));
        violations.push(
            rule_ctx("command", "query", "write side should not couple to read projections"),
        );
        violations.push(
            rule_ctx("projection", "command", "projections should not drive command execution"),
        );
        violations.push(rule_ctx("infra", "adapter", "infra should not depend on delivery adapters"));
        let mut visibility_rules: Vec<VisibilityRule> = Vec::new();
        visibility_rules.push(
            rule_vis("domain", "crate", "domain internals should not leak via public API"),
        );
        visibility_rules.push(
            rule_vis("application", "crate", "use-case internals should be crate scoped"),
        );
        let mut workspace_violations: Vec<WorkspaceViolationRule> = Vec::new();
        workspace_violations.push(
            rule_ws("query", "command", "query crates must not depend on command crates"),
        );
        workspace_violations.push(
            rule_ws("projection", "command", "projection crates must not depend on command crates"),
        );
        workspace_violations.push(rule_ws("domain", "infra", "domain must not depend on infra"));
        Some(PolicyPack { violations, visibility_rules, workspace_violations })
    } else {
        None
    }
}

/// The pack that the configuration selects.
pub open spec fn selected_pack(cfg: ConfigView) -> Option<Seq<char>> {
    match cfg.policy {
        Some(p) => p.pack,
        None => None,
    }
}

/// The workspace settings with a pack's layer rules behind the project's own.
pub open spec fn with_layer_rules(
    workspace: Option<WorkspaceConfigView>,
    rules: Seq<WorkspaceViolationRuleView>,
) -> Option<WorkspaceConfigView> {
    if rules.len() == 0 {
        workspace
    } else {
        match workspace {
            Some(ws) => Some(
                WorkspaceConfigView { layers: ws.layers, violations: ws.violations + rules },
            ),
            None => Some(WorkspaceConfigView { layers: Seq::empty(), violations: rules }),
        }
    }
}

/// The configuration's policy with the rules of `pack`, so that the project's own win where
/// both speak of the same thing: of context and layer rules the first counts, and the
/// project's own stand before the pack's; of visibility rules the last counts, and the
/// project's own stand behind the pack's.
pub open spec fn merged_policy(cfg: ConfigView, name: Option<Seq<char>>, pack: PolicyPackView) -> EffectivePolicyView {
    EffectivePolicyView {
        pack: name,
        violations: cfg.violations + pack.violations,
        exceptions: cfg.exceptions,
        visibility_rules: pack.visibility_rules + cfg.visibility_rules,
        workspace: with_layer_rules(cfg.workspace, pack.workspace_violations),
    }
}

/// The pack without rules.
pub open spec fn no_pack() -> PolicyPackView {
    PolicyPackView {
        violations: Seq::empty(),
        visibility_rules: Seq::empty(),
        workspace_violations: Seq::empty(),
    }
}

/// The policy in effect; none where the configuration selects a pack that does not exist.
pub open spec fn policy_of(cfg: ConfigView) -> Option<EffectivePolicyView> {
    match selected_pack(cfg) {
        Some(name) => match pack_named(name) {
            Some(pack) => Some(merged_policy(cfg, Some(name), pack)),
            None => None,
        },
        None => Some(merged_policy(cfg, None, no_pack())),
    }
}

/// The policy in effect: the selected pack's rules and the project's own.
pub fn effective_policy(cfg: &Config) -> (r: Result<EffectivePolicy, String>)
    ensures
        match r {
            Ok(p) => policy_of(cfg@) == Some(p@),
            Err(e) => policy_of(cfg@) is None && e@ == "unknown policy pack '"@ + selected_pack(
                cfg@,
            )->0 + "'"@,
        },
{
    let pack_name: Option<String> = match &cfg.policy {
        Some(p) => p.pack.dup(),
        None => None,
    };
    let mut violations: Vec<ViolationRule> = dup_all(&cfg.violations);
    let mut visibility_rules: Vec<VisibilityRule> = Vec::new();
    let mut workspace_violations: Vec<WorkspaceViolationRule> = Vec::new();
    if let Some(name) = &pack_name {
        match pack_for(name) {
            Some(pack) => {
                extend_dup(&mut violations, &pack.violations);
                visibility_rules = pack.visibility_rules;
                workspace_violations = pack.workspace_violations;
            },
            None => {
                return Err(concat3("unknown policy pack '", name, "'"));
            },
        }
    }
    extend_dup(&mut visibility_rules, &cfg.visibility_rules);
    let workspace: Option<WorkspaceConfig> = if workspace_violations.len() == 0 {
        cfg.workspace.dup()
    } else {
        match &cfg.workspace {
            Some(ws) => {
                let mut rules = dup_all(&ws.violations);
                extend_dup(&mut rules, &workspace_violations);
                Some(WorkspaceConfig { layers: ws.layers.dup(), violations: rules })
            },
            None => Some(WorkspaceConfig { layers: Layers::new(), violations: workspace_violations }),
        }
    };
    let r = EffectivePolicy {
        pack: pack_name,
        violations,
        exceptions: dup_all(&cfg.exceptions),
        visibility_rules,
        workspace,
    };
    Ok(r)
}

/// Without a selected pack the policy in effect is the configuration's own.
pub proof fn without_pack_nothing_is_added(cfg: ConfigView)
    requires
        selected_pack(cfg) is None,
    ensures
        policy_of(cfg) == Some(
            (EffectivePolicyView {
                pack: None,
                violations: cfg.violations,
                exceptions: cfg.exceptions,
                visibility_rules: cfg.visibility_rules,
                workspace: cfg.workspace,
            }),
        ),
{
    assert(cfg.violations + no_pack().violations =~= cfg.violations);
    assert(no_pack().visibility_rules + cfg.visibility_rules =~= cfg.visibility_rules);
}

/// Whatever pack is selected, the project's own rules stay in effect, in their order, and
/// the exceptions and layer assignments are the project's own.
pub proof fn own_rules_stay(cfg: ConfigView)
    requires
        policy_of(cfg) is Some,
    ensures
        ({
            let p = policy_of(cfg)->0;
            &&& cfg.violations.is_prefix_of(p.violations)
            &&& p.visibility_rules.len() >= cfg.visibility_rules.len()
            &&& p.visibility_rules.skip(p.visibility_rules.len() - cfg.visibility_rules.len())
                == cfg.visibility_rules
            &&& p.exceptions == cfg.exceptions
            &&& cfg.workspace matches Some(ws) ==> p.workspace is Some && p.workspace->0.layers
                == ws.layers && ws.violations.is_prefix_of(p.workspace->0.violations)
        }),
{
    let p = policy_of(cfg)->0;
    assert(cfg.violations =~= p.violations.subrange(0, cfg.violations.len() as int));
    assert(p.visibility_rules.skip(p.visibility_rules.len() - cfg.visibility_rules.len())
        =~= cfg.visibility_rules);
    if cfg.workspace is Some {
        let own = cfg.workspace->0.violations;
        let all = p.workspace->0.violations;
        assert(own =~= all.subrange(0, own.len() as int));
    }
}

proof fn first_rule_counts(
    own: Seq<ViolationRuleView>,
    more: Seq<ViolationRuleView>,
    from_ctx: Seq<char>,
    to_ctx: Seq<char>,
    i: int,
)
    requires
        0 <= i <= own.len(),
        rule_for(own, from_ctx, to_ctx, i) is Some,
    ensures
        rule_for(own + more, from_ctx, to_ctx, i) == rule_for(own, from_ctx, to_ctx, i),
    decreases own.len() - i,
{
    assert((own + more)[i] == own[i]);
    if !(own[i].from_context == from_ctx && own[i].to_context == to_ctx) {
        first_rule_counts(own, more, from_ctx, to_ctx, i + 1);
    }
}

/// The project's own rule on two contexts wins over a pack's rule on them: where the own rules
/// forbid a coupling, the policy in effect forbids it for the same reason.
pub proof fn own_rules_override(cfg: ConfigView, from_ctx: Seq<char>, to_ctx: Seq<char>)
    requires
        policy_of(cfg) is Some,
        coupling_reason(from_ctx, to_ctx, cfg.violations) is Some,
    ensures
        coupling_reason(from_ctx, to_ctx, policy_of(cfg)->0.violations) == coupling_reason(
            from_ctx,
            to_ctx,
            cfg.violations,
        ),
{
    let pack = match selected_pack(cfg) {
        Some(name) => pack_named(name)->0,
        None => no_pack(),
    };
    first_rule_counts(cfg.violations, pack.violations, from_ctx, to_ctx, 0);
    rule_for_finds(cfg.violations, from_ctx, to_ctx, 0);
}

// ---------------------------------------------------------------------------
// Checks on the policy
// ---------------------------------------------------------------------------

pub open spec fn finding(severity: Seq<char>, code: Seq<char>, message: Seq<char>) -> FindingView {
    FindingView { severity, code, message }
}

fn note(findings: &mut Vec<Finding>, severity: &str, code: &str, message: String)
    ensures
        views(final(findings)@) == views(old(findings)@).push(finding(severity@, code@, message@)),
{
    let f = Finding { severity: severity.to_owned(), code: code.to_owned(), message };
    assert(f@ == finding(severity@, code@, message@));
    findings.push(f);
}

/// The first rule before `n` between the same contexts as rule `n`.
pub open spec fn same_contexts(rules: Seq<ViolationRuleView>, n: int, i: int) -> Option<int>
    decreases n - i,
{
    if i < 0 || i >= n {
        None
    } else if rules[i].from_context == rules[n].from_context && rules[i].to_context
        == rules[n].to_context {
        Some(i)
    } else {
        same_contexts(rules, n, i + 1)
    }
}

/// The findings with those on the context rule at `n`: that it couples a context with
/// itself, that it repeats an earlier rule, or that it gives another reason than that.
pub open spec fn on_context_rule(
    found: Seq<FindingView>,
    rules: Seq<ViolationRuleView>,
    n: int,
) -> Seq<FindingView> {
    let rule = rules[n];
    let pair = rule.from_context + " -> "@ + rule.to_context;
    let found = if rule.from_context == rule.to_context {
        found.push(
            finding(
                "warning"@,
                "dead_context_self_rule"@,
                "context rule "@ + pair + " is ineffective (self-edge is ignored)"@,
            ),
        )
    } else {
        found
    };
    match same_contexts(rules, n, 0) {
        Some(i) => if or_text(rules[i].reason, ""@) == or_text(rule.reason, ""@) {
            found.push(
                finding(
                    "warning"@,
                    "dead_context_duplicate_rule"@,
                    "duplicate context rule "@ + pair,
                ),
            )
        } else {
            found.push(
                finding(
                    "error"@,
                    "conflict_context_rule"@,
                    "conflicting reasons for context rule "@ + pair,
                ),
            )
        },
        None => found,
    }
}

/// The findings with those on the first `n` context rules.
pub open spec fn on_context_rules(
    found: Seq<FindingView>,
    rules: Seq<ViolationRuleView>,
    n: int,
) -> Seq<FindingView>
    decreases n,
{
    if n <= 0 {
        found
    } else {
        on_context_rule(on_context_rules(found, rules, n - 1), rules, n - 1)
    }
}

/// Adds the findings on context rules: self-couplings, repetitions and conflicts.
pub fn lint_context_rules(rules: &Vec<ViolationRule>, findings: &mut Vec<Finding>)
    ensures
        views(final(findings)@) == on_context_rules(
            views(old(findings)@),
            views(rules@),
            rules@.len() as int,
        ),
{
    let ghost start = views(findings@);
    let mut n: usize = 0;
    while n < rules.len()
        invariant
            n <= rules@.len(),
            views(findings@) == on_context_rules(start, views(rules@), n as int),
        decreases rules@.len() - n,
    {
        let rule = &rules[n];
        assert(views(rules@)[n as int] == rule@);
        let pair = concat3(&rule.from_context, " -> ", &rule.to_context);
        if str_eq(&rule.from_context, &rule.to_context) {
            note(
                findings,
                "warning",
                "dead_context_self_rule",
                concat3("context rule ", &pair, " is ineffective (self-edge is ignored)"),
            );
        }
        let ghost before = views(findings@);
        let mut i: usize = 0;
        let mut found: Option<usize> = None;
        while i < n && found.is_none()
            invariant
                i <= n < rules@.len(),
                rule@ == views(rules@)[n as int],
                found is None ==> same_contexts(views(rules@), n as int, 0) == same_contexts(
                    views(rules@),
                    n as int,
                    i as int,
                ),
                found matches Some(k) ==> k < n && same_contexts(views(rules@), n as int, 0) == Some(
                    k as int,
                ),
            decreases n - i + if found is None { 1int } else { 0int },
        {
            assert(views(rules@)[i as int] == rules@[i as int]@);
            if str_eq(&rules[i].from_context, &rule.from_context) && str_eq(
                &rules[i].to_context,
                &rule.to_context,
            ) {
                found = Some(i);
            } else {
                i = i + 1;
            }
        }
        if let Some(k) = found {
            let prev = text_or(&rules[k].reason, "");
            let reason = text_or(&rule.reason, "");
            assert(views(rules@)[k as int] == rules@[k as int]@);
            if str_eq(&prev, &reason) {
                note(
                    findings,
                    "warning",
                    "dead_context_duplicate_rule",
                    crate::text::concat2("duplicate context rule ", &pair),
                );
            } else {
                note(
                    findings,
                    "error",
                    "conflict_context_rule",
                    crate::text::concat2("conflicting reasons for context rule ", &pair),
                );
            }
        }
        n = n + 1;
    }
}

/// The first rule before `n` on the same layer as rule `n`.
pub open spec fn same_layer(rules: Seq<VisibilityRuleView>, n: int, i: int) -> Option<int>
    decreases n - i,
{
    if i < 0 || i >= n {
        None
    } else if rules[i].layer == rules[n].layer {
        Some(i)
    } else {
        same_layer(rules, n, i + 1)
    }
}

/// The findings with that on the visibility rule at `n`: that it repeats the first rule on
/// its layer, or that it gives another limit.
pub open spec fn on_visibility_rule(
    found: Seq<FindingView>,
    rules: Seq<VisibilityRuleView>,
    n: int,
) -> Seq<FindingView> {
    let rule = rules[n];
    match same_layer(rules, n, 0) {
        Some(i) => if rules[i].max_visibility == rule.max_visibility {
            found.push(
                finding(
                    "warning"@,
                    "dead_visibility_duplicate_rule"@,
                    "duplicate visibility rule for layer '"@ + rule.layer + "'"@,
                ),
            )
        } else {
            found.push(
                finding(
                    "error"@,
                    "conflict_visibility_rule"@,
                    "layer '"@ + rule.layer + "' has conflicting max_visibility values ('"@
                        + rules[i].max_visibility + "' vs '"@ + rule.max_visibility + "')"@,
                ),
            )
        },
        None => found,
    }
}

/// The findings with those on the first `n` visibility rules.
pub open spec fn on_visibility_rules(
    found: Seq<FindingView>,
    rules: Seq<VisibilityRuleView>,
    n: int,
) -> Seq<FindingView>
    decreases n,
{
    if n <= 0 {
        found
    } else {
        on_visibility_rule(on_visibility_rules(found, rules, n - 1), rules, n - 1)
    }
}

/// Adds the findings on visibility rules: repetitions and conflicts.
pub fn lint_visibility_rules(rules: &Vec<VisibilityRule>, findings: &mut Vec<Finding>)
    ensures
        views(final(findings)@) == on_visibility_rules(
            views(old(findings)@),
            views(rules@),
            rules@.len() as int,
        ),
{
    let ghost start = views(findings@);
    let mut n: usize = 0;
    while n < rules.len()
        invariant
            n <= rules@.len(),
            views(findings@) == on_visibility_rules(start, views(rules@), n as int),
        decreases rules@.len() - n,
    {
        let rule = &rules[n];
        assert(views(rules@)[n as int] == rule@);
        let mut i: usize = 0;
        let mut found: Option<usize> = None;
        while i < n && found.is_none()
            invariant
                i <= n < rules@.len(),
                rule@ == views(rules@)[n as int],
                found is None ==> same_layer(views(rules@), n as int, 0) == same_layer(
                    views(rules@),
                    n as int,
                    i as int,
                ),
                found matches Some(k) ==> k < n && same_layer(views(rules@), n as int, 0) == Some(
                    k as int,
                ),
            decreases n - i + if found is None { 1int } else { 0int },
        {
            assert(views(rules@)[i as int] == rules@[i as int]@);
            if str_eq(&rules[i].layer, &rule.layer) {
                found = Some(i);
            } else {
                i = i + 1;
            }
        }
        if let Some(k) = found {
            assert(views(rules@)[k as int] == rules@[k as int]@);
            if str_eq(&rules[k].max_visibility, &rule.max_visibility) {
                note(
                    findings,
                    "warning",
                    "dead_visibility_duplicate_rule",
                    concat3("duplicate visibility rule for layer '", &rule.layer, "'"),
                );
            } else {
                let mut m = concat3(
                    "layer '",
                    &rule.layer,
                    "' has conflicting max_visibility values ('",
                );
                m.append(&rules[k].max_visibility);
                m.append("' vs '");
                m.append(&rule.max_visibility);
                m.append("')");
                note(findings, "error", "conflict_visibility_rule", m);
            }
        }
        n = n + 1;
    }
}

/// The first rule before `n` between the same layers as rule `n`.
pub open spec fn same_layers(rules: Seq<WorkspaceViolationRuleView>, n: int, i: int) -> Option<int>
    decreases n - i,
{
    if i < 0 || i >= n {
        None
    } else if rules[i].from_layer == rules[n].from_layer && rules[i].to_layer == rules[n].to_layer {
        Some(i)
    } else {
        same_layers(rules, n, i + 1)
    }
}

/// The findings with that on the layer rule at `n`: that it repeats an earlier rule, or
/// that it gives another reason than that.
pub open spec fn on_workspace_rule(
    found: Seq<FindingView>,
    rules: Seq<WorkspaceViolationRuleView>,
    n: int,
) -> Seq<FindingView> {
    let rule = rules[n];
    let pair = rule.from_layer + " -> "@ + rule.to_layer;
    match same_layers(rules, n, 0) {
        Some(i) => if or_text(rules[i].reason, ""@) == or_text(rule.reason, ""@) {
            found.push(
                finding(
                    "warning"@,
                    "dead_workspace_duplicate_rule"@,
                    "duplicate workspace layer rule "@ + pair,
                ),
            )
        } else {
            found.push(
                finding(
                    "error"@,
                    "conflict_workspace_rule"@,
                    "conflicting reasons for workspace layer rule "@ + pair,
                ),
            )
        },
        None => found,
    }
}

/// The findings with those on the first `n` layer rules.
pub open spec fn on_workspace_rules(
    found: Seq<FindingView>,
    rules: Seq<WorkspaceViolationRuleView>,
    n: int,
) -> Seq<FindingView>
    decreases n,
{
    if n <= 0 {
        found
    } else {
        on_workspace_rule(on_workspace_rules(found, rules, n - 1), rules, n - 1)
    }
}

/// The findings with those on the layer rules of the workspace, if there is one.
pub open spec fn on_workspace(
    found: Seq<FindingView>,
    workspace: Option<WorkspaceConfigView>,
) -> Seq<FindingView> {
    match workspace {
        Some(ws) => on_workspace_rules(found, ws.violations, ws.violations.len() as int),
        None => found,
    }
}

/// Adds the findings on layer rules: repetitions and conflicts.
pub fn lint_workspace_rules(workspace: &Option<WorkspaceConfig>, findings: &mut Vec<Finding>)
    ensures
        views(final(findings)@) == on_workspace(views(old(findings)@), workspace.deep_view()),
{
    let ws = match workspace {
        Some(ws) => ws,
        None => {
            return;
        },
    };
    let rules = &ws.violations;
    let ghost start = views(findings@);
    let mut n: usize = 0;
    while n < rules.len()
        invariant
            n <= rules@.len(),
            views(findings@) == on_workspace_rules(start, views(rules@), n as int),
        decreases rules@.len() - n,
    {
        let rule = &rules[n];
        assert(views(rules@)[n as int] == rule@);
        let pair = concat3(&rule.from_layer, " -> ", &rule.to_layer);
        let mut i: usize = 0;
        let mut found: Option<usize> = None;
        while i < n && found.is_none()
            invariant
                i <= n < rules@.len(),
                rule@ == views(rules@)[n as int],
                found is None ==> same_layers(views(rules@), n as int, 0) == same_layers(
                    views(rules@),
                    n as int,
                    i as int,
                ),
                found matches Some(k) ==> k < n && same_layers(views(rules@), n as int, 0) == Some(
                    k as int,
                ),
            decreases n - i + if found is None { 1int } else { 0int },
        {
            assert(views(rules@)[i as int] == rules@[i as int]@);
            if str_eq(&rules[i].from_layer, &rule.from_layer) && str_eq(
                &rules[i].to_layer,
                &rule.to_layer,
            ) {
                found = Some(i);
            } else {
                i = i + 1;
            }
        }
        if let Some(k) = found {
            let prev = text_or(&rules[k].reason, "");
            let reason = text_or(&rule.reason, "");
            assert(views(rules@)[k as int] == rules@[k as int]@);
            if str_eq(&prev, &reason) {
                note(
                    findings,
                    "warning",
                    "dead_workspace_duplicate_rule",
                    crate::text::concat2("duplicate workspace layer rule ", &pair),
                );
            } else {
                note(
                    findings,
                    "error",
                    "conflict_workspace_rule",
                    crate::text::concat2("conflicting reasons for workspace layer rule ", &pair),
                );
            }
        }
        n = n + 1;
    }
}

/// One trusted edge between symbols that are no tests.
#[derive(Debug)]
pub struct LintEdge {
    pub from_file: String,
    pub to_file: String,
    pub from_role: String,
    pub to_role: String,
    pub from_stable_id: String,
    pub to_stable_id: String,
}

/// What a [`LintEdge`] holds.
#[verifier::ext_equal]
pub struct LintEdgeView {
    pub from_file: Seq<char>,
    pub to_file: Seq<char>,
    pub from_role: Seq<char>,
    pub to_role: Seq<char>,
    pub from_stable_id: Seq<char>,
    pub to_stable_id: Seq<char>,
}

impl DeepView for LintEdge {
    type V = LintEdgeView;

    open spec fn deep_view(&self) -> LintEdgeView {
        LintEdgeView {
            from_file: self.from_file.deep_view(),
            to_file: self.to_file.deep_view(),
            from_role: self.from_role.deep_view(),
            to_role: self.to_role.deep_view(),
            from_stable_id: self.from_stable_id.deep_view(),
            to_stable_id: self.to_stable_id.deep_view(),
        }
    }
}

impl View for LintEdge {
    type V = LintEdgeView;

    open spec fn view(&self) -> LintEdgeView {
        self.deep_view()
    }
}

/// What the policy is checked against: the code graph's trusted edges, the stable ids of
/// its symbols, and its files.
#[derive(Debug)]
pub struct LintRepo {
    pub edges: Vec<LintEdge>,
    pub stable_ids: Vec<String>,
    pub files: Vec<String>,
}

/// What a [`LintRepo`] holds.
#[verifier::ext_equal]
pub struct LintRepoView {
    pub edges: Seq<LintEdgeView>,
    pub stable_ids: Seq<Seq<char>>,
    pub files: Seq<Seq<char>>,
}

impl DeepView for LintRepo {
    type V = LintRepoView;

    open spec fn deep_view(&self) -> LintRepoView {
        LintRepoView {
            edges: views(self.edges@),
            stable_ids: views(self.stable_ids@),
            files: views(self.files@),
        }
    }
}

impl View for LintRepo {
    type V = LintRepoView;

    open spec fn view(&self) -> LintRepoView {
        self.deep_view()
    }
}

/// All given fields of the exception match the edge.
pub open spec fn exception_covers(exc: ViolationExceptionView, e: LintEdgeView) -> bool {
    covers(
        exc,
        context_of(e.from_file),
        context_of(e.to_file),
        e.from_role,
        e.to_role,
        Some((e.from_stable_id, e.to_stable_id)),
    )
}

/// The contexts of the edges that the exception covers, in the order of the edges.
pub open spec fn covered_pairs(exc: ViolationExceptionView, edges: Seq<LintEdgeView>) -> Seq<
    (Seq<char>, Seq<char>),
>
    decreases edges.len(),
{
    if edges.len() == 0 {
        Seq::empty()
    } else {
        let rest = covered_pairs(exc, edges.drop_last());
        let e = edges.last();
        if exception_covers(exc, e) {
            rest.push((context_of(e.from_file), context_of(e.to_file)))
        } else {
            rest
        }
    }
}

fn collect_covered(exc: &ViolationException, edges: &Vec<LintEdge>) -> (r: Vec<(String, String)>)
    ensures
        views(r@) == covered_pairs(exc@, views(edges@)),
{
    let mut out: Vec<(String, String)> = Vec::new();
    let mut i: usize = 0;
    while i < edges.len()
        invariant
            i <= edges@.len(),
            views(out@) == covered_pairs(exc@, views(edges@).take(i as int)),
        decreases edges@.len() - i,
    {
        let e = &edges[i];
        assert(views(edges@)[i as int] == e@);
        assert(views(edges@).take(i + 1).drop_last() =~= views(edges@).take(i as int));
        let from_ctx = file_to_context(&e.from_file);
        let to_ctx = file_to_context(&e.to_file);
        if exception_matches(
            exc,
            &from_ctx,
            &to_ctx,
            &e.from_role,
            &e.to_role,
            &e.from_stable_id,
            &e.to_stable_id,
        ) {
            out.push((from_ctx, to_ctx));
        }
        i = i + 1;
    }
    assert(views(edges@).take(i as int) =~= views(edges@));
    out
}

/// How many of the five match fields of the exception are omitted.
pub open spec fn wildcards(exc: ViolationExceptionView) -> int {
    (if exc.from_context is None { 1int } else { 0 }) + (if exc.to_context is None { 1int } else { 0 })
        + (if exc.from_role is None { 1int } else { 0 }) + (if exc.to_role is None { 1int } else { 0 })
        + (if exc.stable_id is None { 1int } else { 0 })
}

fn one_if(b: bool) -> (n: usize)
    ensures
        n == if b { 1int } else { 0int },
{
    if b {
        1
    } else {
        0
    }
}

/// The findings with those on the exception at `n`: that its stable id names no symbol,
/// that it covers no edge, or that it is broad. An exception is broad where it covers at
/// least `threshold` edges and omits at least two match fields.
pub open spec fn on_exception(
    found: Seq<FindingView>,
    exceptions: Seq<ViolationExceptionView>,
    n: int,
    repo: LintRepoView,
    threshold: int,
) -> Seq<FindingView> {
    let exc = exceptions[n];
    let label = "exception #"@ + dec((n + 1) as nat);
    let found = match exc.stable_id {
        Some(id) => if repo.stable_ids.contains(id) {
            found
        } else {
            found.push(
                finding(
                    "warning"@,
                    "dead_exception_stable_id"@,
                    label + " stable_id '"@ + id + "' does not match any symbol"@,
                ),
            )
        },
        None => found,
    };
    let pairs = covered_pairs(exc, repo.edges);
    let hits = pairs.len();
    let found = if hits == 0 {
        found.push(
            finding(
                "warning"@,
                "dead_exception_unused_rule"@,
                label + " is unused in current graph"@,
            ),
        )
    } else {
        found
    };
    if hits >= threshold && wildcards(exc) >= 2 {
        found.push(
            finding(
                "warning"@,
                "broad_exception_rule"@,
                label + " is broad (hits="@ + dec(hits) + ", contexts="@ + dec(
                    key_set::<(String, String)>(pairs).len(),
                ) + ")"@,
            ),
        )
    } else {
        found
    }
}

/// An exception that covers an edge, and whose stable id, if it has one, names a symbol, is not
/// stale: what is found on it is at most that it is broad.
pub proof fn used_exceptions_are_not_stale(
    found: Seq<FindingView>,
    exceptions: Seq<ViolationExceptionView>,
    n: int,
    repo: LintRepoView,
    threshold: int,
)
    requires
        0 <= n < exceptions.len(),
        covered_pairs(exceptions[n], repo.edges).len() > 0,
        exceptions[n].stable_id matches Some(id) ==> repo.stable_ids.contains(id),
    ensures
        tally(Tally::Stale, on_exception(found, exceptions, n, repo, threshold)) == tally(
            Tally::Stale,
            found,
        ),
{
    let after = on_exception(found, exceptions, n, repo, threshold);
    if after.len() > found.len() {
        assert(after.drop_last() =~= found);
        reveal_strlit("broad_exception_rule");
        reveal_strlit("dead_exception_");
        assert(!begins_with(after.last().code, "dead_exception_"@)) by {
            if begins_with(after.last().code, "dead_exception_"@) {
                assert(after.last().code.take(15)[0] == "dead_exception_"@[0]);
            }
        }
    }
}

/// The findings with those on the first `n` exceptions.
pub open spec fn on_exceptions(
    found: Seq<FindingView>,
    exceptions: Seq<ViolationExceptionView>,
    n: int,
    repo: LintRepoView,
    threshold: int,
) -> Seq<FindingView>
    decreases n,
{
    if n <= 0 {
        found
    } else {
        on_exception(
            on_exceptions(found, exceptions, n - 1, repo, threshold),
            exceptions,
            n - 1,
            repo,
            threshold,
        )
    }
}

/// Adds the findings on suppression exceptions: unknown stable ids, unused and broad ones.
pub fn lint_exceptions(
    exceptions: &Vec<ViolationException>,
    repo: &LintRepo,
    broad_threshold: usize,
    findings: &mut Vec<Finding>,
)
    ensures
        views(final(findings)@) == on_exceptions(
            views(old(findings)@),
            views(exceptions@),
            exceptions@.len() as int,
            repo@,
            broad_threshold as int,
        ),
{
    let ghost start = views(findings@);
    let mut n: usize = 0;
    while n < exceptions.len()
        invariant
            n <= exceptions@.len(),
            views(findings@) == on_exceptions(
                start,
                views(exceptions@),
                n as int,
                repo@,
                broad_threshold as int,
            ),
        decreases exceptions@.len() - n,
    {
        let exc = &exceptions[n];
        assert(views(exceptions@)[n as int] == exc@);
        let label = crate::text::concat2("exception #", &usize_text(n + 1));
        if let Some(id) = &exc.stable_id {
            if !list_has(&repo.stable_ids, id) {
                let mut m = concat3(&label, " stable_id '", id);
                m.append("' does not match any symbol");
                note(findings, "warning", "dead_exception_stable_id", m);
            }
        }
        let pairs = collect_covered(exc, &repo.edges);
        let hits: usize = pairs.len();
        if hits == 0 {
            note(
                findings,
                "warning",
                "dead_exception_unused_rule",
                crate::text::concat2(&label, " is unused in current graph"),
            );
        }
        let wild: usize = one_if(exc.from_context.is_none()) + one_if(exc.to_context.is_none())
            + one_if(exc.from_role.is_none()) + one_if(exc.to_role.is_none()) + one_if(
            exc.stable_id.is_none(),
        );
        if hits >= broad_threshold && wild >= 2 {
            let contexts = distinct_keys(&pairs);
            let mut m = concat3(&label, " is broad (hits=", &usize_text(hits));
            m.append(", contexts=");
            m.append(&usize_text(contexts.len()));
            m.append(")");
            note(findings, "warning", "broad_exception_rule", m);
        }
        n = n + 1;
    }
}

/// Some file of the list is in the context.
pub open spec fn context_known(files: Seq<Seq<char>>, ctx: Seq<char>) -> bool {
    exists|i: int| 0 <= i < files.len() && context_of(#[trigger] files[i]) == ctx
}

fn has_context(files: &Vec<String>, ctx: &str) -> (r: bool)
    ensures
        r == context_known(views(files@), ctx@),
{
    let mut i: usize = 0;
    while i < files.len()
        invariant
            i <= files@.len(),
            forall|k: int| 0 <= k < i ==> context_of(#[trigger] views(files@)[k]) != ctx@,
        decreases files@.len() - i,
    {
        assert(views(files@)[i as int] == files@[i as int]@);
        let c = file_to_context(&files[i]);
        if str_eq(&c, ctx) {
            return true;
        }
        i = i + 1;
    }
    false
}

/// The findings with those on context rules, of the first `n`, that name a context which no
/// file is in. There are none where there are no files.
pub open spec fn on_dead_contexts(
    found: Seq<FindingView>,
    rules: Seq<ViolationRuleView>,
    n: int,
    files: Seq<Seq<char>>,
) -> Seq<FindingView>
    decreases n,
{
    if n <= 0 {
        found
    } else {
        let found = on_dead_contexts(found, rules, n - 1, files);
        let rule = rules[n - 1];
        if files.len() > 0 && (!context_known(files, rule.from_context) || !context_known(
            files,
            rule.to_context,
        )) {
            found.push(
                finding(
                    "warning"@,
                    "dead_context_rule_no_match"@,
                    "context rule "@ + rule.from_context + " -> "@ + rule.to_context
                        + " has no matching contexts in current graph"@,
                ),
            )
        } else {
            found
        }
    }
}

/// Some crate is assigned the layer, which is not `?`.
pub open spec fn layer_assigned(layers: Seq<(Seq<char>, Seq<char>)>, layer: Seq<char>) -> bool {
    layer != "?"@ && exists|i: int| 0 <= i < layers.len() && (#[trigger] layers[i]).1 == layer
}

/// Some crate is assigned a layer.
pub open spec fn any_assigned(layers: Seq<(Seq<char>, Seq<char>)>) -> bool {
    exists|i: int| 0 <= i < layers.len() && (#[trigger] layers[i]).1 != "?"@
}

fn has_layer(layers: &Layers, layer: &str) -> (r: bool)
    ensures
        r == layer_assigned(layers@, layer@),
{
    if str_eq(layer, "?") {
        return false;
    }
    let mut i: usize = 0;
    while i < layers.len()
        invariant
            layer@ != "?"@,
            i <= layers@.len(),
            forall|k: int| 0 <= k < i ==> (#[trigger] layers@[k]).1 != layer@,
        decreases layers@.len() - i,
    {
        if str_eq(layers.layer(i), layer) {
            return true;
        }
        i = i + 1;
    }
    false
}

fn has_assigned(layers: &Layers) -> (r: bool)
    ensures
        r == any_assigned(layers@),
{
    let mut i: usize = 0;
    while i < layers.len()
        invariant
            i <= layers@.len(),
            forall|k: int| 0 <= k < i ==> (#[trigger] layers@[k]).1 == "?"@,
        decreases layers@.len() - i,
    {
        if !str_eq(layers.layer(i), "?") {
            return true;
        }
        i = i + 1;
    }
    false
}

/// The findings with those on layer rules, of the first `n`, that name a layer which no
/// crate is assigned. There are none where no crate is assigned a layer.
pub open spec fn on_dead_layers(
    found: Seq<FindingView>,
    ws: WorkspaceConfigView,
    n: int,
) -> Seq<FindingView>
    decreases n,
{
    if n <= 0 {
        found
    } else {
        let found = on_dead_layers(found, ws, n - 1);
        let rule = ws.violations[n - 1];
        if any_assigned(ws.layers) && (!layer_assigned(ws.layers, rule.from_layer)
            || !layer_assigned(ws.layers, rule.to_layer)) {
            found.push(
                finding(
                    "warning"@,
                    "dead_workspace_rule_no_layer"@,
                    "workspace layer rule "@ + rule.from_layer + " -> "@ + rule.to_layer
                        + " has no matching assigned layers"@,
                ),
            )
        } else {
            found
        }
    }
}

/// The findings with those on the first `n` crates that have no layer yet.
pub open spec fn on_unassigned(
    found: Seq<FindingView>,
    layers: Seq<(Seq<char>, Seq<char>)>,
    n: int,
) -> Seq<FindingView>
    decreases n,
{
    if n <= 0 {
        found
    } else {
        let found = on_unassigned(found, layers, n - 1);
        if layers[n - 1].1 == "?"@ {
            found.push(
                finding(
                    "warning"@,
                    "dead_workspace_unassigned_layer"@,
                    "crate '"@ + layers[n - 1].0 + "' has unresolved workspace layer '?'"@,
                ),
            )
        } else {
            found
        }
    }
}

/// The findings with those on rules that match nothing in the repository.
pub open spec fn on_dead_rules(
    found: Seq<FindingView>,
    p: EffectivePolicyView,
    files: Seq<Seq<char>>,
) -> Seq<FindingView> {
    let found = on_dead_contexts(found, p.violations, p.violations.len() as int, files);
    match p.workspace {
        Some(ws) => on_unassigned(
            on_dead_layers(found, ws, ws.violations.len() as int),
            ws.layers,
            ws.layers.len() as int,
        ),
        None => found,
    }
}

/// Adds the findings on rules that match nothing in the repository.
pub fn lint_dead_rules_against_repo(
    effective: &EffectivePolicy,
    repo: &LintRepo,
    findings: &mut Vec<Finding>,
)
    ensures
        views(final(findings)@) == on_dead_rules(
            views(old(findings)@),
            effective@,
            repo@.files,
        ),
{
    let ghost start = views(findings@);
    let files = &repo.files;
    let rules = &effective.violations;
    let mut n: usize = 0;
    while n < rules.len()
        invariant
            n <= rules@.len(),
            views(findings@) == on_dead_contexts(start, views(rules@), n as int, views(files@)),
        decreases rules@.len() - n,
    {
        let rule = &rules[n];
        assert(views(rules@)[n as int] == rule@);
        if files.len() > 0 && (!has_context(files, &rule.from_context) || !has_context(
            files,
            &rule.to_context,
        )) {
            let mut m = concat3("context rule ", &rule.from_context, " -> ");
            m.append(&rule.to_context);
            m.append(" has no matching contexts in current graph");
            note(findings, "warning", "dead_context_rule_no_match", m);
        }
        n = n + 1;
    }
    if let Some(ws) = &effective.workspace {
        let ghost start = views(findings@);
        let mut n: usize = 0;
        let any = has_assigned(&ws.layers);
        while n < ws.violations.len()
            invariant
                n <= ws.violations@.len(),
                any == any_assigned(ws@.layers),
                views(findings@) == on_dead_layers(start, ws@, n as int),
            decreases ws.violations@.len() - n,
        {
            let rule = &ws.violations[n];
            assert(views(ws.violations@)[n as int] == rule@);
            if any && (!has_layer(&ws.layers, &rule.from_layer) || !has_layer(
                &ws.layers,
                &rule.to_layer,
            )) {
                let mut m = concat3("workspace layer rule ", &rule.from_layer, " -> ");
                m.append(&rule.to_layer);
                m.append(" has no matching assigned layers");
                note(findings, "warning", "dead_workspace_rule_no_layer", m);
            }
            n = n + 1;
        }
        let ghost start = views(findings@);
        let mut n: usize = 0;
        while n < ws.layers.len()
            invariant
                n <= ws.layers@.len(),
                views(findings@) == on_unassigned(start, ws@.layers, n as int),
            decreases ws.layers@.len() - n,
        {
            if str_eq(ws.layers.layer(n), "?") {
                note(
                    findings,
                    "warning",
                    "dead_workspace_unassigned_layer",
                    concat3("crate '", ws.layers.name(n), "' has unresolved workspace layer '?'"),
                );
            }
            n = n + 1;
        }
    }
}

/// What findings are counted by.
#[derive(Clone, Copy, PartialEq, Eq, Structural, Debug)]
pub enum Tally {
    Warnings,
    Errors,
    Conflicts,
    Dead,
    Stale,
    Broad,
}

/// The finding counts.
pub open spec fn counts_in(t: Tally, f: FindingView) -> bool {
    match t {
        Tally::Warnings => f.severity != "error"@,
        Tally::Errors => f.severity == "error"@,
        Tally::Conflicts => begins_with(f.code, "conflict_"@),
        Tally::Dead => begins_with(f.code, "dead_"@),
        Tally::Stale => begins_with(f.code, "dead_exception_"@),
        Tally::Broad => f.code == "broad_exception_rule"@,
    }
}

/// How many of the findings count.
pub open spec fn tally(t: Tally, found: Seq<FindingView>) -> nat
    decreases found.len(),
{
    if found.len() == 0 {
        0
    } else {
        tally(t, found.drop_last()) + if counts_in(t, found.last()) {
            1nat
        } else {
            0nat
        }
    }
}

fn counted(t: Tally, f: &Finding) -> (r: bool)
    ensures
        r == counts_in(t, f@),
{
    match t {
        Tally::Warnings => !str_eq(&f.severity, "error"),
        Tally::Errors => str_eq(&f.severity, "error"),
        Tally::Conflicts => starts_with(&f.code, "conflict_"),
        Tally::Dead => starts_with(&f.code, "dead_"),
        Tally::Stale => starts_with(&f.code, "dead_exception_"),
        Tally::Broad => str_eq(&f.code, "broad_exception_rule"),
    }
}

fn tally_of(t: Tally, findings: &Vec<Finding>) -> (n: usize)
    ensures
        n == tally(t, views(findings@)),
{
    let mut n: usize = 0;
    let mut i: usize = 0;
    while i < findings.len()
        invariant
            n <= i <= findings@.len(),
            n == tally(t, views(findings@).take(i as int)),
        decreases findings@.len() - i,
    {
        assert(views(findings@)[i as int] == findings@[i as int]@);
        assert(views(findings@).take(i + 1).drop_last() =~= views(findings@).take(i as int));
        if counted(t, &findings[i]) {
            n = n + 1;
        }
        i = i + 1;
    }
    assert(views(findings@).take(i as int) =~= views(findings@));
    n
}

/// The findings on stale exceptions alone.
pub open spec fn stale_findings(found: Seq<FindingView>) -> Seq<FindingView>
    decreases found.len(),
{
    if found.len() == 0 {
        Seq::empty()
    } else {
        let rest = stale_findings(found.drop_last());
        if counts_in(Tally::Stale, found.last()) {
            rest.push(found.last())
        } else {
            rest
        }
    }
}

/// The findings on stale exceptions alone are those on stale exceptions, and all of them: they
/// number what the whole report counts as stale.
pub proof fn stale_findings_are_all_stale(found: Seq<FindingView>)
    ensures
        stale_findings(found).len() == tally(Tally::Stale, found),
        forall|i: int|
            0 <= i < stale_findings(found).len() ==> counts_in(
                Tally::Stale,
                #[trigger] stale_findings(found)[i],
            ),
    decreases found.len(),
{
    if found.len() > 0 {
        stale_findings_are_all_stale(found.drop_last());
    }
}

fn keep_stale(findings: Vec<Finding>) -> (r: Vec<Finding>)
    ensures
        views(r@) == stale_findings(views(findings@)),
{
    let ghost all = views(findings@);
    let mut out: Vec<Finding> = Vec::new();
    for f in it: findings
        invariant
            views(it.seq()) == all,
            views(out@) == stale_findings(all.take(it.index() as int)),
    {
        let ghost n = it.index() as int;
        assert(views(it.seq())[n] == f@);
        assert(all.take(n + 1).drop_last() =~= all.take(n));
        if counted(Tally::Stale, &f) {
            out.push(f);
        }
    }
    assert(all.take(all.len() as int) =~= all);
    out
}

/// The findings on a policy. Exceptions and dead rules are checked where the repository has
/// a code graph.
pub open spec fn policy_findings(
    p: EffectivePolicyView,
    repo: Option<LintRepoView>,
    broad_threshold: int,
) -> Seq<FindingView> {
    let found = on_workspace(
        on_visibility_rules(
            on_context_rules(Seq::empty(), p.violations, p.violations.len() as int),
            p.visibility_rules,
            p.visibility_rules.len() as int,
        ),
        p.workspace,
    );
    match repo {
        Some(r) => on_dead_rules(
            on_exceptions(found, p.exceptions, p.exceptions.len() as int, r, broad_threshold),
            p,
            r.files,
        ),
        None => found,
    }
}

/// The findings that are shown: all of them, or those on stale suppressions.
pub open spec fn shown_findings(found: Seq<FindingView>, stale_only: bool) -> Seq<FindingView> {
    if stale_only {
        stale_findings(found)
    } else {
        found
    }
}

/// The document of the first `n` findings.
pub open spec fn finding_nodes(ev: Seq<Node>, found: Seq<FindingView>, n: int) -> Seq<Node>
    decreases n,
{
    if n <= 0 {
        ev
    } else {
        let f = found[n - 1];
        with_empty(
            finding_nodes(ev, found, n - 1),
            "finding"@,
            no_attrs().push(("severity"@, f.severity)).push(("code"@, f.code)).push(
                ("message"@, f.message),
            ),
        )
    }
}

/// The report on the findings, where it takes so many tokens.
pub open spec fn lint_nodes(
    pack: Option<Seq<char>>,
    found: Seq<FindingView>,
    tokens: Seq<char>,
) -> Seq<Node> {
    let ev = with_open(
        Seq::empty(),
        "policy_lint"@,
        no_attrs()
            .push(("pack"@, or_text(pack, "none"@)))
            .push(("findings"@, dec(found.len())))
            .push(("warnings"@, dec(tally(Tally::Warnings, found))))
            .push(("errors"@, dec(tally(Tally::Errors, found))))
            .push(("conflicts"@, dec(tally(Tally::Conflicts, found))))
            .push(("dead_rules"@, dec(tally(Tally::Dead, found))))
            .push(("stale_exceptions"@, dec(tally(Tally::Stale, found))))
            .push(("broad_exceptions"@, dec(tally(Tally::Broad, found))))
            .push(("tokens"@, tokens)),
    );
    with_close(finding_nodes(ev, found, found.len() as int), "policy_lint"@)
}

/// The report on the findings, with the tokens that it takes.
pub open spec fn lint_document(pack: Option<Seq<char>>, found: Seq<FindingView>) -> Seq<Node> {
    lint_nodes(pack, found, tokens_of(lint_nodes(pack, found, ""@)))
}

fn write_lint(pack: &Option<String>, findings: &Vec<Finding>, tokens: &str) -> (document: String)
    ensures
        document@ == xml_text(lint_nodes(pack.deep_view(), views(findings@), tokens@)),
{
    let ghost found = views(findings@);
    let name = text_or(pack, "none");
    let mut w = new_writer();
    open_attrs(
        &mut w,
        "policy_lint",
        &Attrs::new().with("pack", &name).with("findings", &usize_text(findings.len())).with(
            "warnings",
            &usize_text(tally_of(Tally::Warnings, findings)),
        ).with("errors", &usize_text(tally_of(Tally::Errors, findings))).with(
            "conflicts",
            &usize_text(tally_of(Tally::Conflicts, findings)),
        ).with("dead_rules", &usize_text(tally_of(Tally::Dead, findings))).with(
            "stale_exceptions",
            &usize_text(tally_of(Tally::Stale, findings)),
        ).with("broad_exceptions", &usize_text(tally_of(Tally::Broad, findings))).with(
            "tokens",
            tokens,
        ),
    );
    let ghost ev = xml_events(w);
    let mut i: usize = 0;
    while i < findings.len()
        invariant
            i <= findings@.len(),
            found == views(findings@),
            xml_events(w) == finding_nodes(ev, found, i as int),
        decreases findings@.len() - i,
    {
        let f = &findings[i];
        assert(found[i as int] == f@);
        empty(
            &mut w,
            "finding",
            &Attrs::new().with("severity", &f.severity).with("code", &f.code).with(
                "message",
                &f.message,
            ),
        );
        i = i + 1;
    }
    close(&mut w, "policy_lint");
    finish(w)
}

/// Why the check fails on the findings, if it does. All of them count, whichever are shown.
pub open spec fn lint_failure(found: Seq<FindingView>, opts: LintOptions) -> Option<Seq<char>> {
    if opts.fail_on_stale && tally(Tally::Stale, found) > 0 {
        Some("stale suppressions detected: "@ + dec(tally(Tally::Stale, found)))
    } else if opts.fail_on_broad && tally(Tally::Broad, found) > 0 {
        Some("overbroad suppressions detected: "@ + dec(tally(Tally::Broad, found)))
    } else {
        None
    }
}

/// What is shown does not decide whether the checks fail: with the same demands they fail or
/// pass alike, and overbroad suppressions fail them where that is asked for and no stale one
/// does.
pub proof fn shown_findings_do_not_decide(
    found: Seq<FindingView>,
    opts: LintOptions,
    other: LintOptions,
)
    requires
        opts.fail_on_stale == other.fail_on_stale,
        opts.fail_on_broad == other.fail_on_broad,
    ensures
        lint_failure(found, opts) == lint_failure(found, other),
        opts.fail_on_broad && tally(Tally::Broad, found) > 0 ==> lint_failure(found, opts) is Some,
{
}

/// The report of the policy checks, and why they fail, if they do.
pub struct LintReport {
    pub document: String,
    pub failure: Option<String>,
}

/// Check the policy of a configuration, against the code graph where there is one.
pub fn lint(cfg: &Config, repo: &Option<LintRepo>, opts: LintOptions) -> (r: Result<
    LintReport,
    String,
>)
    ensures
        match r {
            Ok(report) => policy_of(cfg@) matches Some(p) && ({
                let found = policy_findings(p, repo.deep_view(), opts.broad_threshold as int);
                &&& report.document@ == xml_text(
                    lint_document(p.pack, shown_findings(found, opts.stale_only)),
                )
                &&& report.failure.deep_view() == lint_failure(found, opts)
            }),
            Err(e) => policy_of(cfg@) is None && e@ == "unknown policy pack '"@ + selected_pack(
                cfg@,
            )->0 + "'"@,
        },
{
    let effective = match effective_policy(cfg) {
        Ok(p) => p,
        Err(e) => {
            return Err(e);
        },
    };
    let mut findings: Vec<Finding> = Vec::new();
    lint_context_rules(&effective.violations, &mut findings);
    lint_visibility_rules(&effective.visibility_rules, &mut findings);
    lint_workspace_rules(&effective.workspace, &mut findings);
    if let Some(repo) = repo {
        lint_exceptions(&effective.exceptions, repo, opts.broad_threshold, &mut findings);
        lint_dead_rules_against_repo(&effective, repo, &mut findings);
    }
    let all_stale: usize = tally_of(Tally::Stale, &findings);
    let all_broad: usize = tally_of(Tally::Broad, &findings);
    let findings = if opts.stale_only {
        keep_stale(findings)
    } else {
        findings
    };
    let uncounted = write_lint(&effective.pack, &findings, "");
    let document = write_lint(&effective.pack, &findings, &count_tokens(&uncounted));
    let failure = if opts.fail_on_stale && all_stale > 0 {
        Some(crate::text::concat2("stale suppressions detected: ", &usize_text(all_stale)))
    } else if opts.fail_on_broad && all_broad > 0 {
        Some(crate::text::concat2("overbroad suppressions detected: ", &usize_text(all_broad)))
    } else {
        None
    };
    Ok(LintReport { document, failure })
}

/// Why a pack cannot be selected: it does not exist, or another one is selected already and
/// it is not to be replaced.
pub open spec fn pack_refusal(pack: Seq<char>, current: Option<Seq<char>>, force: bool) -> Option<
    Seq<char>,
> {
    if pack != PACK_DDD@ && pack != PACK_CQRS@ {
        Some(
            "unknown pack '"@ + pack + "'; supported: "@ + joined(
                seq![PACK_DDD@, PACK_CQRS@],
                ", "@,
            ),
        )
    } else {
        match current {
            Some(set) => if !force && set != pack {
                Some("policy pack already set to '"@ + set + "'; use --force to replace"@)
            } else {
                None
            },
            None => None,
        }
    }
}

/// A pack that exists can be selected again, and can replace any other where that is forced.
pub proof fn selecting_again_is_allowed(pack: Seq<char>, other: Option<Seq<char>>)
    requires
        pack == PACK_DDD@ || pack == PACK_CQRS@,
    ensures
        pack_refusal(pack, Some(pack), false) is None,
        pack_refusal(pack, other, true) is None,
{
}

/// Decide whether `pack` may be selected where `current` is selected so far.
pub fn check_pack(pack: &str, current: &Option<String>, force: bool) -> (r: Result<(), String>)
    ensures
        match r {
            Ok(_) => pack_refusal(pack@, current.deep_view(), force) is None,
            Err(e) => pack_refusal(pack@, current.deep_view(), force) == Some(e@),
        },
{
    if !str_eq(pack, PACK_DDD) && !str_eq(pack, PACK_CQRS) {
        let packs = supported_packs();
        let mut m = concat3("unknown pack '", pack, "'; supported: ");
        m.append(&join(&packs, ", "));
        return Err(m);
    }
    if let Some(set) = current {
        if !force && !str_eq(set, pack) {
            return Err(
                concat3("policy pack already set to '", set, "'; use --force to replace"),
            );
        }
    }
    Ok(())
}

/// The text under a key, if a text stands there.
pub open spec fn text_under(entries: Map<Seq<char>, EntryView>, key: Seq<char>) -> Option<Seq<char>> {
    if entries.contains_key(key) {
        match entries[key] {
            EntryView::Text(t) => Some(t),
            _ => None,
        }
    } else {
        None
    }
}

/// The table under a key, an empty one where nothing stands there; none where something else
/// does.
pub open spec fn table_under(entries: Map<Seq<char>, EntryView>, key: Seq<char>) -> Option<
    Map<Seq<char>, EntryView>,
> {
    if entries.contains_key(key) {
        match entries[key] {
            EntryView::Table(t) => Some(t),
            _ => None,
        }
    } else {
        Some(no_entries())
    }
}

/// A configuration with the pack selected in it, or why it cannot be.
pub open spec fn with_pack(
    entries: Map<Seq<char>, EntryView>,
    pack: Seq<char>,
    force: bool,
) -> Result<Map<Seq<char>, EntryView>, Seq<char>> {
    match table_under(entries, "policy"@) {
        Some(section) => match pack_refusal(pack, text_under(section, "pack"@), force) {
            Some(why) => Err(why),
            None => Ok(
                entries.insert(
                    "policy"@,
                    EntryView::Table(section.insert("pack"@, EntryView::Text(pack))),
                ),
            ),
        },
        None => Err("[policy] must be a TOML table"@),
    }
}

/// Selects the pack in a configuration.
pub fn select_pack(table: toml::Table, pack: &str, force: bool) -> (r: Result<toml::Table, String>)
    ensures
        match with_pack(table_entries(table), pack@, force) {
            Ok(entries) => r matches Ok(t) && table_entries(t) == entries,
            Err(why) => r matches Err(e) && e@ == why,
        },
{
    let mut section = match entry_at(&table, "policy") {
        None => new_table(),
        Some(Entry::Table(t)) => t,
        Some(_) => {
            return Err("[policy] must be a TOML table".to_owned());
        },
    };
    let current = match entry_at(&section, "pack") {
        Some(Entry::Text(t)) => Some(t),
        _ => None,
    };
    if let Err(why) = check_pack(pack, &current, force) {
        return Err(why);
    }
    put(&mut section, "pack", Entry::Text(pack.to_owned()));
    let mut out = table;
    put(&mut out, "policy", Entry::Table(section));
    Ok(out)
}

/// The text of a configuration with the pack selected in it, or why there is none. `path` is
/// the file's name in messages.
pub open spec fn pack_config(
    pack: Seq<char>,
    config: Option<Seq<char>>,
    path: Seq<char>,
    force: bool,
) -> Result<Seq<char>, Seq<char>> {
    match pack_refusal(pack, None, force) {
        Some(why) => Err(why),
        None => {
            let read = match config {
                Some(text) => toml_text(text),
                None => Ok(no_entries()),
            };
            match read {
                Ok(entries) => match with_pack(entries, pack, force) {
                    Ok(selected) => toml_rendering(selected),
                    Err(why) => Err(why),
                },
                Err(why) => Err("failed to parse "@ + path + ": "@ + why),
            }
        },
    }
}

/// Selects a pack in the text of a configuration, an empty one where there is none yet.
pub fn init_pack(pack: &str, config: &Option<String>, path: &str, force: bool) -> (r: Result<
    String,
    String,
>)
    ensures
        match pack_config(pack@, config.deep_view(), path@, force) {
            Ok(text) => r matches Ok(t) && t@ == text,
            Err(why) => r matches Err(e) && e@ == why,
        },
{
    if let Err(why) = check_pack(pack, &None, force) {
        return Err(why);
    }
    let table = match config {
        Some(text) => match parse_table(text) {
            Ok(t) => t,
            Err(why) => {
                let mut m = concat3("failed to parse ", path, ": ");
                m.append(&why);
                return Err(m);
            },
        },
        None => new_table(),
    };
    match select_pack(table, pack, force) {
        Ok(t) => render(&t),
        Err(why) => Err(why),
    }
}

/// Selecting a pack changes nothing else: every other setting stays as it is, and so does what
/// else the policy section says.
pub proof fn other_settings_stay(
    entries: Map<Seq<char>, EntryView>,
    pack: Seq<char>,
    force: bool,
    key: Seq<char>,
)
    requires
        with_pack(entries, pack, force) is Ok,
    ensures
        ({
            let after = with_pack(entries, pack, force)->Ok_0;
            let before = table_under(entries, "policy"@)->0;
            let section = table_under(after, "policy"@)->0;
            &&& key != "policy"@ ==> after.contains_key(key) == entries.contains_key(key)
                && after[key] == entries[key]
            &&& text_under(section, "pack"@) == Some(pack)
            &&& key != "pack"@ ==> section.contains_key(key) == before.contains_key(key)
                && section[key] == before[key]
        }),
{
}

/// Once a pack is selected, selecting it again changes nothing.
pub proof fn selecting_settles(entries: Map<Seq<char>, EntryView>, pack: Seq<char>, force: bool)
    requires
        with_pack(entries, pack, force) is Ok,
    ensures
        ({
            let after = with_pack(entries, pack, force)->Ok_0;
            with_pack(after, pack, false) matches Ok(again) && again == after
        }),
{
    let after = with_pack(entries, pack, force)->Ok_0;
    let section = table_under(after, "policy"@)->0;
    assert(section.insert("pack"@, EntryView::Text(pack)) =~= section);
    assert(after.insert("policy"@, EntryView::Table(section)) =~= after);
}

// ---------------------------------------------------------------------------
// What the checks find
// ---------------------------------------------------------------------------

/// What is found on context rules is what is found on each of them.
pub proof fn every_context_rule_is_checked(found: Seq<FindingView>, rules: Seq<ViolationRuleView>, n: int, f: FindingView)
    requires
        0 <= n <= rules.len(),
    ensures
        on_context_rules(found, rules, n).contains(f) <==> found.contains(f) || exists|k: int|
            0 <= k < n && #[trigger] on_context_rule(Seq::<FindingView>::empty(), rules, k).contains(f),
    decreases n,
{
    if n > 0 {
        every_context_rule_is_checked(found, rules, n - 1, f);
        let before = on_context_rules(found, rules, n - 1);
        let all = on_context_rules(found, rules, n);
        let own = on_context_rule(Seq::<FindingView>::empty(), rules, n - 1);
        assert(all =~= before + own);
        if before.contains(f) {
            let i = choose|i: int| 0 <= i < before.len() && before[i] == f;
            assert(all[i] == f);
        }
        if own.contains(f) {
            let i = choose|i: int| 0 <= i < own.len() && own[i] == f;
            assert(all[before.len() + i] == f);
        }
        if all.contains(f) && !before.contains(f) {
            let i = choose|i: int| 0 <= i < all.len() && all[i] == f;
            if i < before.len() {
                assert(before[i] == f);
            } else {
                assert(own[i - before.len()] == f);
            }
            assert(own.contains(f));
        }
    }
}

/// What is found on visibility rules is what is found on each of them.
pub proof fn every_visibility_rule_is_checked(found: Seq<FindingView>, rules: Seq<VisibilityRuleView>, n: int, f: FindingView)
    requires
        0 <= n <= rules.len(),
    ensures
        on_visibility_rules(found, rules, n).contains(f) <==> found.contains(f) || exists|k: int|
            0 <= k < n && #[trigger] on_visibility_rule(Seq::<FindingView>::empty(), rules, k).contains(f),
    decreases n,
{
    if n > 0 {
        every_visibility_rule_is_checked(found, rules, n - 1, f);
        let before = on_visibility_rules(found, rules, n - 1);
        let all = on_visibility_rules(found, rules, n);
        let own = on_visibility_rule(Seq::<FindingView>::empty(), rules, n - 1);
        assert(all =~= before + own);
        if before.contains(f) {
            let i = choose|i: int| 0 <= i < before.len() && before[i] == f;
            assert(all[i] == f);
        }
        if own.contains(f) {
            let i = choose|i: int| 0 <= i < own.len() && own[i] == f;
            assert(all[before.len() + i] == f);
        }
        if all.contains(f) && !before.contains(f) {
            let i = choose|i: int| 0 <= i < all.len() && all[i] == f;
            if i < before.len() {
                assert(before[i] == f);
            } else {
                assert(own[i - before.len()] == f);
            }
            assert(own.contains(f));
        }
    }
}

/// What is found on layer rules is what is found on each of them.
pub proof fn every_layer_rule_is_checked(found: Seq<FindingView>, rules: Seq<WorkspaceViolationRuleView>, n: int, f: FindingView)
    requires
        0 <= n <= rules.len(),
    ensures
        on_workspace_rules(found, rules, n).contains(f) <==> found.contains(f) || exists|k: int|
            0 <= k < n && #[trigger] on_workspace_rule(Seq::<FindingView>::empty(), rules, k).contains(f),
    decreases n,
{
    if n > 0 {
        every_layer_rule_is_checked(found, rules, n - 1, f);
        let before = on_workspace_rules(found, rules, n - 1);
        let all = on_workspace_rules(found, rules, n);
        let own = on_workspace_rule(Seq::<FindingView>::empty(), rules, n - 1);
        assert(all =~= before + own);
        if before.contains(f) {
            let i = choose|i: int| 0 <= i < before.len() && before[i] == f;
            assert(all[i] == f);
        }
        if own.contains(f) {
            let i = choose|i: int| 0 <= i < own.len() && own[i] == f;
            assert(all[before.len() + i] == f);
        }
        if all.contains(f) && !before.contains(f) {
            let i = choose|i: int| 0 <= i < all.len() && all[i] == f;
            if i < before.len() {
                assert(before[i] == f);
            } else {
                assert(own[i - before.len()] == f);
            }
            assert(own.contains(f));
        }
    }
}

/// What is found on exceptions is what is found on each of them.
pub proof fn every_exception_is_checked(found: Seq<FindingView>, exceptions: Seq<ViolationExceptionView>, repo: LintRepoView, threshold: int, n: int, f: FindingView)
    requires
        0 <= n <= exceptions.len(),
    ensures
        on_exceptions(found, exceptions, n, repo, threshold).contains(f) <==> found.contains(f) || exists|k: int|
            0 <= k < n && #[trigger] on_exception(Seq::<FindingView>::empty(), exceptions, k, repo, threshold).contains(f),
    decreases n,
{
    if n > 0 {
        every_exception_is_checked(found, exceptions, repo, threshold, n - 1, f);
        let before = on_exceptions(found, exceptions, n - 1, repo, threshold);
        let all = on_exceptions(found, exceptions, n, repo, threshold);
        let own = on_exception(Seq::<FindingView>::empty(), exceptions, n - 1, repo, threshold);
        assert(all =~= before + own);
        if before.contains(f) {
            let i = choose|i: int| 0 <= i < before.len() && before[i] == f;
            assert(all[i] == f);
        }
        if own.contains(f) {
            let i = choose|i: int| 0 <= i < own.len() && own[i] == f;
            assert(all[before.len() + i] == f);
        }
        if all.contains(f) && !before.contains(f) {
            let i = choose|i: int| 0 <= i < all.len() && all[i] == f;
            if i < before.len() {
                assert(before[i] == f);
            } else {
                assert(own[i - before.len()] == f);
            }
            assert(own.contains(f));
        }
    }
}
proof fn same_contexts_is_first(rules: Seq<ViolationRuleView>, n: int, i: int)
    requires
        0 <= i <= n < rules.len(),
    ensures
        match same_contexts(rules, n, i) {
            Some(k) => i <= k < n && rules[k].from_context == rules[n].from_context
                && rules[k].to_context == rules[n].to_context && forall|j: int|
                i <= j < k ==> (#[trigger] rules[j]).from_context != rules[n].from_context
                    || rules[j].to_context != rules[n].to_context,
            None => forall|j: int|
                i <= j < n ==> (#[trigger] rules[j]).from_context != rules[n].from_context
                    || rules[j].to_context != rules[n].to_context,
        },
    decreases n - i,
{
    if i < n {
        same_contexts_is_first(rules, n, i + 1);
    }
}

/// A context rule from a context to itself has no effect. One on contexts that an earlier rule
/// is on is dead where it gives the same reason, and in conflict with that rule where it gives
/// another.
pub proof fn context_rules_are_checked(rules: Seq<ViolationRuleView>, n: int, k: int)
    requires
        0 <= k <= n < rules.len(),
        forall|j: int|
            0 <= j < k ==> (#[trigger] rules[j]).from_context != rules[n].from_context
                || rules[j].to_context != rules[n].to_context,
        k < n ==> rules[k].from_context == rules[n].from_context && rules[k].to_context
            == rules[n].to_context,
    ensures
        ({
            let found = on_context_rule(Seq::empty(), rules, n);
            let own = rules[n].from_context == rules[n].to_context;
            let alike = or_text(rules[k].reason, ""@) == or_text(rules[n].reason, ""@);
            &&& found.len() == (if own { 1int } else { 0 }) + (if k < n { 1int } else { 0 })
            &&& own ==> found[0].code == "dead_context_self_rule"@ && found[0].severity
                == "warning"@
            &&& k < n && alike ==> found.last().code == "dead_context_duplicate_rule"@
                && found.last().severity == "warning"@
            &&& k < n && !alike ==> found.last().code == "conflict_context_rule"@
                && found.last().severity == "error"@
        }),
{
    same_contexts_is_first(rules, n, 0);
    if let Some(i) = same_contexts(rules, n, 0) {
        if i < k {
            assert(rules[i].from_context != rules[n].from_context || rules[i].to_context
                != rules[n].to_context);
        } else if k < i {
            assert(rules[k].from_context != rules[n].from_context || rules[k].to_context
                != rules[n].to_context);
        }
    }
}

proof fn same_layer_is_first(rules: Seq<VisibilityRuleView>, n: int, i: int)
    requires
        0 <= i <= n < rules.len(),
    ensures
        match same_layer(rules, n, i) {
            Some(k) => i <= k < n && rules[k].layer == rules[n].layer && forall|j: int|
                i <= j < k ==> (#[trigger] rules[j]).layer != rules[n].layer,
            None => forall|j: int| i <= j < n ==> (#[trigger] rules[j]).layer != rules[n].layer,
        },
    decreases n - i,
{
    if i < n {
        same_layer_is_first(rules, n, i + 1);
    }
}

/// A visibility rule on a layer that an earlier one is on is dead where it allows the same, and
/// in conflict with it where it allows something else.
pub proof fn visibility_rules_are_checked(rules: Seq<VisibilityRuleView>, n: int, k: int)
    requires
        0 <= k <= n < rules.len(),
        forall|j: int| 0 <= j < k ==> (#[trigger] rules[j]).layer != rules[n].layer,
        k < n ==> rules[k].layer == rules[n].layer,
    ensures
        ({
            let found = on_visibility_rule(Seq::empty(), rules, n);
            let alike = rules[k].max_visibility == rules[n].max_visibility;
            &&& found.len() == (if k < n { 1int } else { 0 })
            &&& k < n && alike ==> found[0].code == "dead_visibility_duplicate_rule"@
                && found[0].severity == "warning"@
            &&& k < n && !alike ==> found[0].code == "conflict_visibility_rule"@
                && found[0].severity == "error"@
        }),
{
    same_layer_is_first(rules, n, 0);
    if let Some(i) = same_layer(rules, n, 0) {
        if i < k {
            assert(rules[i].layer != rules[n].layer);
        } else if k < i {
            assert(rules[k].layer != rules[n].layer);
        }
    }
}

proof fn same_layers_is_first(rules: Seq<WorkspaceViolationRuleView>, n: int, i: int)
    requires
        0 <= i <= n < rules.len(),
    ensures
        match same_layers(rules, n, i) {
            Some(k) => i <= k < n && rules[k].from_layer == rules[n].from_layer && rules[k].to_layer
                == rules[n].to_layer && forall|j: int|
                i <= j < k ==> (#[trigger] rules[j]).from_layer != rules[n].from_layer
                    || rules[j].to_layer != rules[n].to_layer,
            None => forall|j: int|
                i <= j < n ==> (#[trigger] rules[j]).from_layer != rules[n].from_layer
                    || rules[j].to_layer != rules[n].to_layer,
        },
    decreases n - i,
{
    if i < n {
        same_layers_is_first(rules, n, i + 1);
    }
}

/// A layer rule on layers that an earlier one is on is dead where it gives the same reason, and
/// in conflict with it where it gives another.
pub proof fn layer_rules_are_checked(rules: Seq<WorkspaceViolationRuleView>, n: int, k: int)
    requires
        0 <= k <= n < rules.len(),
        forall|j: int|
            0 <= j < k ==> (#[trigger] rules[j]).from_layer != rules[n].from_layer
                || rules[j].to_layer != rules[n].to_layer,
        k < n ==> rules[k].from_layer == rules[n].from_layer && rules[k].to_layer
            == rules[n].to_layer,
    ensures
        ({
            let found = on_workspace_rule(Seq::empty(), rules, n);
            let alike = or_text(rules[k].reason, ""@) == or_text(rules[n].reason, ""@);
            &&& found.len() == (if k < n { 1int } else { 0 })
            &&& k < n && alike ==> found[0].code == "dead_workspace_duplicate_rule"@
                && found[0].severity == "warning"@
            &&& k < n && !alike ==> found[0].code == "conflict_workspace_rule"@
                && found[0].severity == "error"@
        }),
{
    same_layers_is_first(rules, n, 0);
    if let Some(i) = same_layers(rules, n, 0) {
        if i < k {
            assert(rules[i].from_layer != rules[n].from_layer || rules[i].to_layer
                != rules[n].to_layer);
        } else if k < i {
            assert(rules[k].from_layer != rules[n].from_layer || rules[k].to_layer
                != rules[n].to_layer);
        }
    }
}

/// The edges that an exception is meant for.
pub open spec fn hits_of(exc: ViolationExceptionView, edges: Seq<LintEdgeView>) -> Seq<LintEdgeView> {
    edges.filter(
        |e: LintEdgeView|
            crate::arch::meant_for(
                exc,
                context_of(e.from_file),
                context_of(e.to_file),
                e.from_role,
                e.to_role,
                e.from_stable_id,
                e.to_stable_id,
            ),
    )
}

proof fn covered_edges_are_hits(exc: ViolationExceptionView, edges: Seq<LintEdgeView>)
    ensures
        covered_pairs(exc, edges).len() == hits_of(exc, edges).len(),
    decreases edges.len(),
{
    reveal(Seq::filter);
    if edges.len() > 0 {
        covered_edges_are_hits(exc, edges.drop_last());
    }
}

/// An exception is stale where the symbol that it names is not there, or it is meant for no
/// edge. It is overbroad where it is meant for as many edges as the threshold and leaves two of
/// its five fields open. Nothing else is found on it.
pub proof fn exceptions_are_checked(
    exceptions: Seq<ViolationExceptionView>,
    n: int,
    repo: LintRepoView,
    threshold: int,
)
    requires
        0 <= n < exceptions.len(),
    ensures
        ({
            let exc = exceptions[n];
            let found = on_exception(Seq::empty(), exceptions, n, repo, threshold);
            let hits = hits_of(exc, repo.edges).len();
            let gone = exc.stable_id is Some && !repo.stable_ids.contains(exc.stable_id->0);
            let open: int = (if exc.from_context is None { 1int } else { 0 }) + (if exc.to_context
                is None { 1int } else { 0 }) + (if exc.from_role is None { 1int } else { 0 }) + (
            if exc.to_role is None { 1int } else { 0 }) + (if exc.stable_id is None { 1int } else {
                0
            });
            let broad = hits >= threshold && open >= 2;
            &&& found.len() == (if gone { 1int } else { 0 }) + (if hits == 0 { 1int } else { 0 })
                + (if broad { 1int } else { 0 })
            &&& gone ==> found[0].code == "dead_exception_stable_id"@
            &&& hits == 0 ==> found[if gone { 1int } else { 0 }].code
                == "dead_exception_unused_rule"@
            &&& broad ==> found.last().code == "broad_exception_rule"@
            &&& forall|i: int| 0 <= i < found.len() ==> (#[trigger] found[i]).severity == "warning"@
        }),
{
    covered_edges_are_hits(exceptions[n], repo.edges);
}

/// A tally counts the findings of its kind: by how grave they are, or by what their code begins
/// with.
pub proof fn tallies_count(found: Seq<FindingView>)
    ensures
        tally(Tally::Errors, found) == found.filter(|f: FindingView| f.severity == "error"@).len(),
        tally(Tally::Warnings, found) == found.filter(
            |f: FindingView| f.severity != "error"@,
        ).len(),
        tally(Tally::Conflicts, found) == found.filter(
            |f: FindingView| begins_with(f.code, "conflict_"@),
        ).len(),
        tally(Tally::Dead, found) == found.filter(
            |f: FindingView| begins_with(f.code, "dead_"@),
        ).len(),
        tally(Tally::Stale, found) == found.filter(
            |f: FindingView| begins_with(f.code, "dead_exception_"@),
        ).len(),
        tally(Tally::Broad, found) == found.filter(
            |f: FindingView| f.code == "broad_exception_rule"@,
        ).len(),
        stale_findings(found) == found.filter(
            |f: FindingView| begins_with(f.code, "dead_exception_"@),
        ),
    decreases found.len(),
{
    reveal(Seq::filter);
    if found.len() > 0 {
        tallies_count(found.drop_last());
    }
}

/// The checks fail exactly where stale suppressions were found and must not be, or overbroad
/// ones were and must not be.
pub proof fn demands_decide_failure(found: Seq<FindingView>, opts: LintOptions)
    ensures
        lint_failure(found, opts) is Some <==> (opts.fail_on_stale && exists|i: int|
            0 <= i < found.len() && begins_with((#[trigger] found[i]).code, "dead_exception_"@))
            || (opts.fail_on_broad && exists|i: int|
            0 <= i < found.len() && (#[trigger] found[i]).code == "broad_exception_rule"@),
{
    some_are_counted(Tally::Stale, found);
    some_are_counted(Tally::Broad, found);
    if exists|i: int|
        0 <= i < found.len() && begins_with((#[trigger] found[i]).code, "dead_exception_"@) {
        let i = choose|i: int|
            0 <= i < found.len() && begins_with((#[trigger] found[i]).code, "dead_exception_"@);
        assert(counts_in(Tally::Stale, found[i]));
    }
    if exists|i: int| 0 <= i < found.len() && (#[trigger] found[i]).code == "broad_exception_rule"@ {
        let i = choose|i: int|
            0 <= i < found.len() && (#[trigger] found[i]).code == "broad_exception_rule"@;
        assert(counts_in(Tally::Broad, found[i]));
    }
}

proof fn some_are_counted(t: Tally, found: Seq<FindingView>)
    ensures
        tally(t, found) > 0 <==> exists|i: int|
            0 <= i < found.len() && counts_in(t, #[trigger] found[i]),
    decreases found.len(),
{
    if found.len() > 0 {
        let less = found.drop_last();
        some_are_counted(t, less);
        let last = found.len() - 1;
        if tally(t, less) > 0 {
            let i = choose|i: int| 0 <= i < less.len() && counts_in(t, #[trigger] less[i]);
            assert(counts_in(t, found[i]));
        }
        if counts_in(t, found[last]) {
            assert(counts_in(t, found[last]));
        }
        if exists|i: int| 0 <= i < found.len() && counts_in(t, #[trigger] found[i]) {
            let i = choose|i: int| 0 <= i < found.len() && counts_in(t, #[trigger] found[i]);
            if i < last {
                assert(counts_in(t, less[i]));
            }
        }
    }
}

/// A rule on contexts is dead where the files of the graph are in none of its contexts, or in
/// one of them only.
pub proof fn rules_on_unknown_contexts_are_dead(
    rules: Seq<ViolationRuleView>,
    n: int,
    files: Seq<Seq<char>>,
)
    requires
        0 < n <= rules.len(),
    ensures
        ({
            let before = on_dead_contexts(Seq::empty(), rules, n - 1, files);
            let all = on_dead_contexts(Seq::empty(), rules, n, files);
            let dead = files.len() > 0 && !((exists|i: int|
                0 <= i < files.len() && context_of(#[trigger] files[i]) == rules[n
                    - 1].from_context) && (exists|i: int|
                0 <= i < files.len() && context_of(#[trigger] files[i]) == rules[n - 1].to_context));
            &&& dead ==> all.len() == before.len() + 1 && all.drop_last() == before
                && all.last().code == "dead_context_rule_no_match"@
            &&& !dead ==> all == before
        }),
{
    let before = on_dead_contexts(Seq::empty(), rules, n - 1, files);
    let all = on_dead_contexts(Seq::empty(), rules, n, files);
    if all.len() > before.len() {
        assert(all.drop_last() =~= before);
    }
}

/// A layer rule is dead where some crate has a layer, but none has the one or the other of the
/// rule's layers; and a crate without a layer is told of.
pub proof fn rules_on_unassigned_layers_are_dead(ws: WorkspaceConfigView, n: int, m: int)
    requires
        0 < n <= ws.violations.len(),
        0 < m <= ws.layers.len(),
    ensures
        ({
            let before = on_dead_layers(Seq::empty(), ws, n - 1);
            let all = on_dead_layers(Seq::empty(), ws, n);
            let rule = ws.violations[n - 1];
            let from = rule.from_layer != "?"@ && exists|i: int|
                0 <= i < ws.layers.len() && (#[trigger] ws.layers[i]).1 == rule.from_layer;
            let to = rule.to_layer != "?"@ && exists|i: int|
                0 <= i < ws.layers.len() && (#[trigger] ws.layers[i]).1 == rule.to_layer;
            let some = exists|i: int|
                0 <= i < ws.layers.len() && (#[trigger] ws.layers[i]).1 != "?"@;
            &&& some && !(from && to) ==> all.len() == before.len() + 1 && all.last().code
                == "dead_workspace_rule_no_layer"@
            &&& !(some && !(from && to)) ==> all == before
        }),
        ({
            let before = on_unassigned(Seq::empty(), ws.layers, m - 1);
            let all = on_unassigned(Seq::empty(), ws.layers, m);
            &&& ws.layers[m - 1].1 == "?"@ ==> all.len() == before.len() + 1 && all.last().code
                == "dead_workspace_unassigned_layer"@
            &&& ws.layers[m - 1].1 != "?"@ ==> all == before
        }),
{
}

/// All of the findings come of the rules and the exceptions: with no graph at hand only the
/// rules themselves are checked, and with one the exceptions and the dead rules as well.
pub proof fn graphs_add_findings(p: EffectivePolicyView, repo: LintRepoView, threshold: int)
    ensures
        ({
            let alone = policy_findings(p, None, threshold);
            let e = on_exceptions(alone, p.exceptions, p.exceptions.len() as int, repo, threshold);
            let d = on_dead_contexts(e, p.violations, p.violations.len() as int, repo.files);
            policy_findings(p, Some(repo), threshold) == match p.workspace {
                Some(ws) => on_unassigned(
                    on_dead_layers(d, ws, ws.violations.len() as int),
                    ws.layers,
                    ws.layers.len() as int,
                ),
                None => d,
            }
        }),
        ({
            let c = on_context_rules(Seq::empty(), p.violations, p.violations.len() as int);
            let v = on_visibility_rules(c, p.visibility_rules, p.visibility_rules.len() as int);
            policy_findings(p, None, threshold) == match p.workspace {
                Some(ws) => on_workspace_rules(v, ws.violations, ws.violations.len() as int),
                None => v,
            }
        }),
{
}

/// The pack for hexagonal projects keeps the domain away from infrastructure and adapters, the
/// adapters away from both, and infrastructure away from adapters.
pub proof fn hexagonal_pack_forbids(name: Seq<char>, a: Seq<char>, b: Seq<char>)
    requires
        name == "ddd-hexagonal-rust"@,
    ensures
        pack_named(name) matches Some(pack) && ({
            &&& (exists|k: int|
                0 <= k < pack.violations.len() && (#[trigger] pack.violations[k]).from_context == a
                    && pack.violations[k].to_context == b) <==> (a == "adapter"@ && b == "infra"@)
                || (a == "adapter"@ && b == "domain"@) || (a == "infra"@ && b == "adapter"@) || (a
                == "domain"@ && b == "infra"@) || (a == "domain"@ && b == "adapter"@)
            &&& (exists|k: int|
                0 <= k < pack.workspace_violations.len() && (
                #[trigger] pack.workspace_violations[k]).from_layer == a
                    && pack.workspace_violations[k].to_layer == b) <==> (a == "domain"@ && b
                == "infra"@) || (a == "domain"@ && b == "adapter"@) || (a == "port"@ && b
                == "infra"@) || (a == "port"@ && b == "adapter"@) || (a == "application"@ && b
                == "adapter"@)
            &&& (exists|k: int|
                0 <= k < pack.visibility_rules.len() && (#[trigger] pack.visibility_rules[k]).layer
                    == a && pack.visibility_rules[k].max_visibility == b) <==> (a == "domain"@ && b
                == "crate"@) || (a == "infra"@ && b == "crate"@)
        }),
{
    let pack = ddd_pack();
    assert(pack.violations.len() == 5 && pack.workspace_violations.len() == 5
        && pack.visibility_rules.len() == 2);
    let v = pack.violations;
    assert(v[0].from_context == "adapter"@ && v[0].to_context == "infra"@);
    assert(v[1].from_context == "adapter"@ && v[1].to_context == "domain"@);
    assert(v[2].from_context == "infra"@ && v[2].to_context == "adapter"@);
    assert(v[3].from_context == "domain"@ && v[3].to_context == "infra"@);
    assert(v[4].from_context == "domain"@ && v[4].to_context == "adapter"@);
    let w = pack.workspace_violations;
    assert(w[0].from_layer == "domain"@ && w[0].to_layer == "infra"@);
    assert(w[1].from_layer == "domain"@ && w[1].to_layer == "adapter"@);
    assert(w[2].from_layer == "port"@ && w[2].to_layer == "infra"@);
    assert(w[3].from_layer == "port"@ && w[3].to_layer == "adapter"@);
    assert(w[4].from_layer == "application"@ && w[4].to_layer == "adapter"@);
    let x = pack.visibility_rules;
    assert(x[0].layer == "domain"@ && x[0].max_visibility == "crate"@);
    assert(x[1].layer == "infra"@ && x[1].max_visibility == "crate"@);
}

/// The pack for event-sourced projects keeps the read side and the write side apart.
pub proof fn event_sourced_pack_forbids(name: Seq<char>, a: Seq<char>, b: Seq<char>)
    requires
        name == "cqrs-event-sourced-rust"@,
    ensures
        pack_named(name) matches Some(pack) && ({
            &&& (exists|k: int|
                0 <= k < pack.violations.len() && (#[trigger] pack.violations[k]).from_context == a
                    && pack.violations[k].to_context == b) <==> (a == "query"@ && b == "command"@)
                || (a == "command"@ && b == "query"@) || (a == "projection"@ && b == "command"@)
                || (a == "infra"@ && b == "adapter"@)
            &&& (exists|k: int|
                0 <= k < pack.workspace_violations.len() && (
                #[trigger] pack.workspace_violations[k]).from_layer == a
                    && pack.workspace_violations[k].to_layer == b) <==> (a == "query"@ && b
                == "command"@) || (a == "projection"@ && b == "command"@) || (a == "domain"@ && b
                == "infra"@)
            &&& (exists|k: int|
                0 <= k < pack.visibility_rules.len() && (#[trigger] pack.visibility_rules[k]).layer
                    == a && pack.visibility_rules[k].max_visibility == b) <==> (a == "domain"@ && b
                == "crate"@) || (a == "application"@ && b == "crate"@)
        }),
{
    reveal_strlit("ddd-hexagonal-rust");
    reveal_strlit("cqrs-event-sourced-rust");
    assert("ddd-hexagonal-rust"@.len() == 18 && "cqrs-event-sourced-rust"@.len() == 23);
    let pack = cqrs_pack();
    assert(pack.violations.len() == 4 && pack.workspace_violations.len() == 3
        && pack.visibility_rules.len() == 2);
    let v = pack.violations;
    assert(v[0].from_context == "query"@ && v[0].to_context == "command"@);
    assert(v[1].from_context == "command"@ && v[1].to_context == "query"@);
    assert(v[2].from_context == "projection"@ && v[2].to_context == "command"@);
    assert(v[3].from_context == "infra"@ && v[3].to_context == "adapter"@);
    let w = pack.workspace_violations;
    assert(w[0].from_layer == "query"@ && w[0].to_layer == "command"@);
    assert(w[1].from_layer == "projection"@ && w[1].to_layer == "command"@);
    assert(w[2].from_layer == "domain"@ && w[2].to_layer == "infra"@);
    let x = pack.visibility_rules;
    assert(x[0].layer == "domain"@ && x[0].max_visibility == "crate"@);
    assert(x[1].layer == "application"@ && x[1].max_visibility == "crate"@);
}

/// A selected pack adds its rules to those of the project: the project's context and layer
/// rules stand first and its visibility rules last. Exceptions and layers are the project's own.
pub proof fn packs_add_their_rules(cfg: ConfigView, name: Seq<char>)
    requires
        cfg.policy matches Some(p) && p.pack == Some(name),
    ensures
        policy_of(cfg) is Some <==> name == "ddd-hexagonal-rust"@ || name
            == "cqrs-event-sourced-rust"@,
        policy_of(cfg) matches Some(p) ==> pack_named(name) matches Some(pack) && ({
            &&& p.pack == Some(name)
            &&& p.violations == cfg.violations + pack.violations
            &&& p.visibility_rules == pack.visibility_rules + cfg.visibility_rules
            &&& p.exceptions == cfg.exceptions
            &&& p.workspace matches Some(ws) && ({
                &&& cfg.workspace matches Some(own) ==> ws.layers == own.layers && ws.violations
                    == own.violations + pack.workspace_violations
                &&& cfg.workspace is None ==> ws.layers.len() == 0 && ws.violations
                    == pack.workspace_violations
            })
        }),
{
    assert(ddd_pack().workspace_violations.len() == 5);
    assert(cqrs_pack().workspace_violations.len() == 3);
}

/// A pack that exists is refused only where another is set and that is not to be replaced.
pub proof fn set_packs_are_not_replaced(pack: Seq<char>, current: Option<Seq<char>>, force: bool)
    ensures
        pack_refusal(pack, current, force) is None <==> (pack == "ddd-hexagonal-rust"@ || pack
            == "cqrs-event-sourced-rust"@) && (current is None || force || current == Some(pack)),
{
}

/// A lint report counts the findings, all and by kind, names the pack, and shows each finding.
pub proof fn every_finding_is_shown(
    pack: Option<Seq<char>>,
    found: Seq<FindingView>,
    tokens: Seq<char>,
    i: int,
)
    requires
        0 <= i < found.len(),
    ensures
        ({
            let doc = lint_nodes(pack, found, tokens);
            &&& has_tag(
                doc,
                "finding"@,
                seq![
                    ("severity"@, found[i].severity),
                    ("code"@, found[i].code),
                    ("message"@, found[i].message),
                ],
            )
            &&& has_tag(
                doc,
                "policy_lint"@,
                seq![
                    (
                        "pack"@,
                        if pack is Some {
                            pack->0
                        } else {
                            "none"@
                        },
                    ),
                    ("findings"@, dec(found.len())),
                    ("warnings"@, dec(tally(Tally::Warnings, found))),
                    ("errors"@, dec(tally(Tally::Errors, found))),
                    ("conflicts"@, dec(tally(Tally::Conflicts, found))),
                    ("dead_rules"@, dec(tally(Tally::Dead, found))),
                    ("stale_exceptions"@, dec(tally(Tally::Stale, found))),
                    ("broad_exceptions"@, dec(tally(Tally::Broad, found))),
                    ("tokens"@, tokens),
                ],
            )
        }),
{
    let doc = lint_nodes(pack, found, tokens);
    let a = no_attrs()
        .push(("pack"@, or_text(pack, "none"@)))
        .push(("findings"@, dec(found.len())))
        .push(("warnings"@, dec(tally(Tally::Warnings, found))))
        .push(("errors"@, dec(tally(Tally::Errors, found))))
        .push(("conflicts"@, dec(tally(Tally::Conflicts, found))))
        .push(("dead_rules"@, dec(tally(Tally::Dead, found))))
        .push(("stale_exceptions"@, dec(tally(Tally::Stale, found))))
        .push(("broad_exceptions"@, dec(tally(Tally::Broad, found))))
        .push(("tokens"@, tokens));
    let told = seq![
        (
            "pack"@,
            if pack is Some {
                pack->0
            } else {
                "none"@
            },
        ),
        ("findings"@, dec(found.len())),
        ("warnings"@, dec(tally(Tally::Warnings, found))),
        ("errors"@, dec(tally(Tally::Errors, found))),
        ("conflicts"@, dec(tally(Tally::Conflicts, found))),
        ("dead_rules"@, dec(tally(Tally::Dead, found))),
        ("stale_exceptions"@, dec(tally(Tally::Stale, found))),
        ("broad_exceptions"@, dec(tally(Tally::Broad, found))),
        ("tokens"@, tokens),
    ];
    assert(a =~= told);
    let open = with_open(Seq::empty(), "policy_lint"@, a);
    all_are_held(told);
    assert(open[0] == Node::Start("policy_lint"@, told));
    assert(has_tag(open, "policy_lint"@, told));
    findings_are_written(open, found, found.len() as int, i);
    let all = finding_nodes(open, found, found.len() as int);
    assert(goes_on_from(all, doc));
    assert(goes_on_from(open, doc));
    tags_stay(open, doc, "policy_lint"@, told);
    tags_stay(
        all,
        doc,
        "finding"@,
        seq![
            ("severity"@, found[i].severity),
            ("code"@, found[i].code),
            ("message"@, found[i].message),
        ],
    );
}

proof fn findings_are_written(ev: Seq<Node>, found: Seq<FindingView>, n: int, i: int)
    requires
        0 <= n <= found.len(),
    ensures
        goes_on_from(ev, finding_nodes(ev, found, n)),
        0 <= i < n ==> has_tag(
            finding_nodes(ev, found, n),
            "finding"@,
            seq![
                ("severity"@, found[i].severity),
                ("code"@, found[i].code),
                ("message"@, found[i].message),
            ],
        ),
    decreases n,
{
    if n > 0 {
        findings_are_written(ev, found, n - 1, i);
        let rest = finding_nodes(ev, found, n - 1);
        let all = finding_nodes(ev, found, n);
        assert(goes_on_from(rest, all));
        if 0 <= i < n {
            let a = seq![
                ("severity"@, found[i].severity),
                ("code"@, found[i].code),
                ("message"@, found[i].message),
            ];
            if i == n - 1 {
                assert(all[rest.len() as int] == Node::Empty("finding"@, a)) by {
                    assert(all.last()->Empty_1 =~= a);
                }
                all_are_held(a);
            } else {
                tags_stay(rest, all, "finding"@, a);
            }
        }
    }
}

} // verus!
