use graphlite::arch::{
    context_violation_reason, edge_exception_reason, exception_matches, exception_reason,
    file_to_context, is_test_file, strip_dot,
};
use graphlite::config::{
    default_depth, find_root, load, Config, Layers, PolicyConfig, ViolationException,
    ViolationRule, VisibilityRule, WorkspaceConfig, WorkspaceViolationRule,
};
use graphlite::policy::{
    check_pack, effective_policy, init_pack, lint, select_pack, supported_packs, LintEdge, LintOptions, LintRepo,
};
use graphlite::violations::{
    check_visibility_violations, check_workspace_violations, classify_edges, load_policy,
    matches_pattern, parse_edge_selector, run, stable_id_exception_reason, validate_policy,
    visibility_rank, AdvisoryViolation, CheckViolation, Params, RawEdge, RunInput, SymbolRow,
};
use graphlite::workspace::{
    crate_for_file, crate_for_file_path, detect, CrateMember, WorkspaceGraph,
};

fn mk_cfg(layers: &[(&str, &str)], rules: &[(&str, &str)]) -> Config {
    let mut cfg = Config::default();
    let mut map = Layers::new();
    for (name, layer) in layers {
        map.insert(name, layer);
    }
    let ws_rules: Vec<WorkspaceViolationRule> = rules
        .iter()
        .map(|(from, to)| WorkspaceViolationRule {
            from_layer: (*from).to_string(),
            to_layer: (*to).to_string(),
            reason: None,
        })
        .collect();
    cfg.workspace = Some(WorkspaceConfig { layers: map, violations: ws_rules });
    cfg
}

#[test]
fn policy_valid_when_layers_and_rules_are_known() {
    let cfg = mk_cfg(
        &[("core", "domain"), ("adapter_http", "adapter")],
        &[("adapter", "domain")],
    );
    assert!(validate_policy(&cfg.workspace, &cfg.violations, &cfg.visibility_rules, true).is_ok());
}

#[test]
fn strict_policy_fails_unresolved_layer() {
    let cfg = mk_cfg(&[("core", "?")], &[]);
    let err = validate_policy(&cfg.workspace, &cfg.violations, &cfg.visibility_rules, true)
        .expect_err("strict should fail for unresolved layer");
    assert!(err.to_string().contains("workspace layer unresolved"), "unexpected error: {}", err);
}

#[test]
fn policy_fails_invalid_layer_name() {
    let cfg = mk_cfg(&[("core", "invalid_layer_name")], &[]);
    let err = validate_policy(&cfg.workspace, &cfg.violations, &cfg.visibility_rules, false)
        .expect_err("invalid layer should fail");
    assert!(err.to_string().contains("is invalid"), "unexpected error: {}", err);
}

#[test]
fn policy_partially_invalid_reports_failure() {
    let cfg = mk_cfg(
        &[("core", "domain"), ("edge", "badlayer")],
        &[("adapter", "domain")],
    );
    let err = validate_policy(&cfg.workspace, &cfg.violations, &cfg.visibility_rules, false)
        .expect_err("partial invalid config should fail");
    assert!(err.to_string().contains("badlayer"), "unexpected error: {}", err);
}

#[test]
fn unresolved_layers_pass_where_not_strict() {
    let cfg = mk_cfg(&[("core", "?")], &[]);
    assert!(validate_policy(&cfg.workspace, &cfg.violations, &cfg.visibility_rules, false).is_ok());
}

#[test]
fn configurations_have_defaults() {
    let cfg = load(None);
    assert_eq!(cfg.depth, default_depth());
    assert!(cfg.ignore.is_empty());
    assert!(cfg.workspace.is_none());
    let mut given = Config::default();
    given.depth = 7;
    assert_eq!(load(Some(given)).depth, 7);
}

#[test]
fn layers_are_a_sorted_map() {
    let mut layers = Layers::new();
    layers.insert("b", "domain");
    layers.insert("a", "port");
    layers.insert("b", "infra");
    assert_eq!(layers.len(), 2);
    assert_eq!(layers.name(0), "a");
    assert_eq!(layers.get("b").map(|s| s.as_str()), Some("infra"));
    assert_eq!(layers.get("c"), None);
}

#[test]
fn roots_are_the_nearest_marked_directory() {
    let dirs = vec!["/a/b".to_string(), "/a".to_string(), "/".to_string()];
    assert_eq!(find_root("/a/b", &dirs, &vec![false, true, true]), Ok("/a".to_string()));
    assert!(find_root("/a/b", &dirs, &vec![false, false, false]).is_err());
}

#[test]
fn contexts_come_from_paths() {
    assert_eq!(strip_dot("./src/a.rs"), "src/a.rs");
    assert_eq!(file_to_context("./src/main.rs"), "root");
    assert_eq!(file_to_context("./sales/src/lib.rs"), "sales");
    assert!(is_test_file("./tests/e2e.rs"));
    assert!(!is_test_file("./src/query.rs"));
}

fn rule(from: &str, to: &str) -> ViolationRule {
    ViolationRule {
        from_context: from.to_string(),
        to_context: to.to_string(),
        reason: Some("keep out".to_string()),
    }
}

fn exception(from: Option<&str>, to_role: Option<&str>, stable_id: Option<&str>) -> ViolationException {
    ViolationException {
        from_context: from.map(|s| s.to_string()),
        to_context: None,
        from_role: None,
        to_role: to_role.map(|s| s.to_string()),
        stable_id: stable_id.map(|s| s.to_string()),
        reason: Some("agreed".to_string()),
    }
}

#[test]
fn contexts_are_coupled_against_rules() {
    let rules = vec![rule("web", "db")];
    assert_eq!(
        context_violation_reason("web", "db", &rules).as_deref(),
        Some("web → db (keep out)")
    );
    assert_eq!(context_violation_reason("db", "web", &rules), None);
    assert_eq!(context_violation_reason("web", "web", &vec![rule("web", "web")]), None);
}

#[test]
fn exceptions_match_by_their_fields() {
    let exc = vec![exception(Some("web"), Some("utility"), None)];
    assert_eq!(exception_reason("web", "db", "infra", "utility", &exc).as_deref(), Some("agreed"));
    assert_eq!(exception_reason("web", "db", "infra", "domain", &exc), None);
    let by_id = vec![exception(None, None, Some("src/a.rs::fn::f"))];
    assert_eq!(
        stable_id_exception_reason("src/a.rs::fn::f", "x", &by_id).as_deref(),
        Some("agreed")
    );
    assert_eq!(stable_id_exception_reason("y", "x", &by_id), None);
}

#[test]
fn exceptions_with_an_id_need_that_symbol() {
    let by_id = vec![exception(None, None, Some("src/a.rs::fn::f"))];
    assert_eq!(exception_reason("adapter", "domain", "infra", "leaf", &by_id), None);
    let ask = |from: &str, to: &str, exc: &Vec<ViolationException>| {
        edge_exception_reason("web", "db", "infra", "utility", from, to, exc)
    };
    assert_eq!(ask("src/a.rs::fn::f", "y", &by_id).as_deref(), Some("agreed"));
    assert_eq!(ask("x", "src/a.rs::fn::f", &by_id).as_deref(), Some("agreed"));
    assert_eq!(ask("x", "y", &by_id), None);
    let both = vec![exception(Some("adapter"), None, Some("src/a.rs::fn::f"))];
    assert_eq!(ask("src/a.rs::fn::f", "y", &both), None);
    assert_eq!(stable_id_exception_reason("src/a.rs::fn::f", "x", &both), None);
    let matches_edge = |e: &ViolationException, from: &str| {
        exception_matches(e, "web", "db", "infra", "utility", from, "y")
    };
    assert!(matches_edge(&by_id[0], "src/a.rs::fn::f"));
    assert!(!matches_edge(&by_id[0], "x"));
    assert!(matches_edge(&exception(None, None, None), "x"));
    let edges = vec![edge("./web/src/a.rs", "./db/src/b.rs")];
    let mut cfg = Config::default();
    cfg.violations.push(rule("web", "db"));
    cfg.exceptions.push(exception(None, None, Some("elsewhere")));
    let policy = load_policy(&cfg, false).unwrap();
    let (reported, suppressed) = classify_edges(&edges, &policy, &None, &params());
    assert_eq!((reported.len(), suppressed.len()), (1, 0));
    cfg.exceptions.push(exception(None, None, Some("b")));
    let policy = load_policy(&cfg, false).unwrap();
    let (reported, suppressed) = classify_edges(&edges, &policy, &None, &params());
    assert_eq!((reported.len(), suppressed.len()), (0, 1));
}

#[test]
fn packs_extend_own_rules() {
    assert_eq!(supported_packs(), vec!["ddd-hexagonal-rust", "cqrs-event-sourced-rust"]);
    let mut cfg = Config::default();
    cfg.violations.push(rule("web", "db"));
    let plain = effective_policy(&cfg).unwrap();
    assert_eq!(plain.violations.len(), 1);
    cfg.policy = Some(PolicyConfig { pack: Some("ddd-hexagonal-rust".to_string()) });
    let packed = effective_policy(&cfg).unwrap();
    assert!(packed.violations.len() > 1);
    assert!(packed.violations.iter().any(|r| r.from_context == "web" && r.to_context == "db"));
    cfg.policy = Some(PolicyConfig { pack: Some("nope".to_string()) });
    assert!(effective_policy(&cfg).is_err());
}

#[test]
fn own_rules_come_before_those_of_a_pack() {
    let mut cfg = Config::default();
    cfg.policy = Some(PolicyConfig { pack: Some("ddd-hexagonal-rust".to_string()) });
    let packed = effective_policy(&cfg).unwrap();
    let forbidden = &packed.violations[0];
    let (from, to) = (forbidden.from_context.clone(), forbidden.to_context.clone());
    let mut own = rule(&from, &to);
    own.reason = Some("local".to_string());
    cfg.violations.push(own);
    let merged = effective_policy(&cfg).unwrap();
    assert_eq!(
        context_violation_reason(&from, &to, &merged.violations),
        Some(format!("{} → {} (local)", from, to))
    );
    let mut adapter = rule("adapter", "infra");
    adapter.reason = Some("local".to_string());
    cfg.violations.push(adapter);
    let merged = effective_policy(&cfg).unwrap();
    assert_eq!(
        context_violation_reason("adapter", "infra", &merged.violations).as_deref(),
        Some("adapter → infra (local)")
    );
}

#[test]
fn packs_pass_their_own_validation() {
    for pack in supported_packs() {
        let mut cfg = Config::default();
        cfg.policy = Some(PolicyConfig { pack: Some(pack.to_string()) });
        assert!(load_policy(&cfg, true).is_ok(), "{}", pack);
        let p = effective_policy(&cfg).unwrap();
        let checked = validate_policy(&p.workspace, &p.violations, &p.visibility_rules, true);
        assert_eq!(checked, Ok(()), "{}", pack);
        assert!(load_policy(&cfg, false).is_ok(), "{}", pack);
    }
    let crates = mk_cfg(&[("app", "command")], &[]);
    assert!(load_policy(&crates, true).is_err());
}

#[test]
fn packs_are_selected_with_care() {
    assert!(check_pack("ddd-hexagonal-rust", &None, false).is_ok());
    let other = Some("cqrs-event-sourced-rust".to_string());
    assert_eq!(
        check_pack("ddd-hexagonal-rust", &other, false).unwrap_err(),
        "policy pack already set to 'cqrs-event-sourced-rust'; use --force to replace"
    );
    assert!(check_pack("ddd-hexagonal-rust", &other, true).is_ok());
    assert_eq!(
        check_pack("zzz", &None, false).unwrap_err(),
        "unknown pack 'zzz'; supported: ddd-hexagonal-rust, cqrs-event-sourced-rust"
    );
}

const DDD: &str = "ddd-hexagonal-rust";

#[test]
fn pack_is_written_to_a_new_config() {
    let text = init_pack(DDD, &None, "c.toml", false).unwrap();
    assert_eq!(text, "[policy]\npack = \"ddd-hexagonal-rust\"\n");
}

#[test]
fn pack_is_added_to_a_config_that_stays() {
    let config = Some(
        "depth = 3\nignore = [\"a\"]\n[policy]\nnote = \"n\"\n[[violations]]\nfrom_context = \"web\"\nto_context = \"db\"\n"
            .to_string(),
    );
    let text = init_pack(DDD, &config, "c.toml", false).unwrap();
    let table: toml::Table = toml::from_str(&text).unwrap();
    assert_eq!(table["depth"].as_integer(), Some(3));
    assert_eq!(table["policy"]["pack"].as_str(), Some(DDD));
    assert_eq!(table["policy"]["note"].as_str(), Some("n"));
    assert_eq!(table["violations"][0]["from_context"].as_str(), Some("web"));
    // Once selected, it can be selected again, and nothing changes.
    assert_eq!(init_pack(DDD, &Some(text.clone()), "c.toml", false).unwrap(), text);
}

#[test]
fn config_that_cannot_take_a_pack() {
    let refused = |text: &str| init_pack(DDD, &Some(text.to_string()), "c.toml", false).unwrap_err();
    assert_eq!(refused("policy = 3\n"), "[policy] must be a TOML table");
    assert!(refused("= 3").starts_with("failed to parse c.toml: TOML parse error"));
    assert_eq!(
        refused("[policy]\npack = \"cqrs-event-sourced-rust\"\n"),
        "policy pack already set to 'cqrs-event-sourced-rust'; use --force to replace"
    );
    // What is no text is no pack, and is replaced.
    let text = init_pack(DDD, &Some("[policy]\npack = 3\n".to_string()), "c.toml", false);
    assert_eq!(text.unwrap(), "[policy]\npack = \"ddd-hexagonal-rust\"\n");
    // A pack that does not exist is refused before the config is looked at.
    let unknown = init_pack("zzz", &Some("= 3".to_string()), "c.toml", true).unwrap_err();
    assert!(unknown.starts_with("unknown pack 'zzz'"));
}

#[test]
fn pack_is_selected_in_a_table() {
    let table: toml::Table = toml::from_str("[policy]\npack = \"cqrs-event-sourced-rust\"\n").unwrap();
    assert!(select_pack(table.clone(), DDD, false).is_err());
    let selected = select_pack(table, DDD, true).unwrap();
    assert_eq!(selected["policy"]["pack"].as_str(), Some(DDD));
}

fn lint_edge() -> LintEdge {
    LintEdge {
        from_file: "./web/src/a.rs".to_string(),
        to_file: "./db/src/b.rs".to_string(),
        from_role: "infra".to_string(),
        to_role: "utility".to_string(),
        from_stable_id: "web/src/a.rs::fn::f".to_string(),
        to_stable_id: "db/src/b.rs::fn::g".to_string(),
    }
}

#[test]
fn lint_finds_conflicts_and_stale_exceptions() {
    let mut cfg = Config::default();
    cfg.violations.push(rule("web", "db"));
    cfg.violations.push(ViolationRule {
        from_context: "web".to_string(),
        to_context: "db".to_string(),
        reason: Some("another reason".to_string()),
    });
    cfg.exceptions.push(exception(Some("nowhere"), None, None));
    let repo = Some(LintRepo {
        edges: vec![lint_edge()],
        stable_ids: vec!["web/src/a.rs::fn::f".to_string()],
        files: vec!["./web/src/a.rs".to_string(), "./db/src/b.rs".to_string()],
    });
    let opts = |stale_only: bool, fail_on_stale: bool| LintOptions {
        stale_only,
        fail_on_stale,
        fail_on_broad: false,
        broad_threshold: 25,
    };
    let all = lint(&cfg, &repo, opts(false, true)).unwrap();
    assert!(all.document.contains("conflict_"));
    assert!(all.document.contains("dead_exception_unused_rule"));
    assert!(says_its_tokens(&all.document));
    assert_eq!(all.failure.as_deref(), Some("stale suppressions detected: 1"));
    let stale = lint(&cfg, &repo, opts(true, false)).unwrap();
    assert!(!stale.document.contains("conflict_"));
    assert!(stale.document.contains("dead_exception_unused_rule"));
    assert!(stale.failure.is_none());
}

#[test]
fn lint_fails_on_broad_exceptions() {
    let mut cfg = Config::default();
    cfg.exceptions.push(exception(Some("web"), None, None));
    let repo = Some(LintRepo {
        edges: vec![lint_edge()],
        stable_ids: Vec::new(),
        files: vec!["./web/src/a.rs".to_string()],
    });
    let opts = LintOptions {
        stale_only: false,
        fail_on_stale: false,
        fail_on_broad: true,
        broad_threshold: 1,
    };
    let r = lint(&cfg, &repo, opts).unwrap();
    assert_eq!(r.failure.as_deref(), Some("overbroad suppressions detected: 1"));
    let opts = LintOptions {
        stale_only: true,
        fail_on_stale: false,
        fail_on_broad: true,
        broad_threshold: 1,
    };
    let r = lint(&cfg, &repo, opts).unwrap();
    assert_eq!(r.failure.as_deref(), Some("overbroad suppressions detected: 1"));
    assert!(!r.document.contains("overbroad"));
}

fn params() -> Params {
    Params {
        from_context: None,
        to_context: None,
        context: None,
        top: 50,
        pattern: None,
        by_crate: false,
        edge: None,
        no_snippets: false,
        strict_policy: false,
        check: false,
        audit: false,
    }
}

fn edge(from_file: &str, to_file: &str) -> RawEdge {
    RawEdge {
        from_id: 1,
        from_name: "caller".to_string(),
        from_file: from_file.to_string(),
        from_role: "infra".to_string(),
        from_stable_id: "a".to_string(),
        from_visibility: "pub".to_string(),
        from_fan_in: 1,
        from_fan_out: 2,
        from_sig: Some("fn caller()".to_string()),
        to_id: 2,
        to_name: "callee".to_string(),
        to_file: to_file.to_string(),
        to_role: "utility".to_string(),
        to_stable_id: "b".to_string(),
        to_visibility: "pub".to_string(),
        to_fan_in: 3,
        to_fan_out: 4,
        to_sig: None,
    }
}

#[test]
fn forbidden_edges_are_reported_or_suppressed() {
    let mut cfg = Config::default();
    cfg.violations.push(rule("web", "db"));
    let edges = vec![
        edge("./web/src/a.rs", "./db/src/b.rs"),
        edge("./db/src/b.rs", "./web/src/a.rs"),
    ];
    let policy = load_policy(&cfg, false).unwrap();
    let (reported, suppressed) = classify_edges(&edges, &policy, &None, &params());
    assert_eq!((reported.len(), suppressed.len()), (1, 0));
    assert_eq!(reported[0].from_ctx, "web");
    cfg.exceptions.push(exception(Some("web"), None, None));
    let policy = load_policy(&cfg, false).unwrap();
    let (reported, suppressed) = classify_edges(&edges, &policy, &None, &params());
    assert_eq!((reported.len(), suppressed.len()), (0, 1));
    assert_eq!(suppressed[0], "agreed");
}

#[test]
fn patterns_ignore_case() {
    let fields = vec!["SalesOrder".to_string()];
    assert!(matches_pattern("salesORDER", &fields));
    assert!(!matches_pattern("invoice", &fields));
    let mut p = params();
    p.pattern = Some("CALLER".to_string());
    let mut cfg = Config::default();
    cfg.violations.push(rule("web", "db"));
    let policy = load_policy(&cfg, false).unwrap();
    let edges = vec![edge("./web/src/a.rs", "./db/src/b.rs")];
    assert_eq!(classify_edges(&edges, &policy, &None, &p).0.len(), 1);
    p.pattern = Some("nothing".to_string());
    assert_eq!(classify_edges(&edges, &policy, &None, &p).0.len(), 0);
}

#[test]
fn edge_selectors_name_crates() {
    assert_eq!(
        parse_edge_selector("from:adapter to:domain"),
        Some((Some("adapter".to_string()), Some("domain".to_string())))
    );
    assert_eq!(parse_edge_selector("to:x"), Some((None, Some("x".to_string()))));
    assert_eq!(parse_edge_selector("nothing"), None);
}

fn members() -> WorkspaceGraph {
    let member = |name: &str| CrateMember {
        name: name.to_string(),
        path: name.to_string(),
        entry_file: name.to_string() + "/src/lib.rs",
    };
    WorkspaceGraph {
        members: vec![member("adapter"), member("domain")],
        deps: vec![("adapter".to_string(), "domain".to_string())],
    }
}

#[test]
fn layer_rules_forbid_dependencies() {
    let cfg = mk_cfg(
        &[("adapter", "adapter"), ("domain", "domain")],
        &[("adapter", "domain")],
    );
    let found = check_workspace_violations(&cfg.workspace, &Some(members()));
    assert_eq!(found.len(), 1);
    assert_eq!(found[0].reason, "adapter must not depend on domain");
    let open = mk_cfg(&[("adapter", "?"), ("domain", "domain")], &[("adapter", "domain")]);
    assert!(check_workspace_violations(&open.workspace, &Some(members())).is_empty());
}

#[test]
fn visibilities_are_ranked_and_bounded() {
    assert!(visibility_rank("public") > visibility_rank("crate"));
    assert!(visibility_rank("crate") > visibility_rank("default"));
    let mut cfg = mk_cfg(&[("adapter", "adapter"), ("domain", "domain")], &[]);
    cfg.visibility_rules.push(VisibilityRule {
        layer: "domain".to_string(),
        max_visibility: "crate".to_string(),
        reason: None,
    });
    let policy = load_policy(&cfg, true).unwrap();
    let symbols = vec![SymbolRow {
        stable_id: "domain/src/lib.rs::fn::api".to_string(),
        name: "api".to_string(),
        file: "./domain/src/lib.rs".to_string(),
        line: 1,
        visibility: Some("public".to_string()),
    }];
    let found = check_visibility_violations(&policy, &Some(members()), &symbols);
    assert_eq!(found.len(), 1);
    assert_eq!(found[0].layer, "domain");
}

#[test]
fn the_report_names_what_it_rests_on() {
    let mut cfg = Config::default();
    cfg.violations.push(rule("web", "db"));
    let policy = load_policy(&cfg, false).unwrap();
    let mut p = params();
    p.check = true;
    p.audit = true;
    let input = RunInput {
        config_exists: true,
        workspace: None,
        edges: vec![edge("./web/src/a<b>.rs", "./db/src/b.rs")],
        symbols: Vec::new(),
        checks: vec![CheckViolation {
            node_id: 4,
            name: "dead_fn".to_string(),
            file: "./src/main.rs".to_string(),
            role: "leaf".to_string(),
            visibility: "private".to_string(),
            code: "dead_code".to_string(),
            level: "warning".to_string(),
            message: "never used".to_string(),
        }],
        advisories: vec![AdvisoryViolation {
            package_name: "p".to_string(),
            version: "1".to_string(),
            advisory_id: "RUSTSEC-1".to_string(),
            title: "t".to_string(),
            severity: "high".to_string(),
            kind: "vulnerability".to_string(),
        }],
    };
    let document = run(&policy, input, &p);
    assert!(document.contains("caller"));
    assert!(document.contains("a&lt;b&gt;.rs"));
    assert!(document.contains("dead_code"));
    assert!(document.contains("RUSTSEC-1"));
    assert!(says_its_tokens(&document));
}

/// Whether the count in the header of a document is that of the rest of it.
fn says_its_tokens(document: &str) -> bool {
    let key = " tokens=\"";
    let start = document.find(key).unwrap() + key.len();
    let digits = document[start..].find('"').unwrap();
    let said: usize = document[start..start + digits].parse().unwrap();
    said == (document.len() - digits) / 4
}

#[test]
fn an_empty_report_still_has_diagnostics() {
    let policy = load_policy(&Config::default(), false).unwrap();
    let input = RunInput {
        config_exists: false,
        workspace: None,
        edges: Vec::new(),
        symbols: Vec::new(),
        checks: Vec::new(),
        advisories: Vec::new(),
    };
    let document = run(&policy, input, &params());
    assert!(document.contains("policy_source"));
}

#[test]
fn strict_runs_refuse_open_layers() {
    let cfg = mk_cfg(&[("core", "?")], &[]);
    assert!(load_policy(&cfg, true).is_err());
    assert!(load_policy(&cfg, false).is_ok());
}

const METADATA: &str = r#"{"workspace_members":["a 0.1","b 0.1"],"packages":[
 {"id":"a 0.1","name":"alpha","manifest_path":"/w/a/Cargo.toml","targets":[{"kind":["lib"],"src_path":"/w/a/src/lib.rs"}]},
 {"id":"b 0.1","name":"beta","manifest_path":"/w/b/Cargo.toml","targets":[{"kind":["bin"],"src_path":"/w/b/src/main.rs"}]}],
 "resolve":{"nodes":[{"id":"b 0.1","deps":[{"name":"alpha","pkg":"a 0.1","dep_kinds":[{"kind":null}]}]},{"id":"a 0.1","deps":[]}]}}"#;

#[test]
fn workspaces_are_detected() {
    let ws = detect(METADATA, "/w").unwrap();
    let names: Vec<(&str, &str, &str)> = ws
        .members
        .iter()
        .map(|m| (m.name.as_str(), m.path.as_str(), m.entry_file.as_str()))
        .collect();
    assert_eq!(names, vec![("alpha", "a", "a/src/lib.rs"), ("beta", "b", "b/src/main.rs")]);
    assert_eq!(ws.deps, vec![("beta".to_string(), "alpha".to_string())]);
    assert_eq!(crate_for_file_path(&ws, "./b/src/x.rs").as_deref(), Some("beta"));
    assert_eq!(crate_for_file_path(&ws, "./c/src/x.rs"), None);
    assert_eq!(crate_for_file(METADATA, "/w/a/src/deep/x.rs").as_deref(), Some("alpha"));
    assert!(detect("nonsense", "/w").is_none());
}
