use graphlite::query::neighborhood::{
    blast_radius, context, context_plan, depth_limit, estimate_node_tokens, graph,
    includes_type_users, is_trusted_source, AnnotationRow, BlastInput, ContextInput, EdgeInfo,
    GraphInput, NeighborRow, NodeDiagnostic, NodeRow,
};
use graphlite::query::overview::{
    build_crate_modules, crate_src_prefix, deps, file_to_module, map_sql, top_level_module,
    CrateRow, DepsInput, MapOptions, MapRow, SymbolCount,
};
use graphlite::query::search::{
    candidate_plan, is_testish, keep_below, resolve, resolve_symbol_id, resolve_target_id,
    step_settles, symbol_lookup,
    symbol_query, symbols, tokenized_like, ResolveCandidate, SymbolFilter, SymbolHit, SymbolQuery,
};
use graphlite::config::Layers;
use graphlite::snippet::{read_call_site_snippet, read_call_sites, read_snippet, span_is_valid};
use graphlite::trace::{
    is_channelish, parse_direction, trace_path, TraceEdge, TraceGraph, TraceNode, TraceOptions,
};
use graphlite::window::{apply_window, OutputControl};

fn node(id: i64, name: &str) -> NodeRow {
    NodeRow {
        id,
        name: name.to_string(),
        kind: "fn".to_string(),
        file: "./src/a.rs".to_string(),
        range_start: 1,
        range_end: 3,
        signature: Some("fn x()".to_string()),
        visibility: "pub".to_string(),
        doc: Some("Doc text.".to_string()),
        fan_in: 1,
        fan_out: 2,
        role: "domain".to_string(),
        role_confidence: "0.90".to_string(),
        role_uncertain: false,
        stable_id: format!("src/a.rs::fn::{}", name),
        content: Some("fn x() {\n    target();\n}\n".to_string()),
        annotation: Some(AnnotationRow {
            intent: Some("Why.".to_string()),
            behavior: None,
            tags: None,
            source: "llm".to_string(),
            confidence: "0.8".to_string(),
            stale: true,
        }),
        diagnostics: vec![NodeDiagnostic {
            code: "clippy::x".to_string(),
            level: "warning".to_string(),
            message: "m".to_string(),
            suggestion: None,
        }],
    }
}

fn neighbor(id: i64, name: &str) -> NeighborRow {
    NeighborRow { node: node(id, name), depth: 1, edge_type: Some("CALLS".to_string()) }
}

fn control(lines: Option<usize>, offset: usize, compact: bool) -> OutputControl {
    OutputControl { budget_lines: lines, budget_tokens: None, offset, compact }
}

#[test]
fn windows_resume_where_they_stop() {
    let costs = vec![5, 5, 5, 5, 5];
    let (a, b, meta) = apply_window(&costs, 0, Some(2), None);
    assert_eq!((a, b), (0, 2));
    assert!(meta.truncated);
    assert_eq!(meta.next_offset, Some(2));
    let (a, b, meta) = apply_window(&costs, 2, Some(2), None);
    assert_eq!((a, b, meta.next_offset), (2, 4, Some(4)));
    let (a, b, meta) = apply_window(&costs, 4, Some(2), None);
    assert_eq!((a, b, meta.next_offset, meta.truncated), (4, 5, None, false));
    let (a, b, _) = apply_window(&costs, 0, None, Some(11));
    assert_eq!((a, b), (0, 2));
    let (a, b, _) = apply_window(&costs, 0, None, Some(1));
    assert_eq!((a, b), (0, 1));
    let (a, b, meta) = apply_window(&costs, 9, None, None);
    assert_eq!((a, b, meta.shown_items, meta.total_items), (5, 5, 0, 5));
}

#[test]
fn snippets_are_cut_and_capped() {
    let text = "a\nb\nc\nd\n";
    assert_eq!(read_snippet(text, 2, 3, None), "b\nc");
    assert_eq!(read_snippet(text, 1, 4, Some(2)), "a\nb\n// \u{2026}2 more lines");
    assert!(span_is_valid(text, 1, 9));
    assert!(!span_is_valid(text, 4, 2));
}

#[test]
fn call_sites_are_shown_with_neighbours() {
    let text = "one\ntwo target()\nthree\nfour\nfive\nsix\nseven target()\n";
    assert_eq!(
        read_call_site_snippet(text, 1, 7, "target").as_deref(),
        Some("one\ntwo target()\nthree\n...\nsix\nseven target()")
    );
    assert_eq!(read_call_site_snippet(text, 1, 7, "absent"), None);
    let whole = read_call_site_snippet(text, 1, 7, "target").unwrap();
    let first = whole.lines().next().unwrap();
    assert_eq!(
        read_call_sites(text, 1, 7, "target", Some(1)),
        Some(format!("{}\n// …{} more lines", first, whole.lines().count() - 1))
    );
    assert_eq!(read_call_sites(text, 1, 7, "target", Some(99)), Some(whole));
}

#[test]
fn graphs_show_neighbours_in_windows() {
    let input = || GraphInput {
        focus: node(1, "focus"),
        neighbors: vec![neighbor(2, "left"), neighbor(3, "right"), neighbor(4, "far")],
        edge_count: 3,
        edges: Vec::new(),
    };
    let all = graph(vec![input()], false, true, None, control(None, 0, false));
    assert!(all.contains("name=\"focus\""));
    assert!(all.contains("name=\"far\""));
    assert!(all.contains("<snippet>"));
    assert!(all.contains("Why."));
    let cut = graph(vec![input()], false, true, None, control(Some(2), 0, false));
    assert!(cut.contains("shown_items=\"2\""));
    assert!(cut.contains("truncated=\"true\""));
    assert!(cut.contains("next_offset=\"2\""));
    assert!(!cut.contains("name=\"far\""));
    let rest = graph(vec![input()], false, true, None, control(Some(2), 2, false));
    assert!(rest.contains("name=\"far\""));
    let compact = graph(vec![input()], false, true, None, control(None, 0, true));
    assert!(!compact.contains("<snippet>"));
    assert!(!compact.contains("Why."));
    assert!(compact.len() < all.len());
}

#[test]
fn trust_splits_the_edges() {
    let e = |source: &str, to: &str| EdgeInfo {
        edge_type: "CALLS".to_string(),
        from_id: 1,
        to_id: 2,
        from_name: "focus".to_string(),
        to_name: to.to_string(),
        source: source.to_string(),
    };
    assert!(is_trusted_source("resolver"));
    assert!(!is_trusted_source("tree-sitter"));
    let text = graph(
        vec![GraphInput {
            focus: node(1, "focus"),
            neighbors: Vec::new(),
            edge_count: 2,
            edges: vec![e("resolver", "sure"), e("tree-sitter", "maybe")],
        }],
        true,
        false,
        None,
        control(None, 0, false),
    );
    let sure = text.find("sure").unwrap();
    let maybe = text.find("maybe").unwrap();
    assert!(sure < maybe);
}

#[test]
fn blast_radius_shows_call_sites() {
    let input = || {
        let mut caller = neighbor(2, "caller");
        caller.node.content =
            Some("fn caller() {\n    a();\n    focus();\n    b();\n    c();\n}\n".to_string());
        caller.node.range_end = 6;
        BlastInput { focus: node(1, "focus"), dependents: vec![caller], type_users: 0 }
    };
    let text = blast_radius(vec![input()], true, None, control(None, 0, false));
    assert!(text.contains("name=\"caller\""));
    assert!(text.contains("focus();"));
    assert!(!text.contains("c();"));
    let text = blast_radius(vec![input()], true, Some(1), control(None, 0, false));
    assert!(!text.contains("focus();"));
    assert!(text.contains("// …2 more lines"));
    assert_eq!(depth_limit(0), i64::MAX);
    assert_eq!(depth_limit(3), 3);
    assert!(includes_type_users("struct"));
    assert!(!includes_type_users("fn"));
}

#[test]
fn contexts_join_both_sides() {
    let plan = context_plan(true, 3, 2, true);
    assert!(!plan.snippets);
    assert_eq!((plan.depth, plan.blast_depth), (1, 1));
    let plan = context_plan(true, 3, 2, false);
    assert_eq!((plan.depth, plan.blast_depth), (3, 2));
    let text = context(
        vec![ContextInput {
            focus: node(1, "focus"),
            neighbors: vec![neighbor(2, "callee")],
            edge_count: 1,
            dependents: vec![neighbor(3, "user")],
        }],
        plan,
        None,
        control(None, 0, false),
    );
    assert!(text.contains("name=\"callee\""));
    assert!(text.contains("name=\"user\""));
}

#[test]
fn tokens_are_estimated_by_four_characters() {
    let mut n = node(1, "ab");
    n.kind = "fn".to_string();
    n.file = String::new();
    n.visibility = String::new();
    n.role = String::new();
    n.stable_id = String::new();
    n.signature = None;
    n.doc = None;
    assert_eq!(estimate_node_tokens(&n), 7);
}

fn hit(id: i64, name: &str, file: &str, role: &str) -> SymbolHit {
    SymbolHit {
        id,
        name: name.to_string(),
        qualified_name: format!("m::{}", name),
        kind: "fn".to_string(),
        role: role.to_string(),
        file: file.to_string(),
        signature: None,
        stable_id: format!("s::{}", name),
    }
}

#[test]
fn symbol_selectors() {
    assert_eq!(resolve_symbol_id("12", None, None), Ok(12));
    assert_eq!(resolve_symbol_id("sym:a::b", Some(4), Some(5)), Ok(4));
    assert_eq!(resolve_symbol_id("sym:b", None, Some(5)), Ok(5));
    assert_eq!(
        resolve_symbol_id("sym:zz", None, None),
        Err("symbol 'zz' not found in database".to_string())
    );
    assert_eq!(symbol_lookup("12"), None);
    assert_eq!(resolve_target_id("Type::method", None, None, Some(8)), Ok(8));
    assert_eq!(resolve_target_id("sym:a::b", Some(4), None, Some(8)), Ok(4));
    assert_eq!(resolve_target_id("run", None, Some(5), Some(8)), Ok(5));
    assert_eq!(resolve_target_id("12", None, None, Some(8)), Ok(12));
    assert_eq!(
        resolve_target_id("sym:zz", None, None, None),
        Err("symbol 'zz' not found in database".to_string())
    );
    assert_eq!(symbol_lookup("sym:a::b"), Some(("a::b".to_string(), true)));
}

#[test]
fn candidates_are_looked_up_step_by_step() {
    let names = |q: &str| {
        candidate_plan(q).into_iter().map(|s| s.strategy).collect::<Vec<String>>()
    };
    assert_eq!(names("7"), vec!["id-exact"]);
    assert_eq!(names(" "), vec!["empty"]);
    assert_eq!(names("run"), vec!["name-exact-ranked", "substring-ranked"]);
    assert_eq!(names("a::b").len(), 5);
    let plan = candidate_plan("run");
    assert!(step_settles(&plan, 0, 1));
    assert!(!step_settles(&plan, 0, 0));
    assert!(step_settles(&plan, 1, 0));
}

#[test]
fn resolve_prefers_what_is_asked_for() {
    let c = |id: i64, file: &str, role: &str| ResolveCandidate {
        hit: hit(id, "run", file, role),
        fan_in: 0,
    };
    let cs = vec![c(1, "./src/a.rs", "leaf"), c(2, "./src/b.rs", "entrypoint")];
    let plain = resolve("run", "name-exact-ranked", &cs, &None, &None, false).unwrap();
    let by_role =
        resolve("run", "name-exact-ranked", &cs, &Some("entrypoint".to_string()), &None, false)
            .unwrap();
    assert!(plain.contains("name-exact-ranked"));
    assert!(by_role.find("./src/b.rs").unwrap() < by_role.find("./src/a.rs").unwrap());
    let md = resolve("run", "name-exact-ranked", &cs, &None, &Some("b.rs".to_string()), true)
        .unwrap();
    assert!(md.starts_with("Resolved `run` using strategy `name-exact-ranked`"));
    assert!(resolve("run", "x", &Vec::new(), &None, &None, false).is_err());
}

#[test]
fn selection_does_not_depend_on_the_order_of_candidates() {
    let c = |id: i64, fan_in: i64| ResolveCandidate {
        hit: hit(id, "run", "./src/a.rs", "leaf"),
        fan_in,
    };
    let one = vec![c(1, 2), c(2, 5), c(3, 5)];
    let other = vec![c(3, 5), c(1, 2), c(2, 5)];
    let selected = |cs: &Vec<ResolveCandidate>| resolve("run", "x", cs, &None, &None, false).unwrap();
    assert!(selected(&one).contains("selected_id=\"2\""));
    assert_eq!(selected(&one), selected(&other));
}

#[test]
fn queries_pick_their_search() {
    assert!(matches!(symbol_query("parse*"), SymbolQuery::FullText(_)));
    assert!(matches!(symbol_query("*segment*"), SymbolQuery::Like(_)));
    assert!(matches!(symbol_query("a::b"), SymbolQuery::Like(_)));
    let (sql, args) = tokenized_like("open db", &Some("rust".to_string())).unwrap();
    assert!(sql.contains("LIKE"));
    assert!(args.contains(&"rust".to_string()));
}

#[test]
fn stars_behind_a_type_ask_for_its_members() {
    match symbol_query("SqlitePermissionChecker::*") {
        SymbolQuery::Prefix(prefix) => assert_eq!(prefix, "SqlitePermissionChecker::"),
        _ => panic!("the members of a type are asked for"),
    }
    match symbol_query("a::*::b") {
        SymbolQuery::Like(like) => assert_eq!(like, "%a%%%b%"),
        _ => panic!("a pattern"),
    }
    let named = |id: i64, qualified: &str| {
        let mut h = hit(id, "f", "./src/a.rs", "leaf");
        h.qualified_name = qualified.to_string();
        h
    };
    let kept = keep_below(
        vec![
            named(1, "SqlitePermissionChecker::new"),
            named(2, "SqlitePermissionCheckers::new"),
            named(3, "other::SqlitePermissionChecker::new"),
            named(4, "SqlitePermissionChecker::check::inner"),
        ],
        "SqlitePermissionChecker::",
    );
    let ids: Vec<i64> = kept.iter().map(|h| h.id).collect();
    assert_eq!(ids, vec![1, 4]);
}

#[test]
fn documents_without_snippets_need_no_lines() {
    let mut focus = node(1, "focus");
    focus.content = Some("one line".to_string());
    focus.range_start = 1;
    focus.range_end = 900;
    let input = BlastInput { focus, dependents: Vec::new(), type_users: 0 };
    let text = blast_radius(vec![input], false, None, control(None, 0, false));
    assert!(text.contains("name=\"focus\""));
    assert!(!text.contains("one line"));
}

#[test]
fn symbols_are_filtered() {
    let hits = || {
        vec![
            hit(1, "parse", "./sales/src/a.rs", "domain"),
            hit(2, "parse_test", "./tests/a.rs", "test"),
        ]
    };
    assert!(is_testish("./tests/a.rs", "domain"));
    let all = SymbolFilter { file: None, context: None, crate_name: None, exclude_tests: false };
    let text = symbols(hits(), &all, &None, false);
    assert!(text.contains("name=\"parse_test\""));
    let none = SymbolFilter { file: None, context: None, crate_name: None, exclude_tests: true };
    assert!(!symbols(hits(), &none, &None, false).contains("parse_test"));
    let sales = SymbolFilter {
        file: None,
        context: Some("sales".to_string()),
        crate_name: None,
        exclude_tests: false,
    };
    let text = symbols(hits(), &sales, &None, true);
    assert!(text.contains("parse"));
    assert!(!text.contains("parse_test"));
}

#[test]
fn deps_list_crates_with_layers() {
    let input = DepsInput {
        crates: vec![
            CrateRow {
                name: "a".to_string(),
                doc: Some("Doc of a.".to_string()),
                file: "./a/src/lib.rs".to_string(),
            },
            CrateRow { name: "b".to_string(), doc: None, file: "./b/src/lib.rs".to_string() },
        ],
        edges: vec![("a".to_string(), "b".to_string())],
        symbols: vec![SymbolCount {
            file: "./b/src/store.rs".to_string(),
            name: "get".to_string(),
            role: "infra".to_string(),
            fan_in: 3,
        }],
    };
    let mut layers = Layers::new();
    layers.insert("b", "domain");
    let xml = deps(&input, &layers, false, true);
    assert!(xml.contains("<deps "));
    assert!(xml.contains("domain"));
    assert!(xml.contains("store"));
    let md = deps(&input, &layers, true, false);
    assert!(md.contains("| "));
    assert_eq!(crate_src_prefix("./b/src/lib.rs"), "./b/src/");
    assert_eq!(top_level_module("./b/src/store/x.rs", "./b/src/").as_deref(), Some("store"));
}

#[test]
fn maps_rank_hotspots() {
    let row = |name: &str, hot: i64| MapRow {
        file: "./src/query.rs".to_string(),
        name: name.to_string(),
        kind: "fn".to_string(),
        visibility: "pub".to_string(),
        signature: Some(format!("fn {}()", name)),
        complexity: Some(12),
        hotspot_fan_in: hot,
        fan_in: hot,
        fan_out: 0,
        doc: None,
        role: "domain".to_string(),
        role_confidence: "0.45".to_string(),
        role_uncertain: true,
    };
    let o = |by_file: bool| MapOptions {
        top: 1,
        with_docs: true,
        file_docs: None,
        all_edges: false,
        by_file,
    };
    let xml = graphlite::query::overview::map(vec![row("cool", 1), row("hot", 9)], &None, &o(false), false);
    let at = xml.find("<hotspots").unwrap();
    let end = xml.find("</hotspots>").unwrap();
    assert!(xml[at..end].contains("hot"));
    let (said, counted) = tokens(&xml, "tokens");
    assert_eq!(said, counted);
    assert!(!xml[at..end].contains("cool"));
    let md = graphlite::query::overview::map(vec![row("hot", 9)], &None, &o(true), true);
    assert!(md.to_lowercase().contains("complexity"));
    assert_eq!(file_to_module("./src/query.rs"), "query");
    assert!(map_sql(false, false, &None).contains("visibility"));
    assert_ne!(map_sql(true, false, &None), map_sql(false, false, &None));
}

fn trace_graph() -> TraceGraph {
    let n = |id: i64, name: &str, role: &str| TraceNode {
        id,
        name: name.to_string(),
        stable_id: format!("s::{}", name),
        role: role.to_string(),
        signature: None,
        fan_out: 1,
    };
    let e = |a: i64, b: i64| TraceEdge {
        from_id: a,
        to_id: b,
        edge_type: "CALLS".to_string(),
        source: "resolver".to_string(),
    };
    TraceGraph {
        nodes: vec![n(1, "start", "entrypoint"), n(2, "mid", "domain"), n(3, "end", "leaf")],
        edges: vec![e(1, 2), e(2, 3), e(3, 1)],
    }
}

#[test]
fn paths_are_traced() {
    let o = TraceOptions { with_async_boundaries: true, with_channels: true, high_level: false };
    let text =
        trace_path(&trace_graph(), "sym:start", 1, Some(3), "outgoing", 6, 20, o).unwrap();
    assert!(text.contains("<trace_path "));
    assert!(text.contains("<path "));
    assert!(text.contains("<hop "));
    let (said, counted) = tokens(&text, "tokens");
    assert_eq!(said, counted);
    let alias = TraceOptions { with_async_boundaries: true, with_channels: true, high_level: false };
    let same = trace_path(&trace_graph(), "sym:start", 1, Some(3), "write", 6, 20, alias).unwrap();
    assert_eq!(text.matches("<hop ").count(), same.matches("<hop ").count());
    let bad = TraceOptions { with_async_boundaries: false, with_channels: false, high_level: true };
    assert!(trace_path(&trace_graph(), "s", 1, None, "sideways", 6, 20, bad).is_err());
    assert!(parse_direction("read").is_ok());
    assert!(is_channelish("open_CHANNEL", &None));
    assert!(!is_channelish("plain", &None));
}

/// The count in the header of a document, and the count of the rest of it.
fn tokens(document: &str, name: &str) -> (usize, usize) {
    let key = format!(" {}=\"", name);
    let start = document.find(&key).unwrap() + key.len();
    let digits = document[start..].find('"').unwrap();
    let said: usize = document[start..start + digits].parse().unwrap();
    (said, (document.len() - digits) / 4)
}

#[test]
fn documents_say_how_many_tokens_they_take() {
    let shown = control(None, 0, false);
    let input = BlastInput { focus: node(1, "focus"), dependents: Vec::new(), type_users: 0 };
    let (said, counted) = tokens(&blast_radius(vec![input], false, None, shown), "tokens");
    assert_eq!(said, counted);
    assert!(said > 0);
    let input = || GraphInput {
        focus: node(1, "focus"),
        neighbors: vec![neighbor(2, "near")],
        edge_count: 1,
        edges: Vec::new(),
    };
    let document = graph(vec![input()], false, true, None, shown);
    let (said, counted) = tokens(&document, "tokens");
    assert_eq!(said, counted);
    let trust = graph(vec![input()], true, true, None, shown);
    let (said, counted) = tokens(&trust, "tokens");
    assert_eq!(said, counted);
    let input = ContextInput {
        focus: node(1, "focus"),
        neighbors: Vec::new(),
        edge_count: 0,
        dependents: vec![neighbor(2, "caller")],
    };
    let plan = context_plan(true, 1, 1, false);
    let document = context(vec![input], plan, None, shown);
    let (said, counted) = tokens(&document, "total_tokens");
    assert_eq!(said, counted);
    let deps_input = DepsInput { crates: Vec::new(), edges: Vec::new(), symbols: Vec::new() };
    let document = deps(&deps_input, &Layers::new(), false, false);
    let (said, counted) = tokens(&document, "tokens");
    assert_eq!(said, counted);
}

#[test]
fn hotspots_have_the_most_callers_of_their_module() {
    let symbol = |file: &str, name: &str, fan_in: usize| SymbolCount {
        file: file.to_string(),
        name: name.to_string(),
        role: "infra".to_string(),
        fan_in,
    };
    let rows = build_crate_modules(
        &vec![
            symbol("./b/src/store/a.rs", "first", 1),
            symbol("./b/src/store/b.rs", "second", 9),
            symbol("./b/src/store/b.rs", "third", 9),
            symbol("./b/src/view.rs", "idle", 0),
        ],
        "./b/src/lib.rs",
    );
    let seen: Vec<(&str, &str, usize)> = rows
        .iter()
        .map(|m| (m.module.as_str(), m.hotspot.as_str(), m.hotspot_fan_in))
        .collect();
    assert_eq!(seen, vec![("store", "second", 9), ("view", "idle", 0)]);
}
