use graphlite::audit::{collect_advisories, count_kind, derive_severity, read_audit, AuditOutput};
use graphlite::clippy_enricher::{
    extract_complexity, find_enclosing_fn, higher_complexity, insert_diagnostics,
    parse_diagnostics, span_to_db_path, Diagnostic, FnSpan,
};
use graphlite::json;
use graphlite::roles::{classify, infer_roles, percentile_rank, NodeMetrics, Share};
use graphlite::rustdoc_enricher::{
    affected_crates, build_method_to_trait, build_node_map, build_qualified_names,
    build_qualified_node_map, collect_impl_trait_edges, discover_crates, generated_types,
    kind_of_type, lookup_node_id,
    node_file_match_keys, parse_crate_enrichment, pick_rustdoc_json_candidate, push_unique,
    read_doc, resolve_rustdoc_node_id, rustdoc_path_label, safe_name, span_file_match_keys,
    version_message, Candidate, CrateInfo, DocFailure, ItemTag, NamedNode, NodePlace, Resolved,
    RustdocDoc, SkipCause, TypeRow,
};

fn candidate(path: &str, modified: i128) -> Candidate {
    Candidate { path: path.to_string(), modified }
}

#[test]
fn complexity_parser_extracts_numeric_score() {
    let msg = "the function has a cognitive complexity of 24";
    assert_eq!(extract_complexity(msg), Some(24));
}

#[test]
fn complexity_parser_returns_none_without_marker() {
    let msg = "function is never used";
    assert_eq!(extract_complexity(msg), None);
}

#[test]
fn complexity_that_is_no_number_is_none() {
    assert_eq!(extract_complexity("a complexity of (9)"), None);
    assert_eq!(extract_complexity("complexity of 99999999999999999999"), None);
    assert_eq!(extract_complexity("complexity of 9223372036854775807!"), Some(i64::MAX));
}

#[test]
fn picks_exact_stem_match_first() {
    let files = vec![candidate("/tmp/doc/other.json", 0), candidate("/tmp/doc/tools.json", 0)];
    let picked = pick_rustdoc_json_candidate("tools", &files).expect("candidate");
    assert_eq!(picked, "/tmp/doc/tools.json");
}

#[test]
fn picks_single_candidate_when_only_one_exists() {
    let files = vec![candidate("/tmp/doc/bin_main.json", 0)];
    let picked = pick_rustdoc_json_candidate("tools", &files).expect("candidate");
    assert_eq!(picked, "/tmp/doc/bin_main.json");
}

#[test]
fn picks_the_newest_candidate_then_the_first_path() {
    let files = vec![
        candidate("/d/c.json", 5),
        candidate("/d/b.json", 9),
        candidate("/d/a.json", 9),
    ];
    assert_eq!(pick_rustdoc_json_candidate("x", &files).as_deref(), Some("/d/a.json"));
    assert_eq!(pick_rustdoc_json_candidate("x", &Vec::new()), None);
}

#[test]
fn span_keys_include_relative_and_absolute_forms() {
    let keys = span_file_match_keys("/repo", "/repo/tools", "src/lib.rs", &Vec::new());
    assert!(keys.contains(&"./tools/src/lib.rs".to_string()));
    assert!(keys.contains(&"/repo/tools/src/lib.rs".to_string()));
}

#[test]
fn span_keys_do_not_double_prefix_workspace_member_path() {
    let keys = span_file_match_keys("/repo", "/repo/sales", "sales/src/lib.rs", &Vec::new());
    assert!(keys.contains(&"./sales/src/lib.rs".to_string()));
    assert!(!keys.contains(&"./sales/sales/src/lib.rs".to_string()));
}

#[test]
fn file_keys_hold_resolved_paths_once() {
    let table = vec![Resolved {
        path: "/repo/src/a.rs".to_string(),
        canonical: "/real/src/a.rs".to_string(),
    }];
    assert_eq!(
        node_file_match_keys("/repo", "./src/a.rs", &table),
        vec!["./src/a.rs", "src/a.rs", "/repo/src/a.rs", "/real/src/a.rs"]
    );
    assert_eq!(
        node_file_match_keys("/repo", "/repo/src/a.rs", &table),
        vec!["/repo/src/a.rs", "src/a.rs", "./src/a.rs"]
    );
    let mut keys = vec!["a".to_string()];
    push_unique(&mut keys, "a".to_string());
    push_unique(&mut keys, String::new());
    push_unique(&mut keys, "b".to_string());
    assert_eq!(keys, vec!["a", "b"]);
}

const METADATA: &str = r#"{"workspace_members":["a 0.1","b 0.1"],"packages":[
 {"id":"a 0.1","name":"a","manifest_path":"/w/a/Cargo.toml"},
 {"id":"b 0.1","name":"b-two","manifest_path":"/w/b/Cargo.toml"},
 {"id":"serde 1","name":"serde","manifest_path":"/r/serde/Cargo.toml"}]}"#;

#[test]
fn crates_are_found_and_narrowed_to_changes() {
    let crates = discover_crates(METADATA).unwrap();
    let names: Vec<&str> = crates.iter().map(|c| c.name.as_str()).collect();
    assert_eq!(names, vec!["a", "b-two"]);
    assert_eq!(crates[1].abs_dir, "/w/b");
    let touched = affected_crates(&crates, &vec!["/w/b/src/x.rs".to_string()]);
    assert_eq!(touched.len(), 1);
    assert_eq!(touched[0].name, "b-two");
    let all = affected_crates(&crates, &vec!["/elsewhere/x.rs".to_string()]);
    assert_eq!(all.len(), 2);
    assert_eq!(safe_name("b-two"), "b_two");
}

#[test]
fn crates_need_packages() {
    assert_eq!(discover_crates("{}").unwrap_err(), "cargo metadata: missing packages array");
    assert_eq!(
        discover_crates("nonsense").unwrap_err(),
        "expected ident at line 1 column 2"
    );
}

const EMPTY_GENERICS: &str = r#"{"params":[],"where_predicates":[]}"#;

fn item(id: u32, name: &str, span: &str, inner: &str) -> String {
    format!(
        r#""{id}":{{"id":{id},"crate_id":0,"name":{name},"span":{span},"visibility":"public","docs":null,"links":{{}},"attrs":[],"deprecation":null,"inner":{inner}}}"#
    )
}

fn span(file: &str, line: usize) -> String {
    format!(r#"{{"filename":"{file}","begin":[{line},1],"end":[{line},9]}}"#)
}

fn document(version: u32) -> String {
    let structure = format!(
        r#"{{"struct":{{"kind":"unit","generics":{EMPTY_GENERICS},"impls":[4]}}}}"#
    );
    let tr = format!(
        r#"{{"trait":{{"is_auto":false,"is_unsafe":false,"is_dyn_compatible":true,"items":[],"generics":{EMPTY_GENERICS},"bounds":[],"implementations":[4]}}}}"#
    );
    let func = format!(
        r#"{{"function":{{"sig":{{"inputs":[],"output":null,"is_c_variadic":false}},"generics":{EMPTY_GENERICS},"header":{{"is_const":false,"is_unsafe":false,"is_async":false,"abi":"Rust"}},"has_body":true}}}}"#
    );
    let imp = format!(
        r#"{{"impl":{{"is_unsafe":false,"generics":{EMPTY_GENERICS},"provided_trait_methods":[],"trait":{{"path":"Shape","id":3,"args":null}},"for":{{"resolved_path":{{"path":"Circle","id":2,"args":null}}}},"items":[5],"is_negative":false,"is_synthetic":false,"blanket_impl":null}}}}"#
    );
    let root = r#"{"module":{"is_crate":true,"items":[],"is_stripped":false}}"#;
    let index = vec![
        item(1, "\"demo\"", "null", root),
        item(2, "\"Circle\"", &span("src/lib.rs", 3), &structure),
        item(3, "\"Shape\"", &span("src/lib.rs", 1), &tr),
        item(4, "null", &span("src/lib.rs", 5), &imp),
        item(5, "\"area\"", &span("src/lib.rs", 6), &func),
    ]
    .join(",");
    format!(
        r#"{{"root":1,"crate_version":null,"includes_private":true,"index":{{{index}}},"paths":{{"2":{{"crate_id":0,"path":["demo","Circle"],"kind":"struct"}},"3":{{"crate_id":0,"path":["demo","Shape"],"kind":"trait"}},"9":{{"crate_id":1,"path":["core","fmt","Debug"],"kind":"trait"}}}},"external_crates":{{}},"target":{{"triple":"x","target_features":[]}},"format_version":{version}}}"#
    )
}

fn places() -> Vec<NodePlace> {
    let place = |id: i64, line: i64| NodePlace {
        id,
        file: "./src/lib.rs".to_string(),
        range_start: line,
    };
    vec![place(10, 1), place(20, 3), place(50, 6)]
}

#[test]
fn rustdoc_documents_are_read() {
    let doc = read_doc(&document(57)).unwrap();
    let ids: Vec<u32> = doc.items.iter().map(|i| i.id).collect();
    assert_eq!(ids, vec![1, 2, 3, 4, 5]);
    assert_eq!(doc.items[1].span.as_ref().unwrap().file, "src/lib.rs");
    assert_eq!(doc.items[1].span.as_ref().unwrap().line, 3);
    assert!(doc.items[0].span.is_none());
    let imp = doc.items[3].impl_data.as_ref().unwrap();
    assert_eq!(imp.trait_ref.as_ref().unwrap().path, "Shape");
    assert_eq!(imp.type_id, Some(2));
    assert_eq!(imp.items, vec![5]);
    assert_eq!(doc.paths.len(), 3);
    assert_eq!(build_method_to_trait(&doc), vec![(5, "Shape".to_string())]);
    assert_eq!(
        build_qualified_names(&doc),
        vec![(2, "Circle".to_string()), (3, "Shape".to_string())]
    );
    assert_eq!(rustdoc_path_label(&doc, 9), "core::fmt::Debug");
    assert_eq!(rustdoc_path_label(&doc, 77), "rustdoc-id-77");
}

#[test]
fn rustdoc_documents_of_other_versions_are_refused() {
    match read_doc(&document(58)) {
        Err(DocFailure::Version(v)) => assert_eq!(
            version_message(v),
            "rustdoc JSON format_version=58 (expected 57): update graphlite or pin nightly"
        ),
        _ => panic!("another version is refused"),
    }
    match read_doc("{}") {
        Err(DocFailure::Unreadable(why)) => {
            assert_eq!(why, "missing field `root` at line 1 column 2")
        }
        _ => panic!("what is no document is refused"),
    }
}

#[test]
fn rustdoc_enriches_symbols_and_links_traits() {
    let doc = read_doc(&document(57)).unwrap();
    let map = build_node_map(&places(), "/repo", &Vec::new());
    let updates = parse_crate_enrichment(&doc, &map, "/repo", "/repo", &Vec::new());
    let seen: Vec<(i64, Option<&str>, Option<&str>)> = updates
        .iter()
        .map(|u| (u.node_id, u.qualified_name.as_deref(), u.trait_impl.as_deref()))
        .collect();
    assert_eq!(
        seen,
        vec![
            (20, Some("Circle"), None),
            (10, Some("Shape"), None),
            (50, None, Some("Shape")),
        ]
    );
    let none = Vec::new();
    let links =
        collect_impl_trait_edges(&doc, &map, "/repo", "/repo", &Vec::new(), &none, &Vec::new());
    assert_eq!(links.edges, vec![(20, 10)]);
    assert!(links.skipped.is_empty());
}

#[test]
fn traits_without_symbols_are_left_out_with_a_cause() {
    let doc = read_doc(&document(57)).unwrap();
    let only_type = vec![NodePlace { id: 20, file: "./src/lib.rs".to_string(), range_start: 3 }];
    let map = build_node_map(&only_type, "/repo", &Vec::new());
    let none = Vec::new();
    let links =
        collect_impl_trait_edges(&doc, &map, "/repo", "/repo", &Vec::new(), &none, &Vec::new());
    assert!(links.edges.is_empty());
    assert_eq!(links.skipped[0].cause, SkipCause::ExternalTrait);
    assert_eq!(links.skipped[0].type_label, "demo::Circle");
    let unknown = collect_impl_trait_edges(
        &doc,
        &Vec::new(),
        "/repo",
        "/repo",
        &Vec::new(),
        &Vec::new(),
        &Vec::new(),
    );
    assert_eq!(unknown.skipped[0].cause, SkipCause::Target);
}

#[test]
fn types_that_macros_make_are_indexed_where_they_are_called() {
    let doc = read_doc(&document(57)).unwrap();
    let tags: Vec<ItemTag> = doc.items.iter().map(|i| i.tag).collect();
    assert_eq!(
        tags,
        vec![ItemTag::Other, ItemTag::Struct, ItemTag::Trait, ItemTag::Other, ItemTag::Other]
    );
    assert_eq!(doc.items[1].name.as_deref(), Some("Circle"));
    assert_eq!(doc.items[3].name, None);
    let words: Vec<Option<&str>> = vec![
        ItemTag::Struct,
        ItemTag::Enum,
        ItemTag::Union,
        ItemTag::Trait,
        ItemTag::TypeAlias,
        ItemTag::Other,
    ]
    .into_iter()
    .map(kind_of_type)
    .collect();
    assert_eq!(
        words,
        vec![Some("struct"), Some("enum"), Some("union"), Some("trait"), Some("type"), None]
    );
    let files = vec!["./src/lib.rs".to_string()];
    let row = |id: i64, name: &str, made: bool| TypeRow {
        id,
        file: "./src/lib.rs".to_string(),
        name: name.to_string(),
        made,
    };
    let ask = |doc: &RustdocDoc, files: &Vec<String>, rows: Vec<TypeRow>| {
        generated_types(doc, files, &rows, "/repo", "/repo", &Vec::new())
    };
    let types = ask(&doc, &files, vec![row(10, "Shape", false)]);
    assert!(types.known.is_empty() && types.unplaced.is_empty());
    assert_eq!(types.fresh.len(), 1);
    let circle = &types.fresh[0];
    assert_eq!((circle.item_id, circle.line), (2, 3));
    assert_eq!(circle.file, "./src/lib.rs");
    assert_eq!(circle.qualified_name, "Circle");
    assert_eq!(circle.stable_id, "src/lib.rs::struct::Circle");

    let again = ask(&doc, &files, vec![row(10, "Shape", false), row(77, "Circle", true)]);
    assert_eq!(again.known, vec![(2, 77)]);
    assert!(again.fresh.is_empty() && again.unplaced.is_empty());

    // Only the trait is a symbol of its own: the made type is linked to it all the same.
    let only_trait = vec![NodePlace { id: 10, file: "./src/lib.rs".to_string(), range_start: 1 }];
    let map = build_node_map(&only_trait, "/repo", &Vec::new());
    let links = collect_impl_trait_edges(
        &doc,
        &map,
        "/repo",
        "/repo",
        &Vec::new(),
        &again.known,
        &Vec::new(),
    );
    assert_eq!(links.edges, vec![(77, 10)]);

    let elsewhere = ask(&doc, &vec!["./src/other.rs".to_string()], Vec::new());
    assert_eq!(elsewhere.unplaced, vec!["demo::Circle", "demo::Shape"]);
    let mut bare = read_doc(&document(57)).unwrap();
    bare.items[1].span = None;
    let warned = ask(&bare, &files, vec![row(10, "Shape", false)]);
    assert_eq!(warned.unplaced, vec!["demo::Circle"]);
    assert!(warned.fresh.is_empty());
}

#[test]
fn traits_of_other_crates_are_found_by_name() {
    let doc = read_doc(&document(57)).unwrap();
    let crates = vec![CrateInfo {
        name: "core".to_string(),
        manifest_path: "/repo/core/Cargo.toml".to_string(),
        abs_dir: "/repo/core".to_string(),
    }];
    let row = |id: i64, file: &str| NamedNode {
        id,
        qualified_name: "fmt::Debug".to_string(),
        file: file.to_string(),
    };
    let one = build_qualified_node_map(&vec![row(70, "./core/src/fmt.rs")], &crates, "/repo");
    assert_eq!(resolve_rustdoc_node_id(&doc, 9, &Vec::new(), &one), Some(70));
    let two = build_qualified_node_map(
        &vec![row(70, "./core/src/fmt.rs"), row(71, "./core/src/b.rs")],
        &crates,
        "/repo",
    );
    assert_eq!(resolve_rustdoc_node_id(&doc, 9, &Vec::new(), &two), None);
    let outside = build_qualified_node_map(&vec![row(70, "./x/src/fmt.rs")], &crates, "/repo");
    assert!(outside.is_empty());
}

#[test]
fn symbols_are_looked_up_by_file_and_line() {
    let map = build_node_map(&places(), "/repo", &Vec::new());
    let keys = vec!["nowhere".to_string(), "src/lib.rs".to_string()];
    assert_eq!(lookup_node_id(&map, &keys, 3), Some(20));
    assert_eq!(lookup_node_id(&map, &keys, 4), None);
}

const MESSAGES: &str = r#"{"reason":"compiler-artifact"}
not json
{"reason":"compiler-message","message":{"level":"warning","message":"the function has a cognitive complexity of 31","code":{"code":"clippy::cognitive_complexity"},"spans":[{"is_primary":false,"file_name":"src/b.rs","line_start":1},{"is_primary":true,"file_name":"src/a.rs","line_start":12}],"children":[{"spans":[]},{"spans":[{"suggested_replacement":"  "}]},{"spans":[{"suggested_replacement":" split "}]}]}}
{"reason":"compiler-message","message":{"level":"note","message":"n","code":{"code":"x"},"spans":[{"is_primary":true,"file_name":"src/a.rs","line_start":1}]}}
{"reason":"compiler-message","message":{"level":"error","message":"m","code":null,"spans":[{"is_primary":true,"file_name":"src/a.rs","line_start":1}]}}
"#;

#[test]
fn compiler_messages_are_read() {
    let found = parse_diagnostics(MESSAGES, "/repo");
    assert_eq!(found.len(), 1);
    let d = &found[0];
    assert_eq!(d.file, "./src/a.rs");
    assert_eq!(d.line, 12);
    assert_eq!(d.code, "clippy::cognitive_complexity");
    assert_eq!(d.suggestion.as_deref(), Some("split"));
    assert_eq!(d.complexity, Some(31));
}

#[test]
fn paths_take_the_form_of_the_graph() {
    assert_eq!(span_to_db_path("src/foo.rs", "/repo"), "./src/foo.rs");
    assert_eq!(span_to_db_path("./src/foo.rs", "/repo"), "./src/foo.rs");
    assert_eq!(span_to_db_path("/repo/src/foo.rs", "/repo/"), "./src/foo.rs");
    assert_eq!(span_to_db_path("/other/foo.rs", "/repo"), "/other/foo.rs");
}

fn diagnostic(line: i32, code: &str, message: &str, complexity: Option<i64>) -> Diagnostic {
    Diagnostic {
        file: "./src/a.rs".to_string(),
        line,
        code: code.to_string(),
        level: "warning".to_string(),
        message: message.to_string(),
        suggestion: None,
        complexity,
    }
}

#[test]
fn findings_go_to_the_tightest_function_once() {
    let f = |a: i64, b: i64, id: i64| FnSpan {
        file: "./src/a.rs".to_string(),
        range_start: a,
        range_end: b,
        id,
    };
    let fns = vec![f(1, 100, 1), f(10, 20, 2)];
    assert_eq!(find_enclosing_fn(&fns, "./src/a.rs", 12), Some(2));
    assert_eq!(find_enclosing_fn(&fns, "./src/a.rs", 30), Some(1));
    assert_eq!(find_enclosing_fn(&fns, "./src/b.rs", 30), None);
    let rows = insert_diagnostics(
        &fns,
        &vec![
            diagnostic(12, "c", "m", Some(3)),
            diagnostic(13, "c", "m", Some(3)),
            diagnostic(12, "clippy::cognitive_complexity", "k", Some(30)),
            diagnostic(200, "c", "m", None),
        ],
    );
    let seen: Vec<(i64, &str, Option<i64>)> =
        rows.iter().map(|r| (r.node_id, r.code.as_str(), r.complexity)).collect();
    assert_eq!(
        seen,
        vec![(2, "c", None), (2, "clippy::cognitive_complexity", Some(30))]
    );
}

#[test]
fn the_higher_complexity_stays() {
    assert_eq!(higher_complexity(None, 4), 4);
    assert_eq!(higher_complexity(Some(9), 4), 9);
    assert_eq!(higher_complexity(Some(3), 4), 4);
}

#[test]
fn severities_follow_the_vector() {
    let s = |v: &str| derive_severity(&Some(v.to_string()));
    assert_eq!(s("CVSS:3.1/AV:N/AC:L/PR:N"), "high");
    assert_eq!(s("CVSS:3.1/AV:N/AC:H/PR:N"), "medium");
    assert_eq!(s("CVSS:3.1/AV:L/AC:L"), "low");
    assert_eq!(s("CVSS:3.1/AV:P"), "informational");
    assert_eq!(derive_severity(&None), "informational");
}

const REPORT: &str = r#"{"vulnerabilities":{"list":[{"package":{"name":"p","version":"1.0"},"advisory":{"id":"RUSTSEC-1","title":"t","cvss":"AV:N/AC:L/PR:N","categories":["crypto","x"],"date":"2024-01-01"}},{"package":{"name":"q"}}]},"warnings":{"unsound":[{"package":{"name":"u","version":"2"},"advisory":{"id":"R2","title":"s"}}],"unmaintained":[{"package":{"name":"m","version":"3"},"advisory":{"id":"R3","title":"z"}}]}}"#;

#[test]
fn advisories_are_collected_by_kind() {
    let rows = collect_advisories(&json::parse(REPORT).unwrap());
    let seen: Vec<(&str, &str, &str)> = rows
        .iter()
        .map(|r| (r.package_name.as_str(), r.kind.as_str(), r.severity.as_str()))
        .collect();
    assert_eq!(
        seen,
        vec![
            ("p", "vulnerability", "high"),
            ("m", "unmaintained", "informational"),
            ("u", "unsound", "informational"),
        ]
    );
    assert_eq!(rows[0].category.as_deref(), Some("crypto"));
    assert_eq!(rows[0].date.as_deref(), Some("2024-01-01"));
    assert_eq!(count_kind(&rows, "vulnerability"), 1);
    assert_eq!(count_kind(&rows, "yanked"), 0);
}

#[test]
fn audit_output_is_told_apart() {
    match read_audit(REPORT, "") {
        AuditOutput::Report(rows) => assert_eq!(rows.len(), 3),
        _ => panic!("a report"),
    }
    match read_audit("", "error: no such command: `audit`") {
        AuditOutput::Skipped(why) => assert!(why.contains("not installed")),
        _ => panic!("a missing command is passed over"),
    }
    match read_audit("", "advisory-db: read-only path") {
        AuditOutput::Skipped(why) => assert!(why.contains("not writable")),
        _ => panic!("a locked database is passed over"),
    }
    match read_audit("", " boom \n") {
        AuditOutput::Failed(m) => assert_eq!(m, "cargo audit returned no JSON output: boom"),
        _ => panic!("a failure"),
    }
    match read_audit("nonsense", "") {
        AuditOutput::Failed(m) => assert_eq!(m, "expected ident at line 1 column 2"),
        _ => panic!("what is no JSON fails"),
    }
}

fn metrics(kind: &str, visibility: &str, fan_in: i64, fan_out: i64) -> NodeMetrics {
    NodeMetrics {
        id: 1,
        kind: kind.to_string(),
        visibility: visibility.to_string(),
        file: "./src/a.rs".to_string(),
        name: "work".to_string(),
        fan_in,
        fan_out,
        io_call_count: 0,
        caller_file_spread: 0,
        callee_file_spread: 0,
    }
}

#[test]
fn ranks_are_shares() {
    assert_eq!(percentile_rank(3, &vec![1, 2, 3, 4]), Share { count: 3, total: 4 });
    assert_eq!(percentile_rank(3, &Vec::new()), Share { count: 0, total: 0 });
}

#[test]
fn roles_follow_connections() {
    let outs = vec![0, 1, 2, 3, 9];
    let ins = vec![0, 1, 2, 3, 9];
    let role = |n: &NodeMetrics| classify(n, &outs, &ins).0;
    let mut test = metrics("fn", "pub", 3, 3);
    test.file = "./tests/a.rs".to_string();
    assert_eq!(role(&test), "test");
    let mut helper = metrics("fn", "private", 0, 1);
    helper.name = "test_it".to_string();
    assert_eq!(role(&helper), "test");
    assert_eq!(role(&metrics("struct", "pub", 1, 0)), "model");
    assert_eq!(role(&metrics("fn", "pub", 1, 0)), "leaf");
    assert_eq!(role(&metrics("fn", "pub", 0, 2)), "entrypoint");
    let mut io = metrics("fn", "pub", 1, 2);
    io.io_call_count = 1;
    assert_eq!(role(&io), "infra");
    let mut busy = metrics("fn", "pub", 1, 9);
    assert_eq!(role(&busy), "domain");
    busy.callee_file_spread = 2;
    assert_eq!(role(&busy), "orchestrator");
    assert_eq!(classify(&busy, &outs, &ins).1.share, Some(Share { count: 5, total: 5 }));
    let mut shared = metrics("fn", "pub", 9, 1);
    shared.caller_file_spread = 3;
    assert_eq!(role(&shared), "utility");
    assert_eq!(classify(&metrics("fn", "pub", 2, 1), &outs, &ins).1.base, 45);
    assert_eq!(classify(&metrics("fn", "pub", 1, 1), &outs, &ins).1.base, 30);
}

#[test]
fn all_roles_are_inferred_at_once() {
    let r = infer_roles(&vec![metrics("fn", "pub", 0, 7), metrics("struct", "pub", 4, 0)]);
    assert_eq!(r.max_connectivity, 7);
    assert_eq!(r.updates[0].role, "entrypoint");
    assert_eq!(r.updates[1].role, "model");
    assert_eq!(r.updates[1].confidence.base, 95);
}
