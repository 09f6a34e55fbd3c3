use graphlite::resolver::{
    dedup_edges, find_enclosing_fn, infer_impl_type, module_prefix_from_file, normalize_path,
    resolve, resolve_by_name, FileInput, FileNode, FnRow, ResolvedEdge, Tier,
};

fn fn_row(id: i64, name: &str, file: &str, qualified_name: &str) -> FnRow {
    FnRow {
        id,
        name: name.to_string(),
        file: file.to_string(),
        visibility: "public".to_string(),
        qualified_name: qualified_name.to_string(),
    }
}

#[test]
fn normalize_path_handles_crate_self_super_prefixes() {
    assert_eq!(normalize_path("crate::query::open_db", "discover"), "query::open_db");
    assert_eq!(normalize_path("self::resolve", "resolver"), "resolver::resolve");
    assert_eq!(
        normalize_path("super::config::load", "workspace::discover"),
        "workspace::config::load"
    );
}

#[test]
fn module_prefix_is_derived_from_src_layout() {
    assert_eq!(module_prefix_from_file("./src/lib.rs"), "");
    assert_eq!(module_prefix_from_file("./src/query.rs"), "query");
    assert_eq!(module_prefix_from_file("./crates/core/src/foo/bar.rs"), "foo::bar");
    assert_eq!(module_prefix_from_file("./crates/core/src/foo/mod.rs"), "foo");
}

#[test]
fn ambiguous_method_calls_are_kept_as_low_confidence() {
    let fns = vec![
        fn_row(1, "run", "./src/a.rs", "a::run"),
        fn_row(2, "run", "./src/b.rs", "b::run"),
    ];
    let dropped = resolve_by_name(&fns, "run", "./src/c.rs", false);
    assert!(dropped.is_none(), "non-method ambiguity should be dropped");

    let kept = resolve_by_name(&fns, "run", "./src/c.rs", true).expect("low edge");
    assert_eq!(kept.1.as_str(), "low");
}

#[test]
fn a_single_function_of_the_name_is_found() {
    let fns = vec![fn_row(7, "only", "./src/a.rs", "a::only")];
    let (id, tier) = resolve_by_name(&fns, "only", "./src/c.rs", false).unwrap();
    assert_eq!((id, tier.as_str()), (7, "low"));
    let (id, tier) = resolve_by_name(&fns, "only", "./src/a.rs", false).unwrap();
    assert_eq!((id, tier.as_str()), (7, "medium"));
}

#[test]
fn impl_types_are_read_from_qualified_names() {
    assert_eq!(infer_impl_type("store::Store::get").as_deref(), Some("store::Store"));
    assert_eq!(infer_impl_type("free"), None);
}

#[test]
fn the_innermost_function_encloses_a_call() {
    let node = |id: i64, a: i64, b: i64| FileNode {
        id,
        range_start: a,
        range_end: b,
        kind: "fn".to_string(),
        qualified_name: String::new(),
    };
    let nodes = vec![node(1, 1, 50), node(2, 10, 20), node(3, 30, 40)];
    assert_eq!(find_enclosing_fn(&nodes, 15), Some(1));
    assert_eq!(find_enclosing_fn(&nodes, 45), Some(0));
    assert_eq!(find_enclosing_fn(&nodes, 60), None);
}

#[test]
fn the_surest_of_equal_edges_stays() {
    let edges = vec![
        ResolvedEdge { from_id: 1, to_id: 2, tier: Tier::Low },
        ResolvedEdge { from_id: 1, to_id: 3, tier: Tier::Medium },
        ResolvedEdge { from_id: 1, to_id: 2, tier: Tier::High },
    ];
    let kept = dedup_edges(edges);
    assert_eq!(kept.len(), 2);
    let best = kept.iter().find(|e| e.to_id == 2).unwrap();
    assert_eq!(best.tier.as_str(), "high");
}

#[test]
fn imported_calls_are_resolved() {
    let fns = vec![
        fn_row(1, "open_db", "./src/store.rs", "store::open_db"),
        fn_row(2, "run", "./src/main_loop.rs", "main_loop::run"),
    ];
    let source = "use crate::store::open_db;\n\npub fn run() {\n    open_db();\n}\n";
    let files = vec![FileInput {
        file: "./src/main_loop.rs".to_string(),
        source: source.to_string(),
        nodes: vec![FileNode {
            id: 2,
            range_start: 3,
            range_end: 5,
            kind: "fn".to_string(),
            qualified_name: "main_loop::run".to_string(),
        }],
    }];
    let (edges, _) = resolve(&fns, &files);
    assert_eq!(edges.len(), 1);
    assert_eq!((edges[0].from_id, edges[0].to_id), (2, 1));
    assert_eq!(edges[0].tier.as_str(), "high");
}
