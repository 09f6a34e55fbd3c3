use graphlite::annotate::{annotate, list_annotations, xml_escape, Note, NoteRow};
use graphlite::capabilities::{self, cmd, flag, pad, surface};
use graphlite::config::{Config, Layers, ViolationException, ViolationRule, WorkspaceConfig};
use graphlite::discover::{
    changed_files, check_layers, compute_file_hash, crate_edges, crate_nodes, extract_crate_doc,
    is_ignored_with_extra, restore_annotations, steps, FileState, SavedNote, Step,
};
use graphlite::init_cmd::{
    after_init, build_default_config, build_workspace_config, initial_config, update_gitignore,
    AfterInit,
};
use graphlite::insert::{bulk_insert_symbols, IndexedSymbol};
use graphlite::parser::Symbol;
use graphlite::reclassify::{apply_overrides, clear, list, OverrideRow, SetParams};
use graphlite::schema::{
    init_batch, needs_fts_rebuild, opening, Opening, LATER_TABLES, REBUILD_FTS, SCHEMA_SQL,
    UPGRADES,
};
use graphlite::viz::{
    build_output, fnv1a_u64, output_to_html, RawEdge, RawNode,
};
use graphlite::workspace::{CrateMember, WorkspaceGraph};

fn text(s: &str) -> String {
    s.to_string()
}

#[test]
fn schema_initializes() {
    let conn = rusqlite::Connection::open_in_memory().unwrap();
    conn.execute_batch(&init_batch()).unwrap();
    let count: i64 = conn.query_row("SELECT COUNT(*) FROM nodes", [], |r| r.get(0)).unwrap();
    assert_eq!(count, 0);
}

#[test]
fn existing_databases_are_upgraded() {
    let conn = rusqlite::Connection::open_in_memory().unwrap();
    conn.execute_batch(SCHEMA_SQL).unwrap();
    for sql in UPGRADES {
        let _ = conn.execute(sql, []);
    }
    for sql in LATER_TABLES {
        conn.execute_batch(sql).unwrap();
    }
    conn.execute_batch(REBUILD_FTS).unwrap();
    let made: String = conn
        .query_row(graphlite::schema::FTS_SQL, [], |r| r.get(0))
        .unwrap();
    assert!(!needs_fts_rebuild(&Some(made)));
    assert!(needs_fts_rebuild(&Some(text("CREATE TABLE x"))));
    assert!(needs_fts_rebuild(&None));
    let tables: i64 =
        conn.query_row(graphlite::schema::HAS_FILES_SQL, [], |r| r.get(0)).unwrap();
    assert_eq!(opening(true, Some(tables)), Opening::Upgrade);
    assert_eq!(opening(true, Some(0)), Opening::Create);
    assert_eq!(opening(true, None), Opening::Create);
    assert_eq!(opening(false, Some(1)), Opening::Create);
}

fn note(intent: Option<&str>, tags: Option<&str>) -> Note {
    Note {
        intent: intent.map(text),
        behavior: None,
        tags: tags.map(text),
        source: text("llm"),
        content_hash: text("h2"),
    }
}

#[test]
fn notes_are_merged() {
    let old = note(Some("why"), None);
    let new = annotate(&Some(old), &note(None, Some("db"))).unwrap();
    assert_eq!(new.intent.as_deref(), Some("why"));
    assert_eq!(new.tags.as_deref(), Some("db"));
    assert_eq!(
        annotate(&None, &note(None, None)).unwrap_err(),
        "at least one of --intent, --behavior, --tags is required"
    );
}

fn note_row(name: &str, annotated: &str) -> NoteRow {
    NoteRow {
        id: 4,
        name: text(name),
        kind: text("fn"),
        file: text("./src/a.rs"),
        intent: Some(text("a < b & \"c\"")),
        behavior: None,
        tags: None,
        source: text("llm"),
        confidence: text("0.8"),
        annotated_hash: text(annotated),
        content_hash: text("h"),
    }
}

#[test]
fn notes_are_listed() {
    let rows = vec![note_row("fresh", "h"), note_row("old", "g")];
    let (all, n) = list_annotations(&rows, false);
    assert_eq!(n, 2);
    assert_eq!(
        all.lines().nth(1).unwrap(),
        "  <annotation id=\"4\" name=\"fresh\" kind=\"fn\" file=\"./src/a.rs\" source=\"llm\" confidence=\"0.8\" stale=\"false\">"
    );
    assert!(all.contains("    <intent>a &lt; b &amp; &quot;c&quot;</intent>\n"));
    let (stale, n) = list_annotations(&rows, true);
    assert_eq!(n, 1);
    assert!(stale.contains("name=\"old\""));
    assert!(!stale.contains("name=\"fresh\""));
}

#[test]
fn escaping_leaves_no_markup() {
    assert_eq!(xml_escape("<a href=\"x\">&</a>"), "&lt;a href=&quot;x&quot;&gt;&amp;&lt;/a&gt;");
    assert_eq!(xml_escape("plain"), "plain");
}

#[test]
fn capabilities_name_the_commands() {
    let commands = surface();
    assert_eq!(commands.len(), 24);
    let symbols = commands.iter().find(|c| c.name == "symbols").unwrap();
    let flags: Vec<(&str, bool)> =
        symbols.flags.iter().map(|f| (f.name.as_str(), f.takes_value)).collect();
    assert_eq!(
        flags,
        vec![
            ("language", true),
            ("file", true),
            ("context", true),
            ("crate-name", true),
            ("exclude-tests", false),
            ("md", false),
        ]
    );
    assert!(commands.iter().any(|c| c.name == "violations"));
    assert!(commands.iter().any(|c| c.name == "reclassify"));
    assert!(!commands.iter().any(|c| c.name == "unavailable"));
    let listing = capabilities::run(&commands, "1.2");
    assert!(listing.starts_with("graphlite 1.2 capabilities\ncommands:\n  init           Init"));
    assert!(listing.contains("--language <value>, --file <value>"));
    assert_eq!(pad("ab", 4), "ab  ");
    assert_eq!(pad("abcde", 4), "abcde");
    assert!(flag("x=").takes_value);
    assert!(cmd("no parts").is_none());
}

#[test]
fn directories_are_passed_over() {
    let extra = vec![text("vendor")];
    assert!(is_ignored_with_extra("target", true, &extra));
    assert!(is_ignored_with_extra("vendor", true, &extra));
    for name in [".git", ".cache", ".svelte-kit", "__pycache__"] {
        assert!(is_ignored_with_extra(name, true, &extra), "{}", name);
    }
    assert!(!is_ignored_with_extra("src", true, &extra));
    assert!(!is_ignored_with_extra("target", false, &extra));
}

#[test]
fn only_changed_files_are_indexed_again() {
    assert_eq!(compute_file_hash(&Some(Vec::new())), "cbf29ce484222325");
    assert_eq!(compute_file_hash(&Some(vec![97])), "af63dc4c8601ec8c");
    assert_eq!(compute_file_hash(&None), "");
    let f = |path: &str, stored: Option<&str>| FileState {
        path: text(path),
        stored: stored.map(text),
        hash: text("h"),
    };
    let files = vec![f("a", Some("h")), f("b", Some("g")), f("c", None)];
    assert_eq!(changed_files(&files), vec!["b", "c"]);
    assert_eq!(steps(false), vec![Step::SyncWorkspace, Step::Clippy, Step::Audit]);
    let all = steps(true);
    assert_eq!(all[0], Step::SaveNotes);
    assert_eq!(all[10], Step::Roles);
}

fn open_config() -> Config {
    let mut layers = Layers::new();
    layers.insert("beta", "?");
    layers.insert("alpha", "?");
    layers.insert("core", "domain");
    let mut cfg = Config::default();
    cfg.workspace = Some(WorkspaceConfig { layers, violations: Vec::new() });
    cfg
}

#[test]
fn open_layers_stop_indexing() {
    let m = check_layers(&open_config()).unwrap_err();
    assert!(m.starts_with("workspace layers not assigned in .graphlite/config.toml: alpha, beta\n"));
    assert!(check_layers(&Config::default()).is_ok());
    match after_init(&open_config()) {
        AfterInit::Assign(names) => assert_eq!(names, vec!["alpha", "beta"]),
        AfterInit::Discover => panic!("layers are open"),
    }
    assert!(matches!(after_init(&Config::default()), AfterInit::Discover));
}

fn workspace() -> WorkspaceGraph {
    let m = |name: &str| CrateMember {
        name: text(name),
        path: text(name),
        entry_file: format!("{}/src/lib.rs", name),
    };
    WorkspaceGraph {
        members: vec![m("app"), m("store")],
        deps: vec![
            (text("store"), text("base")),
            (text("app"), text("store")),
            (text("app"), text("base")),
        ],
    }
}

#[test]
fn crates_become_symbols() {
    assert_eq!(extract_crate_doc("//! One.\n//!  Two.\nfn a() {}\n").as_deref(), Some("One.\nTwo."));
    assert_eq!(extract_crate_doc("fn a() {}\n"), None);
    let nodes = crate_nodes(&workspace(), &vec![Some(text("Doc."))]);
    assert_eq!(nodes[0].file, "./app/src/lib.rs");
    assert_eq!(nodes[0].signature, "crate app");
    assert_eq!(nodes[1].stable_id, "crate::store");
    assert_eq!(nodes[0].doc.as_deref(), Some("Doc."));
    assert_eq!(nodes[1].doc, None);
    let ids = vec![(text("app"), 1), (text("store"), 2)];
    assert_eq!(crate_edges(&workspace(), &ids), vec![(1, 2)]);
}

#[test]
fn notes_come_back_after_indexing() {
    let note = |id: &str, hash: &str| SavedNote { stable_id: text(id), content_hash: text(hash) };
    let saved = vec![note("s::a", "h1"), note("s::b", "h2"), note("s::a", "h3")];
    let nodes = vec![(10, text("s::a")), (11, text("s::b")), (12, text("s::c"))];
    let seen = |noted: &Vec<i64>| -> Vec<(i64, usize, String)> {
        restore_annotations(&saved, &nodes, noted)
            .into_iter()
            .map(|r| (r.node_id, r.note, r.content_hash))
            .collect()
    };
    assert_eq!(seen(&Vec::new()), vec![(10, 0, text("h1")), (11, 1, text("h2"))]);
    assert_eq!(seen(&vec![10]), vec![(11, 1, text("h2"))]);
    // The text of the symbol has changed since: its note is stale, before and after.
    let rows: Vec<NoteRow> = seen(&Vec::new()).iter().map(|r| note_row("f", &r.2)).collect();
    assert_eq!(list_annotations(&rows, true).1, 2);
}

#[test]
fn configurations_are_written() {
    assert!(build_default_config().starts_with("# graphlite configuration\n"));
    let cfg = build_workspace_config(&workspace());
    assert!(cfg.contains("#   app → store, base\n#   store → base\n"));
    assert!(cfg.contains("[workspace.layers]\napp   = \"?\"\nstore = \"?\"\n"));
    assert_eq!(initial_config(&None), build_default_config());
    assert_eq!(initial_config(&Some(workspace())), cfg);
    assert!(toml::from_str::<toml::Table>(&cfg).is_ok());
}

#[test]
fn ignore_lists_get_one_entry() {
    assert_eq!(update_gitignore("").as_deref(), Some(".graphlite/codegraph.db\n"));
    assert_eq!(
        update_gitignore("target\n").as_deref(),
        Some("target\n.graphlite/codegraph.db\n")
    );
    let once = update_gitignore("target").unwrap();
    assert_eq!(once, "target\n.graphlite/codegraph.db\n");
    assert_eq!(update_gitignore(&once), None);
    assert_eq!(update_gitignore("x\r\n  .graphlite/codegraph.db \r\n"), None);
}

#[test]
fn tests_get_their_role_at_once() {
    let symbol = |name: &str| Symbol {
        name: text(name),
        file: text("./src/a.rs"),
        language: text("rust"),
        kind: text("fn"),
        range_start: 1,
        range_end: 2,
        signature: None,
        content_hash: text("h"),
        visibility: text("private"),
        doc: None,
        stable_id: text("s"),
    };
    let rows = bulk_insert_symbols(vec![
        IndexedSymbol { symbol: symbol("a"), qualified_name: text("m::a"), is_test_fn: true },
        IndexedSymbol { symbol: symbol("b"), qualified_name: text(""), is_test_fn: false },
    ]);
    assert_eq!((rows[0].role.as_str(), rows[0].confidence), ("test", 99));
    assert_eq!((rows[1].role.as_str(), rows[1].confidence), ("unknown", 0));
    assert_eq!(rows[0].symbol.name, "a");
}

#[test]
fn roles_set_by_hand() {
    let params = SetParams { symbol: text("sym:a"), role: text("infra"), reason: None };
    let o = graphlite::reclassify::set(&params, "src/a.rs::fn::a").unwrap();
    assert_eq!(o.message, "Override set: src/a.rs::fn::a → infra");
    assert!(graphlite::reclassify::set(&params, "").is_err());
    assert_eq!(clear("x", 0), "No override found for x");
    assert_eq!(clear("x", 1), "Override cleared: x");
    assert_eq!(list(&Vec::new()), "No role overrides set.\n");
    let table = list(&vec![OverrideRow {
        stable_id: text("x"),
        role: text("infra"),
        reason: Some(text("because")),
        current_role: None,
    }]);
    assert_eq!(table.lines().nth(1).unwrap(), "-".repeat(110));
    assert!(table.lines().nth(2).unwrap().contains("(not found)"));
    assert!(table.ends_with("because\n"));
}

#[test]
fn pictures_mark_broken_rules() {
    let node = |id: i64, file: &str| RawNode { id, stable_id: text("s"), file: text(file) };
    let edge = |source: &str, reason: Option<&str>| RawEdge {
        from_id: 1,
        to_id: 2,
        edge_type: text("CALLS"),
        source: text(source),
        from_role: text("leaf"),
        to_role: text("entrypoint"),
        from_file: text("./web/src/a.rs"),
        to_file: text("./web/src/b.rs"),
        from_stable_id: text("web/src/a.rs::fn::f"),
        to_stable_id: text("web/src/b.rs::fn::g"),
        role_reason: reason.map(text),
    };
    let mut forbidden = edge("tree-sitter", None);
    forbidden.to_file = text("./db/src/b.rs");
    let rules = vec![ViolationRule {
        from_context: text("web"),
        to_context: text("db"),
        reason: Some(text("no")),
    }];
    let nodes = vec![node(1, "./web/src/a.rs"), node(2, "./src/main.rs"), node(3, "./db/src/b.rs")];
    let edges = vec![
        forbidden,
        edge("rust-analyzer", Some("leaf → entrypoint")),
        edge("tree-sitter", Some("leaf → entrypoint")),
    ];
    let out = build_output(&nodes, &edges, &rules, &Vec::new());
    assert_eq!((out.violation_count, out.suppressed_violation_count), (2, 0));
    assert_eq!(out.edges[1].violation.as_deref(), Some("leaf → entrypoint"));
    assert_eq!(out.edges[2].violation, None);
    let places: Vec<(&str, usize, Option<usize>)> =
        out.contexts.iter().map(|c| (c.name.as_str(), c.node_count, c.place)).collect();
    assert_eq!(places, vec![("db", 1, Some(0)), ("root", 1, None), ("web", 1, Some(1))]);
    assert_eq!(out.nodes[0].angle, fnv1a_u64("s") & 0xFFFF);
    assert_eq!(out.nodes[0].distance, (fnv1a_u64("s") >> 16) & 0xFFFF);
    assert_eq!(out.nodes[0].height, (fnv1a_u64("s") >> 32) & 0xFFFF);
    let all = vec![ViolationException {
        from_context: None,
        to_context: None,
        from_role: Some(text("leaf")),
        to_role: None,
        stable_id: None,
        reason: Some(text("fine")),
    }];
    let quiet = build_output(&nodes, &edges, &rules, &all);
    assert_eq!((quiet.violation_count, quiet.suppressed_violation_count), (0, 2));
    let by_id = |id: &str| {
        vec![ViolationException {
            from_context: None,
            to_context: None,
            from_role: None,
            to_role: None,
            stable_id: Some(text(id)),
            reason: None,
        }]
    };
    let other = build_output(&nodes, &edges, &rules, &by_id("x"));
    assert_eq!((other.violation_count, other.suppressed_violation_count), (2, 0));
    let own = build_output(&nodes, &edges, &rules, &by_id("web/src/b.rs::fn::g"));
    assert_eq!((own.violation_count, own.suppressed_violation_count), (0, 2));
}

#[test]
fn data_cannot_end_its_script() {
    let page = output_to_html("{\"a\":\"</script><</script>\"}", "<script>__GRAPH_DATA__</script>");
    assert_eq!(page, "<script>{\"a\":\"<\\/script><<\\/script>\"}</script>");
    assert_eq!(page.matches("</script>").count(), 1);
}

#[test]
fn roles_set_by_hand_outlive_indexing() {
    let row = |id: &str, role: &str| OverrideRow {
        stable_id: text(id),
        role: text(role),
        reason: None,
        current_role: None,
    };
    let rows = vec![row("s::a", "infra"), row("s::gone", "leaf")];
    let before = vec![(1, text("s::a")), (2, text("s::b")), (3, text(""))];
    assert_eq!(apply_overrides(&before, &rows), vec![(1, text("infra"))]);
    // Indexed again, the symbols have other ids.
    let after = vec![(7, text("s::b")), (8, text("s::a")), (9, text("s::a"))];
    assert_eq!(apply_overrides(&after, &rows), vec![(8, text("infra")), (9, text("infra"))]);
    assert_eq!(apply_overrides(&after, &Vec::new()), Vec::new());
}
