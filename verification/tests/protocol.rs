use graphlite::ipc::{read_timeout, sock_path, WatchMsg, WatchResponse};
use graphlite::json::{self, Json};
use graphlite::lsp;
use graphlite::lsp_client::{
    answers, char_offset_of_name, ensure_rust_analyzer, is_response, is_yes, on_message, on_silence, parse_count, read_header,
    read_msg, ready_start, rename_step, wait_limit, write_msg, HeaderLine, LspClient, ReadyAction,
    RenameStep, Setup,
};
use graphlite::serve::{
    ends_headers, inject_sse, route, serve_html, sse_frame, Route, Wake as StreamWake,
};
use graphlite::watch::{
    dispatch_rename, is_relevant, rename_lookup, resolve_node_for_rename, step, unreadable,
    Action, FileEvent, RenameLookup, RenameOutcome, RenameTarget, Wake,
};
use graphlite::watcher_engine::{
    collect_results, goes_on, keeps_client, Asked, EdgeMsg, Engine, Happened, Indexed, LspEdge,
    Next, Server,
};

fn value(text: &str) -> Json {
    json::parse(text).unwrap()
}

#[test]
fn char_offset_finds_name_after_fn_keyword() {
    let content = Some("pub fn my_function(x: u32) -> u32 { x }\n".to_string());
    let offset = char_offset_of_name(&content, 1, "my_function");
    assert_eq!(offset, 7, "my_function starts at byte 7 after 'pub fn '");
}

#[test]
fn char_offset_returns_zero_for_missing_name() {
    let content = Some("pub fn other_function() {}\n".to_string());
    let offset = char_offset_of_name(&content, 1, "missing_name");
    assert_eq!(offset, 0);
}

#[test]
fn char_offset_respects_word_boundaries() {
    let content = Some("pub fn foobar() {}\n".to_string());
    let offset = char_offset_of_name(&content, 1, "foo");
    assert_eq!(offset, 0, "should not match 'foo' inside 'foobar'");
}

#[test]
fn names_are_placed_on_later_lines_and_in_bytes() {
    let content = Some("x\n/* é */ fn foo foo_bar(foo)\n".to_string());
    assert_eq!(char_offset_of_name(&content, 2, "foo"), 12);
    assert_eq!(char_offset_of_name(&content, 9, "foo"), 0);
    assert_eq!(char_offset_of_name(&None, 1, "foo"), 0);
    assert_eq!(lsp::fn_name_char_offset(&content, 2, "foo"), 12);
    assert_eq!(lsp::fn_name_char_offset(&content, 2, "zzz"), 3);
    assert_eq!(lsp::fn_name_char_offset(&None, 2, "foo"), 3);
    let accented = Some("fn éfoo() {} foo".to_string());
    assert_eq!(char_offset_of_name(&accented, 1, "foo"), 5);
}

#[test]
fn frames_carry_their_length_in_bytes() {
    assert_eq!(write_msg("{}"), "Content-Length: 2\r\n\r\n{}");
    assert_eq!(write_msg("é"), "Content-Length: 2\r\n\r\né");
    assert_eq!(read_header("Content-Length: 2\r\n"), HeaderLine::Length(2));
    assert_eq!(read_header("\r\n"), HeaderLine::End);
    assert_eq!(read_header("Content-Type: x\r\n"), HeaderLine::Other);
    assert_eq!(read_header("Content-Length: two\r\n"), HeaderLine::Bad);
    assert_eq!(parse_count("+7"), Some(7));
    assert_eq!(parse_count("18446744073709551616"), None);
}

#[test]
fn headers_give_the_length() {
    let lines = |v: &[&str]| v.iter().map(|s| s.to_string()).collect::<Vec<String>>();
    assert_eq!(read_msg(&lines(&["Content-Length: 12\r\n"])), Ok(12));
    assert_eq!(
        read_msg(&lines(&["Content-Type: x\r\n"])),
        Err("LSP message with zero content-length")
    );
    assert_eq!(
        read_msg(&lines(&["Content-Length: x\r\n"])),
        Err("LSP message with unreadable content-length")
    );
}

#[test]
fn requests_are_numbered_and_quoted() {
    let mut client = LspClient::new();
    let (id, sent) = client.rename("file:///a \"b\".rs", 4, 7, "new");
    assert_eq!(id, 1);
    let body = sent.split("\r\n\r\n").nth(1).unwrap();
    let msg = value(body);
    assert_eq!(msg.field_text("method").unwrap(), "textDocument/rename");
    let params = msg.field("params").unwrap();
    assert_eq!(params.field_text("newName").unwrap(), "new");
    assert_eq!(
        params.field("textDocument").unwrap().field_text("uri").unwrap(),
        "file:///a \"b\".rs"
    );
    assert_eq!(params.field("position").unwrap().field_int("line"), Some(3));
    assert_eq!(params.field("position").unwrap().field_int("character"), Some(7));
    let (id, _) = client.connect(9, "file:///w");
    assert_eq!(id, 2);
    assert!(answers(&value("{\"id\":2,\"result\":{}}"), 2));
    assert!(!answers(&value("{\"id\":\"2\"}"), 2));
}

#[test]
fn messages_are_well_formed_json() {
    let mut rename_client = LspClient::new();
    let mut client = lsp::LspClient::spawn();
    let options = Some(lsp::TYPESCRIPT_OPTIONS.to_string());
    let sent = vec![
        rename_client.connect(1, "file:///w").1,
        rename_client.initialized(),
        rename_client.open_document("file:///w/a.rs", "fn a() {}\n\"\t"),
        client.initialize(1, "file:///w", &options).1,
        client.initialize(1, "file:///w", &None).1,
        client.did_open("file:///w/a.ts", "typescript", "let a = `x`;\n"),
        client.inlay_hints("file:///w/a.ts", 9999).1,
        client.prepare_calls("file:///w/a.ts", 1, 2).1,
        client.ask_calls("{\"name\":\"x\"}").1,
        client.prepare_rename("file:///w/a.ts", 1, 2).1,
        client.rename_symbol(&Json::Bool(true), "file:///w/a.ts", 1, 2, "n").unwrap().1,
        client.shutdown().1,
        lsp::acknowledge("3"),
    ];
    for s in &sent {
        let (head, body) = s.split_once("\r\n\r\n").unwrap();
        assert_eq!(head, format!("Content-Length: {}", body.len()));
        assert!(json::parse(body).is_some(), "{}", body);
    }
    assert!(client.rename_symbol(&Json::Null, "u", 0, 0, "n").is_err());
    assert_eq!(rename_client.shutdown().matches("Content-Length").count(), 2);
}

#[test]
fn readiness_follows_progress() {
    let mut s = ready_start();
    assert_eq!(wait_limit(&s, 60_000), 2000);
    let begin = value(
        "{\"method\":\"$/progress\",\"params\":{\"token\":1,\"value\":{\"kind\":\"begin\",\"title\":\"Indexing\",\"message\":\"core\",\"percentage\":5}}}",
    );
    match on_message(&mut s, &begin, "1") {
        ReadyAction::Show(t) => assert_eq!(t, "Indexing  core (5%)"),
        _ => panic!("progress is shown"),
    }
    assert_eq!(s.active, vec!["1"]);
    assert_eq!(wait_limit(&s, 60_000), 60_000);
    assert!(matches!(on_silence(&s), ReadyAction::Disconnected));
    let end = value(
        "{\"method\":\"$/progress\",\"params\":{\"token\":1,\"value\":{\"kind\":\"end\"}}}",
    );
    match on_message(&mut s, &end, "1") {
        ReadyAction::Show(t) => assert_eq!(t, "Indexing"),
        _ => panic!("progress is shown"),
    }
    assert!(s.active.is_empty());
    assert!(matches!(on_silence(&s), ReadyAction::Ready));
    let busy = value(
        "{\"method\":\"experimental/serverStatus\",\"params\":{\"quiescent\":false}}",
    );
    assert!(matches!(on_message(&mut s, &busy, ""), ReadyAction::Wait));
    let settled =
        value("{\"method\":\"experimental/serverStatus\",\"params\":{\"quiescent\":true}}");
    assert!(matches!(on_message(&mut s, &settled, ""), ReadyAction::Ready));
    assert!(lsp::is_quiescent(&settled));
    assert!(!lsp::is_quiescent(&busy));
}

#[test]
fn messages_with_an_id_belong_to_requests() {
    assert!(is_response(&value("{\"id\":1}")));
    assert!(is_response(&value("{\"id\":null}")));
    assert!(!is_response(&value("{\"method\":\"x\"}")));
    assert!(!is_response(&value("[1]")));
}

#[test]
fn renames_are_retried_while_content_changes() {
    let modified = value("{\"error\":{\"code\":-32801,\"message\":\"content modified\"}}");
    assert_eq!(rename_step(&modified, 1), RenameStep::Retry(500));
    assert_eq!(rename_step(&modified, 4), RenameStep::Retry(2000));
    assert_eq!(rename_step(&modified, 5), RenameStep::Refused);
    assert_eq!(rename_step(&value("{\"error\":{\"code\":1}}"), 1), RenameStep::Refused);
    assert_eq!(rename_step(&value("{\"error\":null}"), 1), RenameStep::Refused);
    assert_eq!(rename_step(&value("{\"result\":null}"), 1), RenameStep::Nothing);
    assert_eq!(rename_step(&value("{\"result\":{}}"), 1), RenameStep::Done);
}

#[test]
fn answers_of_the_user() {
    assert!(is_yes("\n"));
    assert!(is_yes(" YES \n"));
    assert!(is_yes("Y"));
    assert!(!is_yes("no"));
}

#[test]
fn incoming_messages_are_told_apart() {
    let of = |t: &str| lsp::classify(&value(t), 4);
    assert_eq!(of("{\"method\":\"m\",\"id\":null}"), lsp::Incoming::ServerRequest);
    assert_eq!(of("{\"method\":\"m\"}"), lsp::Incoming::Notification);
    assert_eq!(of("{\"id\":4,\"result\":null}"), lsp::Incoming::Answer);
    assert_eq!(of("{\"id\":4,\"error\":{}}"), lsp::Incoming::Failure);
    assert_eq!(of("{\"id\":5,\"result\":null}"), lsp::Incoming::Other);
    assert!(lsp::is_kept(&value("{\"method\":\"m\"}")));
    assert!(!lsp::is_kept(&value("{\"id\":1}")));
}

#[test]
fn diagnostics_settle_files() {
    let mut pending = vec!["file:///a".to_string(), "file:///b".to_string()];
    let msg = value(
        "{\"method\":\"textDocument/publishDiagnostics\",\"params\":{\"uri\":\"file:///a\"}}",
    );
    assert_eq!(lsp::diagnostics_uri(&msg).as_deref(), Some("file:///a"));
    lsp::note_diagnostics(&mut pending, &msg);
    assert_eq!(pending, vec!["file:///b"]);
    lsp::note_diagnostics(&mut pending, &value("{\"method\":\"other\"}"));
    assert_eq!(pending, vec!["file:///b"]);
}

#[test]
fn calls_become_trusted_edges() {
    let calls = value(
        "[{\"to\":{\"name\":\"g\",\"uri\":\"file:///w/b.rs\",\"range\":{\"start\":{\"line\":9}}}},{\"to\":{\"name\":\"\",\"uri\":\"file:///w/b.rs\"}},{\"to\":{\"name\":\"h\",\"uri\":\"file:///w/z.rs\"}}]",
    );
    let targets = lsp::outgoing_calls(&calls);
    assert_eq!(targets.len(), 2);
    assert_eq!((targets[0].name.as_str(), targets[0].line), ("g", 9));
    let index = vec![lsp::PathLine { path: "/w/b.rs".to_string(), line: 10, id: 77 }];
    let report = lsp::collect_calls(
        &vec![
            lsp::FnCalls { fn_id: 1, outcome: lsp::CallOutcome::Targets(targets) },
            lsp::FnCalls { fn_id: 2, outcome: lsp::CallOutcome::TimedOut },
            lsp::FnCalls { fn_id: 3, outcome: lsp::CallOutcome::Refused },
        ],
        &index,
    );
    assert_eq!(report.edges, vec![(1, 77)]);
    assert_eq!((report.with_edges, report.timeouts), (1, 1));
}

#[test]
fn impls_link_to_traits_of_their_names() {
    let s = |id: i64, kind: &str, name: &str| lsp::NamedSymbol {
        id,
        kind: kind.to_string(),
        name: name.to_string(),
    };
    let symbols = vec![s(1, "trait", "Shape"), s(2, "impl", "Shape"), s(3, "impl", "Circle")];
    assert_eq!(lsp::trait_impl_edges(&symbols), vec![(2, 1)]);
}

#[test]
fn return_types_come_from_the_furthest_hint() {
    assert!(lsp::has_explicit_return_type("f(a: number): string"));
    assert!(!lsp::has_explicit_return_type("f(a: number)"));
    assert!(lsp::has_explicit_return_type("function foo(x): (y: number) => void"));
    assert!(lsp::has_explicit_return_type("function foo(x: (y: number) => void): string"));
    assert!(!lsp::has_explicit_return_type("function foo(x: (y: number) => void)"));
    assert!(lsp::has_explicit_return_type("f<T extends (a: string) => void>(x: T): T"));
    assert!(!lsp::has_explicit_return_type("f<T extends (a: string) => void>(x: T)"));
    let hints = value(
        "[{\"kind\":1,\"position\":{\"line\":2,\"character\":5},\"label\":\": number\"},{\"kind\":1,\"position\":{\"line\":2,\"character\":30},\"label\":[{\"value\":\": \"},{\"value\":\"Promise\"}]},{\"kind\":2,\"position\":{\"line\":2,\"character\":90},\"label\":\"x\"}]",
    );
    let items = hints.items().unwrap();
    assert_eq!(lsp::return_type_hint_on_line(items, 2).as_deref(), Some(": Promise"));
    assert_eq!(lsp::return_type_hint_on_line(items, 3), None);
    assert_eq!(lsp::show_type(" : Promise "), "Promise");
    let long = "a".repeat(200);
    assert_eq!(lsp::show_type(&long).chars().count(), 121);
    let fns = vec![lsp::FnSignature {
        id: 5,
        uri: "u".to_string(),
        line: 2,
        signature: Some("f(a)".to_string()),
    }];
    let mut out = Vec::new();
    lsp::signature_updates(&fns, "u", items, &mut out);
    assert_eq!(out, vec![(5, "f(a): Promise".to_string())]);
    lsp::signature_updates(&fns, "other", items, &mut out);
    assert_eq!(out.len(), 1);
}

#[test]
fn servers_by_language() {
    assert_eq!(lsp::enrich("rust"), Some(lsp::Enricher::Rust));
    assert_eq!(lsp::enrich("css"), None);
    let ts = lsp::server(lsp::enrich("typescript").unwrap());
    assert_eq!((ts.command, ts.gives_hints), ("typescript-language-server", true));
    assert_eq!(
        lsp::which_server("/home/u", "svelteserver")[2],
        "/home/u/.local/bin/svelteserver"
    );
    assert_eq!(lsp::lsp_line(12), 11);
    assert_eq!(lsp::lsp_line(0), 0);
    assert_eq!(lsp::uri_to_path("file:///a/b.rs"), "/a/b.rs");
}

#[test]
fn sockets_and_timeouts() {
    assert_eq!(sock_path("/w"), "/w/.graphlite/watcher.sock");
    assert_eq!(read_timeout(&WatchMsg::Ping), 2);
    let rename = WatchMsg::Rename { symbol: "a".to_string(), new_name: "b".to_string() };
    assert_eq!(read_timeout(&rename), 120);
    let bad = WatchResponse::of(Err("no".to_string()));
    assert!(!bad.ok);
    assert_eq!(bad.error.as_deref(), Some("no"));
    assert_eq!(unreadable("x").error.as_deref(), Some("parse error: x"));
}

#[test]
fn only_source_changes_are_relevant() {
    let paths = |v: &[&str]| v.iter().map(|s| s.to_string()).collect::<Vec<String>>();
    assert!(is_relevant(FileEvent::Written, &paths(&["/w/src/a.rs"])));
    assert!(!is_relevant(FileEvent::Other, &paths(&["/w/src/a.rs"])));
    assert!(!is_relevant(FileEvent::Written, &paths(&["/w/.graphlite/x.rs", "/w/a.txt"])));
}

#[test]
fn bursts_are_indexed_once() {
    let mut pending = false;
    let mut indexed = 0;
    for wake in [Wake::FileChanged, Wake::Request, Wake::FileChanged, Wake::Quiet] {
        let (next, action) = step(pending, wake);
        pending = next;
        if action == Action::Reindex {
            indexed += 1;
        }
    }
    assert_eq!((indexed, pending), (1, false));
    assert_eq!(step(true, Wake::Closed).1, Action::Stop);
    assert_eq!(graphlite::watch::wait_limit(true), Some(500));
    assert_eq!(graphlite::watch::wait_limit(false), None);
}

fn target(role: &str, line: u32) -> RenameTarget {
    RenameTarget {
        file: "./src/a.rs".to_string(),
        range_start: line,
        name: "run".to_string(),
        role: role.to_string(),
    }
}

#[test]
fn symbols_to_rename_are_found() {
    assert!(matches!(rename_lookup("sym:12"), RenameLookup::Id(12)));
    assert!(matches!(rename_lookup("a::b"), RenameLookup::StableId(_)));
    assert!(matches!(rename_lookup("sym:run"), RenameLookup::Name(_)));
    let names = vec![target("leaf", 1), target("domain", 2), target("orchestrator", 3)];
    let found = resolve_node_for_rename("run", None, None, &names).unwrap();
    assert_eq!(found.range_start, 3);
    let stable = resolve_node_for_rename("a::b", None, Some(target("x", 9)), &names).unwrap();
    assert_eq!(stable.range_start, 9);
    assert_eq!(
        resolve_node_for_rename("12", None, None, &names).unwrap_err(),
        "node id 12 not found"
    );
    assert_eq!(
        resolve_node_for_rename("sym:zzz", None, None, &Vec::new()).unwrap_err(),
        "symbol 'sym:zzz' not found in database"
    );
}

#[test]
fn refused_renames_drop_the_server() {
    let (r, keep) = dispatch_rename(RenameOutcome::Refused("no".to_string()));
    assert!(!r.ok && !keep);
    let (r, keep) = dispatch_rename(RenameOutcome::NoServer("x".to_string()));
    assert_eq!(r.error.as_deref(), Some("failed to start rust-analyzer: x"));
    assert!(keep);
    let (r, keep) = dispatch_rename(RenameOutcome::NotFound("x".to_string()));
    assert!(!r.ok && keep);
    let (r, _) = dispatch_rename(RenameOutcome::Done("{}".to_string()));
    assert_eq!(r.data.as_deref(), Some("{}"));
}

#[test]
fn pages_are_served() {
    assert_eq!(route("GET / HTTP/1.1\r\n"), Some(Route::Page));
    assert_eq!(route("GET /index.html HTTP/1.1\r\n"), Some(Route::Page));
    assert_eq!(route("GET /events HTTP/1.1\r\n"), Some(Route::Events));
    assert_eq!(route("GET /x HTTP/1.1\r\n"), Some(Route::Missing));
    assert_eq!(route("GET"), None);
    assert!(ends_headers("\r\n"));
    assert!(!ends_headers("Host: x\r\n"));
    let page = inject_sse("<body>x</body>");
    assert!(page.starts_with("<body>x<script>"));
    assert!(page.ends_with("</script></body>"));
    assert!(serve_html("é").contains("Content-Length: 2\r\n"));
    assert_eq!(sse_frame(StreamWake::Changed), Some("data: reload\n\n"));
    assert_eq!(sse_frame(StreamWake::Quiet), Some(": ping\n\n"));
    assert_eq!(sse_frame(StreamWake::Gone), None);
}

#[test]
fn what_servers_say_is_sorted() {
    let edge = LspEdge {
        from_id: 1,
        to_id: 2,
        edge_type: "CALLS_TRUSTED".to_string(),
        source: "rust-analyzer".to_string(),
    };
    let (edges, sigs) = collect_results(vec![
        EdgeMsg::SigUpdate(3, "f(): x".to_string()),
        EdgeMsg::Edge(edge),
    ]);
    assert_eq!(edges.len(), 1);
    assert_eq!(sigs, vec![(3, "f(): x".to_string())]);
    assert!(goes_on(Indexed::Changed(2)));
    assert!(!goes_on(Indexed::Changed(0)));
    assert!(!goes_on(Indexed::Failed));
    assert!(keeps_client(Asked::Answered));
    assert!(!keeps_client(Asked::Panicked));
}

#[test]
fn rust_analyzer_is_set_up() {
    let yes = Some("Y\n".to_string());
    let no = Some("n\n".to_string());
    assert_eq!(ensure_rust_analyzer(true, false, &None), Setup::Ready);
    assert_eq!(ensure_rust_analyzer(false, false, &yes), Setup::NoRustup);
    assert_eq!(ensure_rust_analyzer(false, true, &yes), Setup::Install);
    assert_eq!(ensure_rust_analyzer(false, true, &no), Setup::Declined);
    assert_eq!(ensure_rust_analyzer(false, true, &None), Setup::Install);
    assert_eq!(Setup::Install.refusal(), None);
    assert!(Setup::NoRustup.refusal().unwrap().ends_with("See: https://rust-analyzer.github.io"));
    assert!(Setup::Declined.refusal().unwrap().starts_with("rust-analyzer is required"));
}

fn lsp_fn(id: i64, path: &str, range_start: i64, name: &str, content: Option<&str>) -> lsp::LspFn {
    lsp::LspFn {
        id,
        path: path.to_string(),
        range_start,
        name: name.to_string(),
        signature: Some(format!("function {}()", name)),
        content: content.map(|c| c.to_string()),
    }
}

fn two_fns() -> Vec<lsp::LspFn> {
    let text = "function a() {}\nfunction b() {}\n";
    vec![
        lsp_fn(1, "/p/a.ts", 1, "a", Some(text)),
        lsp_fn(2, "/p/a.ts", 2, "b", Some(text)),
        lsp_fn(3, "/p/c.ts", 5, "c", None),
    ]
}

#[test]
fn typescript_server_is_told_of_files_and_asked() {
    let tasks = lsp::enrichment_plan(lsp::Enricher::TypeScript, &two_fns());
    assert_eq!(tasks.len(), 9);
    assert!(matches!(&tasks[0], lsp::Task::Initialize(Some(o)) if o == lsp::TYPESCRIPT_OPTIONS));
    assert!(matches!(
        &tasks[1],
        lsp::Task::Open { uri, language_id, text }
            if uri == "file:///p/a.ts" && language_id == "typescript" && text.len() == 32
    ));
    assert!(matches!(
        &tasks[2],
        lsp::Task::AwaitFindings(uris) if *uris == vec!["file:///p/a.ts", "file:///p/c.ts"]
    ));
    assert!(matches!(&tasks[3], lsp::Task::Hints(uri) if uri == "file:///p/a.ts"));
    assert!(matches!(&tasks[4], lsp::Task::Hints(uri) if uri == "file:///p/c.ts"));
    assert!(matches!(
        &tasks[6],
        lsp::Task::Calls { fn_id: 2, uri, line: 1, character: 9 } if uri == "file:///p/a.ts"
    ));
    assert!(matches!(&tasks[7], lsp::Task::Calls { fn_id: 3, line: 4, character: 3, .. }));
    assert!(matches!(&tasks[8], lsp::Task::Shutdown));
    assert!(lsp::is_needed(&tasks[0]));
    assert!(!lsp::is_needed(&tasks[6]));
    assert!(lsp::is_needed(&tasks[8]));
}

#[test]
fn rust_analyzer_is_waited_for_and_asked() {
    let tasks = lsp::enrichment_plan(lsp::Enricher::Rust, &two_fns());
    assert_eq!(tasks.len(), 6);
    assert!(matches!(&tasks[0], lsp::Task::Initialize(None)));
    assert!(matches!(&tasks[1], lsp::Task::Settle));
    assert!(matches!(&tasks[5], lsp::Task::Shutdown));
    let none = lsp::enrichment_plan(lsp::Enricher::Svelte, &vec![]);
    assert_eq!(none.len(), 3);
    assert!(matches!(&none[1], lsp::Task::AwaitFindings(uris) if uris.is_empty()));
}

#[test]
fn what_servers_say_is_stored() {
    let hints = value("[{\"kind\":1,\"position\":{\"line\":1,\"character\":12},\"label\":\": number\"}]");
    let files = vec![lsp::FileHints {
        uri: "file:///p/a.ts".to_string(),
        hints: match hints {
            Json::Arr(items) => items,
            _ => vec![],
        },
    }];
    let calls = vec![
        lsp::FnCalls {
            fn_id: 1,
            outcome: lsp::CallOutcome::Targets(vec![lsp::LspCallTarget {
                name: "b".to_string(),
                uri: "file:///p/a.ts".to_string(),
                line: 1,
            }]),
        },
        lsp::FnCalls { fn_id: 2, outcome: lsp::CallOutcome::TimedOut },
    ];
    let index = vec![lsp::PathLine { path: "/p/a.ts".to_string(), line: 2, id: 2 }];
    let symbols = vec![
        lsp::NamedSymbol { id: 7, kind: "impl".to_string(), name: "T".to_string() },
        lsp::NamedSymbol { id: 8, kind: "trait".to_string(), name: "T".to_string() },
    ];
    let ts = lsp::enrichment(lsp::Enricher::TypeScript, &two_fns(), &files, &calls, &index, &symbols);
    assert_eq!(ts.edges, vec![(1, 2, "CALLS_TRUSTED")]);
    assert_eq!(ts.signatures, vec![(2, "function b(): number".to_string())]);
    assert_eq!((ts.with_edges, ts.timeouts), (1, 1));
    let rust = lsp::enrichment(lsp::Enricher::Rust, &two_fns(), &files, &calls, &index, &symbols);
    assert_eq!(rust.edges, vec![(1, 2, "CALLS_TRUSTED"), (7, 8, "TRAIT_IMPL")]);
    assert!(rust.signatures.is_empty());
}

#[test]
fn engine_indexes_then_asks_ready_servers() {
    let languages = vec!["rust".to_string(), "svelte".to_string()];
    let mut engine = Engine::new(&languages);
    assert!(matches!(engine.step(Happened::Quiet), Next::Wait));
    assert!(matches!(engine.step(Happened::FileChanged), Next::Wait));
    assert!(matches!(engine.step(Happened::FileChanged), Next::Wait));
    assert!(matches!(engine.step(Happened::Quiet), Next::Reindex(l) if l.is_empty()));
    assert!(matches!(engine.step(Happened::Quiet), Next::Wait));
    assert!(matches!(engine.step(Happened::Indexed(Indexed::Failed)), Next::Wait));
    assert!(matches!(engine.step(Happened::Indexed(Indexed::Changed(0))), Next::Wait));
    // No server is ready yet.
    let next = engine.step(Happened::Indexed(Indexed::Changed(1)));
    assert!(matches!(next, Next::Enrich(l) if l.is_empty()));
    engine.step(Happened::Warmed { language: "svelte".to_string(), ready: true });
    engine.step(Happened::Warmed { language: "css".to_string(), ready: true });
    let next = engine.step(Happened::Indexed(Indexed::Changed(1)));
    assert!(matches!(next, Next::Enrich(l) if l == vec!["svelte", "css"]));
    assert!(matches!(engine.step(Happened::Enriched), Next::Announce));
    assert!(matches!(engine.step(Happened::Closed), Next::Stop));
}

#[test]
fn engine_drops_failed_servers() {
    let mut engine = Engine::new(&vec!["rust".to_string()]);
    engine.step(Happened::Warmed { language: "rust".to_string(), ready: true });
    engine.step(Happened::Asked { language: "rust".to_string(), asked: Asked::Answered });
    let next = engine.step(Happened::Indexed(Indexed::Changed(3)));
    assert!(matches!(next, Next::Enrich(l) if l == vec!["rust"]));
    engine.step(Happened::Asked { language: "rust".to_string(), asked: Asked::Panicked });
    let next = engine.step(Happened::Indexed(Indexed::Changed(3)));
    assert!(matches!(next, Next::Enrich(l) if l.is_empty()));
    assert_eq!(engine.clients.len(), 1);
    assert_eq!(engine.clients[0].server, Server::Crashed);
    engine.step(Happened::FileChanged);
    let next = engine.step(Happened::Quiet);
    assert!(matches!(next, Next::Reindex(l) if l == vec!["rust"]));
    let next = engine.step(Happened::Indexed(Indexed::Changed(1)));
    assert!(matches!(next, Next::Enrich(l) if l.is_empty()));
    engine.step(Happened::Warmed { language: "rust".to_string(), ready: true });
    let next = engine.step(Happened::Indexed(Indexed::Changed(1)));
    assert!(matches!(next, Next::Enrich(l) if l == vec!["rust"]));
    engine.step(Happened::FileChanged);
    let next = engine.step(Happened::Quiet);
    assert!(matches!(next, Next::Reindex(l) if l.is_empty()));
}
