use graphlite::insert::{call_edges, index_symbols, NameRow};
use graphlite::language::{detect_language, Language};
use graphlite::parser::{extract_doc, extract_file_doc, fnv1a_hash, kind_from_node, parse_file};
use graphlite::syntax::{parse_and_query, ParseFailure};

const RUST_SOURCE: &str = "//! File doc.\n//! More.\n\nuse std::fmt;\n\n/// A point.\npub struct Point {\n    x: i64,\n}\n\nimpl Point {\n    pub fn new(x: i64) -> Point {\n        helper(x);\n        Point { x }\n    }\n}\n\nfn helper(x: i64) -> i64 {\n    x\n}\n";

#[test]
fn rust_symbols_are_found() {
    let r = parse_file("./src/point.rs", RUST_SOURCE).unwrap();
    let found: Vec<(&str, &str, u32, u32)> = r
        .symbols
        .iter()
        .map(|s| (s.kind.as_str(), s.name.as_str(), s.range_start, s.range_end))
        .collect();
    assert_eq!(
        found,
        vec![
            ("struct", "Point", 7, 9),
            ("impl", "Point", 11, 16),
            ("fn", "new", 12, 15),
            ("fn", "helper", 18, 20),
        ]
    );
    assert_eq!(r.file_doc.as_deref(), Some("File doc.\nMore."));
    let point = &r.symbols[0];
    assert_eq!(point.doc.as_deref(), Some("A point."));
    assert_eq!(point.language, "rust");
    assert_eq!(point.visibility, "pub");
    let new = &r.symbols[2];
    assert_eq!(new.signature.as_deref(), Some("pub fn new(x: i64) -> Point"));
    assert_eq!(new.stable_id, "src/point.rs::fn::Point::new");
    let helper = &r.symbols[3];
    assert_eq!(helper.visibility, "private");
    assert_eq!(helper.stable_id, "src/point.rs::fn::helper");
}

#[test]
fn rust_calls_are_found() {
    let r = parse_file("./src/point.rs", RUST_SOURCE).unwrap();
    assert!(r
        .edges
        .iter()
        .any(|e| e.from_name == "new" && e.to_name == "helper" && e.edge_type == "CALLS"));
}

#[test]
fn typescript_symbols_are_found() {
    let source = "export function greet(name: string): string {\n  return hello(name);\n}\n\ninterface Shape {\n  area(): number;\n}\n\nconst twice = (x: number) => x * 2;\n";
    let r = parse_file("./web/greet.ts", source).unwrap();
    let names: Vec<(&str, &str)> =
        r.symbols.iter().map(|s| (s.kind.as_str(), s.name.as_str())).collect();
    assert!(names.contains(&("fn", "greet")));
    assert!(names.contains(&("interface", "Shape")));
    assert!(names.contains(&("fn", "twice")));
    assert!(r.edges.iter().any(|e| e.to_name == "hello"));
}

#[test]
fn javascript_symbols_are_found() {
    let source = "class Box {\n  open() { return unlock(this); }\n}\n";
    let r = parse_file("./web/box.js", source).unwrap();
    let names: Vec<(&str, &str)> =
        r.symbols.iter().map(|s| (s.kind.as_str(), s.name.as_str())).collect();
    assert!(names.contains(&("class", "Box")));
    assert!(names.contains(&("fn", "open")));
}

#[test]
fn svelte_script_symbols_keep_their_lines() {
    let source = "<h1>Title</h1>\n<script lang=\"ts\">\n  function load(id: number) {\n    return fetch(id);\n  }\n</script>\n";
    let r = parse_file("./web/Page.svelte", source).unwrap();
    let load = r.symbols.iter().find(|s| s.name == "load").unwrap();
    assert_eq!(load.range_start, 3);
    assert_eq!(load.range_end, 5);
}

#[test]
fn html_and_css_symbols_are_found() {
    let html = parse_file("./web/index.html", "<main>\n<p>Hi</p>\n</main>\n").unwrap();
    let names: Vec<&str> = html.symbols.iter().map(|s| s.name.as_str()).collect();
    assert_eq!(names, vec!["main", "p"]);
    let css = parse_file("./web/site.css", ".card { color: red; }\n").unwrap();
    assert_eq!(css.symbols.len(), 1);
    assert_eq!(css.symbols[0].name.trim(), ".card");
}

#[test]
fn symbols_start_on_lines_of_their_own() {
    let r = parse_file("./src/a.rs", "fn a() {} fn b() {}\nfn c() {}\n").unwrap();
    let mut lines: Vec<u32> = r.symbols.iter().map(|s| s.range_start).collect();
    lines.dedup();
    assert_eq!(lines, vec![1, 2]);
}

#[test]
fn unknown_extension_is_refused() {
    assert!(parse_file("./notes.txt", "text").is_err());
}

#[test]
fn bad_query_is_told_apart() {
    match parse_and_query(Language::Rust, "(no_such_node) @x", "fn a() {}") {
        Err(ParseFailure::BadQuery) => {}
        _ => panic!("a query on unknown nodes is refused"),
    }
}

#[test]
fn syntax_nodes_come_before_those_below_them() {
    let p = parse_and_query(Language::Rust, "(function_item) @f", "fn a() {}").unwrap();
    assert_eq!(p.nodes[0].kind, "source_file");
    assert_eq!(p.nodes[0].depth, 0);
    assert_eq!(p.nodes[1].kind, "function_item");
    assert_eq!(p.nodes[1].depth, 1);
    assert_eq!(p.hits.len(), 1);
    assert_eq!(p.hits[0].captures[0].name, "f");
    assert_eq!(p.hits[0].captures[0].start_byte, 0);
    assert_eq!(p.hits[0].captures[0].end_byte, 9);
}

#[test]
fn languages_by_extension() {
    assert_eq!(detect_language("a/b.rs"), Some(Language::Rust));
    assert_eq!(detect_language("a/b.tsx"), Some(Language::TypeScript));
    assert_eq!(detect_language("a/b.mjs"), Some(Language::JavaScript));
    assert_eq!(detect_language("a/b.svelte"), Some(Language::Svelte));
    assert_eq!(detect_language("a/b.htm"), Some(Language::Html));
    assert_eq!(detect_language("a/b.css"), Some(Language::Css));
    assert_eq!(detect_language("a/b.py"), None);
    assert_eq!(detect_language("a/rs"), None);
}

#[test]
fn kinds_of_nodes() {
    assert_eq!(kind_from_node("function_item"), "fn");
    assert_eq!(kind_from_node("lexical_declaration"), "const");
    assert_eq!(kind_from_node("comment"), "unknown");
}

#[test]
fn docs_above_a_symbol() {
    let source = "/// One.\n/// Two.\n#[test]\nfn a() {}\n";
    assert_eq!(extract_doc(source, 3).as_deref(), Some("One.\nTwo."));
    assert_eq!(extract_doc("fn a() {}\n", 0), None);
}

#[test]
fn file_docs_by_language() {
    assert_eq!(
        extract_file_doc("//! Top.\nfn a() {}\n", Language::Rust).as_deref(),
        Some("Top.")
    );
    assert_eq!(extract_file_doc("fn a() {}\n", Language::Rust), None);
}

#[test]
fn content_hash_is_fnv1a() {
    assert_eq!(fnv1a_hash("", 0, 0), "cbf29ce484222325");
    assert_eq!(fnv1a_hash("xay", 1, 2), "af63dc4c8601ec8c");
}

#[test]
fn tests_are_marked_by_their_attributes() {
    let source = "#[test]\nfn a() {}\n\n#[tokio::test(flavor = \"x\")]\n// why\n#[ignore]\nasync fn b() {}\nfn c() {}\n#[tokio::test]\nasync fn d() {}\n#[inline]\nfn e() {}\n";
    let parsed = parse_file("./src/a.rs", source).unwrap();
    let marks: Vec<(String, bool)> = index_symbols(source, parsed.symbols)
        .into_iter()
        .map(|s| (s.symbol.name, s.is_test_fn))
        .collect();
    let of = |name: &str| marks.iter().find(|m| m.0 == name).unwrap().1;
    assert!(of("a") && of("b") && of("d"));
    assert!(!of("c") && !of("e"));
}

#[test]
fn calls_by_name_become_edges() {
    let source = "fn a() { b(); b(); far(); twice(); missing(); }\nfn b() { a(); }\n";
    let parsed = parse_file("./src/a.rs", source).unwrap();
    let row = |id: i64, file: &str, name: &str| NameRow {
        id,
        file: file.to_string(),
        name: name.to_string(),
    };
    let rows = vec![
        row(9, "./src/z.rs", "b"),
        row(1, "./src/a.rs", "a"),
        row(2, "./src/a.rs", "b"),
        row(3, "./src/x.rs", "far"),
        row(4, "./src/x.rs", "twice"),
        row(5, "./src/y.rs", "twice"),
    ];
    let mut pairs = call_edges(&rows, &parsed.edges);
    pairs.sort();
    assert_eq!(pairs, vec![(1, 2), (1, 3), (2, 1)]);
    assert_eq!(call_edges(&Vec::new(), &parsed.edges), vec![]);
}
