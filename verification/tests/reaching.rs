use graphlite::order::stable_sort;
use graphlite::query::neighborhood::{depth_limit, NeighborRow, NodeRow};
use graphlite::query::reach::{dependents, neighborhood};
use graphlite::query::search::{best_named, NameMatch};
use graphlite::roles::{is_io_name, measure, RoleNode};

fn edges() -> Vec<(i64, i64)> {
    vec![(1, 2), (1, 3), (2, 4), (3, 4), (4, 1), (4, 5)]
}

#[test]
fn neighbourhood_holds_every_distance() {
    assert_eq!(neighborhood(&edges(), 1, 0), vec![]);
    assert_eq!(neighborhood(&edges(), 1, 1), vec![(2, 1), (3, 1)]);
    assert_eq!(neighborhood(&edges(), 1, 3), vec![(2, 1), (3, 1), (4, 2), (5, 3)]);
    // Around the cycle the same symbols come again, further away.
    assert_eq!(
        neighborhood(&edges(), 1, 4),
        vec![(2, 1), (3, 1), (4, 2), (5, 3), (2, 4), (3, 4)]
    );
}

#[test]
fn neighbourhood_ends_where_edges_end() {
    assert_eq!(neighborhood(&vec![(1, 2)], 1, 1_000_000), vec![(2, 1)]);
    assert_eq!(neighborhood(&vec![], 1, 5), vec![]);
    assert_eq!(neighborhood(&vec![(1, 1)], 1, 5), vec![]);
}

#[test]
fn dependents_have_least_distance() {
    let all = dependents(&edges(), &vec![], 4, 50);
    assert_eq!(all, vec![(2, 1), (3, 1), (1, 2)]);
    assert_eq!(dependents(&edges(), &vec![], 4, 1), vec![(2, 1), (3, 1)]);
    assert_eq!(dependents(&edges(), &vec![], 5, 50), vec![(4, 1), (2, 2), (3, 2), (1, 3)]);
}

#[test]
fn users_of_a_type_depend_on_it_directly() {
    // 1 calls 2, and 2 names the type 9.
    assert_eq!(dependents(&vec![(1, 2)], &vec![2, 2], 9, 2), vec![(2, 1), (1, 2)]);
    assert_eq!(dependents(&vec![(1, 2)], &vec![2], 9, 1), vec![(2, 1)]);
    // An edge of its own gives the same distance.
    assert_eq!(dependents(&vec![(2, 9)], &vec![2], 9, 5), vec![(2, 1)]);
}

#[test]
fn further_reach_keeps_dependents() {
    let near = dependents(&edges(), &vec![], 5, 2);
    let far = dependents(&edges(), &vec![], 5, 3);
    for d in &near {
        assert!(far.contains(d));
    }
    assert!(far.len() > near.len());
}

fn found(id: i64, role: &str, fan_in: i64, file: &str) -> NameMatch {
    NameMatch { id, role: role.to_string(), fan_in, file: file.to_string() }
}

#[test]
fn best_symbol_of_a_name() {
    assert_eq!(best_named(vec![]), None);
    assert_eq!(
        best_named(vec![found(1, "test", 9, "a.rs"), found(2, "domain", 0, "z.rs")]),
        Some(2)
    );
    assert_eq!(
        best_named(vec![found(1, "util", 1, "a.rs"), found(2, "domain", 3, "z.rs")]),
        Some(2)
    );
    assert_eq!(
        best_named(vec![found(1, "util", 1, "b.rs"), found(2, "domain", 1, "a.rs")]),
        Some(2)
    );
    assert_eq!(
        best_named(vec![found(7, "util", 1, "a.rs"), found(3, "util", 1, "a.rs")]),
        Some(3)
    );
}

fn at(depth: i64, name: &str) -> NeighborRow {
    NeighborRow {
        node: NodeRow {
            id: 1,
            name: name.to_string(),
            kind: String::new(),
            file: String::new(),
            range_start: 1,
            range_end: 1,
            signature: None,
            visibility: String::new(),
            doc: None,
            fan_in: 0,
            fan_out: 0,
            role: String::new(),
            role_confidence: String::new(),
            role_uncertain: false,
            stable_id: String::new(),
            content: None,
            annotation: None,
            diagnostics: vec![],
        },
        depth,
        edge_type: None,
    }
}

#[test]
fn neighbours_are_ordered_by_distance_and_name() {
    let rows = stable_sort(vec![at(2, "a"), at(1, "c"), at(1, "b")]);
    let names: Vec<String> = rows.iter().map(|r| r.node.name.clone()).collect();
    assert_eq!(names, vec!["b", "c", "a"]);
}

#[test]
fn names_that_do_input_or_output() {
    for name in ["open", "ReadAll", "write_x", "query", "executeMany", "connect", "sender", "recv"] {
        assert!(is_io_name(name));
    }
    assert!(is_io_name("fetch_all"));
    assert!(is_io_name("spawn"));
    assert!(is_io_name("init_db"));
    assert!(!is_io_name("Spawn"));
    assert!(!is_io_name("spawned"));
    assert!(!is_io_name("reopen"));
    assert!(!is_io_name(""));
}

#[test]
fn connections_are_measured() {
    let node = RoleNode {
        id: 4,
        kind: "fn".to_string(),
        visibility: "pub".to_string(),
        file: "a.rs".to_string(),
        name: "run".to_string(),
        fan_in: 3,
        fan_out: 4,
    };
    let text = |v: &[&str]| v.iter().map(|s| s.to_string()).collect::<Vec<String>>();
    let m = measure(
        &node,
        &text(&["open_file", "parse", "read", "helper"]),
        &text(&["io.rs", "p.rs", "io.rs", "a.rs"]),
        &text(&["m.rs", "m.rs", "t.rs"]),
    );
    assert_eq!((m.id, m.fan_in, m.fan_out), (4, 3, 4));
    assert_eq!(m.io_call_count, 2);
    assert_eq!(m.callee_file_spread, 3);
    assert_eq!(m.caller_file_spread, 2);
    assert_eq!(m.name, "run");
}

#[test]
fn a_depth_of_zero_reaches_the_end_of_a_chain() {
    let chain: Vec<(i64, i64)> = (1..61).map(|i| (i + 1, i)).collect();
    let found = dependents(&chain, &Vec::new(), 1, depth_limit(0));
    assert_eq!(found.len(), 60);
    assert_eq!(found[59], (61, 60));
    let near = dependents(&chain, &Vec::new(), 1, depth_limit(2));
    assert_eq!(near, vec![(2, 1), (3, 2)]);
    let round = vec![(2, 1), (1, 2), (3, 2)];
    let ids: Vec<i64> =
        dependents(&round, &Vec::new(), 1, depth_limit(0)).iter().map(|d| d.0).collect();
    assert!(ids.contains(&2) && ids.contains(&3));
}
