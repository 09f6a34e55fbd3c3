use graphlite::json::{self, Json};
use graphlite::order::{count_text, distinct_keys, stable_sort};
use graphlite::paths::{base_name, extension, file_stem, join_path, parent, relative_to, within};
use graphlite::text::{
    byte_len, contains, ends_with, find, i64_text, join, lines, parse_i64,
    replace, slice_text, split_char, split_str, split_whitespace, starts_with, str_precedes,
    strip_prefix, strip_suffix, to_ascii_lowercase, trim, trim_start_matches,
    usize_text,
};
use graphlite::xml::{close, empty, finish, new_writer, open, open_attrs, text_tag, Attrs};

#[test]
fn searching_texts() {
    assert_eq!(find("abcabc", "ca"), Some(2));
    assert_eq!(find("abc", "x"), None);
    assert!(contains("graphlite", "lite"));
    assert!(starts_with("graphlite", "graph"));
    assert!(ends_with("graphlite", "lite"));
    assert_eq!(strip_prefix("sym:a", "sym:").as_deref(), Some("a"));
    assert_eq!(strip_suffix("a=", "=").as_deref(), Some("a"));
    assert_eq!(strip_suffix("a", "="), None);
}

#[test]
fn splitting_texts() {
    assert_eq!(split_char("a,,b", ','), vec!["a", "", "b"]);
    assert_eq!(split_str("a::b::c", "::"), vec!["a", "b", "c"]);
    assert_eq!(split_whitespace("  a \t b\n"), vec!["a", "b"]);
    assert_eq!(lines("a\r\nb\n"), vec!["a", "b"]);
    assert_eq!(join(&vec!["a".to_string(), "b".to_string()], ", "), "a, b");
    assert_eq!(trim("  x \u{a0}"), "x");
    assert_eq!(trim_start_matches("::::a", "::"), "a");
    assert_eq!(replace("aXbX", "X", "--"), "a--b--");
}

#[test]
fn numbers_as_texts() {
    assert_eq!(i64_text(i64::MIN), "-9223372036854775808");
    assert_eq!(usize_text(0), "0");
    assert_eq!(parse_i64("-12"), Some(-12));
    assert_eq!(parse_i64("+12"), Some(12));
    assert_eq!(parse_i64("9223372036854775808"), None);
    assert_eq!(parse_i64("1x"), None);
    assert_eq!(parse_i64(""), None);
}

#[test]
fn cases_of_letters() {
    assert!(graphlite::violations::matches_pattern("ÄÖ", &vec!["xäÖ".to_string()]));
    assert_eq!(to_ascii_lowercase("ÄB"), "Äb");
}

#[test]
fn bytes_of_texts() {
    assert_eq!(byte_len("é"), 2);
    assert_eq!(slice_text("aéb", 1, 3).as_deref(), Some("é"));
    assert_eq!(slice_text("aéb", 1, 2), None);
    assert_eq!(slice_text("a", 0, 9), None);
    assert!(str_precedes("a", "b"));
    assert!(str_precedes("a", "aa"));
    assert!(!str_precedes("b", "a"));
}

#[test]
fn sorting_is_stable() {
    let v = vec!["b".to_string(), "a".to_string(), "b".to_string()];
    assert_eq!(stable_sort(v.clone()), vec!["a", "b", "b"]);
    assert_eq!(distinct_keys(&v), vec!["a", "b"]);
    assert_eq!(count_text(&v, "b"), 2);
}

#[test]
fn paths_are_taken_apart() {
    assert_eq!(parent("/a/b/c.rs").as_deref(), Some("/a/b"));
    assert_eq!(parent("/"), None);
    assert_eq!(base_name("a/b.rs/").as_deref(), Some("b.rs"));
    assert_eq!(file_stem("a/b.tar.gz").as_deref(), Some("b.tar"));
    assert_eq!(extension("a/.hidden"), None);
    assert_eq!(join_path("/a", "b"), "/a/b");
    assert_eq!(join_path("/a/", "b"), "/a/b");
    assert_eq!(join_path("/a", "/b"), "/b");
    assert_eq!(join_path("", "b"), "b");
    assert!(within("/a/b/c", "/a/b"));
    assert!(!within("/a/bc", "/a/b"));
    assert_eq!(relative_to("/a/b/c", "/a"), "b/c");
}

#[test]
fn json_values_are_read() {
    let v = json::parse("{\"a\":[1,-2,1.5,true,null,\"x\\u00e9\"],\"b\":18446744073709551615}").unwrap();
    let items = v.field_items("a").unwrap();
    assert_eq!(items[0].integer(), Some(1));
    assert_eq!(items[1].integer(), Some(-2));
    assert_eq!(items[1].uint(), None);
    assert_eq!(items[2].integer(), None);
    assert_eq!(items[3].boolean(), Some(true));
    assert!(items[4].is_null());
    assert_eq!(items[5].text().unwrap(), "xé");
    assert_eq!(v.field("b").unwrap().uint(), Some(u64::MAX));
    assert_eq!(v.field_int("b"), None);
    assert!(v.field("c").is_none());
    assert!(json::parse("{").is_none());
    match json::read("{") {
        Err(why) => assert_eq!(why, "EOF while parsing an object at line 1 column 1"),
        Ok(_) => panic!("an open object is refused"),
    }
    assert!(matches!(json::read("true"), Ok(Json::Bool(true))));
    assert!(matches!(json::parse("null"), Some(Json::Null)));
}

#[test]
fn xml_is_written_and_escaped() {
    let mut w = new_writer();
    open_attrs(&mut w, "a", &Attrs::new().with("k", "x<\"&>"));
    empty(&mut w, "b", &Attrs::new().with("n", "1"));
    text_tag(&mut w, "t", "1 < 2 & 3");
    open(&mut w, "c");
    close(&mut w, "c");
    close(&mut w, "a");
    let text = finish(w);
    assert!(text.starts_with("<a k=\"x&lt;&quot;&amp;&gt;\">"));
    assert!(text.contains("\n  <b n=\"1\"/>"));
    assert!(text.contains("<t>1 &lt; 2 &amp; 3</t>"));
    assert!(text.ends_with("</a>"));
}

#[test]
fn paths_are_compared_by_their_components() {
    assert!(within("/repo//tools/a.rs", "/repo/tools"));
    assert!(within("/repo/tools/./a.rs", "/repo//tools/"));
    assert!(within("/repo", "/repo/"));
    assert!(within("a/b", ""));
    assert!(!within("/repo/toolset/a.rs", "/repo/tools"));
    assert!(!within("repo/a.rs", "/repo"));
    assert!(!within("a/b", "./a"));
    assert!(!within("/", "/a"));
    assert_eq!(relative_to("/repo//tools/a.rs", "/repo/tools"), "a.rs");
    assert_eq!(relative_to("/repo/./tools//b/./a.rs/.", "/repo"), "tools//b/./a.rs");
    assert_eq!(relative_to("/repo/tools", "/repo/tools/"), "");
    assert_eq!(relative_to("/a/b", "/"), "a/b");
    assert_eq!(relative_to("./a/", ""), "./a");
    assert_eq!(relative_to("/other/x", "/repo"), "/other/x");
}
