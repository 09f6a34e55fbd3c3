use graphlite::ipc::WatchResponse;
use graphlite::json;
use graphlite::refactor::{
    apply_edits, apply_file_edits, apply_text_edits, count_affected_files, diff_rename,
    needs_watcher, parse_workspace_edit, rename, uri_to_path, utf16_to_byte_offset, FileEdits,
    TextEdit,
};

fn edit(line: u32, a: u32, b: u32, text: &str) -> TextEdit {
    TextEdit {
        start_line: line,
        start_char: a,
        end_line: line,
        end_char: b,
        new_text: text.to_string(),
    }
}

#[test]
fn edits_are_applied_in_any_order() {
    let source = "fn helper() {}\nfn run() { helper(); helper(); }\n";
    let edits = vec![
        edit(0, 3, 9, "renamed"),
        edit(1, 11, 17, "renamed"),
        edit(1, 21, 27, "renamed"),
    ];
    assert_eq!(
        apply_file_edits(source, edits).unwrap(),
        "fn renamed() {}\nfn run() { renamed(); renamed(); }\n"
    );
    assert_eq!(apply_text_edits(source, &Vec::new()).unwrap(), source);
}

#[test]
fn edits_count_units_of_utf16() {
    let lines = vec!["a😀b".to_string()];
    assert_eq!(utf16_to_byte_offset(&lines, 0, 1), 1);
    assert_eq!(utf16_to_byte_offset(&lines, 0, 3), 5);
    assert_eq!(utf16_to_byte_offset(&lines, 1, 0), 7);
    assert_eq!(apply_text_edits("a😀b", &vec![edit(0, 3, 4, "c")]).unwrap(), "a😀c");
}

#[test]
fn edits_that_do_not_fit_are_refused() {
    assert_eq!(
        apply_text_edits("abc", &vec![edit(7, 0, 1, "x")]).unwrap_err(),
        "edit does not fit the file"
    );
}

#[test]
fn files_are_changed_all_or_none() {
    let file = |path: &str, line: u32| FileEdits {
        path: path.to_string(),
        edits: vec![edit(line, 0, 1, "X")],
    };
    let contents = vec!["abc".to_string(), "def".to_string()];
    let staged = apply_edits(vec![file("a", 0), file("b", 0)], &contents).unwrap();
    assert_eq!(staged[0].path, "a");
    assert_eq!(staged[0].content, "Xbc");
    assert_eq!(staged[1].content, "Xef");
    assert!(apply_edits(vec![file("a", 0), file("b", 9)], &contents).is_err());
}

const DOCUMENT_CHANGES: &str = r#"{"documentChanges":[{"textDocument":{"uri":"file:///w/a.rs"},"edits":[{"range":{"start":{"line":0,"character":1},"end":{"line":0,"character":2}},"newText":"x"}]}]}"#;

const CHANGES: &str = r#"{"changes":{"file:///w/a.rs":[{"range":{"start":{"line":0,"character":1},"end":{"line":0,"character":2}},"newText":"x"}],"file:///w/b.rs":[]}}"#;

#[test]
fn workspace_edits_are_read_in_both_forms() {
    for (text, count) in [(DOCUMENT_CHANGES, 1), (CHANGES, 2)] {
        let value = json::parse(text).unwrap();
        assert_eq!(count_affected_files(&value), count);
        let files = parse_workspace_edit(&value).unwrap();
        assert_eq!(files[0].path, "/w/a.rs");
        assert_eq!(files[0].edits[0].new_text, "x");
        assert_eq!(files[0].edits[0].end_char, 2);
    }
    let bad = json::parse(r#"{"documentChanges":[{"edits":[]}]}"#).unwrap();
    assert!(parse_workspace_edit(&bad).is_err());
    assert_eq!(uri_to_path("plain"), "plain");
}

#[test]
fn differences_are_quoted() {
    let shown = diff_rename("/w/a.rs", "fn \"a\"() {}\n", &vec![edit(0, 3, 6, "b\tc")]).unwrap();
    assert_eq!(shown.trim_end(), "/w/a.rs L1:3: \"\\\"a\\\"\" -> \"b\\tc\"");
}

#[test]
fn renames_need_a_watcher_and_data() {
    assert_eq!(
        needs_watcher(".", "sym:a", "b"),
        "rename requires an active watcher.\nStart it with:  graphlite watch .\nThen retry:     graphlite rename sym:a b"
    );
    let answer = |ok: bool, error: Option<&str>, data: Option<&str>| WatchResponse {
        ok,
        error: error.map(|s| s.to_string()),
        data: data.map(|s| s.to_string()),
    };
    assert_eq!(rename(answer(true, None, Some("{}"))), Ok("{}".to_string()));
    assert_eq!(
        rename(answer(true, None, None)),
        Err("watcher returned no edit data".to_string())
    );
    assert_eq!(rename(answer(false, Some("no"), None)), Err("no".to_string()));
    assert_eq!(rename(answer(false, None, None)), Err("rename failed".to_string()));
}
