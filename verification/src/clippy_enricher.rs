//! Compiler and Clippy findings: read from `cargo clippy`'s messages and mapped to the
//! functions that they are in.

use vstd::prelude::*;

use crate::json::{self, bool_in, field_of, i64_in, items_in, json_text, text_in, Json, JsonView};
use crate::model::{views, Dup};
use crate::text::{
    begins_with, chars_of, concat2, digits_from, digits_number, find, find_from, is_digit, lines,
    line_seq, starts_with, str_eq, string_of, strip_prefix, suffix_from, trim, trim_end_char,
    trimmed, trimmed_char_end, without_prefix,
};

verus! {

broadcast use crate::model::group_views;

/// A finding: where it is, what it says, what it suggests, and the complexity that it
/// measures, if it does.
#[derive(Debug)]
pub struct Diagnostic {
    pub file: String,
    pub line: i32,
    pub code: String,
    pub level: String,
    pub message: String,
    pub suggestion: Option<String>,
    pub complexity: Option<i64>,
}

/// What a [`Diagnostic`] holds.
#[verifier::ext_equal]
pub struct DiagnosticView {
    pub file: Seq<char>,
    pub line: i32,
    pub code: Seq<char>,
    pub level: Seq<char>,
    pub message: Seq<char>,
    pub suggestion: Option<Seq<char>>,
    pub complexity: Option<i64>,
}

impl DeepView for Diagnostic {
    type V = DiagnosticView;

    open spec fn deep_view(&self) -> DiagnosticView {
        DiagnosticView {
            file: self.file.deep_view(),
            line: self.line.deep_view(),
            code: self.code.deep_view(),
            level: self.level.deep_view(),
            message: self.message.deep_view(),
            suggestion: self.suggestion.deep_view(),
            complexity: self.complexity.deep_view(),
        }
    }
}

impl View for Diagnostic {
    type V = DiagnosticView;

    open spec fn view(&self) -> DiagnosticView {
        self.deep_view()
    }
}

/// How many digits a text starts with.
pub open spec fn leading_digits(s: Seq<char>, i: int) -> int
    decreases s.len() - i,
{
    if i < 0 || i >= s.len() || !is_digit(s[i]) {
        i
    } else {
        leading_digits(s, i + 1)
    }
}

/// The number that follows `complexity of ` in a message, where it fits `i64`.
pub open spec fn complexity_in(msg: Seq<char>) -> Option<int> {
    match find_from(msg, "complexity of "@, 0) {
        Some(k) => {
            let tail = msg.skip(k + "complexity of "@.len());
            match digits_number(tail.take(leading_digits(tail, 0))) {
                Some(n) => if n <= i64::MAX {
                    Some(n)
                } else {
                    None
                },
                None => None,
            }
        },
        None => None,
    }
}

/// The number that follows `complexity of ` in a message.
pub fn extract_complexity(msg: &str) -> (r: Option<i64>)
    ensures
        match r {
            Some(n) => complexity_in(msg@) == Some(n as int),
            None => complexity_in(msg@) is None,
        },
{
    let k: usize = match find(msg, "complexity of ") {
        Some(k) => k,
        None => {
            return None;
        },
    };
    proof {
        reveal_strlit("complexity of ");
        crate::text::find_from_is_least(msg@, "complexity of "@, 0);
        assert(k + 14 <= msg@.len());
    }
    let mv = chars_of(msg);
    let size: usize = mv.len();
    let tail = suffix_from(msg, k + 14);
    let v = chars_of(&tail);
    let mut i: usize = 0;
    while i < v.len() && '0' <= v[i] && v[i] <= '9'
        invariant
            v@ == tail@,
            i <= v@.len(),
            leading_digits(tail@, 0) == leading_digits(tail@, i as int),
        decreases v@.len() - i,
    {
        i = i + 1;
    }
    let digits = string_of(&v, 0, i);
    assert(digits@ =~= tail@.take(i as int));
    let dv = chars_of(&digits);
    assert(dv@.skip(0) =~= digits@);
    match digits_from(&dv, 0, 0x7fff_ffff_ffff_ffff) {
        Some(n) => Some(n as i64),
        None => None,
    }
}

/// The path of a finding's file, in the form of the code graph (`./src/foo.rs`).
pub open spec fn db_path(file: Seq<char>, root: Seq<char>) -> Seq<char> {
    if begins_with(file, "/"@) {
        match without_prefix(file, trimmed_char_end(root, '/')) {
            Some(rel) => "."@ + rel,
            None => file,
        }
    } else if begins_with(file, "./"@) {
        file
    } else {
        "./"@ + file
    }
}

/// The path of a finding's file, in the form of the code graph: `src/foo.rs` gives
/// `./src/foo.rs`.
pub fn span_to_db_path(file_name: &str, root: &str) -> (r: String)
    ensures
        r@ == db_path(file_name@, root@),
{
    if starts_with(file_name, "/") {
        let prefix = trim_end_char(root, '/');
        return match strip_prefix(file_name, &prefix) {
            Some(rel) => concat2(".", &rel),
            None => file_name.to_owned(),
        };
    }
    if starts_with(file_name, "./") {
        file_name.to_owned()
    } else {
        concat2("./", file_name)
    }
}

/// The first span from `i` on that is primary.
pub open spec fn primary_in(spans: Seq<JsonView>, i: int) -> Option<JsonView>
    decreases spans.len() - i,
{
    if i < 0 || i >= spans.len() {
        None
    } else if bool_in(field_of(spans[i], "is_primary"@)) == Some(true) {
        Some(spans[i])
    } else {
        primary_in(spans, i + 1)
    }
}

/// The replacement that a note suggests in its first span, unless it is blank.
pub open spec fn replacement_in(note: JsonView) -> Option<Seq<char>> {
    match items_in(field_of(note, "spans"@)) {
        Some(spans) => if spans.len() > 0 {
            match text_in(field_of(spans[0], "suggested_replacement"@)) {
                Some(t) => if trimmed(t).len() == 0 {
                    None
                } else {
                    Some(trimmed(t))
                },
                None => None,
            }
        } else {
            None
        },
        None => None,
    }
}

/// The replacement that the first note from `i` on that suggests one does.
pub open spec fn suggestion_in(notes: Seq<JsonView>, i: int) -> Option<Seq<char>>
    decreases notes.len() - i,
{
    if i < 0 || i >= notes.len() {
        None
    } else if replacement_in(notes[i]) is Some {
        replacement_in(notes[i])
    } else {
        suggestion_in(notes, i + 1)
    }
}

/// The replacement that a finding's notes suggest.
pub open spec fn suggestion_of(diag: JsonView) -> Option<Seq<char>> {
    match items_in(field_of(diag, "children"@)) {
        Some(notes) => suggestion_in(notes, 0),
        None => None,
    }
}

/// The finding that a message of the compiler is: a warning or an error with a code and a
/// primary span.
pub open spec fn diagnostic_in(msg: JsonView, root: Seq<char>) -> Option<DiagnosticView> {
    let diag = field_of(msg, "message"@);
    let spans = items_in(field_of(diag, "spans"@));
    let level = text_in(field_of(diag, "level"@));
    if text_in(field_of(msg, "reason"@)) != Some("compiler-message"@) {
        None
    } else if level != Some("warning"@) && level != Some("error"@) {
        None
    } else {
        match (
            text_in(field_of(diag, "message"@)),
            text_in(field_of(field_of(diag, "code"@), "code"@)),
            spans,
        ) {
            (Some(message), Some(code), Some(spans)) => match primary_in(spans, 0) {
                Some(span) => match (
                    text_in(field_of(span, "file_name"@)),
                    i64_in(field_of(span, "line_start"@)),
                ) {
                    (Some(file), Some(line)) => Some(
                        DiagnosticView {
                            file: db_path(file, root),
                            line: #[verifier::truncate]
                            (line as i32),
                            code,
                            level: level->0,
                            message,
                            suggestion: suggestion_of(diag),
                            complexity: match complexity_in(message) {
                                Some(c) => Some(c as i64),
                                None => None,
                            },
                        },
                    ),
                    _ => None,
                },
                None => None,
            },
            _ => None,
        }
    }
}

fn find_primary<'a>(spans: &'a Vec<Json>) -> (r: Option<&'a Json>)
    ensures
        r.deep_view() == primary_in(views(spans@), 0),
{
    let mut i: usize = 0;
    while i < spans.len()
        invariant
            i <= spans@.len(),
            primary_in(views(spans@), 0) == primary_in(views(spans@), i as int),
        decreases spans@.len() - i,
    {
        assert(views(spans@)[i as int] == spans@[i as int]@);
        let primary = match spans[i].field("is_primary") {
            Some(b) => b.boolean(),
            None => None,
        };
        if let Some(true) = primary {
            return Some(&spans[i]);
        }
        i = i + 1;
    }
    None
}

fn read_replacement(note: &Json) -> (r: Option<String>)
    ensures
        r.deep_view() == replacement_in(note@),
{
    match note.field_items("spans") {
        Some(spans) => {
            assert(views(spans@).len() == spans@.len());
            if spans.len() > 0 {
                assert(views(spans@)[0] == spans@[0]@);
                match spans[0].field_text("suggested_replacement") {
                    Some(t) => {
                        let s = trim(t);
                        if s.as_str().is_empty() {
                            None
                        } else {
                            Some(s)
                        }
                    },
                    None => None,
                }
            } else {
                None
            }
        },
        None => None,
    }
}

fn read_suggestion(diag: &Json) -> (r: Option<String>)
    ensures
        r.deep_view() == suggestion_of(diag@),
{
    let notes = match diag.field_items("children") {
        Some(n) => n,
        None => {
            return None;
        },
    };
    let mut i: usize = 0;
    while i < notes.len()
        invariant
            i <= notes@.len(),
            suggestion_of(diag@) == suggestion_in(views(notes@), i as int),
        decreases notes@.len() - i,
    {
        assert(views(notes@)[i as int] == notes@[i as int]@);
        let s = read_replacement(&notes[i]);
        if s.is_some() {
            return s;
        }
        i = i + 1;
    }
    None
}

/// The finding that a message of the compiler is.
pub fn read_diagnostic(msg: &Json, root: &str) -> (r: Option<Diagnostic>)
    ensures
        r.deep_view() == diagnostic_in(msg@, root@),
{
    match msg.field_text("reason") {
        Some(reason) => {
            if !str_eq(reason, "compiler-message") {
                return None;
            }
        },
        None => {
            return None;
        },
    }
    let diag = match msg.field("message") {
        Some(d) => d,
        None => {
            return None;
        },
    };
    let level = match diag.field_text("level") {
        Some(l) => l,
        None => {
            return None;
        },
    };
    if !str_eq(level, "warning") && !str_eq(level, "error") {
        return None;
    }
    let message = match diag.field_text("message") {
        Some(m) => m,
        None => {
            return None;
        },
    };
    let code = match diag.field("code") {
        Some(c) => match c.field_text("code") {
            Some(t) => t,
            None => {
                return None;
            },
        },
        None => {
            return None;
        },
    };
    let span = match diag.field_items("spans") {
        Some(spans) => match find_primary(spans) {
            Some(s) => s,
            None => {
                return None;
            },
        },
        None => {
            return None;
        },
    };
    let file = match span.field_text("file_name") {
        Some(f) => f,
        None => {
            return None;
        },
    };
    let line = match span.field_int("line_start") {
        Some(l) => l,
        None => {
            return None;
        },
    };
    Some(
        Diagnostic {
            file: span_to_db_path(file, root),
            line: #[verifier::truncate]
            (line as i32),
            code: code.dup(),
            level: level.dup(),
            message: message.dup(),
            suggestion: read_suggestion(diag),
            complexity: extract_complexity(message),
        },
    )
}

/// The findings in the first `n` lines of messages. Lines that are no JSON are passed over.
pub open spec fn diagnostics_in(all: Seq<Seq<char>>, root: Seq<char>, n: int) -> Seq<DiagnosticView>
    decreases n,
{
    if n <= 0 {
        Seq::empty()
    } else {
        let rest = diagnostics_in(all, root, n - 1);
        if all[n - 1].len() == 0 {
            rest
        } else {
            match json_text(all[n - 1]) {
                Some(msg) => match diagnostic_in(msg, root) {
                    Some(d) => rest.push(d),
                    None => rest,
                },
                None => rest,
            }
        }
    }
}

/// The findings in the compiler's messages, one to a line.
pub fn parse_diagnostics(output: &str, root: &str) -> (r: Vec<Diagnostic>)
    ensures
        views(r@) == diagnostics_in(
            line_seq(output@),
            root@,
            line_seq(output@).len() as int,
        ),
{
    let all = lines(output);
    let ghost av = line_seq(output@);
    assert(av.len() == all@.len());
    let mut out: Vec<Diagnostic> = Vec::new();
    let mut n: usize = 0;
    while n < all.len()
        invariant
            av == views(all@),
            n <= all@.len(),
            views(out@) == diagnostics_in(av, root@, n as int),
        decreases all@.len() - n,
    {
        assert(av[n as int] == all@[n as int]@);
        if !all[n].as_str().is_empty() {
            if let Some(msg) = json::parse(&all[n]) {
                if let Some(d) = read_diagnostic(&msg, root) {
                    out.push(d);
                }
            }
        }
        n = n + 1;
    }
    out
}

// ---------------------------------------------------------------------------
// Mapping to functions
// ---------------------------------------------------------------------------

/// The lines of a function.
#[derive(Debug)]
pub struct FnSpan {
    pub file: String,
    pub range_start: i64,
    pub range_end: i64,
    pub id: i64,
}

/// What a [`FnSpan`] holds.
#[verifier::ext_equal]
pub struct FnSpanView {
    pub file: Seq<char>,
    pub range_start: i64,
    pub range_end: i64,
    pub id: i64,
}

impl DeepView for FnSpan {
    type V = FnSpanView;

    open spec fn deep_view(&self) -> FnSpanView {
        FnSpanView {
            file: self.file.deep_view(),
            range_start: self.range_start.deep_view(),
            range_end: self.range_end.deep_view(),
            id: self.id.deep_view(),
        }
    }
}

impl View for FnSpan {
    type V = FnSpanView;

    open spec fn view(&self) -> FnSpanView {
        self.deep_view()
    }
}

/// The function's lines hold the line of the file.
pub open spec fn span_holds(f: FnSpanView, file: Seq<char>, line: int) -> bool {
    f.file == file && f.range_start <= line && f.range_end >= line
}

/// Of the first `n` functions, the one with the fewest lines that hold the line; the first
/// of several.
pub open spec fn tightest(fns: Seq<FnSpanView>, file: Seq<char>, line: int, n: int) -> Option<int>
    decreases n,
{
    if n <= 0 {
        None
    } else {
        let best = tightest(fns, file, line, n - 1);
        let c = fns[n - 1];
        if span_holds(c, file, line) && (best matches Some(b) ==> c.range_end - c.range_start
            < fns[b].range_end - fns[b].range_start) {
            Some(n - 1)
        } else {
            best
        }
    }
}

/// The id of the function that a line of a file stands in.
pub open spec fn enclosing_id(fns: Seq<FnSpanView>, file: Seq<char>, line: int) -> Option<i64> {
    match tightest(fns, file, line, fns.len() as int) {
        Some(i) => Some(fns[i].id),
        None => None,
    }
}

/// The id of the function that a line of a file stands in.
pub fn find_enclosing_fn(fns: &Vec<FnSpan>, file: &str, line: i64) -> (r: Option<i64>)
    ensures
        r == enclosing_id(views(fns@), file@, line as int),
{
    let mut best: Option<usize> = None;
    let mut n: usize = 0;
    assert(views(fns@).len() == fns@.len());
    while n < fns.len()
        invariant
            n <= fns@.len(),
            match best {
                Some(b) => b < n && tightest(views(fns@), file@, line as int, n as int) == Some(
                    b as int,
                ),
                None => tightest(views(fns@), file@, line as int, n as int) is None,
            },
        decreases fns@.len() - n,
    {
        let c = &fns[n];
        assert(views(fns@)[n as int] == c@);
        if str_eq(&c.file, file) && c.range_start <= line && c.range_end >= line {
            let smaller = match best {
                Some(b) => {
                    assert(views(fns@)[b as int] == fns@[b as int]@);
                    let span: i128 = c.range_end as i128 - c.range_start as i128;
                    let least: i128 = fns[b].range_end as i128 - fns[b].range_start as i128;
                    span < least
                },
                None => true,
            };
            if smaller {
                best = Some(n);
            }
        }
        n = n + 1;
    }
    match best {
        Some(b) => {
            assert(views(fns@)[b as int] == fns@[b as int]@);
            Some(fns[b].id)
        },
        None => None,
    }
}

/// A finding on a function.
#[derive(Debug)]
pub struct DiagnosticRow {
    pub node_id: i64,
    pub code: String,
    pub level: String,
    pub message: String,
    pub suggestion: Option<String>,
    pub complexity: Option<i64>,
}

/// What a [`DiagnosticRow`] holds.
#[verifier::ext_equal]
pub struct DiagnosticRowView {
    pub node_id: i64,
    pub code: Seq<char>,
    pub level: Seq<char>,
    pub message: Seq<char>,
    pub suggestion: Option<Seq<char>>,
    pub complexity: Option<i64>,
}

impl DeepView for DiagnosticRow {
    type V = DiagnosticRowView;

    open spec fn deep_view(&self) -> DiagnosticRowView {
        DiagnosticRowView {
            node_id: self.node_id.deep_view(),
            code: self.code.deep_view(),
            level: self.level.deep_view(),
            message: self.message.deep_view(),
            suggestion: self.suggestion.deep_view(),
            complexity: self.complexity.deep_view(),
        }
    }
}

impl View for DiagnosticRow {
    type V = DiagnosticRowView;

    open spec fn view(&self) -> DiagnosticRowView {
        self.deep_view()
    }
}

/// A row says the same of the same function.
pub open spec fn already_said(rows: Seq<DiagnosticRowView>, id: i64, d: DiagnosticView) -> bool {
    exists|i: int|
        0 <= i < rows.len() && (#[trigger] rows[i]).node_id == id && rows[i].code == d.code
            && rows[i].message == d.message
}

/// The complexity of the function that the finding measures, if it does.
pub open spec fn measured(d: DiagnosticView) -> Option<i64> {
    if d.code == "clippy::cognitive_complexity"@ {
        d.complexity
    } else {
        None
    }
}

/// The rows for the first `n` findings: those within functions, each once.
pub open spec fn rows_for(fns: Seq<FnSpanView>, ds: Seq<DiagnosticView>, n: int) -> Seq<
    DiagnosticRowView,
>
    decreases n,
{
    if n <= 0 {
        Seq::empty()
    } else {
        let rest = rows_for(fns, ds, n - 1);
        let d = ds[n - 1];
        match enclosing_id(fns, d.file, d.line as int) {
            Some(id) => if already_said(rest, id, d) {
                rest
            } else {
                rest.push(
                    DiagnosticRowView {
                        node_id: id,
                        code: d.code,
                        level: d.level,
                        message: d.message,
                        suggestion: d.suggestion,
                        complexity: measured(d),
                    },
                )
            },
            None => rest,
        }
    }
}

fn is_said(rows: &Vec<DiagnosticRow>, id: i64, d: &Diagnostic) -> (r: bool)
    ensures
        r == already_said(views(rows@), id, d@),
{
    let mut i: usize = 0;
    while i < rows.len()
        invariant
            i <= rows@.len(),
            forall|k: int|
                0 <= k < i ==> !((#[trigger] views(rows@)[k]).node_id == id && views(rows@)[k].code
                    == d@.code && views(rows@)[k].message == d@.message),
        decreases rows@.len() - i,
    {
        assert(views(rows@)[i as int] == rows@[i as int]@);
        if rows[i].node_id == id && str_eq(&rows[i].code, &d.code) && str_eq(
            &rows[i].message,
            &d.message,
        ) {
            return true;
        }
        i = i + 1;
    }
    false
}

/// The rows to store for findings: those within functions, each once, with the complexity
/// that a finding measures.
pub fn insert_diagnostics(fns: &Vec<FnSpan>, diagnostics: &Vec<Diagnostic>) -> (r: Vec<
    DiagnosticRow,
>)
    ensures
        views(r@) == rows_for(views(fns@), views(diagnostics@), diagnostics@.len() as int),
{
    let mut out: Vec<DiagnosticRow> = Vec::new();
    let mut n: usize = 0;
    while n < diagnostics.len()
        invariant
            n <= diagnostics@.len(),
            views(out@) == rows_for(views(fns@), views(diagnostics@), n as int),
        decreases diagnostics@.len() - n,
    {
        let d = &diagnostics[n];
        assert(views(diagnostics@)[n as int] == d@);
        if let Some(id) = find_enclosing_fn(fns, &d.file, d.line as i64) {
            if !is_said(&out, id, d) {
                let complexity = if str_eq(&d.code, "clippy::cognitive_complexity") {
                    d.complexity
                } else {
                    None
                };
                let row = DiagnosticRow {
                    node_id: id,
                    code: d.code.dup(),
                    level: d.level.dup(),
                    message: d.message.dup(),
                    suggestion: d.suggestion.dup(),
                    complexity,
                };
                out.push(row);
            }
        }
        n = n + 1;
    }
    out
}

/// No function is told the same twice.
pub proof fn rows_differ(fns: Seq<FnSpanView>, ds: Seq<DiagnosticView>, n: int)
    requires
        0 <= n <= ds.len(),
    ensures
        forall|i: int, j: int|
            0 <= i < j < rows_for(fns, ds, n).len() ==> !((#[trigger] rows_for(
                fns,
                ds,
                n,
            )[i]).node_id == (#[trigger] rows_for(fns, ds, n)[j]).node_id && rows_for(
                fns,
                ds,
                n,
            )[i].code == rows_for(fns, ds, n)[j].code && rows_for(fns, ds, n)[i].message
                == rows_for(fns, ds, n)[j].message),
    decreases n,
{
    if n > 0 {
        rows_differ(fns, ds, n - 1);
    }
}

/// The greater of a stored complexity and a measured one.
pub fn higher_complexity(stored: Option<i64>, measured: i64) -> (r: i64)
    ensures
        r == match stored {
            Some(s) => if s < measured {
                measured
            } else {
                s
            },
            None => measured,
        },
{
    match stored {
        Some(s) => if s < measured {
            measured
        } else {
            s
        },
        None => measured,
    }
}

// ---------------------------------------------------------------------------
// What findings say
// ---------------------------------------------------------------------------

proof fn digits_end_where_they_end(s: Seq<char>, i: int)
    requires
        0 <= i <= s.len(),
    ensures
        i <= leading_digits(s, i) <= s.len(),
        forall|j: int| i <= j < leading_digits(s, i) ==> is_digit(#[trigger] s[j]),
        leading_digits(s, i) < s.len() ==> !is_digit(s[leading_digits(s, i)]),
    decreases s.len() - i,
{
    if i < s.len() && is_digit(s[i]) {
        digits_end_where_they_end(s, i + 1);
    }
}

/// The complexity that a message tells is the number right behind its first `complexity of `,
/// all of its digits.
pub proof fn complexity_is_the_number_told(msg: Seq<char>, k: int, e: int)
    requires
        crate::text::find_from(msg, "complexity of "@, 0) == Some(k),
        0 <= k,
        k + "complexity of "@.len() < e <= msg.len(),
        forall|j: int| k + "complexity of "@.len() <= j < e ==> is_digit(#[trigger] msg[j]),
        e < msg.len() ==> !is_digit(msg[e]),
        crate::text::digits_value(msg.subrange(k + "complexity of "@.len(), e)) <= i64::MAX,
    ensures
        complexity_in(msg) == Some(
            crate::text::digits_value(msg.subrange(k + "complexity of "@.len(), e)),
        ),
{
    let n = k + "complexity of "@.len();
    let tail = msg.skip(n);
    digits_end_where_they_end(tail, 0);
    let m = leading_digits(tail, 0);
    if m < e - n {
        assert(is_digit(msg[n + m]));
        assert(tail[m] == msg[n + m]);
    } else if m > e - n {
        assert(is_digit(tail[e - n]));
        assert(tail[e - n] == msg[e]);
    }
    assert(tail.take(m) =~= msg.subrange(n, e));
    let part = msg.subrange(n, e);
    assert forall|i: int| 0 <= i < part.len() implies is_digit(#[trigger] part[i]) by {
        assert(part[i] == msg[n + i]);
    }
}

/// A path of the compiler becomes that of the code graph: relative to the project, with `./`
/// before it.
pub proof fn paths_become_those_of_the_graph(root: Seq<char>, rel: Seq<char>)
    requires
        root.len() > 0,
        root[0] == '/',
        root.last() != '/',
        rel.len() > 0,
        rel[0] != '/',
        rel[0] != '.',
    ensures
        db_path(root + "/"@ + rel, root) == "./"@ + rel,
        db_path(rel, root) == "./"@ + rel,
        db_path("./"@ + rel, root) == "./"@ + rel,
{
    reveal_strlit("/");
    reveal_strlit("./");
    reveal_strlit(".");
    let file = root + "/"@ + rel;
    assert(trimmed_char_end(root, '/') == root);
    assert(file.take(1)[0] == '/');
    assert(file.take(1) =~= "/"@);
    assert(file.take(root.len() as int) =~= root);
    assert("."@ + file.skip(root.len() as int) =~= "./"@ + rel);
    if begins_with(rel, "/"@) {
        assert(rel.take(1)[0] == '/');
    }
    if begins_with(rel, "./"@) {
        assert(rel.take(2)[0] == '.');
    }
    let dotted = "./"@ + rel;
    assert(dotted.take(2) =~= "./"@);
    if begins_with(dotted, "/"@) {
        assert(dotted.take(1)[0] == '.');
    }
}

proof fn primary_is_first(spans: Seq<JsonView>, i: int)
    requires
        0 <= i <= spans.len(),
    ensures
        match primary_in(spans, i) {
            Some(s) => exists|k: int|
                i <= k < spans.len() && #[trigger] spans[k] == s && field_of(s, "is_primary"@)
                    == JsonView::Bool(true),
            None => forall|k: int|
                i <= k < spans.len() ==> field_of(#[trigger] spans[k], "is_primary"@)
                    != JsonView::Bool(true),
        },
    decreases spans.len() - i,
{
    if i < spans.len() {
        primary_is_first(spans, i + 1);
        if bool_in(field_of(spans[i], "is_primary"@)) == Some(true) {
            assert(spans[i] == spans[i]);
        } else if let Some(s) = primary_in(spans, i + 1) {
            let k = choose|k: int|
                i + 1 <= k < spans.len() && #[trigger] spans[k] == s && field_of(s, "is_primary"@)
                    == JsonView::Bool(true);
            assert(spans[k] == s);
        }
    }
}

/// A finding is a warning or an error of the compiler with a code. It says where its primary
/// span starts, and the complexity that its message tells.
pub proof fn findings_are_warnings_and_errors(msg: JsonView, root: Seq<char>)
    ensures
        diagnostic_in(msg, root) matches Some(d) ==> ({
            let diag = field_of(msg, "message"@);
            &&& field_of(msg, "reason"@) == JsonView::Str("compiler-message"@)
            &&& field_of(diag, "level"@) == JsonView::Str(d.level)
            &&& d.level == "warning"@ || d.level == "error"@
            &&& field_of(diag, "message"@) == JsonView::Str(d.message)
            &&& field_of(field_of(diag, "code"@), "code"@) == JsonView::Str(d.code)
            &&& d.complexity == (match complexity_in(d.message) {
                Some(c) => Some(c as i64),
                None => None,
            })
            &&& field_of(diag, "spans"@) matches JsonView::Arr(spans) && exists|k: int|
                {
                    &&& 0 <= k < spans.len()
                    &&& field_of(#[trigger] spans[k], "is_primary"@) == JsonView::Bool(true)
                    &&& field_of(spans[k], "file_name"@) matches JsonView::Str(f) && d.file
                        == db_path(f, root)
                    &&& field_of(spans[k], "line_start"@) matches JsonView::Num(Some(l)) && (
                    i32::MIN <= l <= i32::MAX ==> d.line == l)
                }
        }),
{
    let diag = field_of(msg, "message"@);
    if let Some(d) = diagnostic_in(msg, root) {
        let spans = items_in(field_of(diag, "spans"@))->0;
        primary_is_first(spans, 0);
        let s = primary_in(spans, 0)->0;
        let k = choose|k: int|
            0 <= k < spans.len() && #[trigger] spans[k] == s && field_of(s, "is_primary"@)
                == JsonView::Bool(true);
        assert(spans[k] == s);
    }
}

proof fn tightest_is_tightest(fns: Seq<FnSpanView>, file: Seq<char>, line: int, n: int)
    requires
        0 <= n <= fns.len(),
    ensures
        match tightest(fns, file, line, n) {
            Some(b) => 0 <= b < n && fns[b].file == file && fns[b].range_start <= line
                <= fns[b].range_end && forall|i: int|
                0 <= i < n && (#[trigger] fns[i]).file == file && fns[i].range_start <= line
                    <= fns[i].range_end ==> fns[b].range_end - fns[b].range_start
                    <= fns[i].range_end - fns[i].range_start,
            None => forall|i: int|
                0 <= i < n ==> !((#[trigger] fns[i]).file == file && fns[i].range_start <= line
                    <= fns[i].range_end),
        },
    decreases n,
{
    if n > 0 {
        tightest_is_tightest(fns, file, line, n - 1);
    }
}

/// A finding belongs to the function of its file with the fewest lines around it. One outside
/// all functions belongs to none.
pub proof fn findings_belong_to_the_innermost_function(
    fns: Seq<FnSpanView>,
    file: Seq<char>,
    line: int,
)
    ensures
        match enclosing_id(fns, file, line) {
            Some(id) => exists|b: int|
                {
                    &&& 0 <= b < fns.len()
                    &&& (#[trigger] fns[b]).id == id
                    &&& fns[b].file == file
                    &&& fns[b].range_start <= line <= fns[b].range_end
                    &&& forall|i: int|
                        0 <= i < fns.len() && (#[trigger] fns[i]).file == file
                            && fns[i].range_start <= line <= fns[i].range_end ==> fns[b].range_end
                            - fns[b].range_start <= fns[i].range_end - fns[i].range_start
                },
            None => forall|i: int|
                0 <= i < fns.len() ==> !((#[trigger] fns[i]).file == file && fns[i].range_start
                    <= line <= fns[i].range_end),
        },
{
    tightest_is_tightest(fns, file, line, fns.len() as int);
    if let Some(b) = tightest(fns, file, line, fns.len() as int) {
        assert(fns[b].file == file);
    }
}

/// Every finding in a function is stored on it, once for each code and message; only the lint
/// on complexity measures that of the function.
pub proof fn findings_are_stored(fns: Seq<FnSpanView>, ds: Seq<DiagnosticView>, n: int, i: int)
    requires
        0 <= i < n <= ds.len(),
        enclosing_id(fns, ds[i].file, ds[i].line as int) is Some,
    ensures
        exists|k: int|
            {
                let r = #[trigger] rows_for(fns, ds, n)[k];
                &&& 0 <= k < rows_for(fns, ds, n).len()
                &&& r.node_id == enclosing_id(fns, ds[i].file, ds[i].line as int)->0
                &&& r.code == ds[i].code
                &&& r.message == ds[i].message
                &&& r.code != "clippy::cognitive_complexity"@ ==> r.complexity is None
            },
    decreases n,
{
    let rest = rows_for(fns, ds, n - 1);
    let all = rows_for(fns, ds, n);
    let id = enclosing_id(fns, ds[i].file, ds[i].line as int)->0;
    if i < n - 1 {
        findings_are_stored(fns, ds, n - 1, i);
        let k = choose|k: int|
            {
                let r = #[trigger] rest[k];
                &&& 0 <= k < rest.len()
                &&& r.node_id == id
                &&& r.code == ds[i].code
                &&& r.message == ds[i].message
                &&& r.code != "clippy::cognitive_complexity"@ ==> r.complexity is None
            };
        assert(all[k] == rest[k]);
    } else if already_said(rest, id, ds[i]) {
        let k = choose|k: int|
            0 <= k < rest.len() && (#[trigger] rest[k]).node_id == id && rest[k].code == ds[i].code
                && rest[k].message == ds[i].message;
        only_complexity_is_measured(fns, ds, n - 1, k);
        assert(all[k] == rest[k]);
    } else {
        let r = all[rest.len() as int];
        assert(r.node_id == id);
    }
}

/// A stored finding is one of those that were read: with its code, level, message and
/// suggestion, on the function that it stands in.
pub proof fn only_complexity_is_measured(
    fns: Seq<FnSpanView>,
    ds: Seq<DiagnosticView>,
    n: int,
    k: int,
)
    requires
        0 <= n <= ds.len(),
        0 <= k < rows_for(fns, ds, n).len(),
    ensures
        ({
            let r = rows_for(fns, ds, n)[k];
            &&& r.code != "clippy::cognitive_complexity"@ ==> r.complexity is None
            &&& exists|i: int|
                0 <= i < n && (#[trigger] ds[i]).code == r.code && ds[i].level == r.level
                    && ds[i].message == r.message && ds[i].suggestion == r.suggestion
                    && enclosing_id(fns, ds[i].file, ds[i].line as int) == Some(r.node_id)
                    && (r.code == "clippy::cognitive_complexity"@ ==> r.complexity
                    == ds[i].complexity)
        }),
    decreases n,
{
    if n > 0 {
        let rest = rows_for(fns, ds, n - 1);
        if k < rest.len() {
            only_complexity_is_measured(fns, ds, n - 1, k);
        } else {
            assert(ds[n - 1].code == rows_for(fns, ds, n)[k].code);
        }
    }
}

/// The note says to put the text in place of what its first span covers.
pub open spec fn proposes(note: JsonView, text: Seq<char>) -> bool {
    exists|spans: Seq<JsonView>, t: Seq<char>|
        items_in(field_of(note, "spans"@)) == Some(spans) && spans.len() > 0 && text_in(
            #[trigger] field_of(spans[0], "suggested_replacement"@),
        ) == Some(t) && #[trigger] trimmed(t) == text && text.len() > 0
}

proof fn proposal_is_the_replacement(note: JsonView, text: Seq<char>)
    ensures
        replacement_in(note) == Some(text) <==> proposes(note, text),
{
    if let Some(spans) = items_in(field_of(note, "spans"@)) {
        if spans.len() > 0 {
            if let Some(t) = text_in(field_of(spans[0], "suggested_replacement"@)) {
                assert(trimmed(t).len() >= 0);
            }
        }
    }
}

/// What is suggested is the first text that a note proposes, without blanks around it.
pub proof fn first_proposal_is_suggested(notes: Seq<JsonView>, i: int, text: Seq<char>)
    requires
        0 <= i <= notes.len(),
    ensures
        suggestion_in(notes, i) == Some(text) <==> exists|k: int|
            i <= k < notes.len() && proposes(#[trigger] notes[k], text) && forall|
                j: int,
                other: Seq<char>,
            |
                i <= j < k ==> !#[trigger] proposes(notes[j], other),
    decreases notes.len() - i,
{
    if i < notes.len() {
        first_proposal_is_suggested(notes, i + 1, text);
        proposal_is_the_replacement(notes[i], text);
        assert forall|other: Seq<char>| replacement_in(notes[i]) is None implies !#[trigger] proposes(
            notes[i],
            other,
        ) by {
            proposal_is_the_replacement(notes[i], other);
        }
        if let Some(t) = replacement_in(notes[i]) {
            proposal_is_the_replacement(notes[i], t);
            assert(proposes(notes[i], t));
            assert(suggestion_in(notes, i) == Some(t));
            if exists|k: int|
                i <= k < notes.len() && proposes(#[trigger] notes[k], text) && forall|
                    j: int,
                    other: Seq<char>,
                |
                    i <= j < k ==> !#[trigger] proposes(notes[j], other) {
                let k = choose|k: int|
                    i <= k < notes.len() && proposes(#[trigger] notes[k], text) && forall|
                        j: int,
                        other: Seq<char>,
                    |
                        i <= j < k ==> !#[trigger] proposes(notes[j], other);
                assert(k == i);
            }
        } else {
            assert(!proposes(notes[i], text));
        }
    }
}

/// Every line with a finding gives that finding, and nothing else is found.
pub proof fn every_line_is_read(all: Seq<Seq<char>>, root: Seq<char>, n: int, d: DiagnosticView)
    requires
        0 <= n <= all.len(),
    ensures
        diagnostics_in(all, root, n).contains(d) <==> exists|i: int|
            0 <= i < n && (#[trigger] all[i]).len() > 0 && (json_text(all[i]) matches Some(msg)
                && diagnostic_in(msg, root) == Some(d)),
    decreases n,
{
    if n > 0 {
        every_line_is_read(all, root, n - 1, d);
        if let Some(msg) = json_text(all[n - 1]) {
            if let Some(x) = diagnostic_in(msg, root) {
                crate::model::push_holds(diagnostics_in(all, root, n - 1), x, d);
            }
        }
    }
}

} // verus!
