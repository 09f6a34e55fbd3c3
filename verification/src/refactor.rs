//! Renames: the edits that a language server proposes, and the texts that they make.

use vstd::prelude::*;
use vstd::utf8::{encode_scalar, encode_utf8};

use crate::ipc::WatchResponse;
use crate::json::{field_of, items_in, text_in, u64_in, Json, JsonView};
use crate::model::{or_text, views, Dup};
use crate::order::{stable_sort, stable_sorted, Ranked};
use crate::text::{
    byte_len, byte_size, chars_of, concat3, dec, encoding_joins, line_seq, lines,
    part_has_its_bytes, slice_text, str_eq, strip_prefix, text_at, u64_text, without_prefix,
};

verus! {

broadcast use crate::model::group_views;

/// A replacement of the text between two positions. Lines are counted from 0, characters in
/// units of UTF-16.
#[derive(Debug)]
pub struct TextEdit {
    pub start_line: u32,
    pub start_char: u32,
    pub end_line: u32,
    pub end_char: u32,
    pub new_text: String,
}

/// What a [`TextEdit`] holds.
#[verifier::ext_equal]
pub struct TextEditView {
    pub start_line: u32,
    pub start_char: u32,
    pub end_line: u32,
    pub end_char: u32,
    pub new_text: Seq<char>,
}

impl DeepView for TextEdit {
    type V = TextEditView;

    open spec fn deep_view(&self) -> TextEditView {
        TextEditView {
            start_line: self.start_line.deep_view(),
            start_char: self.start_char.deep_view(),
            end_line: self.end_line.deep_view(),
            end_char: self.end_char.deep_view(),
            new_text: self.new_text.deep_view(),
        }
    }
}

impl View for TextEdit {
    type V = TextEditView;

    open spec fn view(&self) -> TextEditView {
        self.deep_view()
    }
}

impl Dup for TextEdit {
    fn dup(&self) -> (r: TextEdit) {
        TextEdit {
            start_line: self.start_line.dup(),
            start_char: self.start_char.dup(),
            end_line: self.end_line.dup(),
            end_char: self.end_char.dup(),
            new_text: self.new_text.dup(),
        }
    }
}

/// The edits of one file.
#[derive(Debug)]
pub struct FileEdits {
    pub path: String,
    pub edits: Vec<TextEdit>,
}

/// What a [`FileEdits`] holds.
#[verifier::ext_equal]
pub struct FileEditsView {
    pub path: Seq<char>,
    pub edits: Seq<TextEditView>,
}

impl DeepView for FileEdits {
    type V = FileEditsView;

    open spec fn deep_view(&self) -> FileEditsView {
        FileEditsView {
            path: self.path.deep_view(),
            edits: views(self.edits@),
        }
    }
}

impl View for FileEdits {
    type V = FileEditsView;

    open spec fn view(&self) -> FileEditsView {
        self.deep_view()
    }
}

impl Ranked for TextEdit {
    /// Edits that start later come first.
    open spec fn before(a: TextEditView, b: TextEditView) -> bool {
        a.start_line > b.start_line || (a.start_line == b.start_line && a.start_char > b.start_char)
    }

    fn precedes(&self, other: &TextEdit) -> (r: bool) {
        self.start_line > other.start_line || (self.start_line == other.start_line
            && self.start_char > other.start_char)
    }

    proof fn weak_order(a: TextEditView, b: TextEditView, c: TextEditView) {
    }
}

// ---------------------------------------------------------------------------
// Reading edits
// ---------------------------------------------------------------------------

/// The path that a URI of a file gives.
pub open spec fn path_of_uri(uri: Seq<char>) -> Seq<char> {
    or_text(without_prefix(uri, "file://"@), uri)
}

/// The path that a URI of a file gives.
pub fn uri_to_path(uri: &str) -> (r: String)
    ensures
        r@ == path_of_uri(uri@),
{
    match strip_prefix(uri, "file://") {
        Some(p) => p,
        None => uri.to_owned(),
    }
}

/// The lower 32 bits of a number.
pub open spec fn low32(n: int) -> u32 {
    (n % 0x1_0000_0000) as u32
}

fn low32_of(n: u64) -> (r: u32)
    ensures
        r == low32(n as int),
{
    (n % 0x1_0000_0000) as u32
}

/// A number of an edit's range.
pub open spec fn range_number(e: JsonView, side: Seq<char>, what: Seq<char>) -> Option<int> {
    u64_in(field_of(field_of(field_of(e, "range"@), side), what))
}

/// The edit that a value is, or what it lacks.
pub open spec fn edit_in(e: JsonView) -> Result<TextEditView, Seq<char>> {
    match range_number(e, "start"@, "line"@) {
        None => Err("missing start.line"@),
        Some(start_line) => match range_number(e, "start"@, "character"@) {
            None => Err("missing start.character"@),
            Some(start_char) => match range_number(e, "end"@, "line"@) {
                None => Err("missing end.line"@),
                Some(end_line) => match range_number(e, "end"@, "character"@) {
                    None => Err("missing end.character"@),
                    Some(end_char) => match text_in(field_of(e, "newText"@)) {
                        None => Err("missing newText"@),
                        Some(new_text) => Ok(
                            TextEditView {
                                start_line: low32(start_line),
                                start_char: low32(start_char),
                                end_line: low32(end_line),
                                end_char: low32(end_char),
                                new_text,
                            },
                        ),
                    },
                },
            },
        },
    }
}

/// The edits that the first `n` values are, or what the first that is none lacks.
pub open spec fn edits_among(items: Seq<JsonView>, n: int) -> Result<Seq<TextEditView>, Seq<char>>
    decreases n,
{
    if n <= 0 {
        Ok(Seq::empty())
    } else {
        match edits_among(items, n - 1) {
            Err(m) => Err(m),
            Ok(rest) => match edit_in(items[n - 1]) {
                Err(m) => Err(m),
                Ok(e) => Ok(rest.push(e)),
            },
        }
    }
}

/// The edits that a value holds.
pub open spec fn edits_in(j: JsonView) -> Result<Seq<TextEditView>, Seq<char>> {
    match items_in(j) {
        Some(items) => edits_among(items, items.len() as int),
        None => Err("edits is not an array"@),
    }
}

/// A result with the texts and lists in it seen as such.
pub open spec fn outcome<T: DeepView>(r: Result<T, String>) -> Result<T::V, Seq<char>> {
    match r {
        Ok(t) => Ok(t.deep_view()),
        Err(e) => Err(e@),
    }
}

fn number_at(e: &Json, side: &str, what: &str) -> (r: Option<u64>)
    ensures
        match r {
            Some(n) => range_number(e@, side@, what@) == Some(n as int),
            None => range_number(e@, side@, what@) is None,
        },
{
    let range = match e.field("range") {
        Some(x) => x,
        None => {
            return None;
        },
    };
    let end = match range.field(side) {
        Some(x) => x,
        None => {
            return None;
        },
    };
    match end.field(what) {
        Some(x) => x.uint(),
        None => None,
    }
}

fn read_edit(e: &Json) -> (r: Result<TextEdit, String>)
    ensures
        outcome(r) == edit_in(e@),
{
    let start_line = match number_at(e, "start", "line") {
        Some(n) => n,
        None => {
            return Err("missing start.line".to_owned());
        },
    };
    let start_char = match number_at(e, "start", "character") {
        Some(n) => n,
        None => {
            return Err("missing start.character".to_owned());
        },
    };
    let end_line = match number_at(e, "end", "line") {
        Some(n) => n,
        None => {
            return Err("missing end.line".to_owned());
        },
    };
    let end_char = match number_at(e, "end", "character") {
        Some(n) => n,
        None => {
            return Err("missing end.character".to_owned());
        },
    };
    match e.field_text("newText") {
        Some(t) => Ok(
            TextEdit {
                start_line: low32_of(start_line),
                start_char: low32_of(start_char),
                end_line: low32_of(end_line),
                end_char: low32_of(end_char),
                new_text: t.dup(),
            },
        ),
        None => Err("missing newText".to_owned()),
    }
}

proof fn edits_stay_failed(items: Seq<JsonView>, n: int, m: int)
    requires
        0 <= n <= m,
        edits_among(items, n) is Err,
    ensures
        edits_among(items, m) == edits_among(items, n),
    decreases m,
{
    if n < m {
        edits_stay_failed(items, n, m - 1);
    }
}

/// The edits that a value holds.
pub fn parse_text_edits(val: Option<&Json>) -> (r: Result<Vec<TextEdit>, String>)
    ensures
        ({
            let j = match val {
                Some(v) => v@,
                None => JsonView::Null,
            };
            match r {
                Ok(v) => edits_in(j) == Ok::<_, Seq<char>>(views(v@)),
                Err(e) => edits_in(j) == Err::<Seq<TextEditView>, _>(e@),
            }
        }),
{
    let items = match val {
        Some(v) => match v.items() {
            Some(i) => i,
            None => {
                return Err("edits is not an array".to_owned());
            },
        },
        None => {
            return Err("edits is not an array".to_owned());
        },
    };
    let ghost iv = views(items@);
    assert(iv.len() == items@.len());
    let mut out: Vec<TextEdit> = Vec::new();
    let mut n: usize = 0;
    while n < items.len()
        invariant
            iv == views(items@),
            iv.len() == items@.len(),
            n <= items@.len(),
            val matches Some(v) && items_in(v@) == Some(iv),
            edits_among(iv, n as int) == Ok::<_, Seq<char>>(views(out@)),
        decreases items@.len() - n,
    {
        assert(iv[n as int] == items@[n as int]@);
        match read_edit(&items[n]) {
            Ok(e) => {
                out.push(e);
            },
            Err(m) => {
                proof {
                    edits_stay_failed(iv, n + 1, iv.len() as int);
                }
                return Err(m);
            },
        }
        n = n + 1;
    }
    Ok(out)
}

/// The first entry from `i` on for the path.
pub open spec fn file_at(files: Seq<FileEditsView>, path: Seq<char>, i: int) -> Option<int>
    decreases files.len() - i,
{
    if i < 0 || i >= files.len() {
        None
    } else if files[i].path == path {
        Some(i)
    } else {
        file_at(files, path, i + 1)
    }
}

/// The files with more edits of one of them, behind those that it has.
pub open spec fn with_edits(
    files: Seq<FileEditsView>,
    path: Seq<char>,
    edits: Seq<TextEditView>,
) -> Seq<FileEditsView> {
    match file_at(files, path, 0) {
        Some(i) => files.update(i, FileEditsView { path, edits: files[i].edits + edits }),
        None => files.push(FileEditsView { path, edits }),
    }
}

fn add_edits(files: &mut Vec<FileEdits>, path: String, edits: Vec<TextEdit>)
    ensures
        views(final(files)@) == with_edits(views(old(files)@), path@, views(edits@)),
{
    let ghost start = views(files@);
    let mut i: usize = 0;
    while i < files.len()
        invariant
            start == views(files@),
            start == views(old(files)@),
            i <= files@.len(),
            file_at(start, path@, 0) == file_at(start, path@, i as int),
        decreases files@.len() - i,
    {
        assert(start[i as int] == files@[i as int]@);
        if str_eq(&files[i].path, &path) {
            let mut old_entry = files.remove(i);
            let ghost before = old_entry@;
            let mut more = edits;
            let ghost a = old_entry.edits@;
            let ghost b = more@;
            old_entry.edits.append(&mut more);
            assert(views(old_entry.edits@) =~= views(a) + views(b));
            files.insert(i, old_entry);
            assert(views(files@) =~= start.update(
                i as int,
                FileEditsView { path: path@, edits: before.edits + views(b) },
            ));
            return;
        }
        i = i + 1;
    }
    files.push(FileEdits { path, edits });
}

/// The edits of the first `n` changed documents.
pub open spec fn document_edits(docs: Seq<JsonView>, n: int) -> Result<Seq<FileEditsView>, Seq<char>>
    decreases n,
{
    if n <= 0 {
        Ok(Seq::empty())
    } else {
        match document_edits(docs, n - 1) {
            Err(m) => Err(m),
            Ok(files) => match text_in(field_of(field_of(docs[n - 1], "textDocument"@), "uri"@)) {
                None => Err("missing uri in documentChanges"@),
                Some(uri) => match edits_in(field_of(docs[n - 1], "edits"@)) {
                    Err(m) => Err(m),
                    Ok(edits) => Ok(with_edits(files, path_of_uri(uri), edits)),
                },
            },
        }
    }
}

/// The edits of the first `n` entries, each of which is named by a URI.
pub open spec fn entry_edits(entries: Seq<(Seq<char>, JsonView)>, n: int) -> Result<
    Seq<FileEditsView>,
    Seq<char>,
>
    decreases n,
{
    if n <= 0 {
        Ok(Seq::empty())
    } else {
        match entry_edits(entries, n - 1) {
            Err(m) => Err(m),
            Ok(files) => match edits_in(entries[n - 1].1) {
                Err(m) => Err(m),
                Ok(edits) => Ok(with_edits(files, path_of_uri(entries[n - 1].0), edits)),
            },
        }
    }
}

/// The edits of a workspace, by file: from its changed documents, or else from its changes
/// by URI.
pub open spec fn workspace_edits(edit: JsonView) -> Result<Seq<FileEditsView>, Seq<char>> {
    match items_in(field_of(edit, "documentChanges"@)) {
        Some(docs) => document_edits(docs, docs.len() as int),
        None => match field_of(edit, "changes"@) {
            JsonView::Obj(entries) => entry_edits(entries, entries.len() as int),
            _ => Err("edits.json has neither documentChanges nor changes field"@),
        },
    }
}

proof fn document_edits_stay_failed(docs: Seq<JsonView>, n: int, m: int)
    requires
        0 <= n <= m,
        document_edits(docs, n) is Err,
    ensures
        document_edits(docs, m) == document_edits(docs, n),
    decreases m,
{
    if n < m {
        document_edits_stay_failed(docs, n, m - 1);
    }
}

proof fn entry_edits_stay_failed(entries: Seq<(Seq<char>, JsonView)>, n: int, m: int)
    requires
        0 <= n <= m,
        entry_edits(entries, n) is Err,
    ensures
        entry_edits(entries, m) == entry_edits(entries, n),
    decreases m,
{
    if n < m {
        entry_edits_stay_failed(entries, n, m - 1);
    }
}

/// The files and edits, or the complaint, of a result.
pub open spec fn files_outcome(r: Result<Vec<FileEdits>, String>) -> Result<
    Seq<FileEditsView>,
    Seq<char>,
> {
    match r {
        Ok(v) => Ok(views(v@)),
        Err(e) => Err(e@),
    }
}

fn read_documents(docs: &Vec<Json>) -> (r: Result<Vec<FileEdits>, String>)
    ensures
        files_outcome(r) == document_edits(views(docs@), docs@.len() as int),
{
    let ghost dv = views(docs@);
    assert(dv.len() == docs@.len());
    let mut out: Vec<FileEdits> = Vec::new();
    let mut n: usize = 0;
    while n < docs.len()
        invariant
            dv == views(docs@),
            dv.len() == docs@.len(),
            n <= docs@.len(),
            document_edits(dv, n as int) == Ok::<_, Seq<char>>(views(out@)),
        decreases docs@.len() - n,
    {
        let doc = &docs[n];
        assert(dv[n as int] == doc@);
        let uri = match doc.field("textDocument") {
            Some(t) => t.field_text("uri"),
            None => None,
        };
        match uri {
            Some(u) => match parse_text_edits(doc.field("edits")) {
                Ok(edits) => {
                    add_edits(&mut out, uri_to_path(u), edits);
                },
                Err(m) => {
                    proof {
                        document_edits_stay_failed(dv, n + 1, dv.len() as int);
                    }
                    return Err(m);
                },
            },
            None => {
                proof {
                    document_edits_stay_failed(dv, n + 1, dv.len() as int);
                }
                return Err("missing uri in documentChanges".to_owned());
            },
        }
        n = n + 1;
    }
    Ok(out)
}

fn read_entries(entries: &Vec<(String, Json)>) -> (r: Result<Vec<FileEdits>, String>)
    ensures
        files_outcome(r) == entry_edits(views(entries@), entries@.len() as int),
{
    let ghost ev = views(entries@);
    assert(ev.len() == entries@.len());
    let mut out: Vec<FileEdits> = Vec::new();
    let mut n: usize = 0;
    while n < entries.len()
        invariant
            ev == views(entries@),
            ev.len() == entries@.len(),
            n <= entries@.len(),
            entry_edits(ev, n as int) == Ok::<_, Seq<char>>(views(out@)),
        decreases entries@.len() - n,
    {
        assert(ev[n as int] == (entries@[n as int].0@, entries@[n as int].1@));
        match parse_text_edits(Some(&entries[n].1)) {
            Ok(edits) => {
                add_edits(&mut out, uri_to_path(&entries[n].0), edits);
            },
            Err(m) => {
                proof {
                    entry_edits_stay_failed(ev, n + 1, ev.len() as int);
                }
                return Err(m);
            },
        }
        n = n + 1;
    }
    Ok(out)
}

/// The edits of a workspace, by file, in the order in which the files come.
pub fn parse_workspace_edit(edit: &Json) -> (r: Result<Vec<FileEdits>, String>)
    ensures
        files_outcome(r) == workspace_edits(edit@),
{
    if let Some(docs) = edit.field_items("documentChanges") {
        assert(views(docs@).len() == docs@.len());
        return read_documents(docs);
    }
    if let Some(changes) = edit.field("changes") {
        if let Json::Obj(entries) = changes {
            assert(changes@->Obj_0 =~= views(entries@));
            return read_entries(entries);
        }
    }
    Err("edits.json has neither documentChanges nor changes field".to_owned())
}

/// How many files the edits of a workspace are in, as it lists them.
pub open spec fn affected_files(edit: JsonView) -> nat {
    match items_in(field_of(edit, "documentChanges"@)) {
        Some(docs) => docs.len(),
        None => match field_of(edit, "changes"@) {
            JsonView::Obj(entries) => entries.len(),
            _ => 0,
        },
    }
}

/// How many files the edits of a workspace are in.
pub fn count_affected_files(edit: &Json) -> (n: usize)
    ensures
        n == affected_files(edit@),
{
    if let Some(docs) = edit.field_items("documentChanges") {
        assert(views(docs@).len() == docs@.len());
        return docs.len();
    }
    if let Some(changes) = edit.field("changes") {
        if let Json::Obj(entries) = changes {
            assert(changes@->Obj_0.len() == entries@.len());
            return entries.len();
        }
    }
    0
}

// ---------------------------------------------------------------------------
// Applying edits
// ---------------------------------------------------------------------------

/// The bytes before line `n`, each line followed by one byte.
pub open spec fn line_offset(all: Seq<Seq<char>>, n: int) -> int
    decreases n,
{
    if n <= 0 {
        0
    } else {
        line_offset(all, n - 1) + byte_size(all[n - 1]) + 1
    }
}

/// How many units of UTF-16 a character takes.
pub open spec fn utf16_width(c: char) -> int {
    if (c as u32) < 0x10000 {
        1
    } else {
        2
    }
}

/// How many bytes of UTF-8 a character takes.
pub open spec fn utf8_width(c: char) -> int {
    encode_scalar(c as u32).len() as int
}

/// The bytes of the characters from `i` on before `left` units of UTF-16 are passed.
pub open spec fn bytes_before(line: Seq<char>, i: int, left: int) -> int
    decreases line.len() - i,
{
    if i < 0 || i >= line.len() || left <= 0 {
        0
    } else {
        utf8_width(line[i]) + bytes_before(line, i + 1, left - utf16_width(line[i]))
    }
}

/// The byte that a position stands at.
pub open spec fn position_offset(all: Seq<Seq<char>>, line: int, unit: int) -> int {
    line_offset(all, line) + if line < all.len() {
        bytes_before(all[line], 0, unit)
    } else {
        0
    }
}

fn utf8_width_of(c: char) -> (n: u8)
    ensures
        n == utf8_width(c),
        1 <= n <= 4,
{
    let u: u32 = c as u32;
    if u < 0x80 {
        1
    } else if u < 0x800 {
        2
    } else if u < 0x10000 {
        3
    } else {
        4
    }
}

/// A character takes at most as many bytes as the line that holds it.
proof fn bytes_before_fit(line: Seq<char>, i: int, left: int)
    requires
        0 <= i <= line.len(),
    ensures
        0 <= bytes_before(line, i, left) <= byte_size(line.skip(i)),
    decreases line.len() - i,
{
    if i < line.len() && left > 0 {
        bytes_before_fit(line, i + 1, left - utf16_width(line[i]));
        assert(line.skip(i).drop_first() =~= line.skip(i + 1));
    }
}

fn offset_wide(all: &Vec<String>, line: u32, unit: u32) -> (r: u128)
    requires
        line <= all@.len(),
    ensures
        r == position_offset(views(all@), line as int, unit as int),
{
    let ghost av = views(all@);
    assert(av.len() == all@.len());
    let mut offset: u128 = 0;
    let mut n: usize = 0;
    while n < line as usize
        invariant
            av == views(all@),
            n <= line <= all@.len(),
            offset == line_offset(av, n as int),
            offset <= n * 0x1_0000_0000_0000_0001,
        decreases line - n,
    {
        assert(av[n as int] == all@[n as int]@);
        let size: usize = byte_len(&all[n]);
        assert(n < 0x1_0000_0000);
        assert(n * 0x1_0000_0000_0000_0001 + 0x1_0000_0000_0000_0001 == (n + 1)
            * 0x1_0000_0000_0000_0001) by (nonlinear_arith);
        offset = offset + size as u128 + 1;
        n = n + 1;
    }
    assert(offset <= 0x1_0000_0000 * 0x1_0000_0000_0000_0001) by {
        assert(n <= 0x1_0000_0000);
        assert(n * 0x1_0000_0000_0000_0001 <= 0x1_0000_0000 * 0x1_0000_0000_0000_0001)
            by (nonlinear_arith)
            requires
                n <= 0x1_0000_0000,
        ;
    }
    if (line as usize) < all.len() {
        let text = &all[line as usize];
        assert(av[line as int] == text@);
        let v = chars_of(text);
        let ghost goal = bytes_before(v@, 0, unit as int);
        let mut bytes: u128 = 0;
        let mut units: u64 = 0;
        let mut i: usize = 0;
        proof {
            bytes_before_fit(v@, 0, unit as int);
            assert(v@.skip(0) =~= v@);
        }
        while i < v.len() && units < unit as u64
            invariant
                i <= v@.len(),
                units <= unit + 1,
                goal == bytes + bytes_before(v@, i as int, unit - units),
                bytes <= 4 * i,
                i <= usize::MAX,
            decreases v@.len() - i,
        {
            let c = v[i];
            bytes = bytes + utf8_width_of(c) as u128;
            units = units + if (c as u32) < 0x10000 {
                1u64
            } else {
                2u64
            };
            i = i + 1;
        }
        offset = offset + bytes;
    }
    offset
}

/// The byte that a position of a text stands at, from the text's lines.
pub fn utf16_to_byte_offset(all: &Vec<String>, line: u32, utf16_char: u32) -> (r: usize)
    requires
        line <= all@.len(),
        position_offset(views(all@), line as int, utf16_char as int) <= usize::MAX,
    ensures
        r == position_offset(views(all@), line as int, utf16_char as int),
{
    offset_wide(all, line, utf16_char) as usize
}

/// The bytes that an edit replaces, from the lines of the text.
pub open spec fn edit_start(all: Seq<Seq<char>>, e: TextEditView) -> int {
    position_offset(all, e.start_line as int, e.start_char as int)
}

/// One past the bytes that an edit replaces.
pub open spec fn edit_end(all: Seq<Seq<char>>, e: TextEditView) -> int {
    position_offset(all, e.end_line as int, e.end_char as int)
}

/// The edit fits the text, the lines of whose first state are `all`: its lines exist, and it
/// replaces whole characters.
pub open spec fn edit_fits(text: Seq<char>, all: Seq<Seq<char>>, e: TextEditView) -> bool {
    &&& e.start_line <= all.len()
    &&& e.end_line <= all.len()
    &&& text_at(text, 0, edit_start(all, e)) is Some
    &&& edit_start(all, e) <= edit_end(all, e)
    &&& text_at(text, edit_end(all, e), byte_size(text) as int) is Some
}

/// The text with the edit applied.
pub open spec fn edited(text: Seq<char>, all: Seq<Seq<char>>, e: TextEditView) -> Seq<char> {
    text_at(text, 0, edit_start(all, e))->0 + e.new_text + text_at(
        text,
        edit_end(all, e),
        byte_size(text) as int,
    )->0
}

/// The text after the first `n` edits, one after the other; none where one does not fit.
/// Every edit's positions are those of the text before any of them.
pub open spec fn after_edits(text: Seq<char>, edits: Seq<TextEditView>, n: int) -> Option<Seq<char>>
    decreases n,
{
    if n <= 0 {
        Some(text)
    } else {
        match after_edits(text, edits, n - 1) {
            None => None,
            Some(t) => if edit_fits(t, line_seq(text), edits[n - 1]) {
                Some(edited(t, line_seq(text), edits[n - 1]))
            } else {
                None
            },
        }
    }
}

proof fn edits_fail_for_good(text: Seq<char>, edits: Seq<TextEditView>, n: int, m: int)
    requires
        0 <= n <= m,
        after_edits(text, edits, n) is None,
    ensures
        after_edits(text, edits, m) is None,
    decreases m,
{
    if n < m {
        edits_fail_for_good(text, edits, n, m - 1);
    }
}

/// The text after the edits, which come in descending order of their positions; an error
/// where one does not fit the text.
pub fn apply_text_edits(content: &str, edits: &Vec<TextEdit>) -> (r: Result<String, String>)
    ensures
        match r {
            Ok(t) => after_edits(content@, views(edits@), edits@.len() as int) == Some(t@),
            Err(e) => after_edits(content@, views(edits@), edits@.len() as int) is None && e@
                == "edit does not fit the file"@,
        },
{
    let all = lines(content);
    let ghost av = line_seq(content@);
    assert(av.len() == all@.len());
    let ghost ev = views(edits@);
    let mut result = content.to_owned();
    let mut n: usize = 0;
    while n < edits.len()
        invariant
            av == views(all@),
            av == line_seq(content@),
            av.len() == all@.len(),
            ev == views(edits@),
            n <= edits@.len(),
            after_edits(content@, ev, n as int) == Some(result@),
        decreases edits@.len() - n,
    {
        let e = &edits[n];
        assert(ev[n as int] == e@);
        let mut next: Option<String> = None;
        if e.start_line as u64 <= all.len() as u64 && e.end_line as u64 <= all.len() as u64 {
            let start = offset_wide(&all, e.start_line, e.start_char);
            let end = offset_wide(&all, e.end_line, e.end_char);
            let size: usize = byte_len(&result);
            if start <= end && end <= size as u128 {
                if let Some(left) = slice_text(&result, 0, start as usize) {
                    if let Some(right) = slice_text(&result, end as usize, size) {
                        next = Some(concat3(&left, &e.new_text, &right));
                    }
                }
            }
        }
        match next {
            Some(t) => {
                result = t;
            },
            None => {
                proof {
                    edits_fail_for_good(content@, ev, n + 1, ev.len() as int);
                }
                return Err("edit does not fit the file".to_owned());
            },
        }
        n = n + 1;
    }
    Ok(result)
}

/// Without edits a text stays as it is.
pub proof fn no_edits_change_nothing(text: Seq<char>)
    ensures
        after_edits(text, Seq::empty(), 0) == Some(text),
{
}

/// Apply the edits of a file, whatever order they come in: later positions first, so that
/// no edit moves the text that another is on.
pub fn apply_file_edits(content: &str, edits: Vec<TextEdit>) -> (r: Result<String, String>)
    ensures
        ({
            let sorted = stable_sorted::<TextEdit>(views(edits@));
            match r {
                Ok(t) => after_edits(content@, sorted, sorted.len() as int) == Some(t@),
                Err(e) => after_edits(content@, sorted, sorted.len() as int) is None && e@
                    == "edit does not fit the file"@,
            }
        }),
{
    let sorted = stable_sort(edits);
    assert(views(sorted@).len() == sorted@.len());
    apply_text_edits(content, &sorted)
}

/// A file and the text that it is to get.
#[derive(Debug)]
pub struct Staged {
    pub path: String,
    pub content: String,
}

/// What a [`Staged`] holds.
#[verifier::ext_equal]
pub struct StagedView {
    pub path: Seq<char>,
    pub content: Seq<char>,
}

impl DeepView for Staged {
    type V = StagedView;

    open spec fn deep_view(&self) -> StagedView {
        StagedView {
            path: self.path.deep_view(),
            content: self.content.deep_view(),
        }
    }
}

impl View for Staged {
    type V = StagedView;

    open spec fn view(&self) -> StagedView {
        self.deep_view()
    }
}

/// What the edits of a file make of its text; none where one does not fit.
pub open spec fn file_after(file: FileEditsView, content: Seq<char>) -> Option<Seq<char>> {
    let sorted = stable_sorted::<TextEdit>(file.edits);
    after_edits(content, sorted, sorted.len() as int)
}

/// What the edits of the first `n` files make of their texts; none where one does not fit.
pub open spec fn staged_files(
    files: Seq<FileEditsView>,
    contents: Seq<Seq<char>>,
    n: int,
) -> Option<Seq<StagedView>>
    decreases n,
{
    if n <= 0 {
        Some(Seq::empty())
    } else {
        match (staged_files(files, contents, n - 1), file_after(files[n - 1], contents[n - 1])) {
            (Some(rest), Some(content)) => Some(
                rest.push(StagedView { path: files[n - 1].path, content }),
            ),
            _ => None,
        }
    }
}

proof fn staging_fails_for_good(
    files: Seq<FileEditsView>,
    contents: Seq<Seq<char>>,
    n: int,
    m: int,
)
    requires
        0 <= n <= m,
        staged_files(files, contents, n) is None,
    ensures
        staged_files(files, contents, m) is None,
    decreases m,
{
    if n < m {
        staging_fails_for_good(files, contents, n, m - 1);
    }
}

fn stage_file(file: FileEdits, content: &str) -> (r: Result<Staged, String>)
    ensures
        match r {
            Ok(s) => file_after(file@, content@) == Some(s@.content) && s@.path == file@.path,
            Err(e) => file_after(file@, content@) is None && e@ == "edit does not fit the file"@,
        },
{
    let path = file.path;
    match apply_file_edits(content, file.edits) {
        Ok(content) => Ok(Staged { path, content }),
        Err(e) => Err(e),
    }
}

/// What edits make of the texts of their files, before anything is written: all of them, or an
/// error where one does not fit.
pub fn apply_edits(files: Vec<FileEdits>, contents: &Vec<String>) -> (r: Result<
    Vec<Staged>,
    String,
>)
    requires
        files@.len() == contents@.len(),
    ensures
        match r {
            Ok(out) => staged_files(views(files@), views(contents@), files@.len() as int) == Some(
                views(out@),
            ),
            Err(e) => staged_files(views(files@), views(contents@), files@.len() as int) is None
                && e@ == "edit does not fit the file"@,
        },
{
    let ghost given = files@;
    let ghost fv = views(files@);
    let ghost cv = views(contents@);
    let total: usize = contents.len();
    let mut out: Vec<Staged> = Vec::new();
    let mut n: usize = 0;
    for f in it: files
        invariant
            it.seq() == given,
            fv == views(given),
            cv == views(contents@),
            given.len() == contents@.len(),
            total == contents@.len(),
            n == it.index(),
            staged_files(fv, cv, n as int) == Some(views(out@)),
    {
        assert(f == given[n as int]);
        assert(fv[n as int] == f@);
        assert(cv[n as int] == contents@[n as int]@);
        match stage_file(f, &contents[n]) {
            Ok(staged) => {
                out.push(staged);
            },
            Err(e) => {
                proof {
                    staging_fails_for_good(fv, cv, n + 1, fv.len() as int);
                }
                return Err(e);
            },
        }
        n = n + 1;
    }
    Ok(out)
}

/// Edits are applied to all files or to none: where something is to be written, every file has
/// its new text, in the order of the edits.
pub proof fn edits_apply_to_all_or_none(
    files: Seq<FileEditsView>,
    contents: Seq<Seq<char>>,
    n: int,
)
    requires
        0 <= n <= files.len(),
    ensures
        match staged_files(files, contents, n) {
            Some(out) => out.len() == n && forall|i: int|
                0 <= i < n ==> (#[trigger] out[i]).path == files[i].path && file_after(
                    files[i],
                    contents[i],
                ) == Some(out[i].content),
            None => exists|i: int| 0 <= i < n && file_after(#[trigger] files[i], contents[i]) is None,
        },
    decreases n,
{
    if n > 0 {
        edits_apply_to_all_or_none(files, contents, n - 1);
    }
}

// ---------------------------------------------------------------------------
// What a watching process answers
// ---------------------------------------------------------------------------

/// Why nothing can be renamed while no process watches the project.
pub fn needs_watcher(root: &str, symbol: &str, new_name: &str) -> (r: String)
    ensures
        r@ == "rename requires an active watcher.\nStart it with:  graphlite watch "@ + root@
            + "\nThen retry:     graphlite rename "@ + symbol@ + " "@ + new_name@,
{
    let mut out = concat3(
        "rename requires an active watcher.\nStart it with:  graphlite watch ",
        root,
        "\nThen retry:     graphlite rename ",
    );
    out.append(symbol);
    out.append(" ");
    out.append(new_name);
    out
}

/// The edit in an answer to a request to rename, as JSON.
pub fn rename(response: WatchResponse) -> (r: Result<String, String>)
    ensures
        if !response.ok {
            r matches Err(e) && e@ == or_text(response.error.deep_view(), "rename failed"@)
        } else {
            match response.data {
                Some(d) => r matches Ok(json) && json == d,
                None => r matches Err(e) && e@ == "watcher returned no edit data"@,
            }
        },
{
    if !response.ok {
        return match response.error {
            Some(e) => Err(e),
            None => Err("rename failed".to_owned()),
        };
    }
    match response.data {
        Some(d) => Ok(d),
        None => Err("watcher returned no edit data".to_owned()),
    }
}

// ---------------------------------------------------------------------------
// What edits do together
// ---------------------------------------------------------------------------

/// Where the text that the first `n` edits have changed begins: at the last of them, or at
/// the end of the text.
pub open spec fn changed_from(text: Seq<char>, edits: Seq<TextEditView>, n: int) -> int {
    if n <= 0 {
        byte_size(text) as int
    } else {
        edit_start(line_seq(text), edits[n - 1])
    }
}

/// The edits come in descending order and do not overlap.
pub open spec fn apart(text: Seq<char>, edits: Seq<TextEditView>, n: int) -> bool {
    forall|k: int|
        0 <= k < n ==> edit_end(line_seq(text), #[trigger] edits[k]) <= changed_from(
            text,
            edits,
            k,
        )
}

/// The bytes that stand, after the first `n` edits, from the last of them on: its text, the
/// unchanged bytes up to the edit before it, and so on.
pub open spec fn changed_bytes(text: Seq<char>, edits: Seq<TextEditView>, n: int) -> Seq<u8>
    decreases n,
{
    if n <= 0 {
        Seq::empty()
    } else {
        let e = edits[n - 1];
        encode_utf8(e.new_text) + encode_utf8(text).subrange(
            edit_end(line_seq(text), e),
            changed_from(text, edits, n - 1),
        ) + changed_bytes(text, edits, n - 1)
    }
}

/// Edits that come in descending order and do not overlap change only what they are on: the
/// bytes before the last of them, those between each two, and those behind the first stay
/// as they are, and each edit's bytes are replaced by its text.
pub proof fn edits_change_their_places_only(text: Seq<char>, edits: Seq<TextEditView>, n: int)
    requires
        0 <= n <= edits.len(),
        apart(text, edits, n),
        after_edits(text, edits, n) is Some,
    ensures
        0 <= changed_from(text, edits, n) <= byte_size(text),
        encode_utf8(after_edits(text, edits, n)->0) == encode_utf8(text).take(
            changed_from(text, edits, n),
        ) + changed_bytes(text, edits, n),
    decreases n,
{
    let bytes = encode_utf8(text);
    if n == 0 {
        assert(bytes.take(bytes.len() as int) + Seq::<u8>::empty() =~= bytes);
    } else {
        edits_change_their_places_only(text, edits, n - 1);
        let all = line_seq(text);
        let e = edits[n - 1];
        let t = after_edits(text, edits, n - 1)->0;
        let s = edit_start(all, e);
        let end = edit_end(all, e);
        let b = changed_from(text, edits, n - 1);
        let left = text_at(t, 0, s)->0;
        let right = text_at(t, end, byte_size(t) as int)->0;
        assert(end <= b);
        part_has_its_bytes(t, 0, s);
        part_has_its_bytes(t, end, byte_size(t) as int);
        encoding_joins(left + e.new_text, right);
        encoding_joins(left, e.new_text);
        let tail = changed_bytes(text, edits, n - 1);
        let tb = encode_utf8(t);
        assert(tb == bytes.take(b) + tail);
        assert(tb.subrange(0, s) =~= bytes.take(s));
        assert(tb.subrange(end, tb.len() as int) =~= bytes.subrange(end, b) + tail);
        assert(encode_utf8(left + e.new_text + right) =~= bytes.take(s) + (encode_utf8(e.new_text)
            + bytes.subrange(end, b) + tail));
    }
}

/// `str`'s `Debug` form of a text: quoted, with what does not print escaped.
pub uninterp spec fn quoted(s: Seq<char>) -> Seq<char>;

/// The `Debug` form of std for a text, which depends on the text alone.
#[verifier::external_body]
fn quote(s: &str) -> (r: String)
    ensures
        r@ == quoted(s@),
{
    format!("{:?}", s)
}

/// What an edit of a file changes: the place, the text that it replaces, and its text.
pub open spec fn edit_line(path: Seq<char>, e: TextEditView, was: Seq<char>, becomes: Seq<char>) -> Seq<
    char,
> {
    path + " L"@ + dec((e.start_line + 1) as nat) + ":"@ + dec(e.start_char as nat) + ": "@ + was
        + " -> "@ + becomes + "\n"@
}

/// What an edit of a file changes, with both texts as they are shown.
pub fn show_edit(path: &str, e: &TextEdit, was: &str, becomes: &str) -> (r: String)
    ensures
        r@ == edit_line(path@, e@, was@, becomes@),
{
    let mut s = concat3(path, " L", &u64_text(e.start_line as u64 + 1));
    s.append(":");
    s.append(&u64_text(e.start_char as u64));
    s.append(": ");
    s.append(was);
    s.append(" -> ");
    s.append(becomes);
    s.append("\n");
    s
}

/// The text that an edit replaces; none where it does not fit.
pub open spec fn replaced_text(text: Seq<char>, e: TextEditView) -> Option<Seq<char>> {
    let all = line_seq(text);
    if e.start_line <= all.len() && e.end_line <= all.len() {
        text_at(text, edit_start(all, e), edit_end(all, e))
    } else {
        None
    }
}

/// What the first `n` edits of a file change, one line each; none where one does not fit.
pub open spec fn diff_text(
    path: Seq<char>,
    text: Seq<char>,
    edits: Seq<TextEditView>,
    n: int,
) -> Option<Seq<char>>
    decreases n,
{
    if n <= 0 {
        Some(Seq::empty())
    } else {
        match (diff_text(path, text, edits, n - 1), replaced_text(text, edits[n - 1])) {
            (Some(out), Some(old)) => Some(
                out + edit_line(path, edits[n - 1], quoted(old), quoted(edits[n - 1].new_text)),
            ),
            _ => None,
        }
    }
}

proof fn diff_fails_for_good(
    path: Seq<char>,
    text: Seq<char>,
    edits: Seq<TextEditView>,
    n: int,
    m: int,
)
    requires
        0 <= n <= m,
        diff_text(path, text, edits, n) is None,
    ensures
        diff_text(path, text, edits, m) is None,
    decreases m,
{
    if n < m {
        diff_fails_for_good(path, text, edits, n, m - 1);
    }
}

/// Show what the edits of a file change; an error where one does not fit the file.
pub fn diff_rename(path: &str, content: &str, edits: &Vec<TextEdit>) -> (r: Result<String, String>)
    ensures
        match r {
            Ok(t) => diff_text(path@, content@, views(edits@), edits@.len() as int) == Some(t@),
            Err(e) => diff_text(path@, content@, views(edits@), edits@.len() as int) is None && e@
                == "edit does not fit the file"@,
        },
{
    let all = lines(content);
    let ghost av = line_seq(content@);
    assert(av.len() == all@.len());
    let ghost ev = views(edits@);
    let size: usize = byte_len(content);
    let mut out = String::new();
    let mut n: usize = 0;
    while n < edits.len()
        invariant
            av == views(all@),
            av == line_seq(content@),
            av.len() == all@.len(),
            ev == views(edits@),
            size == byte_size(content@),
            n <= edits@.len(),
            diff_text(path@, content@, ev, n as int) == Some(out@),
        decreases edits@.len() - n,
    {
        let e = &edits[n];
        assert(ev[n as int] == e@);
        let mut old_text: Option<String> = None;
        if e.start_line as u64 <= all.len() as u64 && e.end_line as u64 <= all.len() as u64 {
            let start = offset_wide(&all, e.start_line, e.start_char);
            let end = offset_wide(&all, e.end_line, e.end_char);
            if start <= end && end <= size as u128 {
                old_text = slice_text(content, start as usize, end as usize);
            }
        }
        match old_text {
            Some(t) => {
                out.append(&show_edit(path, e, &quote(&t), &quote(&e.new_text)));
            },
            None => {
                proof {
                    diff_fails_for_good(path@, content@, ev, n + 1, ev.len() as int);
                }
                return Err("edit does not fit the file".to_owned());
            },
        }
        n = n + 1;
    }
    Ok(out)
}

// ---------------------------------------------------------------------------
// Where edits go
// ---------------------------------------------------------------------------

/// How many units of UTF-16 a text takes: one for a character of the basic plane, two for any
/// other.
pub open spec fn utf16_size(s: Seq<char>) -> int
    decreases s.len(),
{
    if s.len() == 0 {
        0
    } else {
        utf16_size(s.drop_last()) + if (s.last() as u32) < 0x10000 {
            1int
        } else {
            2int
        }
    }
}

proof fn sizes_from_the_front(s: Seq<char>)
    requires
        s.len() > 0,
    ensures
        utf16_size(s) == utf16_size(s.skip(1)) + (if (s[0] as u32) < 0x10000 {
            1int
        } else {
            2int
        }),
        byte_size(s) == byte_size(s.skip(1)) + utf8_width(s[0]),
        utf16_size(s) > 0,
    decreases s.len(),
{
    let one = seq![s[0]];
    assert(s =~= one + s.skip(1));
    crate::text::encoding_joins(one, s.skip(1));
    reveal_with_fuel(encode_utf8, 2);
    assert(one.drop_first() =~= Seq::<char>::empty());
    if s.len() > 1 {
        sizes_from_the_front(s.drop_last());
        assert(s.drop_last().skip(1) =~= s.skip(1).drop_last());
        assert(s.skip(1).last() == s.last());
    } else {
        assert(s.drop_last() =~= Seq::<char>::empty());
        assert(s.skip(1) =~= Seq::<char>::empty());
    }
}

proof fn units_are_bytes(line: Seq<char>, i: int, k: int)
    requires
        0 <= i <= k <= line.len(),
    ensures
        bytes_before(line, i, utf16_size(line.subrange(i, k))) == byte_size(line.subrange(i, k)),
    decreases k - i,
{
    let part = line.subrange(i, k);
    if i < k {
        sizes_from_the_front(part);
        assert(part.skip(1) =~= line.subrange(i + 1, k));
        assert(part[0] == line[i]);
        units_are_bytes(line, i + 1, k);
    } else {
        assert(part =~= Seq::<char>::empty());
        reveal_with_fuel(encode_utf8, 1);
    }
}

/// A position counts whole lines, each with its line break, and then units of UTF-16 within the
/// line: the position behind `k` characters of a line is behind their bytes.
pub proof fn positions_count_units(all: Seq<Seq<char>>, line: int, k: int)
    requires
        0 <= line < all.len(),
        0 <= k <= all[line].len(),
    ensures
        position_offset(all, line, utf16_size(all[line].take(k))) == line_offset(all, line)
            + byte_size(all[line].take(k)),
        line_offset(all, 0) == 0,
        line_offset(all, line + 1) == line_offset(all, line) + byte_size(all[line]) + 1,
{
    units_are_bytes(all[line], 0, k);
    assert(all[line].subrange(0, k) =~= all[line].take(k));
}

/// The edits of a file are made from its end to its start, so that no edit moves the place of
/// one that is still to be made.
pub proof fn later_edits_are_made_first(edits: Seq<TextEditView>, i: int, j: int)
    requires
        0 <= i < j < edits.len(),
    ensures
        ({
            let a = stable_sorted::<TextEdit>(edits)[i];
            let b = stable_sorted::<TextEdit>(edits)[j];
            a.start_line > b.start_line || (a.start_line == b.start_line && a.start_char
                >= b.start_char)
        }),
        stable_sorted::<TextEdit>(edits).to_multiset() == edits.to_multiset(),
{
    crate::order::sorting_orders::<TextEdit>(edits);
    let s = stable_sorted::<TextEdit>(edits);
    assert(!TextEdit::before(s[j], s[i]));
}

/// One edit replaces what stands between its places by its text, and leaves the rest.
pub proof fn an_edit_replaces_its_range(text: Seq<char>, e: TextEditView)
    requires
        after_edits(text, seq![e], 1) is Some,
    ensures
        ({
            let all = line_seq(text);
            let a = position_offset(all, e.start_line as int, e.start_char as int);
            let b = position_offset(all, e.end_line as int, e.end_char as int);
            &&& 0 <= a <= b <= byte_size(text)
            &&& encode_utf8(after_edits(text, seq![e], 1)->0) == encode_utf8(text).take(a)
                + encode_utf8(e.new_text) + encode_utf8(text).skip(b)
        }),
{
    reveal_with_fuel(after_edits, 2);
    let all = line_seq(text);
    let a = edit_start(all, e);
    let b = edit_end(all, e);
    let n = byte_size(text) as int;
    let head = text_at(text, 0, a)->0;
    let tail = text_at(text, b, n)->0;
    crate::text::part_has_its_bytes(text, 0, a);
    crate::text::part_has_its_bytes(text, b, n);
    crate::text::encoding_joins(head, e.new_text);
    crate::text::encoding_joins(head + e.new_text, tail);
    assert(encode_utf8(text).subrange(0, a) =~= encode_utf8(text).take(a));
    assert(encode_utf8(text).subrange(b, n) =~= encode_utf8(text).skip(b));
}

/// An edit is what its JSON says: the lines and characters of its range, and its text.
pub proof fn edits_are_read(e: JsonView, a: int, b: int, c: int, d: int, t: Seq<char>)
    requires
        0 <= a < 0x1_0000_0000,
        0 <= b < 0x1_0000_0000,
        0 <= c < 0x1_0000_0000,
        0 <= d < 0x1_0000_0000,
        field_of(field_of(field_of(e, "range"@), "start"@), "line"@) == JsonView::Num(Some(a)),
        field_of(field_of(field_of(e, "range"@), "start"@), "character"@) == JsonView::Num(Some(b)),
        field_of(field_of(field_of(e, "range"@), "end"@), "line"@) == JsonView::Num(Some(c)),
        field_of(field_of(field_of(e, "range"@), "end"@), "character"@) == JsonView::Num(Some(d)),
        field_of(e, "newText"@) == JsonView::Str(t),
    ensures
        edit_in(e) == Ok::<TextEditView, Seq<char>>(
            TextEditView {
                start_line: a as u32,
                start_char: b as u32,
                end_line: c as u32,
                end_char: d as u32,
                new_text: t,
            },
        ),
{
}

proof fn file_at_is_first(files: Seq<FileEditsView>, path: Seq<char>, i: int)
    requires
        0 <= i <= files.len(),
    ensures
        match file_at(files, path, i) {
            Some(k) => i <= k < files.len() && files[k].path == path,
            None => forall|k: int| i <= k < files.len() ==> (#[trigger] files[k]).path != path,
        },
    decreases files.len() - i,
{
    if i < files.len() {
        file_at_is_first(files, path, i + 1);
    }
}

/// Edits of a file are added to those that it has; edits of other files stay as they are.
pub proof fn edits_are_gathered_by_file(
    files: Seq<FileEditsView>,
    path: Seq<char>,
    edits: Seq<TextEditView>,
)
    ensures
        ({
            let out = with_edits(files, path, edits);
            &&& exists|k: int|
                0 <= k < out.len() && (#[trigger] out[k]).path == path && (if k < files.len() {
                    files[k].path == path && out[k].edits == files[k].edits + edits
                } else {
                    out[k].edits == edits
                }) && forall|j: int|
                    0 <= j < files.len() && j != k ==> #[trigger] out[j] == files[j]
            &&& (exists|k: int| 0 <= k < files.len() && (#[trigger] files[k]).path == path)
                ==> out.len() == files.len()
            &&& (forall|k: int| 0 <= k < files.len() ==> (#[trigger] files[k]).path != path)
                ==> out.len() == files.len() + 1
        }),
{
    file_at_is_first(files, path, 0);
    let out = with_edits(files, path, edits);
    match file_at(files, path, 0) {
        Some(k) => {
            assert(out[k].path == path);
        },
        None => {
            assert(out[files.len() as int].path == path);
        },
    }
}

/// The path of a file's URI is what stands behind `file://`.
pub proof fn uris_hold_paths(path: Seq<char>)
    ensures
        path_of_uri("file://"@ + path) == path,
        !crate::text::begins_with(path, "file://"@) ==> path_of_uri(path) == path,
{
    let uri = "file://"@ + path;
    let n = "file://"@.len() as int;
    assert(uri.take(n) =~= "file://"@);
    assert(uri.skip(n) =~= path);
}

/// A preview shows each edit on a line of its own: the file, the line counted from 1, the
/// character, and what is replaced by what.
pub proof fn previews_show_each_edit(
    path: Seq<char>,
    text: Seq<char>,
    edits: Seq<TextEditView>,
    n: int,
)
    requires
        0 < n <= edits.len(),
        diff_text(path, text, edits, n) is Some,
    ensures
        ({
            let e = edits[n - 1];
            let all = line_seq(text);
            let a = position_offset(all, e.start_line as int, e.start_char as int);
            let b = position_offset(all, e.end_line as int, e.end_char as int);
            diff_text(path, text, edits, n - 1) is Some && text_at(text, a, b) is Some
                && diff_text(path, text, edits, n)->0 == diff_text(path, text, edits, n - 1)->0 + (
            path + " L"@ + dec((e.start_line + 1) as nat) + ":"@ + dec(e.start_char as nat) + ": "@
                + quoted(text_at(text, a, b)->0) + " -> "@ + quoted(e.new_text) + "\n"@)
        }),
{
}

/// The files of a rename are those that its documents, or its changes, name.
pub proof fn affected_files_are_counted(edit: JsonView)
    ensures
        items_in(field_of(edit, "documentChanges"@)) matches Some(docs) ==> affected_files(edit)
            == docs.len(),
        items_in(field_of(edit, "documentChanges"@)) is None ==> (field_of(edit, "changes"@)
            matches JsonView::Obj(entries) ==> affected_files(edit) == entries.len()),
{
}

} // verus!
