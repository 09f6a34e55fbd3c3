//! Notes on symbols: adding to them and listing them.

use vstd::prelude::*;

use crate::model::{views, Dup};
use crate::text::{
    begins_with, bool_text, concat2, has_str, i64_text, int_text, replace, replaced, text_of_bool,
};

verus! {

broadcast use crate::model::group_views;

/// A note on a symbol, and the hash of the symbol's source when it was made.
#[derive(Debug)]
pub struct Note {
    pub intent: Option<String>,
    pub behavior: Option<String>,
    pub tags: Option<String>,
    pub source: String,
    pub content_hash: String,
}

/// What a [`Note`] holds.
#[verifier::ext_equal]
pub struct NoteView {
    pub intent: Option<Seq<char>>,
    pub behavior: Option<Seq<char>>,
    pub tags: Option<Seq<char>>,
    pub source: Seq<char>,
    pub content_hash: Seq<char>,
}

impl DeepView for Note {
    type V = NoteView;

    open spec fn deep_view(&self) -> NoteView {
        NoteView {
            intent: self.intent.deep_view(),
            behavior: self.behavior.deep_view(),
            tags: self.tags.deep_view(),
            source: self.source.deep_view(),
            content_hash: self.content_hash.deep_view(),
        }
    }
}

impl View for Note {
    type V = NoteView;

    open spec fn view(&self) -> NoteView {
        self.deep_view()
    }
}

impl Dup for Note {
    fn dup(&self) -> (r: Note) {
        Note {
            intent: self.intent.dup(),
            behavior: self.behavior.dup(),
            tags: self.tags.dup(),
            source: self.source.dup(),
            content_hash: self.content_hash.dup(),
        }
    }
}

/// The text, or else the other.
pub open spec fn first_of(a: Option<Seq<char>>, b: Option<Seq<char>>) -> Option<Seq<char>> {
    if a is Some {
        a
    } else {
        b
    }
}

/// The note that a change makes of what a symbol had. What the change leaves out stays.
pub open spec fn merged(existing: Option<NoteView>, change: NoteView) -> NoteView {
    match existing {
        Some(old_note) => NoteView {
            intent: first_of(change.intent, old_note.intent),
            behavior: first_of(change.behavior, old_note.behavior),
            tags: first_of(change.tags, old_note.tags),
            source: change.source,
            content_hash: change.content_hash,
        },
        None => change,
    }
}

fn pick(a: &Option<String>, b: &Option<String>) -> (r: Option<String>)
    ensures
        r.deep_view() == first_of(a.deep_view(), b.deep_view()),
{
    match a {
        Some(t) => Some(t.dup()),
        None => b.dup(),
    }
}

/// Create or update the note on a symbol. At least one of intent, behavior and tags must be
/// given; what is not given stays as it was.
pub fn annotate(existing: &Option<Note>, change: &Note) -> (r: Result<Note, &'static str>)
    ensures
        if change@.intent is None && change@.behavior is None && change@.tags is None {
            r matches Err(m) && m@ == "at least one of --intent, --behavior, --tags is required"@
        } else {
            r matches Ok(n) && n@ == merged(existing.deep_view(), change@)
        },
{
    if change.intent.is_none() && change.behavior.is_none() && change.tags.is_none() {
        return Err("at least one of --intent, --behavior, --tags is required");
    }
    match existing {
        Some(e) => Ok(
            Note {
                intent: pick(&change.intent, &e.intent),
                behavior: pick(&change.behavior, &e.behavior),
                tags: pick(&change.tags, &e.tags),
                source: change.source.dup(),
                content_hash: change.content_hash.dup(),
            },
        ),
        None => Ok(change.dup()),
    }
}

/// Making the same change again changes nothing.
pub proof fn same_change_again(existing: Option<NoteView>, change: NoteView)
    ensures
        merged(Some(merged(existing, change)), change) == merged(existing, change),
{
}

// ---------------------------------------------------------------------------
// Listing
// ---------------------------------------------------------------------------

/// A text with the characters that XML gives a meaning replaced by their entities.
pub open spec fn escaped(s: Seq<char>) -> Seq<char> {
    replaced(
        replaced(replaced(replaced(s, "&"@, "&amp;"@), "<"@, "&lt;"@), ">"@, "&gt;"@),
        "\""@,
        "&quot;"@,
    )
}

/// A text with the characters that XML gives a meaning replaced by their entities.
pub fn xml_escape(s: &str) -> (r: String)
    ensures
        r@ == escaped(s@),
{
    proof {
        reveal_strlit("&");
        reveal_strlit("<");
        reveal_strlit(">");
        reveal_strlit("\"");
    }
    let a = replace(s, "&", "&amp;");
    let b = replace(&a, "<", "&lt;");
    let c = replace(&b, ">", "&gt;");
    replace(&c, "\"", "&quot;")
}

/// The character does not occur.
pub open spec fn lacks(s: Seq<char>, c: char) -> bool {
    forall|i: int| 0 <= i < s.len() ==> s[i] != c
}

/// Replacing one character by texts keeps away what neither the text nor the replacement has,
/// and the character itself where the replacement lacks it.
proof fn replacing_keeps_away(s: Seq<char>, c: char, by: Seq<char>, d: char)
    requires
        lacks(by, d),
        c == d || lacks(s, d),
    ensures
        lacks(replaced(s, seq![c], by), d),
    decreases s.len(),
{
    let p = seq![c];
    if s.len() >= 1 {
        if crate::text::begins_with(s, p) {
            assert(s[0] == s.take(1)[0]);
            replacing_keeps_away(s.skip(1), c, by, d);
            let rest = replaced(s.skip(1), p, by);
            assert forall|i: int| 0 <= i < (by + rest).len() implies (by + rest)[i] != d by {
                if i >= by.len() {
                    assert((by + rest)[i] == rest[i - by.len()]);
                }
            }
        } else {
            replacing_keeps_away(s.skip(1), c, by, d);
            let rest = replaced(s.skip(1), p, by);
            assert(s[0] != c) by {
                if s[0] == c {
                    assert(s.take(1) =~= p);
                }
            }
            assert forall|i: int| 0 <= i < (seq![s[0]] + rest).len() implies (seq![s[0]]
                + rest)[i] != d by {
                if i >= 1 {
                    assert((seq![s[0]] + rest)[i] == rest[i - 1]);
                }
            }
        }
    }
}

/// An escaped text can stand in an element and in an attribute: it holds no `<`, no `>` and
/// no quotation mark.
pub proof fn escaped_is_harmless(s: Seq<char>)
    ensures
        lacks(escaped(s), '<'),
        lacks(escaped(s), '>'),
        lacks(escaped(s), '"'),
{
    reveal_strlit("&");
    reveal_strlit("<");
    reveal_strlit(">");
    reveal_strlit("\"");
    reveal_strlit("&lt;");
    reveal_strlit("&gt;");
    reveal_strlit("&quot;");
    assert("<"@ =~= seq!['<']);
    assert(">"@ =~= seq!['>']);
    assert("\""@ =~= seq!['"']);
    let a = replaced(s, "&"@, "&amp;"@);
    let b = replaced(a, "<"@, "&lt;"@);
    let c = replaced(b, ">"@, "&gt;"@);
    replacing_keeps_away(a, '<', "&lt;"@, '<');
    replacing_keeps_away(b, '>', "&gt;"@, '<');
    replacing_keeps_away(c, '"', "&quot;"@, '<');
    replacing_keeps_away(b, '>', "&gt;"@, '>');
    replacing_keeps_away(c, '"', "&quot;"@, '>');
    replacing_keeps_away(c, '"', "&quot;"@, '"');
}

/// A note with its symbol, to be listed. `annotated_hash` is the hash of the symbol's source
/// when the note was made, `content_hash` the present one; `confidence` is as it is shown.
#[derive(Debug)]
pub struct NoteRow {
    pub id: i64,
    pub name: String,
    pub kind: String,
    pub file: String,
    pub intent: Option<String>,
    pub behavior: Option<String>,
    pub tags: Option<String>,
    pub source: String,
    pub confidence: String,
    pub annotated_hash: String,
    pub content_hash: String,
}

/// What a [`NoteRow`] holds.
#[verifier::ext_equal]
pub struct NoteRowView {
    pub id: i64,
    pub name: Seq<char>,
    pub kind: Seq<char>,
    pub file: Seq<char>,
    pub intent: Option<Seq<char>>,
    pub behavior: Option<Seq<char>>,
    pub tags: Option<Seq<char>>,
    pub source: Seq<char>,
    pub confidence: Seq<char>,
    pub annotated_hash: Seq<char>,
    pub content_hash: Seq<char>,
}

impl DeepView for NoteRow {
    type V = NoteRowView;

    open spec fn deep_view(&self) -> NoteRowView {
        NoteRowView {
            id: self.id.deep_view(),
            name: self.name.deep_view(),
            kind: self.kind.deep_view(),
            file: self.file.deep_view(),
            intent: self.intent.deep_view(),
            behavior: self.behavior.deep_view(),
            tags: self.tags.deep_view(),
            source: self.source.deep_view(),
            confidence: self.confidence.deep_view(),
            annotated_hash: self.annotated_hash.deep_view(),
            content_hash: self.content_hash.deep_view(),
        }
    }
}

impl View for NoteRow {
    type V = NoteRowView;

    open spec fn view(&self) -> NoteRowView {
        self.deep_view()
    }
}

/// The symbol has changed since the note was made.
pub open spec fn is_stale(n: NoteRowView) -> bool {
    n.annotated_hash != n.content_hash
}

/// A part of a note, on a line of its own.
pub open spec fn part_line(tag: Seq<char>, part: Option<Seq<char>>) -> Seq<char> {
    match part {
        Some(t) => "    <"@ + tag + ">"@ + escaped(t) + "</"@ + tag + ">\n"@,
        None => ""@,
    }
}

/// A note as an element.
pub open spec fn note_lines(n: NoteRowView) -> Seq<char> {
    "  <annotation id=\""@ + int_text(n.id as int) + "\" name=\""@ + escaped(n.name)
        + "\" kind=\""@ + escaped(n.kind) + "\" file=\""@ + escaped(n.file) + "\" source=\""@
        + escaped(n.source) + "\" confidence=\""@ + n.confidence + "\" stale=\""@ + bool_text(
        is_stale(n),
    ) + "\">\n"@ + part_line("intent"@, n.intent) + part_line("behavior"@, n.behavior) + part_line(
        "tags"@,
        n.tags,
    ) + "  </annotation>\n"@
}

/// The note is to be listed.
pub open spec fn is_wanted(n: NoteRowView, stale_only: bool) -> bool {
    !stale_only || is_stale(n)
}

/// The list with those of the first `n` notes that are to be listed.
pub open spec fn listed(rows: Seq<NoteRowView>, stale_only: bool, n: int) -> Seq<char>
    decreases n,
{
    if n <= 0 {
        "<annotations>\n"@
    } else if is_wanted(rows[n - 1], stale_only) {
        listed(rows, stale_only, n - 1) + note_lines(rows[n - 1])
    } else {
        listed(rows, stale_only, n - 1)
    }
}

/// How many of the first `n` notes are to be listed.
pub open spec fn listed_count(rows: Seq<NoteRowView>, stale_only: bool, n: int) -> nat
    decreases n,
{
    if n <= 0 {
        0
    } else if is_wanted(rows[n - 1], stale_only) {
        listed_count(rows, stale_only, n - 1) + 1
    } else {
        listed_count(rows, stale_only, n - 1)
    }
}

fn show_part(tag: &str, part: &Option<String>) -> (r: String)
    ensures
        r@ == part_line(tag@, part.deep_view()),
{
    match part {
        Some(t) => {
            let mut out = concat2("    <", tag);
            out.append(">");
            out.append(&xml_escape(t));
            out.append("</");
            out.append(tag);
            out.append(">\n");
            out
        },
        None => "".to_owned(),
    }
}

fn show_note(n: &NoteRow) -> (r: String)
    ensures
        r@ == note_lines(n@),
{
    let stale = !crate::text::str_eq(&n.annotated_hash, &n.content_hash);
    let mut out = concat2("  <annotation id=\"", &i64_text(n.id));
    out.append("\" name=\"");
    out.append(&xml_escape(&n.name));
    out.append("\" kind=\"");
    out.append(&xml_escape(&n.kind));
    out.append("\" file=\"");
    out.append(&xml_escape(&n.file));
    out.append("\" source=\"");
    out.append(&xml_escape(&n.source));
    out.append("\" confidence=\"");
    out.append(&n.confidence);
    out.append("\" stale=\"");
    out.append(&text_of_bool(stale));
    out.append("\">\n");
    out.append(&show_part("intent", &n.intent));
    out.append(&show_part("behavior", &n.behavior));
    out.append(&show_part("tags", &n.tags));
    out.append("  </annotation>\n");
    out
}

/// List notes, or only those whose symbols have changed since: the document, and how many
/// there are in it.
pub fn list_annotations(rows: &Vec<NoteRow>, stale_only: bool) -> (r: (String, usize))
    ensures
        r.0@ == listed(views(rows@), stale_only, rows@.len() as int) + "</annotations>\n"@,
        r.1 == listed_count(views(rows@), stale_only, rows@.len() as int),
{
    let mut out = "<annotations>\n".to_owned();
    let mut count: usize = 0;
    let mut n: usize = 0;
    while n < rows.len()
        invariant
            count <= n <= rows@.len(),
            out@ == listed(views(rows@), stale_only, n as int),
            count == listed_count(views(rows@), stale_only, n as int),
        decreases rows@.len() - n,
    {
        let row = &rows[n];
        assert(views(rows@)[n as int] == row@);
        if !stale_only || !crate::text::str_eq(&row.annotated_hash, &row.content_hash) {
            out.append(&show_note(row));
            count = count + 1;
        }
        n = n + 1;
    }
    out.append("</annotations>\n");
    (out, count)
}

/// What a change of a note gives replaces what the note said, and what it does not give stays.
/// The source and the hash are always those of the change.
pub proof fn changes_replace_what_they_give(before: NoteView, change: NoteView)
    ensures
        ({
            let m = merged(Some(before), change);
            &&& change.intent is Some ==> m.intent == change.intent
            &&& change.intent is None ==> m.intent == before.intent
            &&& change.behavior is Some ==> m.behavior == change.behavior
            &&& change.behavior is None ==> m.behavior == before.behavior
            &&& change.tags is Some ==> m.tags == change.tags
            &&& change.tags is None ==> m.tags == before.tags
            &&& m.source == change.source
            &&& m.content_hash == change.content_hash
        }),
        merged(None, change) == change,
{
}

/// A note is stale exactly where its symbol's text has another hash than when it was made.
pub proof fn changed_symbols_make_notes_stale(n: NoteRowView)
    ensures
        is_stale(n) <==> n.annotated_hash != n.content_hash,
        is_wanted(n, false),
        is_wanted(n, true) <==> n.annotated_hash != n.content_hash,
{
}

/// A list of notes holds the notes that are wanted, and counts them.
pub proof fn wanted_notes_are_listed(rows: Seq<NoteRowView>, stale_only: bool, n: int)
    requires
        0 < n <= rows.len(),
    ensures
        ({
            let wanted = !stale_only || rows[n - 1].annotated_hash != rows[n - 1].content_hash;
            &&& wanted ==> listed(rows, stale_only, n) == listed(rows, stale_only, n - 1)
                + note_lines(rows[n - 1]) && listed_count(rows, stale_only, n) == listed_count(
                rows,
                stale_only,
                n - 1,
            ) + 1
            &&& !wanted ==> listed(rows, stale_only, n) == listed(rows, stale_only, n - 1)
                && listed_count(rows, stale_only, n) == listed_count(rows, stale_only, n - 1)
        }),
{
}

/// The line of a note says whether it is stale, and what it is on.
pub proof fn notes_say_whether_they_are_stale(n: NoteRowView)
    ensures
        has_str(
            note_lines(n),
            "\" stale=\""@ + (if n.annotated_hash != n.content_hash {
                "true"@
            } else {
                "false"@
            }) + "\">\n"@,
        ),
        begins_with(
            note_lines(n),
            "  <annotation id=\""@ + int_text(n.id as int) + "\" name=\""@ + escaped(n.name),
        ),
{
    let a = "  <annotation id=\""@ + int_text(n.id as int) + "\" name=\""@ + escaped(n.name);
    let head = a + "\" kind=\""@ + escaped(n.kind) + "\" file=\""@ + escaped(n.file)
        + "\" source=\""@ + escaped(n.source) + "\" confidence=\""@ + n.confidence;
    let mark = "\" stale=\""@ + bool_text(is_stale(n)) + "\">\n"@;
    let tail = part_line("intent"@, n.intent) + part_line("behavior"@, n.behavior) + part_line(
        "tags"@,
        n.tags,
    ) + "  </annotation>\n"@;
    let all = note_lines(n);
    assert(all =~= head + mark + tail);
    assert(all.subrange(head.len() as int, (head.len() + mark.len()) as int) =~= mark);
    assert(crate::text::occurs_at(all, mark, head.len() as int));
    assert(all.take(a.len() as int) =~= a);
}

} // verus!
