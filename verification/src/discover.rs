//! Indexing: which files are read, which have changed, and what is stored of a workspace.

use vstd::prelude::*;

use crate::annotate::{is_stale, NoteRowView};
use crate::config::{Config, ConfigView};
use crate::model::{list_has, views, Dup};
use crate::text::{
    begins_with, concat2, fnv1a, fnv1a_bytes, hex, hex_text, join, joined, line_seq, lines,
    starts_with, str_eq, trim_start_matches, trimmed_of,
};
use crate::workspace::{WorkspaceGraph, WorkspaceGraphView};

verus! {

broadcast use crate::model::group_views;

/// A directory of this name holds nothing to index.
pub open spec fn always_ignored(name: Seq<char>) -> bool {
    name == "node_modules"@ || name == "target"@ || name == "build"@ || name == "dist"@ || name
        == ".svelte-kit"@ || name == ".git"@ || name == ".cache"@ || name
        == ".next"@ || name == ".nuxt"@ || name == "__pycache__"@
}

/// An entry of a directory is passed over: it is a directory whose name is one of those that
/// always are, or one of `extra`.
pub fn is_ignored_with_extra(name: &str, is_dir: bool, extra: &Vec<String>) -> (r: bool)
    ensures
        r == (is_dir && (always_ignored(name@) || views(extra@).contains(name@))),
{
    if !is_dir {
        return false;
    }
    str_eq(name, "node_modules") || str_eq(name, "target") || str_eq(name, "build") || str_eq(
        name,
        "dist",
    ) || str_eq(name, ".svelte-kit") || str_eq(name, ".git") || str_eq(
        name,
        ".cache",
    ) || str_eq(name, ".next") || str_eq(name, ".nuxt") || str_eq(name, "__pycache__") || list_has(
        extra,
        name,
    )
}

/// The hash of a file's bytes; empty where it could not be read.
pub fn compute_file_hash(bytes: &Option<Vec<u8>>) -> (r: String)
    ensures
        r@ == match bytes {
            Some(b) => hex(fnv1a(b@) as nat, 16),
            None => Seq::<char>::empty(),
        },
{
    match bytes {
        Some(b) => hex_text(fnv1a_bytes(b), 16),
        None => String::new(),
    }
}

/// A source file: its path, the hash that is stored of it, if one is, and its present hash.
#[derive(Debug)]
pub struct FileState {
    pub path: String,
    pub stored: Option<String>,
    pub hash: String,
}

/// What a [`FileState`] holds.
#[verifier::ext_equal]
pub struct FileStateView {
    pub path: Seq<char>,
    pub stored: Option<Seq<char>>,
    pub hash: Seq<char>,
}

impl DeepView for FileState {
    type V = FileStateView;

    open spec fn deep_view(&self) -> FileStateView {
        FileStateView {
            path: self.path.deep_view(),
            stored: self.stored.deep_view(),
            hash: self.hash.deep_view(),
        }
    }
}

impl View for FileState {
    type V = FileStateView;

    open spec fn view(&self) -> FileStateView {
        self.deep_view()
    }
}

/// Those of the first `n` files whose stored hash is not the present one.
pub open spec fn changed_among(files: Seq<FileStateView>, n: int) -> Seq<Seq<char>>
    decreases n,
{
    if n <= 0 {
        Seq::empty()
    } else if files[n - 1].stored == Some(files[n - 1].hash) {
        changed_among(files, n - 1)
    } else {
        changed_among(files, n - 1).push(files[n - 1].path)
    }
}

/// The files that need to be indexed again.
pub fn changed_files(files: &Vec<FileState>) -> (r: Vec<String>)
    ensures
        views(r@) == changed_among(views(files@), files@.len() as int),
{
    let mut out: Vec<String> = Vec::new();
    let mut n: usize = 0;
    while n < files.len()
        invariant
            n <= files@.len(),
            views(out@) == changed_among(views(files@), n as int),
        decreases files@.len() - n,
    {
        let f = &files[n];
        assert(views(files@)[n as int] == f@);
        let same = match &f.stored {
            Some(h) => str_eq(h, &f.hash),
            None => false,
        };
        if !same {
            out.push(f.path.dup());
        }
        n = n + 1;
    }
    out
}

/// Only files whose hash has changed are indexed again, and all of those.
pub proof fn only_changed_files_are_indexed(files: Seq<FileStateView>, n: int, path: Seq<char>)
    requires
        0 <= n <= files.len(),
    ensures
        changed_among(files, n).contains(path) == (exists|i: int|
            0 <= i < n && (#[trigger] files[i]).path == path && files[i].stored != Some(
                files[i].hash,
            )),
    decreases n,
{
    if n > 0 {
        only_changed_files_are_indexed(files, n - 1, path);
        let rest = changed_among(files, n - 1);
        let f = files[n - 1];
        if f.stored != Some(f.hash) {
            let all = rest.push(f.path);
            if rest.contains(path) {
                let i = choose|i: int| 0 <= i < rest.len() && rest[i] == path;
                assert(all[i] == path);
            }
            if f.path == path {
                assert(all[rest.len() as int] == path);
            }
            if all.contains(path) && f.path != path {
                let i = choose|i: int| 0 <= i < all.len() && all[i] == path;
                assert(rest[i] == path);
            }
        }
    }
}

/// Once every file's present hash is stored, indexing again has nothing to do.
pub proof fn indexing_settles(files: Seq<FileStateView>, n: int)
    requires
        0 <= n <= files.len(),
        forall|i: int| 0 <= i < n ==> (#[trigger] files[i]).stored == Some(files[i].hash),
    ensures
        changed_among(files, n).len() == 0,
    decreases n,
{
    if n > 0 {
        indexing_settles(files, n - 1);
    }
}

// ---------------------------------------------------------------------------
// Layers still to be assigned
// ---------------------------------------------------------------------------

/// The crates among the first `n` whose layer is still to be assigned.
pub open spec fn unassigned_among(layers: Seq<(Seq<char>, Seq<char>)>, n: int) -> Seq<Seq<char>>
    decreases n,
{
    if n <= 0 {
        Seq::empty()
    } else if layers[n - 1].1 == "?"@ {
        unassigned_among(layers, n - 1).push(layers[n - 1].0)
    } else {
        unassigned_among(layers, n - 1)
    }
}

/// The crates whose layer is still to be assigned, in the order of their names.
pub open spec fn unassigned_in(config: ConfigView) -> Seq<Seq<char>> {
    match config.workspace {
        Some(ws) => unassigned_among(ws.layers, ws.layers.len() as int),
        None => Seq::empty(),
    }
}

/// The message on crates whose layer is still to be assigned.
pub open spec fn unassigned_message(names: Seq<Seq<char>>) -> Seq<char> {
    "workspace layers not assigned in .graphlite/config.toml: "@ + joined(names, ", "@)
        + "\nEdit [workspace.layers] and set each to one of: shared | domain | port | application | infra | adapter | composition\nThen re-run: graphlite discover ."@
}

/// The crates whose layer is still to be assigned.
pub fn unassigned(config: &Config) -> (r: Vec<String>)
    ensures
        views(r@) == unassigned_in(config@),
{
    let mut out: Vec<String> = Vec::new();
    if let Some(ws) = &config.workspace {
        let total: usize = ws.layers.len();
        let mut n: usize = 0;
        while n < total
            invariant
                n <= total,
                total == ws.layers@.len(),
                views(out@) == unassigned_among(ws.layers@, n as int),
            decreases total - n,
        {
            if str_eq(ws.layers.layer(n), "?") {
                out.push(ws.layers.name(n).dup());
            }
            n = n + 1;
        }
    }
    out
}

/// Refuses to index while the layer of some crate is still to be assigned.
pub fn check_layers(config: &Config) -> (r: Result<(), String>)
    ensures
        match r {
            Ok(()) => unassigned_in(config@).len() == 0,
            Err(m) => unassigned_in(config@).len() > 0 && m@ == unassigned_message(
                unassigned_in(config@),
            ),
        },
{
    let names = unassigned(config);
    assert(views(names@).len() == names@.len());
    if names.len() == 0 {
        return Ok(());
    }
    let mut out = concat2(
        "workspace layers not assigned in .graphlite/config.toml: ",
        &join(&names, ", "),
    );
    out.append(
        "\nEdit [workspace.layers] and set each to one of: shared | domain | port | application | infra | adapter | composition\nThen re-run: graphlite discover .",
    );
    Err(out)
}

// ---------------------------------------------------------------------------
// The steps of indexing
// ---------------------------------------------------------------------------

/// A step of indexing.
#[derive(Clone, Copy, PartialEq, Eq, Structural, Debug)]
pub enum Step {
    /// Keep the notes on symbols of the changed files.
    SaveNotes,
    /// Forget the symbols and edges of the changed files.
    Forget,
    /// Read the changed files and store their symbols.
    StoreSymbols,
    /// Put the notes back.
    RestoreNotes,
    /// Store the present hashes of the changed files.
    StoreHashes,
    /// Store the workspace's crates and their dependencies.
    SyncWorkspace,
    /// Add what rustdoc says.
    Rustdoc,
    /// Resolve calls.
    Resolve,
    /// Add what Clippy says.
    Clippy,
    /// Add what `cargo audit` says.
    Audit,
    /// Infer the roles of symbols.
    Roles,
}

/// The steps of indexing, in their order. Without a changed file the workspace and the
/// findings of other tools are brought up to date, and nothing else.
pub open spec fn steps_for(any_changed: bool) -> Seq<Step> {
    if any_changed {
        Seq::<Step>::empty().push(Step::SaveNotes).push(Step::Forget).push(Step::StoreSymbols).push(
            Step::RestoreNotes,
        ).push(Step::StoreHashes).push(Step::SyncWorkspace).push(Step::Rustdoc).push(
            Step::Resolve,
        ).push(Step::Clippy).push(Step::Audit).push(Step::Roles)
    } else {
        Seq::<Step>::empty().push(Step::SyncWorkspace).push(Step::Clippy).push(Step::Audit)
    }
}

/// The steps of indexing, in their order.
pub fn steps(any_changed: bool) -> (r: Vec<Step>)
    ensures
        r@ == steps_for(any_changed),
{
    let mut out: Vec<Step> = Vec::new();
    if any_changed {
        out.push(Step::SaveNotes);
        out.push(Step::Forget);
        out.push(Step::StoreSymbols);
        out.push(Step::RestoreNotes);
        out.push(Step::StoreHashes);
    }
    out.push(Step::SyncWorkspace);
    if any_changed {
        out.push(Step::Rustdoc);
        out.push(Step::Resolve);
    }
    out.push(Step::Clippy);
    out.push(Step::Audit);
    if any_changed {
        out.push(Step::Roles);
    }
    out
}

// ---------------------------------------------------------------------------
// The workspace's crates
// ---------------------------------------------------------------------------

/// The lines from `i` on that are part of a leading `//!` block, without the marks.
pub open spec fn leading_docs(all: Seq<Seq<char>>, i: int) -> Seq<Seq<char>>
    decreases all.len() - i,
{
    if i < 0 || i >= all.len() || !begins_with(all[i], "//!"@) {
        Seq::empty()
    } else {
        Seq::<Seq<char>>::empty().push(trimmed_of(trimmed_of(all[i], "//!"@), " "@)) + leading_docs(
            all,
            i + 1,
        )
    }
}

/// The leading `//!` block of a crate's entry file, if it has one.
pub open spec fn crate_doc(content: Seq<char>) -> Option<Seq<char>> {
    let docs = leading_docs(line_seq(content), 0);
    if docs.len() == 0 {
        None
    } else {
        Some(joined(docs, "\n"@))
    }
}

/// The leading `//!` block of a crate's entry file, if it has one.
pub fn extract_crate_doc(content: &str) -> (r: Option<String>)
    ensures
        r.deep_view() == crate_doc(content@),
{
    proof {
        reveal_strlit("//!");
        reveal_strlit(" ");
    }
    let all = lines(content);
    let ghost av = line_seq(content@);
    let mut docs: Vec<String> = Vec::new();
    let mut i: usize = 0;
    assert(views(docs@) + leading_docs(av, 0) =~= leading_docs(av, 0));
    while i < all.len() && starts_with(&all[i], "//!")
        invariant
            "//!"@.len() > 0,
            " "@.len() > 0,
            av == views(all@),
            i <= all@.len(),
            views(docs@) + leading_docs(av, i as int) == leading_docs(av, 0),
        decreases all@.len() - i,
    {
        assert(av[i as int] == all@[i as int]@);
        let ghost had = views(docs@);
        let bare = trim_start_matches(&all[i], "//!");
        let text = trim_start_matches(&bare, " ");
        docs.push(text);
        i = i + 1;
        assert(views(docs@) + leading_docs(av, i as int) =~= had + leading_docs(av, i - 1));
    }
    assert(i < all@.len() ==> av[i as int] == all@[i as int]@);
    assert(views(docs@) + leading_docs(av, i as int) =~= views(docs@));
    assert(views(docs@).len() == docs@.len());
    if docs.len() == 0 {
        None
    } else {
        Some(join(&docs, "\n"))
    }
}

/// A crate of the workspace as a symbol of the code graph.
#[derive(Debug)]
pub struct CrateNode {
    pub file: String,
    pub name: String,
    pub signature: String,
    pub stable_id: String,
    pub doc: Option<String>,
}

/// What a [`CrateNode`] holds.
#[verifier::ext_equal]
pub struct CrateNodeView {
    pub file: Seq<char>,
    pub name: Seq<char>,
    pub signature: Seq<char>,
    pub stable_id: Seq<char>,
    pub doc: Option<Seq<char>>,
}

impl DeepView for CrateNode {
    type V = CrateNodeView;

    open spec fn deep_view(&self) -> CrateNodeView {
        CrateNodeView {
            file: self.file.deep_view(),
            name: self.name.deep_view(),
            signature: self.signature.deep_view(),
            stable_id: self.stable_id.deep_view(),
            doc: self.doc.deep_view(),
        }
    }
}

impl View for CrateNode {
    type V = CrateNodeView;

    open spec fn view(&self) -> CrateNodeView {
        self.deep_view()
    }
}

/// The path in the form of the code graph.
pub open spec fn dotted(file: Seq<char>) -> Seq<char> {
    if begins_with(file, "./"@) {
        file
    } else {
        "./"@ + file
    }
}

/// The first `n` crates of a workspace as symbols, with what their entry files say of them.
pub open spec fn crate_nodes_in(
    ws: WorkspaceGraphView,
    docs: Seq<Option<Seq<char>>>,
    n: int,
) -> Seq<CrateNodeView>
    decreases n,
{
    if n <= 0 {
        Seq::empty()
    } else {
        let m = ws.members[n - 1];
        crate_nodes_in(ws, docs, n - 1).push(
            CrateNodeView {
                file: dotted(m.entry_file),
                name: m.name,
                signature: "crate "@ + m.name,
                stable_id: "crate::"@ + m.name,
                doc: if n - 1 < docs.len() {
                    docs[n - 1]
                } else {
                    None
                },
            },
        )
    }
}

/// The crates of a workspace as symbols; `docs` holds what their entry files say of them, in
/// the order of the members.
pub fn crate_nodes(ws: &WorkspaceGraph, docs: &Vec<Option<String>>) -> (r: Vec<CrateNode>)
    ensures
        views(r@) == crate_nodes_in(ws@, views(docs@), ws@.members.len() as int),
{
    let mut out: Vec<CrateNode> = Vec::new();
    let mut n: usize = 0;
    while n < ws.members.len()
        invariant
            n <= ws.members@.len(),
            views(out@) == crate_nodes_in(ws@, views(docs@), n as int),
        decreases ws.members@.len() - n,
    {
        let m = &ws.members[n];
        assert(ws@.members[n as int] == m@);
        let file = if starts_with(&m.entry_file, "./") {
            m.entry_file.dup()
        } else {
            concat2("./", &m.entry_file)
        };
        assert(n < docs@.len() ==> views(docs@)[n as int] == docs@[n as int].deep_view());
        let doc = if n < docs.len() {
            docs[n].dup()
        } else {
            None
        };
        let node = CrateNode {
            file,
            name: m.name.dup(),
            signature: concat2("crate ", &m.name),
            stable_id: concat2("crate::", &m.name),
            doc,
        };
        out.push(node);
        n = n + 1;
    }
    out
}

/// The id that the last of the first `n` entries with the name has.
pub open spec fn id_named(ids: Seq<(Seq<char>, i64)>, name: Seq<char>, n: int) -> Option<i64>
    decreases n,
{
    if n <= 0 {
        None
    } else if ids[n - 1].0 == name {
        Some(ids[n - 1].1)
    } else {
        id_named(ids, name, n - 1)
    }
}

/// The first `n` dependencies between crates, as edges between their symbols.
pub open spec fn crate_edges_in(
    deps: Seq<(Seq<char>, Seq<char>)>,
    ids: Seq<(Seq<char>, i64)>,
    n: int,
) -> Seq<(i64, i64)>
    decreases n,
{
    if n <= 0 {
        Seq::empty()
    } else {
        let rest = crate_edges_in(deps, ids, n - 1);
        match (
            id_named(ids, deps[n - 1].0, ids.len() as int),
            id_named(ids, deps[n - 1].1, ids.len() as int),
        ) {
            (Some(from), Some(to)) => rest.push((from, to)),
            _ => rest,
        }
    }
}

fn find_id(ids: &Vec<(String, i64)>, name: &str) -> (r: Option<i64>)
    ensures
        r == id_named(views(ids@), name@, ids@.len() as int),
{
    let mut n: usize = ids.len();
    while n > 0
        invariant
            n <= ids@.len(),
            id_named(views(ids@), name@, ids@.len() as int) == id_named(
                views(ids@),
                name@,
                n as int,
            ),
        decreases n,
    {
        assert(views(ids@)[n - 1] == (ids@[n - 1].0@, ids@[n - 1].1));
        if str_eq(&ids[n - 1].0, name) {
            return Some(ids[n - 1].1);
        }
        n = n - 1;
    }
    None
}

/// The dependencies between crates, as edges between their symbols. Those of crates without a
/// symbol are left out.
pub fn crate_edges(ws: &WorkspaceGraph, ids: &Vec<(String, i64)>) -> (r: Vec<(i64, i64)>)
    ensures
        r@ == crate_edges_in(ws@.deps, views(ids@), ws@.deps.len() as int),
{
    let mut out: Vec<(i64, i64)> = Vec::new();
    let mut n: usize = 0;
    while n < ws.deps.len()
        invariant
            n <= ws.deps@.len(),
            out@ == crate_edges_in(ws@.deps, views(ids@), n as int),
        decreases ws.deps@.len() - n,
    {
        assert(ws@.deps[n as int] == (ws.deps@[n as int].0@, ws.deps@[n as int].1@));
        let from = find_id(ids, &ws.deps[n].0);
        let to = find_id(ids, &ws.deps[n].1);
        if let (Some(a), Some(b)) = (from, to) {
            out.push((a, b));
        }
        n = n + 1;
    }
    out
}

// ---------------------------------------------------------------------------
// Notes that outlive indexing
// ---------------------------------------------------------------------------

/// A kept note: the stable id of its symbol, and the hash that the symbol's text had when the
/// note was made.
#[derive(Debug)]
pub struct SavedNote {
    pub stable_id: String,
    pub content_hash: String,
}

/// What a [`SavedNote`] holds.
#[verifier::ext_equal]
pub struct SavedNoteView {
    pub stable_id: Seq<char>,
    pub content_hash: Seq<char>,
}

impl DeepView for SavedNote {
    type V = SavedNoteView;

    open spec fn deep_view(&self) -> SavedNoteView {
        SavedNoteView {
            stable_id: self.stable_id.deep_view(),
            content_hash: self.content_hash.deep_view(),
        }
    }
}

impl View for SavedNote {
    type V = SavedNoteView;

    open spec fn view(&self) -> SavedNoteView {
        self.deep_view()
    }
}

/// A note that is put back on a symbol: its position among the kept notes, and the hash that
/// the text of its symbol had when it was made.
#[derive(Debug)]
pub struct RestoredNote {
    pub node_id: i64,
    pub note: usize,
    pub content_hash: String,
}

/// What a [`RestoredNote`] holds.
#[verifier::ext_equal]
pub struct RestoredNoteView {
    pub node_id: i64,
    pub note: usize,
    pub content_hash: Seq<char>,
}

impl DeepView for RestoredNote {
    type V = RestoredNoteView;

    open spec fn deep_view(&self) -> RestoredNoteView {
        RestoredNoteView {
            node_id: self.node_id.deep_view(),
            note: self.note.deep_view(),
            content_hash: self.content_hash.deep_view(),
        }
    }
}

impl View for RestoredNote {
    type V = RestoredNoteView;

    open spec fn view(&self) -> RestoredNoteView {
        self.deep_view()
    }
}

/// `out` with a note put on each of the first `k` symbols that has the stable id and no note
/// yet.
pub open spec fn with_restored(
    out: Seq<(i64, usize)>,
    nodes: Seq<(i64, Seq<char>)>,
    noted: Seq<i64>,
    stable_id: Seq<char>,
    which: usize,
    k: int,
) -> Seq<(i64, usize)>
    decreases k,
{
    if k <= 0 {
        out
    } else {
        let rest = with_restored(out, nodes, noted, stable_id, which, k - 1);
        let id = nodes[k - 1].0;
        if nodes[k - 1].1 == stable_id && !noted.contains(id) && !has_note(rest, id) {
            rest.push((id, which))
        } else {
            rest
        }
    }
}

/// A note was put on the symbol.
pub open spec fn has_note(out: Seq<(i64, usize)>, id: i64) -> bool {
    exists|i: int| 0 <= i < out.len() && (#[trigger] out[i]).0 == id
}

/// The symbols that the first `n` kept notes are put on, each with the note's position.
pub open spec fn restored(
    saved: Seq<Seq<char>>,
    nodes: Seq<(i64, Seq<char>)>,
    noted: Seq<i64>,
    n: int,
) -> Seq<(i64, usize)>
    decreases n,
{
    if n <= 0 {
        Seq::empty()
    } else {
        with_restored(
            restored(saved, nodes, noted, n - 1),
            nodes,
            noted,
            saved[n - 1],
            (n - 1) as usize,
            nodes.len() as int,
        )
    }
}

fn check_note(out: &Vec<(i64, usize)>, id: i64) -> (r: bool)
    ensures
        r == has_note(out@, id),
{
    let mut i: usize = 0;
    while i < out.len()
        invariant
            i <= out@.len(),
            forall|k: int| 0 <= k < i ==> (#[trigger] out@[k]).0 != id,
        decreases out@.len() - i,
    {
        if out[i].0 == id {
            return true;
        }
        i = i + 1;
    }
    false
}

fn is_noted(noted: &Vec<i64>, id: i64) -> (r: bool)
    ensures
        r == noted@.contains(id),
{
    let mut i: usize = 0;
    while i < noted.len()
        invariant
            i <= noted@.len(),
            forall|k: int| 0 <= k < i ==> noted@[k] != id,
        decreases noted@.len() - i,
    {
        if noted[i] == id {
            return true;
        }
        i = i + 1;
    }
    false
}

fn place_notes(saved: &Vec<String>, nodes: &Vec<(i64, String)>, noted: &Vec<i64>) -> (r: Vec<
    (i64, usize),
>)
    ensures
        r@ == restored(views(saved@), views(nodes@), noted@, saved@.len() as int),
{
    let mut out: Vec<(i64, usize)> = Vec::new();
    let mut n: usize = 0;
    while n < saved.len()
        invariant
            n <= saved@.len(),
            out@ == restored(views(saved@), views(nodes@), noted@, n as int),
        decreases saved@.len() - n,
    {
        assert(views(saved@)[n as int] == saved@[n as int]@);
        let ghost start = out@;
        let mut k: usize = 0;
        while k < nodes.len()
            invariant
                n < saved@.len(),
                k <= nodes@.len(),
                out@ == with_restored(
                    start,
                    views(nodes@),
                    noted@,
                    saved@[n as int]@,
                    n,
                    k as int,
                ),
            decreases nodes@.len() - k,
        {
            assert(views(nodes@)[k as int] == (nodes@[k as int].0, nodes@[k as int].1@));
            let id: i64 = nodes[k].0;
            if str_eq(&nodes[k].1, &saved[n]) && !is_noted(noted, id) && !check_note(&out, id) {
                out.push((id, n));
            }
            k = k + 1;
        }
        n = n + 1;
    }
    out
}

proof fn notes_stay(
    out: Seq<(i64, usize)>,
    nodes: Seq<(i64, Seq<char>)>,
    noted: Seq<i64>,
    stable_id: Seq<char>,
    which: usize,
    k: int,
)
    requires
        0 <= k <= nodes.len(),
    ensures
        forall|id: i64|
            has_note(out, id) ==> #[trigger] has_note(
                with_restored(out, nodes, noted, stable_id, which, k),
                id,
            ),
        forall|j: int|
            0 <= j < k && (#[trigger] nodes[j]).1 == stable_id && !noted.contains(nodes[j].0)
                ==> has_note(with_restored(out, nodes, noted, stable_id, which, k), nodes[j].0),
    decreases k,
{
    if k > 0 {
        notes_stay(out, nodes, noted, stable_id, which, k - 1);
        let before = with_restored(out, nodes, noted, stable_id, which, k - 1);
        let after = with_restored(out, nodes, noted, stable_id, which, k);
        assert forall|id: i64| has_note(before, id) implies #[trigger] has_note(after, id) by {
            let i = choose|i: int| 0 <= i < before.len() && (#[trigger] before[i]).0 == id;
            assert(after[i] == before[i]);
        }
        if after.len() > before.len() {
            assert(after[after.len() - 1].0 == nodes[k - 1].0);
        }
    }
}

proof fn notes_are_placed(
    saved: Seq<Seq<char>>,
    nodes: Seq<(i64, Seq<char>)>,
    noted: Seq<i64>,
    n: int,
    s: int,
    j: int,
)
    requires
        0 <= s < n <= saved.len(),
        0 <= j < nodes.len(),
        nodes[j].1 == saved[s],
    ensures
        noted.contains(nodes[j].0) || has_note(restored(saved, nodes, noted, n), nodes[j].0),
    decreases n,
{
    notes_stay(
        restored(saved, nodes, noted, n - 1),
        nodes,
        noted,
        saved[n - 1],
        (n - 1) as usize,
        nodes.len() as int,
    );
    if s < n - 1 {
        notes_are_placed(saved, nodes, noted, n - 1, s, j);
    }
}

/// The stable ids of the symbols that notes were on.
pub open spec fn noted_ids(saved: Seq<SavedNoteView>) -> Seq<Seq<char>> {
    Seq::new(saved.len(), |i: int| saved[i].stable_id)
}

/// The kept notes as they are put back: each on the symbols with the stable id that its symbol
/// had, unless they have a note already, and with the hash that it was kept with.
pub open spec fn restored_notes(
    saved: Seq<SavedNoteView>,
    nodes: Seq<(i64, Seq<char>)>,
    noted: Seq<i64>,
) -> Seq<RestoredNoteView> {
    let placed = restored(noted_ids(saved), nodes, noted, saved.len() as int);
    Seq::new(
        placed.len(),
        |i: int|
            RestoredNoteView {
                node_id: placed[i].0,
                note: placed[i].1,
                content_hash: saved[placed[i].1 as int].content_hash,
            },
    )
}

proof fn placed_are_kept(
    saved: Seq<Seq<char>>,
    nodes: Seq<(i64, Seq<char>)>,
    noted: Seq<i64>,
    n: int,
)
    requires
        0 <= n <= saved.len() <= usize::MAX,
    ensures
        forall|i: int|
            0 <= i < restored(saved, nodes, noted, n).len() ==> (#[trigger] restored(
                saved,
                nodes,
                noted,
                n,
            )[i]).1 < n,
    decreases n,
{
    if n > 0 {
        placed_are_kept(saved, nodes, noted, n - 1);
        one_note_is_placed(
            restored(saved, nodes, noted, n - 1),
            nodes,
            noted,
            saved[n - 1],
            (n - 1) as usize,
            nodes.len() as int,
        );
    }
}

proof fn one_note_is_placed(
    out: Seq<(i64, usize)>,
    nodes: Seq<(i64, Seq<char>)>,
    noted: Seq<i64>,
    stable_id: Seq<char>,
    which: usize,
    k: int,
)
    requires
        0 <= k <= nodes.len(),
        forall|i: int| 0 <= i < out.len() ==> (#[trigger] out[i]).1 <= which,
    ensures
        forall|i: int|
            0 <= i < with_restored(out, nodes, noted, stable_id, which, k).len() ==> (
            #[trigger] with_restored(out, nodes, noted, stable_id, which, k)[i]).1 <= which,
    decreases k,
{
    if k > 0 {
        one_note_is_placed(out, nodes, noted, stable_id, which, k - 1);
        let rest = with_restored(out, nodes, noted, stable_id, which, k - 1);
        let all = with_restored(out, nodes, noted, stable_id, which, k);
        assert forall|i: int| 0 <= i < all.len() implies (#[trigger] all[i]).1 <= which by {
            if i < rest.len() {
                assert(all[i] == rest[i]);
            }
        }
    }
}

/// Put kept notes back on symbols after indexing: a note goes to the symbols with the stable
/// id that its symbol had, unless they have one already, and keeps the hash that it was made
/// on. `nodes` are the symbols with their stable ids, and `noted` the symbols that have a note.
pub fn restore_annotations(
    saved: &Vec<SavedNote>,
    nodes: &Vec<(i64, String)>,
    noted: &Vec<i64>,
) -> (r: Vec<RestoredNote>)
    ensures
        views(r@) == restored_notes(views(saved@), views(nodes@), noted@),
{
    let ghost sv = views(saved@);
    let mut ids: Vec<String> = Vec::new();
    let mut n: usize = 0;
    let count: usize = saved.len();
    while n < count
        invariant
            count == saved@.len(),
            sv == views(saved@),
            n <= count,
            views(ids@) =~= noted_ids(sv).take(n as int),
        decreases count - n,
    {
        assert(sv[n as int] == saved@[n as int]@);
        ids.push(saved[n].stable_id.dup());
        n = n + 1;
    }
    assert(noted_ids(sv).take(n as int) =~= noted_ids(sv));
    let placed = place_notes(&ids, nodes, noted);
    assert(views(ids@).len() == ids@.len());
    proof {
        placed_are_kept(noted_ids(sv), views(nodes@), noted@, sv.len() as int);
    }
    let mut out: Vec<RestoredNote> = Vec::new();
    let mut n: usize = 0;
    while n < placed.len()
        invariant
            sv == views(saved@),
            sv.len() == saved@.len(),
            n <= placed@.len(),
            placed@ == restored(noted_ids(sv), views(nodes@), noted@, sv.len() as int),
            forall|i: int| 0 <= i < placed@.len() ==> (#[trigger] placed@[i]).1 < saved@.len(),
            views(out@) =~= restored_notes(sv, views(nodes@), noted@).take(n as int),
        decreases placed@.len() - n,
    {
        let (node_id, note): (i64, usize) = placed[n];
        assert(sv[note as int] == saved@[note as int]@);
        out.push(RestoredNote { node_id, note, content_hash: saved[note].content_hash.dup() });
        n = n + 1;
    }
    assert(restored_notes(sv, views(nodes@), noted@).take(n as int) =~= restored_notes(
        sv,
        views(nodes@),
        noted@,
    ));
    out
}

/// Notes outlive indexing: every symbol whose stable id a kept note had ends up with a note.
pub proof fn notes_outlive_indexing(
    saved: Seq<SavedNoteView>,
    nodes: Seq<(i64, Seq<char>)>,
    noted: Seq<i64>,
    s: int,
    j: int,
)
    requires
        0 <= s < saved.len(),
        0 <= j < nodes.len(),
        nodes[j].1 == saved[s].stable_id,
    ensures
        noted.contains(nodes[j].0) || exists|i: int|
            0 <= i < restored_notes(saved, nodes, noted).len() && (#[trigger] restored_notes(
                saved,
                nodes,
                noted,
            )[i]).node_id == nodes[j].0,
{
    let n = saved.len() as int;
    notes_are_placed(noted_ids(saved), nodes, noted, n, s, j);
    let placed = restored(noted_ids(saved), nodes, noted, n);
    if !noted.contains(nodes[j].0) {
        let i = choose|i: int| 0 <= i < placed.len() && (#[trigger] placed[i]).0 == nodes[j].0;
        assert(restored_notes(saved, nodes, noted)[i].node_id == nodes[j].0);
    }
}

/// A note that was put back counts as stale exactly where the text of its symbol is not the
/// one that the note was made on.
pub proof fn restored_notes_stay_stale(
    saved: Seq<SavedNoteView>,
    nodes: Seq<(i64, Seq<char>)>,
    noted: Seq<i64>,
    i: int,
    row: NoteRowView,
)
    requires
        saved.len() <= usize::MAX,
        0 <= i < restored_notes(saved, nodes, noted).len(),
        row.annotated_hash == restored_notes(saved, nodes, noted)[i].content_hash,
    ensures
        ({
            let note = restored_notes(saved, nodes, noted)[i].note;
            &&& note < saved.len()
            &&& is_stale(row) <==> saved[note as int].content_hash != row.content_hash
        }),
{
    placed_are_kept(noted_ids(saved), nodes, noted, saved.len() as int);
    let placed = restored(noted_ids(saved), nodes, noted, saved.len() as int);
    assert(placed[i].1 < saved.len());
}

// ---------------------------------------------------------------------------
// What indexing does
// ---------------------------------------------------------------------------

/// Directories of dependencies, of build products and of tools are never indexed; no other
/// directory is passed over unasked.
pub proof fn tool_directories_are_passed_over(name: Seq<char>)
    ensures
        always_ignored(name) <==> name == "node_modules"@ || name == "target"@ || name == "build"@
            || name == "dist"@ || name == ".svelte-kit"@ || name == ".git"@ || name == ".cache"@
            || name == ".next"@ || name == ".nuxt"@ || name == "__pycache__"@,
{
}

/// The files that have changed are those whose hash is not the stored one, in order.
pub proof fn changed_files_are_those_with_other_hashes(files: Seq<FileStateView>, n: int)
    requires
        0 <= n <= files.len(),
    ensures
        changed_among(files, n) == files.take(n).filter(
            |f: FileStateView| f.stored is None || f.stored->0 != f.hash,
        ).map_values(|f: FileStateView| f.path),
    decreases n,
{
    reveal(Seq::filter);
    let kept = files.take(n).filter(|f: FileStateView| f.stored is None || f.stored->0 != f.hash);
    let path = |f: FileStateView| f.path;
    if n > 0 {
        changed_files_are_those_with_other_hashes(files, n - 1);
        assert(files.take(n).drop_last() =~= files.take(n - 1));
        assert(files.take(n).last() == files[n - 1]);
        let before = files.take(n - 1).filter(
            |f: FileStateView| f.stored is None || f.stored->0 != f.hash,
        );
        if files[n - 1].stored is None || files[n - 1].stored->0 != files[n - 1].hash {
            assert(kept.map_values(path) =~= before.map_values(path).push(files[n - 1].path));
        } else {
            assert(kept =~= before);
        }
    } else {
        assert(kept.map_values(path) =~= Seq::<Seq<char>>::empty());
    }
}

/// The crates without a layer are those that the configuration gives `?`, in order.
pub proof fn open_layers_are_found(layers: Seq<(Seq<char>, Seq<char>)>, n: int, name: Seq<char>)
    requires
        0 <= n <= layers.len(),
    ensures
        unassigned_among(layers, n).contains(name) <==> exists|i: int|
            0 <= i < n && (#[trigger] layers[i]).0 == name && layers[i].1 == "?"@,
    decreases n,
{
    if n > 0 {
        open_layers_are_found(layers, n - 1, name);
        let rest = unassigned_among(layers, n - 1);
        let all = unassigned_among(layers, n);
        if rest.contains(name) {
            let j = choose|j: int| 0 <= j < rest.len() && rest[j] == name;
            assert(all[j] == name);
        }
        if layers[n - 1].0 == name && layers[n - 1].1 == "?"@ {
            assert(all[rest.len() as int] == name);
        }
        if all.contains(name) && !rest.contains(name) {
            let j = choose|j: int| 0 <= j < all.len() && all[j] == name;
            if j < rest.len() {
                assert(rest[j] == name);
            }
            assert(layers[n - 1].0 == name);
        }
    }
}

/// Indexing saves notes before it forgets symbols and puts them back once they are stored
/// again; it marks files as indexed only then; it resolves calls and infers roles from what was
/// stored. Where nothing has changed, symbols are left alone.
pub proof fn steps_stand_in_order(i: int)
    requires
        0 <= i < steps_for(false).len(),
    ensures
        ({
            let s = steps_for(true);
            &&& s.len() == 11
            &&& s[0] == Step::SaveNotes && s[1] == Step::Forget && s[2] == Step::StoreSymbols
                && s[3] == Step::RestoreNotes && s[4] == Step::StoreHashes
            &&& s[5] == Step::SyncWorkspace && s[6] == Step::Rustdoc && s[7] == Step::Resolve
                && s[8] == Step::Clippy && s[9] == Step::Audit && s[10] == Step::Roles
        }),
        steps_for(false)[i] == Step::SyncWorkspace || steps_for(false)[i] == Step::Clippy
            || steps_for(false)[i] == Step::Audit,
        steps_for(false).contains(Step::SyncWorkspace) && steps_for(false).contains(Step::Clippy)
            && steps_for(false).contains(Step::Audit),
{
    let s = steps_for(false);
    assert(s[0] == Step::SyncWorkspace && s[1] == Step::Clippy && s[2] == Step::Audit);
}

/// Every crate of the workspace becomes a symbol that tells its name, its root file and its
/// doc.
pub proof fn crates_become_symbols(
    ws: WorkspaceGraphView,
    docs: Seq<Option<Seq<char>>>,
    n: int,
    i: int,
)
    requires
        0 <= n <= ws.members.len(),
    ensures
        crate_nodes_in(ws, docs, n).len() == n,
        0 <= i < n ==> ({
            let c = crate_nodes_in(ws, docs, n)[i];
            let m = ws.members[i];
            &&& c.name == m.name
            &&& c.signature == "crate "@ + m.name
            &&& c.stable_id == "crate::"@ + m.name
            &&& c.file == (if begins_with(m.entry_file, "./"@) {
                m.entry_file
            } else {
                "./"@ + m.entry_file
            })
            &&& i < docs.len() ==> c.doc == docs[i]
            &&& i >= docs.len() ==> c.doc is None
        }),
    decreases n,
{
    if n > 0 {
        crates_become_symbols(ws, docs, n - 1, i);
    }
}

proof fn named_ids_are_found(ids: Seq<(Seq<char>, i64)>, name: Seq<char>, n: int)
    requires
        0 <= n <= ids.len(),
    ensures
        match id_named(ids, name, n) {
            Some(id) => exists|k: int|
                0 <= k < n && (#[trigger] ids[k]).0 == name && ids[k].1 == id,
            None => forall|k: int| 0 <= k < n ==> (#[trigger] ids[k]).0 != name,
        },
    decreases n,
{
    if n > 0 {
        named_ids_are_found(ids, name, n - 1);
        if ids[n - 1].0 == name {
            assert(ids[n - 1].1 == ids[n - 1].1);
        }
    }
}

/// A dependency between two crates that are symbols becomes an edge from the depending one to
/// the other.
pub proof fn dependencies_become_edges(
    deps: Seq<(Seq<char>, Seq<char>)>,
    ids: Seq<(Seq<char>, i64)>,
    n: int,
    i: int,
    a: int,
    b: int,
)
    requires
        0 <= i < n <= deps.len(),
        0 <= a < ids.len(),
        0 <= b < ids.len(),
        ids[a].0 == deps[i].0,
        ids[b].0 == deps[i].1,
        forall|k: int| 0 <= k < ids.len() && k != a ==> (#[trigger] ids[k]).0 != deps[i].0,
        forall|k: int| 0 <= k < ids.len() && k != b ==> (#[trigger] ids[k]).0 != deps[i].1,
    ensures
        crate_edges_in(deps, ids, n).contains((ids[a].1, ids[b].1)),
    decreases n,
{
    let rest = crate_edges_in(deps, ids, n - 1);
    let all = crate_edges_in(deps, ids, n);
    let e = (ids[a].1, ids[b].1);
    if i < n - 1 {
        dependencies_become_edges(deps, ids, n - 1, i, a, b);
        let j = choose|j: int| 0 <= j < rest.len() && rest[j] == e;
        assert(all[j] == e);
    } else {
        named_ids_are_found(ids, deps[i].0, ids.len() as int);
        named_ids_are_found(ids, deps[i].1, ids.len() as int);
        assert(all[rest.len() as int] == e);
    }
}

/// Every edge between crates is a dependency between them.
pub proof fn crate_edges_are_dependencies(
    deps: Seq<(Seq<char>, Seq<char>)>,
    ids: Seq<(Seq<char>, i64)>,
    n: int,
    e: (i64, i64),
)
    requires
        0 <= n <= deps.len(),
        crate_edges_in(deps, ids, n).contains(e),
    ensures
        exists|i: int, a: int, b: int|
            0 <= i < n && 0 <= a < ids.len() && 0 <= b < ids.len() && (#[trigger] ids[a]).0 == (
            #[trigger] deps[i]).0 && (#[trigger] ids[b]).0 == deps[i].1 && ids[a].1 == e.0
                && ids[b].1 == e.1,
    decreases n,
{
    if n > 0 {
        let rest = crate_edges_in(deps, ids, n - 1);
        let all = crate_edges_in(deps, ids, n);
        let j = choose|j: int| 0 <= j < all.len() && all[j] == e;
        if j < rest.len() {
            assert(rest[j] == e);
            crate_edges_are_dependencies(deps, ids, n - 1, e);
        } else {
            named_ids_are_found(ids, deps[n - 1].0, ids.len() as int);
            named_ids_are_found(ids, deps[n - 1].1, ids.len() as int);
            let a = choose|a: int|
                0 <= a < ids.len() && (#[trigger] ids[a]).0 == deps[n - 1].0 && ids[a].1 == e.0;
            let b = choose|b: int|
                0 <= b < ids.len() && (#[trigger] ids[b]).0 == deps[n - 1].1 && ids[b].1 == e.1;
            assert(ids[a].0 == deps[n - 1].0 && ids[b].0 == deps[n - 1].1);
        }
    }
}

/// The doc of a crate is made of the `//!` lines that its root file starts with, and of no line
/// behind another one.
pub proof fn crate_docs_start_the_file(all: Seq<Seq<char>>, i: int)
    requires
        0 <= i <= all.len(),
    ensures
        i < all.len() && begins_with(all[i], "//!"@) ==> leading_docs(all, i).len() == 1
            + leading_docs(all, i + 1).len() && leading_docs(all, i)[0] == trimmed_of(
            trimmed_of(all[i], "//!"@),
            " "@,
        ) && leading_docs(all, i).skip(1) == leading_docs(all, i + 1),
        i == all.len() || !begins_with(all[i], "//!"@) ==> leading_docs(all, i).len() == 0,
{
    if i < all.len() && begins_with(all[i], "//!"@) {
        assert(leading_docs(all, i).skip(1) =~= leading_docs(all, i + 1));
    }
}

proof fn placed_fit(
    out: Seq<(i64, usize)>,
    nodes: Seq<(i64, Seq<char>)>,
    noted: Seq<i64>,
    stable_id: Seq<char>,
    which: usize,
    k: int,
    p: (i64, usize),
)
    requires
        0 <= k <= nodes.len(),
        with_restored(out, nodes, noted, stable_id, which, k).contains(p),
    ensures
        out.contains(p) || (p.1 == which && !noted.contains(p.0) && exists|j: int|
            0 <= j < k && (#[trigger] nodes[j]).0 == p.0 && nodes[j].1 == stable_id),
    decreases k,
{
    if k > 0 {
        let rest = with_restored(out, nodes, noted, stable_id, which, k - 1);
        let all = with_restored(out, nodes, noted, stable_id, which, k);
        let i = choose|i: int| 0 <= i < all.len() && all[i] == p;
        if i < rest.len() {
            assert(rest[i] == p);
            placed_fit(out, nodes, noted, stable_id, which, k - 1, p);
        } else {
            assert(nodes[k - 1].0 == p.0);
        }
    }
}

proof fn restored_fit(
    saved: Seq<Seq<char>>,
    nodes: Seq<(i64, Seq<char>)>,
    noted: Seq<i64>,
    n: int,
    p: (i64, usize),
)
    requires
        0 <= n <= saved.len(),
        saved.len() <= usize::MAX,
        restored(saved, nodes, noted, n).contains(p),
    ensures
        p.1 < n,
        !noted.contains(p.0),
        exists|j: int|
            0 <= j < nodes.len() && (#[trigger] nodes[j]).0 == p.0 && nodes[j].1
                == saved[p.1 as int],
    decreases n,
{
    if n > 0 {
        let out = restored(saved, nodes, noted, n - 1);
        placed_fit(
            out,
            nodes,
            noted,
            saved[n - 1],
            (n - 1) as usize,
            nodes.len() as int,
            p,
        );
        if out.contains(p) {
            restored_fit(saved, nodes, noted, n - 1, p);
        }
    }
}

/// A note goes back only to a symbol with the stable id that it was made on and without a note
/// of its own, with the hash that it was saved with.
pub proof fn notes_go_back_where_they_were(
    saved: Seq<SavedNoteView>,
    nodes: Seq<(i64, Seq<char>)>,
    noted: Seq<i64>,
    i: int,
)
    requires
        saved.len() <= usize::MAX,
        0 <= i < restored_notes(saved, nodes, noted).len(),
    ensures
        ({
            let r = restored_notes(saved, nodes, noted)[i];
            &&& r.note < saved.len()
            &&& r.content_hash == saved[r.note as int].content_hash
            &&& !noted.contains(r.node_id)
            &&& exists|j: int|
                0 <= j < nodes.len() && (#[trigger] nodes[j]).0 == r.node_id && nodes[j].1
                    == saved[r.note as int].stable_id
        }),
{
    let placed = restored(noted_ids(saved), nodes, noted, saved.len() as int);
    assert(placed.contains(placed[i]));
    restored_fit(noted_ids(saved), nodes, noted, saved.len() as int, placed[i]);
}

} // verus!
