//! What language servers add to a code graph: calls that they are sure of, and the return types
//! that signatures leave out.

use vstd::prelude::*;

use crate::json::{
    field_of, has_field, items_in, json_quoted, quote_text, text_in, u64_in, Json, JsonView,
};
use crate::lsp_client::{
    document_text, framed, name_place, notification_text, opened_text, place_of_name, position_text,
    rename_text, request_text, says_settled, show_document, show_notification, show_opened,
    show_position, show_rename, show_request, write_msg,
};
use crate::model::{dup_all, list_has, or_text, push_holds, views, Dup};
use crate::refactor::path_of_uri;
use crate::text::{
    begins_with, chars_of, concat2, concat3, dec, starts_with,
    str_eq, string_of, trim, trim_start, trim_start_matches, trimmed, trimmed_of, trimmed_start,
    u64_text,
};

verus! {

broadcast use crate::model::group_views;

// ---------------------------------------------------------------------------
// What is sent
// ---------------------------------------------------------------------------

/// What a TypeScript server is told of the hints that are wanted, as JSON.
pub const TYPESCRIPT_OPTIONS: &'static str =
    "{\"preferences\":{\"includeInlayEnumMemberValueHints\":true,\"includeInlayFunctionLikeReturnTypeHints\":true,\"includeInlayFunctionParameterTypeHints\":true,\"includeInlayParameterNameHints\":\"all\",\"includeInlayParameterNameHintsWhenArgumentMatchesName\":true,\"includeInlayPropertyDeclarationTypeHints\":true,\"includeInlayVariableTypeHints\":true,\"includeInlayVariableTypeHintsWhenTypeMatchesName\":false}}";

/// The type of an edge from a function to one that it calls.
pub const CALLS_TRUSTED: &'static str = "CALLS_TRUSTED";

/// The type of an edge from an implementation to its trait.
pub const TRAIT_IMPL: &'static str = "TRAIT_IMPL";

/// A place in a document, as JSON.
pub open spec fn place_text(uri: Seq<char>, line: u32, character: u32) -> Seq<char> {
    "{\"position\":"@ + position_text(line, character) + ",\"textDocument\":"@ + document_text(uri)
        + "}"@
}

/// What a server is told first, as JSON.
pub open spec fn start_text(pid: u32, root_uri: Seq<char>, options: Option<Seq<char>>) -> Seq<char> {
    "{\"capabilities\":{\"experimental\":{\"serverStatusNotification\":true},\"textDocument\":{\"callHierarchy\":{\"dynamicRegistration\":false},\"inlayHint\":{\"dynamicRegistration\":false}},\"workspace\":{\"workspaceEdit\":{\"documentChanges\":true}}},"@
        + (match options {
        Some(o) => "\"initializationOptions\":"@ + o + ","@,
        None => ""@,
    }) + "\"processId\":"@ + dec(pid as nat) + ",\"rootUri\":"@ + json_quoted(root_uri) + "}"@
}

/// What is asked for the hints on the first lines of a document, as JSON.
pub open spec fn hints_text(uri: Seq<char>, line_count: u32) -> Seq<char> {
    "{\"range\":{\"end\":"@ + position_text(line_count, 0) + ",\"start\":"@ + position_text(0, 0)
        + "},\"textDocument\":"@ + document_text(uri) + "}"@
}

fn show_place(uri: &str, line: u32, character: u32) -> (r: String)
    ensures
        r@ == place_text(uri@, line, character),
{
    let mut out = concat2("{\"position\":", &show_position(line, character));
    out.append(",\"textDocument\":");
    out.append(&show_document(uri));
    out.append("}");
    out
}

/// The side of a client that writes: the messages that it sends, framed, with requests numbered
/// one after the other.
pub struct LspClient {
    pub next_id: u64,
}

impl LspClient {
    /// A client that has sent nothing.
    pub fn spawn() -> (r: LspClient)
        ensures
            r.next_id == 1,
    {
        LspClient { next_id: 1 }
    }

    /// A request with the next number.
    pub fn send_request(&mut self, method: &str, params: &str) -> (r: (u64, String))
        requires
            old(self).next_id < u64::MAX,
        ensures
            final(self).next_id == old(self).next_id + 1,
            r.0 == old(self).next_id,
            r.1@ == framed(request_text(r.0 as nat, method@, params@)),
    {
        let id: u64 = self.next_id;
        self.next_id = id + 1;
        (id, write_msg(&show_request(id, method, params)))
    }

    /// A notification.
    pub fn send_notification(&self, method: &str, params: &str) -> (r: String)
        ensures
            r@ == framed(notification_text(method@, params@)),
    {
        write_msg(&show_notification(method, params))
    }

    /// Tells a server of a document.
    pub fn did_open(&self, uri: &str, language_id: &str, text: &str) -> (r: String)
        ensures
            r@ == framed(
                notification_text(
                    "textDocument/didOpen"@,
                    opened_text(uri@, language_id@, text@),
                ),
            ),
    {
        self.send_notification("textDocument/didOpen", &show_opened(uri, language_id, text))
    }

    /// Asks a server to get ready for a project.
    pub fn initialize(&mut self, pid: u32, root_uri: &str, options: &Option<String>) -> (r: (
        u64,
        String,
    ))
        requires
            old(self).next_id < u64::MAX,
        ensures
            final(self).next_id == old(self).next_id + 1,
            r.0 == old(self).next_id,
            r.1@ == framed(
                request_text(
                    r.0 as nat,
                    "initialize"@,
                    start_text(pid, root_uri@, options.deep_view()),
                ),
            ),
    {
        let extra = match options {
            Some(o) => concat3("\"initializationOptions\":", o, ","),
            None => "".to_owned(),
        };
        let mut params = concat3(
            "{\"capabilities\":{\"experimental\":{\"serverStatusNotification\":true},\"textDocument\":{\"callHierarchy\":{\"dynamicRegistration\":false},\"inlayHint\":{\"dynamicRegistration\":false}},\"workspace\":{\"workspaceEdit\":{\"documentChanges\":true}}},",
            &extra,
            "\"processId\":",
        );
        params.append(&u64_text(pid as u64));
        params.append(",\"rootUri\":");
        params.append(&quote_text(root_uri));
        params.append("}");
        self.send_request("initialize", &params)
    }

    /// Asks for the hints on the first lines of a document.
    pub fn inlay_hints(&mut self, uri: &str, line_count: u32) -> (r: (u64, String))
        requires
            old(self).next_id < u64::MAX,
        ensures
            final(self).next_id == old(self).next_id + 1,
            r.0 == old(self).next_id,
            r.1@ == framed(
                request_text(
                    r.0 as nat,
                    "textDocument/inlayHint"@,
                    hints_text(uri@, line_count),
                ),
            ),
    {
        let mut params = concat2("{\"range\":{\"end\":", &show_position(line_count, 0));
        params.append(",\"start\":");
        params.append(&show_position(0, 0));
        params.append("},\"textDocument\":");
        params.append(&show_document(uri));
        params.append("}");
        self.send_request("textDocument/inlayHint", &params)
    }

    /// Asks for the function at a place, whose calls can then be asked for.
    pub fn prepare_calls(&mut self, uri: &str, line: u32, char_offset: u32) -> (r: (u64, String))
        requires
            old(self).next_id < u64::MAX,
        ensures
            final(self).next_id == old(self).next_id + 1,
            r.0 == old(self).next_id,
            r.1@ == framed(
                request_text(
                    r.0 as nat,
                    "textDocument/prepareCallHierarchy"@,
                    place_text(uri@, line, char_offset),
                ),
            ),
    {
        self.send_request(
            "textDocument/prepareCallHierarchy",
            &show_place(uri, line, char_offset),
        )
    }

    /// Asks for the calls of a function that the server named, which is given as JSON.
    pub fn ask_calls(&mut self, item: &str) -> (r: (u64, String))
        requires
            old(self).next_id < u64::MAX,
        ensures
            final(self).next_id == old(self).next_id + 1,
            r.0 == old(self).next_id,
            r.1@ == framed(
                request_text(
                    r.0 as nat,
                    "callHierarchy/outgoingCalls"@,
                    "{\"item\":"@ + item@ + "}"@,
                ),
            ),
    {
        self.send_request("callHierarchy/outgoingCalls", &concat3("{\"item\":", item, "}"))
    }

    /// Asks whether what stands at a place can be renamed.
    pub fn prepare_rename(&mut self, uri: &str, line: u32, character: u32) -> (r: (u64, String))
        requires
            old(self).next_id < u64::MAX,
        ensures
            final(self).next_id == old(self).next_id + 1,
            r.0 == old(self).next_id,
            r.1@ == framed(
                request_text(
                    r.0 as nat,
                    "textDocument/prepareRename"@,
                    place_text(uri@, line, character),
                ),
            ),
    {
        self.send_request("textDocument/prepareRename", &show_place(uri, line, character))
    }

    /// Asks to rename what stands at a place, given the answer to whether it can be renamed.
    pub fn rename_symbol(
        &mut self,
        prepared: &Json,
        uri: &str,
        line: u32,
        character: u32,
        new_name: &str,
    ) -> (r: Result<(u64, String), &'static str>)
        requires
            old(self).next_id < u64::MAX,
        ensures
            if prepared@ == JsonView::Null {
                final(self).next_id == old(self).next_id && (r matches Err(m) && m@
                    == "rust-analyzer: symbol is not renameable at this position"@)
            } else {
                final(self).next_id == old(self).next_id + 1 && (r matches Ok(sent) && sent.0
                    == old(self).next_id && sent.1@ == framed(
                    request_text(
                        sent.0 as nat,
                        "textDocument/rename"@,
                        rename_text(uri@, line, character, new_name@),
                    ),
                ))
            },
    {
        if prepared.is_null() {
            return Err("rust-analyzer: symbol is not renameable at this position");
        }
        Ok(self.send_request("textDocument/rename", &show_rename(uri, line, character, new_name)))
    }

    /// Asks a server to end. It may end on the notification that follows.
    pub fn shutdown(&mut self) -> (r: (u64, String))
        requires
            old(self).next_id < u64::MAX,
        ensures
            final(self).next_id == old(self).next_id + 1,
            r.0 == old(self).next_id,
            r.1@ == framed(request_text(r.0 as nat, "shutdown"@, "null"@)),
    {
        self.send_request("shutdown", "null")
    }
}

/// The answer to a request of the server: nothing. Its id is given as JSON.
pub fn acknowledge(id: &str) -> (r: String)
    ensures
        r@ == framed("{\"id\":"@ + id@ + ",\"jsonrpc\":\"2.0\",\"result\":null}"@),
{
    write_msg(&concat3("{\"id\":", id, ",\"jsonrpc\":\"2.0\",\"result\":null}"))
}

// ---------------------------------------------------------------------------
// Messages
// ---------------------------------------------------------------------------

/// What a message is to a client that waits for the answer to a request.
#[derive(Clone, Copy, PartialEq, Eq, Structural, Debug)]
pub enum Incoming {
    /// A request of the server, which is to be answered with nothing.
    ServerRequest,
    /// A notification, which is to be kept.
    Notification,
    /// The answer, with a result.
    Answer,
    /// The answer, with an error.
    Failure,
    /// Something else.
    Other,
}

/// What a message is to a client that waits for the answer to the request with the id.
pub open spec fn incoming_of(msg: JsonView, id: int) -> Incoming {
    if has_field(msg, "method"@) {
        if has_field(msg, "id"@) {
            Incoming::ServerRequest
        } else {
            Incoming::Notification
        }
    } else if u64_in(field_of(msg, "id"@)) == Some(id) {
        if has_field(msg, "error"@) {
            Incoming::Failure
        } else {
            Incoming::Answer
        }
    } else {
        Incoming::Other
    }
}

/// What a message is to a client that waits for the answer to the request with the id.
pub fn classify(msg: &Json, id: u64) -> (r: Incoming)
    ensures
        r == incoming_of(msg@, id as int),
{
    if msg.field("method").is_some() {
        return if msg.field("id").is_some() {
            Incoming::ServerRequest
        } else {
            Incoming::Notification
        };
    }
    let answered = match msg.field("id") {
        Some(v) => match v.uint() {
            Some(n) => n == id,
            None => false,
        },
        None => false,
    };
    if answered {
        if msg.field("error").is_some() {
            Incoming::Failure
        } else {
            Incoming::Answer
        }
    } else {
        Incoming::Other
    }
}

/// The file that a message brings findings on, if it does.
pub open spec fn findings_on(msg: JsonView) -> Option<Seq<char>> {
    if text_in(field_of(msg, "method"@)) == Some("textDocument/publishDiagnostics"@) {
        text_in(field_of(field_of(msg, "params"@), "uri"@))
    } else {
        None
    }
}

/// The file that a message brings findings on, if it does.
pub fn diagnostics_uri(msg: &Json) -> (r: Option<String>)
    ensures
        r.deep_view() == findings_on(msg@),
{
    let ours = match msg.field_text("method") {
        Some(m) => str_eq(m, "textDocument/publishDiagnostics"),
        None => false,
    };
    if !ours {
        return None;
    }
    match msg.field("params") {
        Some(p) => match p.field_text("uri") {
            Some(u) => Some(u.dup()),
            None => None,
        },
        None => None,
    }
}

/// Whether a message says that the server has settled.
pub fn is_quiescent(msg: &Json) -> (r: bool)
    ensures
        r == says_settled(msg@),
{
    let ours = match msg.field_text("method") {
        Some(m) => str_eq(m, "experimental/serverStatus"),
        None => false,
    };
    if !ours {
        return false;
    }
    let settled = match msg.field("params") {
        Some(p) => match p.field("quiescent") {
            Some(q) => q.boolean(),
            None => None,
        },
        None => None,
    };
    match settled {
        Some(b) => b,
        None => false,
    }
}

/// A message that comes while the server gets ready is kept: all but answers.
pub fn is_kept(msg: &Json) -> (r: bool)
    ensures
        r == !has_field(msg@, "id"@),
{
    msg.field("id").is_none()
}

/// The first `n` files without one.
pub open spec fn without_file(files: Seq<Seq<char>>, file: Seq<char>, n: int) -> Seq<Seq<char>>
    decreases n,
{
    if n <= 0 {
        Seq::empty()
    } else if files[n - 1] == file {
        without_file(files, file, n - 1)
    } else {
        without_file(files, file, n - 1).push(files[n - 1])
    }
}

/// The files that findings are still waited for after a message.
pub open spec fn still_pending(pending: Seq<Seq<char>>, msg: JsonView) -> Seq<Seq<char>> {
    match findings_on(msg) {
        Some(file) => without_file(pending, file, pending.len() as int),
        None => pending,
    }
}

/// Takes note of a message while findings are waited for: a file that it brings findings on is
/// waited for no more.
pub fn note_diagnostics(pending: &mut Vec<String>, msg: &Json)
    ensures
        views(final(pending)@) == still_pending(views(old(pending)@), msg@),
{
    let uri = match diagnostics_uri(msg) {
        Some(u) => u,
        None => {
            return;
        },
    };
    let mut out: Vec<String> = Vec::new();
    let mut n: usize = 0;
    while n < pending.len()
        invariant
            n <= pending@.len(),
            pending@ == old(pending)@,
            views(out@) == without_file(views(pending@), uri@, n as int),
        decreases pending@.len() - n,
    {
        assert(views(pending@)[n as int] == pending@[n as int]@);
        if !str_eq(&pending[n], &uri) {
            out.push(pending[n].dup());
        }
        n = n + 1;
    }
    *pending = out;
}

proof fn others_stay(files: Seq<Seq<char>>, file: Seq<char>, n: int, x: Seq<char>)
    requires
        0 <= n <= files.len(),
    ensures
        without_file(files, file, n).contains(x) == (x != file && files.take(n).contains(x)),
    decreases n,
{
    if n > 0 {
        others_stay(files, file, n - 1, x);
        let rest = without_file(files, file, n - 1);
        let last = files[n - 1];
        assert(files.take(n) =~= files.take(n - 1).push(last));
        assert(files.take(n).contains(x) == (files.take(n - 1).contains(x) || last == x)) by {
            let t = files.take(n - 1);
            if t.contains(x) {
                let i = choose|i: int| 0 <= i < t.len() && t[i] == x;
                assert(t.push(last)[i] == x);
            }
            if last == x {
                assert(t.push(last)[n - 1] == x);
            }
            if t.push(last).contains(x) && last != x {
                let i = choose|i: int| 0 <= i < t.push(last).len() && t.push(last)[i] == x;
                assert(t[i] == x);
            }
        }
        if last != file {
            assert(rest.push(last).contains(x) == (rest.contains(x) || last == x)) by {
                if rest.contains(x) {
                    let i = choose|i: int| 0 <= i < rest.len() && rest[i] == x;
                    assert(rest.push(last)[i] == x);
                }
                if last == x {
                    assert(rest.push(last)[rest.len() as int] == x);
                }
                if rest.push(last).contains(x) && last != x {
                    let i = choose|i: int|
                        0 <= i < rest.push(last).len() && rest.push(last)[i] == x;
                    assert(rest[i] == x);
                }
            }
        }
    }
}

/// Findings on a file end the wait for it and for no other file.
pub proof fn findings_settle_their_file(pending: Seq<Seq<char>>, msg: JsonView, file: Seq<char>)
    ensures
        still_pending(pending, msg).contains(file) == (pending.contains(file) && findings_on(msg)
            != Some(file)),
{
    if let Some(f) = findings_on(msg) {
        others_stay(pending, f, pending.len() as int, file);
        assert(pending.take(pending.len() as int) =~= pending);
    }
}

// ---------------------------------------------------------------------------
// Calls
// ---------------------------------------------------------------------------

/// What a function calls: its name, its file, and its line, counted from 0.
#[derive(Debug)]
pub struct LspCallTarget {
    pub name: String,
    pub uri: String,
    pub line: u32,
}

/// What a [`LspCallTarget`] holds.
#[verifier::ext_equal]
pub struct LspCallTargetView {
    pub name: Seq<char>,
    pub uri: Seq<char>,
    pub line: u32,
}

impl DeepView for LspCallTarget {
    type V = LspCallTargetView;

    open spec fn deep_view(&self) -> LspCallTargetView {
        LspCallTargetView {
            name: self.name.deep_view(),
            uri: self.uri.deep_view(),
            line: self.line.deep_view(),
        }
    }
}

impl View for LspCallTarget {
    type V = LspCallTargetView;

    open spec fn view(&self) -> LspCallTargetView {
        self.deep_view()
    }
}

/// What an outgoing call leads to; none where it has no name or no file.
pub open spec fn target_in(call: JsonView) -> Option<LspCallTargetView> {
    let to = field_of(call, "to"@);
    let name = or_text(text_in(field_of(to, "name"@)), ""@);
    let uri = or_text(text_in(field_of(to, "uri"@)), ""@);
    if uri.len() == 0 || name.len() == 0 {
        None
    } else {
        let line = match u64_in(field_of(field_of(field_of(to, "range"@), "start"@), "line"@)) {
            Some(n) => n,
            None => 0,
        };
        Some(
            LspCallTargetView {
                name,
                uri,
                line: #[verifier::truncate]
                (line as u64 as u32),
            },
        )
    }
}

/// What the first `n` outgoing calls lead to.
pub open spec fn targets_in(calls: Seq<JsonView>, n: int) -> Seq<LspCallTargetView>
    decreases n,
{
    if n <= 0 {
        Seq::empty()
    } else {
        match target_in(calls[n - 1]) {
            Some(t) => targets_in(calls, n - 1).push(t),
            None => targets_in(calls, n - 1),
        }
    }
}

fn read_target(call: &Json) -> (r: Option<LspCallTarget>)
    ensures
        r.deep_view() == target_in(call@),
{
    proof {
        reveal_strlit("");
    }
    let to = match call.field("to") {
        Some(t) => t,
        None => {
            return None;
        },
    };
    let name = match to.field_text("name") {
        Some(t) => t,
        None => {
            return None;
        },
    };
    let uri = match to.field_text("uri") {
        Some(t) => t,
        None => {
            return None;
        },
    };
    if name.as_str().is_empty() || uri.as_str().is_empty() {
        return None;
    }
    let line: u64 = match to.field("range") {
        Some(range) => match range.field("start") {
            Some(start) => match start.field("line") {
                Some(l) => match l.uint() {
                    Some(n) => n,
                    None => 0,
                },
                None => 0,
            },
            None => 0,
        },
        None => 0,
    };
    Some(
        LspCallTarget {
            name: name.dup(),
            uri: uri.dup(),
            line: #[verifier::truncate]
            (line as u32),
        },
    )
}

/// What the outgoing calls of a function lead to, as the server answers it.
pub fn outgoing_calls(calls: &Json) -> (r: Vec<LspCallTarget>)
    ensures
        views(r@) == match items_in(calls@) {
            Some(items) => targets_in(items, items.len() as int),
            None => Seq::empty(),
        },
{
    let mut out: Vec<LspCallTarget> = Vec::new();
    if let Some(items) = calls.items() {
        let ghost iv = views(items@);
        assert(iv.len() == items@.len());
        let mut n: usize = 0;
        while n < items.len()
            invariant
                iv == views(items@),
                n <= items@.len(),
                views(out@) == targets_in(iv, n as int),
            decreases items@.len() - n,
        {
            assert(iv[n as int] == items@[n as int]@);
            if let Some(t) = read_target(&items[n]) {
                out.push(t);
            }
            n = n + 1;
        }
    }
    out
}

/// Where a symbol starts: the canonical path of its file and its first line, counted from 1.
#[derive(Debug)]
pub struct PathLine {
    pub path: String,
    pub line: i64,
    pub id: i64,
}

/// What a [`PathLine`] holds.
#[verifier::ext_equal]
pub struct PathLineView {
    pub path: Seq<char>,
    pub line: i64,
    pub id: i64,
}

impl DeepView for PathLine {
    type V = PathLineView;

    open spec fn deep_view(&self) -> PathLineView {
        PathLineView {
            path: self.path.deep_view(),
            line: self.line.deep_view(),
            id: self.id.deep_view(),
        }
    }
}

impl View for PathLine {
    type V = PathLineView;

    open spec fn view(&self) -> PathLineView {
        self.deep_view()
    }
}

/// The symbol of the last of the first `n` entries with the path and the line.
pub open spec fn symbol_at(index: Seq<PathLineView>, path: Seq<char>, line: int, n: int) -> Option<i64>
    decreases n,
{
    if n <= 0 {
        None
    } else if index[n - 1].path == path && index[n - 1].line == line {
        Some(index[n - 1].id)
    } else {
        symbol_at(index, path, line, n - 1)
    }
}

fn find_symbol(index: &Vec<PathLine>, path: &str, line: i64) -> (r: Option<i64>)
    ensures
        r == symbol_at(views(index@), path@, line as int, index@.len() as int),
{
    let mut n: usize = index.len();
    while n > 0
        invariant
            n <= index@.len(),
            symbol_at(views(index@), path@, line as int, index@.len() as int) == symbol_at(
                views(index@),
                path@,
                line as int,
                n as int,
            ),
        decreases n,
    {
        assert(views(index@)[n - 1] == index@[n - 1]@);
        if index[n - 1].line == line && str_eq(&index[n - 1].path, path) {
            return Some(index[n - 1].id);
        }
        n = n - 1;
    }
    None
}

/// What asking for a function's calls came to.
pub enum CallOutcome {
    /// What they lead to.
    Targets(Vec<LspCallTarget>),
    /// The server did not answer in time.
    TimedOut,
    /// The server refused.
    Refused,
}

/// What a [`CallOutcome`] holds.
pub enum CallOutcomeView {
    Targets(Seq<LspCallTargetView>),
    TimedOut,
    Refused,
}

/// What asking for the calls of a function came to.
pub struct FnCalls {
    pub fn_id: i64,
    pub outcome: CallOutcome,
}

/// What a [`FnCalls`] holds.
pub struct FnCallsView {
    pub fn_id: i64,
    pub outcome: CallOutcomeView,
}

impl DeepView for FnCalls {
    type V = FnCallsView;

    open spec fn deep_view(&self) -> FnCallsView {
        FnCallsView {
            fn_id: self.fn_id,
            outcome: match self.outcome {
                CallOutcome::Targets(t) => CallOutcomeView::Targets(views(t@)),
                CallOutcome::TimedOut => CallOutcomeView::TimedOut,
                CallOutcome::Refused => CallOutcomeView::Refused,
            },
        }
    }
}

/// `edges` with those from a function to the symbols that the first `k` targets are.
pub open spec fn with_targets(
    edges: Seq<(i64, i64)>,
    fn_id: i64,
    targets: Seq<LspCallTargetView>,
    index: Seq<PathLineView>,
    k: int,
) -> Seq<(i64, i64)>
    decreases k,
{
    if k <= 0 {
        edges
    } else {
        let rest = with_targets(edges, fn_id, targets, index, k - 1);
        let t = targets[k - 1];
        match symbol_at(index, path_of_uri(t.uri), t.line + 1, index.len() as int) {
            Some(to) => rest.push((fn_id, to)),
            None => rest,
        }
    }
}

/// The trusted edges that the calls of the first `n` functions give.
pub open spec fn trusted_edges(
    calls: Seq<FnCallsView>,
    index: Seq<PathLineView>,
    n: int,
) -> Seq<(i64, i64)>
    decreases n,
{
    if n <= 0 {
        Seq::empty()
    } else {
        let rest = trusted_edges(calls, index, n - 1);
        match calls[n - 1].outcome {
            CallOutcomeView::Targets(t) => with_targets(
                rest,
                calls[n - 1].fn_id,
                t,
                index,
                t.len() as int,
            ),
            _ => rest,
        }
    }
}

/// How many of the first `n` functions call something.
pub open spec fn calling(calls: Seq<FnCallsView>, n: int) -> nat
    decreases n,
{
    if n <= 0 {
        0
    } else {
        calling(calls, n - 1) + if calls[n - 1].outcome matches CallOutcomeView::Targets(t)
            && t.len() > 0 {
            1nat
        } else {
            0nat
        }
    }
}

/// For how many of the first `n` functions the server did not answer in time.
pub open spec fn timed_out(calls: Seq<FnCallsView>, n: int) -> nat
    decreases n,
{
    if n <= 0 {
        0
    } else {
        timed_out(calls, n - 1) + if calls[n - 1].outcome is TimedOut {
            1nat
        } else {
            0nat
        }
    }
}

/// The trusted edges that calls give, and how asking for them went.
pub struct CallReport {
    pub edges: Vec<(i64, i64)>,
    pub with_edges: usize,
    pub timeouts: usize,
}

fn add_targets(
    edges: &mut Vec<(i64, i64)>,
    fn_id: i64,
    targets: &Vec<LspCallTarget>,
    index: &Vec<PathLine>,
)
    ensures
        final(edges)@ == with_targets(
            old(edges)@,
            fn_id,
            views(targets@),
            views(index@),
            targets@.len() as int,
        ),
{
    let ghost start = edges@;
    let mut k: usize = 0;
    while k < targets.len()
        invariant
            k <= targets@.len(),
            edges@ == with_targets(start, fn_id, views(targets@), views(index@), k as int),
        decreases targets@.len() - k,
    {
        let t = &targets[k];
        assert(views(targets@)[k as int] == t@);
        let path = uri_to_path(&t.uri);
        if let Some(to) = find_symbol(index, &path, t.line as i64 + 1) {
            edges.push((fn_id, to));
        }
        k = k + 1;
    }
}

/// The trusted edges that the calls of functions give.
pub fn collect_calls(calls: &Vec<FnCalls>, index: &Vec<PathLine>) -> (r: CallReport)
    ensures
        r.edges@ == trusted_edges(views(calls@), views(index@), calls@.len() as int),
        r.with_edges == calling(views(calls@), calls@.len() as int),
        r.timeouts == timed_out(views(calls@), calls@.len() as int),
{
    let mut edges: Vec<(i64, i64)> = Vec::new();
    let mut with_edges: usize = 0;
    let mut timeouts: usize = 0;
    let mut n: usize = 0;
    while n < calls.len()
        invariant
            n <= calls@.len(),
            with_edges <= n,
            timeouts <= n,
            edges@ == trusted_edges(views(calls@), views(index@), n as int),
            with_edges == calling(views(calls@), n as int),
            timeouts == timed_out(views(calls@), n as int),
        decreases calls@.len() - n,
    {
        let c = &calls[n];
        assert(views(calls@)[n as int] == c.deep_view());
        match &c.outcome {
            CallOutcome::Targets(t) => {
                assert(views(t@).len() == t@.len());
                if t.len() > 0 {
                    with_edges = with_edges + 1;
                }
                add_targets(&mut edges, c.fn_id, t, index);
            },
            CallOutcome::TimedOut => {
                timeouts = timeouts + 1;
            },
            CallOutcome::Refused => {},
        }
        n = n + 1;
    }
    CallReport { edges, with_edges, timeouts }
}

proof fn targets_are_symbols(
    edges: Seq<(i64, i64)>,
    fn_id: i64,
    targets: Seq<LspCallTargetView>,
    index: Seq<PathLineView>,
    k: int,
    ids: Set<i64>,
)
    requires
        0 <= k <= targets.len(),
        forall|i: int| 0 <= i < index.len() ==> ids.contains((#[trigger] index[i]).id),
        forall|i: int| 0 <= i < edges.len() ==> ids.contains((#[trigger] edges[i]).1),
    ensures
        forall|i: int|
            0 <= i < with_targets(edges, fn_id, targets, index, k).len() ==> ids.contains(
                (#[trigger] with_targets(edges, fn_id, targets, index, k)[i]).1,
            ),
    decreases k,
{
    if k > 0 {
        targets_are_symbols(edges, fn_id, targets, index, k - 1, ids);
        symbol_is_known(
            index,
            path_of_uri(targets[k - 1].uri),
            targets[k - 1].line + 1,
            index.len() as int,
            ids,
        );
        let rest = with_targets(edges, fn_id, targets, index, k - 1);
        let all = with_targets(edges, fn_id, targets, index, k);
        assert forall|i: int| 0 <= i < all.len() implies ids.contains((#[trigger] all[i]).1) by {
            if i < rest.len() {
                assert(all[i] == rest[i]);
            }
        }
    }
}

proof fn symbol_is_known(
    index: Seq<PathLineView>,
    path: Seq<char>,
    line: int,
    n: int,
    ids: Set<i64>,
)
    requires
        0 <= n <= index.len(),
        forall|i: int| 0 <= i < index.len() ==> ids.contains((#[trigger] index[i]).id),
    ensures
        symbol_at(index, path, line, n) matches Some(id) ==> ids.contains(id),
    decreases n,
{
    if n > 0 {
        symbol_is_known(index, path, line, n - 1, ids);
    }
}

/// Trusted edges lead to symbols of the code graph only: what the server names and the code
/// graph does not know is left out.
pub proof fn trusted_edges_lead_to_symbols(
    calls: Seq<FnCallsView>,
    index: Seq<PathLineView>,
    n: int,
    ids: Set<i64>,
)
    requires
        0 <= n <= calls.len(),
        forall|i: int| 0 <= i < index.len() ==> ids.contains((#[trigger] index[i]).id),
    ensures
        forall|i: int|
            0 <= i < trusted_edges(calls, index, n).len() ==> ids.contains(
                (#[trigger] trusted_edges(calls, index, n)[i]).1,
            ),
    decreases n,
{
    if n > 0 {
        trusted_edges_lead_to_symbols(calls, index, n - 1, ids);
        if let CallOutcomeView::Targets(t) = calls[n - 1].outcome {
            targets_are_symbols(
                trusted_edges(calls, index, n - 1),
                calls[n - 1].fn_id,
                t,
                index,
                t.len() as int,
                ids,
            );
        }
    }
}

/// A symbol with its kind and its name.
#[derive(Debug)]
pub struct NamedSymbol {
    pub id: i64,
    pub kind: String,
    pub name: String,
}

/// What a [`NamedSymbol`] holds.
#[verifier::ext_equal]
pub struct NamedSymbolView {
    pub id: i64,
    pub kind: Seq<char>,
    pub name: Seq<char>,
}

impl DeepView for NamedSymbol {
    type V = NamedSymbolView;

    open spec fn deep_view(&self) -> NamedSymbolView {
        NamedSymbolView {
            id: self.id.deep_view(),
            kind: self.kind.deep_view(),
            name: self.name.deep_view(),
        }
    }
}

impl View for NamedSymbol {
    type V = NamedSymbolView;

    open spec fn view(&self) -> NamedSymbolView {
        self.deep_view()
    }
}

/// `edges` with those from an `impl` to the traits of its name among the first `k` symbols.
pub open spec fn with_traits(
    edges: Seq<(i64, i64)>,
    symbol: NamedSymbolView,
    symbols: Seq<NamedSymbolView>,
    k: int,
) -> Seq<(i64, i64)>
    decreases k,
{
    if k <= 0 {
        edges
    } else {
        let rest = with_traits(edges, symbol, symbols, k - 1);
        if symbols[k - 1].kind == "trait"@ && symbols[k - 1].name == symbol.name {
            rest.push((symbol.id, symbols[k - 1].id))
        } else {
            rest
        }
    }
}

/// The edges from the `impl`s among the first `n` symbols to the traits of their names.
pub open spec fn impl_edges(symbols: Seq<NamedSymbolView>, n: int) -> Seq<(i64, i64)>
    decreases n,
{
    if n <= 0 {
        Seq::empty()
    } else if symbols[n - 1].kind == "impl"@ {
        with_traits(
            impl_edges(symbols, n - 1),
            symbols[n - 1],
            symbols,
            symbols.len() as int,
        )
    } else {
        impl_edges(symbols, n - 1)
    }
}

/// The edges from `impl`s to the traits of their names.
pub fn trait_impl_edges(symbols: &Vec<NamedSymbol>) -> (r: Vec<(i64, i64)>)
    ensures
        r@ == impl_edges(views(symbols@), symbols@.len() as int),
{
    let mut out: Vec<(i64, i64)> = Vec::new();
    let mut n: usize = 0;
    while n < symbols.len()
        invariant
            n <= symbols@.len(),
            out@ == impl_edges(views(symbols@), n as int),
        decreases symbols@.len() - n,
    {
        assert(views(symbols@)[n as int] == symbols@[n as int]@);
        if str_eq(&symbols[n].kind, "impl") {
            let ghost start = out@;
            let mut k: usize = 0;
            while k < symbols.len()
                invariant
                    n < symbols@.len(),
                    views(symbols@)[n as int] == symbols@[n as int]@,
                    k <= symbols@.len(),
                    out@ == with_traits(
                        start,
                        views(symbols@)[n as int],
                        views(symbols@),
                        k as int,
                    ),
                decreases symbols@.len() - k,
            {
                assert(views(symbols@)[k as int] == symbols@[k as int]@);
                if str_eq(&symbols[k].kind, "trait") && str_eq(&symbols[k].name, &symbols[n].name) {
                    out.push((symbols[n].id, symbols[k].id));
                }
                k = k + 1;
            }
        }
        n = n + 1;
    }
    out
}

// ---------------------------------------------------------------------------
// Return types
// ---------------------------------------------------------------------------

/// The first `n` parts of a label, put together.
pub open spec fn label_parts(parts: Seq<JsonView>, n: int) -> Seq<char>
    decreases n,
{
    if n <= 0 {
        Seq::empty()
    } else {
        match text_in(field_of(parts[n - 1], "value"@)) {
            Some(t) => label_parts(parts, n - 1) + t,
            None => label_parts(parts, n - 1),
        }
    }
}

/// The label of a hint: a text, or the texts of its parts.
pub open spec fn label_of(label: JsonView) -> Seq<char> {
    match label {
        JsonView::Str(s) => s,
        JsonView::Arr(parts) => label_parts(parts, parts.len() as int),
        _ => Seq::empty(),
    }
}

/// The label of a hint.
pub fn inlay_label_str(label: &Json) -> (r: String)
    ensures
        r@ == label_of(label@),
{
    if let Some(t) = label.text() {
        return t.dup();
    }
    let mut out = String::new();
    if let Some(parts) = label.items() {
        let ghost pv = views(parts@);
        assert(pv.len() == parts@.len());
        let mut n: usize = 0;
        while n < parts.len()
            invariant
                pv == views(parts@),
                n <= parts@.len(),
                out@ == label_parts(pv, n as int),
            decreases parts@.len() - n,
        {
            assert(pv[n as int] == parts@[n as int]@);
            if let Some(t) = parts[n].field_text("value") {
                out.append(t);
            }
            n = n + 1;
        }
    }
    out
}

/// Where the parameter list opens, from `i` on: at the first parenthesis that no type
/// parameter holds. `angles` are the angle brackets that are open. The end of an arrow closes
/// none.
pub open spec fn list_opens(s: Seq<char>, i: int, angles: int) -> Option<int>
    decreases s.len() - i,
{
    if i < 0 || i >= s.len() {
        None
    } else if s[i] == '(' && angles <= 0 {
        Some(i)
    } else if s[i] == '<' {
        list_opens(s, i + 1, angles + 1)
    } else if s[i] == '>' && angles > 0 && !(i > 0 && s[i - 1] == '=') {
        list_opens(s, i + 1, angles - 1)
    } else {
        list_opens(s, i + 1, angles)
    }
}

/// Where the parenthesis closes within which `depth` are open at `i`.
pub open spec fn list_closes(s: Seq<char>, i: int, depth: int) -> Option<int>
    decreases s.len() - i,
{
    if i < 0 || i >= s.len() {
        None
    } else if s[i] == '(' {
        list_closes(s, i + 1, depth + 1)
    } else if s[i] == ')' {
        if depth <= 1 {
            Some(i)
        } else {
            list_closes(s, i + 1, depth - 1)
        }
    } else {
        list_closes(s, i + 1, depth)
    }
}

/// The signature says what the function returns: a colon stands behind the parenthesis that
/// closes its parameter list.
pub open spec fn says_return_type(sig: Seq<char>) -> bool {
    match list_opens(sig, 0, 0) {
        Some(from) => match list_closes(sig, from, 0) {
            Some(k) => begins_with(trimmed_start(sig.skip(k + 1)), ":"@),
            None => false,
        },
        None => false,
    }
}

fn find_list(v: &Vec<char>) -> (r: Option<usize>)
    ensures
        match r {
            Some(k) => list_opens(v@, 0, 0) == Some(k as int) && k < v@.len(),
            None => list_opens(v@, 0, 0) is None,
        },
{
    let mut i: usize = 0;
    let mut angles: usize = 0;
    while i < v.len()
        invariant
            i <= v@.len(),
            angles <= i,
            list_opens(v@, 0, 0) == list_opens(v@, i as int, angles as int),
        decreases v@.len() - i,
    {
        if v[i] == '(' && angles == 0 {
            return Some(i);
        }
        if v[i] == '<' {
            angles = angles + 1;
        } else if v[i] == '>' && angles > 0 && !(i > 0 && v[i - 1] == '=') {
            angles = angles - 1;
        }
        i = i + 1;
    }
    None
}

fn find_list_end(v: &Vec<char>, from: usize) -> (r: Option<usize>)
    ensures
        match r {
            Some(k) => list_closes(v@, from as int, 0) == Some(k as int) && k < v@.len(),
            None => list_closes(v@, from as int, 0) is None,
        },
{
    let mut i: usize = from;
    let mut depth: usize = 0;
    while i < v.len()
        invariant
            from <= i,
            depth <= i - from,
            list_closes(v@, from as int, 0) == list_closes(v@, i as int, depth as int),
        decreases v@.len() - i,
    {
        if v[i] == '(' {
            depth = depth + 1;
        } else if v[i] == ')' {
            if depth <= 1 {
                return Some(i);
            }
            depth = depth - 1;
        }
        i = i + 1;
    }
    None
}

/// Whether the signature says what the function returns.
pub fn has_explicit_return_type(sig: &str) -> (r: bool)
    ensures
        r == says_return_type(sig@),
{
    let v = chars_of(sig);
    let from: usize = match find_list(&v) {
        Some(k) => k,
        None => {
            return false;
        },
    };
    match find_list_end(&v, from) {
        Some(k) => {
            let n: usize = v.len();
            let tail = string_of(&v, k + 1, n);
            assert(v@.subrange(k + 1, n as int) =~= sig@.skip(k + 1));
            starts_with(&trim_start(&tail), ":")
        },
        None => false,
    }
}

/// The hint is one on a type on the line.
pub open spec fn is_type_hint(hint: JsonView, line: int) -> bool {
    u64_in(field_of(hint, "kind"@)) == Some(1int) && u64_in(
        field_of(field_of(hint, "position"@), "line"@),
    ) == Some(line)
}

/// How far on its line a hint stands.
pub open spec fn hint_column(hint: JsonView) -> int {
    match u64_in(field_of(field_of(hint, "position"@), "character"@)) {
        Some(c) => c,
        None => 0,
    }
}

/// Of the first `n` hints, the one on a type on the line that stands furthest; the last of
/// several.
pub open spec fn furthest_hint(hints: Seq<JsonView>, line: int, n: int) -> Option<int>
    decreases n,
{
    if n <= 0 {
        None
    } else {
        let best = furthest_hint(hints, line, n - 1);
        if is_type_hint(hints[n - 1], line) && (best matches Some(b) ==> hint_column(hints[b])
            <= hint_column(hints[n - 1])) {
            Some(n - 1)
        } else {
            best
        }
    }
}

/// What the hints say that the function on the line returns, if they do.
pub open spec fn hinted_type(hints: Seq<JsonView>, line: int) -> Option<Seq<char>> {
    match furthest_hint(hints, line, hints.len() as int) {
        Some(i) => {
            let label = label_of(field_of(hints[i], "label"@));
            if label.len() == 0 {
                None
            } else {
                Some(label)
            }
        },
        None => None,
    }
}

fn position_part(hint: &Json, key: &str) -> (r: Option<u64>)
    ensures
        match r {
            Some(n) => u64_in(field_of(field_of(hint@, "position"@), key@)) == Some(n as int),
            None => u64_in(field_of(field_of(hint@, "position"@), key@)) is None,
        },
{
    match hint.field("position") {
        Some(p) => match p.field(key) {
            Some(v) => v.uint(),
            None => None,
        },
        None => None,
    }
}

fn check_type_hint(hint: &Json, line: u32) -> (r: bool)
    ensures
        r == is_type_hint(hint@, line as int),
{
    let kind = match hint.field("kind") {
        Some(v) => v.uint(),
        None => None,
    };
    match (kind, position_part(hint, "line")) {
        (Some(k), Some(l)) => k == 1 && l == line as u64,
        _ => false,
    }
}

fn read_column(hint: &Json) -> (r: u64)
    ensures
        r == hint_column(hint@),
{
    match position_part(hint, "character") {
        Some(c) => c,
        None => 0,
    }
}

/// What the hints say that the function on the line, counted from 0, returns: the furthest of
/// the hints on types on it, which the server puts behind the closing parenthesis.
pub fn return_type_hint_on_line(hints: &Vec<Json>, lsp_line: u32) -> (r: Option<String>)
    ensures
        r.deep_view() == hinted_type(views(hints@), lsp_line as int),
{
    let ghost hv = views(hints@);
    assert(hv.len() == hints@.len());
    let mut best: Option<usize> = None;
    let mut n: usize = 0;
    while n < hints.len()
        invariant
            hv == views(hints@),
            n <= hints@.len(),
            match best {
                Some(b) => b < n && furthest_hint(hv, lsp_line as int, n as int) == Some(b as int),
                None => furthest_hint(hv, lsp_line as int, n as int) is None,
            },
        decreases hints@.len() - n,
    {
        assert(hv[n as int] == hints@[n as int]@);
        if check_type_hint(&hints[n], lsp_line) {
            let further = match best {
                Some(b) => {
                    assert(hv[b as int] == hints@[b as int]@);
                    read_column(&hints[b]) <= read_column(&hints[n])
                },
                None => true,
            };
            if further {
                best = Some(n);
            }
        }
        n = n + 1;
    }
    match best {
        Some(b) => {
            assert(hv[b as int] == hints@[b as int]@);
            let label = match hints[b].field("label") {
                Some(l) => inlay_label_str(l),
                None => String::new(),
            };
            if label.as_str().is_empty() {
                None
            } else {
                Some(label)
            }
        },
        None => None,
    }
}

/// A type as it is written in a signature: without the colon that the server may put before
/// it, and cut off behind 120 characters.
pub open spec fn shown_type(hint: Seq<char>) -> Seq<char> {
    let t = trimmed(trimmed_of(trimmed(hint), ":"@));
    if t.len() > 120 {
        t.take(120) + "…"@
    } else {
        t
    }
}

/// A type as it is written in a signature.
pub fn show_type(hint: &str) -> (r: String)
    ensures
        r@ == shown_type(hint@),
{
    proof {
        reveal_strlit(":");
    }
    let t = trim(&trim_start_matches(&trim(hint), ":"));
    let v = chars_of(&t);
    if v.len() > 120 {
        let cut = string_of(&v, 0, 120);
        assert(v@.subrange(0, 120) =~= t@.take(120));
        concat2(&cut, "…")
    } else {
        t
    }
}

/// A written type is short enough to be shown.
pub proof fn shown_type_is_short(hint: Seq<char>)
    ensures
        shown_type(hint).len() <= 121,
{
    reveal_strlit("…");
}

/// A function: its file, its line, counted from 0, and its signature, where it has one.
#[derive(Debug)]
pub struct FnSignature {
    pub id: i64,
    pub uri: String,
    pub line: u32,
    pub signature: Option<String>,
}

/// What a [`FnSignature`] holds.
#[verifier::ext_equal]
pub struct FnSignatureView {
    pub id: i64,
    pub uri: Seq<char>,
    pub line: u32,
    pub signature: Option<Seq<char>>,
}

impl DeepView for FnSignature {
    type V = FnSignatureView;

    open spec fn deep_view(&self) -> FnSignatureView {
        FnSignatureView {
            id: self.id.deep_view(),
            uri: self.uri.deep_view(),
            line: self.line.deep_view(),
            signature: self.signature.deep_view(),
        }
    }
}

impl View for FnSignature {
    type V = FnSignatureView;

    open spec fn view(&self) -> FnSignatureView {
        self.deep_view()
    }
}

/// The signature that a function gets from the hints on its file: only where it has one that
/// does not say what the function returns.
pub open spec fn enriched(f: FnSignatureView, hints: Seq<JsonView>) -> Option<Seq<char>> {
    match f.signature {
        Some(sig) => if says_return_type(sig) {
            None
        } else {
            match hinted_type(hints, f.line as int) {
                Some(t) => Some(sig + ": "@ + shown_type(t)),
                None => None,
            }
        },
        None => None,
    }
}

/// `out` with the signatures of those of the first `k` functions that are in the file.
pub open spec fn with_signatures(
    out: Seq<(i64, Seq<char>)>,
    fns: Seq<FnSignatureView>,
    uri: Seq<char>,
    hints: Seq<JsonView>,
    k: int,
) -> Seq<(i64, Seq<char>)>
    decreases k,
{
    if k <= 0 {
        out
    } else {
        let rest = with_signatures(out, fns, uri, hints, k - 1);
        if fns[k - 1].uri == uri {
            match enriched(fns[k - 1], hints) {
                Some(sig) => rest.push((fns[k - 1].id, sig)),
                None => rest,
            }
        } else {
            rest
        }
    }
}

/// The signatures that functions get from the hints on their file.
pub fn signature_updates(fns: &Vec<FnSignature>, uri: &str, hints: &Vec<Json>, out: &mut Vec<
    (i64, String),
>)
    ensures
        views(final(out)@) == with_signatures(
            views(old(out)@),
            views(fns@),
            uri@,
            views(hints@),
            fns@.len() as int,
        ),
{
    let ghost start = views(out@);
    let mut k: usize = 0;
    while k < fns.len()
        invariant
            k <= fns@.len(),
            views(out@) == with_signatures(start, views(fns@), uri@, views(hints@), k as int),
        decreases fns@.len() - k,
    {
        let f = &fns[k];
        assert(views(fns@)[k as int] == f@);
        if str_eq(&f.uri, uri) {
            if let Some(sig) = &f.signature {
                if !has_explicit_return_type(sig) {
                    if let Some(t) = return_type_hint_on_line(hints, f.line) {
                        let new_sig = concat3(sig, ": ", &show_type(&t));
                        out.push((f.id, new_sig));
                    }
                }
            }
        }
        k = k + 1;
    }
}

/// A signature is only ever added to: what it said before stands at its beginning.
pub proof fn signatures_are_added_to(f: FnSignatureView, hints: Seq<JsonView>)
    ensures
        enriched(f, hints) matches Some(sig) ==> f.signature is Some && begins_with(
            sig,
            f.signature->0,
        ),
{
    if let Some(sig) = enriched(f, hints) {
        let old_sig = f.signature->0;
        assert(sig.take(old_sig.len() as int) =~= old_sig);
    }
}

// ---------------------------------------------------------------------------
// Servers and places
// ---------------------------------------------------------------------------

/// What adds to the symbols of a language.
#[derive(Clone, Copy, PartialEq, Eq, Structural, Debug)]
pub enum Enricher {
    Rust,
    TypeScript,
    JavaScript,
    Svelte,
}

/// What adds to the symbols of a language, if anything does.
pub open spec fn enricher_of(language: Seq<char>) -> Option<Enricher> {
    if language == "rust"@ {
        Some(Enricher::Rust)
    } else if language == "typescript"@ {
        Some(Enricher::TypeScript)
    } else if language == "javascript"@ {
        Some(Enricher::JavaScript)
    } else if language == "svelte"@ {
        Some(Enricher::Svelte)
    } else {
        None
    }
}

/// What adds to the symbols of a language, if anything does.
pub fn enrich(language: &str) -> (r: Option<Enricher>)
    ensures
        r == enricher_of(language@),
{
    if str_eq(language, "rust") {
        Some(Enricher::Rust)
    } else if str_eq(language, "typescript") {
        Some(Enricher::TypeScript)
    } else if str_eq(language, "javascript") {
        Some(Enricher::JavaScript)
    } else if str_eq(language, "svelte") {
        Some(Enricher::Svelte)
    } else {
        None
    }
}

/// What is asked for a language server, and what it is called with.
pub struct Server {
    pub command: &'static str,
    pub args: &'static str,
    pub source: &'static str,
    /// The functions of which languages it is asked about, as a list for a query.
    pub languages: &'static str,
    /// It says when it has settled.
    pub settles: bool,
    /// It is told of every file before it is asked.
    pub opens_files: bool,
    /// It is asked for hints.
    pub gives_hints: bool,
}

/// The language server behind an enricher.
pub fn server(e: Enricher) -> (r: Server)
    ensures
        match e {
            Enricher::Rust => r.command@ == "rust-analyzer"@ && r.args@ == ""@ && r.source@
                == "rust-analyzer"@ && r.languages@ == ""@ && r.settles && !r.opens_files
                && !r.gives_hints,
            Enricher::TypeScript => r.command@ == "typescript-language-server"@ && r.args@
                == "--stdio"@ && r.source@ == "typescript-language-server"@ && r.languages@
                == "'typescript', 'javascript'"@ && !r.settles && r.opens_files && r.gives_hints,
            Enricher::JavaScript => r.command@ == "typescript-language-server"@ && r.args@
                == "--stdio"@ && r.source@ == "typescript-language-server"@ && r.languages@
                == "'javascript'"@ && !r.settles && r.opens_files && r.gives_hints,
            Enricher::Svelte => r.command@ == "svelteserver"@ && r.args@ == "--stdio"@ && r.source@
                == "svelte-language-server"@ && r.languages@ == "'svelte'"@ && !r.settles
                && r.opens_files && !r.gives_hints,
        },
{
    match e {
        Enricher::Rust => Server {
            command: "rust-analyzer",
            args: "",
            source: "rust-analyzer",
            languages: "",
            settles: true,
            opens_files: false,
            gives_hints: false,
        },
        Enricher::TypeScript => Server {
            command: "typescript-language-server",
            args: "--stdio",
            source: "typescript-language-server",
            languages: "'typescript', 'javascript'",
            settles: false,
            opens_files: true,
            gives_hints: true,
        },
        Enricher::JavaScript => Server {
            command: "typescript-language-server",
            args: "--stdio",
            source: "typescript-language-server",
            languages: "'javascript'",
            settles: false,
            opens_files: true,
            gives_hints: true,
        },
        Enricher::Svelte => Server {
            command: "svelteserver",
            args: "--stdio",
            source: "svelte-language-server",
            languages: "'svelte'",
            settles: false,
            opens_files: true,
            gives_hints: false,
        },
    }
}

/// Where a server may be that is not on the path: in the directories of package managers below
/// the home directory.
pub fn which_server(home: &str, name: &str) -> (r: Vec<String>)
    ensures
        views(r@) == Seq::<Seq<char>>::empty().push(home@ + "/.cache/.bun/bin/"@ + name@).push(
            home@ + "/.bun/bin/"@ + name@,
        ).push(home@ + "/.local/bin/"@ + name@),
{
    let mut out: Vec<String> = Vec::new();
    out.push(concat3(home, "/.cache/.bun/bin/", name));
    out.push(concat3(home, "/.bun/bin/", name));
    out.push(concat3(home, "/.local/bin/", name));
    out
}

/// The path that a URI of a file names.
pub fn uri_to_path(uri: &str) -> (r: String)
    ensures
        r@ == path_of_uri(uri@),
{
    crate::refactor::uri_to_path(uri)
}

/// A line as servers count them, from 0.
pub open spec fn line_from_zero(range_start: i64) -> u32 {
    #[verifier::truncate]
    ((if range_start < 1 {
        0int
    } else {
        range_start - 1
    }) as i64 as u32)
}

/// The line, counted from 0, that the hints on a function's result stand on. A line that is
/// none is cut to 32 bits.
pub open spec fn hint_line_of(range_start: i64) -> u32 {
    let line = #[verifier::truncate]
    (range_start as u32);
    if line == 0 {
        0
    } else {
        (line - 1) as u32
    }
}

/// The line that the hints on a function's result stand on.
pub fn hint_line(range_start: i64) -> (r: u32)
    ensures
        r == hint_line_of(range_start),
{
    let line: u32 = #[verifier::truncate]
    (range_start as u32);
    if line == 0 {
        0
    } else {
        line - 1
    }
}

/// A line as servers count them, from 0.
pub fn lsp_line(range_start: i64) -> (r: u32)
    ensures
        r == line_from_zero(range_start),
{
    let line: i64 = if range_start < 1 {
        0
    } else {
        range_start - 1
    };
    #[verifier::truncate]
    (line as u32)
}

/// The place of a function's name on its line; 3, as in `fn name`, where it is not found.
pub fn fn_name_char_offset(content: &Option<String>, range_start: i64, name: &str) -> (r: u32)
    ensures
        r == name_place(content.deep_view(), range_start as int, name@, true, 3),
{
    let line: u64 = if range_start < 1 {
        0
    } else {
        range_start as u64
    };
    place_of_name(content, line, name, true, 3)
}

// ---------------------------------------------------------------------------
// Enriching
// ---------------------------------------------------------------------------

/// A function that a server is asked about: the full path of its file, the line that it starts
/// on, and the text of its file, where it could be read.
#[derive(Debug)]
pub struct LspFn {
    pub id: i64,
    pub path: String,
    pub range_start: i64,
    pub name: String,
    pub signature: Option<String>,
    pub content: Option<String>,
}

/// What a [`LspFn`] holds.
#[verifier::ext_equal]
pub struct LspFnView {
    pub id: i64,
    pub path: Seq<char>,
    pub range_start: i64,
    pub name: Seq<char>,
    pub signature: Option<Seq<char>>,
    pub content: Option<Seq<char>>,
}

impl DeepView for LspFn {
    type V = LspFnView;

    open spec fn deep_view(&self) -> LspFnView {
        LspFnView {
            id: self.id.deep_view(),
            path: self.path.deep_view(),
            range_start: self.range_start.deep_view(),
            name: self.name.deep_view(),
            signature: self.signature.deep_view(),
            content: self.content.deep_view(),
        }
    }
}

impl View for LspFn {
    type V = LspFnView;

    open spec fn view(&self) -> LspFnView {
        self.deep_view()
    }
}

/// What is done with a server, step by step.
#[derive(Debug)]
pub enum Task {
    /// Greet it, with options for it.
    Initialize(Option<String>),
    /// Wait until it says that it has settled.
    Settle,
    /// Tell it of a file.
    Open { uri: String, language_id: String, text: String },
    /// Wait until it has said something of each of the files.
    AwaitFindings(Vec<String>),
    /// Ask it for the hints on a file.
    Hints(String),
    /// Ask it for the calls of a function.
    Calls { fn_id: i64, uri: String, line: u32, character: u32 },
    /// Take leave of it.
    Shutdown,
}

/// What a [`Task`] holds.
#[verifier::ext_equal]
pub enum TaskView {
    Initialize(Option<Seq<char>>),
    Settle,
    Open { uri: Seq<char>, language_id: Seq<char>, text: Seq<char> },
    AwaitFindings(Seq<Seq<char>>),
    Hints(Seq<char>),
    Calls { fn_id: i64, uri: Seq<char>, line: u32, character: u32 },
    Shutdown,
}

impl DeepView for Task {
    type V = TaskView;

    open spec fn deep_view(&self) -> TaskView {
        match self {
            Task::Initialize(o) => TaskView::Initialize(o.deep_view()),
            Task::Settle => TaskView::Settle,
            Task::Open { uri, language_id, text } => TaskView::Open {
                uri: uri@,
                language_id: language_id@,
                text: text@,
            },
            Task::AwaitFindings(uris) => TaskView::AwaitFindings(views(uris@)),
            Task::Hints(uri) => TaskView::Hints(uri@),
            Task::Calls { fn_id, uri, line, character } => TaskView::Calls {
                fn_id: *fn_id,
                uri: uri@,
                line: *line,
                character: *character,
            },
            Task::Shutdown => TaskView::Shutdown,
        }
    }
}

/// The URI of a file.
pub open spec fn file_uri(path: Seq<char>) -> Seq<char> {
    "file://"@ + path
}

/// The files of the first `n` functions, each once, in the order in which they first come.
pub open spec fn files_of(fns: Seq<LspFnView>, n: int) -> Seq<Seq<char>>
    decreases n,
{
    if n <= 0 {
        Seq::empty()
    } else {
        let rest = files_of(fns, n - 1);
        let uri = file_uri(fns[n - 1].path);
        if rest.contains(uri) {
            rest
        } else {
            rest.push(uri)
        }
    }
}

/// `tasks`, and telling the server of the files of the first `n` functions that could be read.
pub open spec fn with_opened(
    tasks: Seq<TaskView>,
    language_id: Seq<char>,
    fns: Seq<LspFnView>,
    n: int,
) -> Seq<TaskView>
    decreases n,
{
    if n <= 0 {
        tasks
    } else {
        let rest = with_opened(tasks, language_id, fns, n - 1);
        let uri = file_uri(fns[n - 1].path);
        match fns[n - 1].content {
            Some(text) => if files_of(fns, n - 1).contains(uri) {
                rest
            } else {
                rest.push(TaskView::Open { uri, language_id, text })
            },
            None => rest,
        }
    }
}

/// `tasks`, and asking for the hints on the first `n` files.
pub open spec fn with_hints(tasks: Seq<TaskView>, uris: Seq<Seq<char>>, n: int) -> Seq<TaskView>
    decreases n,
{
    if n <= 0 {
        tasks
    } else {
        with_hints(tasks, uris, n - 1).push(TaskView::Hints(uris[n - 1]))
    }
}

/// `tasks`, and asking for the calls of the first `n` functions.
pub open spec fn with_calls(tasks: Seq<TaskView>, fns: Seq<LspFnView>, n: int) -> Seq<TaskView>
    decreases n,
{
    if n <= 0 {
        tasks
    } else {
        let f = fns[n - 1];
        with_calls(tasks, fns, n - 1).push(
            TaskView::Calls {
                fn_id: f.id,
                uri: file_uri(f.path),
                line: line_from_zero(f.range_start),
                character: name_place(f.content, f.range_start as int, f.name, true, 3),
            },
        )
    }
}

/// The language that a server is told that files are in.
pub open spec fn language_id_of(e: Enricher) -> Seq<char> {
    match e {
        Enricher::Rust => "rust"@,
        Enricher::TypeScript => "typescript"@,
        Enricher::JavaScript => "javascript"@,
        Enricher::Svelte => "svelte"@,
    }
}

/// A server of TypeScript or JavaScript, which gives hints.
pub open spec fn hinting(e: Enricher) -> bool {
    e is TypeScript || e is JavaScript
}

/// What is done with a server about functions: rust-analyzer is waited for and asked for calls;
/// the others are told of the files first, and those that give hints are asked for them.
pub open spec fn plan_of(e: Enricher, fns: Seq<LspFnView>) -> Seq<TaskView> {
    let n = fns.len() as int;
    let options = if hinting(e) {
        Some(TYPESCRIPT_OPTIONS@)
    } else {
        None
    };
    let greeted = Seq::<TaskView>::empty().push(TaskView::Initialize(options));
    let ready = if e is Rust {
        greeted.push(TaskView::Settle)
    } else {
        with_opened(greeted, language_id_of(e), fns, n).push(
            TaskView::AwaitFindings(files_of(fns, n)),
        )
    };
    let hinted = if hinting(e) {
        with_hints(ready, files_of(fns, n), files_of(fns, n).len() as int)
    } else {
        ready
    };
    with_calls(hinted, fns, n).push(TaskView::Shutdown)
}

fn uri_of(path: &str) -> (r: String)
    ensures
        r@ == file_uri(path@),
{
    concat2("file://", path)
}

/// What is done with a server about functions, in order.
pub fn enrichment_plan(e: Enricher, fns: &Vec<LspFn>) -> (r: Vec<Task>)
    ensures
        views(r@) == plan_of(e, views(fns@)),
{
    let ghost fv = views(fns@);
    let about = server(e);
    let language_id = match e {
        Enricher::Rust => "rust",
        Enricher::TypeScript => "typescript",
        Enricher::JavaScript => "javascript",
        Enricher::Svelte => "svelte",
    };
    let options = if about.gives_hints {
        Some(TYPESCRIPT_OPTIONS.to_owned())
    } else {
        None
    };
    let mut tasks: Vec<Task> = Vec::new();
    tasks.push(Task::Initialize(options));
    let ghost greeted = views(tasks@);
    let mut uris: Vec<String> = Vec::new();
    if about.settles {
        tasks.push(Task::Settle);
    } else {
        let mut n: usize = 0;
        while n < fns.len()
            invariant
                fv == views(fns@),
                n <= fns@.len(),
                views(uris@) == files_of(fv, n as int),
                views(tasks@) == with_opened(greeted, language_id@, fv, n as int),
            decreases fns@.len() - n,
        {
            let f = &fns[n];
            assert(fv[n as int] == f@);
            let uri = uri_of(&f.path);
            if !list_has(&uris, &uri) {
                if let Some(text) = &f.content {
                    tasks.push(
                        Task::Open {
                            uri: uri.dup(),
                            language_id: language_id.to_owned(),
                            text: text.dup(),
                        },
                    );
                }
                uris.push(uri);
            }
            n = n + 1;
        }
        tasks.push(Task::AwaitFindings(dup_all(&uris)));
    }
    let ghost ready = views(tasks@);
    if about.gives_hints {
        let mut n: usize = 0;
        assert(views(uris@).len() == uris@.len());
        while n < uris.len()
            invariant
                n <= uris@.len(),
                views(tasks@) == with_hints(ready, views(uris@), n as int),
            decreases uris@.len() - n,
        {
            assert(views(uris@)[n as int] == uris@[n as int]@);
            tasks.push(Task::Hints(uris[n].dup()));
            n = n + 1;
        }
    }
    let ghost hinted = views(tasks@);
    let mut n: usize = 0;
    while n < fns.len()
        invariant
            fv == views(fns@),
            n <= fns@.len(),
            views(tasks@) == with_calls(hinted, fv, n as int),
        decreases fns@.len() - n,
    {
        let f = &fns[n];
        assert(fv[n as int] == f@);
        tasks.push(
            Task::Calls {
                fn_id: f.id,
                uri: uri_of(&f.path),
                line: lsp_line(f.range_start),
                character: fn_name_char_offset(&f.content, f.range_start, &f.name),
            },
        );
        n = n + 1;
    }
    tasks.push(Task::Shutdown);
    tasks
}

/// Whether nothing is stored where the step fails: only what a server says that was greeted,
/// that settled, and that took leave is relied on.
pub fn is_needed(task: &Task) -> (r: bool)
    ensures
        r == (task.deep_view() is Initialize || task.deep_view() is Settle
            || task.deep_view() is Shutdown),
{
    match task {
        Task::Initialize(_) => true,
        Task::Settle => true,
        Task::Shutdown => true,
        _ => false,
    }
}

/// The hints that a server gave on a file.
pub struct FileHints {
    pub uri: String,
    pub hints: Vec<Json>,
}

/// What a [`FileHints`] holds.
#[verifier::ext_equal]
pub struct FileHintsView {
    pub uri: Seq<char>,
    pub hints: Seq<JsonView>,
}

impl DeepView for FileHints {
    type V = FileHintsView;

    open spec fn deep_view(&self) -> FileHintsView {
        FileHintsView { uri: self.uri@, hints: views(self.hints@) }
    }
}

/// What is stored of what a server said: edges with their types, and signatures.
pub struct Enrichment {
    pub edges: Vec<(i64, i64, &'static str)>,
    pub signatures: Vec<(i64, String)>,
    pub with_edges: usize,
    pub timeouts: usize,
}

/// Each of the first `n` edges, with a type.
pub open spec fn typed(
    out: Seq<(i64, i64, &'static str)>,
    edges: Seq<(i64, i64)>,
    kind: &'static str,
    n: int,
) -> Seq<(i64, i64, &'static str)>
    decreases n,
{
    if n <= 0 {
        out
    } else {
        typed(out, edges, kind, n - 1).push((edges[n - 1].0, edges[n - 1].1, kind))
    }
}

/// The functions as their signatures are looked at.
pub open spec fn signed(fns: Seq<LspFnView>) -> Seq<FnSignatureView> {
    Seq::new(
        fns.len(),
        |i: int|
            FnSignatureView {
                id: fns[i].id,
                uri: file_uri(fns[i].path),
                line: hint_line_of(fns[i].range_start),
                signature: fns[i].signature,
            },
    )
}

/// The signatures that the hints on the first `n` files give.
pub open spec fn hinted_signatures(
    fns: Seq<FnSignatureView>,
    files: Seq<FileHintsView>,
    n: int,
) -> Seq<(i64, Seq<char>)>
    decreases n,
{
    if n <= 0 {
        Seq::empty()
    } else {
        with_signatures(
            hinted_signatures(fns, files, n - 1),
            fns,
            files[n - 1].uri,
            files[n - 1].hints,
            fns.len() as int,
        )
    }
}

/// What is stored of what a server said of functions: the calls that lead to symbols of the
/// code graph, the signatures that its hints complete, and, for Rust, the traits that
/// implementations are of.
pub fn enrichment(
    e: Enricher,
    fns: &Vec<LspFn>,
    files: &Vec<FileHints>,
    calls: &Vec<FnCalls>,
    index: &Vec<PathLine>,
    symbols: &Vec<NamedSymbol>,
) -> (r: Enrichment)
    ensures
        ({
            let trusted = trusted_edges(views(calls@), views(index@), calls@.len() as int);
            let impls = impl_edges(views(symbols@), symbols@.len() as int);
            let called = typed(Seq::empty(), trusted, CALLS_TRUSTED, trusted.len() as int);
            r.edges@ == if e is Rust {
                typed(called, impls, TRAIT_IMPL, impls.len() as int)
            } else {
                called
            }
        }),
        views(r.signatures@) == if hinting(e) {
            hinted_signatures(signed(views(fns@)), views(files@), files@.len() as int)
        } else {
            Seq::empty()
        },
        r.with_edges == calling(views(calls@), calls@.len() as int),
        r.timeouts == timed_out(views(calls@), calls@.len() as int),
{
    let report = collect_calls(calls, index);
    let mut edges: Vec<(i64, i64, &'static str)> = Vec::new();
    add_typed(&mut edges, &report.edges, CALLS_TRUSTED);
    if matches!(e, Enricher::Rust) {
        let impls = trait_impl_edges(symbols);
        add_typed(&mut edges, &impls, TRAIT_IMPL);
    }
    let mut signatures: Vec<(i64, String)> = Vec::new();
    if server(e).gives_hints {
        let own = sign(fns);
        let mut n: usize = 0;
        while n < files.len()
            invariant
                n <= files@.len(),
                views(own@) == signed(views(fns@)),
                views(signatures@) == hinted_signatures(
                    signed(views(fns@)),
                    views(files@),
                    n as int,
                ),
            decreases files@.len() - n,
        {
            assert(views(files@)[n as int] == files@[n as int].deep_view());
            assert(views(own@).len() == own@.len());
            signature_updates(&own, &files[n].uri, &files[n].hints, &mut signatures);
            n = n + 1;
        }
    }
    Enrichment { edges, signatures, with_edges: report.with_edges, timeouts: report.timeouts }
}

fn sign(fns: &Vec<LspFn>) -> (r: Vec<FnSignature>)
    ensures
        views(r@) == signed(views(fns@)),
{
    let ghost fv = views(fns@);
    let mut out: Vec<FnSignature> = Vec::new();
    let mut n: usize = 0;
    while n < fns.len()
        invariant
            fv == views(fns@),
            fv.len() == fns@.len(),
            n <= fns@.len(),
            views(out@) =~= signed(fv).take(n as int),
        decreases fns@.len() - n,
    {
        let f = &fns[n];
        assert(fv[n as int] == f@);
        out.push(
            FnSignature {
                id: f.id,
                uri: uri_of(&f.path),
                line: hint_line(f.range_start),
                signature: f.signature.dup(),
            },
        );
        n = n + 1;
    }
    assert(signed(fv).take(n as int) =~= signed(fv));
    out
}

fn add_typed(out: &mut Vec<(i64, i64, &'static str)>, edges: &Vec<(i64, i64)>, kind: &'static str)
    ensures
        final(out)@ == typed(old(out)@, edges@, kind, edges@.len() as int),
{
    let ghost start = out@;
    let mut n: usize = 0;
    while n < edges.len()
        invariant
            n <= edges@.len(),
            out@ == typed(start, edges@, kind, n as int),
        decreases edges@.len() - n,
    {
        let (from, to): (i64, i64) = edges[n];
        out.push((from, to, kind));
        n = n + 1;
    }
}

proof fn opened_come_later(tasks: Seq<TaskView>, id: Seq<char>, fns: Seq<LspFnView>, n: int)
    requires
        n >= 0,
        tasks.len() > 0,
    ensures
        with_opened(tasks, id, fns, n).len() >= tasks.len(),
        with_opened(tasks, id, fns, n)[0] == tasks[0],
    decreases n,
{
    if n > 0 {
        opened_come_later(tasks, id, fns, n - 1);
    }
}

/// The task asks for the calls of the function.
pub open spec fn asks_about(task: TaskView, id: i64) -> bool {
    task matches TaskView::Calls { fn_id, .. } && fn_id == id
}

proof fn hints_come_later(tasks: Seq<TaskView>, uris: Seq<Seq<char>>, n: int)
    requires
        n >= 0,
        tasks.len() > 0,
    ensures
        with_hints(tasks, uris, n).len() == tasks.len() + n,
        with_hints(tasks, uris, n)[0] == tasks[0],
    decreases n,
{
    if n > 0 {
        hints_come_later(tasks, uris, n - 1);
    }
}

proof fn calls_come_later(tasks: Seq<TaskView>, fns: Seq<LspFnView>, n: int)
    requires
        n >= 0,
        tasks.len() > 0,
    ensures
        with_calls(tasks, fns, n).len() == tasks.len() + n,
        with_calls(tasks, fns, n)[0] == tasks[0],
        forall|i: int|
            #![trigger fns[i]]
            0 <= i < n ==> asks_about(with_calls(tasks, fns, n)[tasks.len() + i], fns[i].id),
    decreases n,
{
    if n > 0 {
        calls_come_later(tasks, fns, n - 1);
    }
}

/// The server is greeted first. Every function is asked about, in the order in which they
/// come, right before leave is taken, which is the last thing that is done.
pub proof fn every_function_is_asked_about(e: Enricher, fns: Seq<LspFnView>)
    ensures
        plan_of(e, fns).len() >= fns.len() + 2,
        plan_of(e, fns)[0] is Initialize,
        plan_of(e, fns).last() is Shutdown,
        forall|i: int|
            #![trigger fns[i]]
            0 <= i < fns.len() ==> asks_about(
                plan_of(e, fns)[plan_of(e, fns).len() - 1 - fns.len() + i],
                fns[i].id,
            ),
{
    let n = fns.len() as int;
    let options = if hinting(e) {
        Some(TYPESCRIPT_OPTIONS@)
    } else {
        None
    };
    let greeted = Seq::<TaskView>::empty().push(TaskView::Initialize(options));
    opened_come_later(greeted, language_id_of(e), fns, n);
    let ready = if e is Rust {
        greeted.push(TaskView::Settle)
    } else {
        with_opened(greeted, language_id_of(e), fns, n).push(
            TaskView::AwaitFindings(files_of(fns, n)),
        )
    };
    hints_come_later(ready, files_of(fns, n), files_of(fns, n).len() as int);
    let hinted = if hinting(e) {
        with_hints(ready, files_of(fns, n), files_of(fns, n).len() as int)
    } else {
        ready
    };
    calls_come_later(hinted, fns, n);
    assert forall|i: int|
        #![trigger fns[i]]
        0 <= i < fns.len() implies asks_about(
        plan_of(e, fns)[plan_of(e, fns).len() - 1 - fns.len() + i],
        fns[i].id,
    ) by {
        assert(plan_of(e, fns)[hinted.len() + i] == with_calls(hinted, fns, n)[hinted.len() + i]);
    }
}

// ---------------------------------------------------------------------------
// Laws
// ---------------------------------------------------------------------------

/// What names a method and an identity asks this side; what names a method alone tells it
/// something. What names no method answers the request with its identity, with an error where
/// it holds one.
pub proof fn messages_are_told_apart(msg: JsonView, id: int)
    ensures
        incoming_of(msg, id) is ServerRequest <==> has_field(msg, "method"@) && has_field(
            msg,
            "id"@,
        ),
        incoming_of(msg, id) is Notification <==> has_field(msg, "method"@) && !has_field(
            msg,
            "id"@,
        ),
        incoming_of(msg, id) is Failure <==> !has_field(msg, "method"@) && u64_in(
            field_of(msg, "id"@),
        ) == Some(id) && has_field(msg, "error"@),
        incoming_of(msg, id) is Answer <==> !has_field(msg, "method"@) && u64_in(
            field_of(msg, "id"@),
        ) == Some(id) && !has_field(msg, "error"@),
{
}

/// Every call of a function with a name and an address is listed, in order, and no other.
pub proof fn named_targets_are_listed(calls: Seq<JsonView>, n: int)
    requires
        0 <= n <= calls.len(),
    ensures
        targets_in(calls, n).map_values(|t: LspCallTargetView| (t.name, t.uri)) == calls.take(
            n,
        ).filter(
            |c: JsonView|
                (text_in(field_of(field_of(c, "to"@), "name"@)) matches Some(name) && name.len() > 0)
                    && (text_in(field_of(field_of(c, "to"@), "uri"@)) matches Some(uri) && uri.len()
                    > 0),
        ).map_values(
            |c: JsonView|
                (
                    text_in(field_of(field_of(c, "to"@), "name"@))->0,
                    text_in(field_of(field_of(c, "to"@), "uri"@))->0,
                ),
        ),
    decreases n,
{
    reveal(Seq::filter);
    reveal_strlit("");
    let show = |t: LspCallTargetView| (t.name, t.uri);
    let named = |c: JsonView|
        (text_in(field_of(field_of(c, "to"@), "name"@)) matches Some(name) && name.len() > 0) && (
        text_in(field_of(field_of(c, "to"@), "uri"@)) matches Some(uri) && uri.len() > 0);
    let pick = |c: JsonView|
        (
            text_in(field_of(field_of(c, "to"@), "name"@))->0,
            text_in(field_of(field_of(c, "to"@), "uri"@))->0,
        );
    if n > 0 {
        named_targets_are_listed(calls, n - 1);
        assert(calls.take(n).drop_last() =~= calls.take(n - 1));
        assert(calls.take(n).last() == calls[n - 1]);
        let before = calls.take(n - 1).filter(named);
        if named(calls[n - 1]) {
            assert(before.push(calls[n - 1]).map_values(pick) =~= before.map_values(pick).push(
                pick(calls[n - 1]),
            ));
            assert(targets_in(calls, n).map_values(show) =~= targets_in(calls, n - 1).map_values(
                show,
            ).push(pick(calls[n - 1])));
        }
    } else {
        assert(calls.take(0) =~= Seq::empty());
        assert(targets_in(calls, n).map_values(show) =~= calls.take(n).filter(named).map_values(
            pick,
        ));
    }
}

/// A called function stands on the line on which its range starts, and on the first where the
/// server gives none.
pub proof fn targets_stand_where_they_start(call: JsonView)
    requires
        target_in(call) is Some,
    ensures
        ({
            let start = field_of(field_of(field_of(call, "to"@), "range"@), "start"@);
            &&& u64_in(field_of(start, "line"@)) matches Some(n) ==> (0 <= n <= u32::MAX ==> (
            target_in(call)->0).line == n)
            &&& u64_in(field_of(start, "line"@)) is None ==> (target_in(call)->0).line == 0
        }),
{
}

/// The symbol at a place is the last that the index has there; there is none where the index
/// has nothing on that line of that file.
pub proof fn last_symbol_of_a_place_counts(
    index: Seq<PathLineView>,
    path: Seq<char>,
    line: int,
    n: int,
)
    requires
        0 <= n <= index.len(),
    ensures
        symbol_at(index, path, line, n) is None <==> forall|i: int|
            0 <= i < n ==> (#[trigger] index[i]).path != path || index[i].line != line,
        symbol_at(index, path, line, n) matches Some(id) ==> exists|i: int|
            0 <= i < n && (#[trigger] index[i]).path == path && index[i].line == line
                && index[i].id == id && forall|j: int|
                i < j < n ==> (#[trigger] index[j]).path != path || index[j].line != line,
    decreases n,
{
    if n > 0 {
        last_symbol_of_a_place_counts(index, path, line, n - 1);
        if index[n - 1].path == path && index[n - 1].line == line {
            assert(index[n - 1].id == symbol_at(index, path, line, n)->0);
        }
    }
}

/// The server says that the `i`th function calls the `k`th of its targets.
pub open spec fn is_target(calls: Seq<FnCallsView>, i: int, k: int, t: LspCallTargetView) -> bool {
    calls[i].outcome matches CallOutcomeView::Targets(all) && 0 <= k < all.len() && all[k] == t
}

proof fn targets_add_edges(
    edges: Seq<(i64, i64)>,
    fn_id: i64,
    targets: Seq<LspCallTargetView>,
    index: Seq<PathLineView>,
    k: int,
    e: (i64, i64),
)
    requires
        0 <= k <= targets.len(),
    ensures
        with_targets(edges, fn_id, targets, index, k).contains(e) <==> edges.contains(e) || (e.0
            == fn_id && exists|j: int|
            0 <= j < k && symbol_at(
                index,
                path_of_uri((#[trigger] targets[j]).uri),
                targets[j].line + 1,
                index.len() as int,
            ) == Some(e.1)),
    decreases k,
{
    if k > 0 {
        targets_add_edges(edges, fn_id, targets, index, k - 1, e);
        let rest = with_targets(edges, fn_id, targets, index, k - 1);
        let all = with_targets(edges, fn_id, targets, index, k);
        let t = targets[k - 1];
        match symbol_at(index, path_of_uri(t.uri), t.line + 1, index.len() as int) {
            Some(to) => {
                assert(all == rest.push((fn_id, to)));
                if rest.contains(e) {
                    let j = choose|j: int| 0 <= j < rest.len() && rest[j] == e;
                    assert(all[j] == e);
                }
                if e == (fn_id, to) {
                    assert(all[rest.len() as int] == e);
                }
                if all.contains(e) {
                    let j = choose|j: int| 0 <= j < all.len() && all[j] == e;
                    assert(j < rest.len() ==> rest[j] == e);
                }
            },
            None => {},
        }
    }
}

/// A function is joined to another exactly where the server says that it calls something that
/// starts, lines counted from 0, where the index has the other, lines counted from 1.
pub proof fn calls_are_joined(calls: Seq<FnCallsView>, index: Seq<PathLineView>, n: int, e: (i64, i64))
    requires
        0 <= n <= calls.len(),
    ensures
        trusted_edges(calls, index, n).contains(e) <==> exists|i: int, k: int, t: LspCallTargetView|
            0 <= i < n && #[trigger] is_target(calls, i, k, t) && calls[i].fn_id == e.0
                && symbol_at(index, path_of_uri(t.uri), t.line + 1, index.len() as int) == Some(e.1),
    decreases n,
{
    if n > 0 {
        calls_are_joined(calls, index, n - 1, e);
        let c = calls[n - 1];
        let rest = trusted_edges(calls, index, n - 1);
        match c.outcome {
            CallOutcomeView::Targets(t) => {
                targets_add_edges(rest, c.fn_id, t, index, t.len() as int, e);
                if e.0 == c.fn_id && exists|j: int|
                    0 <= j < t.len() && symbol_at(
                        index,
                        path_of_uri((#[trigger] t[j]).uri),
                        t[j].line + 1,
                        index.len() as int,
                    ) == Some(e.1) {
                    let j = choose|j: int|
                        0 <= j < t.len() && symbol_at(
                            index,
                            path_of_uri((#[trigger] t[j]).uri),
                            t[j].line + 1,
                            index.len() as int,
                        ) == Some(e.1);
                    assert(is_target(calls, n - 1, j, t[j]));
                }
                if exists|k: int, x: LspCallTargetView| #[trigger]
                    is_target(calls, n - 1, k, x) && c.fn_id == e.0 && symbol_at(
                        index,
                        path_of_uri(x.uri),
                        x.line + 1,
                        index.len() as int,
                    ) == Some(e.1) {
                    let (k, x) = choose|k: int, x: LspCallTargetView| #[trigger]
                        is_target(calls, n - 1, k, x) && c.fn_id == e.0 && symbol_at(
                            index,
                            path_of_uri(x.uri),
                            x.line + 1,
                            index.len() as int,
                        ) == Some(e.1);
                    assert(t[k] == x);
                }
            },
            _ => {},
        }
    }
}

/// The functions with calls, and those that the server gave no answer on in time, are counted.
pub proof fn answers_are_counted(calls: Seq<FnCallsView>, n: int)
    requires
        0 <= n <= calls.len(),
    ensures
        calling(calls, n) == calls.take(n).filter(
            |c: FnCallsView|
                c.outcome is Targets && c.outcome != CallOutcomeView::Targets(Seq::empty()),
        ).len(),
        timed_out(calls, n) == calls.take(n).filter(
            |c: FnCallsView| c.outcome is TimedOut,
        ).len(),
    decreases n,
{
    reveal(Seq::filter);
    if n > 0 {
        answers_are_counted(calls, n - 1);
        assert(calls.take(n).drop_last() =~= calls.take(n - 1));
        assert(calls.take(n).last() == calls[n - 1]);
        if let CallOutcomeView::Targets(t) = calls[n - 1].outcome {
            assert(t.len() == 0 ==> t =~= Seq::empty());
        }
    }
}

proof fn traits_add_edges(
    edges: Seq<(i64, i64)>,
    symbol: NamedSymbolView,
    symbols: Seq<NamedSymbolView>,
    k: int,
    e: (i64, i64),
)
    requires
        0 <= k <= symbols.len(),
    ensures
        with_traits(edges, symbol, symbols, k).contains(e) <==> edges.contains(e) || (e.0
            == symbol.id && exists|j: int|
            0 <= j < k && (#[trigger] symbols[j]).kind == "trait"@ && symbols[j].name == symbol.name
                && symbols[j].id == e.1),
    decreases k,
{
    if k > 0 {
        traits_add_edges(edges, symbol, symbols, k - 1, e);
        let rest = with_traits(edges, symbol, symbols, k - 1);
        let all = with_traits(edges, symbol, symbols, k);
        let x = (symbol.id, symbols[k - 1].id);
        if symbols[k - 1].kind == "trait"@ && symbols[k - 1].name == symbol.name {
            assert(all == rest.push(x));
            if rest.contains(e) {
                let j = choose|j: int| 0 <= j < rest.len() && rest[j] == e;
                assert(all[j] == e);
            }
            if e == x {
                assert(all[rest.len() as int] == e);
            }
            if all.contains(e) {
                let j = choose|j: int| 0 <= j < all.len() && all[j] == e;
                assert(j < rest.len() ==> rest[j] == e);
            }
        }
    }
}

/// A symbol is joined to another exactly where the first is an implementation, the second a
/// trait, and both have one name.
pub proof fn implementations_are_joined_to_traits(
    symbols: Seq<NamedSymbolView>,
    n: int,
    e: (i64, i64),
)
    requires
        0 <= n <= symbols.len(),
    ensures
        impl_edges(symbols, n).contains(e) <==> exists|i: int, j: int|
            0 <= i < n && 0 <= j < symbols.len() && (#[trigger] symbols[i]).kind == "impl"@ && (
            #[trigger] symbols[j]).kind == "trait"@ && symbols[i].name == symbols[j].name
                && symbols[i].id == e.0 && symbols[j].id == e.1,
    decreases n,
{
    if n > 0 {
        implementations_are_joined_to_traits(symbols, n - 1, e);
        if symbols[n - 1].kind == "impl"@ {
            traits_add_edges(
                impl_edges(symbols, n - 1),
                symbols[n - 1],
                symbols,
                symbols.len() as int,
                e,
            );
        }
    }
}

/// A label that is a text is that text; one in parts is what its parts say, one after the other.
pub proof fn labels_are_their_parts(a: Seq<JsonView>, part: JsonView, text: Seq<char>)
    ensures
        label_of(JsonView::Str(text)) == text,
        label_of(JsonView::Arr(Seq::empty())) == Seq::<char>::empty(),
        text_in(field_of(part, "value"@)) == Some(text) ==> label_of(JsonView::Arr(a.push(part)))
            == label_of(JsonView::Arr(a)) + text,
        text_in(field_of(part, "value"@)) is None ==> label_of(JsonView::Arr(a.push(part)))
            == label_of(JsonView::Arr(a)),
{
    parts_of_start(a, part, a.len() as int);
    assert(label_parts(a.push(part), a.len() as int) == label_parts(a, a.len() as int));
}

proof fn parts_of_start(a: Seq<JsonView>, part: JsonView, n: int)
    requires
        0 <= n <= a.len(),
    ensures
        label_parts(a.push(part), n) == label_parts(a, n),
    decreases n,
{
    if n > 0 {
        parts_of_start(a, part, n - 1);
    }
}

/// How many more brackets open than close among the characters.
pub open spec fn nesting(s: Seq<char>) -> int {
    s.filter(|c: char| c == '(').len() - s.filter(|c: char| c == ')').len()
}

proof fn one_more(s: Seq<char>, from: int, to: int)
    requires
        0 <= from <= to < s.len(),
    ensures
        nesting(s.subrange(from, to + 1)) == nesting(s.subrange(from, to)) + if s[to] == '(' {
            1int
        } else if s[to] == ')' {
            -1int
        } else {
            0int
        },
{
    reveal(Seq::filter);
    assert(s.subrange(from, to + 1).drop_last() =~= s.subrange(from, to));
    assert(s.subrange(from, to + 1).last() == s[to]);
}

proof fn closes_from(s: Seq<char>, from: int, i: int, depth: int)
    requires
        0 <= from < i <= s.len(),
        depth == nesting(s.subrange(from, i)),
        depth >= 1,
    ensures
        list_closes(s, i, depth) is None ==> forall|j: int|
            i <= j <= s.len() ==> nesting(#[trigger] s.subrange(from, j)) >= 1,
        list_closes(s, i, depth) matches Some(k) ==> i <= k < s.len() && s[k] == ')' && nesting(
            s.subrange(from, k + 1),
        ) == 0 && forall|j: int| i <= j <= k ==> nesting(#[trigger] s.subrange(from, j)) >= 1,
    decreases s.len() - i,
{
    if i < s.len() {
        one_more(s, from, i);
        if !(s[i] == ')' && depth <= 1) {
            let next = nesting(s.subrange(from, i + 1));
            closes_from(s, from, i + 1, next);
            assert(list_closes(s, i, depth) == list_closes(s, i + 1, next));
        } else {
            assert(list_closes(s, i, depth) == Some(i));
        }
    }
}

/// A list of parameters ends at the first place where as many brackets have closed as opened
/// since it began; where there is none, it does not end.
pub proof fn lists_end_where_brackets_balance(s: Seq<char>, from: int)
    requires
        0 <= from < s.len(),
        s[from] == '(',
    ensures
        list_closes(s, from, 0) is None ==> forall|j: int|
            from < j <= s.len() ==> nesting(#[trigger] s.subrange(from, j)) >= 1,
        list_closes(s, from, 0) matches Some(k) ==> from < k < s.len() && s[k] == ')' && nesting(
            s.subrange(from, k + 1),
        ) == 0 && forall|j: int| from < j <= k ==> nesting(#[trigger] s.subrange(from, j)) >= 1,
{
    reveal(Seq::filter);
    one_more(s, from, from);
    assert(s.subrange(from, from) =~= Seq::empty());
    closes_from(s, from, from + 1, 1);
    assert(list_closes(s, from, 0) == list_closes(s, from + 1, 1));
}

proof fn opens_after(s: Seq<char>, i: int, k: int)
    requires
        0 <= i <= k < s.len(),
        s[k] == '(',
        forall|j: int| i <= j < k ==> s[j] != '(' && s[j] != '<',
    ensures
        list_opens(s, i, 0) == Some(k),
    decreases k - i,
{
    if i < k {
        opens_after(s, i + 1, k);
        assert(s[i] != '(');
    }
}

proof fn generics_are_passed(s: Seq<char>, i: int, k: int)
    requires
        0 < i <= k < s.len(),
        s[k] == '>',
        s[k - 1] != '=',
        forall|j: int|
            i <= j < k ==> s[j] != '<' && (#[trigger] s[j] == '>' ==> s[j - 1] == '='),
    ensures
        list_opens(s, i, 1) == list_opens(s, k + 1, 0),
    decreases k - i,
{
    if i < k {
        generics_are_passed(s, i + 1, k);
        assert(s[i] != '<');
    }
}

/// The list of parameters of a signature opens at its first bracket, where no type parameters
/// stand before it.
pub proof fn parameters_open_at_the_first_bracket(sig: Seq<char>, k: int)
    requires
        0 <= k < sig.len(),
        sig[k] == '(',
        forall|j: int| 0 <= j < k ==> sig[j] != '(' && sig[j] != '<',
    ensures
        list_opens(sig, 0, 0) == Some(k),
{
    opens_after(sig, 0, k);
}

/// Brackets among the type parameters open no list of parameters, and the arrow of a function
/// type does not end the type parameters.
pub proof fn type_parameters_are_passed_over(sig: Seq<char>, a: int, b: int, k: int)
    requires
        0 <= a < b < k < sig.len(),
        sig[a] == '<',
        sig[b] == '>',
        sig[b - 1] != '=',
        sig[k] == '(',
        forall|j: int| 0 <= j < a ==> sig[j] != '(' && sig[j] != '<',
        forall|j: int|
            a < j < b ==> sig[j] != '<' && (#[trigger] sig[j] == '>' ==> sig[j - 1] == '='),
        forall|j: int| b < j < k ==> sig[j] != '(' && sig[j] != '<',
    ensures
        list_opens(sig, 0, 0) == Some(k),
{
    opens_after(sig, b + 1, k);
    generics_are_passed(sig, a + 1, b);
    assert(list_opens(sig, a, 0) == list_opens(sig, a + 1, 1));
    reaches_generics(sig, 0, a);
}

proof fn reaches_generics(s: Seq<char>, i: int, k: int)
    requires
        0 <= i <= k < s.len(),
        forall|j: int| i <= j < k ==> s[j] != '(' && s[j] != '<',
    ensures
        list_opens(s, i, 0) == list_opens(s, k, 0),
    decreases k - i,
{
    if i < k {
        reaches_generics(s, i + 1, k);
        assert(s[i] != '(');
    }
}

/// A signature says its return type exactly where a colon follows its list of parameters,
/// blanks aside.
pub proof fn return_types_follow_the_parameters(sig: Seq<char>, from: int, k: int)
    requires
        list_opens(sig, 0, 0) == Some(from),
        list_closes(sig, from, 0) == Some(k),
    ensures
        says_return_type(sig) <==> begins_with(trimmed_start(sig.skip(k + 1)), ":"@),
{
}

/// Where its list of parameters does not open or does not end, a signature says no return type.
pub proof fn open_signatures_say_no_type(sig: Seq<char>)
    ensures
        list_opens(sig, 0, 0) is None ==> !says_return_type(sig),
        list_opens(sig, 0, 0) matches Some(from) ==> list_closes(sig, from, 0) is None
            ==> !says_return_type(sig),
{
}

/// The hint on a line is the furthest to the right among those on types, the last of those as
/// far; there is one wherever a hint on a type stands on the line.
pub proof fn furthest_hint_counts(hints: Seq<JsonView>, line: int, n: int)
    requires
        0 <= n <= hints.len(),
    ensures
        furthest_hint(hints, line, n) is None <==> forall|i: int|
            0 <= i < n ==> u64_in(field_of(#[trigger] hints[i], "kind"@)) != Some(1int) || u64_in(
                field_of(field_of(hints[i], "position"@), "line"@),
            ) != Some(line),
        furthest_hint(hints, line, n) matches Some(b) ==> 0 <= b < n && u64_in(
            field_of(hints[b], "kind"@),
        ) == Some(1int) && u64_in(field_of(field_of(hints[b], "position"@), "line"@)) == Some(line)
            && forall|i: int|
            0 <= i < n && u64_in(field_of(#[trigger] hints[i], "kind"@)) == Some(1int) && u64_in(
                field_of(field_of(hints[i], "position"@), "line"@),
            ) == Some(line) ==> hint_column(hints[i]) <= hint_column(hints[b]) && (i > b
                ==> hint_column(hints[i]) < hint_column(hints[b])),
    decreases n,
{
    if n > 0 {
        furthest_hint_counts(hints, line, n - 1);
    }
}

/// A hint stands at the column that the server gives, and at the start of the line where it
/// gives none.
pub proof fn hints_have_columns(hint: JsonView)
    ensures
        u64_in(field_of(field_of(hint, "position"@), "character"@)) matches Some(c) ==> hint_column(
            hint,
        ) == c,
        u64_in(field_of(field_of(hint, "position"@), "character"@)) is None ==> hint_column(hint)
            == 0,
{
}

/// What a line is hinted at is the label of the hint that counts there, where it says anything.
pub proof fn hints_say_types(hints: Seq<JsonView>, line: int, i: int)
    requires
        furthest_hint(hints, line, hints.len() as int) == Some(i),
    ensures
        label_of(field_of(hints[i], "label"@)).len() > 0 ==> hinted_type(hints, line) == Some(
            label_of(field_of(hints[i], "label"@)),
        ),
        label_of(field_of(hints[i], "label"@)).len() == 0 ==> hinted_type(hints, line) is None,
{
}

/// A type is shown without blanks and colons around it; of a long one the first 120 characters
/// are shown, and a sign that there are more.
pub proof fn long_types_are_cut(hint: Seq<char>)
    ensures
        ({
            let t = trimmed(trimmed_of(trimmed(hint), ":"@));
            &&& t.len() <= 120 ==> shown_type(hint) == t
            &&& t.len() > 120 ==> shown_type(hint).len() == 121 && shown_type(hint).take(120)
                == t.take(120) && shown_type(hint).last() == '…'
        }),
{
    reveal_strlit("…");
    let t = trimmed(trimmed_of(trimmed(hint), ":"@));
    if t.len() > 120 {
        assert(shown_type(hint).take(120) =~= t.take(120));
    }
}

/// A signature is completed exactly where there is one, it says no return type and a hint
/// stands on its line; what the hint says is added behind a colon.
pub proof fn hints_complete_signatures(f: FnSignatureView, hints: Seq<JsonView>, sig: Seq<char>)
    ensures
        enriched(f, hints) == Some(sig) <==> f.signature is Some && !says_return_type(
            f.signature->0,
        ) && hinted_type(hints, f.line as int) is Some && sig == f.signature->0 + ": "@
            + shown_type(hinted_type(hints, f.line as int)->0),
{
}

/// The signatures that the hints on a file complete are added, of the functions in that file
/// and of no others.
pub proof fn completed_signatures_are_added(
    out: Seq<(i64, Seq<char>)>,
    fns: Seq<FnSignatureView>,
    uri: Seq<char>,
    hints: Seq<JsonView>,
    k: int,
    x: (i64, Seq<char>),
)
    requires
        0 <= k <= fns.len(),
    ensures
        with_signatures(out, fns, uri, hints, k).contains(x) <==> out.contains(x) || exists|i: int|
            0 <= i < k && (#[trigger] fns[i]).uri == uri && fns[i].id == x.0 && enriched(
                fns[i],
                hints,
            ) == Some(x.1),
    decreases k,
{
    if k > 0 {
        completed_signatures_are_added(out, fns, uri, hints, k - 1, x);
        let rest = with_signatures(out, fns, uri, hints, k - 1);
        let all = with_signatures(out, fns, uri, hints, k);
        if fns[k - 1].uri == uri && enriched(fns[k - 1], hints) is Some {
            let y = (fns[k - 1].id, enriched(fns[k - 1], hints)->0);
            assert(all == rest.push(y));
            if rest.contains(x) {
                let j = choose|j: int| 0 <= j < rest.len() && rest[j] == x;
                assert(all[j] == x);
            }
            if x == y {
                assert(all[rest.len() as int] == x);
            }
            if all.contains(x) {
                let j = choose|j: int| 0 <= j < all.len() && all[j] == x;
                assert(j < rest.len() ==> rest[j] == x);
            }
        }
    }
}

/// Over all files, the signatures that the hints on each file complete are added.
pub proof fn hints_on_all_files_count(
    fns: Seq<FnSignatureView>,
    files: Seq<FileHintsView>,
    n: int,
    x: (i64, Seq<char>),
)
    requires
        0 <= n <= files.len(),
    ensures
        hinted_signatures(fns, files, n).contains(x) <==> exists|f: int, i: int|
            0 <= f < n && 0 <= i < fns.len() && (#[trigger] fns[i]).uri == (#[trigger] files[f]).uri
                && fns[i].id == x.0 && enriched(fns[i], files[f].hints) == Some(x.1),
    decreases n,
{
    if n > 0 {
        hints_on_all_files_count(fns, files, n - 1, x);
        completed_signatures_are_added(
            hinted_signatures(fns, files, n - 1),
            fns,
            files[n - 1].uri,
            files[n - 1].hints,
            fns.len() as int,
            x,
        );
    }
}

/// Servers count lines from 0, the code graph from 1.
pub proof fn lines_count_from_zero(range_start: i64)
    ensures
        1 <= range_start <= u32::MAX ==> line_from_zero(range_start) == range_start - 1
            && hint_line_of(range_start) == range_start - 1,
        range_start == 0 ==> line_from_zero(range_start) == 0 && hint_line_of(range_start) == 0,
        range_start < 0 ==> line_from_zero(range_start) == 0,
{
    assert(0 <= range_start <= u32::MAX ==> range_start as u32 == range_start);
}

/// The functions lie in the files that are named, each named once.
pub proof fn files_are_named_once(fns: Seq<LspFnView>, n: int)
    requires
        0 <= n <= fns.len(),
    ensures
        files_of(fns, n).no_duplicates(),
        forall|i: int|
            0 <= i < n ==> files_of(fns, n).contains("file://"@ + (#[trigger] fns[i]).path),
        forall|k: int|
            0 <= k < files_of(fns, n).len() ==> exists|i: int|
                0 <= i < n && #[trigger] files_of(fns, n)[k] == "file://"@ + (
                #[trigger] fns[i]).path,
    decreases n,
{
    if n > 0 {
        files_are_named_once(fns, n - 1);
        let rest = files_of(fns, n - 1);
        let uri = "file://"@ + fns[n - 1].path;
        if !rest.contains(uri) {
            assert forall|i: int| 0 <= i < n implies files_of(fns, n).contains(
                "file://"@ + (#[trigger] fns[i]).path,
            ) by {
                if i < n - 1 {
                    let u = "file://"@ + fns[i].path;
                    let j = choose|j: int| 0 <= j < rest.len() && rest[j] == u;
                    assert(rest.push(uri)[j] == u);
                } else {
                    assert(rest.push(uri)[rest.len() as int] == uri);
                }
            }
            assert forall|k: int| 0 <= k < files_of(fns, n).len() implies exists|i: int|
                0 <= i < n && #[trigger] files_of(fns, n)[k] == "file://"@ + (
                #[trigger] fns[i]).path by {
                if k < rest.len() {
                    assert(files_of(fns, n)[k] == rest[k]);
                    let i = choose|i: int|
                        0 <= i < n - 1 && rest[k] == "file://"@ + (#[trigger] fns[i]).path;
                    assert(files_of(fns, n)[k] == "file://"@ + fns[i].path);
                } else {
                    assert(files_of(fns, n)[k] == "file://"@ + fns[n - 1].path);
                }
            }
        }
    }
}

proof fn calls_are_asked_in_full(tasks: Seq<TaskView>, fns: Seq<LspFnView>, n: int, i: int)
    requires
        0 <= i < n <= fns.len(),
    ensures
        with_calls(tasks, fns, n).len() == tasks.len() + n,
        with_calls(tasks, fns, n)[tasks.len() + i] == (TaskView::Calls {
            fn_id: fns[i].id,
            uri: "file://"@ + fns[i].path,
            line: line_from_zero(fns[i].range_start),
            character: name_place(
                fns[i].content,
                fns[i].range_start as int,
                fns[i].name,
                true,
                3,
            ),
        }),
        with_calls(tasks, fns, n).take(tasks.len() as int) == tasks,
    decreases n,
{
    let all = with_calls(tasks, fns, n);
    let rest = with_calls(tasks, fns, n - 1);
    if i < n - 1 {
        calls_are_asked_in_full(tasks, fns, n - 1, i);
        assert(all.take(tasks.len() as int) =~= rest.take(tasks.len() as int));
    } else if n == 1 {
        assert(all.take(tasks.len() as int) =~= tasks);
    } else {
        calls_are_asked_in_full(tasks, fns, n - 1, 0);
        assert(all.take(tasks.len() as int) =~= rest.take(tasks.len() as int));
    }
}

/// Each function is asked about where its name stands in its own file.
pub proof fn functions_are_asked_about_where_they_stand(e: Enricher, fns: Seq<LspFnView>, i: int)
    requires
        0 <= i < fns.len(),
    ensures
        plan_of(e, fns)[plan_of(e, fns).len() - 1 - fns.len() + i] == (TaskView::Calls {
            fn_id: fns[i].id,
            uri: "file://"@ + fns[i].path,
            line: line_from_zero(fns[i].range_start),
            character: name_place(
                fns[i].content,
                fns[i].range_start as int,
                fns[i].name,
                true,
                3,
            ),
        }),
{
    let n = fns.len() as int;
    let options = if hinting(e) {
        Some(TYPESCRIPT_OPTIONS@)
    } else {
        None
    };
    let greeted = Seq::<TaskView>::empty().push(TaskView::Initialize(options));
    let ready = if e is Rust {
        greeted.push(TaskView::Settle)
    } else {
        with_opened(greeted, language_id_of(e), fns, n).push(
            TaskView::AwaitFindings(files_of(fns, n)),
        )
    };
    let hinted = if hinting(e) {
        with_hints(ready, files_of(fns, n), files_of(fns, n).len() as int)
    } else {
        ready
    };
    calls_are_asked_in_full(hinted, fns, n, i);
    assert(plan_of(e, fns)[hinted.len() + i] == with_calls(hinted, fns, n)[hinted.len() + i]);
}

/// The task opens the file of the `i`th function, the first that lies in it, with its text.
pub open spec fn opens(task: TaskView, language_id: Seq<char>, fns: Seq<LspFnView>, i: int) -> bool {
    &&& fns[i].content matches Some(text) && task == (TaskView::Open {
        uri: "file://"@ + fns[i].path,
        language_id,
        text,
    })
    &&& forall|j: int|
        0 <= j < i ==> "file://"@ + (#[trigger] fns[j]).path != "file://"@ + fns[i].path
}

proof fn first_texts_are_opened(
    tasks: Seq<TaskView>,
    language_id: Seq<char>,
    fns: Seq<LspFnView>,
    n: int,
    task: TaskView,
)
    requires
        0 <= n <= fns.len(),
    ensures
        with_opened(tasks, language_id, fns, n).contains(task) <==> tasks.contains(task) || exists|
            i: int,
        |
            0 <= i < n && #[trigger] opens(task, language_id, fns, i),
    decreases n,
{
    if n > 0 {
        first_texts_are_opened(tasks, language_id, fns, n - 1, task);
        files_are_named_once(fns, n - 1);
        let rest = with_opened(tasks, language_id, fns, n - 1);
        let uri = "file://"@ + fns[n - 1].path;
        let seen = files_of(fns, n - 1);
        assert(seen.contains(uri) <==> exists|j: int|
            0 <= j < n - 1 && "file://"@ + (#[trigger] fns[j]).path == uri) by {
            if seen.contains(uri) {
                let k = choose|k: int| 0 <= k < seen.len() && seen[k] == uri;
                assert(seen[k] == uri);
            }
        }
        if let Some(text) = fns[n - 1].content {
            push_holds(rest, TaskView::Open { uri, language_id, text }, task);
        }
        assert(opens(task, language_id, fns, n - 1) ==> exists|i: int|
            0 <= i < n && #[trigger] opens(task, language_id, fns, i));
    }
}

proof fn files_are_hinted(tasks: Seq<TaskView>, uris: Seq<Seq<char>>, n: int, task: TaskView)
    requires
        0 <= n <= uris.len(),
    ensures
        with_hints(tasks, uris, n).contains(task) <==> tasks.contains(task) || exists|k: int|
            0 <= k < n && task == TaskView::Hints(#[trigger] uris[k]),
    decreases n,
{
    if n > 0 {
        files_are_hinted(tasks, uris, n - 1, task);
        push_holds(with_hints(tasks, uris, n - 1), TaskView::Hints(uris[n - 1]), task);
    }
}

proof fn calls_add_no_other(tasks: Seq<TaskView>, fns: Seq<LspFnView>, n: int, task: TaskView)
    requires
        0 <= n <= fns.len(),
        !(task is Calls),
    ensures
        with_calls(tasks, fns, n).contains(task) <==> tasks.contains(task),
    decreases n,
{
    if n > 0 {
        calls_add_no_other(tasks, fns, n - 1, task);
        push_holds(with_calls(tasks, fns, n - 1), with_calls(tasks, fns, n).last(), task);
    }
}

/// Besides asking for calls: a Rust server is left to settle; to the others every file with a
/// text is opened, once, and their findings on all files are awaited; a TypeScript or a
/// JavaScript server, which alone are told what hints are wanted, is asked for the hints on
/// each file. Nothing else is done.
pub proof fn plans_do_what_servers_need(e: Enricher, fns: Seq<LspFnView>, task: TaskView)
    requires
        !(task is Calls),
    ensures
        plan_of(e, fns).contains(task) <==> {
            ||| task == TaskView::Initialize(
                if e is TypeScript || e is JavaScript {
                    Some(TYPESCRIPT_OPTIONS@)
                } else {
                    None
                },
            )
            ||| task is Shutdown
            ||| e is Rust && task is Settle
            ||| !(e is Rust) && task == TaskView::AwaitFindings(files_of(fns, fns.len() as int))
            ||| e is TypeScript && exists|i: int|
                0 <= i < fns.len() && #[trigger] opens(task, "typescript"@, fns, i)
            ||| e is JavaScript && exists|i: int|
                0 <= i < fns.len() && #[trigger] opens(task, "javascript"@, fns, i)
            ||| e is Svelte && exists|i: int|
                0 <= i < fns.len() && #[trigger] opens(task, "svelte"@, fns, i)
            ||| (e is TypeScript || e is JavaScript) && exists|k: int|
                0 <= k < files_of(fns, fns.len() as int).len() && task == TaskView::Hints(
                    #[trigger] files_of(fns, fns.len() as int)[k],
                )
        },
{
    let n = fns.len() as int;
    let files = files_of(fns, n);
    let options = if hinting(e) {
        Some(TYPESCRIPT_OPTIONS@)
    } else {
        None
    };
    let none = Seq::<TaskView>::empty();
    let greeted = none.push(TaskView::Initialize(options));
    push_holds(none, TaskView::Initialize(options), task);
    let opened = with_opened(greeted, language_id_of(e), fns, n);
    first_texts_are_opened(greeted, language_id_of(e), fns, n, task);
    push_holds(greeted, TaskView::Settle, task);
    push_holds(opened, TaskView::AwaitFindings(files), task);
    let ready = if e is Rust {
        greeted.push(TaskView::Settle)
    } else {
        opened.push(TaskView::AwaitFindings(files))
    };
    files_are_hinted(ready, files, files.len() as int, task);
    let hinted = if hinting(e) {
        with_hints(ready, files, files.len() as int)
    } else {
        ready
    };
    calls_add_no_other(hinted, fns, n, task);
    push_holds(with_calls(hinted, fns, n), TaskView::Shutdown, task);
}

/// Rust, TypeScript, JavaScript and Svelte have servers; no other language has.
pub proof fn four_languages_have_servers(language: Seq<char>)
    ensures
        enricher_of(language) == Some(Enricher::Rust) <==> language == "rust"@,
        enricher_of(language) == Some(Enricher::TypeScript) <==> language == "typescript"@,
        enricher_of(language) == Some(Enricher::JavaScript) <==> language == "javascript"@,
        enricher_of(language) == Some(Enricher::Svelte) <==> language == "svelte"@,
{
    reveal_strlit("rust");
    reveal_strlit("typescript");
    reveal_strlit("javascript");
    reveal_strlit("svelte");
    assert("rust"@.len() == 4 && "typescript"@[0] == 't' && "javascript"@[0] == 'j');
    assert("svelte"@.len() == 6);
}

/// Edges keep their ends and their order, behind those that there were, and get their kind.
pub proof fn edges_get_their_kind(
    out: Seq<(i64, i64, &'static str)>,
    edges: Seq<(i64, i64)>,
    kind: &'static str,
    n: int,
)
    requires
        0 <= n <= edges.len(),
    ensures
        typed(out, edges, kind, n) == out + Seq::new(
            n as nat,
            |i: int| (edges[i].0, edges[i].1, kind),
        ),
    decreases n,
{
    let all = Seq::new(n as nat, |i: int| (edges[i].0, edges[i].1, kind));
    if n > 0 {
        edges_get_their_kind(out, edges, kind, n - 1);
        let before = Seq::new((n - 1) as nat, |i: int| (edges[i].0, edges[i].1, kind));
        assert(before.push((edges[n - 1].0, edges[n - 1].1, kind)) =~= all);
        assert((out + before).push(all[n - 1]) =~= out + all);
    } else {
        assert(out + all =~= out);
    }
}

/// Findings on a file are those that a server publishes under the file's address.
pub proof fn findings_name_their_file(msg: JsonView, file: Seq<char>)
    ensures
        findings_on(msg) == Some(file) <==> text_in(field_of(msg, "method"@)) == Some(
            "textDocument/publishDiagnostics"@,
        ) && text_in(field_of(field_of(msg, "params"@), "uri"@)) == Some(file),
{
}

} // verus!
