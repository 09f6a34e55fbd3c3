//! Talking to a language server: how messages are framed, when it is ready, and when a rename
//! is asked for again.

use vstd::prelude::*;
use vstd::utf8::encode_utf8;

use crate::json::{
    bool_in, field_of, i64_in, json_quoted, quote_text, text_in, u64_in, Json, JsonView,
};
use crate::model::{list_has, or_text, views, Dup};
use crate::text::{
    alphanumeric, byte_len, byte_size, char_is_alphanumeric, chars_of, concat2, concat3, dec,
    digits_from, digits_number, line_seq, lines, lowercase, str_eq, strip_prefix, to_lowercase,
    trim, trimmed, u64_text, usize_text, without_prefix,
};

verus! {

broadcast use crate::model::group_views;

// ---------------------------------------------------------------------------
// Frames
// ---------------------------------------------------------------------------

/// A message as it is sent: its length in bytes, an empty line, and the message.
pub open spec fn framed(body: Seq<char>) -> Seq<char> {
    "Content-Length: "@ + dec(byte_size(body)) + "\r\n\r\n"@ + body
}

/// A message as it is sent.
pub fn write_msg(body: &str) -> (r: String)
    ensures
        r@ == framed(body@),
{
    let mut out = concat2("Content-Length: ", &usize_text(byte_len(body)));
    out.append("\r\n\r\n");
    out.append(body);
    out
}

/// What a header line of a message says.
#[derive(Clone, Copy, PartialEq, Eq, Structural, Debug)]
pub enum HeaderLine {
    /// The header is over.
    End,
    /// The message has so many bytes.
    Length(u64),
    /// The length cannot be read.
    Bad,
    /// Something else.
    Other,
}

/// The number that a text writes with digits, with or without a plus sign before them, where
/// it fits the type `u64`.
pub open spec fn count_in(s: Seq<char>) -> Option<int> {
    let digits = or_text(without_prefix(s, "+"@), s);
    match digits_number(digits) {
        Some(n) => if n <= u64::MAX {
            Some(n)
        } else {
            None
        },
        None => None,
    }
}

/// What a header line of a message says.
pub open spec fn header_of(line: Seq<char>) -> HeaderLine {
    let t = trimmed(line);
    if t.len() == 0 {
        HeaderLine::End
    } else {
        match without_prefix(t, "Content-Length: "@) {
            Some(rest) => match count_in(trimmed(rest)) {
                Some(n) => HeaderLine::Length(n as u64),
                None => HeaderLine::Bad,
            },
            None => HeaderLine::Other,
        }
    }
}

/// The number that a text writes with digits.
pub fn parse_count(s: &str) -> (r: Option<u64>)
    ensures
        match r {
            Some(n) => count_in(s@) == Some(n as int),
            None => count_in(s@) is None,
        },
{
    let digits = match strip_prefix(s, "+") {
        Some(d) => d,
        None => s.to_owned(),
    };
    let v = chars_of(&digits);
    assert(v@.skip(0) =~= digits@);
    digits_from(&v, 0, u64::MAX)
}

/// What a header line of a message says.
pub fn read_header(line: &str) -> (r: HeaderLine)
    ensures
        r == header_of(line@),
{
    let t = trim(line);
    if t.as_str().is_empty() {
        return HeaderLine::End;
    }
    match strip_prefix(&t, "Content-Length: ") {
        Some(rest) => match parse_count(&trim(&rest)) {
            Some(n) => HeaderLine::Length(n),
            None => HeaderLine::Bad,
        },
        None => HeaderLine::Other,
    }
}

/// The length of a message after the first `n` lines of its header, 0 where none was named;
/// none where one cannot be read.
pub open spec fn length_after(all: Seq<Seq<char>>, n: int) -> Option<u64>
    decreases n,
{
    if n <= 0 {
        Some(0)
    } else {
        match length_after(all, n - 1) {
            Some(so_far) => match header_of(all[n - 1]) {
                HeaderLine::Length(k) => Some(k),
                HeaderLine::Bad => None,
                _ => Some(so_far),
            },
            None => None,
        }
    }
}

/// The length of a message whose header has these lines. One of no bytes is refused.
pub fn read_msg(header: &Vec<String>) -> (r: Result<u64, &'static str>)
    ensures
        match length_after(views(header@), header@.len() as int) {
            Some(n) => if n == 0 {
                r matches Err(m) && m@ == "LSP message with zero content-length"@
            } else {
                r matches Ok(k) && k == n
            },
            None => r matches Err(m) && m@ == "LSP message with unreadable content-length"@,
        },
{
    let mut length: u64 = 0;
    let mut n: usize = 0;
    while n < header.len()
        invariant
            n <= header@.len(),
            length_after(views(header@), n as int) == Some(length),
        decreases header@.len() - n,
    {
        assert(views(header@)[n as int] == header@[n as int]@);
        match read_header(&header[n]) {
            HeaderLine::Length(k) => {
                length = k;
            },
            HeaderLine::Bad => {
                proof {
                    stays_unreadable(views(header@), n + 1, header@.len() as int);
                }
                return Err("LSP message with unreadable content-length");
            },
            _ => {},
        }
        n = n + 1;
    }
    if length == 0 {
        Err("LSP message with zero content-length")
    } else {
        Ok(length)
    }
}

proof fn stays_unreadable(all: Seq<Seq<char>>, k: int, n: int)
    requires
        0 <= k <= n,
        length_after(all, k) is None,
    ensures
        length_after(all, n) is None,
    decreases n,
{
    if k < n {
        stays_unreadable(all, k, n - 1);
    }
}

proof fn digit_has_value(d: int)
    requires
        0 <= d < 10,
    ensures
        crate::text::digit_char(d) as u32 - '0' as u32 == d,
        crate::text::is_digit(crate::text::digit_char(d)),
{
}

proof fn digits_stay(n: nat)
    ensures
        crate::text::all_digits(dec(n)),
        crate::text::digits_value(dec(n)) == n,
        dec(n).len() > 0,
    decreases n,
{
    if n >= 10 {
        digits_stay(n / 10);
        assert(dec(n).drop_last() =~= dec(n / 10));
        assert(dec(n).last() == crate::text::digit_char((n % 10) as int));
        digit_has_value((n % 10) as int);
        assert forall|i: int| 0 <= i < dec(n).len() implies crate::text::is_digit(
            #[trigger] dec(n)[i],
        ) by {
            if i < dec(n).len() - 1 {
                assert(dec(n)[i] == dec(n / 10)[i]);
            }
        }
    } else {
        assert(dec(n).drop_last() =~= Seq::<char>::empty());
        assert(dec(n).last() == crate::text::digit_char(n as int));
        digit_has_value(n as int);
        reveal_with_fuel(crate::text::digits_value, 2);
    }
}

proof fn trims_to(s: Seq<char>)
    requires
        s.len() > 0,
        !crate::text::is_space(s[0]),
        !crate::text::is_space(s.last()),
    ensures
        trimmed(s) == s,
        trimmed(s + "\r\n"@) == s,
{
    reveal_strlit("\r\n");
    reveal_with_fuel(crate::text::trimmed_end, 3);
    let t = s + "\r\n"@;
    assert(crate::text::trimmed_start(t) == t);
    assert(t.drop_last().drop_last() =~= s);
    assert(t.last() == '\n');
    assert(t.drop_last().last() == '\r');
}

/// What one side sends the other can read: the header of a message that was written gives the
/// message's length in bytes.
pub proof fn written_length_is_read(body: Seq<char>)
    requires
        byte_size(body) <= u64::MAX,
    ensures
        framed(body) == ("Content-Length: "@ + dec(byte_size(body)) + "\r\n"@) + "\r\n"@ + body,
        header_of("Content-Length: "@ + dec(byte_size(body)) + "\r\n"@) == HeaderLine::Length(
            byte_size(body) as u64,
        ),
        header_of("\r\n"@) == HeaderLine::End,
{
    reveal_strlit("Content-Length: ");
    reveal_strlit("\r\n");
    reveal_strlit("\r\n\r\n");
    reveal_strlit("+");
    let n = byte_size(body);
    let d = dec(n);
    digits_stay(n);
    assert(framed(body) =~= ("Content-Length: "@ + d + "\r\n"@) + "\r\n"@ + body);
    assert(crate::text::is_digit(d[0]));
    assert(crate::text::is_digit(d[d.len() - 1]));
    let t = "Content-Length: "@ + d;
    assert(t[0] == 'C');
    assert(t.last() == d.last());
    trims_to(t);
    trims_to(d);
    assert(t.take(16) =~= "Content-Length: "@);
    assert(t.skip(16) =~= d);
    assert(without_prefix(t, "Content-Length: "@) == Some(d));
    assert(without_prefix(d, "+"@) is None) by {
        if crate::text::begins_with(d, "+"@) {
            assert(d.take(1)[0] == "+"@[0]);
        }
    }
    assert(count_in(d) == Some(n as int));
    reveal_with_fuel(crate::text::trimmed_start, 3);
    assert("\r\n"@.skip(1).skip(1) =~= Seq::<char>::empty());
    assert(trimmed("\r\n"@).len() == 0);
}

// ---------------------------------------------------------------------------
// Messages
// ---------------------------------------------------------------------------

/// A request, as JSON.
pub open spec fn request_text(id: nat, method: Seq<char>, params: Seq<char>) -> Seq<char> {
    "{\"id\":"@ + dec(id) + ",\"jsonrpc\":\"2.0\",\"method\":\""@ + method + "\",\"params\":"@ + params
        + "}"@
}

/// A notification, as JSON.
pub open spec fn notification_text(method: Seq<char>, params: Seq<char>) -> Seq<char> {
    "{\"jsonrpc\":\"2.0\",\"method\":\""@ + method + "\",\"params\":"@ + params + "}"@
}

/// A document by its URI, as JSON.
pub open spec fn document_text(uri: Seq<char>) -> Seq<char> {
    "{\"uri\":"@ + json_quoted(uri) + "}"@
}

/// A position, as JSON.
pub open spec fn position_text(line: u32, character: u32) -> Seq<char> {
    "{\"character\":"@ + dec(character as nat) + ",\"line\":"@ + dec(line as nat) + "}"@
}

/// A document that is opened, as JSON.
pub open spec fn opened_text(uri: Seq<char>, language_id: Seq<char>, text: Seq<char>) -> Seq<char> {
    "{\"textDocument\":{\"languageId\":"@ + json_quoted(language_id) + ",\"text\":"@ + json_quoted(
        text,
    ) + ",\"uri\":"@ + json_quoted(uri) + ",\"version\":1}}"@
}

/// What a rename asks for, as JSON.
pub open spec fn rename_text(
    uri: Seq<char>,
    line: u32,
    character: u32,
    new_name: Seq<char>,
) -> Seq<char> {
    "{\"newName\":"@ + json_quoted(new_name) + ",\"position\":"@ + position_text(line, character)
        + ",\"textDocument\":"@ + document_text(uri) + "}"@
}

/// What a server is told first, as JSON.
pub open spec fn initialize_text(pid: u32, root_uri: Seq<char>) -> Seq<char> {
    "{\"capabilities\":{\"textDocument\":{\"rename\":{\"dynamicRegistration\":false,\"prepareSupport\":false}},\"workspace\":{}},\"processId\":"@
        + dec(pid as nat) + ",\"rootUri\":"@ + json_quoted(root_uri)
        + ",\"workspaceFolders\":[{\"name\":\"workspace\",\"uri\":"@ + json_quoted(root_uri)
        + "}]}"@
}

/// A request, as JSON.
pub fn show_request(id: u64, method: &str, params: &str) -> (r: String)
    ensures
        r@ == request_text(id as nat, method@, params@),
{
    let mut out = concat2("{\"id\":", &u64_text(id));
    out.append(",\"jsonrpc\":\"2.0\",\"method\":\"");
    out.append(method);
    out.append("\",\"params\":");
    out.append(params);
    out.append("}");
    out
}

/// A notification, as JSON.
pub fn show_notification(method: &str, params: &str) -> (r: String)
    ensures
        r@ == notification_text(method@, params@),
{
    let mut out = concat2("{\"jsonrpc\":\"2.0\",\"method\":\"", method);
    out.append("\",\"params\":");
    out.append(params);
    out.append("}");
    out
}

/// A document by its URI, as JSON.
pub fn show_document(uri: &str) -> (r: String)
    ensures
        r@ == document_text(uri@),
{
    concat3("{\"uri\":", &quote_text(uri), "}")
}

/// A position, as JSON.
pub fn show_position(line: u32, character: u32) -> (r: String)
    ensures
        r@ == position_text(line, character),
{
    let mut out = concat2("{\"character\":", &u64_text(character as u64));
    out.append(",\"line\":");
    out.append(&u64_text(line as u64));
    out.append("}");
    out
}

/// A document that is opened, as JSON.
pub fn show_opened(uri: &str, language_id: &str, text: &str) -> (r: String)
    ensures
        r@ == opened_text(uri@, language_id@, text@),
{
    let mut out = concat2("{\"textDocument\":{\"languageId\":", &quote_text(language_id));
    out.append(",\"text\":");
    out.append(&quote_text(text));
    out.append(",\"uri\":");
    out.append(&quote_text(uri));
    out.append(",\"version\":1}}");
    out
}

/// What a rename asks for, as JSON.
pub fn show_rename(uri: &str, line: u32, character: u32, new_name: &str) -> (r: String)
    ensures
        r@ == rename_text(uri@, line, character, new_name@),
{
    let mut out = concat2("{\"newName\":", &quote_text(new_name));
    out.append(",\"position\":");
    out.append(&show_position(line, character));
    out.append(",\"textDocument\":");
    out.append(&show_document(uri));
    out.append("}");
    out
}

/// The side of a client that writes: the messages that it sends, framed, with requests numbered
/// one after the other.
pub struct LspClient {
    pub next_id: u64,
}

impl LspClient {
    /// A client that has sent nothing.
    pub fn new() -> (r: LspClient)
        ensures
            r.next_id == 1,
    {
        LspClient { next_id: 1 }
    }

    /// A request with the next number.
    pub fn request(&mut self, method: &str, params: &str) -> (r: (u64, String))
        requires
            old(self).next_id < u64::MAX,
        ensures
            final(self).next_id == old(self).next_id + 1,
            r.0 == old(self).next_id,
            r.1@ == framed(request_text(r.0 as nat, method@, params@)),
    {
        let id: u64 = self.next_id;
        self.next_id = id + 1;
        (id, write_msg(&show_request(id, method, params)))
    }

    /// Asks a server to get ready for a project.
    pub fn connect(&mut self, pid: u32, root_uri: &str) -> (r: (u64, String))
        requires
            old(self).next_id < u64::MAX,
        ensures
            final(self).next_id == old(self).next_id + 1,
            r.0 == old(self).next_id,
            r.1@ == framed(
                request_text(r.0 as nat, "initialize"@, initialize_text(pid, root_uri@)),
            ),
    {
        let mut params = concat2(
            "{\"capabilities\":{\"textDocument\":{\"rename\":{\"dynamicRegistration\":false,\"prepareSupport\":false}},\"workspace\":{}},\"processId\":",
            &u64_text(pid as u64),
        );
        params.append(",\"rootUri\":");
        params.append(&quote_text(root_uri));
        params.append(",\"workspaceFolders\":[{\"name\":\"workspace\",\"uri\":");
        params.append(&quote_text(root_uri));
        params.append("}]}");
        self.request("initialize", &params)
    }

    /// Tells a server that its answer to the first request has come.
    pub fn initialized(&self) -> (r: String)
        ensures
            r@ == framed(notification_text("initialized"@, "{}"@)),
    {
        write_msg(&show_notification("initialized", "{}"))
    }

    /// Tells a server of a document. It has to know a document before it renames something in it.
    pub fn open_document(&self, uri: &str, text: &str) -> (r: String)
        ensures
            r@ == framed(
                notification_text("textDocument/didOpen"@, opened_text(uri@, "rust"@, text@)),
            ),
    {
        write_msg(&show_notification("textDocument/didOpen", &show_opened(uri, "rust", text)))
    }

    /// Asks to rename what stands at a position; lines are counted from 1.
    pub fn rename(&mut self, uri: &str, line_1indexed: u32, character: u32, new_name: &str) -> (r: (
        u64,
        String,
    ))
        requires
            old(self).next_id < u64::MAX,
        ensures
            final(self).next_id == old(self).next_id + 1,
            r.0 == old(self).next_id,
            r.1@ == framed(
                request_text(
                    r.0 as nat,
                    "textDocument/rename"@,
                    rename_text(
                        uri@,
                        if line_1indexed == 0 {
                            0
                        } else {
                            (line_1indexed - 1) as u32
                        },
                        character,
                        new_name@,
                    ),
                ),
            ),
    {
        let line: u32 = if line_1indexed == 0 {
            0
        } else {
            line_1indexed - 1
        };
        self.request("textDocument/rename", &show_rename(uri, line, character, new_name))
    }

    /// Asks a server to end, and tells it that it may.
    pub fn shutdown(&self) -> (r: String)
        ensures
            r@ == framed(request_text(self.next_id as nat, "shutdown"@, "null"@)) + framed(
                notification_text("exit"@, "null"@),
            ),
    {
        concat2(
            &write_msg(&show_request(self.next_id, "shutdown", "null")),
            &write_msg(&show_notification("exit", "null")),
        )
    }
}

// ---------------------------------------------------------------------------
// Getting ready
// ---------------------------------------------------------------------------

/// How far a language server is: what it is still working on, by token, and the last title
/// that it gave.
pub struct ReadyState {
    pub active: Vec<String>,
    pub title: String,
}

/// What a language server is told to be doing next.
#[derive(Debug)]
pub enum ReadyAction {
    /// It is ready.
    Ready,
    /// It is gone before it was ready.
    Disconnected,
    /// It has taken too long.
    TimedOut,
    /// Wait for it on.
    Wait,
    /// Show how far it is, and wait on.
    Show(String),
}

/// What is said where rust-analyzer is missing and rustup cannot add it.
pub const NO_RUSTUP: &'static str =
    "rust-analyzer not found and rustup is not available.\nInstall options:\nrustup component add rust-analyzer\ncargo install rust-analyzer\nSee: https://rust-analyzer.github.io";

/// What is said where the user does not want rust-analyzer to be added.
pub const DECLINED: &'static str =
    "rust-analyzer is required for rename.\nInstall with: rustup component add rust-analyzer";

/// What is shown first of a language server that is getting ready.
pub const STARTING: &'static str = "starting…";

/// How far a language server is that has just started.
pub fn ready_start() -> (r: ReadyState)
    ensures
        views(r.active@) == Seq::<Seq<char>>::empty(),
        r.title@ == STARTING@,
{
    ReadyState { active: Vec::new(), title: STARTING.to_owned() }
}

/// How long a sign of a language server is waited for, in milliseconds, with so many left: a
/// while where it is working on nothing.
pub fn wait_limit(state: &ReadyState, remaining: u64) -> (r: u64)
    ensures
        r == if state.active@.len() == 0 && remaining > 2000 {
            2000
        } else {
            remaining
        },
{
    if state.active.len() == 0 && remaining > 2000 {
        2000
    } else {
        remaining
    }
}

/// No sign has come in the time that was waited: a language server that works on nothing is
/// ready, another one is gone.
pub fn on_silence(state: &ReadyState) -> (r: ReadyAction)
    ensures
        state.active@.len() == 0 ==> r is Ready,
        state.active@.len() > 0 ==> r is Disconnected,
{
    if state.active.len() == 0 {
        ReadyAction::Ready
    } else {
        ReadyAction::Disconnected
    }
}

/// The value of what a message reports.
pub open spec fn progress_of(msg: JsonView) -> JsonView {
    field_of(field_of(msg, "params"@), "value"@)
}

/// A text of what a message reports; empty where there is none.
pub open spec fn progress_text(msg: JsonView, key: Seq<char>) -> Seq<char> {
    or_text(text_in(field_of(progress_of(msg), key)), ""@)
}

/// The tokens without one.
pub open spec fn without_token(tokens: Seq<Seq<char>>, token: Seq<char>, n: int) -> Seq<Seq<char>>
    decreases n,
{
    if n <= 0 {
        Seq::empty()
    } else if tokens[n - 1] == token {
        without_token(tokens, token, n - 1)
    } else {
        without_token(tokens, token, n - 1).push(tokens[n - 1])
    }
}

/// What is worked on after a message.
pub open spec fn active_after(active: Seq<Seq<char>>, msg: JsonView, token: Seq<char>) -> Seq<
    Seq<char>,
> {
    let kind = progress_text(msg, "kind"@);
    if kind == "begin"@ {
        if active.contains(token) {
            active
        } else {
            active.push(token)
        }
    } else if kind == "end"@ {
        without_token(active, token, active.len() as int)
    } else {
        active
    }
}

/// The last title after a message.
pub open spec fn title_after(title: Seq<char>, msg: JsonView) -> Seq<char> {
    let kind = progress_text(msg, "kind"@);
    let new_title = progress_text(msg, "title"@);
    if kind == "begin"@ || ((kind == "report"@ || kind == "end"@) && new_title.len() > 0) {
        new_title
    } else {
        title
    }
}

/// How far a language server is, as it is shown.
pub open spec fn progress_line(title: Seq<char>, msg: JsonView) -> Seq<char> {
    let message = progress_text(msg, "message"@);
    let percent = u64_in(field_of(progress_of(msg), "percentage"@));
    let head = if message.len() == 0 {
        title
    } else {
        title + "  "@ + message
    };
    match percent {
        Some(p) => head + " ("@ + dec(p as nat) + "%)"@,
        None => head,
    }
}

/// The message says that the language server has settled.
pub open spec fn says_settled(msg: JsonView) -> bool {
    text_in(field_of(msg, "method"@)) == Some("experimental/serverStatus"@) && bool_in(
        field_of(field_of(msg, "params"@), "quiescent"@),
    ) == Some(true)
}

/// The message reports on what is worked on.
pub open spec fn reports(msg: JsonView) -> bool {
    text_in(field_of(msg, "method"@)) == Some("$/progress"@)
}

fn deep_field<'a>(msg: &'a Json, a: &str, b: &str) -> (r: Option<&'a Json>)
    ensures
        match r {
            Some(v) => field_of(field_of(msg@, a@), b@) == v@,
            None => field_of(field_of(msg@, a@), b@) == JsonView::Null,
        },
{
    match msg.field(a) {
        Some(v) => v.field(b),
        None => None,
    }
}

fn read_progress(msg: &Json, key: &str) -> (r: String)
    ensures
        r@ == progress_text(msg@, key@),
{
    match deep_field(msg, "params", "value") {
        Some(v) => match v.field_text(key) {
            Some(t) => t.dup(),
            None => "".to_owned(),
        },
        None => "".to_owned(),
    }
}

fn show_progress(title: &str, msg: &Json) -> (r: String)
    ensures
        r@ == progress_line(title@, msg@),
{
    let message = read_progress(msg, "message");
    let percent = match deep_field(msg, "params", "value") {
        Some(v) => match v.field("percentage") {
            Some(p) => p.uint(),
            None => None,
        },
        None => None,
    };
    let mut out = if message.as_str().is_empty() {
        title.to_owned()
    } else {
        concat3(title, "  ", &message)
    };
    if let Some(p) = percent {
        out.append(" (");
        out.append(&u64_text(p));
        out.append("%)");
    }
    out
}

fn remove_token(tokens: &Vec<String>, token: &str) -> (r: Vec<String>)
    ensures
        views(r@) == without_token(views(tokens@), token@, tokens@.len() as int),
{
    let mut out: Vec<String> = Vec::new();
    let mut n: usize = 0;
    while n < tokens.len()
        invariant
            n <= tokens@.len(),
            views(out@) == without_token(views(tokens@), token@, n as int),
        decreases tokens@.len() - n,
    {
        assert(views(tokens@)[n as int] == tokens@[n as int]@);
        if !str_eq(&tokens[n], token) {
            out.push(tokens[n].dup());
        }
        n = n + 1;
    }
    out
}

/// A message of a language server that is getting ready; `token` is what tells the work that
/// it reports on from other work.
pub fn on_message(state: &mut ReadyState, msg: &Json, token: &str) -> (r: ReadyAction)
    ensures
        if says_settled(msg@) {
            r is Ready && *final(state) == *old(state)
        } else if reports(msg@) {
            &&& views(final(state).active@) == active_after(
                views(old(state).active@),
                msg@,
                token@,
            )
            &&& final(state).title@ == title_after(old(state).title@, msg@)
            &&& r matches ReadyAction::Show(s) && s@ == progress_line(final(state).title@, msg@)
        } else {
            r is Wait && *final(state) == *old(state)
        },
{
    let method = match msg.field_text("method") {
        Some(m) => m,
        None => {
            return ReadyAction::Wait;
        },
    };
    proof {
        reveal_strlit("experimental/serverStatus");
        reveal_strlit("$/progress");
        assert("experimental/serverStatus"@.len() == 25 && "$/progress"@.len() == 10);
    }
    if str_eq(method, "experimental/serverStatus") {
        let settled = match deep_field(msg, "params", "quiescent") {
            Some(q) => q.boolean(),
            None => None,
        };
        return match settled {
            Some(true) => ReadyAction::Ready,
            _ => ReadyAction::Wait,
        };
    }
    if !str_eq(method, "$/progress") {
        return ReadyAction::Wait;
    }
    let kind = read_progress(msg, "kind");
    let title = read_progress(msg, "title");
    if str_eq(&kind, "begin") {
        if !list_has(&state.active, token) {
            state.active.push(token.to_owned());
        }
        state.title = title;
    } else if str_eq(&kind, "report") {
        if !title.as_str().is_empty() {
            state.title = title;
        }
    } else if str_eq(&kind, "end") {
        state.active = remove_token(&state.active, token);
        if !title.as_str().is_empty() {
            state.title = title;
        }
    }
    proof {
        reveal_strlit("begin");
        reveal_strlit("end");
        reveal_strlit("report");
        assert("begin"@.len() == 5 && "end"@.len() == 3 && "report"@.len() == 6);
    }
    ReadyAction::Show(show_progress(&state.title, msg))
}

proof fn token_leaves(tokens: Seq<Seq<char>>, token: Seq<char>, n: int)
    requires
        0 <= n <= tokens.len(),
    ensures
        !without_token(tokens, token, n).contains(token),
    decreases n,
{
    if n > 0 {
        token_leaves(tokens, token, n - 1);
        let rest = without_token(tokens, token, n - 1);
        if tokens[n - 1] != token {
            let more = rest.push(tokens[n - 1]);
            assert forall|i: int| 0 <= i < more.len() implies #[trigger] more[i] != token by {
                if i < rest.len() {
                    assert(rest.contains(rest[i]));
                }
            }
        }
    }
}

/// Work is under way from the message that it began until the one that it ended.
pub proof fn work_begins_and_ends(active: Seq<Seq<char>>, msg: JsonView, token: Seq<char>)
    ensures
        progress_text(msg, "kind"@) == "begin"@ ==> active_after(active, msg, token).contains(
            token,
        ),
        progress_text(msg, "kind"@) == "end"@ ==> !active_after(active, msg, token).contains(
            token,
        ),
{
    reveal_strlit("begin");
    reveal_strlit("end");
    assert("begin"@.len() == 5 && "end"@.len() == 3);
    token_leaves(active, token, active.len() as int);
    if !active.contains(token) {
        assert(active.push(token)[active.len() as int] == token);
    }
}

// ---------------------------------------------------------------------------
// Renaming
// ---------------------------------------------------------------------------

/// What follows from an answer to a request to rename.
#[derive(Clone, Copy, PartialEq, Eq, Structural, Debug)]
pub enum RenameStep {
    /// The answer is the edit.
    Done,
    /// Ask again after so many milliseconds.
    Retry(u64),
    /// The language server refused.
    Refused,
    /// There is nothing to rename at the place.
    Nothing,
}

/// What follows from an answer to the `attempts`th request to rename. A server that is still
/// reading the file is asked again, up to five times in all and each time later.
pub open spec fn rename_step_of(response: JsonView, has_error: bool, attempts: int) -> RenameStep {
    if has_error {
        if i64_in(field_of(field_of(response, "error"@), "code"@)) == Some(-32801int) && attempts
            < 5 {
            RenameStep::Retry((500 * attempts) as u64)
        } else {
            RenameStep::Refused
        }
    } else if field_of(response, "result"@) == JsonView::Null {
        RenameStep::Nothing
    } else {
        RenameStep::Done
    }
}

/// What follows from an answer to the `attempts`th request to rename.
pub fn rename_step(response: &Json, attempts: u32) -> (r: RenameStep)
    ensures
        r == rename_step_of(
            response@,
            crate::json::has_field(response@, "error"@),
            attempts as int,
        ),
{
    if let Some(error) = response.field("error") {
        let code = error.field_int("code");
        if attempts < 5 {
            if let Some(c) = code {
                if c == -32801 {
                    return RenameStep::Retry(500 * attempts as u64);
                }
            }
        }
        return RenameStep::Refused;
    }
    match response.field("result") {
        Some(v) => if v.is_null() {
            RenameStep::Nothing
        } else {
            RenameStep::Done
        },
        None => RenameStep::Nothing,
    }
}

/// Asking to rename ends: after the fifth request nothing is asked again.
pub proof fn renaming_ends(response: JsonView, has_error: bool, attempts: int)
    requires
        attempts >= 5,
    ensures
        !(rename_step_of(response, has_error, attempts) is Retry),
{
}

/// Whether a message belongs to a request: it has an id. The others are notifications.
pub fn is_response(msg: &Json) -> (r: bool)
    ensures
        r == crate::json::has_field(msg@, "id"@),
{
    msg.field("id").is_some()
}

/// The message answers the request with the id.
pub fn answers(msg: &Json, id: u64) -> (r: bool)
    ensures
        r == (u64_in(field_of(msg@, "id"@)) == Some(id as int)),
{
    match msg.field("id") {
        Some(v) => match v.uint() {
            Some(n) => n == id,
            None => false,
        },
        None => false,
    }
}

/// An answer to a question that was put to the user means yes.
pub open spec fn means_yes(line: Seq<char>) -> bool {
    let answer = lowercase(trimmed(line));
    answer.len() == 0 || answer == "y"@ || answer == "yes"@
}

/// Whether an answer to a question that was put to the user means yes.
pub fn is_yes(line: &str) -> (r: bool)
    ensures
        r == means_yes(line@),
{
    let answer = to_lowercase(&trim(line));
    answer.as_str().is_empty() || str_eq(&answer, "y") || str_eq(&answer, "yes")
}

/// What is done about rust-analyzer before it is started.
#[derive(Clone, Copy, PartialEq, Eq, Structural, Debug)]
pub enum Setup {
    /// It is there.
    Ready,
    /// It is added by rustup.
    Install,
    /// There is nothing to add it with.
    NoRustup,
    /// The user does not want it added.
    Declined,
}

impl Setup {
    /// Why rust-analyzer cannot be started, where it cannot be.
    pub fn refusal(self) -> (r: Option<&'static str>)
        ensures
            match self {
                Setup::Ready | Setup::Install => r is None,
                Setup::NoRustup => r matches Some(m) && m@ == NO_RUSTUP@,
                Setup::Declined => r matches Some(m) && m@ == DECLINED@,
            },
    {
        match self {
            Setup::Ready => None,
            Setup::Install => None,
            Setup::NoRustup => Some(NO_RUSTUP),
            Setup::Declined => Some(DECLINED),
        }
    }
}

/// What is done about rust-analyzer: nothing where it is there; else rustup adds it, unless the
/// user, where one was asked, does not mean yes.
pub fn ensure_rust_analyzer(found: bool, has_rustup: bool, answer: &Option<String>) -> (r: Setup)
    ensures
        r == if found {
            Setup::Ready
        } else if !has_rustup {
            Setup::NoRustup
        } else {
            match answer.deep_view() {
                Some(line) => if means_yes(line) {
                    Setup::Install
                } else {
                    Setup::Declined
                },
                None => Setup::Install,
            }
        },
{
    if found {
        return Setup::Ready;
    }
    if !has_rustup {
        return Setup::NoRustup;
    }
    match answer {
        Some(line) => if is_yes(line) {
            Setup::Install
        } else {
            Setup::Declined
        },
        None => Setup::Install,
    }
}

// ---------------------------------------------------------------------------
// Places of names
// ---------------------------------------------------------------------------

/// The byte can be part of a name. `wide` takes every letter and digit of Latin-1 for one.
pub open spec fn is_name_byte(b: u8, wide: bool) -> bool {
    b == 95 || if wide {
        alphanumeric(b as char)
    } else {
        (48 <= b && b <= 57) || (65 <= b && b <= 90) || (97 <= b && b <= 122)
    }
}

/// The name stands at position `i` of the line, with no further byte of a name before it or
/// behind it.
pub open spec fn name_stands_at(line: Seq<u8>, name: Seq<u8>, i: int, wide: bool) -> bool {
    &&& 0 <= i && i + name.len() <= line.len()
    &&& line.subrange(i, i + name.len()) == name
    &&& i == 0 || !is_name_byte(line[i - 1], wide)
    &&& i + name.len() >= line.len() || !is_name_byte(line[i + name.len()], wide)
}

/// The first position from `i` on at which the name stands.
pub open spec fn name_from(line: Seq<u8>, name: Seq<u8>, i: int, wide: bool) -> Option<int>
    decreases line.len() + 1 - i,
{
    if i < 0 || i + name.len() > line.len() {
        None
    } else if name_stands_at(line, name, i, wide) {
        Some(i)
    } else {
        name_from(line, name, i + 1, wide)
    }
}

fn check_name_byte(b: u8, wide: bool) -> (r: bool)
    ensures
        r == is_name_byte(b, wide),
{
    if b == 95 {
        true
    } else if wide {
        char_is_alphanumeric(b as char)
    } else {
        (48 <= b && b <= 57) || (65 <= b && b <= 90) || (97 <= b && b <= 122)
    }
}

fn bytes_stand(line: &[u8], name: &[u8], i: usize) -> (r: bool)
    requires
        i + name@.len() <= line@.len(),
    ensures
        r == (line@.subrange(i as int, i + name@.len()) == name@),
{
    let size: usize = line.len();
    let mut k: usize = 0;
    while k < name.len()
        invariant
            size == line@.len(),
            k <= name@.len(),
            i + name@.len() <= line@.len(),
            forall|j: int| 0 <= j < k ==> line@[i + j] == name@[j],
        decreases name@.len() - k,
    {
        if line[i + k] != name[k] {
            assert(line@.subrange(i as int, i + name@.len())[k as int] == line@[i + k]);
            return false;
        }
        k = k + 1;
    }
    assert(line@.subrange(i as int, i + name@.len()) =~= name@);
    true
}

/// The first position, in bytes, at which a name stands in a line.
pub fn find_name(line: &str, name: &str, wide: bool) -> (r: Option<usize>)
    ensures
        match r {
            Some(i) => name_from(encode_utf8(line@), encode_utf8(name@), 0, wide) == Some(i as int),
            None => name_from(encode_utf8(line@), encode_utf8(name@), 0, wide) is None,
        },
{
    let l = line.as_bytes();
    let s = name.as_bytes();
    if s.len() > l.len() {
        return None;
    }
    let last: usize = l.len() - s.len();
    let size: usize = l.len();
    let mut i: usize = 0;
    loop
        invariant
            l@ == encode_utf8(line@),
            s@ == encode_utf8(name@),
            size == l@.len(),
            last + s@.len() == l@.len(),
            i <= last,
            name_from(l@, s@, 0, wide) == name_from(l@, s@, i as int, wide),
        decreases last - i,
    {
        if bytes_stand(l, s, i) {
            let before_ok = i == 0 || !check_name_byte(l[i - 1], wide);
            let after: usize = i + s.len();
            let after_ok = after >= l.len() || !check_name_byte(l[after], wide);
            if before_ok && after_ok {
                return Some(i);
            }
        }
        if i == last {
            assert(name_from(l@, s@, last + 1, wide) is None);
            return None;
        }
        i = i + 1;
    }
}

/// The place of a name, in bytes, on a line of a file, counted from 1; `fallback` where the file
/// cannot be read, or has not the line, or the name does not stand on it.
pub open spec fn name_place(
    content: Option<Seq<char>>,
    line: int,
    name: Seq<char>,
    wide: bool,
    fallback: u32,
) -> u32 {
    match content {
        Some(text) => {
            let all = line_seq(text);
            let k = if line < 1 {
                0
            } else {
                line - 1
            };
            if k < all.len() {
                match name_from(encode_utf8(all[k]), encode_utf8(name), 0, wide) {
                    Some(i) => #[verifier::truncate]
                    (i as u32),
                    None => fallback,
                }
            } else {
                fallback
            }
        },
        None => fallback,
    }
}

/// The place of a name on a line of a file.
pub fn place_of_name(content: &Option<String>, line: u64, name: &str, wide: bool, fallback: u32) -> (r:
    u32)
    ensures
        r == name_place(content.deep_view(), line as int, name@, wide, fallback),
{
    let text = match content {
        Some(t) => t,
        None => {
            return fallback;
        },
    };
    let all = lines(text);
    assert(views(all@) == line_seq(text@));
    assert(views(all@).len() == all@.len());
    let k: u64 = if line < 1 {
        0
    } else {
        line - 1
    };
    if k < all.len() as u64 {
        let at: usize = k as usize;
        assert(views(all@)[at as int] == all@[at as int]@);
        match find_name(&all[at], name, wide) {
            Some(i) => #[verifier::truncate]
            (i as u32),
            None => fallback,
        }
    } else {
        fallback
    }
}

/// The place, in bytes, at which a name stands on a line of a file, counted from 1; 0 where it
/// is not found.
pub fn char_offset_of_name(content: &Option<String>, line_1indexed: u32, name: &str) -> (r: u32)
    ensures
        r == name_place(content.deep_view(), line_1indexed as int, name@, false, 0),
{
    place_of_name(content, line_1indexed as u64, name, false, 0)
}

// ---------------------------------------------------------------------------
// Laws
// ---------------------------------------------------------------------------

/// The last length in a header counts, and a header without one says 0. One line with a length
/// that cannot be read spoils the header.
pub proof fn last_length_counts(all: Seq<Seq<char>>, n: int)
    requires
        0 <= n <= all.len(),
    ensures
        length_after(all, n) is None <==> exists|i: int|
            0 <= i < n && header_of(#[trigger] all[i]) is Bad,
        forall|i: int|
            0 <= i < n && length_after(all, n) is Some && header_of(#[trigger] all[i]) is Length && (
            forall|j: int| i < j < n ==> !(header_of(#[trigger] all[j]) is Length))
                ==> header_of(all[i]) == HeaderLine::Length(length_after(all, n)->0),
        length_after(all, n) is Some && (forall|i: int|
            0 <= i < n ==> !(header_of(#[trigger] all[i]) is Length)) ==> length_after(all, n)
            == Some(0u64),
    decreases n,
{
    if n > 0 {
        last_length_counts(all, n - 1);
        assert forall|i: int|
            0 <= i < n && length_after(all, n) is Some && header_of(#[trigger] all[i]) is Length && (
            forall|j: int| i < j < n ==> !(header_of(#[trigger] all[j]) is Length)) implies header_of(
            all[i],
        ) == HeaderLine::Length(length_after(all, n)->0) by {
            if i < n - 1 {
                assert(!(header_of(all[n - 1]) is Length));
            }
        }
        if header_of(all[n - 1]) is Bad {
            assert(header_of(all[n - 1]) is Bad);
        }
    }
}

/// Of the lines of a header one gives the length, an empty one ends it, and others do not count.
pub proof fn header_lines_are_told_apart(line: Seq<char>)
    ensures
        header_of(line) is End <==> trimmed(line).len() == 0,
        trimmed(line).len() > 0 && !crate::text::begins_with(trimmed(line), "Content-Length: "@)
            <==> header_of(line) is Other,
        header_of(line) is Length ==> crate::text::begins_with(
            trimmed(line),
            "Content-Length: "@,
        ),
{
    reveal_strlit("Content-Length: ");
}

/// Work that ends is no longer under way; other work is, in the order in which it began.
pub proof fn other_work_goes_on(tokens: Seq<Seq<char>>, token: Seq<char>, n: int)
    requires
        0 <= n <= tokens.len(),
    ensures
        without_token(tokens, token, n) == tokens.take(n).filter(|t: Seq<char>| t != token),
    decreases n,
{
    reveal(Seq::filter);
    if n > 0 {
        other_work_goes_on(tokens, token, n - 1);
        assert(tokens.take(n).drop_last() =~= tokens.take(n - 1));
        assert(tokens.take(n).last() == tokens[n - 1]);
    } else {
        assert(tokens.take(n) =~= Seq::empty());
    }
}

/// Work is under way from its beginning to its end; a report changes nothing of that, and no
/// message changes anything of other work.
pub proof fn work_is_under_way(
    active: Seq<Seq<char>>,
    msg: JsonView,
    token: Seq<char>,
    other: Seq<char>,
)
    requires
        other != token,
    ensures
        active_after(active, msg, token).contains(other) <==> active.contains(other),
        progress_text(msg, "kind"@) != "begin"@ && progress_text(msg, "kind"@) != "end"@
            ==> active_after(active, msg, token) == active,
        progress_text(msg, "kind"@) == "begin"@ && active.contains(token) ==> active_after(
            active,
            msg,
            token,
        ) == active,
{
    crate::model::push_holds(active, token, other);
    others_go_on(active, token, active.len() as int, other);
    assert(active.take(active.len() as int) =~= active);
}

proof fn others_go_on(tokens: Seq<Seq<char>>, token: Seq<char>, n: int, other: Seq<char>)
    requires
        0 <= n <= tokens.len(),
        other != token,
    ensures
        without_token(tokens, token, n).contains(other) <==> tokens.take(n).contains(other),
    decreases n,
{
    if n > 0 {
        others_go_on(tokens, token, n - 1, other);
        assert(tokens.take(n) =~= tokens.take(n - 1).push(tokens[n - 1]));
        crate::model::push_holds(tokens.take(n - 1), tokens[n - 1], other);
        crate::model::push_holds(without_token(tokens, token, n - 1), tokens[n - 1], other);
    }
}

/// Work that begins gives the title; a later message changes it only where it has one.
pub proof fn titles_follow_the_work(title: Seq<char>, msg: JsonView)
    ensures
        progress_text(msg, "kind"@) == "begin"@ ==> title_after(title, msg) == progress_text(
            msg,
            "title"@,
        ),
        (progress_text(msg, "kind"@) == "report"@ || progress_text(msg, "kind"@) == "end"@)
            && progress_text(msg, "title"@).len() > 0 ==> title_after(title, msg) == progress_text(
            msg,
            "title"@,
        ),
        progress_text(msg, "kind"@) != "begin"@ && progress_text(msg, "title"@).len() == 0
            ==> title_after(title, msg) == title,
        progress_text(msg, "kind"@) != "begin"@ && progress_text(msg, "kind"@) != "report"@
            && progress_text(msg, "kind"@) != "end"@ ==> title_after(title, msg) == title,
{
}

/// A line on progress starts with the title, and shows the message and the percentage that the
/// server sends.
pub proof fn progress_is_shown(title: Seq<char>, msg: JsonView)
    ensures
        ({
            let value = field_of(field_of(msg, "params"@), "value"@);
            let message = text_in(field_of(value, "message"@));
            let percent = u64_in(field_of(value, "percentage"@));
            &&& message is None && percent is None ==> progress_line(title, msg) == title
            &&& message matches Some(m) ==> m.len() > 0 && percent is None ==> progress_line(
                title,
                msg,
            ) == title + "  "@ + m
            &&& message matches Some(m) ==> (percent matches Some(p) ==> m.len() > 0
                ==> progress_line(title, msg) == title + "  "@ + m + " ("@ + dec(p as nat) + "%)"@)
            &&& message is None ==> (percent matches Some(p) ==> progress_line(title, msg) == title
                + " ("@ + dec(p as nat) + "%)"@)
        }),
{
    reveal_strlit("");
}

/// A rename is asked for again exactly where the server says that what it knew has changed, four
/// times at most, after a wait that grows by half a second each time.
pub proof fn changed_contents_are_tried_again(response: JsonView, attempts: int, wait: u64)
    requires
        0 <= attempts <= u32::MAX,
    ensures
        rename_step_of(response, true, attempts) == RenameStep::Retry(wait) <==> i64_in(
            field_of(field_of(response, "error"@), "code"@),
        ) == Some(-32801int) && attempts <= 4 && wait == 500 * attempts,
        rename_step_of(response, true, attempts) is Retry || rename_step_of(
            response,
            true,
            attempts,
        ) is Refused,
        rename_step_of(response, false, attempts) is Nothing <==> field_of(response, "result"@)
            == JsonView::Null,
        rename_step_of(response, false, attempts) is Done <==> field_of(response, "result"@)
            != JsonView::Null,
{
}

/// An empty answer means yes, and so do `y` and `yes`, however they are written; nothing else
/// does.
pub proof fn yes_is_meant(line: Seq<char>)
    ensures
        means_yes(line) <==> lowercase(trimmed(line)).len() == 0 || lowercase(trimmed(line)) == "y"@
            || lowercase(trimmed(line)) == "yes"@,
{
}

/// The name is found at the first place where it stands by itself: no letter, digit or low
/// line may touch it. Where it stands nowhere so, it is not found.
pub proof fn first_whole_name_is_found(line: Seq<u8>, name: Seq<u8>, i: int, wide: bool)
    requires
        0 <= i,
    ensures
        name_from(line, name, i, wide) is None <==> forall|j: int|
            i <= j ==> !#[trigger] name_stands_at(line, name, j, wide),
        name_from(line, name, i, wide) matches Some(k) ==> i <= k && name_stands_at(
            line,
            name,
            k,
            wide,
        ) && forall|j: int| i <= j < k ==> !#[trigger] name_stands_at(line, name, j, wide),
    decreases line.len() + 1 - i,
{
    if i + name.len() <= line.len() && !name_stands_at(line, name, i, wide) {
        first_whole_name_is_found(line, name, i + 1, wide);
        assert forall|j: int|
            i <= j && (forall|m: int| i + 1 <= m ==> !#[trigger] name_stands_at(line, name, m, wide))
            implies !#[trigger] name_stands_at(line, name, j, wide) by {}
    }
}

/// A name stands by itself where its bytes do and where neither the byte before it nor the one
/// after it could belong to a name.
pub proof fn names_stand_by_themselves(line: Seq<u8>, name: Seq<u8>, i: int)
    requires
        0 < i,
        i + name.len() < line.len(),
    ensures
        name_stands_at(line, name, i, false) <==> (forall|k: int|
            0 <= k < name.len() ==> #[trigger] line[i + k] == name[k]) && ({
            let apart = |b: u8|
                b != '_' as u8 && !('0' as u8 <= b <= '9' as u8) && !('A' as u8 <= b <= 'Z' as u8)
                    && !('a' as u8 <= b <= 'z' as u8);
            apart(line[i - 1]) && apart(line[i + name.len()])
        }),
{
    let part = line.subrange(i, i + name.len());
    if part == name {
        assert forall|k: int| 0 <= k < name.len() implies #[trigger] line[i + k] == name[k] by {
            assert(part[k] == line[i + k]);
        }
    }
    if forall|k: int| 0 <= k < name.len() ==> #[trigger] line[i + k] == name[k] {
        assert forall|k: int| 0 <= k < name.len() implies part[k] == name[k] by {
            assert(line[i + k] == name[k]);
        }
        assert(part =~= name);
    }
}

/// A name is looked for on its own line, counted from 1; without the text, the line or the name
/// the place that is given instead counts.
pub proof fn names_are_looked_for_on_their_line(
    content: Option<Seq<char>>,
    line: int,
    name: Seq<char>,
    wide: bool,
    fallback: u32,
)
    requires
        line >= 1,
    ensures
        content is None ==> name_place(content, line, name, wide, fallback) == fallback,
        content matches Some(text) ==> line > line_seq(text).len() ==> name_place(
            content,
            line,
            name,
            wide,
            fallback,
        ) == fallback,
        content matches Some(text) ==> line <= line_seq(text).len() ==> {
            let at = name_from(encode_utf8(line_seq(text)[line - 1]), encode_utf8(name), 0, wide);
            &&& at is None ==> name_place(content, line, name, wide, fallback) == fallback
            &&& at matches Some(i) ==> i <= u32::MAX ==> name_place(
                content,
                line,
                name,
                wide,
                fallback,
            ) == i
        },
{
    if let Some(text) = content {
        if line <= line_seq(text).len() {
            first_whole_name_is_found(
                encode_utf8(line_seq(text)[line - 1]),
                encode_utf8(name),
                0,
                wide,
            );
        }
    }
}

} // verus!
