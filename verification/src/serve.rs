//! Serving the picture of a code graph over HTTP, with a sign to reload it on changes.

use vstd::prelude::*;

use crate::text::{
    byte_len, byte_size, chars_of, concat2, dec, index_char, next_char, next_char_is_least, replace,
    replaced, str_eq, string_of, usize_text,
};

verus! {

broadcast use crate::model::group_views;

/// What makes a page reload on a sign.
pub const SSE_SCRIPT: &'static str = r#"<script>
(function(){
  var es = new EventSource('/events');
  es.onmessage = function(){ location.reload(); };
})();
</script>"#;

/// The head of the stream of signs.
pub const SSE_HEADERS: &'static str =
    "HTTP/1.1 200 OK\r\nContent-Type: text/event-stream\r\nCache-Control: no-cache\r\nConnection: keep-alive\r\nAccess-Control-Allow-Origin: *\r\n\r\n";

/// The answer to a request for what is not there.
pub const NOT_FOUND: &'static str =
    "HTTP/1.1 404 Not Found\r\nContent-Length: 0\r\nConnection: close\r\n\r\n";

/// A page that reloads on a sign.
pub fn inject_sse(html: &str) -> (r: String)
    ensures
        r@ == replaced(html@, "</body>"@, SSE_SCRIPT@ + "</body>"@),
{
    proof {
        reveal_strlit("</body>");
    }
    replace(html, "</body>", &concat2(SSE_SCRIPT, "</body>"))
}

/// What a request asks for.
#[derive(Clone, Copy, PartialEq, Eq, Structural, Debug)]
pub enum Route {
    /// The page.
    Page,
    /// The stream of signs.
    Events,
    /// What is not there.
    Missing,
}

/// The second word of a request line, up to the next space; none where there is no space.
pub open spec fn request_path(line: Seq<char>) -> Option<Seq<char>> {
    let a = next_char(line, ' ', 0);
    if a >= line.len() {
        None
    } else {
        Some(line.subrange(a + 1, next_char(line, ' ', a + 1)))
    }
}

/// What a request line asks for; none where it names no path.
pub open spec fn route_of(line: Seq<char>) -> Option<Route> {
    match request_path(line) {
        Some(p) => Some(
            if p == "/"@ || p == "/index.html"@ {
                Route::Page
            } else if p == "/events"@ {
                Route::Events
            } else {
                Route::Missing
            },
        ),
        None => None,
    }
}

/// What a request line asks for.
pub fn route(request_line: &str) -> (r: Option<Route>)
    ensures
        r == route_of(request_line@),
{
    let v = chars_of(request_line);
    let a: usize = index_char(&v, ' ', 0);
    if a >= v.len() {
        return None;
    }
    proof {
        next_char_is_least(request_line@, ' ', a + 1);
    }
    let b: usize = index_char(&v, ' ', a + 1);
    let path = string_of(&v, a + 1, b);
    if str_eq(&path, "/") || str_eq(&path, "/index.html") {
        Some(Route::Page)
    } else if str_eq(&path, "/events") {
        Some(Route::Events)
    } else {
        Some(Route::Missing)
    }
}

/// The header lines of a request are over: an empty line, or nothing more to read.
pub fn ends_headers(line: &str) -> (r: bool)
    ensures
        r == (line@ == "\r\n"@ || line@.len() == 0),
{
    str_eq(line, "\r\n") || line.is_empty()
}

/// The answer that brings the page.
pub fn serve_html(body: &str) -> (r: String)
    ensures
        r@ == "HTTP/1.1 200 OK\r\nContent-Type: text/html; charset=utf-8\r\nContent-Length: "@ + dec(
            byte_size(body@),
        ) + "\r\nCache-Control: no-store\r\nConnection: close\r\n\r\n"@ + body@,
{
    let mut out = concat2(
        "HTTP/1.1 200 OK\r\nContent-Type: text/html; charset=utf-8\r\nContent-Length: ",
        &usize_text(byte_len(body)),
    );
    out.append("\r\nCache-Control: no-store\r\nConnection: close\r\n\r\n");
    out.append(body);
    out
}

/// What ends a wait on the stream of signs.
#[derive(Clone, Copy, PartialEq, Eq, Structural, Debug)]
pub enum Wake {
    /// The code graph has changed.
    Changed,
    /// Nothing has happened for a while.
    Quiet,
    /// Nothing will happen any more.
    Gone,
}

/// What is sent on the stream of signs; none where it ends.
pub fn sse_frame(wake: Wake) -> (r: Option<&'static str>)
    ensures
        match wake {
            Wake::Changed => r matches Some(s) && s@ == "data: reload\n\n"@,
            Wake::Quiet => r matches Some(s) && s@ == ": ping\n\n"@,
            Wake::Gone => r is None,
        },
{
    match wake {
        Wake::Changed => Some("data: reload\n\n"),
        Wake::Quiet => Some(": ping\n\n"),
        Wake::Gone => None,
    }
}

/// A request asks for what the second of its words names: the page, the signs, or something
/// that is not there. A line of one word asks for nothing.
pub proof fn second_word_is_asked_for(method: Seq<char>, path: Seq<char>, rest: Seq<char>)
    requires
        !method.contains(' '),
        !path.contains(' '),
    ensures
        route_of(method) is None,
        route_of(method + " "@ + path + " "@ + rest) == Some(
            if path == "/"@ || path == "/index.html"@ {
                Route::Page
            } else if path == "/events"@ {
                Route::Events
            } else {
                Route::Missing
            },
        ),
{
    reveal_strlit(" ");
    next_char_is_least(method, ' ', 0);
    let line = method + " "@ + path + " "@ + rest;
    let a = method.len() as int;
    assert(line[a] == ' ');
    next_char_is_least(line, ' ', 0);
    let k = next_char(line, ' ', 0);
    if k < a {
        assert(line[k] == method[k]);
    }
    assert(k == a);
    let b = a + 1 + path.len();
    assert(line[b] == ' ');
    next_char_is_least(line, ' ', a + 1);
    let m = next_char(line, ' ', a + 1);
    if m < b {
        assert(line[m] == path[m - a - 1]);
    }
    assert(m == b);
    assert(line.subrange(a + 1, b) =~= path);
}

} // verus!
