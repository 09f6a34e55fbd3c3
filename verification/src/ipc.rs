//! Talking to a watching process.

use vstd::prelude::*;

use crate::paths::{join_path, joined_path};

verus! {

/// A request to a watching process. A confidence is carried by its bits.
#[derive(Debug)]
pub enum WatchMsg {
    /// Ask whether it is there.
    Ping,
    /// Add to the note on a symbol.
    Annotate {
        symbol: String,
        intent: Option<String>,
        behavior: Option<String>,
        tags: Option<String>,
        source: String,
        confidence: u64,
    },
    /// Index again.
    Reindex { file: Option<String> },
    /// Rename a symbol by its meaning; the answer's data is the edit as JSON. The symbol is a
    /// stable id, `sym:name` or an integer id.
    Rename { symbol: String, new_name: String },
}

/// What a watching process answers: the data of requests that ask for some, or an error.
#[derive(Debug)]
pub struct WatchResponse {
    pub ok: bool,
    pub error: Option<String>,
    pub data: Option<String>,
}

impl WatchResponse {
    /// The answer that a result comes to.
    pub fn of(result: Result<Option<String>, String>) -> (r: WatchResponse)
        ensures
            match result {
                Ok(data) => r.ok && r.error is None && r.data == data,
                Err(e) => !r.ok && r.error == Some(e) && r.data is None,
            },
    {
        match result {
            Ok(data) => WatchResponse { ok: true, error: None, data },
            Err(e) => WatchResponse { ok: false, error: Some(e), data: None },
        }
    }
}

/// How long an answer to a request is waited for, in seconds, by the one who asks.
pub fn read_timeout(msg: &WatchMsg) -> (r: u64)
    ensures
        r == if msg is Rename {
            120u64
        } else {
            2u64
        },
{
    match msg {
        WatchMsg::Rename { symbol: _, new_name: _ } => 120,
        _ => 2,
    }
}

/// The socket that a watching process of a project listens on.
pub fn sock_path(root: &str) -> (r: String)
    ensures
        r@ == joined_path(root@, ".graphlite/watcher.sock"@),
{
    join_path(root, ".graphlite/watcher.sock")
}

} // verus!
