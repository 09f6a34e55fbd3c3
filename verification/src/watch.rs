//! Watching a project: when it is indexed again, and what is answered to requests.

use vstd::prelude::*;

use crate::ipc::WatchResponse;
use crate::language::{detect_language, language_of_file};
use crate::model::{or_text, views, Dup};
use crate::text::{
    concat2, concat3, contains, has_str, i64_text, int_text, int_value, parse_i64, str_eq,
    strip_prefix, without_prefix,
};

verus! {

broadcast use crate::model::group_views;

// ---------------------------------------------------------------------------
// Changes of files
// ---------------------------------------------------------------------------

/// What happened to files.
#[derive(Clone, Copy, PartialEq, Eq, Structural, Debug)]
pub enum FileEvent {
    Created,
    Written,
    Removed,
    Other,
}

/// The path is that of a source file, and not of a file that the program keeps.
pub open spec fn is_source(path: Seq<char>) -> bool {
    !has_str(path, "/.graphlite/"@) && language_of_file(path) is Some
}

/// The event calls for indexing: a source file was made, written or removed.
pub open spec fn calls_for_index(event: FileEvent, paths: Seq<Seq<char>>) -> bool {
    event != FileEvent::Other && exists|i: int| 0 <= i < paths.len() && is_source(#[trigger] paths[i])
}

/// Whether the event calls for indexing.
pub fn is_relevant(event: FileEvent, paths: &Vec<String>) -> (r: bool)
    ensures
        r == calls_for_index(event, views(paths@)),
{
    if let FileEvent::Other = event {
        return false;
    }
    let mut i: usize = 0;
    while i < paths.len()
        invariant
            event != FileEvent::Other,
            i <= paths@.len(),
            forall|k: int| 0 <= k < i ==> !is_source(#[trigger] views(paths@)[k]),
        decreases paths@.len() - i,
    {
        assert(views(paths@)[i as int] == paths@[i as int]@);
        if !contains(&paths[i], "/.graphlite/") && detect_language(&paths[i]).is_some() {
            return true;
        }
        i = i + 1;
    }
    false
}

// ---------------------------------------------------------------------------
// The loop
// ---------------------------------------------------------------------------

/// What the loop is woken by.
#[derive(Clone, Copy, PartialEq, Eq, Structural, Debug)]
pub enum Wake {
    /// A source file has changed.
    FileChanged,
    /// A request has come.
    Request,
    /// Nothing has come for as long as changes are waited for.
    Quiet,
    /// Nothing will come any more.
    Closed,
}

/// What the loop does next.
#[derive(Clone, Copy, PartialEq, Eq, Structural, Debug)]
pub enum Action {
    /// Wait on.
    Wait,
    /// Answer the request.
    Answer,
    /// Index the project.
    Reindex,
    /// End.
    Stop,
}

/// What the loop does, and whether indexing is due after it.
pub open spec fn next_step(pending: bool, wake: Wake) -> (bool, Action) {
    match wake {
        Wake::FileChanged => (true, Action::Wait),
        Wake::Request => (pending, Action::Answer),
        Wake::Quiet => (false, Action::Reindex),
        Wake::Closed => (pending, Action::Stop),
    }
}

/// What the loop does, and whether indexing is due after it.
pub fn step(pending: bool, wake: Wake) -> (r: (bool, Action))
    ensures
        r == next_step(pending, wake),
{
    match wake {
        Wake::FileChanged => (true, Action::Wait),
        Wake::Request => (pending, Action::Answer),
        Wake::Quiet => (false, Action::Reindex),
        Wake::Closed => (pending, Action::Stop),
    }
}

/// How long the loop waits, in milliseconds: for as long as it takes where no indexing is due.
pub fn wait_limit(pending: bool) -> (r: Option<u64>)
    ensures
        r == if pending {
            Some(500u64)
        } else {
            None
        },
{
    if pending {
        Some(500)
    } else {
        None
    }
}

/// Whether indexing is due after the first `n` wakes.
pub open spec fn due_after(wakes: Seq<Wake>, n: int) -> bool
    decreases n,
{
    if n <= 0 {
        false
    } else {
        next_step(due_after(wakes, n - 1), wakes[n - 1]).0
    }
}

/// How often the project was indexed in the first `n` wakes.
pub open spec fn indexed_in(wakes: Seq<Wake>, n: int) -> nat
    decreases n,
{
    if n <= 0 {
        0
    } else {
        indexed_in(wakes, n - 1) + if next_step(due_after(wakes, n - 1), wakes[n - 1]).1
            == Action::Reindex {
            1nat
        } else {
            0nat
        }
    }
}

/// However many changes come before things are quiet, the project is indexed once for them,
/// and requests that come between do not lose the changes.
pub proof fn burst_is_indexed_once(wakes: Seq<Wake>, n: int)
    requires
        0 <= n <= wakes.len(),
        forall|i: int|
            0 <= i < n ==> #[trigger] wakes[i] == Wake::FileChanged || wakes[i] == Wake::Request,
    ensures
        indexed_in(wakes, n) == 0,
        due_after(wakes, n) == (exists|i: int| 0 <= i < n && #[trigger] wakes[i]
            == Wake::FileChanged),
        n < wakes.len() && wakes[n] == Wake::Quiet ==> indexed_in(wakes, n + 1) == 1
            && !due_after(wakes, n + 1),
    decreases n,
{
    reveal_with_fuel(indexed_in, 2);
    reveal_with_fuel(due_after, 2);
    if n > 0 {
        burst_is_indexed_once(wakes, n - 1);
    }
}

// ---------------------------------------------------------------------------
// Finding the symbol to rename
// ---------------------------------------------------------------------------

/// How the symbol of a request is looked up.
#[derive(Debug)]
pub enum RenameLookup {
    /// By its id.
    Id(i64),
    /// By its stable id, and by its name where there is none.
    StableId(String),
    /// By its name.
    Name(String),
}

/// The symbol of a request without the mark before it.
pub open spec fn symbol_key(symbol: Seq<char>) -> Seq<char> {
    or_text(without_prefix(symbol, "sym:"@), symbol)
}

/// The id that a request names its symbol by, if it does.
pub open spec fn symbol_id(symbol: Seq<char>) -> Option<int> {
    match int_value(symbol_key(symbol)) {
        Some(n) => if i64::MIN <= n <= i64::MAX {
            Some(n)
        } else {
            None
        },
        None => None,
    }
}

/// How the symbol of a request is looked up.
pub fn rename_lookup(symbol: &str) -> (r: RenameLookup)
    ensures
        match r {
            RenameLookup::Id(i) => symbol_id(symbol@) == Some(i as int),
            RenameLookup::StableId(k) => symbol_id(symbol@) is None && k@ == symbol_key(symbol@)
                && has_str(k@, "::"@),
            RenameLookup::Name(k) => symbol_id(symbol@) is None && k@ == symbol_key(symbol@)
                && !has_str(k@, "::"@),
        },
{
    let key = match strip_prefix(symbol, "sym:") {
        Some(k) => k,
        None => symbol.to_owned(),
    };
    if let Some(id) = parse_i64(&key) {
        return RenameLookup::Id(id);
    }
    if contains(&key, "::") {
        RenameLookup::StableId(key)
    } else {
        RenameLookup::Name(key)
    }
}

/// A symbol that can be renamed: its file, its first line, its name and its role.
#[derive(Debug)]
pub struct RenameTarget {
    pub file: String,
    pub range_start: u32,
    pub name: String,
    pub role: String,
}

/// What a [`RenameTarget`] holds.
#[verifier::ext_equal]
pub struct RenameTargetView {
    pub file: Seq<char>,
    pub range_start: u32,
    pub name: Seq<char>,
    pub role: Seq<char>,
}

impl DeepView for RenameTarget {
    type V = RenameTargetView;

    open spec fn deep_view(&self) -> RenameTargetView {
        RenameTargetView {
            file: self.file.deep_view(),
            range_start: self.range_start.deep_view(),
            name: self.name.deep_view(),
            role: self.role.deep_view(),
        }
    }
}

impl View for RenameTarget {
    type V = RenameTargetView;

    open spec fn view(&self) -> RenameTargetView {
        self.deep_view()
    }
}

impl Dup for RenameTarget {
    fn dup(&self) -> (r: RenameTarget) {
        RenameTarget {
            file: self.file.dup(),
            range_start: self.range_start.dup(),
            name: self.name.dup(),
            role: self.role.dup(),
        }
    }
}

/// The rank of a role among symbols of one name; the least comes first.
pub open spec fn role_rank(role: Seq<char>) -> int {
    if role == "orchestrator"@ {
        0
    } else if role == "infra"@ {
        1
    } else if role == "domain"@ {
        2
    } else {
        3
    }
}

fn rank_of(role: &str) -> (r: u8)
    ensures
        r == role_rank(role@),
{
    if str_eq(role, "orchestrator") {
        0
    } else if str_eq(role, "infra") {
        1
    } else if str_eq(role, "domain") {
        2
    } else {
        3
    }
}

/// The position of the first of the first `n` symbols whose role ranks least.
pub open spec fn least_rank(rows: Seq<RenameTargetView>, n: int) -> int
    decreases n,
{
    if n <= 1 {
        0
    } else if role_rank(rows[n - 1].role) < role_rank(rows[least_rank(rows, n - 1)].role) {
        n - 1
    } else {
        least_rank(rows, n - 1)
    }
}

/// The symbol to rename among those of the name: one whose role ranks least.
pub open spec fn by_rank(rows: Seq<RenameTargetView>) -> Option<RenameTargetView> {
    if rows.len() == 0 {
        None
    } else {
        Some(rows[least_rank(rows, rows.len() as int)])
    }
}

/// The symbol to rename ranks least of those of the name.
pub proof fn least_rank_is_least(rows: Seq<RenameTargetView>, n: int)
    requires
        1 <= n <= rows.len(),
    ensures
        0 <= least_rank(rows, n) < n,
        forall|i: int|
            0 <= i < n ==> role_rank(rows[least_rank(rows, n)].role) <= role_rank(
                (#[trigger] rows[i]).role,
            ),
    decreases n,
{
    if n > 1 {
        least_rank_is_least(rows, n - 1);
    }
}

fn pick_by_rank(rows: &Vec<RenameTarget>) -> (r: Option<RenameTarget>)
    ensures
        r.deep_view() == by_rank(views(rows@)),
{
    if rows.len() == 0 {
        return None;
    }
    let mut best: usize = 0;
    let mut n: usize = 1;
    while n < rows.len()
        invariant
            1 <= n <= rows@.len(),
            best < n,
            best == least_rank(views(rows@), n as int),
        decreases rows@.len() - n,
    {
        assert(views(rows@)[n as int] == rows@[n as int]@);
        assert(views(rows@)[best as int] == rows@[best as int]@);
        if rank_of(&rows[n].role) < rank_of(&rows[best].role) {
            best = n;
        }
        n = n + 1;
    }
    assert(views(rows@)[best as int] == rows@[best as int]@);
    Some(rows[best].dup())
}

/// The symbol to rename, given what was found: under its id, under its stable id, and those
/// with its name.
pub fn resolve_node_for_rename(
    symbol: &str,
    by_id: Option<RenameTarget>,
    by_stable_id: Option<RenameTarget>,
    by_name: &Vec<RenameTarget>,
) -> (r: Result<RenameTarget, String>)
    ensures
        match symbol_id(symbol@) {
            Some(i) => match by_id {
                Some(t) => r matches Ok(found) && found == t,
                None => r matches Err(m) && m@ == "node id "@ + int_text(i) + " not found"@,
            },
            None => if has_str(symbol_key(symbol@), "::"@) && by_stable_id is Some {
                r matches Ok(found) && found == by_stable_id->0
            } else {
                match by_rank(views(by_name@)) {
                    Some(t) => r matches Ok(found) && found@ == t,
                    None => r matches Err(m) && m@ == "symbol '"@ + symbol@
                        + "' not found in database"@,
                }
            },
        },
{
    let stable = match rename_lookup(symbol) {
        RenameLookup::Id(id) => {
            return match by_id {
                Some(t) => Ok(t),
                None => Err(concat3("node id ", &i64_text(id), " not found")),
            };
        },
        RenameLookup::StableId(_) => true,
        RenameLookup::Name(_) => false,
    };
    if stable {
        if let Some(t) = by_stable_id {
            return Ok(t);
        }
    }
    match pick_by_rank(by_name) {
        Some(t) => Ok(t),
        None => Err(concat3("symbol '", symbol, "' not found in database")),
    }
}

// ---------------------------------------------------------------------------
// Answers
// ---------------------------------------------------------------------------

/// What renaming came to.
pub enum RenameOutcome {
    /// The symbol was not found, for the reason given.
    NotFound(String),
    /// The language server could not be started, for the reason given.
    NoServer(String),
    /// The language server refused, for the reason given.
    Refused(String),
    /// The edit, as JSON.
    Done(String),
}

/// The answer to a request to rename, and whether the language server is kept: after a refusal
/// it may not be in order any more.
pub fn dispatch_rename(outcome: RenameOutcome) -> (r: (WatchResponse, bool))
    ensures
        match outcome {
            RenameOutcome::NotFound(e) => !r.0.ok && r.0.error == Some(e) && r.0.data is None
                && r.1,
            RenameOutcome::NoServer(e) => !r.0.ok && (r.0.error matches Some(m) && m@
                == "failed to start rust-analyzer: "@ + e@) && r.0.data is None && r.1,
            RenameOutcome::Refused(e) => !r.0.ok && r.0.error == Some(e) && r.0.data is None
                && !r.1,
            RenameOutcome::Done(json) => r.0.ok && r.0.error is None && r.0.data == Some(json)
                && r.1,
        },
{
    match outcome {
        RenameOutcome::NotFound(e) => (WatchResponse::of(Err(e)), true),
        RenameOutcome::NoServer(e) => (
            WatchResponse::of(Err(concat2("failed to start rust-analyzer: ", &e))),
            true,
        ),
        RenameOutcome::Refused(e) => (WatchResponse::of(Err(e)), false),
        RenameOutcome::Done(json) => (WatchResponse::of(Ok(Some(json))), true),
    }
}

/// The answer to a request that could not be read.
pub fn unreadable(why: &str) -> (r: WatchResponse)
    ensures
        !r.ok,
        r.error matches Some(m) && m@ == "parse error: "@ + why@,
        r.data is None,
{
    WatchResponse::of(Err(concat2("parse error: ", why)))
}

// ---------------------------------------------------------------------------
// Laws
// ---------------------------------------------------------------------------

/// A change calls for the index where a file in a known language is touched that lies outside
/// the index's own directory.
pub proof fn sources_call_for_the_index(event: FileEvent, paths: Seq<Seq<char>>)
    ensures
        calls_for_index(event, paths) <==> !(event is Other) && exists|i: int|
            0 <= i < paths.len() && !has_str(#[trigger] paths[i], "/.graphlite/"@)
                && language_of_file(paths[i]) is Some,
{
    if !(event is Other) && exists|i: int|
        0 <= i < paths.len() && !has_str(#[trigger] paths[i], "/.graphlite/"@) && language_of_file(
            paths[i],
        ) is Some {
        let i = choose|i: int|
            0 <= i < paths.len() && !has_str(#[trigger] paths[i], "/.graphlite/"@)
                && language_of_file(paths[i]) is Some;
        assert(is_source(paths[i]));
    }
}

/// A request is answered, and quiet brings the index up to date, whatever is pending; only a
/// change makes the index due, only quiet settles it, and only a closed channel stops the watch.
pub proof fn wakes_decide(pending: bool, wake: Wake)
    ensures
        next_step(pending, wake).1 is Answer <==> wake is Request,
        next_step(pending, wake).1 is Reindex <==> wake is Quiet,
        next_step(pending, wake).1 is Stop <==> wake is Closed,
        next_step(pending, wake).1 is Wait <==> wake is FileChanged,
        next_step(pending, wake).0 <==> wake is FileChanged || (pending && !(wake is Quiet)),
{
}

/// The mark in front of an identity does not count.
pub proof fn marks_do_not_count(key: Seq<char>)
    ensures
        symbol_key("sym:"@ + key) == key,
        !crate::text::begins_with(key, "sym:"@) ==> symbol_key(key) == key,
{
    reveal_strlit("sym:");
    let marked = "sym:"@ + key;
    assert(marked.take(4) =~= "sym:"@);
    assert(marked.skip(4) =~= key);
    assert(marked.subrange(4, marked.len() as int) =~= key);
}

/// Among symbols of one name an orchestrator is renamed before one of the infrastructure, that
/// before one of the domain, and that before any other; of equals, the first.
pub proof fn roles_decide_what_is_renamed(rows: Seq<RenameTargetView>)
    requires
        rows.len() > 0,
    ensures
        ({
            let role = |i: int| rows[i].role;
            exists|b: int|
                0 <= b < rows.len() && by_rank(rows) == Some(#[trigger] rows[b]) && forall|i: int|
                    #![trigger rows[i]]
                    0 <= i < rows.len() ==> {
                        &&& role(i) == "orchestrator"@ ==> role(b) == "orchestrator"@
                        &&& role(i) == "infra"@ ==> role(b) == "orchestrator"@ || role(b)
                            == "infra"@
                        &&& role(i) == "domain"@ ==> role(b) == "orchestrator"@ || role(b)
                            == "infra"@ || role(b) == "domain"@
                        &&& role(i) == role(b) ==> b <= i
                    }
        }),
{
    let n = rows.len() as int;
    least_rank_is_least(rows, n);
    least_rank_is_first(rows, n);
    let b = least_rank(rows, n);
    reveal_strlit("orchestrator");
    reveal_strlit("infra");
    reveal_strlit("domain");
    assert("orchestrator"@.len() == 12 && "infra"@.len() == 5 && "domain"@.len() == 6);
    assert(by_rank(rows) == Some(rows[b]));
    assert forall|i: int| #![trigger rows[i]] 0 <= i < n implies role_rank(rows[b].role)
        <= role_rank(rows[i].role) && (rows[i].role == rows[b].role ==> b <= i) by {
        if i < b {
            assert(role_rank(rows[i].role) > role_rank(rows[b].role));
        }
    }
}

proof fn least_rank_is_first(rows: Seq<RenameTargetView>, n: int)
    requires
        1 <= n <= rows.len(),
    ensures
        forall|i: int|
            0 <= i < least_rank(rows, n) ==> role_rank((#[trigger] rows[i]).role) > role_rank(
                rows[least_rank(rows, n)].role,
            ),
    decreases n,
{
    if n > 1 {
        least_rank_is_least(rows, n - 1);
        least_rank_is_first(rows, n - 1);
    }
}

} // verus!
