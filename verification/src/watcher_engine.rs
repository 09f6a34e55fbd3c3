//! Watching a project for a server: indexing, then what language servers add to it.

use vstd::prelude::*;

use crate::model::{views, Dup};
use crate::text::str_eq;

verus! {

broadcast use crate::model::group_views;

/// What indexing came to.
#[derive(Clone, Copy, PartialEq, Eq, Structural, Debug)]
pub enum Indexed {
    /// It failed.
    Failed,
    /// So many files had changed.
    Changed(usize),
}

/// After indexing, language servers are asked and a sign is given: only where files had
/// changed.
pub fn goes_on(indexed: Indexed) -> (r: bool)
    ensures
        r == (indexed matches Indexed::Changed(n) && n > 0),
{
    match indexed {
        Indexed::Failed => false,
        Indexed::Changed(n) => n > 0,
    }
}

/// What asking a language server came to.
#[derive(Clone, Copy, PartialEq, Eq, Structural, Debug)]
pub enum Asked {
    /// It answered.
    Answered,
    /// It failed.
    Failed,
    /// The thread that asked it ended early.
    Panicked,
}

/// Only a language server that answered is kept as it is.
pub fn keeps_client(asked: Asked) -> (r: bool)
    ensures
        r == (asked == Asked::Answered),
{
    match asked {
        Asked::Answered => true,
        _ => false,
    }
}

/// An edge that a language server found.
#[derive(Debug)]
pub struct LspEdge {
    pub from_id: i64,
    pub to_id: i64,
    pub edge_type: String,
    pub source: String,
}

/// What a [`LspEdge`] holds.
#[verifier::ext_equal]
pub struct LspEdgeView {
    pub from_id: i64,
    pub to_id: i64,
    pub edge_type: Seq<char>,
    pub source: Seq<char>,
}

impl DeepView for LspEdge {
    type V = LspEdgeView;

    open spec fn deep_view(&self) -> LspEdgeView {
        LspEdgeView {
            from_id: self.from_id.deep_view(),
            to_id: self.to_id.deep_view(),
            edge_type: self.edge_type.deep_view(),
            source: self.source.deep_view(),
        }
    }
}

impl View for LspEdge {
    type V = LspEdgeView;

    open spec fn view(&self) -> LspEdgeView {
        self.deep_view()
    }
}

/// What a language server says of symbols.
pub enum EdgeMsg {
    /// An edge between two symbols.
    Edge(LspEdge),
    /// The signature of a symbol.
    SigUpdate(i64, String),
}

/// What an [`EdgeMsg`] holds.
pub enum EdgeMsgView {
    Edge(LspEdgeView),
    SigUpdate(i64, Seq<char>),
}

impl DeepView for EdgeMsg {
    type V = EdgeMsgView;

    open spec fn deep_view(&self) -> EdgeMsgView {
        match self {
            EdgeMsg::Edge(e) => EdgeMsgView::Edge(e@),
            EdgeMsg::SigUpdate(id, sig) => EdgeMsgView::SigUpdate(*id, sig@),
        }
    }
}

/// The edges among the first `n` messages.
pub open spec fn edges_said(msgs: Seq<EdgeMsgView>, n: int) -> Seq<LspEdgeView>
    decreases n,
{
    if n <= 0 {
        Seq::empty()
    } else {
        match msgs[n - 1] {
            EdgeMsgView::Edge(e) => edges_said(msgs, n - 1).push(e),
            _ => edges_said(msgs, n - 1),
        }
    }
}

/// The signatures among the first `n` messages.
pub open spec fn signatures_said(msgs: Seq<EdgeMsgView>, n: int) -> Seq<(i64, Seq<char>)>
    decreases n,
{
    if n <= 0 {
        Seq::empty()
    } else {
        match msgs[n - 1] {
            EdgeMsgView::SigUpdate(id, sig) => signatures_said(msgs, n - 1).push((id, sig)),
            _ => signatures_said(msgs, n - 1),
        }
    }
}

/// What is to be stored of what a language server said: its edges and its signatures.
pub fn collect_results(msgs: Vec<EdgeMsg>) -> (r: (Vec<LspEdge>, Vec<(i64, String)>))
    ensures
        views(r.0@) == edges_said(views(msgs@), msgs@.len() as int),
        views(r.1@) == signatures_said(views(msgs@), msgs@.len() as int),
{
    let ghost given = msgs@;
    let mut edges: Vec<LspEdge> = Vec::new();
    let mut sigs: Vec<(i64, String)> = Vec::new();
    for m in it: msgs
        invariant
            it.seq() == given,
            views(edges@) == edges_said(views(given), it.index() as int),
            views(sigs@) == signatures_said(views(given), it.index() as int),
    {
        assert(m == given[it.index() as int]);
        assert(views(given)[it.index() as int] == m.deep_view());
        match m {
            EdgeMsg::Edge(e) => {
                edges.push(e);
            },
            EdgeMsg::SigUpdate(id, sig) => {
                sigs.push((id, sig));
            },
        }
    }
    (edges, sigs)
}

/// Nothing that a language server says is lost or stored twice.
pub proof fn every_message_is_kept(msgs: Seq<EdgeMsgView>, n: int)
    requires
        0 <= n <= msgs.len(),
    ensures
        edges_said(msgs, n).len() + signatures_said(msgs, n).len() == n,
    decreases n,
{
    if n > 0 {
        every_message_is_kept(msgs, n - 1);
    }
}

// ---------------------------------------------------------------------------
// The engine
// ---------------------------------------------------------------------------

/// How a language server is.
#[derive(Clone, Copy, PartialEq, Eq, Structural, Debug)]
pub enum Server {
    /// It is being started, or could not be.
    Absent,
    /// It can be asked.
    Ready,
    /// It failed when it was asked.
    Crashed,
}

/// A language, and how its server is.
#[derive(Debug)]
pub struct Client {
    pub language: String,
    pub server: Server,
}

/// What a [`Client`] holds.
#[verifier::ext_equal]
pub struct ClientView {
    pub language: Seq<char>,
    pub server: Server,
}

impl DeepView for Client {
    type V = ClientView;

    open spec fn deep_view(&self) -> ClientView {
        ClientView { language: self.language.deep_view(), server: self.server }
    }
}

impl View for Client {
    type V = ClientView;

    open spec fn view(&self) -> ClientView {
        self.deep_view()
    }
}

/// Where the engine stands: whether files have changed since it last indexed, and the servers.
#[derive(Debug)]
pub struct Engine {
    pub pending: bool,
    pub clients: Vec<Client>,
}

/// What an [`Engine`] holds.
#[verifier::ext_equal]
pub struct EngineView {
    pub pending: bool,
    pub clients: Seq<ClientView>,
}

impl Engine {
    pub open spec fn view(&self) -> EngineView {
        EngineView { pending: self.pending, clients: views(self.clients@) }
    }
}

/// What happens to the engine.
#[derive(Debug)]
pub enum Happened {
    /// A server was started, or could not be.
    Warmed { language: String, ready: bool },
    /// A source file has changed.
    FileChanged,
    /// No file has changed for a while.
    Quiet,
    /// No more changes will be heard of.
    Closed,
    /// The project was indexed, or could not be.
    Indexed(Indexed),
    /// A server was asked about the changed files.
    Asked { language: String, asked: Asked },
    /// Every server that was to be asked has been.
    Enriched,
}

/// What a [`Happened`] holds.
pub enum HappenedView {
    Warmed { language: Seq<char>, ready: bool },
    FileChanged,
    Quiet,
    Closed,
    Indexed(Indexed),
    Asked { language: Seq<char>, asked: Asked },
    Enriched,
}

impl Happened {
    pub open spec fn view(&self) -> HappenedView {
        match self {
            Happened::Warmed { language, ready } => HappenedView::Warmed {
                language: language@,
                ready: *ready,
            },
            Happened::FileChanged => HappenedView::FileChanged,
            Happened::Quiet => HappenedView::Quiet,
            Happened::Closed => HappenedView::Closed,
            Happened::Indexed(i) => HappenedView::Indexed(*i),
            Happened::Asked { language, asked } => HappenedView::Asked {
                language: language@,
                asked: *asked,
            },
            Happened::Enriched => HappenedView::Enriched,
        }
    }
}

/// What the engine does next.
#[derive(Debug)]
pub enum Next {
    /// Wait for what happens.
    Wait,
    /// Index the project, and start the servers of these languages again.
    Reindex(Vec<String>),
    /// Ask the servers of these languages about the changed files.
    Enrich(Vec<String>),
    /// Say that the graph has changed.
    Announce,
    /// End.
    Stop,
}

/// What a [`Next`] holds.
pub enum NextView {
    Wait,
    Reindex(Seq<Seq<char>>),
    Enrich(Seq<Seq<char>>),
    Announce,
    Stop,
}

impl Next {
    pub open spec fn view(&self) -> NextView {
        match self {
            Next::Wait => NextView::Wait,
            Next::Reindex(languages) => NextView::Reindex(views(languages@)),
            Next::Enrich(languages) => NextView::Enrich(views(languages@)),
            Next::Announce => NextView::Announce,
            Next::Stop => NextView::Stop,
        }
    }
}

/// The clients with the server of a language, from `i` on; a language that is not among them
/// is added.
pub open spec fn with_client(
    clients: Seq<ClientView>,
    language: Seq<char>,
    server: Server,
    i: int,
) -> Seq<ClientView>
    decreases clients.len() - i,
{
    if i < 0 || i >= clients.len() {
        clients.push(ClientView { language, server })
    } else if clients[i].language == language {
        clients.update(i, ClientView { language, server })
    } else {
        with_client(clients, language, server, i + 1)
    }
}

/// The languages among the first `n` clients whose server is so.
pub open spec fn languages_with(clients: Seq<ClientView>, server: Server, n: int) -> Seq<Seq<char>>
    decreases n,
{
    if n <= 0 {
        Seq::empty()
    } else if clients[n - 1].server == server {
        languages_with(clients, server, n - 1).push(clients[n - 1].language)
    } else {
        languages_with(clients, server, n - 1)
    }
}

/// The languages whose server is so.
pub open spec fn languages_of(clients: Seq<ClientView>, server: Server) -> Seq<Seq<char>> {
    languages_with(clients, server, clients.len() as int)
}

/// The clients while the servers that crashed are started again.
pub open spec fn restarted(clients: Seq<ClientView>) -> Seq<ClientView> {
    Seq::new(
        clients.len(),
        |i: int|
            ClientView {
                language: clients[i].language,
                server: match clients[i].server {
                    Server::Ready => Server::Ready,
                    _ => Server::Absent,
                },
            },
    )
}

/// How a server is that was started, or could not be.
pub open spec fn server_started(ready: bool) -> Server {
    if ready {
        Server::Ready
    } else {
        Server::Absent
    }
}

/// How a server is after it was asked.
pub open spec fn server_after(asked: Asked) -> Server {
    if asked == Asked::Answered {
        Server::Ready
    } else {
        Server::Crashed
    }
}

/// The engine after something has happened, and what it does next: changes are gathered until
/// they pause; then the project is indexed, and if that found changed files, the servers that
/// are ready are asked about them, and the change is announced. A server that crashed is
/// started again when the project is indexed next, and asked once it is ready.
pub open spec fn engine_step(s: EngineView, h: HappenedView) -> (EngineView, NextView) {
    match h {
        HappenedView::Warmed { language, ready } => (
            EngineView {
                pending: s.pending,
                clients: with_client(s.clients, language, server_started(ready), 0),
            },
            NextView::Wait,
        ),
        HappenedView::FileChanged => (
            EngineView { pending: true, clients: s.clients },
            NextView::Wait,
        ),
        HappenedView::Quiet => if s.pending {
            (
                EngineView { pending: false, clients: restarted(s.clients) },
                NextView::Reindex(languages_of(s.clients, Server::Crashed)),
            )
        } else {
            (s, NextView::Wait)
        },
        HappenedView::Closed => (s, NextView::Stop),
        HappenedView::Indexed(i) => if i matches Indexed::Changed(n) && n > 0 {
            (s, NextView::Enrich(languages_of(s.clients, Server::Ready)))
        } else {
            (s, NextView::Wait)
        },
        HappenedView::Asked { language, asked } => (
            EngineView {
                pending: s.pending,
                clients: with_client(s.clients, language, server_after(asked), 0),
            },
            NextView::Wait,
        ),
        HappenedView::Enriched => (s, NextView::Announce),
    }
}

fn set_client(clients: &mut Vec<Client>, language: String, server: Server)
    ensures
        views(final(clients)@) == with_client(views(old(clients)@), language@, server, 0),
{
    let ghost start = views(clients@);
    let mut i: usize = 0;
    assert(start.len() == clients@.len());
    while i < clients.len() && !str_eq(&clients[i].language, &language)
        invariant
            start == views(clients@),
            start.len() == clients@.len(),
            i <= clients@.len(),
            with_client(start, language@, server, 0) == with_client(
                start,
                language@,
                server,
                i as int,
            ),
        decreases clients@.len() - i,
    {
        assert(start[i as int] == clients@[i as int]@);
        i = i + 1;
    }
    if i < clients.len() {
        assert(start[i as int] == clients@[i as int]@);
        let c = Client { language, server };
        clients.set(i, c);
        assert(views(clients@) =~= start.update(i as int, c@));
    } else {
        clients.push(Client { language, server });
    }
}

impl Engine {
    /// An engine for servers that are still to be started.
    pub fn new(languages: &Vec<String>) -> (r: Engine)
        ensures
            !r@.pending,
            r@.clients == Seq::new(
                languages@.len(),
                |i: int| ClientView { language: languages@[i]@, server: Server::Absent },
            ),
    {
        let mut clients: Vec<Client> = Vec::new();
        let mut n: usize = 0;
        while n < languages.len()
            invariant
                n <= languages@.len(),
                views(clients@) =~= Seq::new(
                    n as nat,
                    |i: int| ClientView { language: languages@[i]@, server: Server::Absent },
                ),
            decreases languages@.len() - n,
        {
            clients.push(Client { language: languages[n].dup(), server: Server::Absent });
            n = n + 1;
        }
        Engine { pending: false, clients }
    }

    /// What the engine does next, after something has happened.
    pub fn step(&mut self, happened: Happened) -> (r: Next)
        ensures
            (final(self)@, r@) == engine_step(old(self)@, happened@),
    {
        match happened {
            Happened::Warmed { language, ready } => {
                let server = if ready {
                    Server::Ready
                } else {
                    Server::Absent
                };
                set_client(&mut self.clients, language, server);
                Next::Wait
            },
            Happened::FileChanged => {
                self.pending = true;
                Next::Wait
            },
            Happened::Quiet => {
                if self.pending {
                    self.pending = false;
                    let crashed = self.with_server(Server::Crashed);
                    self.restart();
                    Next::Reindex(crashed)
                } else {
                    Next::Wait
                }
            },
            Happened::Closed => Next::Stop,
            Happened::Indexed(i) => {
                if goes_on(i) {
                    Next::Enrich(self.with_server(Server::Ready))
                } else {
                    Next::Wait
                }
            },
            Happened::Asked { language, asked } => {
                let server = if keeps_client(asked) {
                    Server::Ready
                } else {
                    Server::Crashed
                };
                set_client(&mut self.clients, language, server);
                Next::Wait
            },
            Happened::Enriched => Next::Announce,
        }
    }

    fn with_server(&self, server: Server) -> (r: Vec<String>)
        ensures
            views(r@) == languages_of(self@.clients, server),
    {
        let ghost cv = views(self.clients@);
        let mut out: Vec<String> = Vec::new();
        let mut n: usize = 0;
        assert(cv.len() == self.clients@.len());
        while n < self.clients.len()
            invariant
                cv == views(self.clients@),
                n <= self.clients@.len(),
                views(out@) == languages_with(cv, server, n as int),
            decreases self.clients@.len() - n,
        {
            assert(cv[n as int] == self.clients@[n as int]@);
            if self.clients[n].server == server {
                out.push(self.clients[n].language.dup());
            }
            n = n + 1;
        }
        out
    }

    fn restart(&mut self)
        ensures
            final(self)@ == (EngineView {
                pending: old(self)@.pending,
                clients: restarted(old(self)@.clients),
            }),
    {
        let ghost start = views(self.clients@);
        let mut clients: Vec<Client> = Vec::new();
        let mut n: usize = 0;
        assert(start.len() == self.clients@.len());
        while n < self.clients.len()
            invariant
                *self == *old(self),
                start == views(self.clients@),
                n <= self.clients@.len(),
                views(clients@) =~= restarted(start).take(n as int),
            decreases self.clients@.len() - n,
        {
            let c = &self.clients[n];
            assert(start[n as int] == c@);
            let server = match c.server {
                Server::Ready => Server::Ready,
                _ => Server::Absent,
            };
            clients.push(Client { language: c.language.dup(), server });
            n = n + 1;
        }
        assert(restarted(start).take(n as int) =~= restarted(start));
        self.clients = clients;
    }
}

/// Each language stands once among the clients.
pub open spec fn languages_differ(clients: Seq<ClientView>) -> bool {
    forall|i: int, j: int|
        0 <= i < j < clients.len() ==> (#[trigger] clients[i]).language != (
        #[trigger] clients[j]).language
}

proof fn client_is_set(clients: Seq<ClientView>, language: Seq<char>, server: Server, i: int)
    requires
        0 <= i <= clients.len(),
        languages_differ(clients),
        forall|k: int| 0 <= k < i ==> (#[trigger] clients[k]).language != language,
    ensures
        languages_differ(with_client(clients, language, server, i)),
        with_client(clients, language, server, i).contains(ClientView { language, server }),
    decreases clients.len() - i,
{
    let r = with_client(clients, language, server, i);
    if i < clients.len() && clients[i].language != language {
        client_is_set(clients, language, server, i + 1);
    } else if i < clients.len() {
        assert forall|a: int, b: int| 0 <= a < b < r.len() implies (#[trigger] r[a]).language != (
        #[trigger] r[b]).language by {
            assert(clients[a].language != clients[b].language);
        }
        assert(r[i] == ClientView { language, server });
    } else {
        assert(r[i] == ClientView { language, server });
    }
}

/// A language is listed where its server is so, and nowhere else.
proof fn listed_by_server(clients: Seq<ClientView>, k: int, server: Server, n: int)
    requires
        0 <= k < clients.len(),
        0 <= n <= clients.len(),
        languages_differ(clients),
    ensures
        languages_with(clients, server, n).contains(clients[k].language) <==> k < n
            && clients[k].server == server,
    decreases n,
{
    if n > 0 {
        listed_by_server(clients, k, server, n - 1);
        let rest = languages_with(clients, server, n - 1);
        let all = languages_with(clients, server, n);
        let last = clients[n - 1].language;
        if clients[n - 1].server == server {
            assert(all == rest.push(last));
            assert(all[rest.len() as int] == last);
            if rest.contains(clients[k].language) {
                let i = choose|i: int| 0 <= i < rest.len() && rest[i] == clients[k].language;
                assert(all[i] == clients[k].language);
            }
            if all.contains(clients[k].language) && !rest.contains(clients[k].language) {
                let i = choose|i: int| 0 <= i < all.len() && all[i] == clients[k].language;
                if i < rest.len() {
                    assert(rest[i] == clients[k].language);
                }
                assert(clients[k].language == last);
                if k < n - 1 {
                    assert(clients[k].language != clients[n - 1].language);
                } else if k > n - 1 {
                    assert(clients[n - 1].language != clients[k].language);
                }
            }
        }
    }
}

/// A server that crashed is started again when the project is indexed next, and not asked
/// before it is ready; once it is, it is asked again, and not started another time. Languages
/// stay different.
pub proof fn crashed_servers_start_again(
    s: EngineView,
    language: Seq<char>,
    asked: Asked,
    changed: usize,
)
    requires
        languages_differ(s.clients),
        asked != Asked::Answered,
        changed > 0,
    ensures
        ({
            let crashed = engine_step(s, HappenedView::Asked { language, asked }).0;
            let heard = engine_step(crashed, HappenedView::FileChanged).0;
            let (starting, reindex) = engine_step(heard, HappenedView::Quiet);
            let indexed = HappenedView::Indexed(Indexed::Changed(changed));
            let ready = engine_step(starting, HappenedView::Warmed { language, ready: true }).0;
            let again = engine_step(ready, HappenedView::FileChanged).0;
            &&& languages_differ(crashed.clients)
            &&& languages_differ(starting.clients)
            &&& languages_differ(ready.clients)
            &&& reindex matches NextView::Reindex(started) && started.contains(language)
            &&& engine_step(crashed, indexed).1 matches NextView::Enrich(l) && !l.contains(language)
            &&& engine_step(starting, indexed).1 matches NextView::Enrich(l) && !l.contains(
                language,
            )
            &&& engine_step(ready, indexed).1 matches NextView::Enrich(l) && l.contains(language)
            &&& engine_step(again, HappenedView::Quiet).1 matches NextView::Reindex(l)
                && !l.contains(language)
        }),
{
    let crashed = engine_step(s, HappenedView::Asked { language, asked }).0;
    client_is_set(s.clients, language, Server::Crashed, 0);
    let gone = ClientView { language, server: Server::Crashed };
    let k = choose|k: int| 0 <= k < crashed.clients.len() && crashed.clients[k] == gone;
    listed_by_server(crashed.clients, k, Server::Crashed, crashed.clients.len() as int);
    listed_by_server(crashed.clients, k, Server::Ready, crashed.clients.len() as int);
    let starting = restarted(crashed.clients);
    assert forall|i: int, j: int| 0 <= i < j < starting.len() implies (
    #[trigger] starting[i]).language != (#[trigger] starting[j]).language by {
        assert(crashed.clients[i].language != crashed.clients[j].language);
    }
    listed_by_server(starting, k, Server::Ready, starting.len() as int);
    let ready = with_client(starting, language, Server::Ready, 0);
    client_is_set(starting, language, Server::Ready, 0);
    let back = ClientView { language, server: Server::Ready };
    let j = choose|j: int| 0 <= j < ready.len() && ready[j] == back;
    listed_by_server(ready, j, Server::Ready, ready.len() as int);
    listed_by_server(ready, j, Server::Crashed, ready.len() as int);
}

/// However many files change before they pause, the project is indexed once, and not again
/// until another file changes.
pub proof fn changes_are_gathered(s: EngineView)
    ensures
        ({
            let once = engine_step(s, HappenedView::FileChanged).0;
            let twice = engine_step(once, HappenedView::FileChanged).0;
            let (quiet, next) = engine_step(once, HappenedView::Quiet);
            &&& twice == once
            &&& next is Reindex
            &&& engine_step(quiet, HappenedView::Quiet).1 is Wait
        }),
{
}

/// The server of a language is the one that the first client for it has.
pub open spec fn has_server(clients: Seq<ClientView>, language: Seq<char>, server: Server) -> bool {
    exists|k: int|
        0 <= k < clients.len() && #[trigger] clients[k] == (ClientView { language, server })
            && forall|j: int| 0 <= j < k ==> (#[trigger] clients[j]).language != language
}

proof fn clients_are_set_from(
    clients: Seq<ClientView>,
    language: Seq<char>,
    server: Server,
    i: int,
)
    requires
        0 <= i <= clients.len(),
        forall|j: int| 0 <= j < i ==> (#[trigger] clients[j]).language != language,
    ensures
        has_server(with_client(clients, language, server, i), language, server),
        forall|k: int|
            0 <= k < clients.len() ==> (#[trigger] with_client(
                clients,
                language,
                server,
                i,
            )[k]).language == clients[k].language && (clients[k].language != language
                ==> with_client(clients, language, server, i)[k].server == clients[k].server),
        clients.len() <= with_client(clients, language, server, i).len() <= clients.len() + 1,
        with_client(clients, language, server, i).len() == clients.len() <==> exists|k: int|
            i <= k < clients.len() && (#[trigger] clients[k]).language == language,
    decreases clients.len() - i,
{
    let all = with_client(clients, language, server, i);
    if i == clients.len() {
        assert(all[i] == ClientView { language, server });
    } else if clients[i].language == language {
        assert(all[i] == ClientView { language, server });
    } else {
        clients_are_set_from(clients, language, server, i + 1);
    }
}

/// What is told of the server of a language is kept, and nothing that is known of another
/// language's changes; a language that is not known yet is added.
pub proof fn servers_are_set_one_by_one(clients: Seq<ClientView>, language: Seq<char>, server: Server)
    ensures
        has_server(with_client(clients, language, server, 0), language, server),
        forall|k: int|
            0 <= k < clients.len() ==> (#[trigger] with_client(
                clients,
                language,
                server,
                0,
            )[k]).language == clients[k].language && (clients[k].language != language
                ==> with_client(clients, language, server, 0)[k].server == clients[k].server),
        with_client(clients, language, server, 0).len() == clients.len() <==> exists|k: int|
            0 <= k < clients.len() && (#[trigger] clients[k]).language == language,
{
    clients_are_set_from(clients, language, server, 0);
}

/// The languages with a server in some state are those of the clients in it, in order.
pub proof fn languages_are_those_in_the_state(clients: Seq<ClientView>, server: Server, n: int)
    requires
        0 <= n <= clients.len(),
    ensures
        languages_with(clients, server, n) == clients.take(n).filter(
            |c: ClientView| c.server == server,
        ).map_values(|c: ClientView| c.language),
    decreases n,
{
    reveal(Seq::filter);
    let good = |c: ClientView| c.server == server;
    let read = |c: ClientView| c.language;
    if n > 0 {
        languages_are_those_in_the_state(clients, server, n - 1);
        assert(clients.take(n).drop_last() =~= clients.take(n - 1));
        assert(clients.take(n).last() == clients[n - 1]);
        let before = clients.take(n - 1).filter(good);
        assert(before.push(clients[n - 1]).map_values(read) =~= before.map_values(read).push(
            clients[n - 1].language,
        ));
    } else {
        assert(languages_with(clients, server, n) =~= clients.take(n).filter(good).map_values(
            read,
        ));
    }
}

/// Only a change makes the index due, and only quiet settles it; servers change where one was
/// started, asked or, with the index, given up.
pub proof fn engine_keeps_what_it_is_not_told(s: EngineView, h: HappenedView)
    ensures
        engine_step(s, h).0.pending <==> h is FileChanged || (s.pending && !(h is Quiet)),
        !(h is Warmed) && !(h is Asked) && !(h is Quiet && s.pending) ==> engine_step(s, h).0.clients
            == s.clients,
        h is Quiet && s.pending ==> engine_step(s, h).0.clients.len() == s.clients.len()
            && forall|i: int|
            0 <= i < s.clients.len() ==> (#[trigger] engine_step(s, h).0.clients[i]).language
                == s.clients[i].language && (engine_step(s, h).0.clients[i].server is Ready
                <==> s.clients[i].server is Ready) && !(engine_step(s, h).0.clients[i].server
                is Crashed),
        engine_step(s, h).1 is Stop <==> h is Closed,
        engine_step(s, h).1 is Announce <==> h is Enriched,
        engine_step(s, h).1 is Reindex <==> h is Quiet && s.pending,
        engine_step(s, h).1 is Enrich <==> (h matches HappenedView::Indexed(Indexed::Changed(n)) && n
            > 0),
{
}

/// A server that came up is ready; one that did not is absent. A server that answered is ready;
/// one that did not has crashed.
pub proof fn servers_are_what_they_did(s: EngineView, language: Seq<char>)
    ensures
        has_server(
            engine_step(s, (HappenedView::Warmed { language, ready: true })).0.clients,
            language,
            Server::Ready,
        ),
        has_server(
            engine_step(s, (HappenedView::Warmed { language, ready: false })).0.clients,
            language,
            Server::Absent,
        ),
        forall|asked: Asked|
            has_server(
                #[trigger] engine_step(s, (HappenedView::Asked { language, asked })).0.clients,
                language,
                if asked is Answered {
                    Server::Ready
                } else {
                    Server::Crashed
                },
            ),
{
    clients_are_set_from(s.clients, language, Server::Ready, 0);
    clients_are_set_from(s.clients, language, Server::Absent, 0);
    clients_are_set_from(s.clients, language, Server::Crashed, 0);
}

/// What edges and signatures are said is kept, in the order in which it is.
pub proof fn what_is_said_is_kept(msgs: Seq<EdgeMsgView>, n: int, e: LspEdgeView, sig: (i64, Seq<char>))
    requires
        0 <= n <= msgs.len(),
    ensures
        edges_said(msgs, n).contains(e) <==> exists|i: int|
            0 <= i < n && #[trigger] msgs[i] == EdgeMsgView::Edge(e),
        signatures_said(msgs, n).contains(sig) <==> exists|i: int|
            0 <= i < n && #[trigger] msgs[i] == EdgeMsgView::SigUpdate(sig.0, sig.1),
    decreases n,
{
    if n > 0 {
        what_is_said_is_kept(msgs, n - 1, e, sig);
        match msgs[n - 1] {
            EdgeMsgView::Edge(x) => {
                crate::model::push_holds(edges_said(msgs, n - 1), x, e);
            },
            EdgeMsgView::SigUpdate(id, s) => {
                crate::model::push_holds(signatures_said(msgs, n - 1), (id, s), sig);
            },
        }
    }
}

} // verus!
