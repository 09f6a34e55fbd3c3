//! How the project is made up: its crates and their dependencies, its files, its modules
//! and the symbols that most others depend on.

use vstd::prelude::*;

use crate::arch::{context_of, file_to_context, plain_path, strip_dot};
use crate::config::{layer_in, Layers};
use crate::model::{or_text, text_or, views, Dup};
use crate::order::{
    count_text, distinct_keys, in_order, key_set, sorting_orders, stable_sort, stable_sorted, times,
    Ranked,
};
use crate::paths::{file_name, file_stem, parent, parent_path, stem_of};
use crate::query::search::{add_cell, cell, cell_of, with_cell};
use crate::text::{
    concat2, concat3, dec, i64_text, int_text, lex_before, line_seq, lines, replace, replaced,
    split_at_char, split_char, split_is_not_empty, str_eq, str_precedes, strip_prefix, strip_suffix,
    usize_text, without_prefix, without_suffix,
};
use crate::xml::{
    close, count_tokens, empty, finish, goes_on_from, new_writer, no_attrs, open, open_attrs,
    text_tag, tokens_of, with_close, with_empty, with_open, with_text, xml_events, xml_text, Attrs,
    Node, XmlWriter,
};

verus! {

broadcast use crate::model::group_views;

// ---------------------------------------------------------------------------
// Crates
// ---------------------------------------------------------------------------

/// A crate of the workspace: its name, its doc, and the file that it starts from.
#[derive(Debug)]
pub struct CrateRow {
    pub name: String,
    pub doc: Option<String>,
    pub file: String,
}

/// What a [`CrateRow`] holds.
#[verifier::ext_equal]
pub struct CrateRowView {
    pub name: Seq<char>,
    pub doc: Option<Seq<char>>,
    pub file: Seq<char>,
}

impl DeepView for CrateRow {
    type V = CrateRowView;

    open spec fn deep_view(&self) -> CrateRowView {
        CrateRowView {
            name: self.name.deep_view(),
            doc: self.doc.deep_view(),
            file: self.file.deep_view(),
        }
    }
}

impl View for CrateRow {
    type V = CrateRowView;

    open spec fn view(&self) -> CrateRowView {
        self.deep_view()
    }
}

/// A symbol and how many calls lead to it.
#[derive(Debug)]
pub struct SymbolCount {
    pub file: String,
    pub name: String,
    pub role: String,
    pub fan_in: usize,
}

/// What a [`SymbolCount`] holds.
#[verifier::ext_equal]
pub struct SymbolCountView {
    pub file: Seq<char>,
    pub name: Seq<char>,
    pub role: Seq<char>,
    pub fan_in: usize,
}

impl DeepView for SymbolCount {
    type V = SymbolCountView;

    open spec fn deep_view(&self) -> SymbolCountView {
        SymbolCountView {
            file: self.file.deep_view(),
            name: self.name.deep_view(),
            role: self.role.deep_view(),
            fan_in: self.fan_in.deep_view(),
        }
    }
}

impl View for SymbolCount {
    type V = SymbolCountView;

    open spec fn view(&self) -> SymbolCountView {
        self.deep_view()
    }
}

/// A module of a crate: how many symbols it has, their most frequent role, and the symbol
/// that most calls lead to.
#[derive(Debug)]
pub struct ModuleRow {
    pub module: String,
    pub symbols: usize,
    pub role: String,
    pub hotspot: String,
    pub hotspot_fan_in: usize,
}

/// What a [`ModuleRow`] holds.
#[verifier::ext_equal]
pub struct ModuleRowView {
    pub module: Seq<char>,
    pub symbols: usize,
    pub role: Seq<char>,
    pub hotspot: Seq<char>,
    pub hotspot_fan_in: usize,
}

impl DeepView for ModuleRow {
    type V = ModuleRowView;

    open spec fn deep_view(&self) -> ModuleRowView {
        ModuleRowView {
            module: self.module.deep_view(),
            symbols: self.symbols.deep_view(),
            role: self.role.deep_view(),
            hotspot: self.hotspot.deep_view(),
            hotspot_fan_in: self.hotspot_fan_in.deep_view(),
        }
    }
}

impl View for ModuleRow {
    type V = ModuleRowView;

    open spec fn view(&self) -> ModuleRowView {
        self.deep_view()
    }
}

impl Dup for ModuleRow {
    fn dup(&self) -> (r: ModuleRow) {
        ModuleRow {
            module: self.module.dup(),
            symbols: self.symbols.dup(),
            role: self.role.dup(),
            hotspot: self.hotspot.dup(),
            hotspot_fan_in: self.hotspot_fan_in.dup(),
        }
    }
}

impl Ranked for ModuleRow {
    /// Modules with more symbols come first; of several, in the order of their names.
    open spec fn before(a: ModuleRowView, b: ModuleRowView) -> bool {
        a.symbols > b.symbols || (a.symbols == b.symbols && lex_before(a.module, b.module))
    }

    fn precedes(&self, other: &ModuleRow) -> (r: bool) {
        self.symbols > other.symbols || (self.symbols == other.symbols && str_precedes(
            &self.module,
            &other.module,
        ))
    }

    proof fn weak_order(a: ModuleRowView, b: ModuleRowView, c: ModuleRowView) {
        crate::text::lex_is_order(a.module, b.module, c.module);
    }
}

/// The directory that a crate's sources are in, from the file that it starts from.
pub open spec fn src_prefix(file: Seq<char>) -> Seq<char> {
    match parent_path(file) {
        Some(p) => if p.len() == 0 || p == "."@ {
            "./src/"@
        } else {
            p + "/"@
        },
        None => "./src/"@,
    }
}

/// The directory that a crate's sources are in: `./src/main.rs` gives `./src/`, and
/// `./domain/src/lib.rs` gives `./domain/src/`.
pub fn crate_src_prefix(crate_file: &str) -> (r: String)
    ensures
        r@ == src_prefix(crate_file@),
{
    if let Some(p) = parent(crate_file) {
        if p.as_str().is_empty() || str_eq(&p, ".") {
            return "./src/".to_owned();
        }
        return concat2(&p, "/");
    }
    "./src/".to_owned()
}

/// The top-level module that a file belongs to; none for the files that a crate or a module
/// starts from, and for files outside the prefix.
pub open spec fn module_of(file: Seq<char>, prefix: Seq<char>) -> Option<Seq<char>> {
    match without_prefix(file, prefix) {
        Some(rel) => {
            let first = split_at_char(rel, '/')[0];
            let module = or_text(without_suffix(first, ".rs"@), first);
            if module == "lib"@ || module == "main"@ || module == "mod"@ {
                None
            } else {
                Some(module)
            }
        },
        None => None,
    }
}

/// The top-level module that a file belongs to: `./src/query.rs` gives `query`,
/// `./src/lsp/client.rs` gives `lsp`, and `./src/lib.rs` gives none.
pub fn top_level_module(file: &str, src_prefix: &str) -> (r: Option<String>)
    ensures
        r.deep_view() == module_of(file@, src_prefix@),
{
    let rel = match strip_prefix(file, src_prefix) {
        Some(rel) => rel,
        None => {
            return None;
        },
    };
    let pieces = split_char(&rel, '/');
    proof {
        split_is_not_empty(rel@, '/');
        assert(views(pieces@)[0] == pieces@[0]@);
    }
    let module = match strip_suffix(&pieces[0], ".rs") {
        Some(m) => m,
        None => pieces[0].dup(),
    };
    if str_eq(&module, "lib") || str_eq(&module, "main") || str_eq(&module, "mod") {
        None
    } else {
        Some(module)
    }
}

/// The modules that the symbols belong to, those without one left out.
pub open spec fn modules_of(syms: Seq<SymbolCountView>, prefix: Seq<char>) -> Seq<Seq<char>>
    decreases syms.len(),
{
    if syms.len() == 0 {
        Seq::empty()
    } else {
        let rest = modules_of(syms.drop_last(), prefix);
        match module_of(syms.last().file, prefix) {
            Some(m) => rest.push(m),
            None => rest,
        }
    }
}

/// The roles of the symbols of a module.
pub open spec fn roles_in(
    syms: Seq<SymbolCountView>,
    prefix: Seq<char>,
    module: Seq<char>,
) -> Seq<Seq<char>>
    decreases syms.len(),
{
    if syms.len() == 0 {
        Seq::empty()
    } else {
        let rest = roles_in(syms.drop_last(), prefix, module);
        if module_of(syms.last().file, prefix) == Some(module) {
            rest.push(syms.last().role)
        } else {
            rest
        }
    }
}

/// The symbol can be the hotspot of a module: it is one of its symbols, and it has a name or
/// calls lead to it.
pub open spec fn may_be_hotspot(s: SymbolCountView, prefix: Seq<char>, module: Seq<char>) -> bool {
    module_of(s.file, prefix) == Some(module) && (s.name.len() > 0 || s.fan_in > 0)
}

/// Of the first `n` symbols, the one of the module that most calls lead to; the first of
/// several.
pub open spec fn hotspot_in(
    syms: Seq<SymbolCountView>,
    prefix: Seq<char>,
    module: Seq<char>,
    n: int,
) -> Option<int>
    decreases n,
{
    if n <= 0 {
        None
    } else {
        let best = hotspot_in(syms, prefix, module, n - 1);
        if may_be_hotspot(syms[n - 1], prefix, module) && (best matches Some(k) ==> syms[n
            - 1].fan_in > syms[k].fan_in) {
            Some(n - 1)
        } else {
            best
        }
    }
}

/// The hotspot is a symbol of the module, none of the module's symbols has more callers, and
/// those before it have fewer. Without a hotspot none of them has a name or a caller.
pub proof fn hotspot_has_most_callers(
    syms: Seq<SymbolCountView>,
    prefix: Seq<char>,
    module: Seq<char>,
    n: int,
)
    requires
        0 <= n <= syms.len(),
    ensures
        match hotspot_in(syms, prefix, module, n) {
            Some(k) => {
                &&& 0 <= k < n
                &&& may_be_hotspot(syms[k], prefix, module)
                &&& forall|i: int|
                    0 <= i < n && module_of((#[trigger] syms[i]).file, prefix) == Some(module)
                        ==> syms[i].fan_in <= syms[k].fan_in
                &&& forall|i: int|
                    0 <= i < k && may_be_hotspot(#[trigger] syms[i], prefix, module)
                        ==> syms[i].fan_in < syms[k].fan_in
            },
            None => forall|i: int|
                0 <= i < n ==> !may_be_hotspot(#[trigger] syms[i], prefix, module),
        },
    decreases n,
{
    if n > 0 {
        hotspot_has_most_callers(syms, prefix, module, n - 1);
    }
}

/// Of the first `n` keys, the one that stands most often in the list; the last of several.
pub open spec fn most_frequent(keys: Seq<Seq<char>>, list: Seq<Seq<char>>, n: int) -> Option<
    Seq<char>,
>
    decreases n,
{
    if n <= 0 {
        None
    } else {
        match most_frequent(keys, list, n - 1) {
            Some(best) => if times(list, keys[n - 1]) >= times(list, best) {
                Some(keys[n - 1])
            } else {
                Some(best)
            },
            None => Some(keys[n - 1]),
        }
    }
}

/// The chosen key is one of the keys, and none of them stands in the list more often.
pub proof fn most_frequent_is_maximal(keys: Seq<Seq<char>>, list: Seq<Seq<char>>, n: int)
    requires
        0 <= n <= keys.len(),
    ensures
        match most_frequent(keys, list, n) {
            Some(best) => (exists|i: int| 0 <= i < n && keys[i] == best) && forall|i: int|
                0 <= i < n ==> times(list, #[trigger] keys[i]) <= times(list, best),
            None => n == 0,
        },
    decreases n,
{
    if n > 0 {
        most_frequent_is_maximal(keys, list, n - 1);
        assert(keys[n - 1] == keys[n - 1]);
    }
}

/// What is shown of a module.
pub open spec fn module_row(
    syms: Seq<SymbolCountView>,
    prefix: Seq<char>,
    module: Seq<char>,
) -> ModuleRowView {
    let roles = roles_in(syms, prefix, module);
    let keys = key_set::<String>(roles);
    let spot = hotspot_in(syms, prefix, module, syms.len() as int);
    ModuleRowView {
        module,
        symbols: roles.len() as usize,
        role: or_text(most_frequent(keys, roles, keys.len() as int), "unknown"@),
        hotspot: match spot {
            Some(i) => syms[i].name,
            None => Seq::empty(),
        },
        hotspot_fan_in: match spot {
            Some(i) => syms[i].fan_in,
            None => 0,
        },
    }
}

/// What is shown of the modules of a crate, the largest first.
pub open spec fn module_rows(syms: Seq<SymbolCountView>, prefix: Seq<char>) -> Seq<ModuleRowView> {
    let keys = key_set::<String>(modules_of(syms, prefix));
    stable_sorted::<ModuleRow>(Seq::new(keys.len(), |i: int| module_row(syms, prefix, keys[i])))
}

/// Whether the file belongs to the module.
fn in_module(file: &str, prefix: &str, module: &str) -> (r: bool)
    ensures
        r == (module_of(file@, prefix@) == Some(module@)),
{
    match top_level_module(file, prefix) {
        Some(m) => str_eq(&m, module),
        None => false,
    }
}

fn pick_role(roles: &Vec<String>) -> (r: String)
    ensures
        ({
            let keys = key_set::<String>(views(roles@));
            r@ == or_text(most_frequent(keys, views(roles@), keys.len() as int), "unknown"@)
        }),
{
    let keys = distinct_keys(roles);
    assert(views(keys@).len() == keys@.len());
    let mut best: Option<String> = None;
    let mut i: usize = 0;
    while i < keys.len()
        invariant
            i <= keys@.len(),
            best.deep_view() == most_frequent(views(keys@), views(roles@), i as int),
        decreases keys@.len() - i,
    {
        assert(views(keys@)[i as int] == keys@[i as int]@);
        let better = match &best {
            Some(b) => count_text(roles, &keys[i]) >= count_text(roles, b),
            None => true,
        };
        if better {
            best = Some(keys[i].dup());
        }
        i = i + 1;
    }
    text_or(&best, "unknown")
}

fn make_module_row(syms: &Vec<SymbolCount>, prefix: &str, module: &str) -> (r: ModuleRow)
    ensures
        r@ == module_row(views(syms@), prefix@, module@),
{
    let mut roles: Vec<String> = Vec::new();
    let mut spot: Option<usize> = None;
    let mut i: usize = 0;
    while i < syms.len()
        invariant
            i <= syms@.len(),
            views(roles@) == roles_in(views(syms@).take(i as int), prefix@, module@),
            match spot {
                Some(k) => k < i && hotspot_in(views(syms@), prefix@, module@, i as int) == Some(
                    k as int,
                ),
                None => hotspot_in(views(syms@), prefix@, module@, i as int) is None,
            },
        decreases syms@.len() - i,
    {
        let s = &syms[i];
        assert(views(syms@)[i as int] == s@);
        assert(views(syms@).take(i + 1).drop_last() =~= views(syms@).take(i as int));
        if in_module(&s.file, prefix, module) {
            roles.push(s.role.dup());
            let more = match spot {
                Some(k) => {
                    assert(views(syms@)[k as int] == syms@[k as int]@);
                    s.fan_in > syms[k].fan_in
                },
                None => true,
            };
            if more && (!s.name.as_str().is_empty() || s.fan_in > 0) {
                spot = Some(i);
            }
        }
        i = i + 1;
    }
    assert(views(syms@).take(i as int) =~= views(syms@));
    assert(views(roles@).len() == roles@.len());
    let role = pick_role(&roles);
    let (hotspot, hotspot_fan_in) = match spot {
        Some(k) => {
            assert(views(syms@)[k as int] == syms@[k as int]@);
            (syms[k].name.dup(), syms[k].fan_in)
        },
        None => (String::new(), 0usize),
    };
    ModuleRow { module: module.to_owned(), symbols: roles.len(), role, hotspot, hotspot_fan_in }
}

/// What is shown of the modules of a crate, the largest first.
pub fn build_crate_modules(syms: &Vec<SymbolCount>, crate_file: &str) -> (r: Vec<ModuleRow>)
    ensures
        views(r@) == module_rows(views(syms@), src_prefix(crate_file@)),
{
    let prefix = crate_src_prefix(crate_file);
    let mut mods: Vec<String> = Vec::new();
    let mut i: usize = 0;
    while i < syms.len()
        invariant
            i <= syms@.len(),
            views(mods@) == modules_of(views(syms@).take(i as int), prefix@),
        decreases syms@.len() - i,
    {
        assert(views(syms@)[i as int] == syms@[i as int]@);
        assert(views(syms@).take(i + 1).drop_last() =~= views(syms@).take(i as int));
        if let Some(m) = top_level_module(&syms[i].file, &prefix) {
            mods.push(m);
        }
        i = i + 1;
    }
    assert(views(syms@).take(i as int) =~= views(syms@));
    let keys = distinct_keys(&mods);
    let ghost kv = views(keys@);
    let ghost goal = Seq::new(kv.len(), |i: int| module_row(views(syms@), prefix@, kv[i]));
    let mut rows: Vec<ModuleRow> = Vec::new();
    let mut k: usize = 0;
    assert(kv.len() == keys@.len());
    while k < keys.len()
        invariant
            kv == views(keys@),
            kv.len() == keys@.len(),
            k <= keys@.len(),
            goal == Seq::new(kv.len(), |i: int| module_row(views(syms@), prefix@, kv[i])),
            views(rows@) =~= goal.take(k as int),
        decreases keys@.len() - k,
    {
        assert(kv[k as int] == keys@[k as int]@);
        rows.push(make_module_row(syms, &prefix, &keys[k]));
        k = k + 1;
    }
    assert(views(rows@) =~= goal);
    stable_sort(rows)
}

/// How many of the first `n` dependencies are on the crate.
pub open spec fn dependents_on(edges: Seq<(Seq<char>, Seq<char>)>, name: Seq<char>, n: int) -> nat
    decreases n,
{
    if n <= 0 {
        0
    } else {
        dependents_on(edges, name, n - 1) + if edges[n - 1].1 == name {
            1nat
        } else {
            0nat
        }
    }
}

fn count_dependents(edges: &Vec<(String, String)>, name: &str) -> (r: usize)
    ensures
        r == dependents_on(views(edges@), name@, edges@.len() as int),
{
    let mut n: usize = 0;
    let mut i: usize = 0;
    while i < edges.len()
        invariant
            n <= i <= edges@.len(),
            n == dependents_on(views(edges@), name@, i as int),
        decreases edges@.len() - i,
    {
        assert(views(edges@)[i as int] == edges@[i as int].deep_view());
        if str_eq(&edges[i].1, name) {
            n = n + 1;
        }
        i = i + 1;
    }
    n
}

/// The layer of a crate, or `-`.
pub open spec fn layer_shown(layers: Seq<(Seq<char>, Seq<char>)>, name: Seq<char>) -> Seq<char> {
    or_text(layer_in(layers, name, 0), "-"@)
}

fn layer_text(layers: &Layers, name: &str) -> (r: String)
    ensures
        r@ == layer_shown(layers@, name@),
{
    match layers.get(name) {
        Some(l) => l.dup(),
        None => "-".to_owned(),
    }
}

/// The first line of a doc.
pub open spec fn first_line(doc: Option<Seq<char>>) -> Option<Seq<char>> {
    match doc {
        Some(d) => if line_seq(d).len() > 0 {
            Some(line_seq(d)[0])
        } else {
            None
        },
        None => None,
    }
}

fn first_line_of(doc: &Option<String>) -> (r: Option<String>)
    ensures
        r.deep_view() == first_line(doc.deep_view()),
{
    match doc {
        Some(d) => {
            let all = lines(d);
            assert(views(all@).len() == all@.len());
            if all.len() > 0 {
                assert(views(all@)[0] == all@[0]@);
                Some(all[0].dup())
            } else {
                None
            }
        },
        None => None,
    }
}

/// What is known of the workspace's crates. `symbols` are the symbols of the code graph,
/// those that most calls lead to first within each file.
#[derive(Debug)]
pub struct DepsInput {
    pub crates: Vec<CrateRow>,
    pub edges: Vec<(String, String)>,
    pub symbols: Vec<SymbolCount>,
}

/// What a [`DepsInput`] holds.
#[verifier::ext_equal]
pub struct DepsInputView {
    pub crates: Seq<CrateRowView>,
    pub edges: Seq<(Seq<char>, Seq<char>)>,
    pub symbols: Seq<SymbolCountView>,
}

impl DeepView for DepsInput {
    type V = DepsInputView;

    open spec fn deep_view(&self) -> DepsInputView {
        DepsInputView {
            crates: views(self.crates@),
            edges: views(self.edges@),
            symbols: views(self.symbols@),
        }
    }
}

impl View for DepsInput {
    type V = DepsInputView;

    open spec fn view(&self) -> DepsInputView {
        self.deep_view()
    }
}

/// The file of the last crate of the name.
pub open spec fn file_of_crate(crates: Seq<CrateRowView>, name: Seq<char>) -> Seq<char>
    decreases crates.len(),
{
    if crates.len() == 0 {
        Seq::empty()
    } else if crates.last().name == name {
        crates.last().file
    } else {
        file_of_crate(crates.drop_last(), name)
    }
}

/// The modules that are shown of a crate; none where they are not asked for.
pub open spec fn modules_shown(i: DepsInputView, name: Seq<char>, modules: bool) -> Seq<
    ModuleRowView,
> {
    if modules {
        module_rows(i.symbols, src_prefix(file_of_crate(i.crates, name)))
    } else {
        Seq::empty()
    }
}

fn find_crate_file(crates: &Vec<CrateRow>, name: &str) -> (r: String)
    ensures
        r@ == file_of_crate(views(crates@), name@),
{
    let mut i: usize = crates.len();
    assert(views(crates@).take(i as int) =~= views(crates@));
    while i > 0
        invariant
            i <= crates@.len(),
            file_of_crate(views(crates@), name@) == file_of_crate(
                views(crates@).take(i as int),
                name@,
            ),
        decreases i,
    {
        assert(views(crates@).take(i as int).drop_last() =~= views(crates@).take(i - 1));
        assert(views(crates@)[i - 1] == crates@[i - 1]@);
        if str_eq(&crates[i - 1].name, name) {
            return crates[i - 1].file.dup();
        }
        i = i - 1;
    }
    String::new()
}

fn modules_for(i: &DepsInput, name: &str, modules: bool) -> (r: Vec<ModuleRow>)
    ensures
        views(r@) == modules_shown(i@, name@, modules),
{
    if modules {
        let file = find_crate_file(&i.crates, name);
        build_crate_modules(&i.symbols, &file)
    } else {
        Vec::new()
    }
}

/// The document with the first `n` modules.
pub open spec fn module_nodes(ev: Seq<Node>, ms: Seq<ModuleRowView>, n: int) -> Seq<Node>
    decreases n,
{
    if n <= 0 {
        ev
    } else {
        let m = ms[n - 1];
        with_empty(
            module_nodes(ev, ms, n - 1),
            "module"@,
            no_attrs()
                .push(("name"@, m.module))
                .push(("symbols"@, dec(m.symbols as nat)))
                .push(("role"@, m.role))
                .push(("hotspot"@, m.hotspot))
                .push(("hotspot_fan_in"@, dec(m.hotspot_fan_in as nat))),
        )
    }
}

/// The attributes of a crate.
pub open spec fn crate_attrs(
    c: CrateRowView,
    edges: Seq<(Seq<char>, Seq<char>)>,
    layers: Seq<(Seq<char>, Seq<char>)>,
) -> Seq<(Seq<char>, Seq<char>)> {
    let a = no_attrs()
        .push(("name"@, c.name))
        .push(("layer"@, layer_shown(layers, c.name)))
        .push(("fan_in"@, dec(dependents_on(edges, c.name, edges.len() as int))));
    let doc = or_text(first_line(c.doc), ""@);
    if doc.len() == 0 {
        a
    } else {
        a.push(("doc"@, doc))
    }
}

/// The document with a crate and the modules that are shown of it.
pub open spec fn crate_nodes(
    ev: Seq<Node>,
    i: DepsInputView,
    layers: Seq<(Seq<char>, Seq<char>)>,
    modules: bool,
    c: CrateRowView,
) -> Seq<Node> {
    let a = crate_attrs(c, i.edges, layers);
    let ms = modules_shown(i, c.name, modules);
    if ms.len() == 0 {
        with_empty(ev, "crate"@, a)
    } else {
        with_close(module_nodes(with_open(ev, "crate"@, a), ms, ms.len() as int), "crate"@)
    }
}

/// The document with the first `n` crates.
pub open spec fn crates_nodes(
    ev: Seq<Node>,
    i: DepsInputView,
    layers: Seq<(Seq<char>, Seq<char>)>,
    modules: bool,
    n: int,
) -> Seq<Node>
    decreases n,
{
    if n <= 0 {
        ev
    } else {
        crate_nodes(
            crates_nodes(ev, i, layers, modules, n - 1),
            i,
            layers,
            modules,
            i.crates[n - 1],
        )
    }
}

/// The document with the first `n` dependencies.
pub open spec fn dep_nodes(ev: Seq<Node>, edges: Seq<(Seq<char>, Seq<char>)>, n: int) -> Seq<Node>
    decreases n,
{
    if n <= 0 {
        ev
    } else {
        with_empty(
            dep_nodes(ev, edges, n - 1),
            "edge"@,
            no_attrs().push(("from_crate"@, edges[n - 1].0)).push(("to_crate"@, edges[n - 1].1)),
        )
    }
}

/// The document on the workspace's crates, with the tokens that it takes.
pub open spec fn deps_document(
    i: DepsInputView,
    layers: Seq<(Seq<char>, Seq<char>)>,
    modules: bool,
) -> Seq<Node> {
    deps_nodes(i, layers, modules, tokens_of(deps_nodes(i, layers, modules, ""@)))
}

/// The document on the workspace's crates, where it takes so many tokens.
pub open spec fn deps_nodes(
    i: DepsInputView,
    layers: Seq<(Seq<char>, Seq<char>)>,
    modules: bool,
    tokens: Seq<char>,
) -> Seq<Node> {
    let ev = with_open(
        Seq::empty(),
        "deps"@,
        no_attrs().push(("crates"@, dec(i.crates.len()))).push(("edges"@, dec(i.edges.len()))).push(
            ("tokens"@, tokens),
        ),
    );
    let ev = if i.crates.len() == 0 {
        ev
    } else {
        with_close(
            crates_nodes(
                with_open(ev, "crates"@, no_attrs()),
                i,
                layers,
                modules,
                i.crates.len() as int,
            ),
            "crates"@,
        )
    };
    let ev = if i.edges.len() == 0 {
        ev
    } else {
        with_close(
            dep_nodes(with_open(ev, "edges"@, no_attrs()), i.edges, i.edges.len() as int),
            "edges"@,
        )
    };
    with_close(ev, "deps"@)
}

fn write_crate(w: &mut XmlWriter, i: &DepsInput, layers: &Layers, modules: bool, c: &CrateRow)
    ensures
        xml_events(*final(w)) == crate_nodes(xml_events(*old(w)), i@, layers@, modules, c@),
{
    let mut a = Attrs::new().with("name", &c.name).with("layer", &layer_text(layers, &c.name)).with(
        "fan_in",
        &usize_text(count_dependents(&i.edges, &c.name)),
    );
    let first = first_line_of(&c.doc);
    let doc = text_or(&first, "");
    proof {
        reveal_strlit("");
    }
    if !doc.as_str().is_empty() {
        a = a.with("doc", &doc);
    }
    let ms = modules_for(i, &c.name, modules);
    assert(views(ms@).len() == ms@.len());
    if ms.len() == 0 {
        empty(w, "crate", &a);
        return;
    }
    open_attrs(w, "crate", &a);
    let ghost ev = xml_events(*w);
    let mut k: usize = 0;
    while k < ms.len()
        invariant
            k <= ms@.len(),
            xml_events(*w) == module_nodes(ev, views(ms@), k as int),
        decreases ms@.len() - k,
    {
        let m = &ms[k];
        assert(views(ms@)[k as int] == m@);
        empty(
            w,
            "module",
            &Attrs::new().with("name", &m.module).with("symbols", &usize_text(m.symbols)).with(
                "role",
                &m.role,
            ).with("hotspot", &m.hotspot).with("hotspot_fan_in", &usize_text(m.hotspot_fan_in)),
        );
        k = k + 1;
    }
    close(w, "crate");
}

fn deps_xml(i: &DepsInput, layers: &Layers, modules: bool) -> (r: String)
    ensures
        r@ == xml_text(deps_document(i@, layers@, modules)),
{
    let uncounted = write_deps(i, layers, modules, "");
    write_deps(i, layers, modules, &count_tokens(&uncounted))
}

fn write_deps(i: &DepsInput, layers: &Layers, modules: bool, tokens: &str) -> (r: String)
    ensures
        r@ == xml_text(deps_nodes(i@, layers@, modules, tokens@)),
{
    let mut w = new_writer();
    open_attrs(
        &mut w,
        "deps",
        &Attrs::new().with("crates", &usize_text(i.crates.len())).with(
            "edges",
            &usize_text(i.edges.len()),
        ).with("tokens", tokens),
    );
    if i.crates.len() > 0 {
        open(&mut w, "crates");
        let ghost ev = xml_events(w);
        let mut k: usize = 0;
        while k < i.crates.len()
            invariant
                k <= i.crates@.len(),
                xml_events(w) == crates_nodes(ev, i@, layers@, modules, k as int),
            decreases i.crates@.len() - k,
        {
            assert(i@.crates[k as int] == i.crates@[k as int]@);
            write_crate(&mut w, i, layers, modules, &i.crates[k]);
            k = k + 1;
        }
        close(&mut w, "crates");
    }
    if i.edges.len() > 0 {
        open(&mut w, "edges");
        let ghost ev = xml_events(w);
        let mut k: usize = 0;
        while k < i.edges.len()
            invariant
                k <= i.edges@.len(),
                xml_events(w) == dep_nodes(ev, i@.edges, k as int),
            decreases i.edges@.len() - k,
        {
            assert(i@.edges[k as int] == i.edges@[k as int].deep_view());
            empty(
                &mut w,
                "edge",
                &Attrs::new().with("from_crate", &i.edges[k].0).with("to_crate", &i.edges[k].1),
            );
            k = k + 1;
        }
        close(&mut w, "edges");
    }
    close(&mut w, "deps");
    finish(w)
}

/// `out` with rows on the first `n` crates behind it.
pub open spec fn crate_rows(
    out: Seq<char>,
    i: DepsInputView,
    layers: Seq<(Seq<char>, Seq<char>)>,
    n: int,
) -> Seq<char>
    decreases n,
{
    if n <= 0 {
        out
    } else {
        let c = i.crates[n - 1];
        let r = with_cell(crate_rows(out, i, layers, n - 1) + "|"@, cell(c.name));
        let r = with_cell(r, layer_shown(layers, c.name));
        let r = with_cell(r, dec(dependents_on(i.edges, c.name, i.edges.len() as int)));
        with_cell(r, cell(or_text(first_line(c.doc), "-"@))) + "\n"@
    }
}

/// `out` with rows on the first `n` modules of a crate behind it.
pub open spec fn module_table(
    out: Seq<char>,
    name: Seq<char>,
    ms: Seq<ModuleRowView>,
    n: int,
) -> Seq<char>
    decreases n,
{
    if n <= 0 {
        out
    } else {
        let m = ms[n - 1];
        let r = with_cell(module_table(out, name, ms, n - 1) + "|"@, cell(name));
        let r = with_cell(r, cell(m.module));
        let r = with_cell(r, dec(m.symbols as nat));
        let r = with_cell(r, cell(m.role));
        let r = with_cell(r, cell(m.hotspot));
        with_cell(r, dec(m.hotspot_fan_in as nat)) + "\n"@
    }
}

/// `out` with rows on the modules of the first `n` crates behind it.
pub open spec fn module_tables(out: Seq<char>, i: DepsInputView, n: int) -> Seq<char>
    decreases n,
{
    if n <= 0 {
        out
    } else {
        let name = i.crates[n - 1].name;
        let ms = modules_shown(i, name, true);
        module_table(module_tables(out, i, n - 1), name, ms, ms.len() as int)
    }
}

/// `out` with rows on the first `n` dependencies behind it.
pub open spec fn dep_rows(out: Seq<char>, edges: Seq<(Seq<char>, Seq<char>)>, n: int) -> Seq<char>
    decreases n,
{
    if n <= 0 {
        out
    } else {
        let r = with_cell(dep_rows(out, edges, n - 1) + "|"@, cell(edges[n - 1].0));
        with_cell(r, cell(edges[n - 1].1)) + "\n"@
    }
}

/// The tables on the workspace's crates.
pub open spec fn deps_table(
    i: DepsInputView,
    layers: Seq<(Seq<char>, Seq<char>)>,
    modules: bool,
) -> Seq<char> {
    let out = "Workspace crates: "@ + dec(i.crates.len()) + "\n"@ + "Crate dependency edges: "@
        + dec(i.edges.len()) + "\n"@;
    let out = if i.crates.len() == 0 {
        out
    } else {
        crate_rows(
            out + "| crate | layer | fan_in | doc |\n"@ + "|---|---|---:|---|\n"@,
            i,
            layers,
            i.crates.len() as int,
        )
    };
    let out = if modules {
        module_tables(
            out + "\n"@ + "| crate | module | symbols | role | hotspot | hotspot_fan_in |\n"@
                + "|---|---|---:|---|---|---:|\n"@,
            i,
            i.crates.len() as int,
        )
    } else {
        out
    };
    if i.edges.len() == 0 {
        out
    } else {
        dep_rows(
            out + "\n"@ + "| from_crate | to_crate |\n"@ + "|---|---|\n"@,
            i.edges,
            i.edges.len() as int,
        )
    }
}

fn deps_md(i: &DepsInput, layers: &Layers, modules: bool) -> (r: String)
    ensures
        r@ == deps_table(i@, layers@, modules),
{
    let mut out = concat3("Workspace crates: ", &usize_text(i.crates.len()), "\n");
    out.append("Crate dependency edges: ");
    out.append(&usize_text(i.edges.len()));
    out.append("\n");
    if i.crates.len() > 0 {
        out.append("| crate | layer | fan_in | doc |\n");
        out.append("|---|---|---:|---|\n");
        let ghost start = out@;
        let mut k: usize = 0;
        while k < i.crates.len()
            invariant
                k <= i.crates@.len(),
                out@ == crate_rows(start, i@, layers@, k as int),
            decreases i.crates@.len() - k,
        {
            let c = &i.crates[k];
            assert(i@.crates[k as int] == c@);
            let first = first_line_of(&c.doc);
            out.append("|");
            add_cell(&mut out, &cell_of(&c.name));
            add_cell(&mut out, &layer_text(layers, &c.name));
            add_cell(&mut out, &usize_text(count_dependents(&i.edges, &c.name)));
            add_cell(&mut out, &cell_of(&text_or(&first, "-")));
            out.append("\n");
            k = k + 1;
        }
    }
    if modules {
        out.append("\n");
        out.append("| crate | module | symbols | role | hotspot | hotspot_fan_in |\n");
        out.append("|---|---|---:|---|---|---:|\n");
        let ghost start = out@;
        let mut k: usize = 0;
        while k < i.crates.len()
            invariant
                k <= i.crates@.len(),
                out@ == module_tables(start, i@, k as int),
            decreases i.crates@.len() - k,
        {
            let name = &i.crates[k].name;
            assert(i@.crates[k as int].name == name@);
            let ms = modules_for(i, name, true);
            let ghost before = out@;
            let mut j: usize = 0;
            assert(views(ms@).len() == ms@.len());
            while j < ms.len()
                invariant
                    j <= ms@.len(),
                    out@ == module_table(before, name@, views(ms@), j as int),
                decreases ms@.len() - j,
            {
                let m = &ms[j];
                assert(views(ms@)[j as int] == m@);
                out.append("|");
                add_cell(&mut out, &cell_of(name));
                add_cell(&mut out, &cell_of(&m.module));
                add_cell(&mut out, &usize_text(m.symbols));
                add_cell(&mut out, &cell_of(&m.role));
                add_cell(&mut out, &cell_of(&m.hotspot));
                add_cell(&mut out, &usize_text(m.hotspot_fan_in));
                out.append("\n");
                j = j + 1;
            }
            k = k + 1;
        }
    }
    if i.edges.len() > 0 {
        out.append("\n");
        out.append("| from_crate | to_crate |\n");
        out.append("|---|---|\n");
        let ghost start = out@;
        let mut k: usize = 0;
        while k < i.edges.len()
            invariant
                k <= i.edges@.len(),
                out@ == dep_rows(start, i@.edges, k as int),
            decreases i.edges@.len() - k,
        {
            assert(i@.edges[k as int] == i.edges@[k as int].deep_view());
            out.append("|");
            add_cell(&mut out, &cell_of(&i.edges[k].0));
            add_cell(&mut out, &cell_of(&i.edges[k].1));
            out.append("\n");
            k = k + 1;
        }
    }
    out
}

/// Show the workspace's crates, their layers and dependencies, and their modules where that
/// is asked for.
pub fn deps(input: &DepsInput, layers: &Layers, md: bool, modules: bool) -> (r: String)
    ensures
        r@ == if md {
            deps_table(input@, layers@, modules)
        } else {
            xml_text(deps_document(input@, layers@, modules))
        },
{
    if md {
        deps_md(input, layers, modules)
    } else {
        deps_xml(input, layers, modules)
    }
}

// ---------------------------------------------------------------------------
// Map
// ---------------------------------------------------------------------------

/// A symbol on the map. `hotspot_fan_in` counts the edges that hotspots are found by.
/// `role_confidence` is the rendered confidence in its role, which `role_uncertain` says is
/// low.
#[derive(Debug)]
pub struct MapRow {
    pub file: String,
    pub name: String,
    pub kind: String,
    pub visibility: String,
    pub signature: Option<String>,
    pub complexity: Option<i64>,
    pub hotspot_fan_in: i64,
    pub fan_in: i64,
    pub fan_out: i64,
    pub doc: Option<String>,
    pub role: String,
    pub role_confidence: String,
    pub role_uncertain: bool,
}

/// What a [`MapRow`] holds.
#[verifier::ext_equal]
pub struct MapRowView {
    pub file: Seq<char>,
    pub name: Seq<char>,
    pub kind: Seq<char>,
    pub visibility: Seq<char>,
    pub signature: Option<Seq<char>>,
    pub complexity: Option<i64>,
    pub hotspot_fan_in: i64,
    pub fan_in: i64,
    pub fan_out: i64,
    pub doc: Option<Seq<char>>,
    pub role: Seq<char>,
    pub role_confidence: Seq<char>,
    pub role_uncertain: bool,
}

impl DeepView for MapRow {
    type V = MapRowView;

    open spec fn deep_view(&self) -> MapRowView {
        MapRowView {
            file: self.file.deep_view(),
            name: self.name.deep_view(),
            kind: self.kind.deep_view(),
            visibility: self.visibility.deep_view(),
            signature: self.signature.deep_view(),
            complexity: self.complexity.deep_view(),
            hotspot_fan_in: self.hotspot_fan_in.deep_view(),
            fan_in: self.fan_in.deep_view(),
            fan_out: self.fan_out.deep_view(),
            doc: self.doc.deep_view(),
            role: self.role.deep_view(),
            role_confidence: self.role_confidence.deep_view(),
            role_uncertain: self.role_uncertain.deep_view(),
        }
    }
}

impl View for MapRow {
    type V = MapRowView;

    open spec fn view(&self) -> MapRowView {
        self.deep_view()
    }
}

/// A symbol that many edges lead to.
#[derive(Debug)]
pub struct Hotspot {
    pub name: String,
    pub kind: String,
    pub file: String,
    pub fan_in: i64,
    pub fan_out: i64,
}

/// What a [`Hotspot`] holds.
#[verifier::ext_equal]
pub struct HotspotView {
    pub name: Seq<char>,
    pub kind: Seq<char>,
    pub file: Seq<char>,
    pub fan_in: i64,
    pub fan_out: i64,
}

impl DeepView for Hotspot {
    type V = HotspotView;

    open spec fn deep_view(&self) -> HotspotView {
        HotspotView {
            name: self.name.deep_view(),
            kind: self.kind.deep_view(),
            file: self.file.deep_view(),
            fan_in: self.fan_in.deep_view(),
            fan_out: self.fan_out.deep_view(),
        }
    }
}

impl View for Hotspot {
    type V = HotspotView;

    open spec fn view(&self) -> HotspotView {
        self.deep_view()
    }
}

impl Ranked for Hotspot {
    /// Symbols that more edges lead to come first.
    open spec fn before(a: HotspotView, b: HotspotView) -> bool {
        a.fan_in > b.fan_in
    }

    fn precedes(&self, other: &Hotspot) -> (r: bool) {
        self.fan_in > other.fan_in
    }

    proof fn weak_order(a: HotspotView, b: HotspotView, c: HotspotView) {
    }
}

/// The statement's condition on visibility and role. Quotes in the role are doubled.
pub open spec fn map_where(include_private: bool, role: Option<Seq<char>>) -> Seq<char> {
    let by_role = match role {
        Some(r) => " AND n.role = '"@ + replaced(r, "'"@, "''"@) + "'"@,
        None => ""@,
    };
    if include_private {
        match role {
            Some(_) => "WHERE 1=1"@ + by_role,
            None => ""@,
        }
    } else {
        "WHERE n.visibility NOT IN ('private', 'default')"@ + by_role
    }
}

/// The statement that loads the map's symbols.
pub open spec fn map_statement(include_private: bool, all_edges: bool, role: Option<Seq<char>>) -> Seq<
    char,
> {
    "SELECT n.file, n.name, n.kind, n.visibility, n.signature, n.complexity,\n                ("@
        + (if all_edges {
        "SELECT COUNT(*) FROM edges WHERE to_id = n.id"@
    } else {
        "SELECT COUNT(*) FROM edges WHERE to_id = n.id AND source IN ('resolver', 'rustdoc')"@
    })
        + ") AS hotspot_fan_in,\n                (SELECT COUNT(*) FROM edges WHERE to_id = n.id) AS fan_in,\n                (SELECT COUNT(*) FROM edges WHERE from_id = n.id) AS fan_out,\n                n.doc, n.role, n.role_confidence\n         FROM nodes n\n         "@
        + map_where(include_private, role) + "\n         ORDER BY n.file, hotspot_fan_in DESC"@
}

/// The statement that loads the map's symbols.
pub fn map_sql(include_private: bool, all_edges: bool, role: &Option<String>) -> (r: String)
    ensures
        r@ == map_statement(include_private, all_edges, role.deep_view()),
{
    let by_role = match role {
        Some(name) => {
            proof {
                reveal_strlit("'");
            }
            let quoted = replace(name, "'", "''");
            concat3(" AND n.role = '", &quoted, "'")
        },
        None => "".to_owned(),
    };
    let condition = if include_private {
        if role.is_some() {
            concat2("WHERE 1=1", &by_role)
        } else {
            "".to_owned()
        }
    } else {
        concat2("WHERE n.visibility NOT IN ('private', 'default')", &by_role)
    };
    let mut sql =
        "SELECT n.file, n.name, n.kind, n.visibility, n.signature, n.complexity,\n                (".to_owned();
    if all_edges {
        sql.append("SELECT COUNT(*) FROM edges WHERE to_id = n.id");
    } else {
        sql.append(
            "SELECT COUNT(*) FROM edges WHERE to_id = n.id AND source IN ('resolver', 'rustdoc')",
        );
    }
    sql.append(
        ") AS hotspot_fan_in,\n                (SELECT COUNT(*) FROM edges WHERE to_id = n.id) AS fan_in,\n                (SELECT COUNT(*) FROM edges WHERE from_id = n.id) AS fan_out,\n                n.doc, n.role, n.role_confidence\n         FROM nodes n\n         ",
    );
    sql.append(&condition);
    sql.append("\n         ORDER BY n.file, hotspot_fan_in DESC");
    sql
}

/// Those of the first `n` symbols that are in the context, where one is asked for.
pub open spec fn rows_in_context(rows: Seq<MapRowView>, context: Option<Seq<char>>, n: int) -> Seq<
    MapRowView,
>
    decreases n,
{
    if n <= 0 {
        Seq::empty()
    } else {
        let rest = rows_in_context(rows, context, n - 1);
        if context matches Some(c) && context_of(rows[n - 1].file) != c {
            rest
        } else {
            rest.push(rows[n - 1])
        }
    }
}

fn filter_context(rows: Vec<MapRow>, context: &Option<String>) -> (r: Vec<MapRow>)
    ensures
        views(r@) == rows_in_context(views(rows@), context.deep_view(), rows@.len() as int),
{
    let ghost all = views(rows@);
    let mut out: Vec<MapRow> = Vec::new();
    for row in it: rows
        invariant
            views(it.seq()) == all,
            views(out@) == rows_in_context(all, context.deep_view(), it.index() as int),
    {
        assert(views(it.seq())[it.index() as int] == row@);
        let keep = match context {
            Some(c) => str_eq(&file_to_context(&row.file), c),
            None => true,
        };
        if keep {
            out.push(row);
        }
    }
    out
}

/// The symbol as a hotspot.
pub open spec fn as_hotspot(r: MapRowView) -> HotspotView {
    HotspotView {
        name: r.name,
        kind: r.kind,
        file: r.file,
        fan_in: r.hotspot_fan_in,
        fan_out: r.fan_out,
    }
}

/// Those of the first `n` hotspots that any edge leads to.
pub open spec fn live_hotspots(hs: Seq<HotspotView>, n: int) -> Seq<HotspotView>
    decreases n,
{
    if n <= 0 {
        Seq::empty()
    } else {
        let rest = live_hotspots(hs, n - 1);
        if hs[n - 1].fan_in > 0 {
            rest.push(hs[n - 1])
        } else {
            rest
        }
    }
}

/// The lesser of two numbers.
pub open spec fn lesser(a: int, b: int) -> int {
    if a < b {
        a
    } else {
        b
    }
}

/// The `top` symbols that most edges lead to, without those that none leads to.
pub open spec fn hotspots_of(rows: Seq<MapRowView>, top: int) -> Seq<HotspotView> {
    let ranked = stable_sorted::<Hotspot>(Seq::new(rows.len(), |i: int| as_hotspot(rows[i])));
    live_hotspots(ranked, lesser(top, ranked.len() as int))
}

proof fn live_hotspots_rank(hs: Seq<HotspotView>, n: int)
    requires
        0 <= n <= hs.len(),
        in_order::<Hotspot>(hs),
    ensures
        live_hotspots(hs, n).len() <= n,
        forall|i: int|
            0 <= i < live_hotspots(hs, n).len() ==> (#[trigger] live_hotspots(hs, n)[i]).fan_in > 0,
        forall|i: int|
            0 <= i < live_hotspots(hs, n).len() ==> live_hotspots(hs, n).contains(
                #[trigger] live_hotspots(hs, n)[i],
            ),
        forall|i: int, k: int|
            0 <= i < live_hotspots(hs, n).len() && n <= k < hs.len()
                ==> (#[trigger] live_hotspots(hs, n)[i]).fan_in >= (#[trigger] hs[k]).fan_in,
        forall|i: int, j: int|
            0 <= i < j < live_hotspots(hs, n).len() ==> (#[trigger] live_hotspots(
                hs,
                n,
            )[i]).fan_in >= (#[trigger] live_hotspots(hs, n)[j]).fan_in,
    decreases n,
{
    if n > 0 {
        live_hotspots_rank(hs, n - 1);
        assert forall|k: int| n <= k < hs.len() implies hs[n - 1].fan_in >= (
        #[trigger] hs[k]).fan_in by {
            assert(!<Hotspot as Ranked>::before(hs[k], hs[n - 1]));
        }
    }
}

/// The hotspots are at most as many as are asked for, each has edges that lead to it, and
/// they come in descending order of how many.
pub proof fn hotspots_are_ranked(rows: Seq<MapRowView>, top: int)
    requires
        0 <= top,
    ensures
        hotspots_of(rows, top).len() <= top,
        forall|i: int|
            0 <= i < hotspots_of(rows, top).len() ==> (#[trigger] hotspots_of(rows, top)[i]).fan_in
                > 0,
        forall|i: int, j: int|
            0 <= i < j < hotspots_of(rows, top).len() ==> (#[trigger] hotspots_of(
                rows,
                top,
            )[i]).fan_in >= (#[trigger] hotspots_of(rows, top)[j]).fan_in,
{
    let all = Seq::new(rows.len(), |i: int| as_hotspot(rows[i]));
    let ranked = stable_sorted::<Hotspot>(all);
    sorting_orders::<Hotspot>(all);
    live_hotspots_rank(ranked, lesser(top, ranked.len() as int));
}

fn find_hotspots(rows: &Vec<MapRow>, top: usize) -> (r: Vec<Hotspot>)
    ensures
        views(r@) == hotspots_of(views(rows@), top as int),
{
    let ghost goal = Seq::new(rows@.len(), |i: int| as_hotspot(views(rows@)[i]));
    let mut all: Vec<Hotspot> = Vec::new();
    let mut i: usize = 0;
    while i < rows.len()
        invariant
            i <= rows@.len(),
            goal == Seq::new(rows@.len(), |i: int| as_hotspot(views(rows@)[i])),
            views(all@) =~= goal.take(i as int),
        decreases rows@.len() - i,
    {
        let r = &rows[i];
        assert(views(rows@)[i as int] == r@);
        let h = Hotspot {
            name: r.name.dup(),
            kind: r.kind.dup(),
            file: r.file.dup(),
            fan_in: r.hotspot_fan_in,
            fan_out: r.fan_out,
        };
        all.push(h);
        i = i + 1;
    }
    assert(views(all@) =~= goal);
    let ranked = stable_sort(all);
    let ghost rv = views(ranked@);
    assert(goal =~= Seq::new(views(rows@).len(), |i: int| as_hotspot(views(rows@)[i])));
    assert(rv.len() == ranked@.len());
    let mut out: Vec<Hotspot> = Vec::new();
    let mut n: usize = 0;
    for h in it: ranked
        invariant
            views(it.seq()) == rv,
            n == lesser(top as int, it.index() as int),
            views(out@) == live_hotspots(rv, n as int),
    {
        assert(views(it.seq())[it.index() as int] == h@);
        if n < top {
            if h.fan_in > 0 {
                out.push(h);
            }
            n = n + 1;
        }
    }
    out
}

/// The text of the last entry with the path.
pub open spec fn doc_of_file(docs: Seq<(Seq<char>, Seq<char>)>, path: Seq<char>) -> Option<Seq<char>>
    decreases docs.len(),
{
    if docs.len() == 0 {
        None
    } else if docs.last().0 == path {
        Some(docs.last().1)
    } else {
        doc_of_file(docs.drop_last(), path)
    }
}

fn find_file_doc(docs: &Vec<(String, String)>, path: &str) -> (r: Option<String>)
    ensures
        r.deep_view() == doc_of_file(views(docs@), path@),
{
    let mut i: usize = docs.len();
    assert(views(docs@).take(i as int) =~= views(docs@));
    while i > 0
        invariant
            i <= docs@.len(),
            doc_of_file(views(docs@), path@) == doc_of_file(views(docs@).take(i as int), path@),
        decreases i,
    {
        assert(views(docs@).take(i as int).drop_last() =~= views(docs@).take(i - 1));
        assert(views(docs@)[i - 1] == docs@[i - 1].deep_view());
        if str_eq(&docs[i - 1].0, path) {
            return Some(docs[i - 1].1.dup());
        }
        i = i - 1;
    }
    None
}

/// What the map shows.
pub struct MapOptions {
    pub top: usize,
    pub with_docs: bool,
    /// The docs of files, where they are asked for.
    pub file_docs: Option<Vec<(String, String)>>,
    pub all_edges: bool,
    pub by_file: bool,
}

/// The doc of a file, where the docs of files are asked for.
pub open spec fn shown_file_doc(o: MapOptions, path: Seq<char>) -> Option<Seq<char>> {
    match o.file_docs {
        Some(docs) => doc_of_file(views(docs@), path),
        None => None,
    }
}

/// The name of the module that a file is.
pub open spec fn module_name(path: Seq<char>) -> Seq<char> {
    let p = plain_path(path);
    match file_name(p) {
        Some(n) => stem_of(n),
        None => p,
    }
}

/// The name of the module that a file is.
pub fn file_to_module(path: &str) -> (r: String)
    ensures
        r@ == module_name(path@),
{
    let p = strip_dot(path);
    match file_stem(&p) {
        Some(s) => s,
        None => p,
    }
}

/// The attributes of a symbol on the map.
pub open spec fn map_attrs(s: MapRowView) -> Seq<(Seq<char>, Seq<char>)> {
    let a = no_attrs()
        .push(("name"@, s.name))
        .push(("kind"@, s.kind))
        .push(("visibility"@, s.visibility))
        .push(("fan_in"@, int_text(s.fan_in as int)))
        .push(("fan_out"@, int_text(s.fan_out as int)))
        .push(("role"@, s.role))
        .push(("role_confidence"@, s.role_confidence));
    let a = if s.role_uncertain {
        a.push(("role_uncertain"@, "true"@))
    } else {
        a
    };
    let a = match s.complexity {
        Some(c) => a.push(("complexity"@, int_text(c as int))),
        None => a,
    };
    match s.signature {
        Some(sig) => a.push(("signature"@, sig)),
        None => a,
    }
}

/// The document with a symbol on the map, and its doc where that is asked for.
pub open spec fn map_symbol_nodes(ev: Seq<Node>, s: MapRowView, with_docs: bool) -> Seq<Node> {
    match s.doc {
        Some(d) => if with_docs && d.len() > 0 {
            with_close(
                with_text(with_open(ev, "symbol"@, map_attrs(s)), "doc"@, d),
                "symbol"@,
            )
        } else {
            with_empty(ev, "symbol"@, map_attrs(s))
        },
        None => with_empty(ev, "symbol"@, map_attrs(s)),
    }
}

fn write_map_symbol(w: &mut XmlWriter, s: &MapRow, with_docs: bool)
    ensures
        xml_events(*final(w)) == map_symbol_nodes(xml_events(*old(w)), s@, with_docs),
{
    let mut a = Attrs::new().with("name", &s.name).with("kind", &s.kind).with(
        "visibility",
        &s.visibility,
    ).with("fan_in", &i64_text(s.fan_in)).with("fan_out", &i64_text(s.fan_out)).with(
        "role",
        &s.role,
    ).with("role_confidence", &s.role_confidence);
    if s.role_uncertain {
        a = a.with("role_uncertain", "true");
    }
    if let Some(c) = s.complexity {
        a = a.with("complexity", &i64_text(c));
    }
    if let Some(sig) = &s.signature {
        a = a.with("signature", sig);
    }
    if let Some(d) = &s.doc {
        if with_docs && !d.as_str().is_empty() {
            open_attrs(w, "symbol", &a);
            text_tag(w, "doc", d);
            close(w, "symbol");
            return;
        }
    }
    empty(w, "symbol", &a);
}

/// The document with those of the first `n` symbols that are in the file.
pub open spec fn file_members(
    ev: Seq<Node>,
    rows: Seq<MapRowView>,
    path: Seq<char>,
    with_docs: bool,
    n: int,
) -> Seq<Node>
    decreases n,
{
    if n <= 0 {
        ev
    } else {
        let ev = file_members(ev, rows, path, with_docs, n - 1);
        if rows[n - 1].file == path {
            map_symbol_nodes(ev, rows[n - 1], with_docs)
        } else {
            ev
        }
    }
}

/// The files of the symbols.
pub open spec fn files_of(rows: Seq<MapRowView>) -> Seq<Seq<char>> {
    Seq::new(rows.len(), |i: int| rows[i].file)
}

/// The document with a file's symbols, shown as a file or as the module that it is.
pub open spec fn file_nodes(ev: Seq<Node>, rows: Seq<MapRowView>, path: Seq<char>, o: MapOptions) -> Seq<
    Node,
> {
    let count = dec(times(files_of(rows), path));
    let ev = if o.by_file {
        with_open(ev, "file"@, no_attrs().push(("path"@, path)).push(("symbols"@, count)))
    } else {
        with_open(
            ev,
            "module"@,
            no_attrs().push(("name"@, module_name(path))).push(("path"@, path)).push(
                ("symbols"@, count),
            ),
        )
    };
    let ev = match shown_file_doc(o, path) {
        Some(d) => with_text(ev, "doc"@, d),
        None => ev,
    };
    with_close(
        file_members(ev, rows, path, o.with_docs, rows.len() as int),
        if o.by_file {
            "file"@
        } else {
            "module"@
        },
    )
}

/// The document with the first `n` files.
pub open spec fn files_nodes(
    ev: Seq<Node>,
    rows: Seq<MapRowView>,
    paths: Seq<Seq<char>>,
    o: MapOptions,
    n: int,
) -> Seq<Node>
    decreases n,
{
    if n <= 0 {
        ev
    } else {
        file_nodes(files_nodes(ev, rows, paths, o, n - 1), rows, paths[n - 1], o)
    }
}

/// The document with the first `n` hotspots.
pub open spec fn hotspot_nodes(ev: Seq<Node>, hs: Seq<HotspotView>, n: int) -> Seq<Node>
    decreases n,
{
    if n <= 0 {
        ev
    } else {
        let h = hs[n - 1];
        with_empty(
            hotspot_nodes(ev, hs, n - 1),
            "symbol"@,
            no_attrs()
                .push(("name"@, h.name))
                .push(("kind"@, h.kind))
                .push(("file"@, h.file))
                .push(("fan_in"@, int_text(h.fan_in as int)))
                .push(("fan_out"@, int_text(h.fan_out as int))),
        )
    }
}

/// The document on the project's files and hotspots, with the tokens that it takes.
pub open spec fn map_document(rows: Seq<MapRowView>, o: MapOptions) -> Seq<Node> {
    map_nodes(rows, o, tokens_of(map_nodes(rows, o, ""@)))
}

/// The document on the project's files and hotspots, where it takes so many tokens.
pub open spec fn map_nodes(rows: Seq<MapRowView>, o: MapOptions, tokens: Seq<char>) -> Seq<Node> {
    let paths = key_set::<String>(files_of(rows));
    let hs = hotspots_of(rows, o.top as int);
    let ev = with_open(
        Seq::empty(),
        "map"@,
        no_attrs().push(("files"@, dec(paths.len()))).push(("symbols"@, dec(rows.len()))).push(
            ("tokens"@, tokens),
        ),
    );
    let ev = with_open(
        ev,
        "hotspots"@,
        no_attrs().push(("top"@, dec(hs.len()))).push(
            (
                "fan_in_source"@,
                if o.all_edges {
                    "all"@
                } else {
                    "trusted"@
                },
            ),
        ),
    );
    let ev = with_close(hotspot_nodes(ev, hs, hs.len() as int), "hotspots"@);
    with_close(files_nodes(ev, rows, paths, o, paths.len() as int), "map"@)
}

fn list_files(rows: &Vec<MapRow>) -> (r: Vec<String>)
    ensures
        views(r@) == files_of(views(rows@)),
{
    let mut out: Vec<String> = Vec::new();
    let mut i: usize = 0;
    while i < rows.len()
        invariant
            i <= rows@.len(),
            views(out@) =~= files_of(views(rows@)).take(i as int),
        decreases rows@.len() - i,
    {
        assert(views(rows@)[i as int] == rows@[i as int]@);
        out.push(rows[i].file.dup());
        i = i + 1;
    }
    assert(views(out@) =~= files_of(views(rows@)));
    out
}

fn write_file(w: &mut XmlWriter, rows: &Vec<MapRow>, count: usize, path: &str, o: &MapOptions)
    requires
        count == times(files_of(views(rows@)), path@),
    ensures
        xml_events(*final(w)) == file_nodes(xml_events(*old(w)), views(rows@), path@, *o),
{
    if o.by_file {
        open_attrs(
            w,
            "file",
            &Attrs::new().with("path", path).with("symbols", &usize_text(count)),
        );
    } else {
        open_attrs(
            w,
            "module",
            &Attrs::new().with("name", &file_to_module(path)).with("path", path).with(
                "symbols",
                &usize_text(count),
            ),
        );
    }
    if let Some(docs) = &o.file_docs {
        if let Some(d) = find_file_doc(docs, path) {
            text_tag(w, "doc", &d);
        }
    }
    let ghost ev = xml_events(*w);
    let mut i: usize = 0;
    while i < rows.len()
        invariant
            i <= rows@.len(),
            xml_events(*w) == file_members(ev, views(rows@), path@, o.with_docs, i as int),
        decreases rows@.len() - i,
    {
        assert(views(rows@)[i as int] == rows@[i as int]@);
        if str_eq(&rows[i].file, path) {
            write_map_symbol(w, &rows[i], o.with_docs);
        }
        i = i + 1;
    }
    if o.by_file {
        close(w, "file");
    } else {
        close(w, "module");
    }
}

fn map_xml(rows: &Vec<MapRow>, o: &MapOptions) -> (r: String)
    ensures
        r@ == xml_text(map_document(views(rows@), *o)),
{
    let uncounted = write_map(rows, o, "");
    write_map(rows, o, &count_tokens(&uncounted))
}

fn write_map(rows: &Vec<MapRow>, o: &MapOptions, tokens: &str) -> (r: String)
    ensures
        r@ == xml_text(map_nodes(views(rows@), *o, tokens@)),
{
    let files = list_files(rows);
    let paths = distinct_keys(&files);
    let hs = find_hotspots(rows, o.top);
    assert(views(paths@).len() == paths@.len());
    assert(views(hs@).len() == hs@.len());
    let mut w = new_writer();
    open_attrs(
        &mut w,
        "map",
        &Attrs::new().with("files", &usize_text(paths.len())).with(
            "symbols",
            &usize_text(rows.len()),
        ).with("tokens", tokens),
    );
    let source = if o.all_edges {
        "all"
    } else {
        "trusted"
    };
    open_attrs(
        &mut w,
        "hotspots",
        &Attrs::new().with("top", &usize_text(hs.len())).with("fan_in_source", source),
    );
    let ghost ev = xml_events(w);
    let mut i: usize = 0;
    while i < hs.len()
        invariant
            i <= hs@.len(),
            xml_events(w) == hotspot_nodes(ev, views(hs@), i as int),
        decreases hs@.len() - i,
    {
        let h = &hs[i];
        assert(views(hs@)[i as int] == h@);
        empty(
            &mut w,
            "symbol",
            &Attrs::new().with("name", &h.name).with("kind", &h.kind).with("file", &h.file).with(
                "fan_in",
                &i64_text(h.fan_in),
            ).with("fan_out", &i64_text(h.fan_out)),
        );
        i = i + 1;
    }
    close(&mut w, "hotspots");
    let ghost ev = xml_events(w);
    let mut k: usize = 0;
    while k < paths.len()
        invariant
            k <= paths@.len(),
            views(files@) == files_of(views(rows@)),
            xml_events(w) == files_nodes(ev, views(rows@), views(paths@), *o, k as int),
        decreases paths@.len() - k,
    {
        assert(views(paths@)[k as int] == paths@[k as int]@);
        let count = count_text(&files, &paths[k]);
        write_file(&mut w, rows, count, &paths[k], o);
        k = k + 1;
    }
    close(&mut w, "map");
    finish(w)
}

/// `out` with rows on the first `n` symbols behind it.
pub open spec fn map_rows(out: Seq<char>, rows: Seq<MapRowView>, n: int) -> Seq<char>
    decreases n,
{
    if n <= 0 {
        out
    } else {
        let s = rows[n - 1];
        let r = with_cell(map_rows(out, rows, n - 1) + "|"@, cell(s.file));
        let r = with_cell(r, cell(s.name));
        let r = with_cell(r, cell(s.kind));
        let r = with_cell(r, cell(s.visibility));
        let r = with_cell(
            r,
            match s.complexity {
                Some(c) => int_text(c as int),
                None => ""@,
            },
        );
        let r = with_cell(r, cell(s.role) + " ("@ + s.role_confidence + ")"@);
        let r = with_cell(r, int_text(s.fan_in as int));
        with_cell(r, int_text(s.fan_out as int)) + "\n"@
    }
}

/// The table of the project's symbols.
pub open spec fn map_table(rows: Seq<MapRowView>) -> Seq<char> {
    map_rows(
        "| file | symbol | kind | visibility | complexity | role | fan_in | fan_out |\n"@
            + "|---|---|---|---|---:|---|---:|---:|\n"@,
        rows,
        rows.len() as int,
    )
}

fn map_md(rows: &Vec<MapRow>) -> (r: String)
    ensures
        r@ == map_table(views(rows@)),
{
    let mut out = concat2(
        "| file | symbol | kind | visibility | complexity | role | fan_in | fan_out |\n",
        "|---|---|---|---|---:|---|---:|---:|\n",
    );
    let ghost head = out@;
    let mut i: usize = 0;
    while i < rows.len()
        invariant
            i <= rows@.len(),
            out@ == map_rows(head, views(rows@), i as int),
        decreases rows@.len() - i,
    {
        let s = &rows[i];
        assert(views(rows@)[i as int] == s@);
        let complexity = match s.complexity {
            Some(c) => i64_text(c),
            None => "".to_owned(),
        };
        let mut role = concat3(&cell_of(&s.role), " (", &s.role_confidence);
        role.append(")");
        out.append("|");
        add_cell(&mut out, &cell_of(&s.file));
        add_cell(&mut out, &cell_of(&s.name));
        add_cell(&mut out, &cell_of(&s.kind));
        add_cell(&mut out, &cell_of(&s.visibility));
        add_cell(&mut out, &complexity);
        add_cell(&mut out, &role);
        add_cell(&mut out, &i64_text(s.fan_in));
        add_cell(&mut out, &i64_text(s.fan_out));
        out.append("\n");
        i = i + 1;
    }
    out
}

/// Show the project's files or modules with their symbols, and the symbols that most others
/// depend on.
pub fn map(rows: Vec<MapRow>, context: &Option<String>, o: &MapOptions, md: bool) -> (r: String)
    ensures
        ({
            let shown = rows_in_context(views(rows@), context.deep_view(), rows@.len() as int);
            r@ == if md {
                map_table(shown)
            } else {
                xml_text(map_document(shown, *o))
            }
        }),
{
    let shown = filter_context(rows, context);
    if md {
        map_md(&shown)
    } else {
        map_xml(&shown, o)
    }
}

// ---------------------------------------------------------------------------
// What overviews show
// ---------------------------------------------------------------------------

/// A map of a context shows the symbols whose files lie in it, and a map of all contexts shows
/// all symbols, in their order.
pub proof fn maps_keep_to_their_context(rows: Seq<MapRowView>, context: Option<Seq<char>>, n: int)
    requires
        0 <= n <= rows.len(),
    ensures
        rows_in_context(rows, context, n) == rows.take(n).filter(
            |r: MapRowView| context is None || context == Some(context_of(r.file)),
        ),
    decreases n,
{
    reveal(Seq::filter);
    if n > 0 {
        maps_keep_to_their_context(rows, context, n - 1);
        assert(rows.take(n).drop_last() =~= rows.take(n - 1));
        assert(rows.take(n).last() == rows[n - 1]);
    }
}

proof fn live_ones_stay(hs: Seq<HotspotView>, n: int, i: int)
    requires
        0 <= i < n <= hs.len(),
        hs[i].fan_in > 0,
    ensures
        live_hotspots(hs, n).contains(hs[i]),
    decreases n,
{
    let rest = live_hotspots(hs, n - 1);
    let all = live_hotspots(hs, n);
    if i < n - 1 {
        live_ones_stay(hs, n - 1, i);
        let j = choose|j: int| 0 <= j < rest.len() && rest[j] == hs[i];
        assert(all[j] == hs[i]);
    } else {
        assert(all[rest.len() as int] == hs[i]);
    }
}

proof fn all_live(hs: Seq<HotspotView>, n: int)
    requires
        0 <= n <= hs.len(),
        forall|i: int| 0 <= i < n ==> (#[trigger] hs[i]).fan_in > 0,
    ensures
        live_hotspots(hs, n) =~= hs.take(n),
    decreases n,
{
    if n > 0 {
        all_live(hs, n - 1);
        assert(hs.take(n) =~= hs.take(n - 1).push(hs[n - 1]));
    }
}

/// A symbol that others call is a hotspot, unless as many as are shown have at least as many
/// callers.
pub proof fn most_called_are_hotspots(rows: Seq<MapRowView>, top: int, i: int)
    requires
        0 <= i < rows.len(),
        0 <= top,
        rows[i].hotspot_fan_in > 0,
    ensures
        hotspots_of(rows, top).contains(
            HotspotView {
                name: rows[i].name,
                kind: rows[i].kind,
                file: rows[i].file,
                fan_in: rows[i].hotspot_fan_in,
                fan_out: rows[i].fan_out,
            },
        ) || (hotspots_of(rows, top).len() == top && forall|k: int|
            0 <= k < top ==> (#[trigger] hotspots_of(rows, top)[k]).fan_in
                >= rows[i].hotspot_fan_in),
{
    let hs = Seq::new(rows.len(), |i: int| as_hotspot(rows[i]));
    let ranked = stable_sorted::<Hotspot>(hs);
    crate::order::sorting_orders::<Hotspot>(hs);
    crate::order::sorting_keeps_items::<Hotspot>(hs, hs[i]);
    assert(hs.contains(hs[i]));
    let j = choose|j: int| 0 <= j < ranked.len() && ranked[j] == hs[i];
    let n = lesser(top, ranked.len() as int);
    if j < n {
        live_ones_stay(ranked, n, j);
    } else {
        assert forall|k: int| 0 <= k < n implies (#[trigger] ranked[k]).fan_in
            >= rows[i].hotspot_fan_in by {
            assert(!Hotspot::before(ranked[j], ranked[k]));
        }
        all_live(ranked, n);
        assert forall|k: int| 0 <= k < top implies (#[trigger] hotspots_of(rows, top)[k]).fan_in
            >= rows[i].hotspot_fan_in by {
            assert(hotspots_of(rows, top)[k] == ranked[k]);
        }
    }
}

/// Every hotspot is a symbol of the map.
pub proof fn hotspots_are_symbols(rows: Seq<MapRowView>, top: int, h: HotspotView)
    requires
        0 <= top,
        hotspots_of(rows, top).contains(h),
    ensures
        exists|i: int|
            0 <= i < rows.len() && (#[trigger] rows[i]).name == h.name && rows[i].kind == h.kind
                && rows[i].file == h.file && rows[i].hotspot_fan_in == h.fan_in && rows[i].fan_out
                == h.fan_out,
{
    let hs = Seq::new(rows.len(), |i: int| as_hotspot(rows[i]));
    let ranked = stable_sorted::<Hotspot>(hs);
    crate::order::sorting_orders::<Hotspot>(hs);
    live_are_given(ranked, lesser(top, ranked.len() as int), h);
    crate::order::sorting_keeps_items::<Hotspot>(hs, h);
    let i = choose|i: int| 0 <= i < hs.len() && hs[i] == h;
    assert(hs[i] == as_hotspot(rows[i]));
    assert(rows[i].name == h.name);
}

proof fn live_are_given(hs: Seq<HotspotView>, n: int, h: HotspotView)
    requires
        0 <= n <= hs.len(),
        live_hotspots(hs, n).contains(h),
    ensures
        hs.contains(h),
    decreases n,
{
    if n > 0 {
        let rest = live_hotspots(hs, n - 1);
        let all = live_hotspots(hs, n);
        let j = choose|j: int| 0 <= j < all.len() && all[j] == h;
        if j < rest.len() {
            assert(rest[j] == h);
            live_are_given(hs, n - 1, h);
        } else {
            assert(hs[n - 1] == h);
        }
    }
}

/// The attributes tell of a symbol of the map.
pub open spec fn tells_of(a: Seq<(Seq<char>, Seq<char>)>, s: MapRowView) -> bool {
    &&& a.contains(("name"@, s.name))
    &&& a.contains(("kind"@, s.kind))
    &&& a.contains(("visibility"@, s.visibility))
    &&& a.contains(("fan_in"@, int_text(s.fan_in as int)))
    &&& a.contains(("fan_out"@, int_text(s.fan_out as int)))
    &&& a.contains(("role"@, s.role))
    &&& a.contains(("role_confidence"@, s.role_confidence))
    &&& s.role_uncertain ==> a.contains(("role_uncertain"@, "true"@))
    &&& s.complexity is Some ==> a.contains(("complexity"@, int_text(s.complexity->0 as int)))
    &&& s.signature is Some ==> a.contains(("signature"@, s.signature->0))
}

proof fn map_symbols_are_told(s: MapRowView)
    ensures
        tells_of(map_attrs(s), s),
{
    let a = map_attrs(s);
    assert(a[0] == ("name"@, s.name));
    assert(a[1] == ("kind"@, s.kind));
    assert(a[2] == ("visibility"@, s.visibility));
    assert(a[3] == ("fan_in"@, int_text(s.fan_in as int)));
    assert(a[4] == ("fan_out"@, int_text(s.fan_out as int)));
    assert(a[5] == ("role"@, s.role));
    assert(a[6] == ("role_confidence"@, s.role_confidence));
    let k: int = if s.role_uncertain {
        8
    } else {
        7
    };
    if s.role_uncertain {
        assert(a[7] == ("role_uncertain"@, "true"@));
    }
    if s.complexity is Some {
        assert(a[k] == ("complexity"@, int_text(s.complexity->0 as int)));
    }
    let l: int = if s.complexity is Some {
        k + 1
    } else {
        k
    };
    if s.signature is Some {
        assert(a[l] == ("signature"@, s.signature->0));
    }
}

/// The symbol is shown in the map: some tag tells of it, and its doc follows where docs are
/// asked for.
pub open spec fn shows(ev: Seq<Node>, s: MapRowView, with_docs: bool) -> bool {
    exists|k: int|
        0 <= k < ev.len() && match #[trigger] ev[k] {
            Node::Start(tag, a) => tag == "symbol"@ && tells_of(a, s) && with_docs && s.doc
                is Some && k + 2 < ev.len() && ev[k + 2] == Node::Text(s.doc->0),
            Node::Empty(tag, a) => tag == "symbol"@ && tells_of(a, s) && (with_docs ==> s.doc is None
                || s.doc->0.len() == 0),
            _ => false,
        }
}

proof fn shown_stays(a: Seq<Node>, b: Seq<Node>, s: MapRowView, with_docs: bool)
    requires
        goes_on_from(a, b),
        shows(a, s, with_docs),
    ensures
        shows(b, s, with_docs),
{
    let k = choose|k: int|
        0 <= k < a.len() && match #[trigger] a[k] {
            Node::Start(tag, x) => tag == "symbol"@ && tells_of(x, s) && with_docs && s.doc
                is Some && k + 2 < a.len() && a[k + 2] == Node::Text(s.doc->0),
            Node::Empty(tag, x) => tag == "symbol"@ && tells_of(x, s) && (with_docs ==> s.doc is None
                || s.doc->0.len() == 0),
            _ => false,
        };
    assert(b[k] == a[k]);
    if k + 2 < a.len() {
        assert(b[k + 2] == a[k + 2]);
    }
}

proof fn symbol_is_shown(ev: Seq<Node>, s: MapRowView, with_docs: bool)
    ensures
        goes_on_from(ev, map_symbol_nodes(ev, s, with_docs)),
        shows(map_symbol_nodes(ev, s, with_docs), s, with_docs),
{
    map_symbols_are_told(s);
    let all = map_symbol_nodes(ev, s, with_docs);
    let k = ev.len() as int;
    if s.doc is Some && with_docs && s.doc->0.len() > 0 {
        assert(all[k] == Node::Start("symbol"@, map_attrs(s)));
        assert(all[k + 2] == Node::Text(s.doc->0));
    } else {
        assert(all[k] == Node::Empty("symbol"@, map_attrs(s)));
    }
}

proof fn members_are_shown(
    ev: Seq<Node>,
    rows: Seq<MapRowView>,
    path: Seq<char>,
    with_docs: bool,
    n: int,
    i: int,
)
    requires
        0 <= n <= rows.len(),
    ensures
        goes_on_from(ev, file_members(ev, rows, path, with_docs, n)),
        0 <= i < n && rows[i].file == path ==> shows(
            file_members(ev, rows, path, with_docs, n),
            rows[i],
            with_docs,
        ),
    decreases n,
{
    if n > 0 {
        members_are_shown(ev, rows, path, with_docs, n - 1, i);
        let before = file_members(ev, rows, path, with_docs, n - 1);
        let all = file_members(ev, rows, path, with_docs, n);
        symbol_is_shown(before, rows[n - 1], with_docs);
        assert(goes_on_from(before, all));
        if 0 <= i < n - 1 && rows[i].file == path {
            shown_stays(before, all, rows[i], with_docs);
        }
    }
}

proof fn files_are_shown(
    ev: Seq<Node>,
    rows: Seq<MapRowView>,
    paths: Seq<Seq<char>>,
    o: MapOptions,
    n: int,
    i: int,
)
    requires
        0 <= n <= paths.len(),
    ensures
        goes_on_from(ev, files_nodes(ev, rows, paths, o, n)),
        0 <= i < rows.len() && (exists|k: int| 0 <= k < n && #[trigger] paths[k] == rows[i].file)
            ==> shows(files_nodes(ev, rows, paths, o, n), rows[i], o.with_docs),
    decreases n,
{
    if n > 0 {
        files_are_shown(ev, rows, paths, o, n - 1, i);
        let before = files_nodes(ev, rows, paths, o, n - 1);
        let all = files_nodes(ev, rows, paths, o, n);
        let path = paths[n - 1];
        let count = dec(times(files_of(rows), path));
        let open = if o.by_file {
            with_open(before, "file"@, no_attrs().push(("path"@, path)).push(("symbols"@, count)))
        } else {
            with_open(
                before,
                "module"@,
                no_attrs().push(("name"@, module_name(path))).push(("path"@, path)).push(
                    ("symbols"@, count),
                ),
            )
        };
        let doc = match shown_file_doc(o, path) {
            Some(d) => with_text(open, "doc"@, d),
            None => open,
        };
        assert(goes_on_from(before, doc));
        members_are_shown(doc, rows, path, o.with_docs, rows.len() as int, i);
        let inner = file_members(doc, rows, path, o.with_docs, rows.len() as int);
        assert(goes_on_from(doc, inner));
        assert(goes_on_from(inner, all));
        assert(goes_on_from(before, all));
        if 0 <= i < rows.len() && rows[i].file == path {
            shown_stays(inner, all, rows[i], o.with_docs);
        } else if 0 <= i < rows.len() && exists|k: int|
            0 <= k < n && #[trigger] paths[k] == rows[i].file {
            let k = choose|k: int| 0 <= k < n && #[trigger] paths[k] == rows[i].file;
            assert(paths[k] == rows[i].file && k < n - 1);
            shown_stays(before, all, rows[i], o.with_docs);
        }
    }
}

proof fn hotspots_extend(ev: Seq<Node>, hs: Seq<HotspotView>, n: int, i: int)
    requires
        0 <= n <= hs.len(),
    ensures
        hotspot_nodes(ev, hs, n).len() == ev.len() + n,
        goes_on_from(ev, hotspot_nodes(ev, hs, n)),
        0 <= i < n ==> hotspot_nodes(ev, hs, n)[ev.len() + i] == Node::Empty(
            "symbol"@,
            no_attrs()
                .push(("name"@, hs[i].name))
                .push(("kind"@, hs[i].kind))
                .push(("file"@, hs[i].file))
                .push(("fan_in"@, int_text(hs[i].fan_in as int)))
                .push(("fan_out"@, int_text(hs[i].fan_out as int))),
        ),
    decreases n,
{
    if n > 0 {
        hotspots_extend(ev, hs, n - 1, i);
    }
}

/// The map shows every symbol that it is given, with its doc where docs are asked for, and
/// counts the symbols in its head.
pub proof fn maps_show_all_symbols(rows: Seq<MapRowView>, o: MapOptions, i: int)
    requires
        0 <= i < rows.len(),
    ensures
        shows(map_document(rows, o), rows[i], o.with_docs),
        map_document(rows, o)[0] matches Node::Start(tag, a) && tag == "map"@ && a.contains(
            ("symbols"@, dec(rows.len())),
        ),
{
    let tokens = tokens_of(map_nodes(rows, o, ""@));
    let paths = key_set::<String>(files_of(rows));
    let hs = hotspots_of(rows, o.top as int);
    let head = no_attrs().push(("files"@, dec(paths.len()))).push(
        ("symbols"@, dec(rows.len())),
    ).push(("tokens"@, tokens));
    assert(head[1] == ("symbols"@, dec(rows.len())));
    let e1 = with_open(Seq::empty(), "map"@, head);
    let e2 = with_open(
        e1,
        "hotspots"@,
        no_attrs().push(("top"@, dec(hs.len()))).push(
            (
                "fan_in_source"@,
                if o.all_edges {
                    "all"@
                } else {
                    "trusted"@
                },
            ),
        ),
    );
    hotspots_extend(e2, hs, hs.len() as int, 0);
    let e3 = with_close(hotspot_nodes(e2, hs, hs.len() as int), "hotspots"@);
    crate::order::text_keys_stay(files_of(rows));
    assert(files_of(rows)[i] == rows[i].file);
    assert(files_of(rows).contains(rows[i].file));
    let k = choose|k: int| 0 <= k < paths.len() && paths[k] == rows[i].file;
    assert(paths[k] == rows[i].file);
    files_are_shown(e3, rows, paths, o, paths.len() as int, i);
    let inner = files_nodes(e3, rows, paths, o, paths.len() as int);
    let doc = map_document(rows, o);
    assert(goes_on_from(inner, doc));
    shown_stays(inner, doc, rows[i], o.with_docs);
    assert(e3[0] == e1[0]);
    assert(doc[0] == e1[0]);
}

/// The map shows its hotspots first, in their order.
pub proof fn maps_show_hotspots_first(rows: Seq<MapRowView>, o: MapOptions, i: int)
    requires
        0 <= i < hotspots_of(rows, o.top as int).len(),
    ensures
        ({
            let h = hotspots_of(rows, o.top as int)[i];
            map_document(rows, o)[i + 2] matches Node::Empty(tag, a) && tag == "symbol"@
                && a.contains(("name"@, h.name)) && a.contains(("kind"@, h.kind)) && a.contains(
                ("file"@, h.file),
            ) && a.contains(("fan_in"@, int_text(h.fan_in as int))) && a.contains(
                ("fan_out"@, int_text(h.fan_out as int)),
            )
        }),
{
    let tokens = tokens_of(map_nodes(rows, o, ""@));
    let paths = key_set::<String>(files_of(rows));
    let hs = hotspots_of(rows, o.top as int);
    let e1 = with_open(
        Seq::empty(),
        "map"@,
        no_attrs().push(("files"@, dec(paths.len()))).push(("symbols"@, dec(rows.len()))).push(
            ("tokens"@, tokens),
        ),
    );
    let e2 = with_open(
        e1,
        "hotspots"@,
        no_attrs().push(("top"@, dec(hs.len()))).push(
            (
                "fan_in_source"@,
                if o.all_edges {
                    "all"@
                } else {
                    "trusted"@
                },
            ),
        ),
    );
    hotspots_extend(e2, hs, hs.len() as int, i);
    let spots = hotspot_nodes(e2, hs, hs.len() as int);
    let e3 = with_close(spots, "hotspots"@);
    files_are_shown(e3, rows, paths, o, paths.len() as int, 0);
    let doc = map_document(rows, o);
    assert(doc[i + 2] == e3[i + 2] && e3[i + 2] == spots[i + 2]);
    let h = hs[i];
    let a = no_attrs()
        .push(("name"@, h.name))
        .push(("kind"@, h.kind))
        .push(("file"@, h.file))
        .push(("fan_in"@, int_text(h.fan_in as int)))
        .push(("fan_out"@, int_text(h.fan_out as int)));
    assert(a[0] == ("name"@, h.name));
    assert(a[1] == ("kind"@, h.kind));
    assert(a[2] == ("file"@, h.file));
    assert(a[3] == ("fan_in"@, int_text(h.fan_in as int)));
    assert(a[4] == ("fan_out"@, int_text(h.fan_out as int)));
}

/// The module of a file below a crate's sources is the first directory there, or the file's own
/// name without `.rs`; the crate's root and `mod.rs` are no modules.
pub proof fn modules_are_first_names(prefix: Seq<char>, name: Seq<char>, rest: Seq<char>)
    requires
        name.len() > 0,
        forall|i: int| 0 <= i < name.len() ==> name[i] != '/' && name[i] != '.',
    ensures
        ({
            let own = if name == "lib"@ || name == "main"@ || name == "mod"@ {
                None
            } else {
                Some(name)
            };
            &&& module_of(prefix + (name + ".rs"@), prefix) == own
            &&& module_of(prefix + (name + "/"@ + rest), prefix) == own
        }),
{
    reveal_strlit(".rs");
    reveal_strlit("/");
    let file = name + ".rs"@;
    let path = prefix + file;
    assert(path.take(prefix.len() as int) =~= prefix);
    assert(path.skip(prefix.len() as int) =~= file);
    crate::text::next_char_is_least(file, '/', 0);
    let k = crate::text::next_char(file, '/', 0);
    if k < file.len() {
        if k < name.len() {
            assert(file[k] == name[k]);
        } else {
            assert(file[k] == ".rs"@[k - name.len()]);
        }
    }
    assert(split_at_char(file, '/')[0] == file);
    assert(file.skip(name.len() as int) =~= ".rs"@);
    assert(file.take(name.len() as int) =~= name);
    let dir = name + "/"@ + rest;
    let below = prefix + dir;
    assert(below.take(prefix.len() as int) =~= prefix);
    assert(below.skip(prefix.len() as int) =~= dir);
    crate::text::next_char_is_least(dir, '/', 0);
    let j = crate::text::next_char(dir, '/', 0);
    assert(dir[name.len() as int] == '/');
    if j < name.len() {
        assert(dir[j] == name[j]);
    }
    assert(j == name.len());
    assert(dir.take(j) =~= name);
    assert(split_at_char(dir, '/')[0] == name);
    if crate::text::finishes_with(name, ".rs"@) {
        let n = name.len() as int;
        assert(name.skip(n - 3)[0] == name[n - 3]);
    }
}

proof fn roles_are_those_of_the_module(
    syms: Seq<SymbolCountView>,
    prefix: Seq<char>,
    module: Seq<char>,
)
    ensures
        roles_in(syms, prefix, module).len() == syms.filter(
            |s: SymbolCountView| module_of(s.file, prefix) == Some(module),
        ).len(),
        forall|x: Seq<char>|
            #![trigger roles_in(syms, prefix, module).contains(x)]
            roles_in(syms, prefix, module).contains(x) ==> exists|i: int|
                0 <= i < syms.len() && module_of((#[trigger] syms[i]).file, prefix) == Some(module)
                    && syms[i].role == x,
    decreases syms.len(),
{
    reveal(Seq::filter);
    if syms.len() > 0 {
        let less = syms.drop_last();
        roles_are_those_of_the_module(less, prefix, module);
        let rest = roles_in(less, prefix, module);
        let all = roles_in(syms, prefix, module);
        assert forall|x: Seq<char>|
            #![trigger all.contains(x)]
            all.contains(x) implies exists|i: int|
            0 <= i < syms.len() && module_of((#[trigger] syms[i]).file, prefix) == Some(module)
                && syms[i].role == x by {
            let j = choose|j: int| 0 <= j < all.len() && all[j] == x;
            if j < rest.len() {
                assert(rest[j] == x);
                assert(rest.contains(x));
                let i = choose|i: int|
                    0 <= i < less.len() && module_of((#[trigger] less[i]).file, prefix) == Some(
                        module,
                    ) && less[i].role == x;
                assert(syms[i] == less[i]);
            } else {
                assert(syms[syms.len() - 1].role == x);
            }
        }
    }
}

/// What is said of a module: how many symbols it has, the role that most of them have, and its
/// hotspot.
pub proof fn modules_are_summed_up(
    syms: Seq<SymbolCountView>,
    prefix: Seq<char>,
    module: Seq<char>,
)
    ensures
        ({
            let m = module_row(syms, prefix, module);
            let own = syms.filter(|s: SymbolCountView| module_of(s.file, prefix) == Some(module));
            let roles = roles_in(syms, prefix, module);
            let spot = hotspot_in(syms, prefix, module, syms.len() as int);
            &&& m.module == module
            &&& m.symbols == own.len() as usize
            &&& own.len() > 0 ==> (exists|i: int|
                0 <= i < syms.len() && module_of((#[trigger] syms[i]).file, prefix) == Some(module)
                    && syms[i].role == m.role) && forall|x: Seq<char>| #[trigger]
                roles.contains(x) ==> times(roles, x) <= times(roles, m.role)
            &&& own.len() == 0 ==> m.role == "unknown"@
            &&& spot matches Some(k) ==> m.hotspot == syms[k].name && m.hotspot_fan_in
                == syms[k].fan_in
            &&& spot is None ==> m.hotspot.len() == 0 && m.hotspot_fan_in == 0
        }),
{
    let roles = roles_in(syms, prefix, module);
    let keys = key_set::<String>(roles);
    roles_are_those_of_the_module(syms, prefix, module);
    crate::order::text_keys_stay(roles);
    most_frequent_is_maximal(keys, roles, keys.len() as int);
    let m = module_row(syms, prefix, module);
    if roles.len() > 0 {
        assert(roles.contains(roles[0]));
        assert(keys.contains(roles[0]));
        let best = most_frequent(keys, roles, keys.len() as int)->0;
        let b = choose|b: int| 0 <= b < keys.len() && keys[b] == best;
        assert(keys.contains(best));
        assert(roles.contains(best));
        assert forall|x: Seq<char>| #[trigger] roles.contains(x) implies times(roles, x) <= times(
            roles,
            m.role,
        ) by {
            assert(keys.contains(x));
            let c = choose|c: int| 0 <= c < keys.len() && keys[c] == x;
            assert(times(roles, keys[c]) <= times(roles, best));
        }
    } else {
        if keys.len() > 0 {
            assert(keys.contains(keys[0]));
            assert(roles.contains(keys[0]));
        }
    }
}

/// A crate is depended on by as many crates as edges lead to it.
pub proof fn crates_are_counted(edges: Seq<(Seq<char>, Seq<char>)>, name: Seq<char>, n: int)
    requires
        0 <= n <= edges.len(),
    ensures
        dependents_on(edges, name, n) == edges.take(n).filter(
            |e: (Seq<char>, Seq<char>)| e.1 == name,
        ).len(),
    decreases n,
{
    reveal(Seq::filter);
    if n > 0 {
        crates_are_counted(edges, name, n - 1);
        assert(edges.take(n).drop_last() =~= edges.take(n - 1));
        assert(edges.take(n).last() == edges[n - 1]);
    }
}

proof fn dep_edges_extend(ev: Seq<Node>, edges: Seq<(Seq<char>, Seq<char>)>, n: int, i: int)
    requires
        0 <= n <= edges.len(),
    ensures
        goes_on_from(ev, dep_nodes(ev, edges, n)),
        0 <= i < n ==> dep_nodes(ev, edges, n).contains(
            Node::Empty(
                "edge"@,
                seq![("from_crate"@, edges[i].0), ("to_crate"@, edges[i].1)],
            ),
        ),
    decreases n,
{
    if n > 0 {
        dep_edges_extend(ev, edges, n - 1, i);
        let before = dep_nodes(ev, edges, n - 1);
        let all = dep_nodes(ev, edges, n);
        let x = Node::Empty(
            "edge"@,
            seq![("from_crate"@, edges[i].0), ("to_crate"@, edges[i].1)],
        );
        if 0 <= i < n - 1 {
            let k = choose|k: int| 0 <= k < before.len() && before[k] == x;
            assert(all[k] == x);
        } else if i == n - 1 {
            assert(no_attrs().push(("from_crate"@, edges[i].0)).push(("to_crate"@, edges[i].1))
                =~= seq![("from_crate"@, edges[i].0), ("to_crate"@, edges[i].1)]);
            assert(all[before.len() as int] == x);
        }
    }
}

proof fn modules_extend(ev: Seq<Node>, ms: Seq<ModuleRowView>, n: int)
    ensures
        goes_on_from(ev, module_nodes(ev, ms, n)),
    decreases n,
{
    if n > 0 {
        modules_extend(ev, ms, n - 1);
    }
}

/// The crate is shown with its layer and the number of crates that depend on it.
pub open spec fn shows_crate(
    ev: Seq<Node>,
    name: Seq<char>,
    layer: Seq<char>,
    fan_in: nat,
) -> bool {
    exists|k: int|
        0 <= k < ev.len() && match #[trigger] ev[k] {
            Node::Start(tag, a) => tag == "crate"@ && a.contains(("name"@, name)) && a.contains(
                ("layer"@, layer),
            ) && a.contains(("fan_in"@, dec(fan_in))),
            Node::Empty(tag, a) => tag == "crate"@ && a.contains(("name"@, name)) && a.contains(
                ("layer"@, layer),
            ) && a.contains(("fan_in"@, dec(fan_in))),
            _ => false,
        }
}

proof fn crates_extend(
    ev: Seq<Node>,
    i: DepsInputView,
    layers: Seq<(Seq<char>, Seq<char>)>,
    modules: bool,
    n: int,
    k: int,
)
    requires
        0 <= n <= i.crates.len(),
    ensures
        goes_on_from(ev, crates_nodes(ev, i, layers, modules, n)),
        0 <= k < n ==> shows_crate(
            crates_nodes(ev, i, layers, modules, n),
            i.crates[k].name,
            layer_shown(layers, i.crates[k].name),
            dependents_on(i.edges, i.crates[k].name, i.edges.len() as int),
        ),
    decreases n,
{
    if n > 0 {
        crates_extend(ev, i, layers, modules, n - 1, k);
        let before = crates_nodes(ev, i, layers, modules, n - 1);
        let all = crates_nodes(ev, i, layers, modules, n);
        let c = i.crates[n - 1];
        let a = crate_attrs(c, i.edges, layers);
        let ms = modules_shown(i, c.name, modules);
        modules_extend(with_open(before, "crate"@, a), ms, ms.len() as int);
        assert(goes_on_from(before, all));
        if k == n - 1 {
            assert(a[0] == ("name"@, c.name));
            assert(a[1] == ("layer"@, layer_shown(layers, c.name)));
            assert(a[2] == (
                "fan_in"@,
                dec(dependents_on(i.edges, c.name, i.edges.len() as int)),
            ));
            assert(all[before.len() as int] == Node::Start("crate"@, a) || all[before.len() as int]
                == Node::Empty("crate"@, a));
        } else if 0 <= k < n - 1 {
            let name = i.crates[k].name;
            let layer = layer_shown(layers, name);
            let fan_in = dependents_on(i.edges, name, i.edges.len() as int);
            let p = choose|p: int|
                0 <= p < before.len() && match #[trigger] before[p] {
                    Node::Start(tag, a) => tag == "crate"@ && a.contains(("name"@, name))
                        && a.contains(("layer"@, layer)) && a.contains(("fan_in"@, dec(fan_in))),
                    Node::Empty(tag, a) => tag == "crate"@ && a.contains(("name"@, name))
                        && a.contains(("layer"@, layer)) && a.contains(("fan_in"@, dec(fan_in))),
                    _ => false,
                };
            assert(all[p] == before[p]);
        }
    }
}

/// The dependencies of a workspace are shown with all crates, each with its layer and with how
/// many others depend on it, and with all edges, from the depending crate to the other.
pub proof fn crates_and_edges_are_shown(
    i: DepsInputView,
    layers: Seq<(Seq<char>, Seq<char>)>,
    modules: bool,
)
    ensures
        forall|k: int|
            0 <= k < i.crates.len() ==> shows_crate(
                deps_document(i, layers, modules),
                (#[trigger] i.crates[k]).name,
                layer_shown(layers, i.crates[k].name),
                i.edges.filter(|e: (Seq<char>, Seq<char>)| e.1 == i.crates[k].name).len(),
            ),
        forall|k: int|
            0 <= k < i.edges.len() ==> deps_document(i, layers, modules).contains(
                Node::Empty(
                    "edge"@,
                    seq![
                        ("from_crate"@, (#[trigger] i.edges[k]).0),
                        ("to_crate"@, i.edges[k].1),
                    ],
                ),
            ),
{
    let tokens = tokens_of(deps_nodes(i, layers, modules, ""@));
    let doc = deps_document(i, layers, modules);
    let e1 = with_open(
        Seq::empty(),
        "deps"@,
        no_attrs().push(("crates"@, dec(i.crates.len()))).push(("edges"@, dec(i.edges.len()))).push(
            ("tokens"@, tokens),
        ),
    );
    let open = with_open(e1, "crates"@, no_attrs());
    let cs = crates_nodes(open, i, layers, modules, i.crates.len() as int);
    let e2 = if i.crates.len() == 0 {
        e1
    } else {
        with_close(cs, "crates"@)
    };
    let eopen = with_open(e2, "edges"@, no_attrs());
    let es = dep_nodes(eopen, i.edges, i.edges.len() as int);
    dep_edges_extend(eopen, i.edges, i.edges.len() as int, 0);
    assert(goes_on_from(e2, doc));
    assert forall|k: int| 0 <= k < i.crates.len() implies shows_crate(
        doc,
        (#[trigger] i.crates[k]).name,
        layer_shown(layers, i.crates[k].name),
        i.edges.filter(|e: (Seq<char>, Seq<char>)| e.1 == i.crates[k].name).len(),
    ) by {
        let name = i.crates[k].name;
        let layer = layer_shown(layers, name);
        crates_extend(open, i, layers, modules, i.crates.len() as int, k);
        crates_are_counted(i.edges, name, i.edges.len() as int);
        assert(i.edges.take(i.edges.len() as int) =~= i.edges);
        let fan_in = dependents_on(i.edges, name, i.edges.len() as int);
        let p = choose|p: int|
            0 <= p < cs.len() && match #[trigger] cs[p] {
                Node::Start(tag, a) => tag == "crate"@ && a.contains(("name"@, name)) && a.contains(
                    ("layer"@, layer),
                ) && a.contains(("fan_in"@, dec(fan_in))),
                Node::Empty(tag, a) => tag == "crate"@ && a.contains(("name"@, name)) && a.contains(
                    ("layer"@, layer),
                ) && a.contains(("fan_in"@, dec(fan_in))),
                _ => false,
            };
        assert(e2[p] == cs[p]);
        assert(doc[p] == e2[p]);
    }
    assert forall|k: int| 0 <= k < i.edges.len() implies doc.contains(
        Node::Empty(
            "edge"@,
            seq![("from_crate"@, (#[trigger] i.edges[k]).0), ("to_crate"@, i.edges[k].1)],
        ),
    ) by {
        dep_edges_extend(eopen, i.edges, i.edges.len() as int, k);
        let x = Node::Empty(
            "edge"@,
            seq![("from_crate"@, i.edges[k].0), ("to_crate"@, i.edges[k].1)],
        );
        let p = choose|p: int| 0 <= p < es.len() && es[p] == x;
        assert(doc[p] == x);
    }
}

/// The layer that is shown of a crate is the one that it is assigned first, or a dash.
pub proof fn layers_are_shown(layers: Seq<(Seq<char>, Seq<char>)>, name: Seq<char>, i: int, k: int)
    requires
        0 <= i <= k <= layers.len(),
        forall|j: int| i <= j < k ==> (#[trigger] layers[j]).0 != name,
    ensures
        k < layers.len() && layers[k].0 == name ==> or_text(layer_in(layers, name, i), "-"@)
            == layers[k].1,
        k == layers.len() ==> or_text(layer_in(layers, name, i), "-"@) == "-"@,
        layer_shown(layers, name) == or_text(layer_in(layers, name, 0), "-"@),
    decreases k - i,
{
    if i < k {
        assert(layers[i].0 != name);
        layers_are_shown(layers, name, i + 1, k);
    }
}

/// Of a documentation the first line is shown; an empty one has none.
pub proof fn first_lines_are_shown(doc: Option<Seq<char>>)
    ensures
        doc is None ==> first_line(doc) is None,
        doc matches Some(d) ==> line_seq(d).len() == 0 ==> first_line(doc) is None,
        doc matches Some(d) ==> line_seq(d).len() > 0 ==> first_line(doc) == Some(line_seq(d)[0]),
{
}

/// The documentation of a file is the last that is given for its path.
pub proof fn last_documentation_counts(docs: Seq<(Seq<char>, Seq<char>)>, path: Seq<char>)
    ensures
        doc_of_file(docs, path) is None <==> forall|i: int|
            0 <= i < docs.len() ==> (#[trigger] docs[i]).0 != path,
        doc_of_file(docs, path) matches Some(d) ==> exists|i: int|
            0 <= i < docs.len() && #[trigger] docs[i] == (path, d) && forall|j: int|
                i < j < docs.len() ==> (#[trigger] docs[j]).0 != path,
    decreases docs.len(),
{
    if docs.len() > 0 {
        let rest = docs.drop_last();
        last_documentation_counts(rest, path);
        assert forall|i: int| 0 <= i < rest.len() implies #[trigger] docs[i] == rest[i] by {}
        if docs.last().0 == path {
            assert(docs[docs.len() - 1] == (path, doc_of_file(docs, path)->0));
        } else if let Some(d) = doc_of_file(rest, path) {
            let i = choose|i: int|
                0 <= i < rest.len() && #[trigger] rest[i] == (path, d) && forall|j: int|
                    i < j < rest.len() ==> (#[trigger] rest[j]).0 != path;
            assert(docs[i] == (path, d));
            assert forall|j: int| i < j < docs.len() implies (#[trigger] docs[j]).0 != path by {
                if j < rest.len() {
                    assert(rest[j].0 != path);
                }
            }
        } else {
            assert forall|i: int| 0 <= i < docs.len() implies (#[trigger] docs[i]).0 != path by {
                if i < rest.len() {
                    assert(rest[i].0 != path);
                }
            }
        }
    }
}

/// Symbols that nothing outside their file can see are left out unless they are asked for; a
/// role narrows what is left, with its quotes doubled.
pub proof fn private_symbols_are_asked_for(role: Seq<char>)
    ensures
        map_where(true, None) == ""@,
        map_where(true, Some(role)) == "WHERE 1=1 AND n.role = '"@ + crate::text::joined(
            crate::text::split_at_str(role, "'"@),
            "''"@,
        ) + "'"@,
        map_where(false, None) == "WHERE n.visibility NOT IN ('private', 'default')"@,
        map_where(false, Some(role))
            == "WHERE n.visibility NOT IN ('private', 'default') AND n.role = '"@
            + crate::text::joined(crate::text::split_at_str(role, "'"@), "''"@) + "'"@,
{
    reveal_strlit("'");
    crate::text::replacing_splits_and_joins(role, "'"@, "''"@);
    reveal_strlit("");
    reveal_strlit("WHERE 1=1");
    reveal_strlit("WHERE 1=1 AND n.role = '");
    reveal_strlit(" AND n.role = '");
    reveal_strlit("WHERE n.visibility NOT IN ('private', 'default')");
    reveal_strlit("WHERE n.visibility NOT IN ('private', 'default') AND n.role = '");
    let r = replaced(role, "'"@, "''"@);
    assert(map_where(true, Some(role)) =~= "WHERE 1=1 AND n.role = '"@ + r + "'"@);
    assert(map_where(false, None) =~= "WHERE n.visibility NOT IN ('private', 'default')"@);
    assert(map_where(false, Some(role))
        =~= "WHERE n.visibility NOT IN ('private', 'default') AND n.role = '"@ + r + "'"@);
}

/// A hotspot that nothing calls is not shown.
pub proof fn uncalled_hotspots_are_left_out(hs: Seq<HotspotView>, n: int)
    requires
        0 <= n <= hs.len(),
    ensures
        live_hotspots(hs, n) == hs.take(n).filter(|h: HotspotView| h.fan_in > 0),
    decreases n,
{
    reveal(Seq::filter);
    if n > 0 {
        uncalled_hotspots_are_left_out(hs, n - 1);
        assert(hs.take(n).drop_last() =~= hs.take(n - 1));
        assert(hs.take(n).last() == hs[n - 1]);
    } else {
        assert(hs.take(n) =~= Seq::empty());
    }
}

} // verus!
