//! Setting up a project: its configuration and what Git is to ignore.

use vstd::prelude::*;

use crate::config::Config;
use crate::discover::{unassigned, unassigned_in};
use crate::model::{views, Dup};
use crate::order::{distinct_keys, key_set};
use crate::text::{
    byte_len, byte_size, concat2, concat3, ends_with, finishes_with, join, joined, line_seq, lines,
    next_char_is_least, split_at_char, split_is_not_empty, split_parts, str_eq, trim, trimmed,
    without_cr,
};
use crate::workspace::{CrateMember, CrateMemberView, WorkspaceGraph, WorkspaceGraphView};

verus! {

broadcast use crate::model::group_views;

/// The configuration of a project that is no workspace.
pub const DEFAULT_CONFIG: &'static str = r#"# graphlite configuration

# Additional directories to ignore during indexing.
# Extends built-in defaults: node_modules, target, build, dist, .svelte-kit, .git, .cache, .next, .nuxt, __pycache__
ignore = []

# Default traversal depth for graph and blast-radius commands.
depth = 2

# Forbidden context coupling rules for `graphlite violations`.
# Example:
# [[violations]]
# from_context = "presentation"
# to_context   = "persistence"
# reason       = "presentation must not access persistence directly"

# Suppression rules for known-acceptable violation patterns.
# Example:
# [[exceptions]]
# from_context = "runtime"
# to_role      = "utility"
# reason       = "runtime infrastructure may use shared utilities"
#
# Stable-id scoped suppression (works for visibility rules too):
# [[exceptions]]
# stable_id = "src/infra/repo.rs::struct::MyRepo"
# reason    = "exported for integration test crate"
#
# Visibility policy by architectural layer.
# max_visibility: default | crate | restricted | public
# [[visibility_rules]]
# layer = "domain"
# max_visibility = "crate"
# reason = "domain symbols should stay crate-internal"
"#;

/// The configuration of a workspace, up to the crates' dependencies.
pub const WORKSPACE_HEAD: &'static str = r#"# graphlite configuration

# Additional directories to ignore during indexing.
# Extends built-in defaults: node_modules, target, build, dist, .svelte-kit, .git, .cache, .next, .nuxt, __pycache__
ignore = []

# Default traversal depth for graph and blast-radius commands.
depth = 2

# ── Workspace ──────────────────────────────────────────────────────────────────
# Cargo workspace detected. Assign a layer to each crate below, then run:
#   graphlite discover .
#
# Valid layers (dependencies must only flow from outer layers toward inner):
#   shared      — primitives, IDs, common error types; no workspace deps
#   domain      — aggregates, entities, value objects, domain events, domain services
#   port        — outbound trait definitions (Repository, Gateway, Publisher)
#   application — use cases, command/query handlers, application services
#   infra       — port implementations (Postgres adapters, HTTP clients, message brokers)
#   adapter     — driving-side adapters (HTTP handlers, CLI, gRPC)
#   composition — composition root; wires everything together
#
# Violation: a dependency edge flowing in the wrong direction (inner → outer).
#   domain → infra     domain must not know about adapter implementations
#   port   → infra     ports define the interface; infra implements it
#   domain → adapter
#
# Detected inter-crate dependencies (from Cargo.toml [dependencies]):
"#;

/// The configuration of a workspace, from the crates' dependencies to their layers.
pub const WORKSPACE_MIDDLE: &'static str = r#"
#
# Example assignments for a hexagonal DDD workspace:
#   primitives     = "shared"
#   identity       = "domain"
#   contract       = "port"
#   infrastructure = "infra"
#   presentation   = "adapter"
#   runtime        = "composition"

[workspace.layers]
"#;

/// The configuration of a workspace, from the crates' layers on.
pub const WORKSPACE_TAIL: &'static str = r#"

# Visibility policy by layer (enable after assigning layers above).
# max_visibility: default | crate | restricted | public
# [[visibility_rules]]
# layer = "domain"
# max_visibility = "crate"
# reason = "domain types should not leak as public API"
#
# [[visibility_rules]]
# layer = "infra"
# max_visibility = "crate"
# reason = "infrastructure implementations are internal"
#
# [[visibility_rules]]
# layer = "shared"
# max_visibility = "public"
# reason = "shared primitives may be public"
"#;

/// What Git is to ignore.
pub const DB_ENTRY: &'static str = ".graphlite/codegraph.db";

// ---------------------------------------------------------------------------
// The configuration
// ---------------------------------------------------------------------------

/// The configuration of a project that is no workspace.
pub fn build_default_config() -> (r: String)
    ensures
        r@ == DEFAULT_CONFIG@,
{
    DEFAULT_CONFIG.to_owned()
}

/// The crates that depend on others, one for each of the first `n` dependencies.
pub open spec fn dependents(deps: Seq<(Seq<char>, Seq<char>)>, n: int) -> Seq<Seq<char>>
    decreases n,
{
    if n <= 0 {
        Seq::empty()
    } else {
        dependents(deps, n - 1).push(deps[n - 1].0)
    }
}

/// What a crate depends on, by the first `n` dependencies.
pub open spec fn dependencies(
    deps: Seq<(Seq<char>, Seq<char>)>,
    from: Seq<char>,
    n: int,
) -> Seq<Seq<char>>
    decreases n,
{
    if n <= 0 {
        Seq::empty()
    } else if deps[n - 1].0 == from {
        dependencies(deps, from, n - 1).push(deps[n - 1].1)
    } else {
        dependencies(deps, from, n - 1)
    }
}

/// The lines on what the first `n` of the crates depend on.
pub open spec fn dependency_lines(
    deps: Seq<(Seq<char>, Seq<char>)>,
    names: Seq<Seq<char>>,
    n: int,
) -> Seq<Seq<char>>
    decreases n,
{
    if n <= 0 {
        Seq::empty()
    } else {
        dependency_lines(deps, names, n - 1).push(
            "#   "@ + names[n - 1] + " → "@ + joined(
                dependencies(deps, names[n - 1], deps.len() as int),
                ", "@,
            ),
        )
    }
}

/// The length in bytes of the longest name among the first `n` crates.
pub open spec fn longest_name(members: Seq<CrateMemberView>, n: int) -> nat
    decreases n,
{
    if n <= 0 {
        0
    } else if byte_size(members[n - 1].name) > longest_name(members, n - 1) {
        byte_size(members[n - 1].name)
    } else {
        longest_name(members, n - 1)
    }
}

/// `n` spaces.
pub open spec fn blank(n: int) -> Seq<char>
    decreases n,
{
    if n <= 0 {
        Seq::empty()
    } else {
        blank(n - 1).push(' ')
    }
}

/// The lines in which the layers of the first `n` crates are to be assigned.
pub open spec fn layer_lines(members: Seq<CrateMemberView>, n: int) -> Seq<Seq<char>>
    decreases n,
{
    if n <= 0 {
        Seq::empty()
    } else {
        let name = members[n - 1].name;
        layer_lines(members, n - 1).push(
            name + blank(longest_name(members, members.len() as int) - byte_size(name))
                + " = \"?\""@,
        )
    }
}

/// The configuration of a workspace: its dependencies in a comment, and a layer to be
/// assigned to each crate.
pub open spec fn workspace_config(ws: WorkspaceGraphView) -> Seq<char> {
    let names = key_set::<String>(dependents(ws.deps, ws.deps.len() as int));
    WORKSPACE_HEAD@ + joined(dependency_lines(ws.deps, names, names.len() as int), "\n"@)
        + WORKSPACE_MIDDLE@ + joined(layer_lines(ws.members, ws.members.len() as int), "\n"@)
        + WORKSPACE_TAIL@
}

fn show_dependencies(ws: &WorkspaceGraph, from: &str) -> (r: String)
    ensures
        r@ == joined(dependencies(ws@.deps, from@, ws@.deps.len() as int), ", "@),
{
    let mut out: Vec<String> = Vec::new();
    let mut n: usize = 0;
    while n < ws.deps.len()
        invariant
            n <= ws.deps@.len(),
            views(out@) == dependencies(ws@.deps, from@, n as int),
        decreases ws.deps@.len() - n,
    {
        assert(ws@.deps[n as int] == (ws.deps@[n as int].0@, ws.deps@[n as int].1@));
        if str_eq(&ws.deps[n].0, from) {
            out.push(ws.deps[n].1.dup());
        }
        n = n + 1;
    }
    join(&out, ", ")
}

fn show_all_dependencies(ws: &WorkspaceGraph) -> (r: String)
    ensures
        ({
            let names = key_set::<String>(dependents(ws@.deps, ws@.deps.len() as int));
            r@ == joined(dependency_lines(ws@.deps, names, names.len() as int), "\n"@)
        }),
{
    let mut froms: Vec<String> = Vec::new();
    let mut n: usize = 0;
    while n < ws.deps.len()
        invariant
            n <= ws.deps@.len(),
            views(froms@) == dependents(ws@.deps, n as int),
        decreases ws.deps@.len() - n,
    {
        assert(ws@.deps[n as int] == (ws.deps@[n as int].0@, ws.deps@[n as int].1@));
        froms.push(ws.deps[n].0.dup());
        n = n + 1;
    }
    let names = distinct_keys(&froms);
    let mut out: Vec<String> = Vec::new();
    let mut n: usize = 0;
    while n < names.len()
        invariant
            n <= names@.len(),
            views(out@) == dependency_lines(ws@.deps, views(names@), n as int),
        decreases names@.len() - n,
    {
        assert(views(names@)[n as int] == names@[n as int]@);
        let mut line = concat3("#   ", &names[n], " → ");
        line.append(&show_dependencies(ws, &names[n]));
        out.push(line);
        n = n + 1;
    }
    assert(views(names@).len() == names@.len());
    join(&out, "\n")
}

fn find_longest(members: &Vec<CrateMember>) -> (r: usize)
    ensures
        r == longest_name(views(members@), members@.len() as int),
{
    let mut longest: usize = 0;
    let mut n: usize = 0;
    while n < members.len()
        invariant
            n <= members@.len(),
            longest == longest_name(views(members@), n as int),
        decreases members@.len() - n,
    {
        assert(views(members@)[n as int] == members@[n as int]@);
        let size: usize = byte_len(&members[n].name);
        if size > longest {
            longest = size;
        }
        n = n + 1;
    }
    longest
}

fn blanks(n: usize) -> (r: String)
    ensures
        r@ == blank(n as int),
{
    let mut out = String::new();
    let mut i: usize = 0;
    while i < n
        invariant
            i <= n,
            out@ == blank(i as int),
        decreases n - i,
    {
        out.push(' ');
        i = i + 1;
    }
    out
}

fn show_layers(ws: &WorkspaceGraph) -> (r: String)
    ensures
        r@ == joined(layer_lines(ws@.members, ws@.members.len() as int), "\n"@),
{
    let longest: usize = find_longest(&ws.members);
    let mut out: Vec<String> = Vec::new();
    let mut n: usize = 0;
    while n < ws.members.len()
        invariant
            n <= ws.members@.len(),
            longest == longest_name(ws@.members, ws@.members.len() as int),
            views(out@) == layer_lines(ws@.members, n as int),
        decreases ws.members@.len() - n,
    {
        let m = &ws.members[n];
        assert(ws@.members[n as int] == m@);
        let size: usize = byte_len(&m.name);
        let gap: usize = if size < longest {
            longest - size
        } else {
            0
        };
        let line = concat3(&m.name, &blanks(gap), " = \"?\"");
        out.push(line);
        n = n + 1;
    }
    join(&out, "\n")
}

/// The configuration of a workspace.
pub fn build_workspace_config(ws: &WorkspaceGraph) -> (r: String)
    ensures
        r@ == workspace_config(ws@),
{
    let mut out = concat2(WORKSPACE_HEAD, &show_all_dependencies(ws));
    out.append(WORKSPACE_MIDDLE);
    out.append(&show_layers(ws));
    out.append(WORKSPACE_TAIL);
    out
}

/// The configuration of a new project.
pub fn initial_config(ws: &Option<WorkspaceGraph>) -> (r: String)
    ensures
        r@ == match ws {
            Some(w) => workspace_config(w@),
            None => DEFAULT_CONFIG@,
        },
{
    match ws {
        Some(w) => build_workspace_config(w),
        None => build_default_config(),
    }
}

// ---------------------------------------------------------------------------
// What Git is to ignore
// ---------------------------------------------------------------------------

/// Some line is the entry.
pub open spec fn names_entry(contents: Seq<char>) -> bool {
    exists|i: int|
        0 <= i < line_seq(contents).len() && trimmed(#[trigger] line_seq(contents)[i]) == DB_ENTRY@
}

/// The list of what Git is to ignore, with the entry in it.
pub open spec fn with_entry(contents: Seq<char>) -> Seq<char> {
    if names_entry(contents) {
        contents
    } else if contents.len() == 0 || contents.last() == '\n' {
        contents + (DB_ENTRY@ + "\n"@)
    } else {
        contents + ("\n"@ + DB_ENTRY@ + "\n"@)
    }
}

/// The list of what Git is to ignore with the entry added; none where it is in it already.
pub fn update_gitignore(contents: &str) -> (r: Option<String>)
    ensures
        match r {
            Some(s) => !names_entry(contents@) && s@ == with_entry(contents@),
            None => names_entry(contents@),
        },
{
    let all = lines(contents);
    let ghost av = line_seq(contents@);
    let mut i: usize = 0;
    while i < all.len()
        invariant
            av == views(all@),
            i <= all@.len(),
            forall|k: int| 0 <= k < i ==> trimmed(#[trigger] av[k]) != DB_ENTRY@,
            av == line_seq(contents@),
        decreases all@.len() - i,
    {
        assert(av[i as int] == all@[i as int]@);
        if str_eq(&trim(&all[i]), DB_ENTRY) {
            return None;
        }
        i = i + 1;
    }
    proof {
        reveal_strlit("\n");
        if contents@.len() > 0 {
            let n = contents@.len() as int;
            assert(finishes_with(contents@, "\n"@) == (contents@.last() == '\n')) by {
                assert(contents@.skip(n - 1) =~= seq![contents@.last()]);
                assert("\n"@ =~= seq!['\n']);
                if contents@.skip(n - 1) == "\n"@ {
                    assert(contents@.skip(n - 1)[0] == '\n');
                }
            }
        }
    }
    let entry = if contents.is_empty() || ends_with(contents, "\n") {
        concat2(DB_ENTRY, "\n")
    } else {
        concat3("\n", DB_ENTRY, "\n")
    };
    Some(concat2(contents, &entry))
}

proof fn entry_ends(a: Seq<char>, whole: Seq<char>)
    requires
        whole == a + seq!['\n'] + (DB_ENTRY@ + seq!['\n']),
    ensures
        names_entry(whole),
{
    entry_alone();
    split_parts(a, DB_ENTRY@ + seq!['\n'], '\n');
    split_is_not_empty(a, '\n');
    let first = split_at_char(a, '\n');
    let pieces = split_at_char(whole, '\n');
    let k = first.len() as int;
    assert(pieces == first + split_at_char(DB_ENTRY@ + seq!['\n'], '\n'));
    assert(pieces[k] == DB_ENTRY@);
    assert(line_seq(whole)[k] == without_cr(pieces[k]));
    assert(trimmed(line_seq(whole)[k]) == DB_ENTRY@);
}

proof fn entry_alone()
    ensures
        split_at_char(DB_ENTRY@ + seq!['\n'], '\n') == seq![DB_ENTRY@, Seq::<char>::empty()],
        without_cr(DB_ENTRY@) == DB_ENTRY@,
        trimmed(DB_ENTRY@) == DB_ENTRY@,
{
    reveal_strlit(".graphlite/codegraph.db");
    let e = DB_ENTRY@;
    let none = Seq::<char>::empty();
    next_char_is_least(e, '\n', 0);
    assert(split_at_char(e, '\n') =~= seq![e]);
    assert(split_at_char(none, '\n') =~= seq![none]);
    split_parts(e, none, '\n');
    assert(e + seq!['\n'] + none =~= e + seq!['\n']);
    assert(seq![e] + seq![none] =~= seq![e, none]);
}

/// Once the entry was added, it is there: adding it again changes nothing.
pub proof fn entry_is_added_once(contents: Seq<char>)
    ensures
        names_entry(with_entry(contents)),
        with_entry(with_entry(contents)) == with_entry(contents),
{
    reveal_strlit("\n");
    assert("\n"@ =~= seq!['\n']);
    let e = DB_ENTRY@;
    if !names_entry(contents) {
        let whole = with_entry(contents);
        if contents.len() == 0 {
            entry_alone();
            assert(whole =~= e + seq!['\n']);
            assert(line_seq(whole)[0] == without_cr(split_at_char(whole, '\n')[0]));
            assert(trimmed(line_seq(whole)[0]) == DB_ENTRY@);
        } else if contents.last() == '\n' {
            assert(whole =~= contents.drop_last() + seq!['\n'] + (e + seq!['\n']));
            entry_ends(contents.drop_last(), whole);
        } else {
            assert(whole =~= contents + seq!['\n'] + (e + seq!['\n']));
            entry_ends(contents, whole);
        }
    }
}

/// What comes after a project was set up.
#[derive(Debug)]
pub enum AfterInit {
    /// The layers of these crates are still to be assigned, before anything is indexed.
    Assign(Vec<String>),
    /// Index the project.
    Discover,
}

/// What comes after a project was set up.
pub fn after_init(config: &Config) -> (r: AfterInit)
    ensures
        match r {
            AfterInit::Assign(names) => unassigned_in(config@).len() > 0 && views(names@)
                == unassigned_in(config@),
            AfterInit::Discover => unassigned_in(config@).len() == 0,
        },
{
    let names = unassigned(config);
    assert(views(names@).len() == names@.len());
    if names.len() == 0 {
        AfterInit::Discover
    } else {
        AfterInit::Assign(names)
    }
}

// ---------------------------------------------------------------------------
// Laws
// ---------------------------------------------------------------------------

/// The dependencies of a crate are the crates that it depends on, in the order in which they
/// are listed.
pub proof fn dependencies_are_those_of_the_crate(
    deps: Seq<(Seq<char>, Seq<char>)>,
    from: Seq<char>,
    n: int,
)
    requires
        0 <= n <= deps.len(),
    ensures
        dependencies(deps, from, n) == deps.take(n).filter(
            |d: (Seq<char>, Seq<char>)| d.0 == from,
        ).map_values(|d: (Seq<char>, Seq<char>)| d.1),
        dependents(deps, n) == deps.take(n).map_values(|d: (Seq<char>, Seq<char>)| d.0),
    decreases n,
{
    reveal(Seq::filter);
    let own = |d: (Seq<char>, Seq<char>)| d.0 == from;
    let to = |d: (Seq<char>, Seq<char>)| d.1;
    let of = |d: (Seq<char>, Seq<char>)| d.0;
    if n > 0 {
        dependencies_are_those_of_the_crate(deps, from, n - 1);
        assert(deps.take(n).drop_last() =~= deps.take(n - 1));
        assert(deps.take(n).last() == deps[n - 1]);
        let before = deps.take(n - 1).filter(own);
        assert(before.push(deps[n - 1]).map_values(to) =~= before.map_values(to).push(
            deps[n - 1].1,
        ));
        assert(deps.take(n).map_values(of) =~= deps.take(n - 1).map_values(of).push(
            deps[n - 1].0,
        ));
    } else {
        assert(dependencies(deps, from, n) =~= deps.take(n).filter(own).map_values(to));
        assert(dependents(deps, n) =~= deps.take(n).map_values(of));
    }
}

/// Each crate with dependencies has a line that names it and them.
pub proof fn each_crate_has_a_line(
    deps: Seq<(Seq<char>, Seq<char>)>,
    names: Seq<Seq<char>>,
    n: int,
)
    requires
        0 <= n <= names.len(),
    ensures
        dependency_lines(deps, names, n).len() == n,
        forall|i: int|
            0 <= i < n ==> #[trigger] dependency_lines(deps, names, n)[i] == "#   "@ + names[i]
                + " → "@ + joined(dependencies(deps, names[i], deps.len() as int), ", "@),
    decreases n,
{
    if n > 0 {
        each_crate_has_a_line(deps, names, n - 1);
    }
}

/// The longest name is as long as some member's, and no member's is longer.
pub proof fn longest_is_longest(members: Seq<CrateMemberView>, n: int)
    requires
        0 <= n <= members.len(),
    ensures
        forall|i: int|
            0 <= i < n ==> byte_size((#[trigger] members[i]).name) <= longest_name(members, n),
        n > 0 ==> exists|i: int|
            0 <= i < n && byte_size((#[trigger] members[i]).name) == longest_name(members, n),
        n == 0 ==> longest_name(members, n) == 0,
    decreases n,
{
    if n > 0 {
        longest_is_longest(members, n - 1);
        if n == 1 || byte_size(members[n - 1].name) > longest_name(members, n - 1) {
            assert(byte_size(members[n - 1].name) == longest_name(members, n));
        }
    }
}

/// A blank is made of as many spaces as it is long.
pub proof fn blanks_are_spaces(n: int)
    ensures
        n >= 0 ==> blank(n) == Seq::new(n as nat, |i: int| ' '),
        n < 0 ==> blank(n).len() == 0,
    decreases n,
{
    if n > 0 {
        blanks_are_spaces(n - 1);
        assert(blank(n) =~= Seq::new(n as nat, |i: int| ' '));
    } else if n == 0 {
        assert(blank(n) =~= Seq::new(0, |i: int| ' '));
    }
}

/// Every member has a line that leaves its layer open, and the signs of equality stand below
/// each other: each name is filled up to the longest.
pub proof fn layers_are_left_open(members: Seq<CrateMemberView>, n: int)
    requires
        0 <= n <= members.len(),
    ensures
        layer_lines(members, n).len() == n,
        forall|i: int|
            0 <= i < n ==> #[trigger] layer_lines(members, n)[i] == members[i].name + Seq::new(
                (longest_name(members, members.len() as int) - byte_size(members[i].name)) as nat,
                |j: int| ' ',
            ) + " = \"?\""@,
    decreases n,
{
    if n > 0 {
        layers_are_left_open(members, n - 1);
        longest_is_longest(members, members.len() as int);
        assert(byte_size(members[n - 1].name) <= longest_name(members, members.len() as int));
        blanks_are_spaces(
            longest_name(members, members.len() as int) - byte_size(members[n - 1].name),
        );
        assert forall|i: int| 0 <= i < n implies #[trigger] layer_lines(members, n)[i]
            == members[i].name + Seq::new(
            (longest_name(members, members.len() as int) - byte_size(members[i].name)) as nat,
            |j: int| ' ',
        ) + " = \"?\""@ by {
            if i < n - 1 {
                assert(layer_lines(members, n)[i] == layer_lines(members, n - 1)[i]);
            }
        }
    }
}

/// What stands in the list of ignored files stays; the entry stands on a line of its own behind
/// it.
pub proof fn ignored_files_stay_ignored(contents: Seq<char>)
    ensures
        with_entry(contents).take(contents.len() as int) == contents,
        (exists|i: int|
            0 <= i < line_seq(contents).len() && trimmed(#[trigger] line_seq(contents)[i])
                == DB_ENTRY@) <==> with_entry(contents) == contents,
        with_entry(contents) != contents && contents.len() > 0 && contents.last() != '\n'
            ==> with_entry(contents).skip(contents.len() as int) == "\n"@ + DB_ENTRY@ + "\n"@,
        with_entry(contents) != contents && (contents.len() == 0 || contents.last() == '\n')
            ==> with_entry(contents).skip(contents.len() as int) == DB_ENTRY@ + "\n"@,
{
    reveal_strlit("\n");
    let k = contents.len() as int;
    let a = DB_ENTRY@ + "\n"@;
    let b = "\n"@ + DB_ENTRY@ + "\n"@;
    assert((contents + a).skip(k) =~= a);
    assert((contents + b).skip(k) =~= b);
    assert((contents + a).take(k) =~= contents);
    assert((contents + b).take(k) =~= contents);
    assert(contents.take(k) =~= contents);
    assert((contents + a).len() > k && (contents + b).len() > k);
}

} // verus!
