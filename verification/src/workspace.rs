//! The Cargo workspace: its member crates and the dependencies between them.

use vstd::prelude::*;

use crate::arch::{plain_path, strip_dot};
use crate::json::{self, field_of, items_in, json_text, text_in, Json, JsonView};
use crate::model::{dup_all, list_has, or_text, views, Dup};
use crate::order::{distinct_keys, key_set, stable_sort, stable_sorted, Ranked};
use crate::paths::{is_within, parent, parent_path, relative_path, relative_to, within};
use crate::text::{
    begins_with, byte_len, byte_size, concat2, lex_before, split_at_char, split_char, starts_with,
    str_eq, str_precedes,
};

verus! {

broadcast use crate::model::group_views;

/// A member crate: its name, its directory relative to the workspace root, and the file
/// that its library or binary starts from.
#[derive(Debug)]
pub struct CrateMember {
    pub name: String,
    pub path: String,
    pub entry_file: String,
}

/// What a [`CrateMember`] holds.
#[verifier::ext_equal]
pub struct CrateMemberView {
    pub name: Seq<char>,
    pub path: Seq<char>,
    pub entry_file: Seq<char>,
}

impl DeepView for CrateMember {
    type V = CrateMemberView;

    open spec fn deep_view(&self) -> CrateMemberView {
        CrateMemberView {
            name: self.name.deep_view(),
            path: self.path.deep_view(),
            entry_file: self.entry_file.deep_view(),
        }
    }
}

impl View for CrateMember {
    type V = CrateMemberView;

    open spec fn view(&self) -> CrateMemberView {
        self.deep_view()
    }
}

impl Dup for CrateMember {
    fn dup(&self) -> (r: CrateMember) {
        CrateMember {
            name: self.name.dup(),
            path: self.path.dup(),
            entry_file: self.entry_file.dup(),
        }
    }
}

/// The workspace's members and the production dependencies between them, as pairs of the
/// depending crate's name and the other's.
#[derive(Debug)]
pub struct WorkspaceGraph {
    pub members: Vec<CrateMember>,
    pub deps: Vec<(String, String)>,
}

/// What a [`WorkspaceGraph`] holds.
#[verifier::ext_equal]
pub struct WorkspaceGraphView {
    pub members: Seq<CrateMemberView>,
    pub deps: Seq<(Seq<char>, Seq<char>)>,
}

impl DeepView for WorkspaceGraph {
    type V = WorkspaceGraphView;

    open spec fn deep_view(&self) -> WorkspaceGraphView {
        WorkspaceGraphView {
            members: views(self.members@),
            deps: views(self.deps@),
        }
    }
}

impl View for WorkspaceGraph {
    type V = WorkspaceGraphView;

    open spec fn view(&self) -> WorkspaceGraphView {
        self.deep_view()
    }
}

impl Dup for WorkspaceGraph {
    fn dup(&self) -> (r: WorkspaceGraph) {
        WorkspaceGraph {
            members: dup_all(&self.members),
            deps: dup_all(&self.deps),
        }
    }
}

/// The file lies in the member's directory. The member at the root owns what is in `src/`.
pub open spec fn owns_file(m: CrateMemberView, file: Seq<char>) -> bool {
    if m.path.len() == 0 {
        begins_with(plain_path(file), "src/"@)
    } else {
        begins_with(plain_path(file), m.path + "/"@)
    }
}

/// Among the first `n` members, the one that owns the file and has the longest path; the
/// first of several.
pub open spec fn owner_among(members: Seq<CrateMemberView>, file: Seq<char>, n: int) -> Option<int>
    decreases n,
{
    if n <= 0 {
        None
    } else {
        let best = owner_among(members, file, n - 1);
        let m = members[n - 1];
        if owns_file(m, file) && (best matches Some(b) ==> byte_size(m.path) > byte_size(
            members[b].path,
        )) {
            Some(n - 1)
        } else {
            best
        }
    }
}

/// The name of the crate that owns the file.
pub open spec fn crate_of(ws: WorkspaceGraphView, file: Seq<char>) -> Option<Seq<char>> {
    match owner_among(ws.members, file, ws.members.len() as int) {
        Some(i) => Some(ws.members[i].name),
        None => None,
    }
}

/// The chosen owner is one of the members, owns the file, and no member that owns the file
/// has a longer path.
pub proof fn owner_is_deepest(members: Seq<CrateMemberView>, file: Seq<char>, n: int)
    requires
        0 <= n <= members.len(),
    ensures
        match owner_among(members, file, n) {
            Some(b) => 0 <= b < n && owns_file(members[b], file) && forall|i: int|
                0 <= i < n && owns_file(#[trigger] members[i], file) ==> byte_size(members[i].path)
                    <= byte_size(members[b].path),
            None => forall|i: int| 0 <= i < n ==> !owns_file(#[trigger] members[i], file),
        },
    decreases n,
{
    if n > 0 {
        owner_is_deepest(members, file, n - 1);
    }
}

/// The crate that owns a file: the member with the longest path that holds it.
pub fn crate_for_file_path(ws: &WorkspaceGraph, file: &str) -> (r: Option<String>)
    ensures
        r.deep_view() == crate_of(ws@, file@),
{
    let plain = strip_dot(file);
    let mut best: Option<usize> = None;
    let mut n: usize = 0;
    while n < ws.members.len()
        invariant
            plain@ == plain_path(file@),
            n <= ws.members@.len(),
            match best {
                Some(b) => b < n && owner_among(ws@.members, file@, n as int) == Some(b as int),
                None => owner_among(ws@.members, file@, n as int) is None,
            },
        decreases ws.members@.len() - n,
    {
        let m = &ws.members[n];
        assert(ws@.members[n as int] == m@);
        let owns = if byte_len(&m.path) == 0 {
            assert(m.path@.len() == 0) by {
                vstd::utf8::encode_utf8_decode_utf8(m.path@);
            }
            starts_with(&plain, "src/")
        } else {
            assert(m.path@.len() != 0);
            let prefix = concat2(&m.path, "/");
            starts_with(&plain, &prefix)
        };
        let deeper = match best {
            Some(b) => {
                assert(ws@.members[b as int] == ws.members@[b as int]@);
                byte_len(&m.path) > byte_len(&ws.members[b].path)
            },
            None => true,
        };
        if owns && deeper {
            best = Some(n);
        }
        n = n + 1;
    }
    match best {
        Some(b) => {
            assert(ws@.members[b as int] == ws.members@[b as int]@);
            Some(ws.members[b].name.dup())
        },
        None => None,
    }
}

// ---------------------------------------------------------------------------
// Reading Cargo's description of the workspace
// ---------------------------------------------------------------------------

impl Ranked for CrateMember {
    /// Members stand in the order of their names.
    open spec fn before(a: CrateMemberView, b: CrateMemberView) -> bool {
        lex_before(a.name, b.name)
    }

    fn precedes(&self, other: &CrateMember) -> (r: bool) {
        str_precedes(&self.name, &other.name)
    }

    proof fn weak_order(a: CrateMemberView, b: CrateMemberView, c: CrateMemberView) {
        crate::text::lex_is_order(a.name, b.name, c.name);
    }
}

/// The texts among the items.
pub open spec fn texts_among(items: Seq<JsonView>) -> Seq<Seq<char>>
    decreases items.len(),
{
    if items.len() == 0 {
        Seq::empty()
    } else {
        let rest = texts_among(items.drop_last());
        match text_in(items.last()) {
            Some(t) => rest.push(t),
            None => rest,
        }
    }
}

/// The texts among the items.
pub fn collect_texts(items: &Vec<Json>) -> (r: Vec<String>)
    ensures
        views(r@) == texts_among(views(items@)),
{
    let mut out: Vec<String> = Vec::new();
    let mut i: usize = 0;
    while i < items.len()
        invariant
            i <= items@.len(),
            views(out@) == texts_among(views(items@).take(i as int)),
        decreases items@.len() - i,
    {
        assert(views(items@)[i as int] == items@[i as int]@);
        assert(views(items@).take(i + 1).drop_last() =~= views(items@).take(i as int));
        if let Some(t) = items[i].text() {
            out.push(t.dup());
        }
        i = i + 1;
    }
    assert(views(items@).take(i as int) =~= views(items@));
    out
}

/// The package is one of the workspace's members.
pub open spec fn is_member(pkg: JsonView, ids: Seq<Seq<char>>) -> bool {
    text_in(field_of(pkg, "id"@)) matches Some(id) && ids.contains(id)
}

/// The target is a library or a binary.
pub open spec fn lib_or_bin(target: JsonView) -> bool {
    items_in(field_of(target, "kind"@)) matches Some(kinds) && exists|i: int|
        0 <= i < kinds.len() && (text_in(#[trigger] kinds[i]) == Some("lib"@) || text_in(kinds[i])
            == Some("bin"@))
}

/// The file that the first library or binary from `i` on starts from.
pub open spec fn entry_source(targets: Seq<JsonView>, i: int) -> Option<Seq<char>>
    decreases targets.len() - i,
{
    if i < 0 || i >= targets.len() {
        None
    } else if lib_or_bin(targets[i]) {
        text_in(field_of(targets[i], "src_path"@))
    } else {
        entry_source(targets, i + 1)
    }
}

/// The file that a package starts from, if its description says so.
pub open spec fn package_source(pkg: JsonView) -> Option<Seq<char>> {
    match items_in(field_of(pkg, "targets"@)) {
        Some(targets) => entry_source(targets, 0),
        None => None,
    }
}

/// The member crate that a package is: its directory and start file are relative to the
/// workspace root, and it starts from `src/lib.rs` where nothing else is known. None where
/// the package has no name or no manifest.
pub open spec fn member_of(pkg: JsonView, root: Seq<char>) -> Option<CrateMemberView> {
    match (text_in(field_of(pkg, "name"@)), text_in(field_of(pkg, "manifest_path"@))) {
        (Some(name), Some(manifest)) => match parent_path(manifest) {
            Some(dir) => {
                let rel = relative_path(dir, root);
                Some(
                    CrateMemberView {
                        name,
                        path: rel,
                        entry_file: match package_source(pkg) {
                            Some(src) => relative_path(src, root),
                            None => if rel.len() == 0 {
                                "src/lib.rs"@
                            } else {
                                rel + "/src/lib.rs"@
                            },
                        },
                    },
                )
            },
            None => None,
        },
        _ => None,
    }
}

/// The member crates among the packages.
pub open spec fn members_among(pkgs: Seq<JsonView>, ids: Seq<Seq<char>>, root: Seq<char>) -> Seq<
    CrateMemberView,
>
    decreases pkgs.len(),
{
    if pkgs.len() == 0 {
        Seq::empty()
    } else {
        let rest = members_among(pkgs.drop_last(), ids, root);
        if is_member(pkgs.last(), ids) {
            match member_of(pkgs.last(), root) {
                Some(m) => rest.push(m),
                None => rest,
            }
        } else {
            rest
        }
    }
}

/// The name of the last member package with the id.
pub open spec fn name_of_id(pkgs: Seq<JsonView>, ids: Seq<Seq<char>>, id: Seq<char>) -> Option<
    Seq<char>,
>
    decreases pkgs.len(),
{
    if pkgs.len() == 0 {
        None
    } else if text_in(field_of(pkgs.last(), "id"@)) == Some(id) && ids.contains(id) && text_in(
        field_of(pkgs.last(), "name"@),
    ) is Some {
        text_in(field_of(pkgs.last(), "name"@))
    } else {
        name_of_id(pkgs.drop_last(), ids, id)
    }
}

/// The dependency is one of production: some of its kinds is `null`.
pub open spec fn is_production(dep: JsonView) -> bool {
    items_in(field_of(dep, "dep_kinds"@)) matches Some(kinds) && exists|i: int|
        0 <= i < kinds.len() && field_of(#[trigger] kinds[i], "kind"@) == JsonView::Null
}

/// A member of the name is among them.
pub open spec fn has_name(members: Seq<CrateMemberView>, name: Seq<char>) -> bool {
    exists|i: int| 0 <= i < members.len() && (#[trigger] members[i]).name == name
}

/// The dependency edge between members that an entry of `from` is, if it is one.
pub open spec fn dep_edge(
    dep: JsonView,
    from: Seq<char>,
    pkgs: Seq<JsonView>,
    ids: Seq<Seq<char>>,
    members: Seq<CrateMemberView>,
) -> Option<(Seq<char>, Seq<char>)> {
    match name_of_id(pkgs, ids, or_text(text_in(field_of(dep, "pkg"@)), ""@)) {
        Some(to) => if is_production(dep) && has_name(members, to) && to != from {
            Some((from, to))
        } else {
            None
        },
        None => None,
    }
}

/// `edges` and the dependency edges that the entries of `from` are.
pub open spec fn with_deps(
    edges: Seq<(Seq<char>, Seq<char>)>,
    deps: Seq<JsonView>,
    from: Seq<char>,
    pkgs: Seq<JsonView>,
    ids: Seq<Seq<char>>,
    members: Seq<CrateMemberView>,
) -> Seq<(Seq<char>, Seq<char>)>
    decreases deps.len(),
{
    if deps.len() == 0 {
        edges
    } else {
        let rest = with_deps(edges, deps.drop_last(), from, pkgs, ids, members);
        match dep_edge(deps.last(), from, pkgs, ids, members) {
            Some(e) => rest.push(e),
            None => rest,
        }
    }
}

/// The dependency edges between members that the resolved packages have.
pub open spec fn edges_among(
    nodes: Seq<JsonView>,
    pkgs: Seq<JsonView>,
    ids: Seq<Seq<char>>,
    members: Seq<CrateMemberView>,
) -> Seq<(Seq<char>, Seq<char>)>
    decreases nodes.len(),
{
    if nodes.len() == 0 {
        Seq::empty()
    } else {
        let rest = edges_among(nodes.drop_last(), pkgs, ids, members);
        let node = nodes.last();
        match text_in(field_of(node, "id"@)) {
            Some(id) => match name_of_id(pkgs, ids, id) {
                Some(from) => match items_in(field_of(node, "deps"@)) {
                    Some(deps) => with_deps(rest, deps, from, pkgs, ids, members),
                    None => rest,
                },
                None => rest,
            },
            None => rest,
        }
    }
}

/// The workspace that Cargo describes: its members by name, and the production
/// dependencies between them, each once and in ascending order. None where the description
/// has no packages or no members.
pub open spec fn workspace_in(meta: JsonView, root: Seq<char>) -> Option<WorkspaceGraphView> {
    match (
        items_in(field_of(meta, "workspace_members"@)),
        items_in(field_of(meta, "packages"@)),
    ) {
        (Some(member_ids), Some(pkgs)) => {
            let ids = texts_among(member_ids);
            let members = stable_sorted::<CrateMember>(members_among(pkgs, ids, root));
            if members.len() == 0 {
                None
            } else {
                let edges = match items_in(
                    field_of(field_of(meta, "resolve"@), "nodes"@),
                ) {
                    Some(nodes) => edges_among(nodes, pkgs, ids, members),
                    None => Seq::empty(),
                };
                Some(WorkspaceGraphView { members, deps: key_set::<(String, String)>(edges) })
            }
        },
        _ => None,
    }
}

fn check_member(pkg: &Json, ids: &Vec<String>) -> (r: bool)
    ensures
        r == is_member(pkg@, views(ids@)),
{
    match pkg.field_text("id") {
        Some(id) => list_has(ids, id),
        None => false,
    }
}

fn check_lib_or_bin(target: &Json) -> (r: bool)
    ensures
        r == lib_or_bin(target@),
{
    match target.field_items("kind") {
        Some(kinds) => {
            let mut i: usize = 0;
            while i < kinds.len()
                invariant
                    i <= kinds@.len(),
                    items_in(field_of(target@, "kind"@)) == Some(views(kinds@)),
                    forall|k: int|
                        0 <= k < i ==> !(text_in(#[trigger] views(kinds@)[k]) == Some("lib"@)
                            || text_in(views(kinds@)[k]) == Some("bin"@)),
                decreases kinds@.len() - i,
            {
                assert(views(kinds@)[i as int] == kinds@[i as int]@);
                if let Some(k) = kinds[i].text() {
                    if str_eq(k, "lib") || str_eq(k, "bin") {
                        return true;
                    }
                }
                i = i + 1;
            }
            false
        },
        None => false,
    }
}

fn find_source(pkg: &Json) -> (r: Option<String>)
    ensures
        r.deep_view() == package_source(pkg@),
{
    let targets = match pkg.field_items("targets") {
        Some(t) => t,
        None => {
            return None;
        },
    };
    let mut i: usize = 0;
    while i < targets.len()
        invariant
            i <= targets@.len(),
            package_source(pkg@) == entry_source(views(targets@), i as int),
        decreases targets@.len() - i,
    {
        assert(views(targets@)[i as int] == targets@[i as int]@);
        if check_lib_or_bin(&targets[i]) {
            return match targets[i].field_text("src_path") {
                Some(s) => Some(s.dup()),
                None => None,
            };
        }
        i = i + 1;
    }
    None
}

fn make_member(pkg: &Json, root: &str) -> (r: Option<CrateMember>)
    ensures
        r.deep_view() == member_of(pkg@, root@),
{
    let name = match pkg.field_text("name") {
        Some(n) => n,
        None => {
            return None;
        },
    };
    let manifest = match pkg.field_text("manifest_path") {
        Some(m) => m,
        None => {
            return None;
        },
    };
    let dir = match parent(manifest) {
        Some(d) => d,
        None => {
            return None;
        },
    };
    let rel = relative_to(&dir, root);
    let entry_file = match find_source(pkg) {
        Some(src) => relative_to(&src, root),
        None => if rel.as_str().is_empty() {
            "src/lib.rs".to_owned()
        } else {
            concat2(&rel, "/src/lib.rs")
        },
    };
    Some(CrateMember { name: name.dup(), path: rel, entry_file })
}

fn collect_members(pkgs: &Vec<Json>, ids: &Vec<String>, root: &str) -> (r: Vec<CrateMember>)
    ensures
        views(r@) == members_among(views(pkgs@), views(ids@), root@),
{
    let mut out: Vec<CrateMember> = Vec::new();
    let mut i: usize = 0;
    while i < pkgs.len()
        invariant
            i <= pkgs@.len(),
            views(out@) == members_among(views(pkgs@).take(i as int), views(ids@), root@),
        decreases pkgs@.len() - i,
    {
        assert(views(pkgs@)[i as int] == pkgs@[i as int]@);
        assert(views(pkgs@).take(i + 1).drop_last() =~= views(pkgs@).take(i as int));
        if check_member(&pkgs[i], ids) {
            if let Some(m) = make_member(&pkgs[i], root) {
                out.push(m);
            }
        }
        i = i + 1;
    }
    assert(views(pkgs@).take(i as int) =~= views(pkgs@));
    out
}

fn find_name(pkgs: &Vec<Json>, ids: &Vec<String>, id: &str) -> (r: Option<String>)
    ensures
        r.deep_view() == name_of_id(views(pkgs@), views(ids@), id@),
{
    let known = list_has(ids, id);
    let mut i: usize = pkgs.len();
    assert(views(pkgs@).take(i as int) =~= views(pkgs@));
    while i > 0
        invariant
            known == views(ids@).contains(id@),
            i <= pkgs@.len(),
            name_of_id(views(pkgs@), views(ids@), id@) == name_of_id(
                views(pkgs@).take(i as int),
                views(ids@),
                id@,
            ),
        decreases i,
    {
        assert(views(pkgs@).take(i as int).drop_last() =~= views(pkgs@).take(i - 1));
        assert(views(pkgs@)[i - 1] == pkgs@[i - 1]@);
        if let Some(x) = pkgs[i - 1].field_text("id") {
            if known && str_eq(x, id) {
                if let Some(n) = pkgs[i - 1].field_text("name") {
                    return Some(n.dup());
                }
            }
        }
        i = i - 1;
    }
    None
}

fn check_production(dep: &Json) -> (r: bool)
    ensures
        r == is_production(dep@),
{
    match dep.field_items("dep_kinds") {
        Some(kinds) => {
            let mut i: usize = 0;
            while i < kinds.len()
                invariant
                    i <= kinds@.len(),
                    items_in(field_of(dep@, "dep_kinds"@)) == Some(views(kinds@)),
                    forall|k: int|
                        0 <= k < i ==> field_of(#[trigger] views(kinds@)[k], "kind"@)
                            != JsonView::Null,
                decreases kinds@.len() - i,
            {
                assert(views(kinds@)[i as int] == kinds@[i as int]@);
                let none = match kinds[i].field("kind") {
                    Some(k) => k.is_null(),
                    None => true,
                };
                if none {
                    return true;
                }
                i = i + 1;
            }
            false
        },
        None => false,
    }
}

fn check_name(members: &Vec<CrateMember>, name: &str) -> (r: bool)
    ensures
        r == has_name(views(members@), name@),
{
    let mut i: usize = 0;
    while i < members.len()
        invariant
            i <= members@.len(),
            forall|k: int| 0 <= k < i ==> (#[trigger] views(members@)[k]).name != name@,
        decreases members@.len() - i,
    {
        assert(views(members@)[i as int] == members@[i as int]@);
        if str_eq(&members[i].name, name) {
            return true;
        }
        i = i + 1;
    }
    false
}

fn add_deps(
    edges: &mut Vec<(String, String)>,
    deps: &Vec<Json>,
    from: &str,
    pkgs: &Vec<Json>,
    ids: &Vec<String>,
    members: &Vec<CrateMember>,
)
    ensures
        views(final(edges)@) == with_deps(
            views(old(edges)@),
            views(deps@),
            from@,
            views(pkgs@),
            views(ids@),
            views(members@),
        ),
{
    let ghost start = views(edges@);
    let mut i: usize = 0;
    while i < deps.len()
        invariant
            i <= deps@.len(),
            views(edges@) == with_deps(
                start,
                views(deps@).take(i as int),
                from@,
                views(pkgs@),
                views(ids@),
                views(members@),
            ),
        decreases deps@.len() - i,
    {
        let dep = &deps[i];
        assert(views(deps@)[i as int] == dep@);
        assert(views(deps@).take(i + 1).drop_last() =~= views(deps@).take(i as int));
        let id = match dep.field_text("pkg") {
            Some(p) => p.dup(),
            None => "".to_owned(),
        };
        if let Some(to) = find_name(pkgs, ids, &id) {
            if check_production(dep) && check_name(members, &to) && !str_eq(&to, from) {
                edges.push((from.to_owned(), to));
            }
        }
        i = i + 1;
    }
    assert(views(deps@).take(i as int) =~= views(deps@));
}

fn collect_edges(
    nodes: &Vec<Json>,
    pkgs: &Vec<Json>,
    ids: &Vec<String>,
    members: &Vec<CrateMember>,
) -> (r: Vec<(String, String)>)
    ensures
        views(r@) == edges_among(views(nodes@), views(pkgs@), views(ids@), views(members@)),
{
    let mut out: Vec<(String, String)> = Vec::new();
    let mut i: usize = 0;
    while i < nodes.len()
        invariant
            i <= nodes@.len(),
            views(out@) == edges_among(
                views(nodes@).take(i as int),
                views(pkgs@),
                views(ids@),
                views(members@),
            ),
        decreases nodes@.len() - i,
    {
        let node = &nodes[i];
        assert(views(nodes@)[i as int] == node@);
        assert(views(nodes@).take(i + 1).drop_last() =~= views(nodes@).take(i as int));
        if let Some(id) = node.field_text("id") {
            if let Some(from) = find_name(pkgs, ids, id) {
                if let Some(deps) = node.field_items("deps") {
                    add_deps(&mut out, deps, &from, pkgs, ids, members);
                }
            }
        }
        i = i + 1;
    }
    assert(views(nodes@).take(i as int) =~= views(nodes@));
    out
}

/// The workspace that Cargo's description holds.
pub fn workspace_from(meta: &Json, abs_root: &str) -> (r: Option<WorkspaceGraph>)
    ensures
        r.deep_view() == workspace_in(meta@, abs_root@),
{
    let ids = match meta.field_items("workspace_members") {
        Some(m) => collect_texts(m),
        None => {
            return None;
        },
    };
    let pkgs = match meta.field_items("packages") {
        Some(p) => p,
        None => {
            return None;
        },
    };
    let members = stable_sort(collect_members(pkgs, &ids, abs_root));
    assert(views(members@).len() == members@.len());
    if members.len() == 0 {
        return None;
    }
    let nodes = match meta.field("resolve") {
        Some(r) => r.field_items("nodes"),
        None => None,
    };
    let edges = match nodes {
        Some(n) => collect_edges(n, pkgs, &ids, &members),
        None => Vec::new(),
    };
    let deps = distinct_keys(&edges);
    Some(WorkspaceGraph { members, deps })
}

/// The workspace that a description by `cargo metadata` holds. `abs_root` is the absolute
/// path of the workspace root. None where the description is no JSON, or has no packages or
/// no members. Only production dependencies are taken.
pub fn detect(metadata: &str, abs_root: &str) -> (r: Option<WorkspaceGraph>)
    ensures
        match json_text(metadata@) {
            Some(meta) => r.deep_view() == workspace_in(meta, abs_root@),
            None => r is None,
        },
{
    match json::parse(metadata) {
        Some(meta) => workspace_from(&meta, abs_root),
        None => None,
    }
}

/// How many of the first `n` pieces are not empty.
pub open spec fn filled(pieces: Seq<Seq<char>>, n: int) -> nat
    decreases n,
{
    if n <= 0 {
        0
    } else {
        filled(pieces, n - 1) + if pieces[n - 1].len() > 0 {
            1nat
        } else {
            0nat
        }
    }
}

/// How many names a path is made of.
pub open spec fn path_depth(p: Seq<char>) -> nat {
    let pieces = split_at_char(p, '/');
    filled(pieces, pieces.len() as int)
}

fn depth_of(p: &str) -> (r: usize)
    ensures
        r == path_depth(p@),
{
    let pieces = split_char(p, '/');
    assert(views(pieces@).len() == pieces@.len());
    let mut n: usize = 0;
    let mut i: usize = 0;
    while i < pieces.len()
        invariant
            n <= i <= pieces@.len(),
            n == filled(views(pieces@), i as int),
        decreases pieces@.len() - i,
    {
        assert(views(pieces@)[i as int] == pieces@[i as int]@);
        if !pieces[i].as_str().is_empty() {
            n = n + 1;
        }
        i = i + 1;
    }
    n
}

/// Of the first `n` packages, the name of that member whose directory is closest above the
/// file, with the depth of the directory. `Err` where a member has no manifest, or where
/// the closest has no name.
pub open spec fn closest_package(
    pkgs: Seq<JsonView>,
    ids: Seq<Seq<char>>,
    file: Seq<char>,
    n: int,
) -> Result<Option<(nat, Seq<char>)>, ()>
    decreases n,
{
    if n <= 0 {
        Ok(None)
    } else {
        match closest_package(pkgs, ids, file, n - 1) {
            Err(_) => Err(()),
            Ok(best) => {
                let pkg = pkgs[n - 1];
                if ids.len() > 0 && !ids.contains(or_text(text_in(field_of(pkg, "id"@)), ""@)) {
                    Ok(best)
                } else {
                    match text_in(field_of(pkg, "manifest_path"@)) {
                        None => Err(()),
                        Some(manifest) => match parent_path(manifest) {
                            None => Err(()),
                            Some(dir) => if is_within(file, dir) && (best matches Some(b)
                                ==> path_depth(dir) > b.0) {
                                match text_in(field_of(pkg, "name"@)) {
                                    Some(name) => Ok(Some((path_depth(dir), name))),
                                    None => Err(()),
                                }
                            } else {
                                Ok(best)
                            },
                        },
                    }
                }
            },
        }
    }
}

/// The name of the crate that owns a file, by Cargo's description of the workspace.
pub open spec fn crate_of_file(meta: JsonView, file: Seq<char>) -> Option<Seq<char>> {
    match (
        items_in(field_of(meta, "workspace_members"@)),
        items_in(field_of(meta, "packages"@)),
    ) {
        (Some(member_ids), Some(pkgs)) => match closest_package(
            pkgs,
            texts_among(member_ids),
            file,
            pkgs.len() as int,
        ) {
            Ok(Some(b)) => Some(b.1),
            _ => None,
        },
        _ => None,
    }
}

/// The name of the crate whose manifest directory is the closest above a file, by Cargo's
/// description of the workspace.
pub fn owner_from(meta: &Json, abs_file: &str) -> (r: Option<String>)
    ensures
        r.deep_view() == crate_of_file(meta@, abs_file@),
{
    let ids = match meta.field_items("workspace_members") {
        Some(m) => collect_texts(m),
        None => {
            return None;
        },
    };
    let pkgs = match meta.field_items("packages") {
        Some(p) => p,
        None => {
            return None;
        },
    };
    let ghost pv = views(pkgs@);
    let ghost iv = views(ids@);
    let mut best: Option<(usize, String)> = None;
    let mut n: usize = 0;
    assert(iv.len() == ids@.len());
    while n < pkgs.len()
        invariant
            crate_of_file(meta@, abs_file@) == match closest_package(
                pv,
                iv,
                abs_file@,
                pv.len() as int,
            ) {
                Ok(Some(b)) => Some(b.1),
                _ => None,
            },
            pv == views(pkgs@),
            iv == views(ids@),
            iv.len() == ids@.len(),
            pv.len() == pkgs@.len(),
            n <= pkgs@.len(),
            match best {
                Some(b) => closest_package(pv, iv, abs_file@, n as int) == Ok::<_, ()>(
                    Some((b.0 as nat, b.1@)),
                ),
                None => closest_package(pv, iv, abs_file@, n as int) == Ok::<
                    Option<(nat, Seq<char>)>,
                    (),
                >(None),
            },
        decreases pkgs@.len() - n,
    {
        let pkg = &pkgs[n];
        assert(pv[n as int] == pkg@);
        let id = match pkg.field_text("id") {
            Some(t) => t.dup(),
            None => "".to_owned(),
        };
        if ids.len() == 0 || list_has(&ids, &id) {
            let dir = match pkg.field_text("manifest_path") {
                Some(m) => parent(m),
                None => None,
            };
            match dir {
                None => {
                    proof {
                        closest_stays_failed(pv, iv, abs_file@, n + 1, pv.len() as int);
                    }
                    return None;
                },
                Some(dir) => {
                    let depth: usize = depth_of(&dir);
                    let deeper = match &best {
                        Some(b) => depth > b.0,
                        None => true,
                    };
                    if within(abs_file, &dir) && deeper {
                        match pkg.field_text("name") {
                            Some(name) => {
                                best = Some((depth, name.dup()));
                            },
                            None => {
                                proof {
                                    closest_stays_failed(pv, iv, abs_file@, n + 1, pv.len() as int);
                                }
                                return None;
                            },
                        }
                    }
                },
            }
        }
        n = n + 1;
    }
    match best {
        Some(b) => Some(b.1),
        None => None,
    }
}

/// The name of the crate whose manifest directory is the closest above a file, by a
/// description of the workspace by `cargo metadata`.
pub fn crate_for_file(metadata: &str, abs_file: &str) -> (r: Option<String>)
    ensures
        match json_text(metadata@) {
            Some(meta) => r.deep_view() == crate_of_file(meta, abs_file@),
            None => r is None,
        },
{
    match json::parse(metadata) {
        Some(meta) => owner_from(&meta, abs_file),
        None => None,
    }
}

/// A failed search stays failed.
proof fn closest_stays_failed(
    pkgs: Seq<JsonView>,
    ids: Seq<Seq<char>>,
    file: Seq<char>,
    n: int,
    m: int,
)
    requires
        0 <= n <= m,
        closest_package(pkgs, ids, file, n) is Err,
    ensures
        closest_package(pkgs, ids, file, m) is Err,
    decreases m,
{
    if n < m {
        closest_stays_failed(pkgs, ids, file, n, m - 1);
    }
}

// ---------------------------------------------------------------------------
// What belongs where
// ---------------------------------------------------------------------------

/// A file belongs to the crate in whose directory it lies; where several hold it, to the one
/// with the longest path. The crate at the root has what is in `src/`.
pub proof fn files_belong_to_the_deepest_crate(ws: WorkspaceGraphView, file: Seq<char>)
    ensures
        match crate_of(ws, file) {
            Some(name) => exists|b: int|
                {
                    &&& 0 <= b < ws.members.len()
                    &&& (#[trigger] ws.members[b]).name == name
                    &&& holds(ws.members[b].path, file)
                    &&& forall|i: int|
                        0 <= i < ws.members.len() && holds((#[trigger] ws.members[i]).path, file)
                            ==> byte_size(ws.members[i].path) <= byte_size(ws.members[b].path)
                },
            None => forall|i: int|
                0 <= i < ws.members.len() ==> !holds((#[trigger] ws.members[i]).path, file),
        },
{
    owner_is_deepest(ws.members, file, ws.members.len() as int);
    if let Some(b) = owner_among(ws.members, file, ws.members.len() as int) {
        assert(holds(ws.members[b].path, file));
        assert forall|i: int| 0 <= i < ws.members.len() && holds((#[trigger] ws.members[i]).path, file) implies byte_size(
        ws.members[i].path) <= byte_size(ws.members[b].path) by {
            assert(owns_file(ws.members[i], file));
        }
    } else {
        assert forall|i: int| 0 <= i < ws.members.len() implies !holds(
            (#[trigger] ws.members[i]).path,
            file,
        ) by {
            assert(!owns_file(ws.members[i], file));
        }
    }
}

/// The directory of a crate holds the file.
pub open spec fn holds(dir: Seq<char>, file: Seq<char>) -> bool {
    let start = if dir.len() == 0 {
        "src/"@
    } else {
        dir + "/"@
    };
    begins_with(plain_path(file), start)
}

proof fn members_are_packages(
    pkgs: Seq<JsonView>,
    ids: Seq<Seq<char>>,
    root: Seq<char>,
    m: CrateMemberView,
)
    ensures
        members_among(pkgs, ids, root).contains(m) <==> exists|k: int|
            0 <= k < pkgs.len() && is_member(#[trigger] pkgs[k], ids) && member_of(pkgs[k], root)
                == Some(m),
    decreases pkgs.len(),
{
    if pkgs.len() > 0 {
        let less = pkgs.drop_last();
        members_are_packages(less, ids, root, m);
        let rest = members_among(less, ids, root);
        let all = members_among(pkgs, ids, root);
        let last = pkgs.len() - 1;
        if rest.contains(m) {
            let j = choose|j: int| 0 <= j < rest.len() && rest[j] == m;
            assert(all[j] == m);
            let k = choose|k: int|
                0 <= k < less.len() && is_member(#[trigger] less[k], ids) && member_of(
                    less[k],
                    root,
                ) == Some(m);
            assert(pkgs[k] == less[k]);
        }
        if is_member(pkgs[last], ids) && member_of(pkgs[last], root) == Some(m) {
            assert(all[rest.len() as int] == m);
        }
        if all.contains(m) && !rest.contains(m) {
            let j = choose|j: int| 0 <= j < all.len() && all[j] == m;
            if j < rest.len() {
                assert(rest[j] == m);
            }
            assert(is_member(pkgs[last], ids));
        }
        if exists|k: int|
            0 <= k < pkgs.len() && is_member(#[trigger] pkgs[k], ids) && member_of(pkgs[k], root)
                == Some(m) {
            let k = choose|k: int|
                0 <= k < pkgs.len() && is_member(#[trigger] pkgs[k], ids) && member_of(
                    pkgs[k],
                    root,
                ) == Some(m);
            if k < last {
                assert(less[k] == pkgs[k]);
            }
        }
    }
}

/// The crates of a workspace are the packages that it lists as its members, in the order of
/// their names.
pub proof fn members_make_the_workspace(
    meta: JsonView,
    root: Seq<char>,
    member_ids: Seq<JsonView>,
    pkgs: Seq<JsonView>,
    m: CrateMemberView,
)
    requires
        field_of(meta, "workspace_members"@) == JsonView::Arr(member_ids),
        field_of(meta, "packages"@) == JsonView::Arr(pkgs),
        workspace_in(meta, root) is Some,
    ensures
        workspace_in(meta, root)->0.members.contains(m) <==> exists|k: int|
            0 <= k < pkgs.len() && is_member(#[trigger] pkgs[k], texts_among(member_ids))
                && member_of(pkgs[k], root) == Some(m),
        forall|i: int, j: int|
            0 <= i < j < workspace_in(meta, root)->0.members.len() ==> !lex_before(
                (#[trigger] workspace_in(meta, root)->0.members[j]).name,
                (#[trigger] workspace_in(meta, root)->0.members[i]).name,
            ),
{
    let ids = texts_among(member_ids);
    let found = members_among(pkgs, ids, root);
    members_are_packages(pkgs, ids, root, m);
    crate::order::sorting_keeps_items::<CrateMember>(found, m);
    crate::order::sorting_orders::<CrateMember>(found);
    let s = stable_sorted::<CrateMember>(found);
    assert forall|i: int, j: int| 0 <= i < j < s.len() implies !lex_before(
        (#[trigger] s[j]).name,
        (#[trigger] s[i]).name,
    ) by {
        assert(!CrateMember::before(s[j], s[i]));
    }
}

/// A crate has the name of its package and lies where the package's manifest does.
pub proof fn crates_lie_where_their_manifests_do(
    pkg: JsonView,
    root: Seq<char>,
    name: Seq<char>,
    manifest: Seq<char>,
)
    requires
        field_of(pkg, "name"@) == JsonView::Str(name),
        field_of(pkg, "manifest_path"@) == JsonView::Str(manifest),
        parent_path(manifest) is Some,
    ensures
        member_of(pkg, root) matches Some(m) && m.name == name && m.path == relative_path(
            parent_path(manifest)->0,
            root,
        ) && (package_source(pkg) matches Some(src) ==> m.entry_file == relative_path(src, root)),
{
}

proof fn deps_become_edges(
    edges: Seq<(Seq<char>, Seq<char>)>,
    deps: Seq<JsonView>,
    from: Seq<char>,
    pkgs: Seq<JsonView>,
    ids: Seq<Seq<char>>,
    members: Seq<CrateMemberView>,
    e: (Seq<char>, Seq<char>),
)
    ensures
        with_deps(edges, deps, from, pkgs, ids, members).contains(e) <==> edges.contains(e)
            || exists|k: int|
            0 <= k < deps.len() && dep_edge(#[trigger] deps[k], from, pkgs, ids, members) == Some(
                e,
            ),
    decreases deps.len(),
{
    if deps.len() > 0 {
        let less = deps.drop_last();
        deps_become_edges(edges, less, from, pkgs, ids, members, e);
        let rest = with_deps(edges, less, from, pkgs, ids, members);
        let all = with_deps(edges, deps, from, pkgs, ids, members);
        let last = deps.len() - 1;
        if rest.contains(e) {
            let j = choose|j: int| 0 <= j < rest.len() && rest[j] == e;
            assert(all[j] == e);
            if !edges.contains(e) {
                let k = choose|k: int|
                    0 <= k < less.len() && dep_edge(
                        #[trigger] less[k],
                        from,
                        pkgs,
                        ids,
                        members,
                    ) == Some(e);
                assert(deps[k] == less[k]);
            }
        }
        if dep_edge(deps[last], from, pkgs, ids, members) == Some(e) {
            assert(all[rest.len() as int] == e);
        }
        if all.contains(e) && !rest.contains(e) {
            let j = choose|j: int| 0 <= j < all.len() && all[j] == e;
            if j < rest.len() {
                assert(rest[j] == e);
            }
            assert(dep_edge(deps[last], from, pkgs, ids, members) == Some(e));
        }
        if exists|k: int|
            0 <= k < deps.len() && dep_edge(#[trigger] deps[k], from, pkgs, ids, members) == Some(
                e,
            ) {
            let k = choose|k: int|
                0 <= k < deps.len() && dep_edge(#[trigger] deps[k], from, pkgs, ids, members)
                    == Some(e);
            if k < last {
                assert(less[k] == deps[k]);
            }
        }
    }
}

/// The node of Cargo's graph is a member that depends on another one as the edge says.
pub open spec fn depends(
    node: JsonView,
    pkgs: Seq<JsonView>,
    ids: Seq<Seq<char>>,
    members: Seq<CrateMemberView>,
    e: (Seq<char>, Seq<char>),
) -> bool {
    &&& field_of(node, "id"@) matches JsonView::Str(id) && name_of_id(pkgs, ids, id) == Some(e.0)
    &&& field_of(node, "deps"@) matches JsonView::Arr(deps) && exists|k: int|
        0 <= k < deps.len() && dep_edge(#[trigger] deps[k], e.0, pkgs, ids, members) == Some(e)
}

proof fn nodes_give_edges(
    nodes: Seq<JsonView>,
    pkgs: Seq<JsonView>,
    ids: Seq<Seq<char>>,
    members: Seq<CrateMemberView>,
    e: (Seq<char>, Seq<char>),
)
    ensures
        edges_among(nodes, pkgs, ids, members).contains(e) <==> exists|k: int|
            0 <= k < nodes.len() && depends(#[trigger] nodes[k], pkgs, ids, members, e),
    decreases nodes.len(),
{
    if nodes.len() > 0 {
        let less = nodes.drop_last();
        nodes_give_edges(less, pkgs, ids, members, e);
        let rest = edges_among(less, pkgs, ids, members);
        let last = nodes.len() - 1;
        let node = nodes[last];
        if let JsonView::Str(id) = field_of(node, "id"@) {
            if let Some(from) = name_of_id(pkgs, ids, id) {
                if let JsonView::Arr(deps) = field_of(node, "deps"@) {
                    deps_become_edges(rest, deps, from, pkgs, ids, members, e);
                    if exists|k: int|
                        0 <= k < deps.len() && dep_edge(
                            #[trigger] deps[k],
                            from,
                            pkgs,
                            ids,
                            members,
                        ) == Some(e) {
                        assert(e.0 == from);
                        assert(depends(nodes[last], pkgs, ids, members, e));
                    }
                }
            }
        }
        if exists|k: int| 0 <= k < less.len() && depends(#[trigger] less[k], pkgs, ids, members, e) {
            let k = choose|k: int|
                0 <= k < less.len() && depends(#[trigger] less[k], pkgs, ids, members, e);
            assert(nodes[k] == less[k]);
        }
        if exists|k: int|
            0 <= k < nodes.len() && depends(#[trigger] nodes[k], pkgs, ids, members, e) {
            let k = choose|k: int|
                0 <= k < nodes.len() && depends(#[trigger] nodes[k], pkgs, ids, members, e);
            if k < last {
                assert(less[k] == nodes[k]);
            }
        }
    }
}

/// The dependencies of a workspace are those between its crates that Cargo's graph tells, each
/// once.
pub proof fn dependencies_are_those_of_cargo(
    meta: JsonView,
    root: Seq<char>,
    member_ids: Seq<JsonView>,
    pkgs: Seq<JsonView>,
    nodes: Seq<JsonView>,
    e: (Seq<char>, Seq<char>),
)
    requires
        field_of(meta, "workspace_members"@) == JsonView::Arr(member_ids),
        field_of(meta, "packages"@) == JsonView::Arr(pkgs),
        field_of(field_of(meta, "resolve"@), "nodes"@) == JsonView::Arr(nodes),
        workspace_in(meta, root) is Some,
    ensures
        workspace_in(meta, root)->0.deps.contains(e) <==> exists|k: int|
            0 <= k < nodes.len() && depends(
                #[trigger] nodes[k],
                pkgs,
                texts_among(member_ids),
                workspace_in(meta, root)->0.members,
                e,
            ),
        workspace_in(meta, root)->0.deps.no_duplicates(),
{
    let ids = texts_among(member_ids);
    let members = stable_sorted::<CrateMember>(members_among(pkgs, ids, root));
    let edges = edges_among(nodes, pkgs, ids, members);
    nodes_give_edges(nodes, pkgs, ids, members, e);
    crate::order::pair_keys_stay(edges);
    assert(edges.contains(e) <==> key_set::<(String, String)>(edges).contains(e));
}

/// A dependency counts where it is one of the library or the program itself, and not of its
/// tests or its build alone; where it is on another crate of the workspace; and not on itself.
pub proof fn only_dependencies_between_crates_count(
    dep: JsonView,
    from: Seq<char>,
    pkgs: Seq<JsonView>,
    ids: Seq<Seq<char>>,
    members: Seq<CrateMemberView>,
)
    ensures
        dep_edge(dep, from, pkgs, ids, members) matches Some(e) ==> e.0 == from && e.1 != from && (
        exists|i: int| 0 <= i < members.len() && (#[trigger] members[i]).name == e.1) && (field_of(
            dep,
            "dep_kinds"@,
        ) matches JsonView::Arr(kinds) && exists|i: int|
            0 <= i < kinds.len() && field_of(#[trigger] kinds[i], "kind"@) == JsonView::Null)
            && name_of_id(pkgs, ids, or_text(text_in(field_of(dep, "pkg"@)), ""@)) == Some(e.1),
        dep_edge(dep, from, pkgs, ids, members) is None ==> match name_of_id(
            pkgs,
            ids,
            or_text(text_in(field_of(dep, "pkg"@)), ""@),
        ) {
            None => true,
            Some(to) => to == from || !has_name(members, to) || (field_of(dep, "dep_kinds"@)
                matches JsonView::Arr(kinds) ==> forall|i: int|
                0 <= i < kinds.len() ==> field_of(#[trigger] kinds[i], "kind"@) != JsonView::Null),
        },
{
}

/// The crate of a file, by Cargo's description, is a member whose directory the file lies in;
/// no member whose directory it lies in is deeper.
pub proof fn closest_packages_own_files(
    pkgs: Seq<JsonView>,
    ids: Seq<Seq<char>>,
    file: Seq<char>,
    n: int,
)
    requires
        0 <= n <= pkgs.len(),
    ensures
        closest_package(pkgs, ids, file, n) matches Ok(best) ==> forall|i: int|
            0 <= i < n && #[trigger] may_own(pkgs[i], ids, file) ==> (best matches Some(b)
                && path_depth(manifest_dir(pkgs[i])) <= b.0),
        closest_package(pkgs, ids, file, n) matches Ok(Some(b)) ==> exists|k: int|
            0 <= k < n && #[trigger] may_own(pkgs[k], ids, file) && b.0 == path_depth(
                manifest_dir(pkgs[k]),
            ) && field_of(pkgs[k], "name"@) == JsonView::Str(b.1),
    decreases n,
{
    if n > 0 {
        closest_packages_own_files(pkgs, ids, file, n - 1);
        if let Ok(best) = closest_package(pkgs, ids, file, n) {
            let before = closest_package(pkgs, ids, file, n - 1)->Ok_0;
            assert forall|i: int| 0 <= i < n && #[trigger] may_own(pkgs[i], ids, file) implies (best
                matches Some(b) && path_depth(manifest_dir(pkgs[i])) <= b.0) by {
                if i < n - 1 {
                    assert(may_own(pkgs[i], ids, file));
                }
            }
            if best is Some && best != before {
                assert(may_own(pkgs[n - 1], ids, file));
            }
        }
    }
}

/// The directory that a package's manifest lies in.
pub open spec fn manifest_dir(pkg: JsonView) -> Seq<char> {
    parent_path(text_in(field_of(pkg, "manifest_path"@))->0)->0
}

/// The package is a member, where members are told, and the file lies in its directory.
pub open spec fn may_own(pkg: JsonView, ids: Seq<Seq<char>>, file: Seq<char>) -> bool {
    &&& ids.len() == 0 || ids.contains(or_text(text_in(field_of(pkg, "id"@)), ""@))
    &&& text_in(field_of(pkg, "manifest_path"@)) matches Some(m) && parent_path(m) is Some
    &&& is_within(file, manifest_dir(pkg))
}

/// A target is a library or a binary.
pub open spec fn is_library_or_binary(target: JsonView) -> bool {
    exists|kinds: Seq<JsonView>, i: int|
        field_of(target, "kind"@) == JsonView::Arr(kinds) && 0 <= i < kinds.len() && (
        #[trigger] kinds[i] == JsonView::Str("lib"@) || kinds[i] == JsonView::Str("bin"@))
}

proof fn kinds_are_read(target: JsonView)
    ensures
        lib_or_bin(target) <==> is_library_or_binary(target),
{
    if let JsonView::Arr(kinds) = field_of(target, "kind"@) {
        if lib_or_bin(target) {
            let i = choose|i: int|
                0 <= i < kinds.len() && (text_in(#[trigger] kinds[i]) == Some("lib"@) || text_in(
                    kinds[i],
                ) == Some("bin"@));
            assert(kinds[i] == JsonView::Str("lib"@) || kinds[i] == JsonView::Str("bin"@));
        }
        if is_library_or_binary(target) {
            let (k, i) = choose|k: Seq<JsonView>, i: int|
                field_of(target, "kind"@) == JsonView::Arr(k) && 0 <= i < k.len() && (
                #[trigger] k[i] == JsonView::Str("lib"@) || k[i] == JsonView::Str("bin"@));
            assert(text_in(kinds[i]) == Some("lib"@) || text_in(kinds[i]) == Some("bin"@));
        }
    }
}

/// A package is entered at the source of its first target that is a library or a binary;
/// without such a target it is not.
pub proof fn first_library_or_binary_is_entered(targets: Seq<JsonView>, i: int)
    requires
        0 <= i <= targets.len(),
    ensures
        (forall|j: int| i <= j < targets.len() ==> !is_library_or_binary(#[trigger] targets[j]))
            ==> entry_source(targets, i) is None,
        forall|k: int|
            i <= k < targets.len() && is_library_or_binary(#[trigger] targets[k]) && (forall|j: int|
                i <= j < k ==> !is_library_or_binary(#[trigger] targets[j])) ==> entry_source(
                targets,
                i,
            ) == text_in(field_of(targets[k], "src_path"@)),
    decreases targets.len() - i,
{
    if i < targets.len() {
        first_library_or_binary_is_entered(targets, i + 1);
        kinds_are_read(targets[i]);
        assert forall|k: int|
            i <= k < targets.len() && is_library_or_binary(#[trigger] targets[k]) && (forall|j: int|
                i <= j < k ==> !is_library_or_binary(#[trigger] targets[j])) implies entry_source(
            targets,
            i,
        ) == text_in(field_of(targets[k], "src_path"@)) by {
            if k > i {
                assert(!is_library_or_binary(targets[i]));
                assert(entry_source(targets, i) == entry_source(targets, i + 1));
            }
        }
    }
}

} // verus!
