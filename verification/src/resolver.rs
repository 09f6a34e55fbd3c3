//! Resolving calls to the functions that they mean, by the `use` declarations of the file
//! that they stand in.
//!
//! A call is resolved with high confidence where its path, or the path that a declaration
//! gives its name, is that of a function; with medium confidence where its name is that of
//! one function of the same file; and with low confidence where its name is that of one
//! function that other files can see.

use vstd::prelude::*;

use crate::arch::strip_dot;
use crate::language::Language;
use crate::model::{or_text, text_or, views, Dup};
use crate::order::{key_set, stable_sort, stable_sorted, Ranked};
use crate::parser::node_text;
use crate::syntax::{
    as_ints, captured_node, child_indices, children_of, find_captured, parse_and_query, query_hits,
    syntax_tree, CaptureView, QueryHit, QueryHitView, SyntaxNode, SyntaxNodeView,
};
use crate::text::{
    begins_with, concat3, contains, find, find_from, has_str, join, joined, replace, replaced,
    slice_text, split_at_str, split_str, starts_with, str_eq, strip_prefix, strip_suffix,
    suffix_from, trim, trimmed, without_prefix, without_suffix,
};

verus! {

broadcast use crate::model::group_views;

/// What finds the arguments of `use` declarations.
pub const USE_QUERY: &'static str = "(use_declaration argument: (_) @use_arg)";

/// What finds the targets of calls. Scoped names are taken whole.
pub const CALL_QUERY: &'static str = "\n(call_expression function: (identifier) @call)\n(call_expression function: (scoped_identifier) @call)\n(call_expression function: (field_expression field: (field_identifier) @call))\n(call_expression function: (generic_function function: (identifier) @call))\n(call_expression function: (generic_function function: (scoped_identifier) @call))\n(call_expression function: (generic_function function: (field_expression field: (field_identifier) @call)))\n";

// ---------------------------------------------------------------------------
// Paths of modules
// ---------------------------------------------------------------------------

/// The pieces that are not empty.
pub open spec fn filled(pieces: Seq<Seq<char>>) -> Seq<Seq<char>>
    decreases pieces.len(),
{
    if pieces.len() == 0 {
        Seq::empty()
    } else {
        let rest = filled(pieces.drop_last());
        if pieces.last().len() == 0 {
            rest
        } else {
            rest.push(pieces.last())
        }
    }
}

/// The segments of a module path.
pub open spec fn segments_of(path: Seq<char>) -> Seq<Seq<char>> {
    filled(split_at_str(path, "::"@))
}

fn segments(path: &str) -> (r: Vec<String>)
    ensures
        views(r@) == segments_of(path@),
{
    proof {
        reveal_strlit("::");
    }
    let pieces = split_str(path, "::");
    let ghost pv = views(pieces@);
    let mut out: Vec<String> = Vec::new();
    let mut i: usize = 0;
    assert(pv.take(0).len() == 0);
    while i < pieces.len()
        invariant
            pv == views(pieces@),
            i <= pieces@.len(),
            views(out@) == filled(pv.take(i as int)),
        decreases pieces@.len() - i,
    {
        assert(pv[i as int] == pieces@[i as int]@);
        assert(pv.take(i + 1).drop_last() =~= pv.take(i as int));
        if !pieces[i].as_str().is_empty() {
            out.push(pieces[i].dup());
        }
        i = i + 1;
    }
    assert(pv.take(i as int) =~= pv);
    out
}

/// The segments without the last.
pub open spec fn up(segs: Seq<Seq<char>>) -> Seq<Seq<char>> {
    if segs.len() == 0 {
        segs
    } else {
        segs.drop_last()
    }
}

/// The path without leading `super::`, and the module's segments with as many taken away.
pub open spec fn without_supers(path: Seq<char>, segs: Seq<Seq<char>>) -> (
    Seq<char>,
    Seq<Seq<char>>,
)
    decreases path.len(),
{
    if begins_with(path, "super::"@) && "super::"@.len() > 0 {
        without_supers(path.skip("super::"@.len() as int), up(segs))
    } else {
        (path, segs)
    }
}

/// The path under the module's segments.
pub open spec fn under(segs: Seq<Seq<char>>, path: Seq<char>) -> Seq<char> {
    if segs.len() == 0 {
        path
    } else {
        joined(segs.push(path), "::"@)
    }
}

/// A path as it is written in a module, seen from the crate root. `super::` goes up,
/// `crate::` to the root, and `self::` stays; a single name stays as it is.
pub open spec fn normalized(path: Seq<char>, module: Seq<char>) -> Seq<char> {
    let (rest, segs) = without_supers(trimmed(path), segments_of(module));
    let (rest, segs) = match without_prefix(rest, "crate::"@) {
        Some(r) => (r, Seq::<Seq<char>>::empty()),
        None => (rest, segs),
    };
    match without_prefix(rest, "self::"@) {
        Some(r) => under(segs, r),
        None => if has_str(rest, "::"@) {
            under(segs, rest)
        } else {
            rest
        },
    }
}

fn put_under(segs: Vec<String>, path: String) -> (r: String)
    ensures
        r@ == under(views(segs@), path@),
{
    assert(views(segs@).len() == segs@.len());
    if segs.len() == 0 {
        return path;
    }
    let mut all = segs;
    all.push(path);
    join(&all, "::")
}

/// A path as it is written in a module, seen from the crate root.
pub fn normalize_path(path: &str, module_prefix: &str) -> (r: String)
    ensures
        r@ == normalized(path@, module_prefix@),
{
    let mut segs = segments(module_prefix);
    let mut rest = trim(path);
    let ghost goal = without_supers(rest@, views(segs@));
    proof {
        reveal_strlit("super::");
    }
    while starts_with(&rest, "super::")
        invariant
            "super::"@.len() == 7,
            goal == without_supers(rest@, views(segs@)),
        decreases rest@.len(),
    {
        let ghost before = segs@;
        if segs.len() > 0 {
            segs.pop();
            assert(views(segs@) =~= views(before).drop_last());
        }
        rest = suffix_from(&rest, 7);
    }
    if let Some(r) = strip_prefix(&rest, "crate::") {
        rest = r;
        segs = Vec::new();
    }
    if let Some(r) = strip_prefix(&rest, "self::") {
        return put_under(segs, r);
    }
    if !contains(&rest, "::") {
        return rest;
    }
    put_under(segs, rest)
}

/// The path of a file below its crate's source directory.
pub open spec fn below_src(file: Seq<char>) -> Seq<char> {
    let p = crate::arch::plain_path(file);
    match find_from(p, "/src/"@, 0) {
        Some(k) => p.skip(k + 5),
        None => or_text(without_prefix(p, "src/"@), p),
    }
}

/// The path of the module that a file is; empty for the crate root.
pub open spec fn path_of_module(file: Seq<char>) -> Seq<char> {
    let rel = below_src(file);
    if rel == "lib.rs"@ || rel == "main.rs"@ {
        Seq::empty()
    } else {
        match without_suffix(rel, "/mod.rs"@) {
            Some(dir) => replaced(dir, "/"@, "::"@),
            None => match without_suffix(rel, ".rs"@) {
                Some(stem) => replaced(stem, "/"@, "::"@),
                None => Seq::empty(),
            },
        }
    }
}

/// The path of the module that a file is.
pub fn module_prefix_from_file(file: &str) -> (r: String)
    ensures
        r@ == path_of_module(file@),
{
    proof {
        reveal_strlit("/src/");
        reveal_strlit("/");
    }
    let p = strip_dot(file);
    let rel = match find(&p, "/src/") {
        Some(k) => {
            proof {
                crate::text::find_from_is_least(p@, "/src/"@, 0);
                assert(k + 5 <= p@.len());
            }
            let v = crate::text::chars_of(&p);
            let n: usize = v.len();
            suffix_from(&p, k + 5)
        },
        None => match strip_prefix(&p, "src/") {
            Some(r) => r,
            None => p,
        },
    };
    if str_eq(&rel, "lib.rs") || str_eq(&rel, "main.rs") {
        return String::new();
    }
    if let Some(dir) = strip_suffix(&rel, "/mod.rs") {
        return replace(&dir, "/", "::");
    }
    if let Some(stem) = strip_suffix(&rel, ".rs") {
        return replace(&stem, "/", "::");
    }
    String::new()
}

/// The last segment of a path.
pub open spec fn last_segment(path: Seq<char>) -> Seq<char> {
    split_at_str(path, "::"@).last()
}

fn last_segment_of(path: &str) -> (r: String)
    ensures
        r@ == last_segment(path@),
{
    proof {
        reveal_strlit("::");
    }
    let pieces = split_str(path, "::");
    let ghost pv = views(pieces@);
    assert(pv.len() == pieces@.len());
    assert(pv.last() == pieces@[pieces@.len() - 1]@);
    pieces[pieces.len() - 1].dup()
}

/// The path of the type that a method belongs to: its path without the last segment.
pub open spec fn owner_path(qualified: Seq<char>) -> Option<Seq<char>> {
    let pieces = split_at_str(qualified, "::"@);
    if pieces.len() < 2 {
        None
    } else {
        Some(joined(pieces.drop_last(), "::"@))
    }
}

/// The path of the type that a method belongs to.
pub fn infer_impl_type(qualified_name: &str) -> (r: Option<String>)
    ensures
        r.deep_view() == owner_path(qualified_name@),
{
    proof {
        reveal_strlit("::");
    }
    let mut pieces = split_str(qualified_name, "::");
    let ghost before = pieces@;
    assert(views(pieces@).len() == pieces@.len());
    if pieces.len() < 2 {
        return None;
    }
    pieces.pop();
    assert(views(pieces@) =~= views(before).drop_last());
    Some(join(&pieces, "::"))
}

// ---------------------------------------------------------------------------
// Declarations
// ---------------------------------------------------------------------------

/// What the `use` declarations of a file bring into scope: names with the paths that they
/// stand for, of which the last one of a name counts, and the modules that everything is taken
/// from.
#[derive(Debug)]
pub struct ScopeMap {
    pub direct: Vec<(String, String)>,
    pub wildcards: Vec<String>,
}

/// What a [`ScopeMap`] holds.
#[verifier::ext_equal]
pub struct ScopeMapView {
    pub direct: Seq<(Seq<char>, Seq<char>)>,
    pub wildcards: Seq<Seq<char>>,
}

impl DeepView for ScopeMap {
    type V = ScopeMapView;

    open spec fn deep_view(&self) -> ScopeMapView {
        ScopeMapView {
            direct: views(self.direct@),
            wildcards: views(self.wildcards@),
        }
    }
}

impl View for ScopeMap {
    type V = ScopeMapView;

    open spec fn view(&self) -> ScopeMapView {
        self.deep_view()
    }
}

/// The path that the last entry with the name gives it.
pub open spec fn scoped_path(direct: Seq<(Seq<char>, Seq<char>)>, name: Seq<char>) -> Option<
    Seq<char>,
>
    decreases direct.len(),
{
    if direct.len() == 0 {
        None
    } else if direct.last().0 == name {
        Some(direct.last().1)
    } else {
        scoped_path(direct.drop_last(), name)
    }
}

fn find_scoped(direct: &Vec<(String, String)>, name: &str) -> (r: Option<String>)
    ensures
        r.deep_view() == scoped_path(views(direct@), name@),
{
    let mut i: usize = direct.len();
    assert(views(direct@).take(i as int) =~= views(direct@));
    while i > 0
        invariant
            i <= direct@.len(),
            scoped_path(views(direct@), name@) == scoped_path(
                views(direct@).take(i as int),
                name@,
            ),
        decreases i,
    {
        assert(views(direct@).take(i as int).drop_last() =~= views(direct@).take(i - 1));
        assert(views(direct@)[i - 1] == direct@[i - 1].deep_view());
        if str_eq(&direct[i - 1].0, name) {
            return Some(direct[i - 1].1.dup());
        }
        i = i - 1;
    }
    None
}

/// The scope with a name and the path that it stands for.
pub open spec fn with_name(s: ScopeMapView, name: Seq<char>, path: Seq<char>) -> ScopeMapView {
    ScopeMapView { direct: s.direct.push((name, path)), wildcards: s.wildcards }
}

/// The scope with a module that everything is taken from.
pub open spec fn with_wildcard(s: ScopeMapView, module: Seq<char>) -> ScopeMapView {
    ScopeMapView { direct: s.direct, wildcards: s.wildcards.push(module) }
}

/// The text of a node; empty where its bytes are no text.
pub open spec fn text_of(nodes: Seq<SyntaxNodeView>, i: int, source: Seq<char>) -> Seq<char> {
    or_text(node_text(nodes, i, source), ""@)
}

fn node_string(nodes: &Vec<SyntaxNode>, i: usize, source: &str) -> (r: String)
    requires
        i < nodes@.len(),
    ensures
        r@ == text_of(views(nodes@), i as int, source@),
{
    assert(views(nodes@)[i as int] == nodes@[i as int]@);
    text_or(&slice_text(source, nodes[i].start_byte, nodes[i].end_byte), "")
}

/// The first of the nodes at the positions, from `k` on, that is the field.
pub open spec fn child_field(nodes: Seq<SyntaxNodeView>, i: int, field: Seq<char>) -> Option<int> {
    crate::parser::field_among(nodes, children_of(nodes, i), field, 0)
}

fn find_child(nodes: &Vec<SyntaxNode>, i: usize, field: &str) -> (r: Option<usize>)
    requires
        i < nodes@.len(),
    ensures
        match r {
            Some(k) => i < k < nodes@.len() && child_field(views(nodes@), i as int, field@) == Some(
                k as int,
            ),
            None => child_field(views(nodes@), i as int, field@) is None,
        },
{
    let at = child_indices(nodes, i);
    let mut k: usize = 0;
    while k < at.len()
        invariant
            as_ints(at@) == children_of(views(nodes@), i as int),
            forall|k: int| 0 <= k < at@.len() ==> i < (#[trigger] at@[k]) < nodes@.len(),
            k <= at@.len(),
            child_field(views(nodes@), i as int, field@) == crate::parser::field_among(
                views(nodes@),
                as_ints(at@),
                field@,
                k as int,
            ),
        decreases at@.len() - k,
    {
        let c = at[k];
        assert(as_ints(at@)[k as int] == c);
        assert(views(nodes@)[c as int] == nodes@[c as int]@);
        if let Some(f) = &nodes[c].field {
            if str_eq(f, field) {
                return Some(c);
            }
        }
        k = k + 1;
    }
    None
}

/// A path behind a prefix.
pub open spec fn prefixed(prefix: Seq<char>, path: Seq<char>) -> Seq<char> {
    if prefix.len() == 0 {
        path
    } else {
        prefix + "::"@ + path
    }
}

fn put_prefix(prefix: &str, path: &str) -> (r: String)
    ensures
        r@ == prefixed(prefix@, path@),
{
    if prefix.is_empty() {
        path.to_owned()
    } else {
        concat3(prefix, "::", path)
    }
}

/// The kinds of nodes of a list that are no entries of it.
pub open spec fn punctuation(kind: Seq<char>) -> bool {
    kind == ","@ || kind == "{"@ || kind == "}"@ || kind == "comment"@
}

fn is_punctuation(kind: &str) -> (r: bool)
    ensures
        r == punctuation(kind@),
{
    str_eq(kind, ",") || str_eq(kind, "{") || str_eq(kind, "}") || str_eq(kind, "comment")
}

/// The scope with what the node at `i` of a `use` declaration brings in, `prefix` being the
/// path that stands before it.
pub open spec fn with_use(
    s: ScopeMapView,
    nodes: Seq<SyntaxNodeView>,
    i: int,
    prefix: Seq<char>,
    source: Seq<char>,
    module: Seq<char>,
) -> ScopeMapView
    decreases nodes.len() - i, 1int, 0int,
{
    let kind = nodes[i].kind;
    if kind == "identifier"@ {
        let name = text_of(nodes, i, source);
        with_name(s, name, normalized(prefixed(prefix, name), module))
    } else if kind == "scoped_identifier"@ {
        let path = normalized(text_of(nodes, i, source), module);
        let name = last_segment(path);
        if name.len() == 0 {
            s
        } else {
            with_name(s, name, path)
        }
    } else if kind == "use_as_clause"@ {
        match (child_field(nodes, i, "path"@), child_field(nodes, i, "alias"@)) {
            (Some(p), Some(a)) => with_name(
                s,
                text_of(nodes, a, source),
                normalized(text_of(nodes, p, source), module),
            ),
            _ => s,
        }
    } else if kind == "scoped_use_list"@ {
        let inner = match child_field(nodes, i, "path"@) {
            Some(p) => prefixed(prefix, normalized(text_of(nodes, p, source), module)),
            None => prefix,
        };
        match child_field(nodes, i, "list"@) {
            Some(l) => if i < l < nodes.len() {
                let at = children_of(nodes, l);
                with_uses(s, nodes, l, at, inner, source, module, at.len() as int)
            } else {
                s
            },
            None => s,
        }
    } else if kind == "use_list"@ {
        let at = children_of(nodes, i);
        with_uses(s, nodes, i, at, prefix, source, module, at.len() as int)
    } else if kind == "use_wildcard"@ {
        if prefix.len() == 0 {
            s
        } else {
            with_wildcard(s, normalized(prefix, module))
        }
    } else {
        s
    }
}

/// The scope with what the first `n` of the nodes at the positions, which stand below the
/// node at `of`, bring in.
pub open spec fn with_uses(
    s: ScopeMapView,
    nodes: Seq<SyntaxNodeView>,
    of: int,
    at: Seq<int>,
    prefix: Seq<char>,
    source: Seq<char>,
    module: Seq<char>,
    n: int,
) -> ScopeMapView
    decreases nodes.len() - of, 0int, n,
{
    if n <= 0 {
        s
    } else {
        let before = with_uses(s, nodes, of, at, prefix, source, module, n - 1);
        let c = at[n - 1];
        if !(of < c < nodes.len()) || punctuation(nodes[c].kind) {
            before
        } else {
            with_use(before, nodes, c, prefix, source, module)
        }
    }
}

fn add_name(s: &mut ScopeMap, name: String, path: String)
    ensures
        final(s)@ == with_name(old(s)@, name@, path@),
{
    s.direct.push((name, path));
}

/// Adds what the node at `i` of a `use` declaration brings into scope.
pub fn collect_bindings(
    s: &mut ScopeMap,
    nodes: &Vec<SyntaxNode>,
    i: usize,
    prefix: &str,
    source: &str,
    module_prefix: &str,
)
    requires
        i < nodes@.len(),
    ensures
        final(s)@ == with_use(
            old(s)@,
            views(nodes@),
            i as int,
            prefix@,
            source@,
            module_prefix@,
        ),
    decreases nodes@.len() - i, 1int, 0int,
{
    assert(views(nodes@)[i as int] == nodes@[i as int]@);
    assert(views(nodes@).len() == nodes@.len());
    let kind = &nodes[i].kind;
    if str_eq(kind, "identifier") {
        let name = node_string(nodes, i, source);
        let full = put_prefix(prefix, &name);
        let path = normalize_path(&full, module_prefix);
        add_name(s, name, path);
    } else if str_eq(kind, "scoped_identifier") {
        let path = normalize_path(&node_string(nodes, i, source), module_prefix);
        let name = last_segment_of(&path);
        if !name.as_str().is_empty() {
            add_name(s, name, path);
        }
    } else if str_eq(kind, "use_as_clause") {
        if let Some(p) = find_child(nodes, i, "path") {
            if let Some(a) = find_child(nodes, i, "alias") {
                let path = normalize_path(&node_string(nodes, p, source), module_prefix);
                let alias = node_string(nodes, a, source);
                add_name(s, alias, path);
            }
        }
    } else if str_eq(kind, "scoped_use_list") {
        let inner = match find_child(nodes, i, "path") {
            Some(p) => {
                let clean = normalize_path(&node_string(nodes, p, source), module_prefix);
                put_prefix(prefix, &clean)
            },
            None => prefix.to_owned(),
        };
        if let Some(l) = find_child(nodes, i, "list") {
            let at = child_indices(nodes, l);
            assert(as_ints(at@).len() == at@.len());
            collect_list(s, nodes, l, &at, &inner, source, module_prefix);
        }
    } else if str_eq(kind, "use_list") {
        let at = child_indices(nodes, i);
        assert(as_ints(at@).len() == at@.len());
        collect_list(s, nodes, i, &at, prefix, source, module_prefix);
    } else if str_eq(kind, "use_wildcard") {
        if !prefix.is_empty() {
            s.wildcards.push(normalize_path(prefix, module_prefix));
        }
    }
}

fn collect_list(
    s: &mut ScopeMap,
    nodes: &Vec<SyntaxNode>,
    of: usize,
    at: &Vec<usize>,
    prefix: &str,
    source: &str,
    module_prefix: &str,
)
    requires
        of < nodes@.len(),
        forall|k: int| 0 <= k < at@.len() ==> of < (#[trigger] at@[k]) < nodes@.len(),
    ensures
        final(s)@ == with_uses(
            old(s)@,
            views(nodes@),
            of as int,
            as_ints(at@),
            prefix@,
            source@,
            module_prefix@,
            at@.len() as int,
        ),
    decreases nodes@.len() - of, 0int, at@.len(),
{
    let ghost start = s@;
    let mut n: usize = 0;
    assert(views(nodes@).len() == nodes@.len());
    while n < at.len()
        invariant
            n <= at@.len(),
            of < nodes@.len(),
            views(nodes@).len() == nodes@.len(),
            forall|k: int| 0 <= k < at@.len() ==> of < (#[trigger] at@[k]) < nodes@.len(),
            s@ == with_uses(
                start,
                views(nodes@),
                of as int,
                as_ints(at@),
                prefix@,
                source@,
                module_prefix@,
                n as int,
            ),
        decreases at@.len() - n,
    {
        let c = at[n];
        assert(as_ints(at@)[n as int] == c);
        assert(views(nodes@)[c as int] == nodes@[c as int]@);
        if !is_punctuation(&nodes[c].kind) {
            collect_bindings(s, nodes, c, prefix, source, module_prefix);
        }
        n = n + 1;
    }
}

/// The scope with what the first `n` captures bring in.
pub open spec fn with_captures(
    s: ScopeMapView,
    nodes: Seq<SyntaxNodeView>,
    cs: Seq<CaptureView>,
    source: Seq<char>,
    module: Seq<char>,
    n: int,
) -> ScopeMapView
    decreases n,
{
    if n <= 0 {
        s
    } else {
        let before = with_captures(s, nodes, cs, source, module, n - 1);
        match captured_node(nodes, cs[n - 1], 0) {
            Some(i) => with_use(before, nodes, i, Seq::empty(), source, module),
            None => before,
        }
    }
}

/// The scope that the first `n` matches bring in.
pub open spec fn scope_of(
    nodes: Seq<SyntaxNodeView>,
    hits: Seq<QueryHitView>,
    source: Seq<char>,
    module: Seq<char>,
    n: int,
) -> ScopeMapView
    decreases n,
{
    if n <= 0 {
        ScopeMapView { direct: Seq::empty(), wildcards: Seq::empty() }
    } else {
        let cs = hits[n - 1].captures;
        with_captures(
            scope_of(nodes, hits, source, module, n - 1),
            nodes,
            cs,
            source,
            module,
            cs.len() as int,
        )
    }
}

/// What the `use` declarations of a file bring into scope, from its syntax tree and the
/// matches of the query for them.
pub fn build_scope_map(
    nodes: &Vec<SyntaxNode>,
    hits: &Vec<QueryHit>,
    source: &str,
    module_prefix: &str,
) -> (s: ScopeMap)
    ensures
        s@ == scope_of(
            views(nodes@),
            views(hits@),
            source@,
            module_prefix@,
            hits@.len() as int,
        ),
{
    let mut s = ScopeMap { direct: Vec::new(), wildcards: Vec::new() };
    proof {
        reveal_strlit("");
    }
    let ghost nothing: Seq<char> = ""@;
    assert(nothing =~= Seq::<char>::empty());
    let mut n: usize = 0;
    while n < hits.len()
        invariant
            ""@ == Seq::<char>::empty(),
            n <= hits@.len(),
            s@ == scope_of(views(nodes@), views(hits@), source@, module_prefix@, n as int),
        decreases hits@.len() - n,
    {
        let cs = &hits[n].captures;
        assert(views(hits@)[n as int].captures == views(cs@));
        let ghost start = s@;
        let mut k: usize = 0;
        while k < cs.len()
            invariant
                ""@ == Seq::<char>::empty(),
                k <= cs@.len(),
                s@ == with_captures(
                    start,
                    views(nodes@),
                    views(cs@),
                    source@,
                    module_prefix@,
                    k as int,
                ),
            decreases cs@.len() - k,
        {
            assert(views(cs@)[k as int] == cs@[k as int]@);
            if let Some(i) = find_captured(nodes, &cs[k]) {
                collect_bindings(&mut s, nodes, i, "", source, module_prefix);
            }
            k = k + 1;
        }
        n = n + 1;
    }
    s
}

// ---------------------------------------------------------------------------
// Calls
// ---------------------------------------------------------------------------

/// A call: its line, counted from 1, what is called, and whether it is called as a method.
#[derive(Debug)]
pub struct CallSite {
    pub line: i64,
    pub text: String,
    pub is_method_style: bool,
}

/// What a [`CallSite`] holds.
#[verifier::ext_equal]
pub struct CallSiteView {
    pub line: i64,
    pub text: Seq<char>,
    pub is_method_style: bool,
}

impl DeepView for CallSite {
    type V = CallSiteView;

    open spec fn deep_view(&self) -> CallSiteView {
        CallSiteView {
            line: self.line.deep_view(),
            text: self.text.deep_view(),
            is_method_style: self.is_method_style.deep_view(),
        }
    }
}

impl View for CallSite {
    type V = CallSiteView;

    open spec fn view(&self) -> CallSiteView {
        self.deep_view()
    }
}

/// `calls` and those that the first `n` captures are.
pub open spec fn with_calls(
    calls: Seq<CallSiteView>,
    nodes: Seq<SyntaxNodeView>,
    cs: Seq<CaptureView>,
    source: Seq<char>,
    n: int,
) -> Seq<CallSiteView>
    decreases n,
{
    if n <= 0 {
        calls
    } else {
        let before = with_calls(calls, nodes, cs, source, n - 1);
        match captured_node(nodes, cs[n - 1], 0) {
            Some(i) => {
                let text = text_of(nodes, i, source);
                if text.len() == 0 {
                    before
                } else {
                    before.push(
                        CallSiteView {
                            line: crate::parser::line_number(nodes[i].start_row as int) as i64,
                            text,
                            is_method_style: nodes[i].kind == "field_identifier"@,
                        },
                    )
                }
            },
            None => before,
        }
    }
}

/// The calls that the first `n` matches are.
pub open spec fn calls_in(
    nodes: Seq<SyntaxNodeView>,
    hits: Seq<QueryHitView>,
    source: Seq<char>,
    n: int,
) -> Seq<CallSiteView>
    decreases n,
{
    if n <= 0 {
        Seq::empty()
    } else {
        let cs = hits[n - 1].captures;
        with_calls(calls_in(nodes, hits, source, n - 1), nodes, cs, source, cs.len() as int)
    }
}

/// The calls of a file, from its syntax tree and the matches of the query for them.
pub fn extract_calls(nodes: &Vec<SyntaxNode>, hits: &Vec<QueryHit>, source: &str) -> (r: Vec<
    CallSite,
>)
    ensures
        views(r@) == calls_in(views(nodes@), views(hits@), source@, hits@.len() as int),
{
    let mut out: Vec<CallSite> = Vec::new();
    let mut n: usize = 0;
    while n < hits.len()
        invariant
            n <= hits@.len(),
            views(out@) == calls_in(views(nodes@), views(hits@), source@, n as int),
        decreases hits@.len() - n,
    {
        let cs = &hits[n].captures;
        assert(views(hits@)[n as int].captures == views(cs@));
        let ghost start = views(out@);
        let mut k: usize = 0;
        while k < cs.len()
            invariant
                k <= cs@.len(),
                views(out@) == with_calls(
                    start,
                    views(nodes@),
                    views(cs@),
                    source@,
                    k as int,
                ),
            decreases cs@.len() - k,
        {
            assert(views(cs@)[k as int] == cs@[k as int]@);
            if let Some(i) = find_captured(nodes, &cs[k]) {
                assert(views(nodes@)[i as int] == nodes@[i as int]@);
                let text = node_string(nodes, i, source);
                if !text.as_str().is_empty() {
                    let line: i64 = crate::parser::line_of(nodes[i].start_row) as i64;
                    let call = CallSite {
                        line,
                        text,
                        is_method_style: str_eq(&nodes[i].kind, "field_identifier"),
                    };
                    out.push(call);
                }
            }
            k = k + 1;
        }
        n = n + 1;
    }
    out
}

/// A symbol of a file: its lines, its kind and its path.
#[derive(Debug)]
pub struct FileNode {
    pub id: i64,
    pub range_start: i64,
    pub range_end: i64,
    pub kind: String,
    pub qualified_name: String,
}

/// What a [`FileNode`] holds.
#[verifier::ext_equal]
pub struct FileNodeView {
    pub id: i64,
    pub range_start: i64,
    pub range_end: i64,
    pub kind: Seq<char>,
    pub qualified_name: Seq<char>,
}

impl DeepView for FileNode {
    type V = FileNodeView;

    open spec fn deep_view(&self) -> FileNodeView {
        FileNodeView {
            id: self.id.deep_view(),
            range_start: self.range_start.deep_view(),
            range_end: self.range_end.deep_view(),
            kind: self.kind.deep_view(),
            qualified_name: self.qualified_name.deep_view(),
        }
    }
}

impl View for FileNode {
    type V = FileNodeView;

    open spec fn view(&self) -> FileNodeView {
        self.deep_view()
    }
}

/// The symbol is a function whose lines hold the line.
pub open spec fn holds_line(n: FileNodeView, line: int) -> bool {
    n.kind == "fn"@ && n.range_start <= line && n.range_end >= line
}

/// Of the first `n` symbols, the function with the fewest lines that hold the line; the
/// first of several.
pub open spec fn innermost(nodes: Seq<FileNodeView>, line: int, n: int) -> Option<int>
    decreases n,
{
    if n <= 0 {
        None
    } else {
        let best = innermost(nodes, line, n - 1);
        let c = nodes[n - 1];
        if holds_line(c, line) && (best matches Some(b) ==> c.range_end - c.range_start
            < nodes[b].range_end - nodes[b].range_start) {
            Some(n - 1)
        } else {
            best
        }
    }
}

/// The chosen function holds the line, and no function that does has fewer lines.
pub proof fn innermost_is_least(nodes: Seq<FileNodeView>, line: int, n: int)
    requires
        0 <= n <= nodes.len(),
    ensures
        match innermost(nodes, line, n) {
            Some(b) => 0 <= b < n && holds_line(nodes[b], line) && forall|i: int|
                0 <= i < n && holds_line(#[trigger] nodes[i], line) ==> nodes[b].range_end
                    - nodes[b].range_start <= nodes[i].range_end - nodes[i].range_start,
            None => forall|i: int| 0 <= i < n ==> !holds_line(#[trigger] nodes[i], line),
        },
    decreases n,
{
    if n > 0 {
        innermost_is_least(nodes, line, n - 1);
    }
}

/// The function that a line stands in.
pub fn find_enclosing_fn(file_nodes: &Vec<FileNode>, call_line: i64) -> (r: Option<usize>)
    ensures
        match r {
            Some(i) => i < file_nodes@.len() && innermost(
                views(file_nodes@),
                call_line as int,
                file_nodes@.len() as int,
            ) == Some(i as int),
            None => innermost(views(file_nodes@), call_line as int, file_nodes@.len() as int)
                is None,
        },
{
    let mut best: Option<usize> = None;
    let mut n: usize = 0;
    while n < file_nodes.len()
        invariant
            n <= file_nodes@.len(),
            match best {
                Some(b) => b < n && innermost(views(file_nodes@), call_line as int, n as int)
                    == Some(b as int),
                None => innermost(views(file_nodes@), call_line as int, n as int) is None,
            },
        decreases file_nodes@.len() - n,
    {
        let c = &file_nodes[n];
        assert(views(file_nodes@)[n as int] == c@);
        if str_eq(&c.kind, "fn") && c.range_start <= call_line && c.range_end >= call_line {
            let smaller = match best {
                Some(b) => {
                    assert(views(file_nodes@)[b as int] == file_nodes@[b as int]@);
                    let span: i128 = c.range_end as i128 - c.range_start as i128;
                    let least: i128 = file_nodes[b].range_end as i128
                        - file_nodes[b].range_start as i128;
                    span < least
                },
                None => true,
            };
            if smaller {
                best = Some(n);
            }
        }
        n = n + 1;
    }
    best
}

// ---------------------------------------------------------------------------
// Targets
// ---------------------------------------------------------------------------

/// A function of the code graph.
#[derive(Debug)]
pub struct FnRow {
    pub id: i64,
    pub name: String,
    pub file: String,
    pub visibility: String,
    pub qualified_name: String,
}

/// What a [`FnRow`] holds.
#[verifier::ext_equal]
pub struct FnRowView {
    pub id: i64,
    pub name: Seq<char>,
    pub file: Seq<char>,
    pub visibility: Seq<char>,
    pub qualified_name: Seq<char>,
}

impl DeepView for FnRow {
    type V = FnRowView;

    open spec fn deep_view(&self) -> FnRowView {
        FnRowView {
            id: self.id.deep_view(),
            name: self.name.deep_view(),
            file: self.file.deep_view(),
            visibility: self.visibility.deep_view(),
            qualified_name: self.qualified_name.deep_view(),
        }
    }
}

impl View for FnRow {
    type V = FnRowView;

    open spec fn view(&self) -> FnRowView {
        self.deep_view()
    }
}

/// How sure a resolution is.
#[derive(Clone, Copy, PartialEq, Eq, Structural, Debug)]
pub enum Tier {
    High,
    Medium,
    Low,
}

impl Tier {
    /// The greater, the surer.
    pub open spec fn rank(self) -> int {
        match self {
            Tier::High => 2,
            Tier::Medium => 1,
            Tier::Low => 0,
        }
    }

    /// The tier's name.
    pub open spec fn name(self) -> Seq<char> {
        match self {
            Tier::High => "high"@,
            Tier::Medium => "medium"@,
            Tier::Low => "low"@,
        }
    }

    /// The tier's name.
    pub fn as_str(self) -> (r: &'static str)
        ensures
            r@ == self.name(),
    {
        match self {
            Tier::High => "high",
            Tier::Medium => "medium",
            Tier::Low => "low",
        }
    }

    fn rank_of(self) -> (r: u8)
        ensures
            r == self.rank(),
    {
        match self {
            Tier::High => 2,
            Tier::Medium => 1,
            Tier::Low => 0,
        }
    }
}

/// What functions are looked up by.
pub enum FnKey {
    /// The path.
    Path(Seq<char>),
    /// The name.
    Name(Seq<char>),
    /// The name and the file.
    Local(Seq<char>, Seq<char>),
    /// The name, among functions that other files can see.
    Visible(Seq<char>),
}

/// The function has the key.
pub open spec fn fn_fits(f: FnRowView, key: FnKey) -> bool {
    match key {
        FnKey::Path(p) => f.qualified_name == p,
        FnKey::Name(n) => f.name == n,
        FnKey::Local(n, file) => f.name == n && f.file == file,
        FnKey::Visible(n) => f.name == n && f.visibility != "private"@ && f.visibility
            != "default"@,
    }
}

/// The ids of the functions with the key, in order.
pub open spec fn fns_with(fns: Seq<FnRowView>, key: FnKey) -> Seq<i64>
    decreases fns.len(),
{
    if fns.len() == 0 {
        Seq::empty()
    } else {
        let rest = fns_with(fns.drop_last(), key);
        if fn_fits(fns.last(), key) {
            rest.push(fns.last().id)
        } else {
            rest
        }
    }
}

/// What functions are looked up by, as it is given.
enum Wanted<'a> {
    Path(&'a str),
    Name(&'a str),
    Local(&'a str, &'a str),
    Visible(&'a str),
}

impl<'a> Wanted<'a> {
    spec fn key(&self) -> FnKey {
        match self {
            Wanted::Path(p) => FnKey::Path(p@),
            Wanted::Name(n) => FnKey::Name(n@),
            Wanted::Local(n, f) => FnKey::Local(n@, f@),
            Wanted::Visible(n) => FnKey::Visible(n@),
        }
    }
}

fn row_fits(f: &FnRow, w: &Wanted<'_>) -> (r: bool)
    ensures
        r == fn_fits(f@, w.key()),
{
    match w {
        Wanted::Path(p) => str_eq(&f.qualified_name, p),
        Wanted::Name(n) => str_eq(&f.name, n),
        Wanted::Local(n, file) => str_eq(&f.name, n) && str_eq(&f.file, file),
        Wanted::Visible(n) => str_eq(&f.name, n) && !str_eq(&f.visibility, "private") && !str_eq(
            &f.visibility,
            "default",
        ),
    }
}

fn lookup(fns: &Vec<FnRow>, w: &Wanted<'_>) -> (r: Vec<i64>)
    ensures
        r@ == fns_with(views(fns@), w.key()),
{
    let mut out: Vec<i64> = Vec::new();
    let mut i: usize = 0;
    while i < fns.len()
        invariant
            i <= fns@.len(),
            out@ == fns_with(views(fns@).take(i as int), w.key()),
        decreases fns@.len() - i,
    {
        assert(views(fns@)[i as int] == fns@[i as int]@);
        assert(views(fns@).take(i + 1).drop_last() =~= views(fns@).take(i as int));
        if row_fits(&fns[i], w) {
            out.push(fns[i].id);
        }
        i = i + 1;
    }
    assert(views(fns@).take(i as int) =~= views(fns@));
    out
}

/// The function that a name means: the only one of that name in the same file; else the
/// only one of that name that other files can see, or the first of several where ambiguity
/// is kept.
pub open spec fn named_target(
    fns: Seq<FnRowView>,
    name: Seq<char>,
    file: Seq<char>,
    keep_ambiguous: bool,
) -> Option<(i64, Tier)> {
    let local = fns_with(fns, FnKey::Local(name, file));
    let visible = fns_with(fns, FnKey::Visible(name));
    if local.len() == 1 {
        Some((local[0], Tier::Medium))
    } else if visible.len() == 1 || (keep_ambiguous && visible.len() > 0) {
        Some((visible[0], Tier::Low))
    } else {
        None
    }
}

/// The function that a name means.
pub fn resolve_by_name(fns: &Vec<FnRow>, name: &str, file: &str, keep_ambiguous_as_low: bool) -> (r:
    Option<(i64, Tier)>)
    ensures
        r == named_target(views(fns@), name@, file@, keep_ambiguous_as_low),
{
    let local = lookup(fns, &Wanted::Local(name, file));
    if local.len() == 1 {
        return Some((local[0], Tier::Medium));
    }
    let visible = lookup(fns, &Wanted::Visible(name));
    if visible.len() == 1 || (keep_ambiguous_as_low && visible.len() > 0) {
        return Some((visible[0], Tier::Low));
    }
    None
}

/// The path of a scoped call: as it is written, or under the caller's own type where it
/// starts with `Self::`.
pub open spec fn call_path(text: Seq<char>, module: Seq<char>, caller: Seq<char>) -> Seq<char> {
    match without_prefix(text, "Self::"@) {
        Some(rest) => match owner_path(caller) {
            Some(owner) => owner + "::"@ + rest,
            None => normalized(text, module),
        },
        None => normalized(text, module),
    }
}

/// The first function that a module of the list, from `i` on, has under the name.
pub open spec fn wildcard_target(
    fns: Seq<FnRowView>,
    modules: Seq<Seq<char>>,
    name: Seq<char>,
    i: int,
) -> Option<i64>
    decreases modules.len() - i,
{
    if i < 0 || i >= modules.len() {
        None
    } else {
        let found = fns_with(fns, FnKey::Path(modules[i] + "::"@ + name));
        if found.len() > 0 {
            Some(found[0])
        } else {
            wildcard_target(fns, modules, name, i + 1)
        }
    }
}

/// The function that a name in scope means, by its path or else by the path's last segment.
pub open spec fn scoped_target(fns: Seq<FnRowView>, scope: ScopeMapView, name: Seq<char>) -> Option<
    i64,
> {
    match scoped_path(scope.direct, name) {
        Some(path) => {
            let by_path = fns_with(fns, FnKey::Path(path));
            let by_name = fns_with(fns, FnKey::Name(last_segment(path)));
            if by_path.len() > 0 {
                Some(by_path[0])
            } else if by_name.len() > 0 {
                Some(by_name[0])
            } else {
                None
            }
        },
        None => None,
    }
}

/// The function that a call means, and how sure that is.
pub open spec fn call_target(
    fns: Seq<FnRowView>,
    call: CallSiteView,
    scope: ScopeMapView,
    file: Seq<char>,
    module: Seq<char>,
    caller: Seq<char>,
) -> Option<(i64, Tier)> {
    if has_str(call.text, "::"@) {
        let path = call_path(call.text, module, caller);
        let found = fns_with(fns, FnKey::Path(path));
        if found.len() > 0 {
            Some((found[0], Tier::High))
        } else {
            named_target(fns, last_segment(path), file, call.is_method_style)
        }
    } else {
        match scoped_target(fns, scope, call.text) {
            Some(id) => Some((id, Tier::High)),
            None => match wildcard_target(
                fns,
                key_set::<String>(scope.wildcards),
                call.text,
                0,
            ) {
                Some(id) => Some((id, Tier::High)),
                None => named_target(fns, call.text, file, call.is_method_style),
            },
        }
    }
}

/// The function that a call means, and how sure that is.
pub fn resolve_callee(
    fns: &Vec<FnRow>,
    call: &CallSite,
    scope: &ScopeMap,
    file: &str,
    module_prefix: &str,
    caller: &str,
) -> (r: Option<(i64, Tier)>)
    ensures
        r == call_target(views(fns@), call@, scope@, file@, module_prefix@, caller@),
{
    let text = &call.text;
    if contains(text, "::") {
        let mut path = normalize_path(text, module_prefix);
        if let Some(rest) = strip_prefix(text, "Self::") {
            if let Some(owner) = infer_impl_type(caller) {
                path = concat3(&owner, "::", &rest);
            }
        }
        let found = lookup(fns, &Wanted::Path(&path));
        if found.len() > 0 {
            return Some((found[0], Tier::High));
        }
        let short = last_segment_of(&path);
        return resolve_by_name(fns, &short, file, call.is_method_style);
    }
    if let Some(path) = find_scoped(&scope.direct, text) {
        let found = lookup(fns, &Wanted::Path(&path));
        if found.len() > 0 {
            return Some((found[0], Tier::High));
        }
        let short = last_segment_of(&path);
        let found = lookup(fns, &Wanted::Name(&short));
        if found.len() > 0 {
            return Some((found[0], Tier::High));
        }
    }
    let modules = crate::order::distinct_keys(&scope.wildcards);
    let ghost mv = views(modules@);
    assert(mv.len() == modules@.len());
    let mut i: usize = 0;
    while i < modules.len()
        invariant
            mv == views(modules@),
            mv.len() == modules@.len(),
            i <= modules@.len(),
            wildcard_target(views(fns@), mv, text@, 0) == wildcard_target(
                views(fns@),
                mv,
                text@,
                i as int,
            ),
            mv == key_set::<String>(scope@.wildcards),
            text@ == call@.text,
            !has_str(call@.text, "::"@),
            scoped_target(views(fns@), scope@, text@) is None,
        decreases modules@.len() - i,
    {
        assert(mv[i as int] == modules@[i as int]@);
        let path = concat3(&modules[i], "::", text);
        let found = lookup(fns, &Wanted::Path(&path));
        if found.len() > 0 {
            return Some((found[0], Tier::High));
        }
        i = i + 1;
    }
    resolve_by_name(fns, text, file, call.is_method_style)
}

// ---------------------------------------------------------------------------
// Edges
// ---------------------------------------------------------------------------

/// A resolved call.
#[derive(Clone, Copy, Debug)]
pub struct ResolvedEdge {
    pub from_id: i64,
    pub to_id: i64,
    pub tier: Tier,
}

impl DeepView for ResolvedEdge {
    type V = ResolvedEdge;

    open spec fn deep_view(&self) -> ResolvedEdge {
        *self
    }
}

impl Ranked for ResolvedEdge {
    /// Edges stand in the order of their ends; between the same ends, the surer comes first.
    open spec fn before(a: ResolvedEdge, b: ResolvedEdge) -> bool {
        if a.from_id != b.from_id {
            a.from_id < b.from_id
        } else if a.to_id != b.to_id {
            a.to_id < b.to_id
        } else {
            a.tier.rank() > b.tier.rank()
        }
    }

    fn precedes(&self, other: &ResolvedEdge) -> (r: bool) {
        if self.from_id != other.from_id {
            self.from_id < other.from_id
        } else if self.to_id != other.to_id {
            self.to_id < other.to_id
        } else {
            self.tier.rank_of() > other.tier.rank_of()
        }
    }

    proof fn weak_order(a: ResolvedEdge, b: ResolvedEdge, c: ResolvedEdge) {
    }
}

/// The edges join the same ends.
pub open spec fn same_ends(a: ResolvedEdge, b: ResolvedEdge) -> bool {
    a.from_id == b.from_id && a.to_id == b.to_id
}

/// Of the first `n` edges, the first of each run between the same ends.
pub open spec fn run_starts(s: Seq<ResolvedEdge>, n: int) -> Seq<ResolvedEdge>
    decreases n,
{
    if n <= 0 {
        Seq::empty()
    } else {
        let rest = run_starts(s, n - 1);
        if n > 1 && same_ends(s[n - 2], s[n - 1]) {
            rest
        } else {
            rest.push(s[n - 1])
        }
    }
}

/// The edges, one for each pair of ends: the surest between them.
pub open spec fn best_edges(edges: Seq<ResolvedEdge>) -> Seq<ResolvedEdge> {
    let s = stable_sorted::<ResolvedEdge>(edges);
    run_starts(s, s.len() as int)
}

/// Keep one edge for each pair of ends: the surest between them.
pub fn dedup_edges(edges: Vec<ResolvedEdge>) -> (r: Vec<ResolvedEdge>)
    ensures
        r@ == best_edges(edges@),
{
    let ghost given = edges@;
    assert(views(given) =~= given);
    let sorted = stable_sort(edges);
    let ghost s = sorted@;
    assert(views(s) =~= s);
    let mut out: Vec<ResolvedEdge> = Vec::new();
    let mut n: usize = 0;
    while n < sorted.len()
        invariant
            s == sorted@,
            n <= sorted@.len(),
            out@ == run_starts(s, n as int),
        decreases sorted@.len() - n,
    {
        let e = sorted[n];
        let again = if n > 0 {
            let prev = sorted[n - 1];
            prev.from_id == e.from_id && prev.to_id == e.to_id
        } else {
            false
        };
        if !again {
            out.push(e);
        }
        n = n + 1;
    }
    out
}

proof fn run_starts_are_best(s: Seq<ResolvedEdge>, n: int)
    requires
        0 <= n <= s.len(),
        crate::order::in_order::<ResolvedEdge>(s),
    ensures
        forall|k: int|
            0 <= k < n ==> exists|j: int|
                0 <= j < run_starts(s, n).len() && same_ends(
                    #[trigger] run_starts(s, n)[j],
                    #[trigger] s[k],
                ) && run_starts(s, n)[j].tier.rank() >= s[k].tier.rank(),
        n > 0 ==> run_starts(s, n).len() > 0 && same_ends(run_starts(s, n).last(), s[n - 1])
            && run_starts(s, n).last().tier.rank() >= s[n - 1].tier.rank(),
        forall|i: int, j: int|
            0 <= i < j < run_starts(s, n).len() ==> !same_ends(
                #[trigger] run_starts(s, n)[i],
                #[trigger] run_starts(s, n)[j],
            ),
        forall|i: int|
            0 <= i < run_starts(s, n).len() ==> !ResolvedEdge::before(
                s[n - 1],
                #[trigger] run_starts(s, n)[i],
            ),
    decreases n,
{
    if n > 0 {
        run_starts_are_best(s, n - 1);
        let before = run_starts(s, n - 1);
        let after = run_starts(s, n);
        if n > 1 {
            assert(!ResolvedEdge::before(s[n - 1], s[n - 2]));
        }
        assert forall|i: int| 0 <= i < after.len() implies !ResolvedEdge::before(
            s[n - 1],
            #[trigger] after[i],
        ) by {
            if i < before.len() {
                assert(!ResolvedEdge::before(s[n - 2], before[i]));
                ResolvedEdge::weak_order(before[i], s[n - 2], s[n - 1]);
            }
        }
        assert forall|k: int| 0 <= k < n implies exists|j: int|
            0 <= j < after.len() && same_ends(#[trigger] after[j], #[trigger] s[k])
                && after[j].tier.rank() >= s[k].tier.rank() by {
            if k < n - 1 {
                let j = choose|j: int|
                    0 <= j < before.len() && same_ends(#[trigger] before[j], s[k])
                        && before[j].tier.rank() >= s[k].tier.rank();
                assert(after[j] == before[j]);
                assert(same_ends(after[j], s[k]));
            } else {
                assert(same_ends(after[after.len() - 1], s[k]));
            }
        }
        if !(n > 1 && same_ends(s[n - 2], s[n - 1])) {
            assert forall|i: int, j: int| 0 <= i < j < after.len() implies !same_ends(
                #[trigger] after[i],
                #[trigger] after[j],
            ) by {
                if j == before.len() {
                    assert(after[j] == s[n - 1]);
                    assert(after[i] == before[i]);
                    assert(!ResolvedEdge::before(s[n - 2], before[i]));
                    assert(!ResolvedEdge::before(s[n - 1], s[n - 2]));
                } else {
                    assert(after[i] == before[i] && after[j] == before[j]);
                }
            }
        }
    }
}

/// Every call between two functions is kept once, with the surest resolution of all the
/// calls between them.
pub proof fn best_edges_are_best(edges: Seq<ResolvedEdge>)
    ensures
        forall|i: int, j: int|
            0 <= i < j < best_edges(edges).len() ==> !same_ends(
                #[trigger] best_edges(edges)[i],
                #[trigger] best_edges(edges)[j],
            ),
        forall|e: ResolvedEdge| #[trigger]
            edges.contains(e) ==> exists|j: int|
                0 <= j < best_edges(edges).len() && same_ends(#[trigger] best_edges(edges)[j], e)
                    && best_edges(edges)[j].tier.rank() >= e.tier.rank(),
{
    broadcast use vstd::seq_lib::group_to_multiset_ensures;

    let s = stable_sorted::<ResolvedEdge>(edges);
    crate::order::sorting_orders::<ResolvedEdge>(edges);
    run_starts_are_best(s, s.len() as int);
    assert forall|e: ResolvedEdge| #[trigger] edges.contains(e) implies exists|j: int|
        0 <= j < best_edges(edges).len() && same_ends(#[trigger] best_edges(edges)[j], e)
            && best_edges(edges)[j].tier.rank() >= e.tier.rank() by {
        assert(edges.to_multiset().count(e) > 0);
        assert(s.to_multiset().count(e) > 0);
        assert(s.contains(e));
        let k = choose|k: int| 0 <= k < s.len() && s[k] == e;
        let j = choose|j: int|
            0 <= j < run_starts(s, s.len() as int).len() && same_ends(
                #[trigger] run_starts(s, s.len() as int)[j],
                s[k],
            ) && run_starts(s, s.len() as int)[j].tier.rank() >= s[k].tier.rank();
        assert(same_ends(best_edges(edges)[j], e));
    }
}

/// `edges` and those that the first `n` calls of a file resolve to. A call within no
/// function, one that resolves to nothing, and one of a function to itself are left out.
pub open spec fn with_resolved(
    edges: Seq<ResolvedEdge>,
    fns: Seq<FnRowView>,
    calls: Seq<CallSiteView>,
    scope: ScopeMapView,
    file: Seq<char>,
    nodes: Seq<FileNodeView>,
    n: int,
) -> Seq<ResolvedEdge>
    decreases n,
{
    if n <= 0 {
        edges
    } else {
        let rest = with_resolved(edges, fns, calls, scope, file, nodes, n - 1);
        let call = calls[n - 1];
        match innermost(nodes, call.line as int, nodes.len() as int) {
            Some(c) => match call_target(
                fns,
                call,
                scope,
                file,
                path_of_module(file),
                nodes[c].qualified_name,
            ) {
                Some(t) => if nodes[c].id == t.0 {
                    rest
                } else {
                    rest.push(ResolvedEdge { from_id: nodes[c].id, to_id: t.0, tier: t.1 })
                },
                None => rest,
            },
            None => rest,
        }
    }
}

/// Adds the edges that the calls of a file resolve to.
pub fn resolve_calls(
    edges: &mut Vec<ResolvedEdge>,
    fns: &Vec<FnRow>,
    calls: &Vec<CallSite>,
    scope: &ScopeMap,
    file: &str,
    nodes: &Vec<FileNode>,
)
    ensures
        final(edges)@ == with_resolved(
            old(edges)@,
            views(fns@),
            views(calls@),
            scope@,
            file@,
            views(nodes@),
            calls@.len() as int,
        ),
{
    let module = module_prefix_from_file(file);
    let ghost start = edges@;
    let mut n: usize = 0;
    assert(views(nodes@).len() == nodes@.len());
    while n < calls.len()
        invariant
            module@ == path_of_module(file@),
            views(nodes@).len() == nodes@.len(),
            n <= calls@.len(),
            edges@ == with_resolved(
                start,
                views(fns@),
                views(calls@),
                scope@,
                file@,
                views(nodes@),
                n as int,
            ),
        decreases calls@.len() - n,
    {
        assert(views(calls@)[n as int] == calls@[n as int]@);
        if let Some(c) = find_enclosing_fn(nodes, calls[n].line) {
            assert(views(nodes@)[c as int] == nodes@[c as int]@);
            if let Some(t) = resolve_callee(
                fns,
                &calls[n],
                scope,
                file,
                &module,
                &nodes[c].qualified_name,
            ) {
                if nodes[c].id != t.0 {
                    edges.push(ResolvedEdge { from_id: nodes[c].id, to_id: t.0, tier: t.1 });
                }
            }
        }
        n = n + 1;
    }
}

/// A Rust file of the code graph: its path, its source and its symbols.
#[derive(Debug)]
pub struct FileInput {
    pub file: String,
    pub source: String,
    pub nodes: Vec<FileNode>,
}

/// What a [`FileInput`] holds.
#[verifier::ext_equal]
pub struct FileInputView {
    pub file: Seq<char>,
    pub source: Seq<char>,
    pub nodes: Seq<FileNodeView>,
}

impl DeepView for FileInput {
    type V = FileInputView;

    open spec fn deep_view(&self) -> FileInputView {
        FileInputView {
            file: self.file.deep_view(),
            source: self.source.deep_view(),
            nodes: views(self.nodes@),
        }
    }
}

impl View for FileInput {
    type V = FileInputView;

    open spec fn view(&self) -> FileInputView {
        self.deep_view()
    }
}

/// `edges` and those that the calls of a file resolve to. A file without symbols, or one
/// that cannot be parsed, adds none.
pub open spec fn with_file(
    edges: Seq<ResolvedEdge>,
    fns: Seq<FnRowView>,
    f: FileInputView,
) -> Seq<ResolvedEdge> {
    match (
        syntax_tree("rust"@, f.source),
        query_hits("rust"@, USE_QUERY@, f.source),
        query_hits("rust"@, CALL_QUERY@, f.source),
    ) {
        (Some(tree), Some(uses), Some(found)) => if f.nodes.len() == 0 {
            edges
        } else {
            let calls = calls_in(tree, found, f.source, found.len() as int);
            with_resolved(
                edges,
                fns,
                calls,
                scope_of(tree, uses, f.source, path_of_module(f.file), uses.len() as int),
                f.file,
                f.nodes,
                calls.len() as int,
            )
        },
        _ => edges,
    }
}

/// The edges that the calls of the first `n` files resolve to.
pub open spec fn file_edges(fns: Seq<FnRowView>, files: Seq<FileInputView>, n: int) -> Seq<
    ResolvedEdge,
>
    decreases n,
{
    if n <= 0 {
        Seq::empty()
    } else {
        with_file(file_edges(fns, files, n - 1), fns, files[n - 1])
    }
}

fn resolve_file(edges: &mut Vec<ResolvedEdge>, fns: &Vec<FnRow>, f: &FileInput)
    ensures
        final(edges)@ == with_file(old(edges)@, views(fns@), f@),
{
    assert(views(f.nodes@).len() == f.nodes@.len());
    if f.nodes.len() == 0 {
        return;
    }
    let uses = match parse_and_query(Language::Rust, USE_QUERY, &f.source) {
        Ok(p) => p,
        Err(_) => {
            return;
        },
    };
    let found = match parse_and_query(Language::Rust, CALL_QUERY, &f.source) {
        Ok(p) => p,
        Err(_) => {
            return;
        },
    };
    assert(views(uses.hits@).len() == uses.hits@.len());
    assert(views(found.hits@).len() == found.hits@.len());
    let module = module_prefix_from_file(&f.file);
    let scope = build_scope_map(&uses.nodes, &uses.hits, &f.source, &module);
    let calls = extract_calls(&found.nodes, &found.hits, &f.source);
    assert(views(calls@).len() == calls@.len());
    resolve_calls(edges, fns, &calls, &scope, &f.file, &f.nodes);
}

/// Resolve the calls of Rust files to the functions that they mean: one edge for each pair
/// of functions, with the surest resolution between them. Gives also how many calls were
/// resolved.
pub fn resolve(fns: &Vec<FnRow>, files: &Vec<FileInput>) -> (r: (Vec<ResolvedEdge>, usize))
    ensures
        r.0@ == best_edges(file_edges(views(fns@), views(files@), files@.len() as int)),
        r.1 == file_edges(views(fns@), views(files@), files@.len() as int).len(),
{
    let mut edges: Vec<ResolvedEdge> = Vec::new();
    let mut n: usize = 0;
    while n < files.len()
        invariant
            n <= files@.len(),
            edges@ == file_edges(views(fns@), views(files@), n as int),
        decreases files@.len() - n,
    {
        assert(views(files@)[n as int] == files@[n as int]@);
        resolve_file(&mut edges, fns, &files[n]);
        n = n + 1;
    }
    let sites: usize = edges.len();
    (dedup_edges(edges), sites)
}

// ---------------------------------------------------------------------------
// What calls mean
// ---------------------------------------------------------------------------

/// A lookup lists the functions with the key and no others: its first is the first of them,
/// and it has one entry where there is one of them.
proof fn lookups_find(fns: Seq<FnRowView>, key: FnKey)
    ensures
        fns_with(fns, key).len() > 0 <==> exists|i: int|
            0 <= i < fns.len() && fn_fits(#[trigger] fns[i], key),
        fns_with(fns, key).len() > 0 ==> exists|i: int|
            0 <= i < fns.len() && fn_fits(#[trigger] fns[i], key) && fns[i].id == fns_with(
                fns,
                key,
            )[0] && forall|j: int| 0 <= j < i ==> !fn_fits(#[trigger] fns[j], key),
        fns_with(fns, key).len() == 1 <==> exists|i: int|
            0 <= i < fns.len() && fn_fits(#[trigger] fns[i], key) && forall|j: int|
                0 <= j < fns.len() && j != i ==> !fn_fits(#[trigger] fns[j], key),
    decreases fns.len(),
{
    if fns.len() > 0 {
        let rest = fns.drop_last();
        lookups_find(rest, key);
        let last = fns.len() - 1;
        let all = fns_with(fns, key);
        let before = fns_with(rest, key);
        assert forall|i: int| 0 <= i < rest.len() implies rest[i] == #[trigger] fns[i] by {}
        if before.len() > 0 {
            let i = choose|i: int|
                0 <= i < rest.len() && fn_fits(#[trigger] rest[i], key) && rest[i].id == before[0]
                    && forall|j: int| 0 <= j < i ==> !fn_fits(#[trigger] rest[j], key);
            assert(fn_fits(fns[i], key) && fns[i].id == all[0]);
            assert forall|j: int| 0 <= j < i implies !fn_fits(#[trigger] fns[j], key) by {
                assert(rest[j] == fns[j]);
            }
            if fn_fits(fns[last], key) {
                assert(all.len() >= 2);
                assert forall|k: int| 0 <= k < fns.len() && fn_fits(#[trigger] fns[k], key) implies exists|
                    j: int,
                | 0 <= j < fns.len() && j != k && fn_fits(#[trigger] fns[j], key) by {
                    if k == last {
                        assert(fn_fits(fns[i], key));
                    } else {
                        assert(fn_fits(fns[last], key));
                    }
                }
            } else if before.len() == 1 {
                let o = choose|o: int|
                    0 <= o < rest.len() && fn_fits(#[trigger] rest[o], key) && forall|j: int|
                        0 <= j < rest.len() && j != o ==> !fn_fits(#[trigger] rest[j], key);
                assert(fn_fits(fns[o], key));
                assert forall|j: int| 0 <= j < fns.len() && j != o implies !fn_fits(
                    #[trigger] fns[j],
                    key,
                ) by {
                    if j < last {
                        assert(rest[j] == fns[j]);
                    }
                }
            } else {
                assert forall|k: int| 0 <= k < fns.len() && fn_fits(#[trigger] fns[k], key) && (
                forall|j: int| 0 <= j < fns.len() && j != k ==> !fn_fits(#[trigger] fns[j], key)) implies false by {
                    assert(fn_fits(rest[k], key));
                    assert forall|j: int| 0 <= j < rest.len() && j != k implies !fn_fits(
                        #[trigger] rest[j],
                        key,
                    ) by {
                        assert(rest[j] == fns[j]);
                    }
                }
            }
        } else {
            assert forall|j: int| 0 <= j < last implies !fn_fits(#[trigger] fns[j], key) by {
                assert(rest[j] == fns[j]);
            }
            if fn_fits(fns[last], key) {
                assert(all[0] == fns[last].id);
                assert forall|j: int| 0 <= j < fns.len() && j != last implies !fn_fits(
                    #[trigger] fns[j],
                    key,
                ) by {}
            }
        }
    }
}

/// The entry of a name that stands last is the one that counts.
proof fn last_binding_counts(direct: Seq<(Seq<char>, Seq<char>)>, k: int, name: Seq<char>)
    requires
        0 <= k < direct.len(),
        direct[k].0 == name,
        forall|j: int| k < j < direct.len() ==> (#[trigger] direct[j]).0 != name,
    ensures
        scoped_path(direct, name) == Some(direct[k].1),
    decreases direct.len(),
{
    if k < direct.len() - 1 {
        assert(direct[direct.len() - 1].0 != name);
        let rest = direct.drop_last();
        assert(rest[k] == direct[k]);
        assert forall|j: int| k < j < rest.len() implies (#[trigger] rest[j]).0 != name by {
            assert(rest[j] == direct[j]);
        }
        last_binding_counts(rest, k, name);
    }
}

proof fn unbound_names_have_no_path(direct: Seq<(Seq<char>, Seq<char>)>, name: Seq<char>)
    requires
        forall|j: int| 0 <= j < direct.len() ==> (#[trigger] direct[j]).0 != name,
    ensures
        scoped_path(direct, name) is None,
    decreases direct.len(),
{
    if direct.len() > 0 {
        assert(direct[direct.len() - 1].0 != name);
        let rest = direct.drop_last();
        assert forall|j: int| 0 <= j < rest.len() implies (#[trigger] rest[j]).0 != name by {
            assert(rest[j] == direct[j]);
        }
        unbound_names_have_no_path(rest, name);
    }
}

/// A call of a name that a declaration binds to a path means, with high confidence, the first
/// function with exactly that path, where there is one. The binding that stands last counts.
pub proof fn imports_decide(
    fns: Seq<FnRowView>,
    call: CallSiteView,
    scope: ScopeMapView,
    file: Seq<char>,
    module: Seq<char>,
    caller: Seq<char>,
    k: int,
    i: int,
)
    requires
        !has_str(call.text, "::"@),
        0 <= k < scope.direct.len(),
        scope.direct[k].0 == call.text,
        forall|j: int| k < j < scope.direct.len() ==> (#[trigger] scope.direct[j]).0 != call.text,
        0 <= i < fns.len(),
        fns[i].qualified_name == scope.direct[k].1,
        forall|j: int| 0 <= j < i ==> (#[trigger] fns[j]).qualified_name != scope.direct[k].1,
    ensures
        call_target(fns, call, scope, file, module, caller) == Some((fns[i].id, Tier::High)),
{
    last_binding_counts(scope.direct, k, call.text);
    let key = FnKey::Path(scope.direct[k].1);
    lookups_find(fns, key);
    assert(fn_fits(fns[i], key));
    let f = choose|f: int|
        0 <= f < fns.len() && fn_fits(#[trigger] fns[f], key) && fns[f].id == fns_with(fns, key)[0]
            && forall|j: int| 0 <= j < f ==> !fn_fits(#[trigger] fns[j], key);
    if f < i {
        assert(fns[f].qualified_name != scope.direct[k].1);
    } else if i < f {
        assert(!fn_fits(fns[i], key));
    }
}

/// Where no function has the path that a name is bound to, the call means, still with high
/// confidence, the first function whose name is the path's last segment.
pub proof fn imports_fall_back_to_names(
    fns: Seq<FnRowView>,
    call: CallSiteView,
    scope: ScopeMapView,
    file: Seq<char>,
    module: Seq<char>,
    caller: Seq<char>,
    k: int,
    i: int,
)
    requires
        !has_str(call.text, "::"@),
        0 <= k < scope.direct.len(),
        scope.direct[k].0 == call.text,
        forall|j: int| k < j < scope.direct.len() ==> (#[trigger] scope.direct[j]).0 != call.text,
        forall|j: int|
            0 <= j < fns.len() ==> (#[trigger] fns[j]).qualified_name != scope.direct[k].1,
        0 <= i < fns.len(),
        fns[i].name == last_segment(scope.direct[k].1),
        forall|j: int|
            0 <= j < i ==> (#[trigger] fns[j]).name != last_segment(scope.direct[k].1),
    ensures
        call_target(fns, call, scope, file, module, caller) == Some((fns[i].id, Tier::High)),
{
    last_binding_counts(scope.direct, k, call.text);
    let path = scope.direct[k].1;
    lookups_find(fns, FnKey::Path(path));
    let key = FnKey::Name(last_segment(path));
    lookups_find(fns, key);
    assert(fn_fits(fns[i], key));
    let f = choose|f: int|
        0 <= f < fns.len() && fn_fits(#[trigger] fns[f], key) && fns[f].id == fns_with(fns, key)[0]
            && forall|j: int| 0 <= j < f ==> !fn_fits(#[trigger] fns[j], key);
    if f < i {
        assert(fns[f].name != last_segment(path));
    } else if i < f {
        assert(!fn_fits(fns[i], key));
    }
}

/// A call by a path means, with high confidence, the first function with that path as it is
/// seen from the crate root, where there is one.
pub proof fn paths_decide(
    fns: Seq<FnRowView>,
    call: CallSiteView,
    scope: ScopeMapView,
    file: Seq<char>,
    module: Seq<char>,
    caller: Seq<char>,
    i: int,
)
    requires
        has_str(call.text, "::"@),
        !begins_with(call.text, "Self::"@),
        0 <= i < fns.len(),
        fns[i].qualified_name == normalized(call.text, module),
        forall|j: int|
            0 <= j < i ==> (#[trigger] fns[j]).qualified_name != normalized(call.text, module),
    ensures
        call_target(fns, call, scope, file, module, caller) == Some((fns[i].id, Tier::High)),
{
    let key = FnKey::Path(normalized(call.text, module));
    lookups_find(fns, key);
    assert(fn_fits(fns[i], key));
    let f = choose|f: int|
        0 <= f < fns.len() && fn_fits(#[trigger] fns[f], key) && fns[f].id == fns_with(fns, key)[0]
            && forall|j: int| 0 <= j < f ==> !fn_fits(#[trigger] fns[j], key);
    if f < i {
        assert(fns[f].qualified_name != normalized(call.text, module));
    } else if i < f {
        assert(!fn_fits(fns[i], key));
    }
}

/// `Self::name` within a method means the function of that name of the method's own type.
pub proof fn own_type_decides(
    fns: Seq<FnRowView>,
    call: CallSiteView,
    scope: ScopeMapView,
    file: Seq<char>,
    module: Seq<char>,
    owner: Seq<char>,
    method: Seq<char>,
    name: Seq<char>,
    i: int,
)
    requires
        call.text == "Self::"@ + name,
        owner_path(owner + "::"@ + method) == Some(owner),
        0 <= i < fns.len(),
        fns[i].qualified_name == owner + "::"@ + name,
        forall|j: int|
            0 <= j < i ==> (#[trigger] fns[j]).qualified_name != owner + "::"@ + name,
    ensures
        call_target(fns, call, scope, file, module, owner + "::"@ + method) == Some(
            (fns[i].id, Tier::High),
        ),
{
    reveal_strlit("Self::");
    reveal_strlit("::");
    let text = call.text;
    assert(text.take(6) =~= "Self::"@);
    assert(text.skip(6) =~= name);
    assert(text.subrange(4, 6) =~= "::"@);
    assert(crate::text::occurs_at(text, "::"@, 4));
    let key = FnKey::Path(owner + "::"@ + name);
    lookups_find(fns, key);
    assert(fn_fits(fns[i], key));
    let f = choose|f: int|
        0 <= f < fns.len() && fn_fits(#[trigger] fns[f], key) && fns[f].id == fns_with(fns, key)[0]
            && forall|j: int| 0 <= j < f ==> !fn_fits(#[trigger] fns[j], key);
    if f < i {
        assert(fns[f].qualified_name != owner + "::"@ + name);
    } else if i < f {
        assert(!fn_fits(fns[i], key));
    }
}

proof fn wildcards_are_searched(fns: Seq<FnRowView>, modules: Seq<Seq<char>>, name: Seq<char>, i: int)
    requires
        0 <= i <= modules.len(),
    ensures
        match wildcard_target(fns, modules, name, i) {
            Some(id) => exists|m: int, f: int|
                i <= m < modules.len() && 0 <= f < fns.len() && (#[trigger] fns[f]).id == id
                    && fns[f].qualified_name == (#[trigger] modules[m]) + "::"@ + name,
            None => forall|m: int, f: int|
                i <= m < modules.len() && 0 <= f < fns.len() ==> (
                #[trigger] fns[f]).qualified_name != (#[trigger] modules[m]) + "::"@ + name,
        },
    decreases modules.len() - i,
{
    if i < modules.len() {
        let key = FnKey::Path(modules[i] + "::"@ + name);
        lookups_find(fns, key);
        wildcards_are_searched(fns, modules, name, i + 1);
        if fns_with(fns, key).len() > 0 {
            let f = choose|f: int|
                0 <= f < fns.len() && fn_fits(#[trigger] fns[f], key) && fns[f].id == fns_with(
                    fns,
                    key,
                )[0] && forall|j: int| 0 <= j < f ==> !fn_fits(#[trigger] fns[j], key);
            assert(fns[f].qualified_name == modules[i] + "::"@ + name);
        } else if wildcard_target(fns, modules, name, i + 1) is None {
            assert forall|m: int, f: int| i <= m < modules.len() && 0 <= f < fns.len() implies (
            #[trigger] fns[f]).qualified_name != (#[trigger] modules[m]) + "::"@ + name by {
                if m == i {
                    assert(!fn_fits(fns[f], key));
                }
            }
        }
    }
}

/// A call of a name that no declaration binds means, with high confidence, a function of that
/// name in a module that everything is taken from, where there is one.
pub proof fn wildcards_decide(
    fns: Seq<FnRowView>,
    call: CallSiteView,
    scope: ScopeMapView,
    file: Seq<char>,
    module: Seq<char>,
    caller: Seq<char>,
    w: int,
    i: int,
)
    requires
        !has_str(call.text, "::"@),
        forall|j: int| 0 <= j < scope.direct.len() ==> (#[trigger] scope.direct[j]).0 != call.text,
        0 <= w < scope.wildcards.len(),
        0 <= i < fns.len(),
        fns[i].qualified_name == scope.wildcards[w] + "::"@ + call.text,
    ensures
        call_target(fns, call, scope, file, module, caller) matches Some(t) && t.1 == Tier::High
            && exists|v: int, f: int|
            0 <= v < scope.wildcards.len() && 0 <= f < fns.len() && (#[trigger] fns[f]).id == t.0
                && fns[f].qualified_name == (#[trigger] scope.wildcards[v]) + "::"@ + call.text,
{
    unbound_names_have_no_path(scope.direct, call.text);
    let modules = key_set::<String>(scope.wildcards);
    crate::order::text_keys_stay(scope.wildcards);
    wildcards_are_searched(fns, modules, call.text, 0);
    assert(scope.wildcards.contains(scope.wildcards[w]));
    let m = choose|m: int| 0 <= m < modules.len() && modules[m] == scope.wildcards[w];
    assert(modules[m] + "::"@ + call.text == fns[i].qualified_name);
    let id = wildcard_target(fns, modules, call.text, 0)->0;
    let (v, f) = choose|v: int, f: int|
        0 <= v < modules.len() && 0 <= f < fns.len() && (#[trigger] fns[f]).id == id
            && fns[f].qualified_name == (#[trigger] modules[v]) + "::"@ + call.text;
    assert(modules.contains(modules[v]));
    assert(scope.wildcards.contains(modules[v]));
    let u = choose|u: int| 0 <= u < scope.wildcards.len() && scope.wildcards[u] == modules[v];
    assert(fns[f].qualified_name == scope.wildcards[u] + "::"@ + call.text);
}

/// What a name means where nothing else tells: with medium confidence the function of that
/// name in the same file, if it is the only one there; else with low confidence the function of
/// that name that is neither private nor without a visibility of its own, if it is the only
/// one, or the first of several for a method; else nothing.
pub proof fn names_decide(
    fns: Seq<FnRowView>,
    name: Seq<char>,
    file: Seq<char>,
    method: bool,
    i: int,
)
    requires
        0 <= i < fns.len(),
        fns[i].name == name,
    ensures
        fns[i].file == file && (forall|j: int|
            0 <= j < fns.len() && j != i && (#[trigger] fns[j]).name == name ==> fns[j].file
                != file) ==> named_target(fns, name, file, method) == Some(
            (fns[i].id, Tier::Medium),
        ),
        (forall|j: int|
            0 <= j < fns.len() && (#[trigger] fns[j]).name == name ==> fns[j].file != file)
            && fns[i].visibility != "private"@ && fns[i].visibility != "default"@ && (forall|
            j: int,
        |
            0 <= j < fns.len() && j != i && (#[trigger] fns[j]).name == name ==> fns[j].visibility
                == "private"@ || fns[j].visibility == "default"@) ==> named_target(
            fns,
            name,
            file,
            method,
        ) == Some((fns[i].id, Tier::Low)),
        (forall|j: int|
            0 <= j < fns.len() && (#[trigger] fns[j]).name == name ==> fns[j].file != file)
            && fns[i].visibility != "private"@ && fns[i].visibility != "default"@ && (exists|
            j: int,
        |
            0 <= j < fns.len() && j != i && (#[trigger] fns[j]).name == name && fns[j].visibility
                != "private"@ && fns[j].visibility != "default"@) ==> named_target(
            fns,
            name,
            file,
            false,
        ) is None && (named_target(fns, name, file, true) matches Some(t) && t.1 == Tier::Low),
{
    let local = FnKey::Local(name, file);
    let visible = FnKey::Visible(name);
    lookups_find(fns, local);
    lookups_find(fns, visible);
    let locals = fns_with(fns, local);
    let seen = fns_with(fns, visible);
    if locals.len() > 0 {
        let f = choose|f: int|
            0 <= f < fns.len() && fn_fits(#[trigger] fns[f], local) && fns[f].id == locals[0]
                && forall|j: int| 0 <= j < f ==> !fn_fits(#[trigger] fns[j], local);
        assert(fns[f].name == name && fns[f].file == file);
    }
    if seen.len() > 0 {
        let f = choose|f: int|
            0 <= f < fns.len() && fn_fits(#[trigger] fns[f], visible) && fns[f].id == seen[0]
                && forall|j: int| 0 <= j < f ==> !fn_fits(#[trigger] fns[j], visible);
        assert(fns[f].name == name);
    }
    if fns[i].file == file && (forall|j: int|
        0 <= j < fns.len() && j != i && (#[trigger] fns[j]).name == name ==> fns[j].file != file) {
        assert(fn_fits(fns[i], local));
        assert forall|j: int| 0 <= j < fns.len() && j != i implies !fn_fits(#[trigger] fns[j], local) by {}
        assert(locals.len() == 1);
    }
    if fns[i].visibility != "private"@ && fns[i].visibility != "default"@ {
        assert(fn_fits(fns[i], visible));
        if forall|j: int|
            0 <= j < fns.len() && j != i && (#[trigger] fns[j]).name == name ==> fns[j].visibility
                == "private"@ || fns[j].visibility == "default"@ {
            assert forall|j: int| 0 <= j < fns.len() && j != i implies !fn_fits(
                #[trigger] fns[j],
                visible,
            ) by {}
            assert(seen.len() == 1);
        } else {
            let j = choose|j: int|
                0 <= j < fns.len() && j != i && (#[trigger] fns[j]).name == name
                    && fns[j].visibility != "private"@ && fns[j].visibility != "default"@;
            assert(fn_fits(fns[j], visible));
            assert(seen.len() != 1);
        }
    }
}

/// A function that a name means has that name. It stands in the same file where the confidence
/// is medium; other files can see it where the confidence is low; and it is never high.
pub proof fn named_functions_fit(
    fns: Seq<FnRowView>,
    name: Seq<char>,
    file: Seq<char>,
    method: bool,
)
    ensures
        named_target(fns, name, file, method) matches Some(t) ==> t.1 != Tier::High && exists|f: int|
            0 <= f < fns.len() && (#[trigger] fns[f]).id == t.0 && fns[f].name == name && (t.1
                == Tier::Medium ==> fns[f].file == file) && (t.1 == Tier::Low
                ==> fns[f].visibility != "private"@ && fns[f].visibility != "default"@),
{
    let local = FnKey::Local(name, file);
    let visible = FnKey::Visible(name);
    lookups_find(fns, local);
    lookups_find(fns, visible);
    if fns_with(fns, local).len() == 1 {
        let f = choose|f: int|
            0 <= f < fns.len() && fn_fits(#[trigger] fns[f], local) && fns[f].id == fns_with(
                fns,
                local,
            )[0] && forall|j: int| 0 <= j < f ==> !fn_fits(#[trigger] fns[j], local);
        assert(fns[f].name == name);
    } else if fns_with(fns, visible).len() > 0 {
        let f = choose|f: int|
            0 <= f < fns.len() && fn_fits(#[trigger] fns[f], visible) && fns[f].id == fns_with(
                fns,
                visible,
            )[0] && forall|j: int| 0 <= j < f ==> !fn_fits(#[trigger] fns[j], visible);
        assert(fns[f].name == name);
    }
}

/// A function that a call by a path resolves to has that path where the confidence is high,
/// and else the path's last segment as its name.
pub proof fn path_targets_fit(
    fns: Seq<FnRowView>,
    call: CallSiteView,
    scope: ScopeMapView,
    file: Seq<char>,
    module: Seq<char>,
    caller: Seq<char>,
)
    requires
        has_str(call.text, "::"@),
    ensures
        call_target(fns, call, scope, file, module, caller) matches Some(t) ==> exists|f: int|
            0 <= f < fns.len() && (#[trigger] fns[f]).id == t.0 && if t.1 == Tier::High {
                fns[f].qualified_name == call_path(call.text, module, caller)
            } else {
                fns[f].name == last_segment(call_path(call.text, module, caller)) && (t.1
                    == Tier::Medium ==> fns[f].file == file)
            },
{
    let path = call_path(call.text, module, caller);
    let key = FnKey::Path(path);
    lookups_find(fns, key);
    if fns_with(fns, key).len() > 0 {
        let f = choose|f: int|
            0 <= f < fns.len() && fn_fits(#[trigger] fns[f], key) && fns[f].id == fns_with(
                fns,
                key,
            )[0] && forall|j: int| 0 <= j < f ==> !fn_fits(#[trigger] fns[j], key);
        assert(fns[f].qualified_name == path);
    } else {
        named_functions_fit(fns, last_segment(path), file, call.is_method_style);
    }
}

/// A function that a call by a name resolves to fits the call: with high confidence it has the
/// path that the name is bound to, or that path's last segment as its name, or the path of the
/// name in a module that everything is taken from; and else it has the name.
pub proof fn name_targets_fit(
    fns: Seq<FnRowView>,
    call: CallSiteView,
    scope: ScopeMapView,
    file: Seq<char>,
    module: Seq<char>,
    caller: Seq<char>,
)
    requires
        !has_str(call.text, "::"@),
    ensures
        call_target(fns, call, scope, file, module, caller) matches Some(t) ==> exists|f: int|
            0 <= f < fns.len() && (#[trigger] fns[f]).id == t.0 && if t.1 == Tier::High {
                (exists|k: int|
                    0 <= k < scope.direct.len() && (#[trigger] scope.direct[k]).0 == call.text && (
                    fns[f].qualified_name == scope.direct[k].1 || fns[f].name == last_segment(
                        scope.direct[k].1,
                    ))) || (exists|w: int|
                    0 <= w < scope.wildcards.len() && fns[f].qualified_name == (
                    #[trigger] scope.wildcards[w]) + "::"@ + call.text)
            } else {
                fns[f].name == call.text && (t.1 == Tier::Medium ==> fns[f].file == file)
            },
{
    let modules = key_set::<String>(scope.wildcards);
    if let Some(id) = scoped_target(fns, scope, call.text) {
        bound_path_is_given(scope.direct, call.text);
        let p = scoped_path(scope.direct, call.text)->0;
        let k = choose|k: int|
            0 <= k < scope.direct.len() && (#[trigger] scope.direct[k]).0 == call.text
                && scope.direct[k].1 == p;
        let key = if fns_with(fns, FnKey::Path(p)).len() > 0 {
            FnKey::Path(p)
        } else {
            FnKey::Name(last_segment(p))
        };
        lookups_find(fns, key);
        let f = choose|f: int|
            0 <= f < fns.len() && fn_fits(#[trigger] fns[f], key) && fns[f].id == fns_with(
                fns,
                key,
            )[0] && forall|j: int| 0 <= j < f ==> !fn_fits(#[trigger] fns[j], key);
        assert(fns[f].id == id);
        assert(scope.direct[k].0 == call.text);
    } else {
        wildcards_are_searched(fns, modules, call.text, 0);
        if let Some(id) = wildcard_target(fns, modules, call.text, 0) {
            crate::order::text_keys_stay(scope.wildcards);
            let (v, f) = choose|v: int, f: int|
                0 <= v < modules.len() && 0 <= f < fns.len() && (#[trigger] fns[f]).id == id
                    && fns[f].qualified_name == (#[trigger] modules[v]) + "::"@ + call.text;
            assert(modules.contains(modules[v]));
            assert(scope.wildcards.contains(modules[v]));
            let u = choose|u: int|
                0 <= u < scope.wildcards.len() && scope.wildcards[u] == modules[v];
            assert(fns[f].qualified_name == scope.wildcards[u] + "::"@ + call.text);
        } else {
            named_functions_fit(fns, call.text, file, call.is_method_style);
        }
    }
}

proof fn bound_path_is_given(direct: Seq<(Seq<char>, Seq<char>)>, name: Seq<char>)
    ensures
        scoped_path(direct, name) matches Some(p) ==> exists|k: int|
            0 <= k < direct.len() && (#[trigger] direct[k]).0 == name && direct[k].1 == p,
    decreases direct.len(),
{
    if direct.len() > 0 {
        let rest = direct.drop_last();
        bound_path_is_given(rest, name);
        if direct.last().0 == name {
            assert(direct[direct.len() - 1].0 == name);
        } else if let Some(p) = scoped_path(rest, name) {
            let k = choose|k: int|
                0 <= k < rest.len() && (#[trigger] rest[k]).0 == name && rest[k].1 == p;
            assert(direct[k].0 == name && direct[k].1 == p);
        }
    }
}

/// The calls of a file give edges from the functions that they stand in: each edge leads from
/// the function with the fewest lines around the call to what the call means, and never from a
/// function to itself.
pub proof fn edges_leave_the_enclosing_function(
    fns: Seq<FnRowView>,
    calls: Seq<CallSiteView>,
    scope: ScopeMapView,
    file: Seq<char>,
    nodes: Seq<FileNodeView>,
    n: int,
    e: ResolvedEdge,
)
    requires
        0 <= n <= calls.len(),
        with_resolved(Seq::empty(), fns, calls, scope, file, nodes, n).contains(e),
    ensures
        e.from_id != e.to_id,
        exists|k: int, c: int|
            {
                &&& 0 <= k < n
                &&& 0 <= c < nodes.len()
                &&& (#[trigger] nodes[c]).id == e.from_id
                &&& nodes[c].kind == "fn"@
                &&& nodes[c].range_start <= (#[trigger] calls[k]).line <= nodes[c].range_end
                &&& forall|d: int|
                    0 <= d < nodes.len() && (#[trigger] nodes[d]).kind == "fn"@
                        && nodes[d].range_start <= calls[k].line <= nodes[d].range_end
                        ==> nodes[c].range_end - nodes[c].range_start <= nodes[d].range_end
                        - nodes[d].range_start
                &&& call_target(
                    fns,
                    calls[k],
                    scope,
                    file,
                    path_of_module(file),
                    nodes[c].qualified_name,
                ) == Some((e.to_id, e.tier))
            },
    decreases n,
{
    if n > 0 {
        let rest = with_resolved(Seq::empty(), fns, calls, scope, file, nodes, n - 1);
        let all = with_resolved(Seq::empty(), fns, calls, scope, file, nodes, n);
        innermost_is_least(nodes, calls[n - 1].line as int, nodes.len() as int);
        let j = choose|j: int| 0 <= j < all.len() && all[j] == e;
        if j < rest.len() {
            assert(rest[j] == e);
            edges_leave_the_enclosing_function(fns, calls, scope, file, nodes, n - 1, e);
        } else {
            let c = innermost(nodes, calls[n - 1].line as int, nodes.len() as int)->0;
            assert(nodes[c].id == e.from_id);
            assert(calls[n - 1].line == calls[n - 1].line);
            assert forall|d: int|
                0 <= d < nodes.len() && (#[trigger] nodes[d]).kind == "fn"@ && nodes[d].range_start
                    <= calls[n - 1].line <= nodes[d].range_end implies nodes[c].range_end
                - nodes[c].range_start <= nodes[d].range_end - nodes[d].range_start by {
                assert(holds_line(nodes[d], calls[n - 1].line as int));
            }
        }
    }
}

/// No call is passed over: one within a function that means another function gives an edge.
pub proof fn resolved_calls_give_edges(
    fns: Seq<FnRowView>,
    calls: Seq<CallSiteView>,
    scope: ScopeMapView,
    file: Seq<char>,
    nodes: Seq<FileNodeView>,
    n: int,
    k: int,
    c: int,
)
    requires
        0 <= k < n <= calls.len(),
        0 <= c < nodes.len(),
        nodes[c].kind == "fn"@,
        nodes[c].range_start <= calls[k].line <= nodes[c].range_end,
        forall|d: int|
            0 <= d < nodes.len() && d != c && (#[trigger] nodes[d]).kind == "fn"@
                && nodes[d].range_start <= calls[k].line <= nodes[d].range_end
                ==> nodes[c].range_end - nodes[c].range_start < nodes[d].range_end
                - nodes[d].range_start,
        call_target(
            fns,
            calls[k],
            scope,
            file,
            path_of_module(file),
            nodes[c].qualified_name,
        ) matches Some(t) && t.0 != nodes[c].id,
    ensures
        ({
            let t = call_target(
                fns,
                calls[k],
                scope,
                file,
                path_of_module(file),
                nodes[c].qualified_name,
            )->0;
            with_resolved(Seq::empty(), fns, calls, scope, file, nodes, n).contains(
                ResolvedEdge { from_id: nodes[c].id, to_id: t.0, tier: t.1 },
            )
        }),
    decreases n,
{
    let t = call_target(
        fns,
        calls[k],
        scope,
        file,
        path_of_module(file),
        nodes[c].qualified_name,
    )->0;
    let e = ResolvedEdge { from_id: nodes[c].id, to_id: t.0, tier: t.1 };
    let rest = with_resolved(Seq::empty(), fns, calls, scope, file, nodes, n - 1);
    let all = with_resolved(Seq::empty(), fns, calls, scope, file, nodes, n);
    if k < n - 1 {
        resolved_calls_give_edges(fns, calls, scope, file, nodes, n - 1, k, c);
        let j = choose|j: int| 0 <= j < rest.len() && rest[j] == e;
        assert(all[j] == e);
    } else {
        innermost_is_least(nodes, calls[k].line as int, nodes.len() as int);
        assert(holds_line(nodes[c], calls[k].line as int));
        let b = innermost(nodes, calls[k].line as int, nodes.len() as int)->0;
        if b != c {
            assert(nodes[b].kind == "fn"@);
        }
        assert(all[rest.len() as int] == e);
    }
}

/// Only edges that calls resolved to are kept.
pub proof fn kept_edges_are_given(edges: Seq<ResolvedEdge>, e: ResolvedEdge)
    requires
        best_edges(edges).contains(e),
    ensures
        edges.contains(e),
{
    broadcast use vstd::seq_lib::group_to_multiset_ensures;

    let s = stable_sorted::<ResolvedEdge>(edges);
    crate::order::sorting_orders::<ResolvedEdge>(edges);
    run_starts_are_given(s, s.len() as int, e);
    assert(s.to_multiset().count(e) > 0);
    assert(edges.to_multiset().count(e) > 0);
}

proof fn run_starts_are_given(s: Seq<ResolvedEdge>, n: int, e: ResolvedEdge)
    requires
        0 <= n <= s.len(),
        run_starts(s, n).contains(e),
    ensures
        s.contains(e),
    decreases n,
{
    if n > 0 {
        let rest = run_starts(s, n - 1);
        let all = run_starts(s, n);
        let j = choose|j: int| 0 <= j < all.len() && all[j] == e;
        if j < rest.len() {
            assert(rest[j] == e);
            run_starts_are_given(s, n - 1, e);
        } else {
            assert(s[n - 1] == e);
        }
    }
}

/// `use path as alias` binds the alias to the path, whatever stood there before.
pub proof fn aliases_are_bound(
    s: ScopeMapView,
    nodes: Seq<SyntaxNodeView>,
    i: int,
    p: int,
    a: int,
    prefix: Seq<char>,
    source: Seq<char>,
    module: Seq<char>,
)
    requires
        nodes[i].kind == "use_as_clause"@,
        child_field(nodes, i, "path"@) == Some(p),
        child_field(nodes, i, "alias"@) == Some(a),
    ensures
        scoped_path(
            with_use(s, nodes, i, prefix, source, module).direct,
            text_of(nodes, a, source),
        ) == Some(normalized(text_of(nodes, p, source), module)),
        with_use(s, nodes, i, prefix, source, module).wildcards == s.wildcards,
{
    reveal_strlit("use_as_clause");
    reveal_strlit("identifier");
    reveal_strlit("scoped_identifier");
    assert("use_as_clause"@.len() == 13 && "identifier"@.len() == 10 && "scoped_identifier"@.len()
        == 17);
    reveal_with_fuel(scoped_path, 2);
}

/// A name in a list behind a path is bound to that name under the path.
pub proof fn listed_names_are_bound(
    s: ScopeMapView,
    nodes: Seq<SyntaxNodeView>,
    i: int,
    prefix: Seq<char>,
    source: Seq<char>,
    module: Seq<char>,
)
    requires
        nodes[i].kind == "identifier"@,
        prefix.len() > 0,
    ensures
        scoped_path(
            with_use(s, nodes, i, prefix, source, module).direct,
            text_of(nodes, i, source),
        ) == Some(normalized(prefix + "::"@ + text_of(nodes, i, source), module)),
{
    reveal_with_fuel(scoped_path, 2);
}

/// A path that starts with `crate::` is the same path in every module, without that start.
pub proof fn crate_paths_start_at_the_root(rest: Seq<char>, module: Seq<char>)
    requires
        trimmed("crate::"@ + rest) == "crate::"@ + rest,
        !begins_with(rest, "self::"@),
    ensures
        normalized("crate::"@ + rest, module) == rest,
{
    reveal_strlit("crate::");
    reveal_strlit("super::");
    reveal_strlit("self::");
    let path = "crate::"@ + rest;
    assert(path.take(7)[0] == 'c' && "super::"@[0] == 's');
    assert(path.take(7) =~= "crate::"@);
    assert(path.skip(7) =~= rest);
}

/// `super::name` is the name in the module above, and `self::name` the name in the module
/// itself.
pub proof fn super_goes_up_and_self_stays(name: Seq<char>, module: Seq<char>)
    requires
        !has_str(name, "::"@),
        trimmed("self::"@ + name) == "self::"@ + name,
        trimmed("super::self::"@ + name) == "super::self::"@ + name,
    ensures
        normalized("self::"@ + name, module) == if segments_of(module).len() == 0 {
            name
        } else {
            joined(segments_of(module).push(name), "::"@)
        },
        segments_of(module).len() > 1 ==> normalized("super::self::"@ + name, module) == joined(
            segments_of(module).drop_last().push(name),
            "::"@,
        ),
{
    reveal_strlit("crate::");
    reveal_strlit("super::");
    reveal_strlit("self::");
    reveal_strlit("super::self::");
    let stays = "self::"@ + name;
    assert(stays[1] == 'e');
    if begins_with(stays, "super::"@) {
        assert(stays.take(7)[1] == "super::"@[1]);
    }
    if begins_with(stays, "crate::"@) {
        assert(stays.take(7)[0] == "crate::"@[0]);
    }
    assert(stays.take(6) =~= "self::"@);
    assert(stays.skip(6) =~= name);
    let goes = "super::self::"@ + name;
    assert(goes.take(7) =~= "super::"@);
    assert(goes.skip(7) =~= stays);
    reveal_with_fuel(without_supers, 3);
}

/// A file is placed by what stands behind the first source directory in its path.
pub proof fn files_are_placed_below_src(file: Seq<char>, k: int)
    requires
        find_from(crate::arch::plain_path(file), "/src/"@, 0) == Some(k),
    ensures
        below_src(file) == crate::arch::plain_path(file).skip(k + "/src/"@.len()),
{
    reveal_strlit("/src/");
}

/// A `mod.rs` is the module of its directory.
pub proof fn mod_files_are_their_directory(file: Seq<char>, dir: Seq<char>)
    requires
        below_src(file) == dir + "/mod.rs"@,
    ensures
        path_of_module(file) == joined(split_at_str(dir, "/"@), "::"@),
{
    let rel = below_src(file);
    assert(rel != "lib.rs"@ && rel != "main.rs"@) by {
        reveal_strlit("lib.rs");
        reveal_strlit("main.rs");
        reveal_strlit("/mod.rs");
        assert(rel[rel.len() - 7] == '/');
        assert("lib.rs"@.len() == 6);
        assert("main.rs"@[0] == 'm');
    }
    crate::text::starts_and_ends_come_off(dir, "/mod.rs"@);
    assert("/"@.len() > 0) by {
        reveal_strlit("/");
    }
    crate::text::replacing_splits_and_joins(dir, "/"@, "::"@);
}

/// Any other file but the crate root is a module of its own.
pub proof fn other_files_are_modules(file: Seq<char>, stem: Seq<char>)
    requires
        below_src(file) == stem + ".rs"@,
        below_src(file) != "lib.rs"@,
        below_src(file) != "main.rs"@,
        without_suffix(below_src(file), "/mod.rs"@) is None,
    ensures
        path_of_module(file) == joined(split_at_str(stem, "/"@), "::"@),
{
    crate::text::starts_and_ends_come_off(stem, ".rs"@);
    assert("/"@.len() > 0) by {
        reveal_strlit("/");
    }
    crate::text::replacing_splits_and_joins(stem, "/"@, "::"@);
}

/// The crate root has no path of its own.
pub proof fn roots_have_no_path(file: Seq<char>)
    requires
        below_src(file) == "lib.rs"@ || below_src(file) == "main.rs"@,
    ensures
        path_of_module(file).len() == 0,
{
}

} // verus!
