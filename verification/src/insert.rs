//! Symbols on their way into the database.

use vstd::prelude::*;

use crate::model::views;
use crate::parser::{RawEdge, RawEdgeView, Symbol, SymbolView};
use crate::text::{
    begins_with, contains, ends_with, finishes_with, has_str, line_seq, lines, starts_with,
    str_eq, trim, trimmed,
};

verus! {

broadcast use crate::model::group_views;

/// A symbol that was read from a file, its qualified name, and whether it is a test.
#[derive(Debug)]
pub struct IndexedSymbol {
    pub symbol: Symbol,
    pub qualified_name: String,
    pub is_test_fn: bool,
}

/// What a [`IndexedSymbol`] holds.
#[verifier::ext_equal]
pub struct IndexedSymbolView {
    pub symbol: SymbolView,
    pub qualified_name: Seq<char>,
    pub is_test_fn: bool,
}

impl DeepView for IndexedSymbol {
    type V = IndexedSymbolView;

    open spec fn deep_view(&self) -> IndexedSymbolView {
        IndexedSymbolView {
            symbol: self.symbol.deep_view(),
            qualified_name: self.qualified_name.deep_view(),
            is_test_fn: self.is_test_fn.deep_view(),
        }
    }
}

impl View for IndexedSymbol {
    type V = IndexedSymbolView;

    open spec fn view(&self) -> IndexedSymbolView {
        self.deep_view()
    }
}

/// A symbol as it is stored: with its first role and how sure that is, in hundredths.
#[derive(Debug)]
pub struct NodeInsert {
    pub symbol: Symbol,
    pub qualified_name: String,
    pub role: String,
    pub confidence: u32,
}

/// What a [`NodeInsert`] holds.
#[verifier::ext_equal]
pub struct NodeInsertView {
    pub symbol: SymbolView,
    pub qualified_name: Seq<char>,
    pub role: Seq<char>,
    pub confidence: u32,
}

impl DeepView for NodeInsert {
    type V = NodeInsertView;

    open spec fn deep_view(&self) -> NodeInsertView {
        NodeInsertView {
            symbol: self.symbol.deep_view(),
            qualified_name: self.qualified_name.deep_view(),
            role: self.role.deep_view(),
            confidence: self.confidence.deep_view(),
        }
    }
}

impl View for NodeInsert {
    type V = NodeInsertView;

    open spec fn view(&self) -> NodeInsertView {
        self.deep_view()
    }
}

/// The first role of a symbol, before roles are inferred, and how sure it is, in hundredths.
pub open spec fn first_role(is_test_fn: bool) -> (Seq<char>, u32) {
    if is_test_fn {
        ("test"@, 99)
    } else {
        ("unknown"@, 0)
    }
}

/// The first `n` symbols as they are stored.
pub open spec fn stored(symbols: Seq<IndexedSymbolView>, n: int) -> Seq<NodeInsertView>
    decreases n,
{
    if n <= 0 {
        Seq::empty()
    } else {
        let s = symbols[n - 1];
        stored(symbols, n - 1).push(
            NodeInsertView {
                symbol: s.symbol,
                qualified_name: s.qualified_name,
                role: first_role(s.is_test_fn).0,
                confidence: first_role(s.is_test_fn).1,
            },
        )
    }
}

/// The symbols as they are stored, in their order.
pub fn bulk_insert_symbols(symbols: Vec<IndexedSymbol>) -> (r: Vec<NodeInsert>)
    ensures
        views(r@) == stored(views(symbols@), symbols@.len() as int),
{
    let ghost given = symbols@;
    let mut out: Vec<NodeInsert> = Vec::new();
    for s in it: symbols
        invariant
            it.seq() == given,
            views(out@) == stored(views(given), it.index() as int),
    {
        assert(s == given[it.index() as int]);
        assert(views(given)[it.index() as int] == s@);
        let (role, confidence): (&str, u32) = if s.is_test_fn {
            ("test", 99)
        } else {
            ("unknown", 0)
        };
        out.push(
            NodeInsert {
                symbol: s.symbol,
                qualified_name: s.qualified_name,
                role: role.to_owned(),
                confidence,
            },
        );
    }
    out
}

// ---------------------------------------------------------------------------
// Tests
// ---------------------------------------------------------------------------

/// The line is an attribute that makes the function below it a test: `#[test]`, or one of
/// another crate under that name.
pub open spec fn marks_test(line: Seq<char>) -> bool {
    let t = trimmed(line);
    begins_with(t, "#["@) && (begins_with(t, "#[test]"@) || finishes_with(t, "::test]"@) || has_str(
        t,
        "::test("@,
    ))
}

/// Among the attributes and comments right above the line behind the first `n` is one that
/// makes a function a test.
pub open spec fn test_above(all: Seq<Seq<char>>, n: int) -> bool
    decreases n,
{
    if n <= 0 || n > all.len() {
        false
    } else if marks_test(all[n - 1]) {
        true
    } else if begins_with(trimmed(all[n - 1]), "#["@) || begins_with(trimmed(all[n - 1]), "//"@) {
        test_above(all, n - 1)
    } else {
        false
    }
}

/// The symbol is a function that is marked as a test.
pub open spec fn is_test(all: Seq<Seq<char>>, s: SymbolView) -> bool {
    s.kind == "fn"@ && test_above(all, s.range_start - 1)
}

fn find_test_above(all: &Vec<String>, s: &Symbol) -> (r: bool)
    ensures
        r == is_test(views(all@), s@),
{
    if !str_eq(&s.kind, "fn") || s.range_start == 0 {
        return false;
    }
    let above: u32 = s.range_start - 1;
    if above as usize > all.len() {
        return false;
    }
    let mut n: usize = above as usize;
    while n > 0
        invariant
            n <= all@.len(),
            is_test(views(all@), s@) == test_above(views(all@), above as int),
            test_above(views(all@), above as int) == test_above(views(all@), n as int),
        decreases n,
    {
        assert(views(all@)[n - 1] == all@[n - 1]@);
        let t = trim(&all[n - 1]);
        if starts_with(&t, "#[") && (starts_with(&t, "#[test]") || ends_with(&t, "::test]")
            || contains(&t, "::test(")) {
            return true;
        }
        if !starts_with(&t, "#[") && !starts_with(&t, "//") {
            return false;
        }
        n = n - 1;
    }
    false
}

/// The first `n` symbols of a file, with the tests among them marked. They have no qualified
/// names: a file does not say which module it is.
pub open spec fn indexed(all: Seq<Seq<char>>, symbols: Seq<SymbolView>, n: int) -> Seq<
    IndexedSymbolView,
>
    decreases n,
{
    if n <= 0 {
        Seq::empty()
    } else {
        let s = symbols[n - 1];
        indexed(all, symbols, n - 1).push(
            IndexedSymbolView {
                symbol: s,
                qualified_name: Seq::empty(),
                is_test_fn: is_test(all, s),
            },
        )
    }
}

/// Mark the tests among the symbols of a source.
pub fn index_symbols(source: &str, symbols: Vec<Symbol>) -> (r: Vec<IndexedSymbol>)
    ensures
        views(r@) == indexed(line_seq(source@), views(symbols@), symbols@.len() as int),
{
    let all = lines(source);
    let ghost given = symbols@;
    let mut out: Vec<IndexedSymbol> = Vec::new();
    for s in it: symbols
        invariant
            it.seq() == given,
            views(all@) == line_seq(source@),
            views(out@) == indexed(line_seq(source@), views(given), it.index() as int),
    {
        assert(s == given[it.index() as int]);
        assert(views(given)[it.index() as int] == s@);
        let is_test_fn = find_test_above(&all, &s);
        let next = IndexedSymbol { symbol: s, qualified_name: String::new(), is_test_fn };
        assert(next@.qualified_name =~= Seq::empty());
        out.push(next);
    }
    out
}

// ---------------------------------------------------------------------------
// Calls by name
// ---------------------------------------------------------------------------

/// A stored symbol, by its file and its name.
#[derive(Debug)]
pub struct NameRow {
    pub id: i64,
    pub file: String,
    pub name: String,
}

/// What a [`NameRow`] holds.
#[verifier::ext_equal]
pub struct NameRowView {
    pub id: i64,
    pub file: Seq<char>,
    pub name: Seq<char>,
}

impl DeepView for NameRow {
    type V = NameRowView;

    open spec fn deep_view(&self) -> NameRowView {
        NameRowView {
            id: self.id.deep_view(),
            file: self.file.deep_view(),
            name: self.name.deep_view(),
        }
    }
}

impl View for NameRow {
    type V = NameRowView;

    open spec fn view(&self) -> NameRowView {
        self.deep_view()
    }
}

/// The first symbol from `i` on with the name, in the file where one is given.
pub open spec fn named_from(
    rows: Seq<NameRowView>,
    file: Option<Seq<char>>,
    name: Seq<char>,
    i: int,
) -> Option<int>
    decreases rows.len() - i,
{
    if i < 0 || i >= rows.len() {
        None
    } else if rows[i].name == name && (file matches Some(f) ==> rows[i].file == f) {
        Some(i)
    } else {
        named_from(rows, file, name, i + 1)
    }
}

/// The symbol that a name stands for in a file: the file's own, or else the only one of that
/// name.
pub open spec fn meant_by(rows: Seq<NameRowView>, file: Seq<char>, name: Seq<char>) -> Option<int> {
    match named_from(rows, Some(file), name, 0) {
        Some(k) => Some(k),
        None => match named_from(rows, None, name, 0) {
            Some(k) => if named_from(rows, None, name, k + 1) is None {
                Some(k)
            } else {
                None
            },
            None => None,
        },
    }
}

/// The symbols that a call by name leads from and to.
pub open spec fn call_ends(rows: Seq<NameRowView>, e: RawEdgeView) -> Option<(i64, i64)> {
    match (named_from(rows, Some(e.file), e.from_name, 0), meant_by(rows, e.file, e.to_name)) {
        (Some(c), Some(t)) => Some((rows[c].id, rows[t].id)),
        _ => None,
    }
}

/// The symbols that the first `n` calls lead from and to, each pair once.
pub open spec fn calls_between(rows: Seq<NameRowView>, edges: Seq<RawEdgeView>, n: int) -> Seq<
    (i64, i64),
>
    decreases n,
{
    if n <= 0 {
        Seq::empty()
    } else {
        let rest = calls_between(rows, edges, n - 1);
        match call_ends(rows, edges[n - 1]) {
            Some(pair) => if rest.contains(pair) {
                rest
            } else {
                rest.push(pair)
            },
            None => rest,
        }
    }
}

fn find_named(rows: &Vec<NameRow>, file: Option<&str>, name: &str, from: usize) -> (r: Option<usize>)
    ensures
        ({
            let f = match file {
                Some(t) => Some(t@),
                None => None,
            };
            match r {
                Some(k) => from <= k < rows@.len() && named_from(
                    views(rows@),
                    f,
                    name@,
                    from as int,
                ) == Some(k as int),
                None => named_from(views(rows@), f, name@, from as int) is None,
            }
        }),
{
    let ghost f = match file {
        Some(t) => Some(t@),
        None => None,
    };
    let mut i: usize = from;
    while i < rows.len()
        invariant
            from <= i,
            f == match file {
                Some(t) => Some(t@),
                None => None,
            },
            named_from(views(rows@), f, name@, from as int) == named_from(
                views(rows@),
                f,
                name@,
                i as int,
            ),
        decreases rows@.len() - i,
    {
        assert(views(rows@)[i as int] == rows@[i as int]@);
        let here = match file {
            Some(t) => str_eq(&rows[i].file, t),
            None => true,
        };
        if here && str_eq(&rows[i].name, name) {
            return Some(i);
        }
        i = i + 1;
    }
    None
}

fn find_meant(rows: &Vec<NameRow>, file: &str, name: &str) -> (r: Option<usize>)
    ensures
        match r {
            Some(k) => k < rows@.len() && meant_by(views(rows@), file@, name@) == Some(k as int),
            None => meant_by(views(rows@), file@, name@) is None,
        },
{
    let n = rows.len();
    if let Some(k) = find_named(rows, Some(file), name, 0) {
        return Some(k);
    }
    match find_named(rows, None, name, 0) {
        Some(k) => if find_named(rows, None, name, k + 1).is_none() {
            Some(k)
        } else {
            None
        },
        None => None,
    }
}

/// Find the symbols that calls by name lead from and to.
pub fn call_edges(rows: &Vec<NameRow>, edges: &Vec<RawEdge>) -> (r: Vec<(i64, i64)>)
    ensures
        r@ == calls_between(views(rows@), views(edges@), edges@.len() as int),
{
    let ghost rv = views(rows@);
    let mut out: Vec<(i64, i64)> = Vec::new();
    let mut n: usize = 0;
    while n < edges.len()
        invariant
            n <= edges@.len(),
            rv == views(rows@),
            out@ == calls_between(rv, views(edges@), n as int),
        decreases edges@.len() - n,
    {
        let e = &edges[n];
        assert(views(edges@)[n as int] == e@);
        let caller = find_named(rows, Some(&e.file), &e.from_name, 0);
        let callee = find_meant(rows, &e.file, &e.to_name);
        if let (Some(c), Some(t)) = (caller, callee) {
            assert(rv[c as int] == rows@[c as int]@);
            assert(rv[t as int] == rows@[t as int]@);
            push_once(&mut out, (rows[c].id, rows[t].id));
        }
        n = n + 1;
    }
    out
}

fn push_once(pairs: &mut Vec<(i64, i64)>, pair: (i64, i64))
    ensures
        final(pairs)@ == if old(pairs)@.contains(pair) {
            old(pairs)@
        } else {
            old(pairs)@.push(pair)
        },
{
    let mut i: usize = 0;
    while i < pairs.len()
        invariant
            *pairs == *old(pairs),
            i <= pairs@.len(),
            forall|k: int| 0 <= k < i ==> pairs@[k] != pair,
        decreases pairs@.len() - i,
    {
        if pairs[i].0 == pair.0 && pairs[i].1 == pair.1 {
            assert(pairs@[i as int] == pair);
            return;
        }
        i = i + 1;
    }
    pairs.push(pair);
}

/// Each pair of symbols is linked by one call at most.
pub proof fn calls_are_stored_once(rows: Seq<NameRowView>, edges: Seq<RawEdgeView>, n: int)
    ensures
        calls_between(rows, edges, n).no_duplicates(),
    decreases n,
{
    if n > 0 {
        calls_are_stored_once(rows, edges, n - 1);
    }
}

/// A call of a function that the caller's own file defines leads to a symbol of that file,
/// whatever other files define.
pub proof fn own_file_comes_first(rows: Seq<NameRowView>, e: RawEdgeView, k: int)
    requires
        0 <= k < rows.len(),
        rows[k].file == e.file,
        rows[k].name == e.to_name,
    ensures
        meant_by(rows, e.file, e.to_name) matches Some(t) && 0 <= t <= k && rows[t].file == e.file
            && rows[t].name == e.to_name,
{
    own_name_is_found(rows, e.file, e.to_name, 0, k);
}

proof fn own_name_is_found(
    rows: Seq<NameRowView>,
    file: Seq<char>,
    name: Seq<char>,
    i: int,
    k: int,
)
    requires
        0 <= i <= k < rows.len(),
        rows[k].file == file,
        rows[k].name == name,
    ensures
        named_from(rows, Some(file), name, i) matches Some(t) && i <= t <= k && rows[t].file == file
            && rows[t].name == name,
    decreases k - i,
{
    if i < k {
        own_name_is_found(rows, file, name, i + 1, k);
    }
}

// ---------------------------------------------------------------------------
// What is stored
// ---------------------------------------------------------------------------

/// Every symbol is stored as it is, in order: a test with that role and almost certainly, any
/// other without a role.
pub proof fn symbols_are_stored(symbols: Seq<IndexedSymbolView>, n: int, i: int)
    requires
        0 <= n <= symbols.len(),
    ensures
        stored(symbols, n).len() == n,
        0 <= i < n ==> ({
            let s = stored(symbols, n)[i];
            &&& s.symbol == symbols[i].symbol
            &&& s.qualified_name == symbols[i].qualified_name
            &&& symbols[i].is_test_fn ==> s.role == "test"@ && s.confidence == 99
            &&& !symbols[i].is_test_fn ==> s.role == "unknown"@ && s.confidence == 0
        }),
    decreases n,
{
    if n > 0 {
        symbols_are_stored(symbols, n - 1, i);
    }
}

/// A function is a test where an attribute that says so stands above it, with nothing but
/// attributes and comments between; no other symbol is.
pub proof fn attributes_mark_tests(all: Seq<Seq<char>>, s: SymbolView, k: int)
    requires
        0 <= k < s.range_start - 1 <= all.len(),
        forall|j: int|
            k < j < s.range_start - 1 ==> begins_with(trimmed(#[trigger] all[j]), "#["@)
                || begins_with(trimmed(all[j]), "//"@),
        ({
            let t = trimmed(all[k]);
            begins_with(t, "#[test]"@) && begins_with(t, "#["@)
        }),
    ensures
        s.kind == "fn"@ ==> is_test(all, s),
        s.kind != "fn"@ ==> !is_test(all, s),
{
    mark_is_seen(all, s.range_start - 1, k);
}

proof fn mark_is_seen(all: Seq<Seq<char>>, n: int, k: int)
    requires
        0 <= k < n <= all.len(),
        marks_test(all[k]),
        forall|j: int|
            k < j < n ==> begins_with(trimmed(#[trigger] all[j]), "#["@) || begins_with(
                trimmed(all[j]),
                "//"@,
            ),
    ensures
        test_above(all, n),
    decreases n,
{
    if k < n - 1 {
        assert(begins_with(trimmed(all[n - 1]), "#["@) || begins_with(trimmed(all[n - 1]), "//"@));
        mark_is_seen(all, n - 1, k);
    }
}

/// A function right below a line that is neither an attribute nor a comment is no test.
pub proof fn unmarked_functions_are_no_tests(all: Seq<Seq<char>>, s: SymbolView)
    requires
        0 < s.range_start - 1 <= all.len(),
        !begins_with(trimmed(all[s.range_start - 2]), "#["@),
        !begins_with(trimmed(all[s.range_start - 2]), "//"@),
    ensures
        !is_test(all, s),
{
}

/// The symbols of a file keep their order and what they are, and are only marked.
pub proof fn symbols_are_only_marked(
    all: Seq<Seq<char>>,
    symbols: Seq<SymbolView>,
    n: int,
    i: int,
)
    requires
        0 <= n <= symbols.len(),
    ensures
        indexed(all, symbols, n).len() == n,
        0 <= i < n ==> indexed(all, symbols, n)[i].symbol == symbols[i] && indexed(
            all,
            symbols,
            n,
        )[i].is_test_fn == is_test(all, symbols[i]),
    decreases n,
{
    if n > 0 {
        symbols_are_only_marked(all, symbols, n - 1, i);
    }
}

proof fn first_of_a_name(
    rows: Seq<NameRowView>,
    file: Option<Seq<char>>,
    name: Seq<char>,
    i: int,
)
    requires
        0 <= i <= rows.len(),
    ensures
        match named_from(rows, file, name, i) {
            Some(k) => i <= k < rows.len() && rows[k].name == name && (file is Some ==> file
                == Some(rows[k].file)) && forall|j: int|
                i <= j < k ==> (#[trigger] rows[j]).name != name || (file is Some && file != Some(
                    rows[j].file,
                )),
            None => forall|j: int|
                i <= j < rows.len() ==> (#[trigger] rows[j]).name != name || (file is Some && file
                    != Some(rows[j].file)),
        },
    decreases rows.len() - i,
{
    if i < rows.len() {
        first_of_a_name(rows, file, name, i + 1);
    }
}

/// A call leads from a symbol of the caller's name in its file to a symbol of the called name:
/// one of the same file, or else the only one of that name.
pub proof fn calls_join_names(rows: Seq<NameRowView>, e: RawEdgeView)
    ensures
        match call_ends(rows, e) {
            Some(pair) => exists|c: int, t: int|
                {
                    &&& 0 <= c < rows.len() && 0 <= t < rows.len()
                    &&& (#[trigger] rows[c]).id == pair.0 && rows[c].file == e.file && rows[c].name
                        == e.from_name
                    &&& (#[trigger] rows[t]).id == pair.1 && rows[t].name == e.to_name
                    &&& rows[t].file == e.file || forall|j: int|
                        0 <= j < rows.len() && j != t ==> (#[trigger] rows[j]).name != e.to_name
                },
            None => (forall|c: int|
                0 <= c < rows.len() ==> (#[trigger] rows[c]).file != e.file || rows[c].name
                    != e.from_name) || ((forall|t: int|
                0 <= t < rows.len() ==> (#[trigger] rows[t]).file != e.file || rows[t].name
                    != e.to_name) && ((forall|t: int|
                0 <= t < rows.len() ==> (#[trigger] rows[t]).name != e.to_name) || exists|
                t: int,
                u: int,
            |
                0 <= t < u < rows.len() && (#[trigger] rows[t]).name == e.to_name && (
                #[trigger] rows[u]).name == e.to_name)),
        },
{
    first_of_a_name(rows, Some(e.file), e.from_name, 0);
    first_of_a_name(rows, Some(e.file), e.to_name, 0);
    first_of_a_name(rows, None, e.to_name, 0);
    if let Some(k) = named_from(rows, None, e.to_name, 0) {
        first_of_a_name(rows, None, e.to_name, k + 1);
        if let Some(u) = named_from(rows, None, e.to_name, k + 1) {
            assert(rows[k].name == e.to_name && rows[u].name == e.to_name);
        }
    }
    if let Some(pair) = call_ends(rows, e) {
        let c = named_from(rows, Some(e.file), e.from_name, 0)->0;
        let t = meant_by(rows, e.file, e.to_name)->0;
        assert(rows[c].id == pair.0 && rows[t].id == pair.1);
        if rows[t].file != e.file {
            assert forall|j: int| 0 <= j < rows.len() && j != t implies (#[trigger] rows[j]).name
                != e.to_name by {}
        }
    }
}

/// The calls that are stored are those that join symbols, and nothing else.
pub proof fn joined_calls_are_stored(
    rows: Seq<NameRowView>,
    edges: Seq<RawEdgeView>,
    n: int,
    p: (i64, i64),
)
    requires
        0 <= n <= edges.len(),
    ensures
        calls_between(rows, edges, n).contains(p) <==> exists|k: int|
            0 <= k < n && call_ends(rows, #[trigger] edges[k]) == Some(p),
    decreases n,
{
    if n > 0 {
        joined_calls_are_stored(rows, edges, n - 1, p);
        let rest = calls_between(rows, edges, n - 1);
        let all = calls_between(rows, edges, n);
        if rest.contains(p) {
            let j = choose|j: int| 0 <= j < rest.len() && rest[j] == p;
            assert(all[j] == p);
        }
        if call_ends(rows, edges[n - 1]) == Some(p) && !rest.contains(p) {
            assert(all[rest.len() as int] == p);
        }
        if all.contains(p) && !rest.contains(p) {
            let j = choose|j: int| 0 <= j < all.len() && all[j] == p;
            if j < rest.len() {
                assert(rest[j] == p);
            }
            assert(call_ends(rows, edges[n - 1]) == Some(p));
        }
    }
}

} // verus!
