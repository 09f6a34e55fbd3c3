//! Finding symbols by name, pattern or id.

use vstd::prelude::*;

use crate::arch::{context_of, file_to_context, plain_path, strip_dot};
use crate::model::{or_text, text_or, views, Dup};
use crate::order::{sorting_orders, stable_sort, stable_sorted, Ranked};
use crate::text::{
    alphanumeric, ascii_lower, begins_with, char_is_alphanumeric, chars_of, concat2, concat3,
    contains, dec, ends_with, finishes_with, has_str, i64_text, int_text, int_value, lex_before,
    occurs_at, parse_i64, replace, replaced, starts_with, str_eq, str_precedes, strip_prefix,
    to_ascii_lowercase, trim, trim_end_char, trimmed, trimmed_char_end, usize_text, without_prefix,
};
use crate::workspace::{crate_for_file_path, crate_of, WorkspaceGraph, WorkspaceGraphView};
use crate::xml::{
    close, empty, finish, new_writer, no_attrs, open, open_attrs, with_close, with_empty, with_open,
    xml_events, xml_text, Attrs, Node, XmlWriter,
};

verus! {

broadcast use crate::model::group_views;

/// The file or the role of a symbol says that it belongs to tests.
pub open spec fn testish(file: Seq<char>, role: Seq<char>) -> bool {
    let p = ascii_lower(plain_path(file));
    ||| role == "test"@
    ||| has_str(p, "/tests/"@)
    ||| begins_with(p, "tests/"@)
    ||| finishes_with(p, "_test.rs"@)
    ||| finishes_with(p, ".test.ts"@)
    ||| finishes_with(p, ".test.js"@)
    ||| finishes_with(p, ".spec.ts"@)
    ||| finishes_with(p, ".spec.js"@)
}

/// Whether the file or the role of a symbol says that it belongs to tests.
pub fn is_testish(file: &str, role: &str) -> (r: bool)
    ensures
        r == testish(file@, role@),
{
    if str_eq(role, "test") {
        return true;
    }
    let plain = strip_dot(file);
    let p = to_ascii_lowercase(&plain);
    contains(&p, "/tests/") || starts_with(&p, "tests/") || ends_with(&p, "_test.rs") || ends_with(
        &p,
        ".test.ts",
    ) || ends_with(&p, ".test.js") || ends_with(&p, ".spec.ts") || ends_with(&p, ".spec.js")
}

// ---------------------------------------------------------------------------
// One symbol by id or name
// ---------------------------------------------------------------------------

/// The argument without the prefix `sym:`.
pub open spec fn symbol_key(arg: Seq<char>) -> Seq<char> {
    or_text(without_prefix(arg, "sym:"@), arg)
}

fn key_of(arg: &str) -> (r: String)
    ensures
        r@ == symbol_key(arg@),
{
    match strip_prefix(arg, "sym:") {
        Some(k) => k,
        None => arg.to_owned(),
    }
}

/// The symbol that an argument means: the one with that id where it writes a number; else
/// the one with that stable id, where it looks like one; else the best one of that name.
pub open spec fn symbol_id(arg: Seq<char>, by_stable: Option<i64>, by_name: Option<i64>) -> Option<
    int,
> {
    match int_value(arg) {
        Some(id) => Some(id),
        None => if has_str(symbol_key(arg), "::"@) && by_stable is Some {
            Some(by_stable->0 as int)
        } else {
            match by_name {
                Some(id) => Some(id as int),
                None => None,
            }
        },
    }
}

/// What to look up for an argument that is no id: the key, and whether it may be a stable
/// id.
pub fn symbol_lookup(arg: &str) -> (r: Option<(String, bool)>)
    ensures
        match r {
            Some(k) => int_value(arg@) is None && k.0@ == symbol_key(arg@) && k.1 == has_str(
                symbol_key(arg@),
                "::"@,
            ),
            None => int_value(arg@) is Some,
        },
{
    if parse_i64(arg).is_some() {
        return None;
    }
    let key = key_of(arg);
    let stable = contains(&key, "::");
    Some((key, stable))
}

/// The symbol that an argument means, given what was found for its key as a stable id and
/// as a name.
pub fn resolve_symbol_id(arg: &str, by_stable: Option<i64>, by_name: Option<i64>) -> (r: Result<
    i64,
    String,
>)
    ensures
        match r {
            Ok(id) => symbol_id(arg@, by_stable, by_name) == Some(id as int),
            Err(e) => symbol_id(arg@, by_stable, by_name) is None && e@ == "symbol '"@ + symbol_key(
                arg@,
            ) + "' not found in database"@,
        },
{
    if let Some(id) = parse_i64(arg) {
        return Ok(id);
    }
    let key = key_of(arg);
    if contains(&key, "::") {
        if let Some(id) = by_stable {
            return Ok(id);
        }
    }
    match by_name {
        Some(id) => Ok(id),
        None => Err(concat3("symbol '", &key, "' not found in database")),
    }
}

/// The symbol that the target of a path means: what the argument means elsewhere, or else the
/// one with that qualified name.
pub open spec fn target_id(
    arg: Seq<char>,
    by_stable: Option<i64>,
    by_name: Option<i64>,
    by_qualified: Option<i64>,
) -> Option<int> {
    match symbol_id(arg, by_stable, by_name) {
        Some(id) => Some(id),
        None => match by_qualified {
            Some(id) => Some(id as int),
            None => None,
        },
    }
}

/// The symbol that the target of a path means, given what was found for its key as a stable
/// id, as a name and as a qualified name.
pub fn resolve_target_id(
    arg: &str,
    by_stable: Option<i64>,
    by_name: Option<i64>,
    by_qualified: Option<i64>,
) -> (r: Result<i64, String>)
    ensures
        match r {
            Ok(id) => target_id(arg@, by_stable, by_name, by_qualified) == Some(id as int),
            Err(e) => target_id(arg@, by_stable, by_name, by_qualified) is None && e@ == "symbol '"@
                + symbol_key(arg@) + "' not found in database"@,
        },
{
    match resolve_symbol_id(arg, by_stable, by_name) {
        Ok(id) => Ok(id),
        Err(e) => match by_qualified {
            Some(id) => Ok(id),
            None => Err(e),
        },
    }
}

/// A symbol of some name, with the role `role` and the number of edges that lead to it.
#[derive(Debug)]
pub struct NameMatch {
    pub id: i64,
    pub role: String,
    pub fan_in: i64,
    pub file: String,
}

/// What a [`NameMatch`] holds.
#[verifier::ext_equal]
pub struct NameMatchView {
    pub id: i64,
    pub role: Seq<char>,
    pub fan_in: i64,
    pub file: Seq<char>,
}

impl DeepView for NameMatch {
    type V = NameMatchView;

    open spec fn deep_view(&self) -> NameMatchView {
        NameMatchView {
            id: self.id.deep_view(),
            role: self.role.deep_view(),
            fan_in: self.fan_in.deep_view(),
            file: self.file.deep_view(),
        }
    }
}

impl View for NameMatch {
    type V = NameMatchView;

    open spec fn view(&self) -> NameMatchView {
        self.deep_view()
    }
}

impl Ranked for NameMatch {
    /// Symbols that are no tests come first, then those that more edges lead to; then by
    /// file and id.
    open spec fn before(a: NameMatchView, b: NameMatchView) -> bool {
        let at = a.role == "test"@;
        let bt = b.role == "test"@;
        if at != bt {
            bt
        } else if a.fan_in != b.fan_in {
            a.fan_in > b.fan_in
        } else if a.file != b.file {
            lex_before(a.file, b.file)
        } else {
            a.id < b.id
        }
    }

    fn precedes(&self, other: &NameMatch) -> (r: bool) {
        let at = str_eq(&self.role, "test");
        let bt = str_eq(&other.role, "test");
        if at != bt {
            bt
        } else if self.fan_in != other.fan_in {
            self.fan_in > other.fan_in
        } else if !str_eq(&self.file, &other.file) {
            str_precedes(&self.file, &other.file)
        } else {
            self.id < other.id
        }
    }

    proof fn weak_order(a: NameMatchView, b: NameMatchView, c: NameMatchView) {
        crate::text::lex_is_order(a.file, b.file, c.file);
        crate::text::lex_is_order(b.file, c.file, a.file);
        crate::text::lex_is_order(c.file, a.file, b.file);
    }
}

/// The best of the symbols of a name: the first in order.
pub fn best_named(found: Vec<NameMatch>) -> (r: Option<i64>)
    ensures
        match r {
            Some(id) => found@.len() > 0 && id == stable_sorted::<NameMatch>(views(found@))[0].id,
            None => found@.len() == 0,
        },
{
    proof {
        sorting_orders::<NameMatch>(views(found@));
    }
    let sorted = stable_sort(found);
    assert(views(sorted@).len() == sorted@.len());
    if sorted.len() == 0 {
        return None;
    }
    assert(views(sorted@)[0] == sorted@[0]@);
    Some(sorted[0].id)
}

// ---------------------------------------------------------------------------
// Ways to look up candidates
// ---------------------------------------------------------------------------

/// What symbols are looked up by.
pub enum Lookup {
    Nothing,
    Id(i64),
    StableId(String),
    QualifiedName(String),
    /// A pattern for stable ids and qualified names.
    Namespace(String),
    /// The name, in the wanted language where one is given.
    Name(String),
    /// A pattern for stable ids, qualified names and names, in the wanted language where one
    /// is given.
    Substring(String),
}

/// What symbols are looked up by.
pub enum LookupBy {
    Nothing,
    Id(int),
    StableId(Seq<char>),
    QualifiedName(Seq<char>),
    Namespace(Seq<char>),
    Name(Seq<char>),
    Substring(Seq<char>),
}

impl DeepView for Lookup {
    type V = LookupBy;

    open spec fn deep_view(&self) -> LookupBy {
        match self {
            Lookup::Nothing => LookupBy::Nothing,
            Lookup::Id(i) => LookupBy::Id(*i as int),
            Lookup::StableId(s) => LookupBy::StableId(s@),
            Lookup::QualifiedName(s) => LookupBy::QualifiedName(s@),
            Lookup::Namespace(s) => LookupBy::Namespace(s@),
            Lookup::Name(s) => LookupBy::Name(s@),
            Lookup::Substring(s) => LookupBy::Substring(s@),
        }
    }
}

/// One way to look symbols up, and its name.
pub struct PlanStep {
    pub strategy: String,
    pub lookup: Lookup,
}

impl DeepView for PlanStep {
    type V = (Seq<char>, LookupBy);

    open spec fn deep_view(&self) -> (Seq<char>, LookupBy) {
        (self.strategy@, self.lookup.deep_view())
    }
}

/// A pattern for texts that hold the key, whatever stands for its `::`.
pub open spec fn like_pattern(key: Seq<char>) -> Seq<char> {
    "%"@ + replaced(key, "::"@, "%"@) + "%"@
}

fn like_of(key: &str) -> (r: String)
    ensures
        r@ == like_pattern(key@),
{
    proof {
        reveal_strlit("::");
    }
    let inner = replace(key, "::", "%");
    concat3("%", &inner, "%")
}

/// The ways to look up the candidates for a query, in the order in which they are tried.
pub open spec fn plan_of(query: Seq<char>) -> Seq<(Seq<char>, LookupBy)> {
    let key = trimmed(symbol_key(query));
    let none = Seq::<(Seq<char>, LookupBy)>::empty();
    if key.len() == 0 {
        none.push(("empty"@, LookupBy::Nothing))
    } else if int_value(key) is Some {
        none.push(("id-exact"@, LookupBy::Id(int_value(key)->0)))
    } else {
        let exact = if has_str(key, "::"@) {
            none.push(("stable-id-exact"@, LookupBy::StableId(key))).push(
                ("qualified-name-exact"@, LookupBy::QualifiedName(key)),
            ).push(("namespace-shortcut-ranked"@, LookupBy::Namespace(like_pattern(key))))
        } else {
            none
        };
        exact.push(("name-exact-ranked"@, LookupBy::Name(key))).push(
            ("substring-ranked"@, LookupBy::Substring(like_pattern(key))),
        )
    }
}

fn plan_step(strategy: &str, lookup: Lookup) -> (r: PlanStep)
    ensures
        r.deep_view() == (strategy@, lookup.deep_view()),
{
    PlanStep { strategy: strategy.to_owned(), lookup }
}

/// The ways to look up the candidates for a query, in the order in which they are tried.
pub fn candidate_plan(query: &str) -> (r: Vec<PlanStep>)
    ensures
        views(r@) == plan_of(query@),
        r@.len() > 0,
{
    let raw = key_of(query);
    let key = trim(&raw);
    let mut plan: Vec<PlanStep> = Vec::new();
    if key.as_str().is_empty() {
        plan.push(plan_step("empty", Lookup::Nothing));
        return plan;
    }
    if let Some(id) = parse_i64(&key) {
        plan.push(plan_step("id-exact", Lookup::Id(id)));
        return plan;
    }
    let like = like_of(&key);
    if contains(&key, "::") {
        plan.push(plan_step("stable-id-exact", Lookup::StableId(key.dup())));
        plan.push(plan_step("qualified-name-exact", Lookup::QualifiedName(key.dup())));
        plan.push(plan_step("namespace-shortcut-ranked", Lookup::Namespace(like.dup())));
    }
    plan.push(plan_step("name-exact-ranked", Lookup::Name(key)));
    plan.push(plan_step("substring-ranked", Lookup::Substring(like)));
    plan
}

/// Whether the search is settled by the step at `i`: it found something, or there is no
/// other.
pub fn step_settles(plan: &Vec<PlanStep>, i: usize, found: usize) -> (r: bool)
    requires
        i < plan@.len(),
    ensures
        r == (found > 0 || i + 1 == plan@.len()),
{
    found > 0 || i == plan.len() - 1
}

// ---------------------------------------------------------------------------
// Choosing among candidates
// ---------------------------------------------------------------------------

/// A symbol that was found.
#[derive(Debug)]
pub struct SymbolHit {
    pub id: i64,
    pub name: String,
    pub qualified_name: String,
    pub kind: String,
    pub role: String,
    pub file: String,
    pub signature: Option<String>,
    pub stable_id: String,
}

/// What a [`SymbolHit`] holds.
#[verifier::ext_equal]
pub struct SymbolHitView {
    pub id: i64,
    pub name: Seq<char>,
    pub qualified_name: Seq<char>,
    pub kind: Seq<char>,
    pub role: Seq<char>,
    pub file: Seq<char>,
    pub signature: Option<Seq<char>>,
    pub stable_id: Seq<char>,
}

impl DeepView for SymbolHit {
    type V = SymbolHitView;

    open spec fn deep_view(&self) -> SymbolHitView {
        SymbolHitView {
            id: self.id.deep_view(),
            name: self.name.deep_view(),
            qualified_name: self.qualified_name.deep_view(),
            kind: self.kind.deep_view(),
            role: self.role.deep_view(),
            file: self.file.deep_view(),
            signature: self.signature.deep_view(),
            stable_id: self.stable_id.deep_view(),
        }
    }
}

impl View for SymbolHit {
    type V = SymbolHitView;

    open spec fn view(&self) -> SymbolHitView {
        self.deep_view()
    }
}

impl Dup for SymbolHit {
    fn dup(&self) -> (r: SymbolHit) {
        SymbolHit {
            id: self.id.dup(),
            name: self.name.dup(),
            qualified_name: self.qualified_name.dup(),
            kind: self.kind.dup(),
            role: self.role.dup(),
            file: self.file.dup(),
            signature: self.signature.dup(),
            stable_id: self.stable_id.dup(),
        }
    }
}

/// A symbol that a query may mean, and how many symbols depend on it.
#[derive(Debug)]
pub struct ResolveCandidate {
    pub hit: SymbolHit,
    pub fan_in: i64,
}

/// What a [`ResolveCandidate`] holds.
#[verifier::ext_equal]
pub struct ResolveCandidateView {
    pub hit: SymbolHitView,
    pub fan_in: i64,
}

impl DeepView for ResolveCandidate {
    type V = ResolveCandidateView;

    open spec fn deep_view(&self) -> ResolveCandidateView {
        ResolveCandidateView {
            hit: self.hit.deep_view(),
            fan_in: self.fan_in.deep_view(),
        }
    }
}

impl View for ResolveCandidate {
    type V = ResolveCandidateView;

    open spec fn view(&self) -> ResolveCandidateView {
        self.deep_view()
    }
}

impl Dup for ResolveCandidate {
    fn dup(&self) -> (r: ResolveCandidate) {
        ResolveCandidate {
            hit: self.hit.dup(),
            fan_in: self.fan_in.dup(),
        }
    }
}

/// A candidate, and whether it has the role and the file that are preferred.
#[derive(Debug)]
pub struct RankedCandidate {
    pub candidate: ResolveCandidate,
    pub role_preferred: bool,
    pub file_preferred: bool,
}

/// What a [`RankedCandidate`] holds.
#[verifier::ext_equal]
pub struct RankedCandidateView {
    pub candidate: ResolveCandidateView,
    pub role_preferred: bool,
    pub file_preferred: bool,
}

impl DeepView for RankedCandidate {
    type V = RankedCandidateView;

    open spec fn deep_view(&self) -> RankedCandidateView {
        RankedCandidateView {
            candidate: self.candidate.deep_view(),
            role_preferred: self.role_preferred.deep_view(),
            file_preferred: self.file_preferred.deep_view(),
        }
    }
}

impl View for RankedCandidate {
    type V = RankedCandidateView;

    open spec fn view(&self) -> RankedCandidateView {
        self.deep_view()
    }
}

impl Dup for RankedCandidate {
    fn dup(&self) -> (r: RankedCandidate) {
        RankedCandidate {
            candidate: self.candidate.dup(),
            role_preferred: self.role_preferred.dup(),
            file_preferred: self.file_preferred.dup(),
        }
    }
}

impl Ranked for RankedCandidate {
    /// Candidates of the preferred role come first, then those in the preferred file, then
    /// those that more symbols depend on, then those that are no tests; then by file and id.
    open spec fn before(a: RankedCandidateView, b: RankedCandidateView) -> bool {
        let x = a.candidate;
        let y = b.candidate;
        let xt = x.hit.role == "test"@;
        let yt = y.hit.role == "test"@;
        if a.role_preferred != b.role_preferred {
            a.role_preferred
        } else if a.file_preferred != b.file_preferred {
            a.file_preferred
        } else if x.fan_in != y.fan_in {
            x.fan_in > y.fan_in
        } else if xt != yt {
            yt
        } else if x.hit.file != y.hit.file {
            lex_before(x.hit.file, y.hit.file)
        } else {
            x.hit.id < y.hit.id
        }
    }

    fn precedes(&self, other: &RankedCandidate) -> (r: bool) {
        let x = &self.candidate;
        let y = &other.candidate;
        let xt = str_eq(&x.hit.role, "test");
        let yt = str_eq(&y.hit.role, "test");
        if self.role_preferred != other.role_preferred {
            self.role_preferred
        } else if self.file_preferred != other.file_preferred {
            self.file_preferred
        } else if x.fan_in != y.fan_in {
            x.fan_in > y.fan_in
        } else if xt != yt {
            yt
        } else if !str_eq(&x.hit.file, &y.hit.file) {
            str_precedes(&x.hit.file, &y.hit.file)
        } else {
            x.hit.id < y.hit.id
        }
    }

    proof fn weak_order(a: RankedCandidateView, b: RankedCandidateView, c: RankedCandidateView) {
        crate::text::lex_is_order(
            a.candidate.hit.file,
            b.candidate.hit.file,
            c.candidate.hit.file,
        );
        crate::text::lex_is_order(
            b.candidate.hit.file,
            c.candidate.hit.file,
            a.candidate.hit.file,
        );
        crate::text::lex_is_order(
            c.candidate.hit.file,
            a.candidate.hit.file,
            b.candidate.hit.file,
        );
    }
}

/// The candidate with whether it is preferred.
pub open spec fn ranked_candidate(
    c: ResolveCandidateView,
    role: Option<Seq<char>>,
    file: Option<Seq<char>>,
) -> RankedCandidateView {
    RankedCandidateView {
        candidate: c,
        role_preferred: role matches Some(r) && c.hit.role == r,
        file_preferred: file matches Some(f) && has_str(c.hit.file, f),
    }
}

/// The candidates with whether they are preferred, the best first.
pub open spec fn ranked_candidates(
    cs: Seq<ResolveCandidateView>,
    role: Option<Seq<char>>,
    file: Option<Seq<char>>,
) -> Seq<RankedCandidateView> {
    stable_sorted::<RankedCandidate>(
        Seq::new(cs.len(), |i: int| ranked_candidate(cs[i], role, file)),
    )
}

/// The candidates have different ids.
pub open spec fn ids_differ(cs: Seq<ResolveCandidateView>) -> bool {
    forall|i: int, j: int|
        0 <= i < j < cs.len() ==> (#[trigger] cs[i]).hit.id != (#[trigger] cs[j]).hit.id
}

proof fn first_is_candidate(
    cs: Seq<ResolveCandidateView>,
    role: Option<Seq<char>>,
    file: Option<Seq<char>>,
) -> (k: int)
    requires
        cs.len() > 0,
    ensures
        0 <= k < cs.len(),
        ranked_candidates(cs, role, file).len() == cs.len(),
        ranked_candidates(cs, role, file)[0] == ranked_candidate(cs[k], role, file),
        forall|i: int|
            0 <= i < cs.len() ==> !RankedCandidate::before(
                ranked_candidate(#[trigger] cs[i], role, file),
                ranked_candidates(cs, role, file)[0],
            ),
{
    broadcast use vstd::seq_lib::group_to_multiset_ensures;

    let all = Seq::new(cs.len(), |i: int| ranked_candidate(cs[i], role, file));
    let sorted = stable_sorted::<RankedCandidate>(all);
    sorting_orders::<RankedCandidate>(all);
    assert(sorted.contains(sorted[0]));
    assert(sorted.to_multiset().count(sorted[0]) > 0);
    assert(all.to_multiset().count(sorted[0]) > 0);
    assert(all.contains(sorted[0]));
    let k = choose|k: int| 0 <= k < all.len() && all[k] == sorted[0];
    assert forall|i: int| 0 <= i < cs.len() implies !RankedCandidate::before(
        ranked_candidate(#[trigger] cs[i], role, file),
        sorted[0],
    ) by {
        assert(all[i] == ranked_candidate(cs[i], role, file));
        assert(all.contains(all[i]));
        assert(all.to_multiset().count(all[i]) > 0);
        assert(sorted.to_multiset().count(all[i]) > 0);
        assert(sorted.contains(all[i]));
        let j = choose|j: int| 0 <= j < sorted.len() && sorted[j] == all[i];
        if j == 0 {
            RankedCandidate::weak_order(sorted[0], sorted[0], sorted[0]);
        } else {
            assert(!RankedCandidate::before(sorted[j], sorted[0]));
        }
    }
    k
}

/// Which candidate is selected does not depend on the order in which they were found, as long
/// as their ids differ; and no candidate would be a better one.
pub proof fn selection_is_deterministic(
    cs: Seq<ResolveCandidateView>,
    ds: Seq<ResolveCandidateView>,
    role: Option<Seq<char>>,
    file: Option<Seq<char>>,
)
    requires
        cs.len() > 0,
        ds.len() > 0,
        ids_differ(cs),
        forall|c: ResolveCandidateView| #[trigger] cs.contains(c) == ds.contains(c),
    ensures
        ranked_candidates(cs, role, file)[0] == ranked_candidates(ds, role, file)[0],
        forall|i: int|
            0 <= i < cs.len() ==> !RankedCandidate::before(
                ranked_candidate(#[trigger] cs[i], role, file),
                ranked_candidates(cs, role, file)[0],
            ),
{
    let a = first_is_candidate(cs, role, file);
    let b = first_is_candidate(ds, role, file);
    assert(cs.contains(cs[a]));
    assert(ds.contains(ds[b]));
    assert(cs.contains(ds[b]));
    let i = choose|i: int| 0 <= i < ds.len() && ds[i] == cs[a];
    let j = choose|j: int| 0 <= j < cs.len() && cs[j] == ds[b];
    let x = ranked_candidate(cs[a], role, file);
    let y = ranked_candidate(ds[b], role, file);
    assert(!RankedCandidate::before(ranked_candidate(cs[j], role, file), x));
    assert(!RankedCandidate::before(ranked_candidate(ds[i], role, file), y));
    crate::text::lex_is_order(cs[a].hit.file, ds[b].hit.file, cs[a].hit.file);
    assert(cs[a].hit.id == cs[j].hit.id);
    if a < j {
        assert(cs[a].hit.id != cs[j].hit.id);
    } else if j < a {
        assert(cs[j].hit.id != cs[a].hit.id);
    }
}

fn rank_candidates(
    cs: &Vec<ResolveCandidate>,
    role: &Option<String>,
    file: &Option<String>,
) -> (r: Vec<RankedCandidate>)
    ensures
        views(r@) == ranked_candidates(views(cs@), role.deep_view(), file.deep_view()),
        r@.len() == cs@.len(),
{
    let ghost goal = Seq::new(
        cs@.len(),
        |i: int| ranked_candidate(views(cs@)[i], role.deep_view(), file.deep_view()),
    );
    let mut out: Vec<RankedCandidate> = Vec::new();
    let mut i: usize = 0;
    while i < cs.len()
        invariant
            i <= cs@.len(),
            goal.len() == cs@.len(),
            forall|k: int|
                0 <= k < cs@.len() ==> #[trigger] goal[k] == ranked_candidate(
                    views(cs@)[k],
                    role.deep_view(),
                    file.deep_view(),
                ),
            views(out@) =~= goal.take(i as int),
        decreases cs@.len() - i,
    {
        let c = &cs[i];
        assert(views(cs@)[i as int] == c@);
        let role_preferred = match role {
            Some(r) => str_eq(&c.hit.role, r),
            None => false,
        };
        let file_preferred = match file {
            Some(f) => contains(&c.hit.file, f),
            None => false,
        };
        let rc = RankedCandidate { candidate: c.dup(), role_preferred, file_preferred };
        assert(rc@ == goal[i as int]);
        out.push(rc);
        i = i + 1;
    }
    assert(views(out@) =~= goal);
    proof {
        crate::order::sorting_orders::<RankedCandidate>(goal);
    }
    let sorted = stable_sort(out);
    assert(views(sorted@).len() == sorted@.len());
    assert(goal =~= Seq::new(
        views(cs@).len(),
        |i: int| ranked_candidate(views(cs@)[i], role.deep_view(), file.deep_view()),
    ));
    sorted
}

/// The attributes of a symbol that was found.
pub open spec fn hit_attrs(h: SymbolHitView) -> Seq<(Seq<char>, Seq<char>)> {
    let a = no_attrs()
        .push(("id"@, int_text(h.id as int)))
        .push(("name"@, h.name))
        .push(("qualified_name"@, h.qualified_name))
        .push(("kind"@, h.kind))
        .push(("role"@, h.role))
        .push(("file"@, h.file))
        .push(("stable_id"@, h.stable_id));
    match h.signature {
        Some(s) => a.push(("signature"@, s)),
        None => a,
    }
}

/// The document with a symbol that was found.
pub open spec fn hit_node(ev: Seq<Node>, h: SymbolHitView) -> Seq<Node> {
    with_empty(ev, "symbol"@, hit_attrs(h))
}

/// Write a symbol that was found.
pub fn append_symbol_xml(w: &mut XmlWriter, h: &SymbolHit)
    ensures
        xml_events(*final(w)) == hit_node(xml_events(*old(w)), h@),
{
    let mut a = Attrs::new().with("id", &i64_text(h.id)).with("name", &h.name).with(
        "qualified_name",
        &h.qualified_name,
    ).with("kind", &h.kind).with("role", &h.role).with("file", &h.file).with(
        "stable_id",
        &h.stable_id,
    );
    if let Some(s) = &h.signature {
        a = a.with("signature", s);
    }
    empty(w, "symbol", &a);
}

/// The document with the candidates from `from` to `n`.
pub open spec fn candidate_nodes(
    ev: Seq<Node>,
    cs: Seq<RankedCandidateView>,
    from: int,
    n: int,
) -> Seq<Node>
    decreases n - from,
{
    if n <= from {
        ev
    } else {
        hit_node(candidate_nodes(ev, cs, from, n - 1), cs[n - 1].candidate.hit)
    }
}

/// At most ten of them.
pub open spec fn up_to_ten(n: int) -> int {
    if n < 10 {
        n
    } else {
        10
    }
}

/// The document on the candidates for a query: the best, and up to nine others.
pub open spec fn resolution_document(
    query: Seq<char>,
    strategy: Seq<char>,
    cs: Seq<RankedCandidateView>,
) -> Seq<Node> {
    let best = cs[0].candidate.hit;
    let ev = with_open(
        Seq::empty(),
        "resolution"@,
        no_attrs()
            .push(("query"@, query))
            .push(("strategy"@, strategy))
            .push(("candidates"@, dec(cs.len())))
            .push(("selected_id"@, int_text(best.id as int))),
    );
    let ev = hit_node(ev, best);
    let ev = if cs.len() > 1 {
        with_close(
            candidate_nodes(
                with_open(ev, "alternatives"@, no_attrs()),
                cs,
                1,
                up_to_ten(cs.len() as int),
            ),
            "alternatives"@,
        )
    } else {
        ev
    };
    with_close(ev, "resolution"@)
}

/// A text as a cell of a table: its bars are escaped.
pub open spec fn cell(s: Seq<char>) -> Seq<char> {
    replaced(s, "|"@, "\\|"@)
}

/// A text as a cell of a table.
pub fn cell_of(s: &str) -> (r: String)
    ensures
        r@ == cell(s@),
{
    proof {
        reveal_strlit("|");
    }
    replace(s, "|", "\\|")
}

/// `out` with a cell behind it.
pub open spec fn with_cell(out: Seq<char>, s: Seq<char>) -> Seq<char> {
    out + " "@ + s + " |"@
}

/// Adds a cell to a row.
pub fn add_cell(out: &mut String, s: &str)
    ensures
        final(out)@ == with_cell(old(out)@, s@),
{
    out.append(" ");
    out.append(s);
    out.append(" |");
}

/// `out` with a row on a candidate behind it.
pub open spec fn candidate_row(out: Seq<char>, c: ResolveCandidateView) -> Seq<char> {
    let h = c.hit;
    let r = with_cell(out + "|"@, int_text(h.id as int));
    let r = with_cell(r, cell(h.name));
    let r = with_cell(r, cell(h.qualified_name));
    let r = with_cell(r, cell(h.kind));
    let r = with_cell(r, cell(h.role));
    let r = with_cell(r, int_text(c.fan_in as int));
    let r = with_cell(r, cell(h.file));
    let r = with_cell(r, cell(h.stable_id));
    r + "\n"@
}

fn add_candidate_row(out: &mut String, c: &ResolveCandidate)
    ensures
        final(out)@ == candidate_row(old(out)@, c@),
{
    let h = &c.hit;
    out.append("|");
    add_cell(out, &i64_text(h.id));
    add_cell(out, &cell_of(&h.name));
    add_cell(out, &cell_of(&h.qualified_name));
    add_cell(out, &cell_of(&h.kind));
    add_cell(out, &cell_of(&h.role));
    add_cell(out, &i64_text(c.fan_in));
    add_cell(out, &cell_of(&h.file));
    add_cell(out, &cell_of(&h.stable_id));
    out.append("\n");
}

/// `out` with rows on the first `n` candidates behind it.
pub open spec fn candidate_rows(out: Seq<char>, cs: Seq<RankedCandidateView>, n: int) -> Seq<char>
    decreases n,
{
    if n <= 0 {
        out
    } else {
        candidate_row(candidate_rows(out, cs, n - 1), cs[n - 1].candidate)
    }
}

/// The table on the candidates for a query: the best, and up to ten of them.
pub open spec fn resolution_table(
    query: Seq<char>,
    strategy: Seq<char>,
    cs: Seq<RankedCandidateView>,
) -> Seq<char> {
    let best = cs[0].candidate.hit;
    let head = "Resolved `"@ + query + "` using strategy `"@ + strategy + "` ("@ + dec(cs.len())
        + " candidate(s))\n"@ + "Selected: `sym:"@ + best.stable_id + "` (`"@ + best.name + "` in `"@
        + best.file + "`)\n"@
        + "| id | name | qualified_name | kind | role | fan_in | file | stable_id |\n"@
        + "|---:|---|---|---|---|---:|---|---|\n"@;
    candidate_rows(head, cs, up_to_ten(cs.len() as int))
}

/// Show what a query means: the best of the candidates that a strategy found, and others.
pub fn resolve(
    query: &str,
    strategy: &str,
    candidates: &Vec<ResolveCandidate>,
    prefer_role: &Option<String>,
    prefer_file: &Option<String>,
    md: bool,
) -> (r: Result<String, String>)
    ensures
        match r {
            Ok(out) => candidates@.len() > 0 && ({
                let cs = ranked_candidates(
                    views(candidates@),
                    prefer_role.deep_view(),
                    prefer_file.deep_view(),
                );
                out@ == if md {
                    resolution_table(query@, strategy@, cs)
                } else {
                    xml_text(resolution_document(query@, strategy@, cs))
                }
            }),
            Err(e) => candidates@.len() == 0 && e@ == "no symbol matched query '"@ + query@ + "'"@,
        },
{
    if candidates.len() == 0 {
        return Err(concat3("no symbol matched query '", query, "'"));
    }
    let ranked = rank_candidates(candidates, prefer_role, prefer_file);
    let ghost cs = views(ranked@);
    assert(cs.len() == ranked@.len());
    assert(cs[0] == ranked@[0]@);
    let best = &ranked[0].candidate.hit;
    let upto: usize = if ranked.len() < 10 {
        ranked.len()
    } else {
        10
    };
    if md {
        let mut out = concat3("Resolved `", query, "` using strategy `");
        out.append(strategy);
        out.append("` (");
        out.append(&usize_text(ranked.len()));
        out.append(" candidate(s))\n");
        out.append("Selected: `sym:");
        out.append(&best.stable_id);
        out.append("` (`");
        out.append(&best.name);
        out.append("` in `");
        out.append(&best.file);
        out.append("`)\n");
        out.append("| id | name | qualified_name | kind | role | fan_in | file | stable_id |\n");
        out.append("|---:|---|---|---|---|---:|---|---|\n");
        let ghost head = out@;
        let mut i: usize = 0;
        while i < upto
            invariant
                cs == views(ranked@),
                i <= upto <= ranked@.len(),
                out@ == candidate_rows(head, cs, i as int),
            decreases upto - i,
        {
            assert(cs[i as int] == ranked@[i as int]@);
            add_candidate_row(&mut out, &ranked[i].candidate);
            i = i + 1;
        }
        return Ok(out);
    }
    let mut w = new_writer();
    open_attrs(
        &mut w,
        "resolution",
        &Attrs::new().with("query", query).with("strategy", strategy).with(
            "candidates",
            &usize_text(ranked.len()),
        ).with("selected_id", &i64_text(best.id)),
    );
    append_symbol_xml(&mut w, best);
    if ranked.len() > 1 {
        open(&mut w, "alternatives");
        let ghost ev = xml_events(w);
        let mut i: usize = 1;
        while i < upto
            invariant
                cs == views(ranked@),
                1 <= i <= upto <= ranked@.len(),
                xml_events(w) == candidate_nodes(ev, cs, 1, i as int),
            decreases upto - i,
        {
            assert(cs[i as int] == ranked@[i as int]@);
            append_symbol_xml(&mut w, &ranked[i].candidate.hit);
            i = i + 1;
        }
        close(&mut w, "alternatives");
    }
    close(&mut w, "resolution");
    Ok(finish(w))
}

// ---------------------------------------------------------------------------
// Search
// ---------------------------------------------------------------------------

/// How symbols are searched for: by a pattern for their names, by how their qualified names
/// begin, or by words.
#[derive(Debug)]
pub enum SymbolQuery {
    Like(String),
    Prefix(String),
    FullText(String),
}

/// How symbols are searched for.
pub enum SearchBy {
    Like(Seq<char>),
    Prefix(Seq<char>),
    FullText(Seq<char>),
}

impl SymbolQuery {
    pub open spec fn view(&self) -> SearchBy {
        match self {
            SymbolQuery::Like(s) => SearchBy::Like(s@),
            SymbolQuery::Prefix(s) => SearchBy::Prefix(s@),
            SymbolQuery::FullText(s) => SearchBy::FullText(s@),
        }
    }
}

/// The query has a star elsewhere than at its end.
pub open spec fn infix_star(query: Seq<char>) -> bool {
    begins_with(query, "*"@) || has_str(trimmed_char_end(query, '*'), "*"@)
}

/// How a query searches for symbols: a qualified name with stars at its end, by how qualified
/// names begin; by a pattern where it has `::`, the prefix `sym:`, or a star within one word,
/// and each star stands for any text; by its words otherwise.
pub open spec fn search_by(query: Seq<char>) -> SearchBy {
    let key = symbol_key(query);
    if has_str(key, "::"@) && finishes_with(key, "*"@) && !infix_star(key) {
        SearchBy::Prefix(trimmed_char_end(key, '*'))
    } else if has_str(key, "::"@) || begins_with(query, "sym:"@) {
        SearchBy::Like(replaced(like_pattern(key), "*"@, "%"@))
    } else if infix_star(query) && !has_str(query, " "@) {
        SearchBy::Like("%"@ + replaced(key, "*"@, "%"@) + "%"@)
    } else {
        SearchBy::FullText(query)
    }
}

fn has_infix_star(query: &str) -> (r: bool)
    ensures
        r == infix_star(query@),
{
    let bare = trim_end_char(query, '*');
    starts_with(query, "*") || contains(&bare, "*")
}

/// How a query searches for symbols.
pub fn symbol_query(query: &str) -> (r: SymbolQuery)
    ensures
        r@ == search_by(query@),
{
    proof {
        reveal_strlit("*");
    }
    let key = key_of(query);
    let qualified = contains(&key, "::");
    if qualified && ends_with(&key, "*") && !has_infix_star(&key) {
        return SymbolQuery::Prefix(trim_end_char(&key, '*'));
    }
    if qualified || starts_with(query, "sym:") {
        return SymbolQuery::Like(replace(&like_of(&key), "*", "%"));
    }
    if has_infix_star(query) && !contains(query, " ") {
        let inner = replace(&key, "*", "%");
        return SymbolQuery::Like(concat3("%", &inner, "%"));
    }
    SymbolQuery::FullText(query.to_owned())
}

/// Those of the first `n` symbols whose qualified names begin with the prefix.
pub open spec fn hits_below(hits: Seq<SymbolHitView>, prefix: Seq<char>, n: int) -> Seq<SymbolHitView>
    decreases n,
{
    if n <= 0 {
        Seq::empty()
    } else if begins_with(hits[n - 1].qualified_name, prefix) {
        hits_below(hits, prefix, n - 1).push(hits[n - 1])
    } else {
        hits_below(hits, prefix, n - 1)
    }
}

/// The symbols whose qualified names begin with the prefix, in their order.
pub fn keep_below(hits: Vec<SymbolHit>, prefix: &str) -> (r: Vec<SymbolHit>)
    ensures
        views(r@) == hits_below(views(hits@), prefix@, hits@.len() as int),
{
    let ghost given = hits@;
    let mut out: Vec<SymbolHit> = Vec::new();
    for h in it: hits
        invariant
            it.seq() == given,
            views(out@) == hits_below(views(given), prefix@, it.index() as int),
    {
        assert(views(given)[it.index() as int] == h@);
        if starts_with(&h.qualified_name, prefix) {
            out.push(h);
        }
    }
    out
}

/// Every symbol whose qualified name begins with the prefix is found, and no other.
pub proof fn prefix_finds_all(hits: Seq<SymbolHitView>, prefix: Seq<char>, n: int, h: SymbolHitView)
    requires
        0 <= n <= hits.len(),
    ensures
        hits_below(hits, prefix, n).contains(h) <==> hits.take(n).contains(h) && begins_with(
            h.qualified_name,
            prefix,
        ),
    decreases n,
{
    if n > 0 {
        prefix_finds_all(hits, prefix, n - 1, h);
        let last = hits[n - 1];
        let rest = hits_below(hits, prefix, n - 1);
        assert(hits.take(n) =~= hits.take(n - 1).push(last));
        holds_more(hits.take(n - 1), last, h);
        holds_more(rest, last, h);
    }
}

proof fn holds_more(s: Seq<SymbolHitView>, x: SymbolHitView, h: SymbolHitView)
    ensures
        s.push(x).contains(h) <==> s.contains(h) || h == x,
{
    if s.contains(h) {
        let i = choose|i: int| 0 <= i < s.len() && s[i] == h;
        assert(s.push(x)[i] == h);
    }
    if h == x {
        assert(s.push(x)[s.len() as int] == h);
    }
    if s.push(x).contains(h) && h != x {
        let i = choose|i: int| 0 <= i < s.push(x).len() && s.push(x)[i] == h;
        assert(s[i] == h);
    }
}

/// A type's name with `::*` behind it asks for what is below the type.
pub proof fn stars_ask_for_members(name: Seq<char>)
    requires
        !has_str(name, "*"@),
        !begins_with(name + "::"@, "sym:"@),
    ensures
        search_by(name + "::*"@) == SearchBy::Prefix(name + "::"@),
{
    reveal_strlit("*");
    reveal_strlit("::");
    reveal_strlit("::*");
    reveal_strlit("sym:");
    let query = name + "::*"@;
    let bare = name + "::"@;
    let n = name.len() as int;
    assert(query.last() == '*');
    assert(query.drop_last() =~= bare);
    assert(bare.last() == ':');
    assert(trimmed_char_end(query, '*') == bare) by {
        reveal_with_fuel(trimmed_char_end, 2);
    }
    if begins_with(query, "sym:"@) {
        assert(query.take(4)[1] == 'y' && query.take(4)[3] == ':');
        assert(n >= 2);
        assert(bare.take(4) =~= query.take(4));
    }
    assert(query.subrange(n, n + 2) =~= "::"@);
    assert(occurs_at(query, "::"@, n));
    assert(query.skip(query.len() - 1) =~= "*"@);
    if begins_with(query, "*"@) {
        assert(query.take(1)[0] == '*');
        assert(name.subrange(0, 1) =~= "*"@);
        assert(occurs_at(name, "*"@, 0));
    }
    if has_str(bare, "*"@) {
        let i = choose|i: int| occurs_at(bare, "*"@, i);
        assert(bare.subrange(i, i + 1)[0] == '*');
        assert(bare[i] == '*');
        assert(name.subrange(i, i + 1) =~= "*"@);
        assert(occurs_at(name, "*"@, i));
    }
}

/// A character of a word that symbols are searched by.
pub open spec fn token_char(c: char) -> bool {
    alphanumeric(c) || c == '_' || c == ':'
}

/// Whether each character, given as in `marks`, belongs to a word: the longest runs of
/// characters that do.
pub open spec fn runs(s: Seq<char>, marks: Seq<bool>) -> Seq<Seq<char>>
    decreases s.len(),
{
    if s.len() == 0 {
        Seq::empty()
    } else {
        let rest = runs(s.drop_last(), marks);
        let n = s.len() as int;
        if !marks[n - 1] {
            rest
        } else if n == 1 || !marks[n - 2] {
            rest.push(seq![s.last()])
        } else {
            rest.drop_last().push(rest.last().push(s.last()))
        }
    }
}

/// Which characters belong to words.
pub open spec fn token_marks(s: Seq<char>) -> Seq<bool> {
    Seq::new(s.len(), |i: int| token_char(s[i]))
}

/// The longest runs of marked characters.
pub fn marked_runs(v: &Vec<char>, marks: &Vec<bool>) -> (r: Vec<String>)
    requires
        v@.len() == marks@.len(),
    ensures
        views(r@) == runs(v@, marks@),
{
    let ghost s = v@;
    let mut out: Vec<String> = Vec::new();
    let mut cur = String::new();
    let mut i: usize = 0;
    let mut inside = false;
    assert(s.take(0).len() == 0);
    while i < v.len()
        invariant
            v@ == s,
            v@.len() == marks@.len(),
            i <= v@.len(),
            inside == (i > 0 && marks@[i - 1]),
            inside ==> runs(s.take(i as int), marks@) == views(out@).push(cur@),
            !inside ==> runs(s.take(i as int), marks@) == views(out@) && cur@.len() == 0,
        decreases v@.len() - i,
    {
        let ghost t = s.take(i + 1);
        assert(t.drop_last() =~= s.take(i as int));
        let c = v[i];
        if !marks[i] {
            if inside {
                out.push(cur);
                cur = String::new();
            }
            inside = false;
        } else {
            let ghost before = cur@;
            cur.push(c);
            proof {
                if inside {
                    assert(views(out@).push(before).drop_last() =~= views(out@));
                } else {
                    assert(cur@ =~= seq![c]);
                }
            }
            inside = true;
        }
        i = i + 1;
    }
    assert(s.take(i as int) =~= s);
    if inside {
        out.push(cur);
    }
    out
}

/// The words of a query.
pub open spec fn tokens_of(query: Seq<char>) -> Seq<Seq<char>> {
    runs(query, token_marks(query))
}

fn query_tokens(query: &str) -> (r: Vec<String>)
    ensures
        views(r@) == tokens_of(query@),
{
    let v = chars_of(query);
    let mut marks: Vec<bool> = Vec::new();
    let mut i: usize = 0;
    while i < v.len()
        invariant
            v@ == query@,
            i <= v@.len(),
            marks@ =~= token_marks(query@).take(i as int),
        decreases v@.len() - i,
    {
        let c = v[i];
        marks.push(char_is_alphanumeric(c) || c == '_' || c == ':');
        i = i + 1;
    }
    assert(marks@ =~= token_marks(query@));
    marked_runs(&v, &marks)
}

/// The start of a statement that looks for words.
pub open spec fn token_sql_head() -> Seq<char> {
    "SELECT n.id, n.name, n.qualified_name, n.kind, n.role, n.file, n.signature, n.stable_id\n         FROM nodes n WHERE 1=1"@
}

/// The statement that looks for `n` words.
pub open spec fn token_sql_body(head: Seq<char>, n: int) -> Seq<char>
    decreases n,
{
    if n <= 0 {
        head
    } else {
        token_sql_body(head, n - 1)
            + " AND (n.name LIKE ? OR n.qualified_name LIKE ? OR n.stable_id LIKE ? OR n.signature LIKE ?)"@
    }
}

/// The statement that looks for `n` words, in one language where that is asked for.
pub open spec fn token_sql(n: int, in_language: bool) -> Seq<char> {
    let head = if in_language {
        token_sql_head() + " AND n.language = ?"@
    } else {
        token_sql_head()
    };
    token_sql_body(head, n) + " ORDER BY n.file, n.name, n.id"@
}

/// The values of the statement that looks for the first `n` words.
pub open spec fn token_params(head: Seq<Seq<char>>, tokens: Seq<Seq<char>>, n: int) -> Seq<
    Seq<char>,
>
    decreases n,
{
    if n <= 0 {
        head
    } else {
        let like = like_pattern(tokens[n - 1]);
        token_params(head, tokens, n - 1).push(like).push(like).push(like).push(like)
    }
}

/// The values of the statement that looks for words.
pub open spec fn token_values(tokens: Seq<Seq<char>>, language: Option<Seq<char>>) -> Seq<Seq<char>> {
    let head = match language {
        Some(l) => Seq::<Seq<char>>::empty().push(l),
        None => Seq::empty(),
    };
    token_params(head, tokens, tokens.len() as int)
}

/// The statement that looks for the words of a query wherever they stand, and its values;
/// none where the query has no words.
pub fn tokenized_like(query: &str, language: &Option<String>) -> (r: Option<(String, Vec<String>)>)
    ensures
        match r {
            Some(q) => tokens_of(query@).len() > 0 && q.0@ == token_sql(
                tokens_of(query@).len() as int,
                language is Some,
            ) && views(q.1@) == token_values(tokens_of(query@), language.deep_view()),
            None => tokens_of(query@).len() == 0,
        },
{
    let tokens = query_tokens(query);
    assert(views(tokens@).len() == tokens@.len());
    token_statement(&tokens, language)
}

/// The statement that looks for words wherever they stand, and its values; none where there
/// are no words.
pub fn token_statement(tokens: &Vec<String>, language: &Option<String>) -> (r: Option<
    (String, Vec<String>),
>)
    ensures
        match r {
            Some(q) => tokens@.len() > 0 && q.0@ == token_sql(
                tokens@.len() as int,
                language is Some,
            ) && views(q.1@) == token_values(views(tokens@), language.deep_view()),
            None => tokens@.len() == 0,
        },
{
    if tokens.len() == 0 {
        return None;
    }
    let mut sql =
        "SELECT n.id, n.name, n.qualified_name, n.kind, n.role, n.file, n.signature, n.stable_id\n         FROM nodes n WHERE 1=1".to_owned();
    let mut params: Vec<String> = Vec::new();
    if let Some(l) = language {
        sql.append(" AND n.language = ?");
        params.push(l.dup());
    }
    let ghost head = sql@;
    let ghost first = views(params@);
    let mut i: usize = 0;
    while i < tokens.len()
        invariant
            i <= tokens@.len(),
            sql@ == token_sql_body(head, i as int),
            views(params@) == token_params(first, views(tokens@), i as int),
        decreases tokens@.len() - i,
    {
        assert(views(tokens@)[i as int] == tokens@[i as int]@);
        sql.append(
            " AND (n.name LIKE ? OR n.qualified_name LIKE ? OR n.stable_id LIKE ? OR n.signature LIKE ?)",
        );
        let like = like_of(&tokens[i]);
        params.push(like.dup());
        params.push(like.dup());
        params.push(like.dup());
        params.push(like);
        i = i + 1;
    }
    sql.append(" ORDER BY n.file, n.name, n.id");
    Some((sql, params))
}

/// Which of the symbols that were found are wanted.
#[derive(Debug)]
pub struct SymbolFilter {
    /// A text that the file must hold.
    pub file: Option<String>,
    pub context: Option<String>,
    pub crate_name: Option<String>,
    pub exclude_tests: bool,
}

/// What a [`SymbolFilter`] holds.
#[verifier::ext_equal]
pub struct SymbolFilterView {
    pub file: Option<Seq<char>>,
    pub context: Option<Seq<char>>,
    pub crate_name: Option<Seq<char>>,
    pub exclude_tests: bool,
}

impl DeepView for SymbolFilter {
    type V = SymbolFilterView;

    open spec fn deep_view(&self) -> SymbolFilterView {
        SymbolFilterView {
            file: self.file.deep_view(),
            context: self.context.deep_view(),
            crate_name: self.crate_name.deep_view(),
            exclude_tests: self.exclude_tests.deep_view(),
        }
    }
}

impl View for SymbolFilter {
    type V = SymbolFilterView;

    open spec fn view(&self) -> SymbolFilterView {
        self.deep_view()
    }
}

/// The symbol is wanted.
pub open spec fn hit_wanted(
    h: SymbolHitView,
    f: SymbolFilterView,
    ws: Option<WorkspaceGraphView>,
) -> bool {
    &&& f.file matches Some(t) ==> has_str(h.file, t)
    &&& f.context matches Some(c) ==> context_of(h.file) == c
    &&& f.crate_name matches Some(n) ==> ws is Some && crate_of(ws->0, h.file) == Some(n)
    &&& f.exclude_tests ==> !testish(h.file, h.role)
}

/// Whether the symbol is wanted.
pub fn is_hit_wanted(h: &SymbolHit, f: &SymbolFilter, ws: &Option<WorkspaceGraph>) -> (r: bool)
    ensures
        r == hit_wanted(h@, f@, ws.deep_view()),
{
    if let Some(t) = &f.file {
        if !contains(&h.file, t) {
            return false;
        }
    }
    if let Some(c) = &f.context {
        if !str_eq(&file_to_context(&h.file), c) {
            return false;
        }
    }
    if let Some(n) = &f.crate_name {
        let owner = match ws {
            Some(g) => crate_for_file_path(g, &h.file),
            None => None,
        };
        match owner {
            Some(o) => {
                if !str_eq(&o, n) {
                    return false;
                }
            },
            None => {
                return false;
            },
        }
    }
    !(f.exclude_tests && is_testish(&h.file, &h.role))
}

/// The wanted ones of the first `n` symbols, in their order.
pub open spec fn wanted_hits(
    hits: Seq<SymbolHitView>,
    f: SymbolFilterView,
    ws: Option<WorkspaceGraphView>,
    n: int,
) -> Seq<SymbolHitView>
    decreases n,
{
    if n <= 0 {
        Seq::empty()
    } else {
        let rest = wanted_hits(hits, f, ws, n - 1);
        if hit_wanted(hits[n - 1], f, ws) {
            rest.push(hits[n - 1])
        } else {
            rest
        }
    }
}

fn filter_hits(hits: Vec<SymbolHit>, f: &SymbolFilter, ws: &Option<WorkspaceGraph>) -> (r: Vec<
    SymbolHit,
>)
    ensures
        views(r@) == wanted_hits(views(hits@), f@, ws.deep_view(), hits@.len() as int),
{
    let ghost all = views(hits@);
    let mut out: Vec<SymbolHit> = Vec::new();
    for h in it: hits
        invariant
            views(it.seq()) == all,
            views(out@) == wanted_hits(all, f@, ws.deep_view(), it.index() as int),
    {
        assert(views(it.seq())[it.index() as int] == h@);
        if is_hit_wanted(&h, f, ws) {
            out.push(h);
        }
    }
    out
}

/// The document with the first `n` symbols.
pub open spec fn hit_nodes(ev: Seq<Node>, hits: Seq<SymbolHitView>, n: int) -> Seq<Node>
    decreases n,
{
    if n <= 0 {
        ev
    } else {
        hit_node(hit_nodes(ev, hits, n - 1), hits[n - 1])
    }
}

/// The document on the symbols that were found.
pub open spec fn symbols_document(hits: Seq<SymbolHitView>) -> Seq<Node> {
    with_close(
        hit_nodes(with_open(Seq::empty(), "symbols"@, no_attrs()), hits, hits.len() as int),
        "symbols"@,
    )
}

/// `out` with a row on a symbol behind it.
pub open spec fn hit_row(out: Seq<char>, h: SymbolHitView) -> Seq<char> {
    let r = with_cell(out + "|"@, int_text(h.id as int));
    let r = with_cell(r, cell(h.name));
    let r = with_cell(r, cell(h.qualified_name));
    let r = with_cell(r, cell(h.kind));
    let r = with_cell(r, cell(h.role));
    let r = with_cell(r, cell(h.file));
    let r = with_cell(r, cell(or_text(h.signature, ""@)));
    let r = with_cell(r, cell(h.stable_id));
    r + "\n"@
}

/// `out` with rows on the first `n` symbols behind it.
pub open spec fn hit_rows(out: Seq<char>, hits: Seq<SymbolHitView>, n: int) -> Seq<char>
    decreases n,
{
    if n <= 0 {
        out
    } else {
        hit_row(hit_rows(out, hits, n - 1), hits[n - 1])
    }
}

/// The table on the symbols that were found.
pub open spec fn symbols_table(hits: Seq<SymbolHitView>) -> Seq<char> {
    hit_rows(
        "| id | name | qualified_name | kind | role | file | signature | stable_id |\n"@
            + "|---:|---|---|---|---|---|---|---|\n"@,
        hits,
        hits.len() as int,
    )
}

fn add_hit_row(out: &mut String, h: &SymbolHit)
    ensures
        final(out)@ == hit_row(old(out)@, h@),
{
    out.append("|");
    add_cell(out, &i64_text(h.id));
    add_cell(out, &cell_of(&h.name));
    add_cell(out, &cell_of(&h.qualified_name));
    add_cell(out, &cell_of(&h.kind));
    add_cell(out, &cell_of(&h.role));
    add_cell(out, &cell_of(&h.file));
    add_cell(out, &cell_of(&text_or(&h.signature, "")));
    add_cell(out, &cell_of(&h.stable_id));
    out.append("\n");
}

/// Show the wanted ones of the symbols that were found.
pub fn symbols(hits: Vec<SymbolHit>, filter: &SymbolFilter, ws: &Option<WorkspaceGraph>, md: bool) -> (r:
    String)
    ensures
        ({
            let wanted = wanted_hits(
                views(hits@),
                filter@,
                ws.deep_view(),
                hits@.len() as int,
            );
            r@ == if md {
                symbols_table(wanted)
            } else {
                xml_text(symbols_document(wanted))
            }
        }),
{
    let rows = filter_hits(hits, filter, ws);
    let ghost wanted = views(rows@);
    assert(wanted.len() == rows@.len());
    if md {
        let mut out = concat2(
            "| id | name | qualified_name | kind | role | file | signature | stable_id |\n",
            "|---:|---|---|---|---|---|---|---|\n",
        );
        let ghost head = out@;
        let mut i: usize = 0;
        while i < rows.len()
            invariant
                wanted == views(rows@),
                i <= rows@.len(),
                out@ == hit_rows(head, wanted, i as int),
            decreases rows@.len() - i,
        {
            assert(wanted[i as int] == rows@[i as int]@);
            add_hit_row(&mut out, &rows[i]);
            i = i + 1;
        }
        return out;
    }
    let mut w = new_writer();
    open(&mut w, "symbols");
    let ghost ev = xml_events(w);
    let mut i: usize = 0;
    while i < rows.len()
        invariant
            wanted == views(rows@),
            i <= rows@.len(),
            xml_events(w) == hit_nodes(ev, wanted, i as int),
        decreases rows@.len() - i,
    {
        assert(wanted[i as int] == rows@[i as int]@);
        append_symbol_xml(&mut w, &rows[i]);
        i = i + 1;
    }
    close(&mut w, "symbols");
    finish(w)
}

// ---------------------------------------------------------------------------
// What is found
// ---------------------------------------------------------------------------

/// An argument that writes a number means the symbol with that id. Any other means the symbol
/// with that stable id, where it holds `::` and there is one, and else the best of that name.
pub proof fn arguments_mean_symbols(
    arg: Seq<char>,
    by_stable: Option<i64>,
    by_name: Option<i64>,
    by_qualified: Option<i64>,
)
    ensures
        int_value(arg) is Some ==> symbol_id(arg, by_stable, by_name) == int_value(arg),
        int_value(arg) is None && has_str(symbol_key(arg), "::"@) && by_stable is Some
            ==> symbol_id(arg, by_stable, by_name) == Some(by_stable->0 as int),
        int_value(arg) is None && (!has_str(symbol_key(arg), "::"@) || by_stable is None)
            && by_name is Some ==> symbol_id(arg, by_stable, by_name) == Some(by_name->0 as int),
        int_value(arg) is None && (!has_str(symbol_key(arg), "::"@) || by_stable is None)
            && by_name is None ==> symbol_id(arg, by_stable, by_name) is None && target_id(
            arg,
            by_stable,
            by_name,
            by_qualified,
        ) == match by_qualified {
            Some(q) => Some(q as int),
            None => None,
        },
        symbol_id(arg, by_stable, by_name) is Some ==> target_id(
            arg,
            by_stable,
            by_name,
            by_qualified,
        ) == symbol_id(arg, by_stable, by_name),
{
}

/// The key of an argument is what stands behind `sym:`, or the argument itself.
pub proof fn keys_stand_behind_the_mark(key: Seq<char>)
    ensures
        symbol_key("sym:"@ + key) == key,
        !begins_with(key, "sym:"@) ==> symbol_key(key) == key,
{
    reveal_strlit("sym:");
    let arg = "sym:"@ + key;
    assert(arg.take(4) =~= "sym:"@);
    assert(arg.skip(4) =~= key);
}

/// Of several symbols of a name, no test is chosen where there is another; then the one with
/// the most callers, then the one whose file comes first, then the one with the least id.
pub proof fn best_of_a_name(found: Seq<NameMatchView>, j: int)
    requires
        0 <= j < found.len(),
    ensures
        ({
            let b = stable_sorted::<NameMatch>(found)[0];
            let o = found[j];
            &&& exists|i: int| 0 <= i < found.len() && #[trigger] found[i] == b
            &&& b.role == "test"@ ==> o.role == "test"@
            &&& (b.role == "test"@) == (o.role == "test"@) ==> b.fan_in >= o.fan_in
            &&& (b.role == "test"@) == (o.role == "test"@) && b.fan_in == o.fan_in
                ==> !lex_before(o.file, b.file)
            &&& (b.role == "test"@) == (o.role == "test"@) && b.fan_in == o.fan_in && b.file
                == o.file ==> b.id <= o.id
        }),
{
    crate::order::first_is_least::<NameMatch>(found);
    let b = stable_sorted::<NameMatch>(found)[0];
    assert(!NameMatch::before(found[j], b));
    crate::text::lex_is_order(b.file, b.file, b.file);
}

/// The candidate that is selected is one of the candidates. Those of the preferred role come
/// before all others, then those of a preferred file, then those with more callers, then those
/// that are no tests, then those whose file comes first, then those with a lesser id.
pub proof fn selection_follows_preferences(
    cs: Seq<ResolveCandidateView>,
    role: Option<Seq<char>>,
    file: Option<Seq<char>>,
    j: int,
)
    requires
        0 <= j < cs.len(),
    ensures
        ({
            let b = ranked_candidates(cs, role, file)[0].candidate;
            let o = cs[j];
            let b_role = role is Some && role == Some(b.hit.role);
            let o_role = role is Some && role == Some(o.hit.role);
            let b_file = file is Some && has_str(b.hit.file, file->0);
            let o_file = file is Some && has_str(o.hit.file, file->0);
            let b_test = b.hit.role == "test"@;
            let o_test = o.hit.role == "test"@;
            &&& exists|i: int| 0 <= i < cs.len() && #[trigger] cs[i] == b
            &&& o_role ==> b_role
            &&& o_role == b_role && o_file ==> b_file
            &&& o_role == b_role && o_file == b_file ==> b.fan_in >= o.fan_in
            &&& o_role == b_role && o_file == b_file && o.fan_in == b.fan_in && b_test ==> o_test
            &&& o_role == b_role && o_file == b_file && o.fan_in == b.fan_in && b_test == o_test
                ==> !lex_before(o.hit.file, b.hit.file)
            &&& o_role == b_role && o_file == b_file && o.fan_in == b.fan_in && b_test == o_test
                && b.hit.file == o.hit.file ==> b.hit.id <= o.hit.id
        }),
{
    let rs = Seq::new(cs.len(), |i: int| ranked_candidate(cs[i], role, file));
    crate::order::first_is_least::<RankedCandidate>(rs);
    let b = ranked_candidates(cs, role, file)[0];
    let i = choose|i: int| 0 <= i < rs.len() && #[trigger] rs[i] == b;
    assert(rs[i] == ranked_candidate(cs[i], role, file));
    assert(cs[i] == b.candidate);
    assert(rs[j] == ranked_candidate(cs[j], role, file));
    assert(!RankedCandidate::before(rs[j], b));
    crate::text::lex_is_order(cs[j].hit.file, cs[j].hit.file, cs[j].hit.file);
}

/// Every candidate is ranked, and nothing else.
pub proof fn all_candidates_are_ranked(
    cs: Seq<ResolveCandidateView>,
    role: Option<Seq<char>>,
    file: Option<Seq<char>>,
    j: int,
)
    requires
        0 <= j < cs.len(),
    ensures
        ranked_candidates(cs, role, file).len() == cs.len(),
        exists|i: int|
            0 <= i < cs.len() && (#[trigger] ranked_candidates(cs, role, file)[i]).candidate
                == cs[j],
{
    let rs = Seq::new(cs.len(), |i: int| ranked_candidate(cs[i], role, file));
    sorting_orders::<RankedCandidate>(rs);
    crate::order::sorting_keeps_items::<RankedCandidate>(rs, rs[j]);
    assert(rs.contains(rs[j]));
    let t = ranked_candidates(cs, role, file);
    let i = choose|i: int| 0 <= i < t.len() && t[i] == rs[j];
    assert(t[i].candidate == cs[j]);
}

/// How a query is resolved, in order: a number by its id alone; a text with `::` as a stable
/// id, then as a qualified name, then as parts of a path; and every text as a name, then as a
/// part of one.
pub proof fn queries_are_resolved_in_order(query: Seq<char>)
    ensures
        ({
            let key = trimmed(symbol_key(query));
            let plan = plan_of(query);
            &&& key.len() > 0 && int_value(key) is Some ==> plan.len() == 1 && plan[0].1
                == LookupBy::Id(int_value(key)->0)
            &&& key.len() > 0 && int_value(key) is None && has_str(key, "::"@) ==> plan.len() == 5
                && plan[0].1 == LookupBy::StableId(key) && plan[1].1 == LookupBy::QualifiedName(key)
                && plan[2].1 == LookupBy::Namespace(
                "%"@ + replaced(key, "::"@, "%"@) + "%"@,
            ) && plan[3].1 == LookupBy::Name(key) && plan[4].1 == LookupBy::Substring(
                "%"@ + replaced(key, "::"@, "%"@) + "%"@,
            )
            &&& key.len() > 0 && int_value(key) is None && !has_str(key, "::"@) ==> plan.len() == 2
                && plan[0].1 == LookupBy::Name(key) && plan[1].1 == LookupBy::Substring(
                "%"@ + replaced(key, "::"@, "%"@) + "%"@,
            )
            &&& key.len() == 0 ==> plan.len() == 1 && plan[0].1 == LookupBy::Nothing
        }),
{
}

/// A query of words is searched for as it is. One with `sym:` or `::` before its end is a
/// pattern in which each star, and each `::`, stands for any text; and so is one with a star
/// before or within a word.
pub proof fn queries_are_searched_for(query: Seq<char>)
    ensures
        !has_str(query, "*"@) && !has_str(query, "::"@) && !begins_with(query, "sym:"@)
            ==> search_by(query) == SearchBy::FullText(query),
        has_str(query, "::"@) && !has_str(query, "*"@) && !begins_with(query, "sym:"@)
            ==> search_by(query) == SearchBy::Like(
            replaced("%"@ + replaced(query, "::"@, "%"@) + "%"@, "*"@, "%"@),
        ),
        begins_with(query, "*"@) && !has_str(query, "::"@) && !has_str(query, " "@) ==> search_by(
            query,
        ) == SearchBy::Like("%"@ + replaced(query, "*"@, "%"@) + "%"@),
{
    reveal_strlit("*");
    reveal_strlit("sym:");
    if !has_str(query, "*"@) {
        if begins_with(query, "*"@) {
            assert(query.subrange(0, 1) =~= "*"@);
            assert(crate::text::occurs_at(query, "*"@, 0));
        }
        no_star_is_cut(query);
        if finishes_with(query, "*"@) {
            let n = query.len() as int;
            assert(query.subrange(n - 1, n) =~= query.skip(n - 1));
            assert(crate::text::occurs_at(query, "*"@, n - 1));
        }
    }
    if begins_with(query, "*"@) {
        assert(query.take(1)[0] == '*');
        if begins_with(query, "sym:"@) {
            assert(query.take(4)[0] == 's');
        }
    }
}

proof fn no_star_is_cut(query: Seq<char>)
    requires
        !has_str(query, "*"@),
    ensures
        trimmed_char_end(query, '*') == query,
{
    reveal_strlit("*");
    if query.len() > 0 && query.last() == '*' {
        let n = query.len() as int;
        assert(query.subrange(n - 1, n) =~= "*"@);
        assert(crate::text::occurs_at(query, "*"@, n - 1));
    }
}

/// What is shown of the hits is each one that lies in a file with the text, in the context and
/// in the crate asked for and, where tests are left out, is no test; in the order of the hits.
pub proof fn filters_narrow(
    hits: Seq<SymbolHitView>,
    f: SymbolFilterView,
    ws: Option<WorkspaceGraphView>,
    n: int,
)
    requires
        0 <= n <= hits.len(),
    ensures
        wanted_hits(hits, f, ws, n) == hits.take(n).filter(
            |h: SymbolHitView|
                (f.file is Some ==> has_str(h.file, f.file->0)) && (f.context is Some
                    ==> f.context == Some(context_of(h.file))) && (f.crate_name is Some ==> (ws
                    matches Some(g) && crate_of(g, h.file) == f.crate_name)) && (f.exclude_tests
                    ==> !testish(h.file, h.role)),
        ),
    decreases n,
{
    reveal(Seq::filter);
    if n > 0 {
        filters_narrow(hits, f, ws, n - 1);
        assert(hits.take(n).drop_last() =~= hits.take(n - 1));
        assert(hits.take(n).last() == hits[n - 1]);
    }
}

/// What counts as a test in a search: what has that role, lies in a directory `tests` or in a
/// file that is named as tests are, whatever the case of its path.
pub proof fn tests_are_known(file: Seq<char>, role: Seq<char>)
    ensures
        role == "test"@ ==> testish(file, role),
        testish(file, role) && role != "test"@ ==> ({
            let p = ascii_lower(plain_path(file));
            has_str(p, "/tests/"@) || begins_with(p, "tests/"@) || finishes_with(p, "_test.rs"@)
                || finishes_with(p, ".test.ts"@) || finishes_with(p, ".test.js"@) || finishes_with(
                p,
                ".spec.ts"@,
            ) || finishes_with(p, ".spec.js"@)
        }),
        ({
            let p = ascii_lower(plain_path(file));
            has_str(p, "/tests/"@) || begins_with(p, "tests/"@) || finishes_with(p, "_test.rs"@)
                || finishes_with(p, ".test.ts"@) || finishes_with(p, ".test.js"@) || finishes_with(
                p,
                ".spec.ts"@,
            ) || finishes_with(p, ".spec.js"@)
        }) ==> testish(file, role),
{
}

/// What is said of a hit: its id, its names, its kind, role, file and stable id, and its
/// signature where it has one.
pub open spec fn tells_of(a: Seq<(Seq<char>, Seq<char>)>, h: SymbolHitView) -> bool {
    &&& a.contains(("id"@, int_text(h.id as int)))
    &&& a.contains(("name"@, h.name))
    &&& a.contains(("qualified_name"@, h.qualified_name))
    &&& a.contains(("kind"@, h.kind))
    &&& a.contains(("role"@, h.role))
    &&& a.contains(("file"@, h.file))
    &&& a.contains(("stable_id"@, h.stable_id))
    &&& h.signature is Some ==> a.contains(("signature"@, h.signature->0))
    &&& h.signature is None ==> a.len() == 7
}

proof fn hits_are_told(h: SymbolHitView)
    ensures
        tells_of(hit_attrs(h), h),
{
    let a = hit_attrs(h);
    assert(a[0] == ("id"@, int_text(h.id as int)));
    assert(a[1] == ("name"@, h.name));
    assert(a[2] == ("qualified_name"@, h.qualified_name));
    assert(a[3] == ("kind"@, h.kind));
    assert(a[4] == ("role"@, h.role));
    assert(a[5] == ("file"@, h.file));
    assert(a[6] == ("stable_id"@, h.stable_id));
    if h.signature is Some {
        assert(a[7] == ("signature"@, h.signature->0));
    }
}

/// The document of a search shows each hit as one tag, in order, and nothing else.
pub proof fn hits_are_shown(hits: Seq<SymbolHitView>, i: int)
    requires
        0 <= i < hits.len(),
    ensures
        symbols_document(hits).len() == hits.len() + 2,
        symbols_document(hits)[i + 1] matches Node::Empty(tag, a) && tag == "symbol"@ && tells_of(
            a,
            hits[i],
        ),
{
    let start = with_open(Seq::empty(), "symbols"@, no_attrs());
    hit_tags(start, hits, hits.len() as int, i);
    hits_are_told(hits[i]);
}

proof fn hit_tags(ev: Seq<Node>, hits: Seq<SymbolHitView>, n: int, i: int)
    requires
        0 <= n <= hits.len(),
    ensures
        hit_nodes(ev, hits, n).len() == ev.len() + n,
        0 <= i < n ==> hit_nodes(ev, hits, n)[ev.len() + i] == Node::Empty(
            "symbol"@,
            hit_attrs(hits[i]),
        ),
    decreases n,
{
    if n > 0 {
        hit_tags(ev, hits, n - 1, i);
    }
}

/// The document of a resolution names the query and selects the first of the ranked
/// candidates, which it shows first; up to nine more follow in their order.
pub proof fn the_selected_is_shown_first(
    query: Seq<char>,
    strategy: Seq<char>,
    cs: Seq<RankedCandidateView>,
    i: int,
)
    requires
        cs.len() > 0,
        0 < i < cs.len(),
        i < 10,
    ensures
        ({
            let d = resolution_document(query, strategy, cs);
            &&& d[0] matches Node::Start(tag, a) && tag == "resolution"@ && a.contains(
                ("query"@, query),
            ) && a.contains(("strategy"@, strategy)) && a.contains(("candidates"@, dec(cs.len())))
                && a.contains(("selected_id"@, int_text(cs[0].candidate.hit.id as int)))
            &&& d[1] matches Node::Empty(tag, a) && tag == "symbol"@ && tells_of(
                a,
                cs[0].candidate.hit,
            )
            &&& d[i + 2] matches Node::Empty(tag, a) && tag == "symbol"@ && tells_of(
                a,
                cs[i].candidate.hit,
            )
        }),
{
    let best = cs[0].candidate.hit;
    let head = no_attrs()
        .push(("query"@, query))
        .push(("strategy"@, strategy))
        .push(("candidates"@, dec(cs.len())))
        .push(("selected_id"@, int_text(best.id as int)));
    assert(head[0] == ("query"@, query));
    assert(head[1] == ("strategy"@, strategy));
    assert(head[2] == ("candidates"@, dec(cs.len())));
    assert(head[3] == ("selected_id"@, int_text(best.id as int)));
    let ev = with_open(
        hit_node(with_open(Seq::empty(), "resolution"@, head), best),
        "alternatives"@,
        no_attrs(),
    );
    let m = up_to_ten(cs.len() as int);
    alternative_tags(ev, cs, m, i);
    let d = resolution_document(query, strategy, cs);
    let inner = candidate_nodes(ev, cs, 1, m);
    assert(d[0] == inner[0] && inner[0] == ev[0]);
    assert(d[1] == inner[1] && inner[1] == ev[1]);
    assert(d[i + 2] == inner[i + 2]);
    hits_are_told(best);
    hits_are_told(cs[i].candidate.hit);
}

proof fn alternative_tags(ev: Seq<Node>, cs: Seq<RankedCandidateView>, n: int, i: int)
    requires
        1 <= n <= cs.len(),
    ensures
        candidate_nodes(ev, cs, 1, n).len() == ev.len() + n - 1,
        forall|k: int| 0 <= k < ev.len() ==> candidate_nodes(ev, cs, 1, n)[k] == ev[k],
        1 <= i < n ==> candidate_nodes(ev, cs, 1, n)[ev.len() + i - 1] == Node::Empty(
            "symbol"@,
            hit_attrs(cs[i].candidate.hit),
        ),
    decreases n,
{
    if n > 1 {
        alternative_tags(ev, cs, n - 1, i);
    }
}

/// A key is looked for anywhere in a name, with anything between its segments.
pub proof fn keys_match_anywhere(key: Seq<char>)
    ensures
        like_pattern(key) == "%"@ + crate::text::joined(
            crate::text::split_at_str(key, "::"@),
            "%"@,
        ) + "%"@,
{
    reveal_strlit("::");
    crate::text::replacing_splits_and_joins(key, "::"@, "%"@);
}

proof fn trailing_go(s: Seq<char>, c: char)
    ensures
        trimmed_char_end(s, c).len() <= s.len(),
        trimmed_char_end(s, c) == s.take(trimmed_char_end(s, c).len() as int),
        forall|i: int| trimmed_char_end(s, c).len() <= i < s.len() ==> s[i] == c,
        trimmed_char_end(s, c).len() > 0 ==> trimmed_char_end(s, c).last() != c,
    decreases s.len(),
{
    if s.len() > 0 && s.last() == c {
        let t = s.drop_last();
        trailing_go(t, c);
        let m = trimmed_char_end(t, c).len() as int;
        assert(s.take(m) =~= t.take(m));
        assert forall|i: int| m <= i < s.len() implies s[i] == c by {
            if i < t.len() {
                assert(t[i] == s[i]);
            }
        }
    } else {
        assert(s.take(s.len() as int) =~= s);
    }
}

/// A star stands where no search can use it: at the start of a query, or with something other
/// than stars behind it.
pub proof fn only_trailing_stars_are_of_use(query: Seq<char>)
    ensures
        infix_star(query) <==> exists|i: int|
            0 <= i < query.len() && #[trigger] query[i] == '*' && (i == 0 || exists|j: int|
                i < j < query.len() && #[trigger] query[j] != '*'),
{
    reveal_strlit("*");
    trailing_go(query, '*');
    let t = trimmed_char_end(query, '*');
    let m = t.len() as int;
    if begins_with(query, "*"@) {
        assert(query.take(1)[0] == query[0]);
        assert(query[0] == '*');
    }
    if has_str(t, "*"@) {
        let i = choose|i: int| occurs_at(t, "*"@, i);
        assert(t.subrange(i, i + 1)[0] == t[i]);
        assert(query[i] == t[i]);
        assert(query[m - 1] == t[m - 1]);
        assert(t.last() != '*');
        assert(i < m - 1);
    }
    if exists|i: int|
        0 <= i < query.len() && #[trigger] query[i] == '*' && (i == 0 || exists|j: int|
            i < j < query.len() && #[trigger] query[j] != '*') {
        let i = choose|i: int|
            0 <= i < query.len() && #[trigger] query[i] == '*' && (i == 0 || exists|j: int|
                i < j < query.len() && #[trigger] query[j] != '*');
        if i == 0 {
            assert(query.take(1) =~= "*"@);
        } else {
            let j = choose|j: int| i < j < query.len() && #[trigger] query[j] != '*';
            assert(j < m);
            assert(t[i] == query[i]);
            assert(t.subrange(i, i + 1) =~= "*"@);
            assert(occurs_at(t, "*"@, i));
        }
    }
}

proof fn runs_look_at_their_own(s: Seq<char>, a: Seq<bool>, b: Seq<bool>)
    requires
        s.len() <= a.len(),
        s.len() <= b.len(),
        forall|i: int| 0 <= i < s.len() ==> a[i] == b[i],
    ensures
        runs(s, a) == runs(s, b),
    decreases s.len(),
{
    if s.len() > 0 {
        runs_look_at_their_own(s.drop_last(), a, b);
    }
}

proof fn run_goes_on(s: Seq<char>)
    requires
        s.len() > 0,
        token_char(s.last()),
    ensures
        tokens_of(s).len() > 0,
        s.len() > 1 && token_char(s[s.len() - 2]) ==> tokens_of(s.drop_last()).len() > 0,
    decreases s.len(),
{
    let t = s.drop_last();
    runs_look_at_their_own(t, token_marks(s), token_marks(t));
    assert(token_marks(s)[s.len() - 1]);
    if s.len() > 1 && token_char(s[s.len() - 2]) {
        assert(t.last() == s[s.len() - 2]);
        run_goes_on(t);
    }
}

/// Letters, digits, low lines and colons make tokens; anything else parts them.
pub proof fn other_signs_part_tokens(a: Seq<char>, c: char, b: Seq<char>)
    requires
        !alphanumeric(c),
        c != '_',
        c != ':',
    ensures
        tokens_of(a + seq![c] + b) == tokens_of(a) + tokens_of(b),
    decreases b.len(),
{
    let s = a + seq![c] + b;
    let n = s.len() as int;
    let t = s.drop_last();
    runs_look_at_their_own(t, token_marks(s), token_marks(t));
    if b.len() == 0 {
        assert(t =~= a);
        assert(s.last() == c);
        assert(!token_marks(s)[n - 1]);
        assert(tokens_of(b) =~= Seq::empty());
        assert(tokens_of(a) + tokens_of(b) =~= tokens_of(a));
    } else {
        let d = b.drop_last();
        assert(t =~= a + seq![c] + d);
        other_signs_part_tokens(a, c, d);
        runs_look_at_their_own(d, token_marks(b), token_marks(d));
        assert(s.last() == b.last());
        assert(token_marks(s)[n - 1] == token_marks(b)[b.len() - 1]);
        if token_char(b.last()) {
            if b.len() == 1 {
                assert(s[n - 2] == c);
                assert(tokens_of(d) =~= Seq::empty());
                assert(tokens_of(s) =~= tokens_of(a) + tokens_of(b));
            } else {
                assert(s[n - 2] == b[b.len() - 2]);
                assert(token_marks(s)[n - 2] == token_marks(b)[b.len() - 2]);
                if !token_char(b[b.len() - 2]) {
                    assert(tokens_of(s) =~= tokens_of(a) + tokens_of(b));
                } else {
                    run_goes_on(b);
                    let w = tokens_of(t);
                    assert(w.last() == tokens_of(d).last());
                    assert(w.drop_last() =~= tokens_of(a) + tokens_of(d).drop_last());
                    assert(tokens_of(s) =~= tokens_of(a) + tokens_of(b));
                }
            }
        }
    }
}

/// A text of nothing but such signs is one token.
pub proof fn whole_texts_are_tokens(s: Seq<char>)
    requires
        s.len() > 0,
        forall|i: int|
            0 <= i < s.len() ==> alphanumeric(#[trigger] s[i]) || s[i] == '_' || s[i] == ':',
    ensures
        tokens_of(s) == seq![s],
    decreases s.len(),
{
    let t = s.drop_last();
    runs_look_at_their_own(t, token_marks(s), token_marks(t));
    assert(token_char(s[s.len() - 1]));
    assert(token_marks(s)[s.len() - 1]);
    if s.len() > 1 {
        assert forall|i: int| 0 <= i < t.len() implies alphanumeric(#[trigger] t[i]) || t[i] == '_'
            || t[i] == ':' by {
            assert(t[i] == s[i]);
        }
        whole_texts_are_tokens(t);
        assert(token_char(s[s.len() - 2]));
        assert(token_marks(s)[s.len() - 2]);
        assert(t.push(s.last()) =~= s);
        assert(tokens_of(s) =~= seq![s]);
    } else {
        assert(seq![s.last()] =~= s);
        assert(runs(t, token_marks(s)) =~= Seq::empty());
        assert(tokens_of(s) =~= seq![s]);
    }
}

/// Each token is given four times, once for each column that it is looked for in, behind the
/// language where one is asked for.
pub proof fn tokens_are_given_four_times(
    tokens: Seq<Seq<char>>,
    language: Option<Seq<char>>,
    i: int,
)
    requires
        0 <= i < tokens.len(),
    ensures
        ({
            let all = token_values(tokens, language);
            let at = (if language is Some {
                1int
            } else {
                0int
            }) + 4 * i;
            &&& all.len() == 4 * tokens.len() + if language is Some {
                1int
            } else {
                0int
            }
            &&& language matches Some(l) ==> all[0] == l
            &&& all[at] == like_pattern(tokens[i]) && all[at + 1] == like_pattern(tokens[i])
            &&& all[at + 2] == like_pattern(tokens[i]) && all[at + 3] == like_pattern(tokens[i])
        }),
{
    let head = match language {
        Some(l) => Seq::<Seq<char>>::empty().push(l),
        None => Seq::empty(),
    };
    params_stand_in_order(head, tokens, tokens.len() as int, i);
}

proof fn params_stand_in_order(head: Seq<Seq<char>>, tokens: Seq<Seq<char>>, n: int, i: int)
    requires
        0 <= i < n <= tokens.len(),
    ensures
        token_params(head, tokens, n).len() == head.len() + 4 * n,
        head.len() > 0 ==> token_params(head, tokens, n)[0] == head[0],
        forall|k: int|
            head.len() + 4 * i <= k < head.len() + 4 * i + 4 ==> #[trigger] token_params(
                head,
                tokens,
                n,
            )[k] == like_pattern(tokens[i]),
    decreases n,
{
    let rest = token_params(head, tokens, n - 1);
    if i < n - 1 {
        params_stand_in_order(head, tokens, n - 1, i);
        assert forall|k: int| head.len() + 4 * i <= k < head.len() + 4 * i + 4 implies
            #[trigger] token_params(head, tokens, n)[k] == like_pattern(tokens[i]) by {
            assert(token_params(head, tokens, n)[k] == rest[k]);
        }
    } else if n > 1 {
        params_stand_in_order(head, tokens, n - 1, 0);
    } else {
        assert(rest == head);
    }
}

/// A search for one token more asks for one condition more, on the name, the qualified name,
/// the lasting identity and the signature, before the order that the hits come in.
pub proof fn each_token_must_be_found(n: int)
    requires
        n > 0,
    ensures
        token_sql_body(token_sql_head(), n) == token_sql_body(token_sql_head(), n - 1)
            + " AND (n.name LIKE ? OR n.qualified_name LIKE ? OR n.stable_id LIKE ? OR n.signature LIKE ?)"@,
        token_sql(n, false) == token_sql_body(token_sql_head(), n)
            + " ORDER BY n.file, n.name, n.id"@,
        token_sql(n, true) == token_sql_body(token_sql_head() + " AND n.language = ?"@, n)
            + " ORDER BY n.file, n.name, n.id"@,
{
}

/// A line of a table: its cells in order, between bars.
pub open spec fn table_line(cells: Seq<Seq<char>>) -> Seq<char>
    decreases cells.len(),
{
    if cells.len() == 0 {
        "|"@
    } else {
        table_line(cells.drop_last()) + " "@ + cells.last() + " |"@
    }
}

proof fn line_goes_on(out: Seq<char>, cells: Seq<Seq<char>>, c: Seq<char>)
    ensures
        with_cell(out + table_line(cells), c) == out + table_line(cells.push(c)),
{
    let line = table_line(cells);
    assert(cells.push(c).drop_last() =~= cells);
    assert(table_line(cells.push(c)) == line + " "@ + c + " |"@);
    assert(out + line + " "@ + c + " |"@ =~= out + (line + " "@ + c + " |"@));
}

/// A hit takes a line of a table: its identity, its names, its kind, its role, its file, its
/// signature and its lasting identity, in this order, with the bars in them escaped.
pub proof fn hits_take_lines(out: Seq<char>, h: SymbolHitView)
    ensures
        hit_row(out, h) == out + table_line(
            seq![
                int_text(h.id as int),
                replaced(h.name, "|"@, "\\|"@),
                replaced(h.qualified_name, "|"@, "\\|"@),
                replaced(h.kind, "|"@, "\\|"@),
                replaced(h.role, "|"@, "\\|"@),
                replaced(h.file, "|"@, "\\|"@),
                replaced(
                    if h.signature is Some {
                        h.signature->0
                    } else {
                        ""@
                    },
                    "|"@,
                    "\\|"@,
                ),
                replaced(h.stable_id, "|"@, "\\|"@),
            ],
        ) + "\n"@,
{
    let s = if h.signature is Some {
        h.signature->0
    } else {
        ""@
    };
    let a = seq![int_text(h.id as int)];
    let b = a.push(cell(h.name));
    let c = b.push(cell(h.qualified_name));
    let d = c.push(cell(h.kind));
    let e = d.push(cell(h.role));
    let f = e.push(cell(h.file));
    let g = f.push(cell(s));
    let i = g.push(cell(h.stable_id));
    let none = Seq::<Seq<char>>::empty();
    assert(none.push(int_text(h.id as int)) =~= a);
    assert(table_line(none) == "|"@);
    line_goes_on(out, none, int_text(h.id as int));
    line_goes_on(out, a, cell(h.name));
    line_goes_on(out, b, cell(h.qualified_name));
    line_goes_on(out, c, cell(h.kind));
    line_goes_on(out, d, cell(h.role));
    line_goes_on(out, e, cell(h.file));
    line_goes_on(out, f, cell(s));
    line_goes_on(out, g, cell(h.stable_id));
    assert(i =~= seq![
        int_text(h.id as int),
        cell(h.name),
        cell(h.qualified_name),
        cell(h.kind),
        cell(h.role),
        cell(h.file),
        cell(s),
        cell(h.stable_id),
    ]);
}

/// A candidate takes a line of a table: as a hit does, but with how often it is called in place
/// of its signature, before its file.
pub proof fn candidates_take_lines(out: Seq<char>, x: ResolveCandidateView)
    ensures
        candidate_row(out, x) == out + table_line(
            seq![
                int_text(x.hit.id as int),
                replaced(x.hit.name, "|"@, "\\|"@),
                replaced(x.hit.qualified_name, "|"@, "\\|"@),
                replaced(x.hit.kind, "|"@, "\\|"@),
                replaced(x.hit.role, "|"@, "\\|"@),
                int_text(x.fan_in as int),
                replaced(x.hit.file, "|"@, "\\|"@),
                replaced(x.hit.stable_id, "|"@, "\\|"@),
            ],
        ) + "\n"@,
{
    let h = x.hit;
    let a = seq![int_text(h.id as int)];
    let b = a.push(cell(h.name));
    let c = b.push(cell(h.qualified_name));
    let d = c.push(cell(h.kind));
    let e = d.push(cell(h.role));
    let f = e.push(int_text(x.fan_in as int));
    let g = f.push(cell(h.file));
    let i = g.push(cell(h.stable_id));
    let none = Seq::<Seq<char>>::empty();
    assert(none.push(int_text(h.id as int)) =~= a);
    assert(table_line(none) == "|"@);
    line_goes_on(out, none, int_text(h.id as int));
    line_goes_on(out, a, cell(h.name));
    line_goes_on(out, b, cell(h.qualified_name));
    line_goes_on(out, c, cell(h.kind));
    line_goes_on(out, d, cell(h.role));
    line_goes_on(out, e, int_text(x.fan_in as int));
    line_goes_on(out, f, cell(h.file));
    line_goes_on(out, g, cell(h.stable_id));
    assert(i =~= seq![
        int_text(h.id as int),
        cell(h.name),
        cell(h.qualified_name),
        cell(h.kind),
        cell(h.role),
        int_text(x.fan_in as int),
        cell(h.file),
        cell(h.stable_id),
    ]);
}

/// Every hit has a line, in the order in which they come; of candidates the first ten have.
pub proof fn rows_follow_each_other(hits: Seq<SymbolHitView>, cs: Seq<RankedCandidateView>, n: int)
    ensures
        0 < n <= hits.len() ==> hit_rows(seq![], hits, n) == hit_row(
            hit_rows(seq![], hits, n - 1),
            hits[n - 1],
        ),
        0 < n <= cs.len() ==> candidate_rows(seq![], cs, n) == candidate_row(
            candidate_rows(seq![], cs, n - 1),
            cs[n - 1].candidate,
        ),
        n <= 10 ==> up_to_ten(n) == n,
        n > 10 ==> up_to_ten(n) == 10,
{
}

} // verus!
