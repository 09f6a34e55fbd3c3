//! What can be reached from a symbol along edges: what it leads to, and what depends on it.

use std::collections::HashSet;

use vstd::prelude::*;

verus! {

broadcast use vstd::std_specs::hash::group_hash_axioms;

/// Where an edge starts, when edges are followed forward or backward.
pub open spec fn tail(e: (i64, i64), forward: bool) -> i64 {
    if forward {
        e.0
    } else {
        e.1
    }
}

/// Where an edge ends, when edges are followed forward or backward.
pub open spec fn head(e: (i64, i64), forward: bool) -> i64 {
    if forward {
        e.1
    } else {
        e.0
    }
}

/// One of the first `n` edges leads from the symbols to `x`.
pub open spec fn leads_to(
    edges: Seq<(i64, i64)>,
    forward: bool,
    from: Set<i64>,
    x: i64,
    n: int,
) -> bool
    decreases n,
{
    n > 0 && (leads_to(edges, forward, from, x, n - 1) || (from.contains(
        tail(edges[n - 1], forward),
    ) && head(edges[n - 1], forward) == x))
}

/// The symbols that a walk of `k` edges, at most `limit`, leads to from the root. `more` are
/// taken for symbols that one edge leads to.
pub open spec fn level(
    edges: Seq<(i64, i64)>,
    more: Seq<i64>,
    forward: bool,
    root: i64,
    limit: int,
    k: int,
) -> Set<i64>
    decreases k,
{
    if k <= 0 {
        Set::empty().insert(root)
    } else {
        Set::new(
            |x: i64|
                (k == 1 && more.contains(x)) || (k <= limit && leads_to(
                    edges,
                    forward,
                    level(edges, more, forward, root, limit, k - 1),
                    x,
                    edges.len() as int,
                )),
        )
    }
}

/// A walk of at most `k` edges leads to `x`.
pub open spec fn within_reach(
    edges: Seq<(i64, i64)>,
    more: Seq<i64>,
    forward: bool,
    root: i64,
    limit: int,
    k: int,
    x: i64,
) -> bool
    decreases k + 1,
{
    k >= 0 && (level(edges, more, forward, root, limit, k).contains(x) || within_reach(
        edges,
        more,
        forward,
        root,
        limit,
        k - 1,
        x,
    ))
}

/// The shortest walk that leads to `x` has `d` edges.
pub open spec fn distance(
    edges: Seq<(i64, i64)>,
    more: Seq<i64>,
    forward: bool,
    root: i64,
    limit: int,
    d: int,
    x: i64,
) -> bool {
    d >= 0 && level(edges, more, forward, root, limit, d).contains(x) && !within_reach(
        edges,
        more,
        forward,
        root,
        limit,
        d - 1,
        x,
    )
}

/// The symbols that edges lead to from those of a level, each once.
fn step(edges: &Vec<(i64, i64)>, forward: bool, from: &HashSet<i64>) -> (r: (
    Vec<i64>,
    HashSet<i64>,
))
    ensures
        forall|x: i64| #[trigger]
            r.1@.contains(x) == leads_to(edges@, forward, from@, x, edges@.len() as int),
        forall|x: i64| #[trigger] r.0@.contains(x) == r.1@.contains(x),
        r.0@.no_duplicates(),
{
    let mut list: Vec<i64> = Vec::new();
    let mut set: HashSet<i64> = HashSet::new();
    let mut n: usize = 0;
    while n < edges.len()
        invariant
            n <= edges@.len(),
            forall|x: i64| #[trigger]
                set@.contains(x) == leads_to(edges@, forward, from@, x, n as int),
            forall|x: i64| #[trigger] list@.contains(x) == set@.contains(x),
            list@.no_duplicates(),
        decreases edges@.len() - n,
    {
        let (a, b): (i64, i64) = edges[n];
        let (s, t): (i64, i64) = if forward {
            (a, b)
        } else {
            (b, a)
        };
        if from.contains(&s) {
            let ghost before = list@;
            if set.insert(t) {
                list.push(t);
                proof {
                    grows(before, t);
                }
            }
        }
        n = n + 1;
    }
    (list, set)
}

proof fn grows(s: Seq<i64>, t: i64)
    ensures
        forall|x: i64| #[trigger] s.push(t).contains(x) == (s.contains(x) || x == t),
        s.no_duplicates() && !s.contains(t) ==> s.push(t).no_duplicates(),
{
    assert forall|x: i64| #[trigger] s.push(t).contains(x) == (s.contains(x) || x == t) by {
        if s.contains(x) {
            let i = choose|i: int| 0 <= i < s.len() && s[i] == x;
            assert(s.push(t)[i] == x);
        }
        if x == t {
            assert(s.push(t)[s.len() as int] == x);
        }
        if s.push(t).contains(x) && x != t {
            let i = choose|i: int| 0 <= i < s.push(t).len() && s.push(t)[i] == x;
            assert(s[i] == x);
        }
    }
}

proof fn pairs_grow(s: Seq<(i64, i64)>, t: (i64, i64))
    ensures
        forall|x: (i64, i64)| #[trigger] s.push(t).contains(x) == (s.contains(x) || x == t),
{
    assert forall|x: (i64, i64)| #[trigger] s.push(t).contains(x) == (s.contains(x) || x == t) by {
        if s.contains(x) {
            let i = choose|i: int| 0 <= i < s.len() && s[i] == x;
            assert(s.push(t)[i] == x);
        }
        if x == t {
            assert(s.push(t)[s.len() as int] == x);
        }
        if s.push(t).contains(x) && x != t {
            let i = choose|i: int| 0 <= i < s.push(t).len() && s.push(t)[i] == x;
            assert(s[i] == x);
        }
    }
}

proof fn leads_from_nowhere(edges: Seq<(i64, i64)>, forward: bool, from: Set<i64>, x: i64, n: int)
    requires
        forall|y: i64| !from.contains(y),
    ensures
        !leads_to(edges, forward, from, x, n),
    decreases n,
{
    if n > 0 {
        leads_from_nowhere(edges, forward, from, x, n - 1);
    }
}

proof fn stays_empty(
    edges: Seq<(i64, i64)>,
    more: Seq<i64>,
    forward: bool,
    root: i64,
    limit: int,
    k: int,
    m: int,
)
    requires
        1 <= k <= m,
        forall|x: i64| !level(edges, more, forward, root, limit, k).contains(x),
    ensures
        forall|x: i64| !level(edges, more, forward, root, limit, m).contains(x),
    decreases m,
{
    if k < m {
        stays_empty(edges, more, forward, root, limit, k, m - 1);
        assert forall|x: i64| !level(edges, more, forward, root, limit, m).contains(x) by {
            leads_from_nowhere(
                edges,
                forward,
                level(edges, more, forward, root, limit, m - 1),
                x,
                edges.len() as int,
            );
        }
    }
}

/// The depths of the pairs do not descend.
pub open spec fn depths_ascend(pairs: Seq<(i64, i64)>) -> bool {
    forall|i: int, j: int| 0 <= i < j < pairs.len() ==> (#[trigger] pairs[i]).1 <= (
    #[trigger] pairs[j]).1
}

/// Adds the symbols of a level to those that were found, but for the root.
fn add_level(out: &mut Vec<(i64, i64)>, list: &Vec<i64>, root: i64, k: i64)
    requires
        depths_ascend(old(out)@),
        old(out)@.no_duplicates(),
        list@.no_duplicates(),
        forall|i: int| 0 <= i < old(out)@.len() ==> (#[trigger] old(out)@[i]).1 < k,
    ensures
        forall|p: (i64, i64)| #[trigger]
            final(out)@.contains(p) == (old(out)@.contains(p) || (p.1 == k && p.0 != root
                && list@.contains(p.0))),
        depths_ascend(final(out)@),
        final(out)@.no_duplicates(),
        forall|i: int| 0 <= i < final(out)@.len() ==> (#[trigger] final(out)@[i]).1 <= k,
{
    let ghost start = out@;
    let mut n: usize = 0;
    while n < list.len()
        invariant
            n <= list@.len(),
            list@.no_duplicates(),
            forall|p: (i64, i64)| #[trigger]
                out@.contains(p) == (start.contains(p) || (p.1 == k && p.0 != root
                    && list@.take(n as int).contains(p.0))),
            forall|i: int| 0 <= i < start.len() ==> (#[trigger] start[i]).1 < k,
            depths_ascend(out@),
            out@.no_duplicates(),
            forall|i: int| 0 <= i < out@.len() ==> (#[trigger] out@[i]).1 <= k,
        decreases list@.len() - n,
    {
        let x: i64 = list[n];
        let ghost before = out@;
        let ghost part = list@.take(n as int);
        proof {
            assert(list@.take(n + 1) =~= part.push(x));
            grows(part, x);
            pairs_grow(before, (x, k));
            if x != root && before.contains((x, k)) {
                if start.contains((x, k)) {
                    let i = choose|i: int| 0 <= i < start.len() && start[i] == (x, k);
                    assert(start[i].1 < k);
                } else {
                    let i = choose|i: int| 0 <= i < part.len() && part[i] == x;
                    assert(list@[i] == list@[n as int]);
                }
            }
        }
        if x != root {
            out.push((x, k));
        }
        n = n + 1;
    }
    assert(list@.take(n as int) =~= list@);
}

/// What a symbol leads to: each symbol with every number of edges, up to `limit`, that a walk
/// to it can have, nearer ones first. The symbol itself is left out.
pub fn neighborhood(edges: &Vec<(i64, i64)>, root: i64, limit: i64) -> (r: Vec<(i64, i64)>)
    ensures
        forall|p: (i64, i64)| #[trigger]
            r@.contains(p) == (p.0 != root && 1 <= p.1 <= limit && level(
                edges@,
                Seq::empty(),
                true,
                root,
                limit as int,
                p.1 as int,
            ).contains(p.0)),
        r@.no_duplicates(),
        depths_ascend(r@),
{
    let ghost none = Seq::<i64>::empty();
    let mut out: Vec<(i64, i64)> = Vec::new();
    let mut current: HashSet<i64> = HashSet::new();
    current.insert(root);
    assert(current@ =~= level(edges@, none, true, root, limit as int, 0));
    let mut k: i64 = 0;
    while k < limit
        invariant_except_break
            0 <= k,
            k == 0 || k <= limit,
            forall|p: (i64, i64)| #[trigger]
                out@.contains(p) == (p.0 != root && 1 <= p.1 <= k && level(
                    edges@,
                    none,
                    true,
                    root,
                    limit as int,
                    p.1 as int,
                ).contains(p.0)),
        invariant
            none == Seq::<i64>::empty(),
            current@ == level(edges@, none, true, root, limit as int, k as int),
            out@.no_duplicates(),
            depths_ascend(out@),
            forall|i: int| 0 <= i < out@.len() ==> (#[trigger] out@[i]).1 <= k,
        ensures
            forall|p: (i64, i64)| #[trigger]
                out@.contains(p) == (p.0 != root && 1 <= p.1 <= limit && level(
                    edges@,
                    none,
                    true,
                    root,
                    limit as int,
                    p.1 as int,
                ).contains(p.0)),
        decreases limit - k,
    {
        let (list, set) = step(edges, true, &current);
        let ghost here = level(edges@, none, true, root, limit as int, k + 1);
        assert(set@ =~= here);
        k = k + 1;
        add_level(&mut out, &list, root, k);
        current = set;
        if list.len() == 0 {
            proof {
                assert forall|x: i64| !here.contains(x) by {
                    assert(!list@.contains(x));
                }
                assert forall|p: (i64, i64)| #[trigger]
                    out@.contains(p) == (p.0 != root && 1 <= p.1 <= limit && level(
                        edges@,
                        none,
                        true,
                        root,
                        limit as int,
                        p.1 as int,
                    ).contains(p.0)) by {
                    if k <= p.1 {
                        stays_empty(edges@, none, true, root, limit as int, k as int, p.1 as int);
                    }
                }
            }
            break;
        }
    }
    out
}

/// The items that were not seen yet, each once; all of them are seen then.
fn take_new(list: &Vec<i64>, seen: &mut HashSet<i64>) -> (r: Vec<i64>)
    ensures
        forall|x: i64| #[trigger]
            r@.contains(x) == (list@.contains(x) && !old(seen)@.contains(x)),
        forall|x: i64| #[trigger]
            final(seen)@.contains(x) == (old(seen)@.contains(x) || list@.contains(x)),
        r@.no_duplicates(),
{
    let ghost start = seen@;
    let mut out: Vec<i64> = Vec::new();
    let mut n: usize = 0;
    while n < list.len()
        invariant
            n <= list@.len(),
            forall|x: i64| #[trigger]
                out@.contains(x) == (list@.take(n as int).contains(x) && !start.contains(x)),
            forall|x: i64| #[trigger]
                seen@.contains(x) == (start.contains(x) || list@.take(n as int).contains(x)),
            out@.no_duplicates(),
        decreases list@.len() - n,
    {
        let x: i64 = list[n];
        let ghost before = out@;
        proof {
            assert(list@.take(n + 1) =~= list@.take(n as int).push(x));
            grows(list@.take(n as int), x);
            grows(before, x);
        }
        if seen.insert(x) {
            out.push(x);
        }
        n = n + 1;
    }
    assert(list@.take(n as int) =~= list@);
    out
}

proof fn beyond_is_empty(
    edges: Seq<(i64, i64)>,
    more: Seq<i64>,
    forward: bool,
    root: i64,
    limit: int,
    k: int,
)
    requires
        k > 1,
        k > limit,
    ensures
        forall|x: i64| !level(edges, more, forward, root, limit, k).contains(x),
{
}

proof fn an_edge_leads(
    edges: Seq<(i64, i64)>,
    forward: bool,
    from: Set<i64>,
    i: int,
    n: int,
)
    requires
        0 <= i < n <= edges.len(),
        from.contains(tail(edges[i], forward)),
    ensures
        leads_to(edges, forward, from, head(edges[i], forward), n),
    decreases n,
{
    if i < n - 1 {
        an_edge_leads(edges, forward, from, i, n - 1);
    }
}

proof fn leading_edge(edges: Seq<(i64, i64)>, forward: bool, from: Set<i64>, x: i64, n: int) -> (i:
    int)
    requires
        n <= edges.len(),
        leads_to(edges, forward, from, x, n),
    ensures
        0 <= i < n,
        from.contains(tail(edges[i], forward)),
        head(edges[i], forward) == x,
    decreases n,
{
    if leads_to(edges, forward, from, x, n - 1) {
        leading_edge(edges, forward, from, x, n - 1)
    } else {
        n - 1
    }
}

proof fn reaching_level(
    edges: Seq<(i64, i64)>,
    more: Seq<i64>,
    forward: bool,
    root: i64,
    limit: int,
    k: int,
    x: i64,
) -> (d: int)
    requires
        within_reach(edges, more, forward, root, limit, k, x),
    ensures
        0 <= d <= k,
        level(edges, more, forward, root, limit, d).contains(x),
    decreases k + 1,
{
    if level(edges, more, forward, root, limit, k).contains(x) {
        k
    } else {
        reaching_level(edges, more, forward, root, limit, k - 1, x)
    }
}

proof fn reach_only_grows(
    edges: Seq<(i64, i64)>,
    more: Seq<i64>,
    forward: bool,
    root: i64,
    limit: int,
    d: int,
    k: int,
    x: i64,
)
    requires
        0 <= d <= k,
        level(edges, more, forward, root, limit, d).contains(x),
    ensures
        within_reach(edges, more, forward, root, limit, k, x),
    decreases k,
{
    if d < k {
        reach_only_grows(edges, more, forward, root, limit, d, k - 1, x);
    }
}

/// Where a level brings nothing new, no later one does.
proof fn nothing_new_follows(
    edges: Seq<(i64, i64)>,
    more: Seq<i64>,
    forward: bool,
    root: i64,
    limit: int,
    k: int,
    m: int,
    x: i64,
)
    requires
        1 <= k <= m,
        forall|y: i64| #[trigger]
            level(edges, more, forward, root, limit, k).contains(y) ==> within_reach(
                edges,
                more,
                forward,
                root,
                limit,
                k - 1,
                y,
            ),
        level(edges, more, forward, root, limit, m).contains(x),
    ensures
        within_reach(edges, more, forward, root, limit, k - 1, x),
    decreases m,
{
    if k < m {
        let before = level(edges, more, forward, root, limit, m - 1);
        let i = leading_edge(edges, forward, before, x, edges.len() as int);
        let y = tail(edges[i], forward);
        nothing_new_follows(edges, more, forward, root, limit, k, m - 1, y);
        let d = reaching_level(edges, more, forward, root, limit, k - 1, y);
        let at = level(edges, more, forward, root, limit, d);
        an_edge_leads(edges, forward, at, i, edges.len() as int);
        assert(level(edges, more, forward, root, limit, d + 1).contains(x));
        if d + 1 <= k - 1 {
            reach_only_grows(edges, more, forward, root, limit, d + 1, k - 1, x);
        }
    }
}

/// What depends on a symbol: each symbol that edges lead from to it, with the least number of
/// edges on the way, up to `limit`, nearer ones first. `more` depend on it directly.
pub fn dependents(edges: &Vec<(i64, i64)>, more: &Vec<i64>, root: i64, limit: i64) -> (r: Vec<
    (i64, i64),
>)
    ensures
        forall|p: (i64, i64)| #[trigger]
            r@.contains(p) == (p.0 != root && distance(
                edges@,
                more@,
                false,
                root,
                limit as int,
                p.1 as int,
                p.0,
            )),
        r@.no_duplicates(),
        depths_ascend(r@),
{
    let ghost ev = edges@;
    let ghost mv = more@;
    let ghost bound = limit as int;
    let mut out: Vec<(i64, i64)> = Vec::new();
    let mut current: HashSet<i64> = HashSet::new();
    current.insert(root);
    let mut seen: HashSet<i64> = HashSet::new();
    seen.insert(root);
    assert(current@ =~= level(ev, mv, false, root, bound, 0));
    // The symbols that one edge leads from, or that are given.
    let (mut list, _) = if limit >= 1 {
        step(edges, false, &current)
    } else {
        (Vec::new(), HashSet::new())
    };
    let ghost direct = list@;
    let mut n: usize = 0;
    while n < more.len()
        invariant
            n <= more@.len(),
            forall|x: i64| #[trigger]
                list@.contains(x) == (direct.contains(x) || more@.take(n as int).contains(x)),
        decreases more@.len() - n,
    {
        let ghost before = list@;
        list.push(more[n]);
        proof {
            assert(more@.take(n + 1) =~= more@.take(n as int).push(more@[n as int]));
            grows(more@.take(n as int), more@[n as int]);
            grows(before, more@[n as int]);
        }
        n = n + 1;
    }
    assert(more@.take(n as int) =~= more@);
    let ghost first = level(ev, mv, false, root, bound, 1);
    assert(forall|x: i64| #[trigger] list@.contains(x) == first.contains(x));
    let fresh = take_new(&list, &mut seen);
    add_level(&mut out, &fresh, root, 1);
    let mut current: HashSet<i64> = HashSet::new();
    let mut n: usize = 0;
    while n < list.len()
        invariant
            n <= list@.len(),
            forall|x: i64| #[trigger] current@.contains(x) == list@.take(n as int).contains(x),
        decreases list@.len() - n,
    {
        proof {
            assert(list@.take(n + 1) =~= list@.take(n as int).push(list@[n as int]));
            grows(list@.take(n as int), list@[n as int]);
        }
        current.insert(list[n]);
        n = n + 1;
    }
    assert(list@.take(n as int) =~= list@);
    assert(current@ =~= first);
    proof {
        reveal_with_fuel(within_reach, 3);
    }
    let mut k: i64 = 1;
    let mut all = false;
    while k < limit && !all
        invariant
            ev == edges@,
            mv == more@,
            bound == limit,
            1 <= k,
            k == 1 || k <= limit,
            all ==> forall|y: i64| #[trigger]
                level(ev, mv, false, root, bound, k as int).contains(y) ==> within_reach(
                    ev,
                    mv,
                    false,
                    root,
                    bound,
                    k - 1,
                    y,
                ),
            current@ == level(ev, mv, false, root, bound, k as int),
            forall|x: i64| #[trigger]
                seen@.contains(x) == within_reach(ev, mv, false, root, bound, k as int, x),
            forall|p: (i64, i64)| #[trigger]
                out@.contains(p) == (p.0 != root && p.1 <= k && distance(
                    ev,
                    mv,
                    false,
                    root,
                    bound,
                    p.1 as int,
                    p.0,
                )),
            out@.no_duplicates(),
            depths_ascend(out@),
            forall|i: int| 0 <= i < out@.len() ==> (#[trigger] out@[i]).1 <= k,
        decreases limit - k,
    {
        let (list, set) = step(edges, false, &current);
        let ghost here = level(ev, mv, false, root, bound, k + 1);
        assert(set@ =~= here);
        let ghost known = seen@;
        let fresh = take_new(&list, &mut seen);
        k = k + 1;
        add_level(&mut out, &fresh, root, k);
        current = set;
        all = fresh.len() == 0;
        proof {
            if all {
                assert forall|y: i64| #[trigger] here.contains(y) implies within_reach(
                    ev,
                    mv,
                    false,
                    root,
                    bound,
                    k - 1,
                    y,
                ) by {
                    assert(list@.contains(y));
                    assert(!fresh@.contains(y));
                    assert(known.contains(y));
                }
            }
        }
    }
    proof {
        assert forall|p: (i64, i64)| #[trigger]
            out@.contains(p) == (p.0 != root && distance(
                ev,
                mv,
                false,
                root,
                bound,
                p.1 as int,
                p.0,
            )) by {
            if p.1 > k && distance(ev, mv, false, root, bound, p.1 as int, p.0) {
                if all {
                    nothing_new_follows(
                        ev,
                        mv,
                        false,
                        root,
                        bound,
                        k as int,
                        p.1 as int,
                        p.0,
                    );
                    let d = reaching_level(ev, mv, false, root, bound, k - 1, p.0);
                    reach_only_grows(ev, mv, false, root, bound, d, p.1 - 1, p.0);
                } else {
                    beyond_is_empty(ev, mv, false, root, bound, p.1 as int);
                }
            }
        }
    }
    out
}

proof fn more_levels_lead_to_more(
    edges: Seq<(i64, i64)>,
    forward: bool,
    a: Set<i64>,
    b: Set<i64>,
    x: i64,
    n: int,
)
    requires
        forall|y: i64| a.contains(y) ==> b.contains(y),
        leads_to(edges, forward, a, x, n),
    ensures
        leads_to(edges, forward, b, x, n),
    decreases n,
{
    if leads_to(edges, forward, a, x, n - 1) {
        more_levels_lead_to_more(edges, forward, a, b, x, n - 1);
    }
}

/// Following edges further never loses a symbol: what is reached within a limit is reached,
/// with as many edges, within a greater one.
pub proof fn deeper_reaches_more(
    edges: Seq<(i64, i64)>,
    more: Seq<i64>,
    forward: bool,
    root: i64,
    limit: int,
    greater: int,
    k: int,
)
    requires
        limit <= greater,
    ensures
        forall|x: i64| #[trigger]
            level(edges, more, forward, root, limit, k).contains(x) ==> level(
                edges,
                more,
                forward,
                root,
                greater,
                k,
            ).contains(x),
    decreases k,
{
    if k > 0 {
        deeper_reaches_more(edges, more, forward, root, limit, greater, k - 1);
        let a = level(edges, more, forward, root, limit, k - 1);
        let b = level(edges, more, forward, root, greater, k - 1);
        assert forall|x: i64| #[trigger]
            level(edges, more, forward, root, limit, k).contains(x) implies level(
            edges,
            more,
            forward,
            root,
            greater,
            k,
        ).contains(x) by {
            if leads_to(edges, forward, a, x, edges.len() as int) {
                more_levels_lead_to_more(edges, forward, a, b, x, edges.len() as int);
            }
        }
    }
}

/// Dependence is passed on along edges: what calls a dependent is a dependent too, one edge
/// further away at most, as long as the limit allows.
pub proof fn dependence_is_passed_on(
    edges: Seq<(i64, i64)>,
    more: Seq<i64>,
    root: i64,
    limit: int,
    k: int,
    i: int,
)
    requires
        0 <= k < limit,
        0 <= i < edges.len(),
        within_reach(edges, more, false, root, limit, k, edges[i].1),
    ensures
        within_reach(edges, more, false, root, limit, k + 1, edges[i].0),
    decreases k + 1,
{
    reveal_with_fuel(within_reach, 2);
    let here = level(edges, more, false, root, limit, k);
    if here.contains(edges[i].1) {
        an_edge_leads(edges, false, here, i, edges.len() as int);
        assert(level(edges, more, false, root, limit, k + 1).contains(edges[i].0));
    } else {
        dependence_is_passed_on(edges, more, root, limit, k - 1, i);
    }
}

proof fn leading_edges(edges: Seq<(i64, i64)>, forward: bool, from: Set<i64>, x: i64, n: int)
    requires
        0 <= n <= edges.len(),
    ensures
        leads_to(edges, forward, from, x, n) <==> exists|i: int|
            0 <= i < n && if forward {
                from.contains((#[trigger] edges[i]).0) && edges[i].1 == x
            } else {
                from.contains(edges[i].1) && edges[i].0 == x
            },
    decreases n,
{
    if n > 0 {
        leading_edges(edges, forward, from, x, n - 1);
        assert(edges[n - 1] == edges[n - 1]);
    }
}

/// What lies `k` steps away from a symbol: for no steps, the symbol itself; else the symbols
/// that an edge leads to from one that lies a step nearer.
pub proof fn neighbours_follow_edges(
    edges: Seq<(i64, i64)>,
    root: i64,
    limit: int,
    k: int,
    x: i64,
)
    requires
        0 <= k <= limit,
    ensures
        k == 0 ==> (level(edges, Seq::empty(), true, root, limit, k).contains(x) <==> x == root),
        k > 0 ==> (level(edges, Seq::empty(), true, root, limit, k).contains(x) <==> exists|i: int|
            0 <= i < edges.len() && (#[trigger] edges[i]).1 == x && level(
                edges,
                Seq::empty(),
                true,
                root,
                limit,
                k - 1,
            ).contains(edges[i].0)),
{
    if k > 0 {
        let before = level(edges, Seq::empty(), true, root, limit, k - 1);
        leading_edges(edges, true, before, x, edges.len() as int);
        if exists|i: int|
            0 <= i < edges.len() && (#[trigger] edges[i]).1 == x && before.contains(edges[i].0) {
            let i = choose|i: int|
                0 <= i < edges.len() && (#[trigger] edges[i]).1 == x && before.contains(
                    edges[i].0,
                );
            assert(edges[i].1 == x);
        }
    }
}

/// What depends on a symbol over `k` steps: the symbols that an edge leads from to one that
/// does so over a step less. What uses the symbol's name depends on it over one step.
pub proof fn dependents_follow_edges_back(
    edges: Seq<(i64, i64)>,
    more: Seq<i64>,
    root: i64,
    limit: int,
    k: int,
    x: i64,
)
    requires
        0 <= k <= limit,
    ensures
        k == 0 ==> (level(edges, more, false, root, limit, k).contains(x) <==> x == root),
        k > 0 ==> (level(edges, more, false, root, limit, k).contains(x) <==> (k == 1
            && more.contains(x)) || exists|i: int|
            0 <= i < edges.len() && (#[trigger] edges[i]).0 == x && level(
                edges,
                more,
                false,
                root,
                limit,
                k - 1,
            ).contains(edges[i].1)),
{
    if k > 0 {
        let before = level(edges, more, false, root, limit, k - 1);
        leading_edges(edges, false, before, x, edges.len() as int);
        if exists|i: int|
            0 <= i < edges.len() && (#[trigger] edges[i]).0 == x && before.contains(edges[i].1) {
            let i = choose|i: int|
                0 <= i < edges.len() && (#[trigger] edges[i]).0 == x && before.contains(
                    edges[i].1,
                );
            assert(edges[i].0 == x);
        }
    }
}

/// Nothing lies further away than the limit, but for the users of the name, which are always
/// one step away.
pub proof fn limits_are_kept(
    edges: Seq<(i64, i64)>,
    more: Seq<i64>,
    forward: bool,
    root: i64,
    limit: int,
    k: int,
    x: i64,
)
    requires
        k > limit,
        k > 1,
    ensures
        !level(edges, more, forward, root, limit, k).contains(x),
{
}

/// The distance of a symbol is the least number of steps that lead to it.
pub proof fn distances_are_least(
    edges: Seq<(i64, i64)>,
    more: Seq<i64>,
    forward: bool,
    root: i64,
    limit: int,
    d: int,
    x: i64,
)
    requires
        d >= 0,
    ensures
        distance(edges, more, forward, root, limit, d, x) <==> level(
            edges,
            more,
            forward,
            root,
            limit,
            d,
        ).contains(x) && forall|k: int|
            0 <= k < d ==> !(#[trigger] level(edges, more, forward, root, limit, k)).contains(x),
{
    reach_is_some_level(edges, more, forward, root, limit, d - 1, x);
}

proof fn reach_is_some_level(
    edges: Seq<(i64, i64)>,
    more: Seq<i64>,
    forward: bool,
    root: i64,
    limit: int,
    k: int,
    x: i64,
)
    ensures
        within_reach(edges, more, forward, root, limit, k, x) <==> exists|j: int|
            0 <= j <= k && (#[trigger] level(edges, more, forward, root, limit, j)).contains(x),
    decreases k + 1,
{
    if k >= 0 {
        reach_is_some_level(edges, more, forward, root, limit, k - 1, x);
        if level(edges, more, forward, root, limit, k).contains(x) {
            assert(level(edges, more, forward, root, limit, k).contains(x));
        }
    }
}

} // verus!
