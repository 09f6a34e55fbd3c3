//! Stable sorting and ordered sets of keys, by an order on the views of the items.

use vstd::prelude::*;

use crate::model::{group_views, views, Dup};
use crate::text::{lex_before, str_precedes};

verus! {

/// Values with an order on their views.
pub trait Ranked: DeepView + Sized {
    /// `a` stands strictly before `b`.
    spec fn before(a: Self::V, b: Self::V) -> bool;

    /// Whether this value stands strictly before the other.
    fn precedes(&self, other: &Self) -> (r: bool)
        ensures
            r == Self::before(self.deep_view(), other.deep_view()),
    ;

    /// `before` is a weak order.
    proof fn weak_order(a: Self::V, b: Self::V, c: Self::V)
        ensures
            !(Self::before(a, b) && Self::before(b, a)),
            !Self::before(b, a) && !Self::before(c, b) ==> !Self::before(c, a),
    ;
}

/// The first position from `i` on whose item stands after `x`, or the length.
pub open spec fn place_of<T: Ranked>(s: Seq<T::V>, x: T::V, i: int) -> int
    decreases s.len() - i,
{
    if i < 0 || i >= s.len() {
        s.len() as int
    } else if T::before(x, s[i]) {
        i
    } else {
        place_of::<T>(s, x, i + 1)
    }
}

/// `s` with `x` put in before the first item that stands after it.
pub open spec fn placed<T: Ranked>(s: Seq<T::V>, x: T::V) -> Seq<T::V> {
    s.insert(place_of::<T>(s, x, 0), x)
}

/// The items of `s` in order, equal ones in the order in which they came.
pub open spec fn stable_sorted<T: Ranked>(s: Seq<T::V>) -> Seq<T::V>
    decreases s.len(),
{
    if s.len() == 0 {
        s
    } else {
        placed::<T>(stable_sorted::<T>(s.drop_last()), s.last())
    }
}

/// The items are in order: none stands before an earlier one.
pub open spec fn in_order<T: Ranked>(s: Seq<T::V>) -> bool {
    forall|i: int, j: int| 0 <= i < j < s.len() ==> !T::before(#[trigger] s[j], #[trigger] s[i])
}

/// `place_of` gives the first position whose item stands after `x`.
pub proof fn place_is_first<T: Ranked>(s: Seq<T::V>, x: T::V, i: int)
    requires
        0 <= i <= s.len(),
    ensures
        i <= place_of::<T>(s, x, i) <= s.len(),
        forall|k: int| i <= k < place_of::<T>(s, x, i) ==> !T::before(x, s[k]),
        place_of::<T>(s, x, i) < s.len() ==> T::before(x, s[place_of::<T>(s, x, i)]),
    decreases s.len() - i,
{
    if i < s.len() && !T::before(x, s[i]) {
        place_is_first::<T>(s, x, i + 1);
    }
}

/// Sorting keeps the items and puts them in order.
pub proof fn sorting_orders<T: Ranked>(s: Seq<T::V>)
    ensures
        in_order::<T>(stable_sorted::<T>(s)),
        stable_sorted::<T>(s).len() == s.len(),
        stable_sorted::<T>(s).to_multiset() == s.to_multiset(),
    decreases s.len(),
{
    broadcast use vstd::seq_lib::group_to_multiset_ensures;

    if s.len() > 0 {
        let t = stable_sorted::<T>(s.drop_last());
        let x = s.last();
        sorting_orders::<T>(s.drop_last());
        place_is_first::<T>(t, x, 0);
        let p = place_of::<T>(t, x, 0);
        let r = t.insert(p, x);
        assert forall|i: int, j: int| 0 <= i < j < r.len() implies !T::before(
            #[trigger] r[j],
            #[trigger] r[i],
        ) by {
            if j == p {
                if i < p {
                    assert(!T::before(x, t[i]));
                }
            } else if i == p {
                if p < t.len() {
                    T::weak_order(x, t[p], x);
                    if j - 1 > p {
                        assert(!T::before(t[j - 1], t[p]));
                        T::weak_order(x, t[p], t[j - 1]);
                    }
                }
            } else {
                let a = if i < p { i } else { i - 1 };
                let b = if j < p { j } else { j - 1 };
                assert(r[i] == t[a] && r[j] == t[b]);
                assert(!T::before(t[b], t[a]));
            }
        }
        assert(s =~= s.drop_last().push(x));
        assert(r.to_multiset() =~= t.to_multiset().insert(x));
    } else {
        assert(stable_sorted::<T>(s) =~= s);
    }
}

/// The items of `v` in order, equal ones in the order in which they came.
pub fn stable_sort<T: Ranked>(v: Vec<T>) -> (r: Vec<T>)
    ensures
        views(r@) == stable_sorted::<T>(views(v@)),
{
    broadcast use group_views;

    let ghost all = views(v@);
    let mut out: Vec<T> = Vec::new();
    assert(all.take(0).len() == 0);
    for x in it: v
        invariant
            views(it.seq()) == all,
            views(out@) == stable_sorted::<T>(all.take(it.index() as int)),
    {
        let ghost n = it.index() as int;
        let mut p: usize = 0;
        while p < out.len() && !x.precedes(&out[p])
            invariant
                p <= out@.len(),
                place_of::<T>(views(out@), x.deep_view(), 0) == place_of::<T>(
                    views(out@),
                    x.deep_view(),
                    p as int,
                ),
            decreases out@.len() - p,
        {
            p = p + 1;
        }
        assert(all.take(n + 1).drop_last() =~= all.take(n));
        assert(views(it.seq())[n] == x.deep_view());
        out.insert(p, x);
    }
    assert(all.take(all.len() as int) =~= all);
    out
}

/// The first position from `i` on whose item does not stand before `x`, or the length.
pub open spec fn slot_of<T: Ranked>(s: Seq<T::V>, x: T::V, i: int) -> int
    decreases s.len() - i,
{
    if i < 0 || i >= s.len() {
        s.len() as int
    } else if !T::before(s[i], x) {
        i
    } else {
        slot_of::<T>(s, x, i + 1)
    }
}

/// The ordered set `s` with the key `x` in it.
pub open spec fn with_key<T: Ranked>(s: Seq<T::V>, x: T::V) -> Seq<T::V> {
    let p = slot_of::<T>(s, x, 0);
    if p < s.len() && !T::before(x, s[p]) {
        s
    } else {
        s.insert(p, x)
    }
}

/// The keys of `s`, each once, in ascending order.
pub open spec fn key_set<T: Ranked>(s: Seq<T::V>) -> Seq<T::V>
    decreases s.len(),
{
    if s.len() == 0 {
        s
    } else {
        with_key::<T>(key_set::<T>(s.drop_last()), s.last())
    }
}

/// The keys are strictly ascending.
pub open spec fn ascending<T: Ranked>(s: Seq<T::V>) -> bool {
    forall|i: int, j: int| 0 <= i < j < s.len() ==> T::before(#[trigger] s[i], #[trigger] s[j])
}

/// `slot_of` gives the first position whose item does not stand before `x`.
pub proof fn slot_is_first<T: Ranked>(s: Seq<T::V>, x: T::V, i: int)
    requires
        0 <= i <= s.len(),
    ensures
        i <= slot_of::<T>(s, x, i) <= s.len(),
        forall|k: int| i <= k < slot_of::<T>(s, x, i) ==> T::before(s[k], x),
        slot_of::<T>(s, x, i) < s.len() ==> !T::before(s[slot_of::<T>(s, x, i)], x),
    decreases s.len() - i,
{
    if i < s.len() && T::before(s[i], x) {
        slot_is_first::<T>(s, x, i + 1);
    }
}

/// The keys of a list, as an ordered set, are strictly ascending.
pub proof fn keys_ascend<T: Ranked>(s: Seq<T::V>)
    ensures
        ascending::<T>(key_set::<T>(s)),
    decreases s.len(),
{
    if s.len() > 0 {
        keys_ascend::<T>(s.drop_last());
        let t = key_set::<T>(s.drop_last());
        let x = s.last();
        slot_is_first::<T>(t, x, 0);
        let p = slot_of::<T>(t, x, 0);
        if !(p < t.len() && !T::before(x, t[p])) {
            let r = t.insert(p, x);
            assert forall|i: int, j: int| 0 <= i < j < r.len() implies T::before(
                #[trigger] r[i],
                #[trigger] r[j],
            ) by {
                if j == p {
                    assert(T::before(t[i], x));
                } else if i == p {
                    assert(T::before(x, t[p]));
                    if j - 1 > p {
                        assert(T::before(t[p], t[j - 1]));
                        T::weak_order(x, t[p], t[j - 1]);
                        T::weak_order(t[j - 1], t[p], x);
                        if !T::before(x, t[j - 1]) {
                            T::weak_order(t[p], x, x);
                            T::weak_order(t[j - 1], x, t[p]);
                            T::weak_order(x, t[p], x);
                            assert(!T::before(t[p], x));
                            T::weak_order(t[j - 1], x, t[p]);
                        }
                    }
                } else {
                    let a = if i < p { i } else { i - 1 };
                    let b = if j < p { j } else { j - 1 };
                    assert(r[i] == t[a] && r[j] == t[b]);
                }
            }
        }
    }
}

/// The keys of `v`, each once, in ascending order.
pub fn distinct_keys<T: Ranked + Dup>(v: &Vec<T>) -> (r: Vec<T>)
    ensures
        views(r@) == key_set::<T>(views(v@)),
{
    broadcast use group_views;

    let mut out: Vec<T> = Vec::new();
    let mut i: usize = 0;
    assert(views(v@).take(0).len() == 0);
    while i < v.len()
        invariant
            i <= v@.len(),
            views(out@) == key_set::<T>(views(v@).take(i as int)),
        decreases v@.len() - i,
    {
        insert_key(&mut out, &v[i]);
        i = i + 1;
        assert(views(v@).take(i as int).drop_last() =~= views(v@).take(i - 1));
    }
    assert(views(v@).take(i as int) =~= views(v@));
    out
}

/// Puts the key `x` in the ordered set `out`.
pub fn insert_key<T: Ranked + Dup>(out: &mut Vec<T>, x: &T)
    ensures
        views(final(out)@) == with_key::<T>(views(old(out)@), x.deep_view()),
{
    broadcast use group_views;

    let mut p: usize = 0;
    while p < out.len() && out[p].precedes(x)
        invariant
            p <= out@.len(),
            slot_of::<T>(views(out@), x.deep_view(), 0) == slot_of::<T>(
                views(out@),
                x.deep_view(),
                p as int,
            ),
        decreases out@.len() - p,
    {
        p = p + 1;
    }
    if p < out.len() && !x.precedes(&out[p]) {
        return;
    }
    out.insert(p, x.dup());
}

impl Ranked for u32 {
    open spec fn before(a: u32, b: u32) -> bool {
        a < b
    }

    fn precedes(&self, other: &u32) -> (r: bool) {
        *self < *other
    }

    proof fn weak_order(a: u32, b: u32, c: u32) {
    }
}

/// How often the value `x` stands in `s`.
pub open spec fn times<V>(s: Seq<V>, x: V) -> nat
    decreases s.len(),
{
    if s.len() == 0 {
        0
    } else {
        times(s.drop_last(), x) + if s.last() == x {
            1nat
        } else {
            0nat
        }
    }
}

/// A value stands in a list at most as often as the list is long.
pub proof fn times_bound<V>(s: Seq<V>, x: V)
    ensures
        times(s, x) <= s.len(),
    decreases s.len(),
{
    if s.len() > 0 {
        times_bound(s.drop_last(), x);
    }
}

impl Ranked for String {
    open spec fn before(a: Seq<char>, b: Seq<char>) -> bool {
        lex_before(a, b)
    }

    fn precedes(&self, other: &String) -> (r: bool) {
        str_precedes(self, other)
    }

    proof fn weak_order(a: Seq<char>, b: Seq<char>, c: Seq<char>) {
        crate::text::lex_is_order(a, b, c);
    }
}

/// The order of pairs of texts: by the first, then by the second.
pub open spec fn pair_before(a: (Seq<char>, Seq<char>), b: (Seq<char>, Seq<char>)) -> bool {
    lex_before(a.0, b.0) || (a.0 == b.0 && lex_before(a.1, b.1))
}

impl Ranked for (String, String) {
    open spec fn before(a: (Seq<char>, Seq<char>), b: (Seq<char>, Seq<char>)) -> bool {
        pair_before(a, b)
    }

    fn precedes(&self, other: &(String, String)) -> (r: bool) {
        if str_precedes(&self.0, &other.0) {
            true
        } else {
            crate::text::str_eq(&self.0, &other.0) && str_precedes(&self.1, &other.1)
        }
    }

    proof fn weak_order(
        a: (Seq<char>, Seq<char>),
        b: (Seq<char>, Seq<char>),
        c: (Seq<char>, Seq<char>),
    ) {
        crate::text::lex_is_order(a.0, b.0, c.0);
        crate::text::lex_is_order(a.1, b.1, c.1);
        crate::text::lex_is_order(b.0, c.0, a.0);
        crate::text::lex_is_order(c.0, a.0, b.0);
        crate::text::lex_is_order(c.0, b.0, a.0);
        crate::text::lex_is_order(b.0, a.0, c.0);
        crate::text::lex_is_order(a.0, c.0, b.0);
    }
}

/// How often the pair stands in the list.
pub fn count_pair(v: &Vec<(String, String)>, a: &str, b: &str) -> (n: usize)
    ensures
        n == times(views(v@), (a@, b@)),
{
    let mut n: usize = 0;
    let mut i: usize = 0;
    while i < v.len()
        invariant
            i <= v@.len(),
            n == times(views(v@).take(i as int), (a@, b@)),
            n <= i,
        decreases v@.len() - i,
    {
        assert(views(v@).take(i + 1).drop_last() =~= views(v@).take(i as int));
        assert(views(v@)[i as int] == (v@[i as int].0@, v@[i as int].1@));
        if crate::text::str_eq(&v[i].0, a) && crate::text::str_eq(&v[i].1, b) {
            n = n + 1;
        }
        i = i + 1;
    }
    assert(views(v@).take(i as int) =~= views(v@));
    n
}

/// How often the text stands in the list.
pub fn count_text(v: &Vec<String>, x: &str) -> (n: usize)
    ensures
        n == times(views(v@), x@),
{
    let mut n: usize = 0;
    let mut i: usize = 0;
    while i < v.len()
        invariant
            i <= v@.len(),
            n == times(views(v@).take(i as int), x@),
            n <= i,
        decreases v@.len() - i,
    {
        assert(views(v@).take(i + 1).drop_last() =~= views(v@).take(i as int));
        assert(views(v@)[i as int] == v@[i as int]@);
        if crate::text::str_eq(&v[i], x) {
            n = n + 1;
        }
        i = i + 1;
    }
    assert(views(v@).take(i as int) =~= views(v@));
    n
}

/// The keys of texts are these texts: none is lost and none is added.
pub proof fn text_keys_stay(s: Seq<Seq<char>>)
    ensures
        forall|x: Seq<char>| key_set::<String>(s).contains(x) <==> #[trigger] s.contains(x),
        key_set::<String>(s).no_duplicates(),
    decreases s.len(),
{
    keys_ascend::<String>(s);
    let k = key_set::<String>(s);
    assert forall|i: int, j: int| 0 <= i < k.len() && 0 <= j < k.len() && i != j implies k[i]
        != k[j] by {
        if i < j {
            assert(String::before(k[i], k[j]));
        } else {
            assert(String::before(k[j], k[i]));
        }
        crate::text::lex_is_order(k[i], k[j], k[i]);
    }
    if s.len() > 0 {
        text_keys_stay(s.drop_last());
        let rest = key_set::<String>(s.drop_last());
        let x = s.last();
        slot_is_first::<String>(rest, x, 0);
        let p = slot_of::<String>(rest, x, 0);
        if p < rest.len() && !String::before(x, rest[p]) {
            crate::text::lex_is_order(x, rest[p], x);
            assert(rest[p] == x);
        } else {
            assert(k == rest.insert(p, x));
            assert(k[p] == x);
        }
        assert forall|y: Seq<char>| k.contains(y) <==> #[trigger] s.contains(y) by {
            if s.contains(y) {
                let i = choose|i: int| 0 <= i < s.len() && s[i] == y;
                if i < s.len() - 1 {
                    assert(s.drop_last()[i] == y);
                    assert(s.drop_last().contains(y));
                    assert(rest.contains(y));
                    let j = choose|j: int| 0 <= j < rest.len() && rest[j] == y;
                    if k != rest {
                        if j < p {
                            assert(k[j] == y);
                        } else {
                            assert(k[j + 1] == y);
                        }
                    }
                }
            }
            if k.contains(y) {
                let j = choose|j: int| 0 <= j < k.len() && k[j] == y;
                if k == rest {
                    assert(rest.contains(y));
                } else if j < p {
                    assert(rest[j] == y);
                } else if j > p {
                    assert(rest[j - 1] == y);
                }
                if rest.contains(y) {
                    assert(s.drop_last().contains(y));
                    let i = choose|i: int| 0 <= i < s.drop_last().len() && s.drop_last()[i] == y;
                    assert(s[i] == y);
                } else {
                    assert(s[s.len() - 1] == y);
                }
            }
        }
    }
}

/// The first of sorted items is one of them, and none of them stands before it.
pub proof fn first_is_least<T: Ranked>(s: Seq<T::V>)
    requires
        s.len() > 0,
    ensures
        exists|i: int| 0 <= i < s.len() && #[trigger] s[i] == stable_sorted::<T>(s)[0],
        forall|i: int| 0 <= i < s.len() ==> !T::before(#[trigger] s[i], stable_sorted::<T>(s)[0]),
{
    broadcast use vstd::seq_lib::group_to_multiset_ensures;

    sorting_orders::<T>(s);
    let t = stable_sorted::<T>(s);
    assert(t.contains(t[0]));
    assert(t.to_multiset().count(t[0]) > 0);
    assert(s.to_multiset().count(t[0]) > 0);
    assert(s.contains(t[0]));
    assert forall|i: int| 0 <= i < s.len() implies !T::before(#[trigger] s[i], t[0]) by {
        assert(s.contains(s[i]));
        assert(s.to_multiset().count(s[i]) > 0);
        assert(t.to_multiset().count(s[i]) > 0);
        assert(t.contains(s[i]));
        let j = choose|j: int| 0 <= j < t.len() && t[j] == s[i];
        if j > 0 {
            assert(!T::before(t[j], t[0]));
        } else {
            T::weak_order(t[0], t[0], t[0]);
        }
    }
}

/// Sorting neither loses an item nor adds one.
pub proof fn sorting_keeps_items<T: Ranked>(s: Seq<T::V>, x: T::V)
    ensures
        stable_sorted::<T>(s).contains(x) <==> s.contains(x),
{
    broadcast use vstd::seq_lib::group_to_multiset_ensures;

    sorting_orders::<T>(s);
    let t = stable_sorted::<T>(s);
    if s.contains(x) {
        assert(s.to_multiset().count(x) > 0);
        assert(t.to_multiset().count(x) > 0);
    }
    if t.contains(x) {
        assert(t.to_multiset().count(x) > 0);
        assert(s.to_multiset().count(x) > 0);
    }
}

/// Items of the same rank keep the order in which they came.
pub proof fn sorting_is_stable<T: Ranked>(s: Seq<T::V>, e: T::V)
    ensures
        stable_sorted::<T>(s).filter(|y: T::V| !T::before(y, e) && !T::before(e, y)) == s.filter(
            |y: T::V| !T::before(y, e) && !T::before(e, y),
        ),
    decreases s.len(),
{
    let same = |y: T::V| !T::before(y, e) && !T::before(e, y);
    reveal(Seq::filter);
    if s.len() > 0 {
        let less = s.drop_last();
        let t = stable_sorted::<T>(less);
        let x = s.last();
        sorting_is_stable::<T>(less, e);
        sorting_orders::<T>(less);
        place_is_first::<T>(t, x, 0);
        let p = place_of::<T>(t, x, 0);
        let r = t.insert(p, x);
        assert(r =~= t.take(p).push(x) + t.skip(p));
        assert(t =~= t.take(p) + t.skip(p));
        filters_join(t.take(p).push(x), t.skip(p), same);
        filters_join(t.take(p), t.skip(p), same);
        assert(t.take(p).push(x).drop_last() =~= t.take(p));
        if same(x) {
            assert forall|i: int| 0 <= i < t.skip(p).len() implies !same(
                #[trigger] t.skip(p)[i],
            ) by {
                let y = t[p + i];
                if i > 0 {
                    assert(!T::before(t[p + i], t[p]));
                }
                T::weak_order(t[p], t[p], y);
                assert(T::before(x, t[p]));
                T::weak_order(t[p], y, x);
                assert(T::before(x, y)) by {
                    if !T::before(x, y) {
                        if i > 0 {
                            T::weak_order(t[p], y, x);
                        }
                    }
                }
                if same(y) {
                    T::weak_order(y, e, x);
                }
            }
            nothing_passes(t.skip(p), same);
        }
    }
}

proof fn filters_join<A>(a: Seq<A>, b: Seq<A>, keep: spec_fn(A) -> bool)
    ensures
        (a + b).filter(keep) == a.filter(keep) + b.filter(keep),
    decreases b.len(),
{
    reveal(Seq::filter);
    if b.len() == 0 {
        assert(a + b =~= a);
        assert(a.filter(keep) + b.filter(keep) =~= a.filter(keep));
    } else {
        filters_join(a, b.drop_last(), keep);
        assert((a + b).drop_last() =~= a + b.drop_last());
        assert((a + b).last() == b.last());
        let head = a.filter(keep);
        let less = b.drop_last().filter(keep);
        if keep(b.last()) {
            assert(head + less.push(b.last()) =~= (head + less).push(b.last()));
        }
    }
}

proof fn nothing_passes<A>(s: Seq<A>, keep: spec_fn(A) -> bool)
    requires
        forall|i: int| 0 <= i < s.len() ==> !keep(#[trigger] s[i]),
    ensures
        s.filter(keep).len() == 0,
    decreases s.len(),
{
    reveal(Seq::filter);
    if s.len() > 0 {
        assert(!keep(s[s.len() - 1]));
        let less = s.drop_last();
        assert forall|i: int| 0 <= i < less.len() implies !keep(#[trigger] less[i]) by {
            assert(less[i] == s[i]);
        }
        nothing_passes(less, keep);
    }
}

/// The keys of pairs of texts are these pairs: none is lost and none is added.
pub proof fn pair_keys_stay(s: Seq<(Seq<char>, Seq<char>)>)
    ensures
        forall|x: (Seq<char>, Seq<char>)| key_set::<(String, String)>(s).contains(x) <==> #[trigger] s.contains(x),
        key_set::<(String, String)>(s).no_duplicates(),
    decreases s.len(),
{
    keys_ascend::<(String, String)>(s);
    let k = key_set::<(String, String)>(s);
    assert forall|i: int, j: int| 0 <= i < k.len() && 0 <= j < k.len() && i != j implies k[i]
        != k[j] by {
        if i < j {
            assert(<(String, String)>::before(k[i], k[j]));
        } else {
            assert(<(String, String)>::before(k[j], k[i]));
        }
        crate::text::lex_is_order(k[i].0, k[j].0, k[i].0);
        crate::text::lex_is_order(k[i].1, k[j].1, k[i].1);
    }
    if s.len() > 0 {
        pair_keys_stay(s.drop_last());
        let rest = key_set::<(String, String)>(s.drop_last());
        let x = s.last();
        slot_is_first::<(String, String)>(rest, x, 0);
        let p = slot_of::<(String, String)>(rest, x, 0);
        if p < rest.len() && !<(String, String)>::before(x, rest[p]) {
            crate::text::lex_is_order(x.0, rest[p].0, x.0);
            crate::text::lex_is_order(x.1, rest[p].1, x.1);
            assert(rest[p] == x);
        } else {
            assert(k == rest.insert(p, x));
            assert(k[p] == x);
        }
        assert forall|y: (Seq<char>, Seq<char>)| k.contains(y) <==> #[trigger] s.contains(y) by {
            if s.contains(y) {
                let i = choose|i: int| 0 <= i < s.len() && s[i] == y;
                if i < s.len() - 1 {
                    assert(s.drop_last()[i] == y);
                    assert(s.drop_last().contains(y));
                    assert(rest.contains(y));
                    let j = choose|j: int| 0 <= j < rest.len() && rest[j] == y;
                    if k != rest {
                        if j < p {
                            assert(k[j] == y);
                        } else {
                            assert(k[j + 1] == y);
                        }
                    }
                }
            }
            if k.contains(y) {
                let j = choose|j: int| 0 <= j < k.len() && k[j] == y;
                if k == rest {
                    assert(rest.contains(y));
                } else if j < p {
                    assert(rest[j] == y);
                } else if j > p {
                    assert(rest[j - 1] == y);
                }
                if rest.contains(y) {
                    assert(s.drop_last().contains(y));
                    let i = choose|i: int| 0 <= i < s.drop_last().len() && s.drop_last()[i] == y;
                    assert(s[i] == y);
                } else {
                    assert(s[s.len() - 1] == y);
                }
            }
        }
    }
}

/// How often an item occurs is how many places it stands at.
pub proof fn times_counts_places<V>(s: Seq<V>, x: V)
    ensures
        times(s, x) == s.filter(|y: V| y == x).len(),
    decreases s.len(),
{
    reveal(Seq::filter);
    if s.len() > 0 {
        times_counts_places(s.drop_last(), x);
    }
}

} // verus!
