//! How the library's values are seen in contracts: a list by the views of its items, and
//! copies that keep the view.

use vstd::prelude::*;

verus! {

/// The views of the items of a list.
pub open spec fn views<T: DeepView>(s: Seq<T>) -> Seq<T::V> {
    Seq::new(s.len(), |i: int| s[i].deep_view())
}

/// The view of an added item stands behind the views of the others.
pub broadcast proof fn views_push<T: DeepView>(s: Seq<T>, x: T)
    ensures
        #[trigger] views(s.push(x)) == views(s).push(x.deep_view()),
{
    assert(views(s.push(x)) =~= views(s).push(x.deep_view()));
}

/// The view of an inserted item stands at its place.
pub broadcast proof fn views_insert<T: DeepView>(s: Seq<T>, i: int, x: T)
    requires
        0 <= i <= s.len(),
    ensures
        #[trigger] views(s.insert(i, x)) == views(s).insert(i, x.deep_view()),
{
    assert(views(s.insert(i, x)) =~= views(s).insert(i, x.deep_view()));
}

/// An empty list has no views.
pub broadcast proof fn views_empty<T: DeepView>(s: Seq<T>)
    requires
        s.len() == 0,
    ensures
        #[trigger] views(s) == Seq::<T::V>::empty(),
{
    assert(views(s) =~= Seq::<T::V>::empty());
}

/// The views of the first items.
pub broadcast proof fn views_take<T: DeepView>(s: Seq<T>, n: int)
    requires
        0 <= n <= s.len(),
    ensures
        #[trigger] views(s.take(n)) == views(s).take(n),
{
    assert(views(s.take(n)) =~= views(s).take(n));
}

pub broadcast group group_views {
    views_push,
    views_insert,
    views_empty,
    views_take,
}

/// A value that can be copied with its view kept.
pub trait Dup: DeepView + Sized {
    /// A copy.
    fn dup(&self) -> (r: Self)
        ensures
            r.deep_view() == self.deep_view(),
    ;
}

impl Dup for String {
    fn dup(&self) -> (r: String) {
        self.as_str().to_owned()
    }
}

impl Dup for bool {
    fn dup(&self) -> (r: bool) {
        *self
    }
}

impl Dup for i64 {
    fn dup(&self) -> (r: i64) {
        *self
    }
}

impl Dup for usize {
    fn dup(&self) -> (r: usize) {
        *self
    }
}

impl Dup for u32 {
    fn dup(&self) -> (r: u32) {
        *self
    }
}

impl<T: Dup> Dup for Option<T> {
    fn dup(&self) -> (r: Option<T>) {
        match self {
            Some(t) => Some(t.dup()),
            None => None,
        }
    }
}

impl<A: Dup, B: Dup> Dup for (A, B) {
    fn dup(&self) -> (r: (A, B)) {
        (self.0.dup(), self.1.dup())
    }
}

/// A copy of a list.
pub fn dup_all<T: Dup>(v: &Vec<T>) -> (r: Vec<T>)
    ensures
        views(r@) == views(v@),
{
    broadcast use group_views;

    let mut r: Vec<T> = Vec::new();
    let mut i: usize = 0;
    while i < v.len()
        invariant
            i <= v@.len(),
            views(r@) == views(v@).take(i as int),
        decreases v@.len() - i,
    {
        r.push(v[i].dup());
        i = i + 1;
        assert(views(v@).take(i as int) =~= views(v@).take(i - 1).push(views(v@)[i - 1]));
    }
    assert(views(v@).take(i as int) =~= views(v@));
    r
}

/// Appends copies of the items of `more` to `v`.
pub fn extend_dup<T: Dup>(v: &mut Vec<T>, more: &Vec<T>)
    ensures
        views(final(v)@) == views(old(v)@) + views(more@),
{
    broadcast use group_views;

    let ghost start = views(v@);
    let mut i: usize = 0;
    assert(start + views(more@).take(0) =~= start);
    while i < more.len()
        invariant
            i <= more@.len(),
            views(v@) == start + views(more@).take(i as int),
        decreases more@.len() - i,
    {
        v.push(more[i].dup());
        i = i + 1;
        assert(start + views(more@).take(i as int) =~= (start + views(more@).take(i - 1)).push(
            views(more@)[i - 1],
        ));
    }
    assert(views(more@).take(i as int) =~= views(more@));
}

/// The text, or the given text where there is none.
pub open spec fn or_text(o: Option<Seq<char>>, other: Seq<char>) -> Seq<char> {
    match o {
        Some(t) => t,
        None => other,
    }
}

/// The text, or the given text where there is none.
pub fn text_or(o: &Option<String>, other: &str) -> (r: String)
    ensures
        r@ == or_text(o.deep_view(), other@),
{
    match o {
        Some(t) => t.dup(),
        None => other.to_owned(),
    }
}

/// Whether a text stands in the list.
pub fn list_has(list: &Vec<String>, x: &str) -> (r: bool)
    ensures
        r == views(list@).contains(x@),
{
    let mut i: usize = 0;
    while i < list.len()
        invariant
            i <= list@.len(),
            forall|k: int| 0 <= k < i ==> views(list@)[k] != x@,
        decreases list@.len() - i,
    {
        assert(views(list@)[i as int] == list@[i as int]@);
        if crate::text::str_eq(&list[i], x) {
            return true;
        }
        i = i + 1;
    }
    false
}

/// A sequence with one more item holds that item and those that it held before.
pub proof fn push_holds<T>(s: Seq<T>, x: T, y: T)
    ensures
        s.push(x).contains(y) <==> s.contains(y) || x == y,
{
    if s.contains(y) {
        let j = choose|j: int| 0 <= j < s.len() && s[j] == y;
        assert(s.push(x)[j] == y);
    }
    if x == y {
        assert(s.push(x)[s.len() as int] == y);
    }
    if s.push(x).contains(y) {
        let j = choose|j: int| 0 <= j < s.push(x).len() && s.push(x)[j] == y;
        assert(j < s.len() ==> s[j] == y);
    }
}

} // verus!
