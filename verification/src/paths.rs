//! Paths as texts, with `/` between their components.

use vstd::prelude::*;

use crate::text::{
    begins_with, chars_of, concat2, last_index, rfind_char, starts_with, str_eq, string_of,
};

verus! {

/// A path without separators and `.` components at its end.
pub open spec fn trim_path(p: Seq<char>) -> Seq<char>
    decreases p.len(),
{
    let n = p.len() as int;
    if n > 1 && p[n - 1] == '/' {
        trim_path(p.drop_last())
    } else if n > 1 && p[n - 1] == '.' && p[n - 2] == '/' {
        trim_path(p.drop_last())
    } else {
        p
    }
}

/// The length of what is left of `v[..n]` without separators and `.` components at its end.
fn trimmed_length(v: &Vec<char>, n: usize) -> (r: usize)
    requires
        n <= v@.len(),
    ensures
        r <= n,
        trim_path(v@.take(n as int)) == v@.take(r as int),
{
    let mut k: usize = n;
    while k > 1 && (v[k - 1] == '/' || (v[k - 1] == '.' && v[k - 2] == '/'))
        invariant
            k <= n <= v@.len(),
            trim_path(v@.take(n as int)) == trim_path(v@.take(k as int)),
        decreases k,
    {
        assert(v@.take(k as int).drop_last() =~= v@.take(k - 1));
        k = k - 1;
    }
    k
}

/// The directory that a path is in: none for the root and for an empty path.
pub open spec fn parent_path(p: Seq<char>) -> Option<Seq<char>> {
    let t = trim_path(p);
    if t.len() == 0 || (t.len() == 1 && t[0] == '/') {
        None
    } else {
        match last_index(t, '/') {
            Some(k) => Some(trim_path(t.take(k + 1))),
            None => Some(Seq::empty()),
        }
    }
}

/// The directory that a path is in.
pub fn parent(p: &str) -> (r: Option<String>)
    ensures
        r.deep_view() == parent_path(p@),
{
    let v = chars_of(p);
    assert(v@.take(v@.len() as int) =~= p@);
    let n = trimmed_length(&v, v.len());
    let mut t = v;
    let ghost full = t@;
    t.truncate(n);
    assert(t@ =~= trim_path(p@));
    if n == 0 || (n == 1 && t[0] == '/') {
        return None;
    }
    match rfind_char(&t, '/') {
        Some(k) => {
            let m = trimmed_length(&t, k + 1);
            assert(t@.subrange(0, m as int) =~= t@.take(m as int));
            Some(string_of(&t, 0, m))
        },
        None => Some(String::new()),
    }
}

/// The last component of a path; none where that is no name.
pub open spec fn file_name(p: Seq<char>) -> Option<Seq<char>> {
    let t = trim_path(p);
    let name = match last_index(t, '/') {
        Some(k) => t.skip(k + 1),
        None => t,
    };
    if name.len() == 0 || name == "."@ || name == ".."@ {
        None
    } else {
        Some(name)
    }
}

/// A name without what stands from its last dot on, unless it starts with that dot.
pub open spec fn stem_of(name: Seq<char>) -> Seq<char> {
    match last_index(name, '.') {
        Some(k) => if k == 0 {
            name
        } else {
            name.take(k)
        },
        None => name,
    }
}

/// What stands behind the last dot of a name, unless it starts with that dot.
pub open spec fn extension_of(name: Seq<char>) -> Option<Seq<char>> {
    match last_index(name, '.') {
        Some(k) => if k == 0 {
            None
        } else {
            Some(name.skip(k + 1))
        },
        None => None,
    }
}

/// The last component of a path.
pub fn base_name(p: &str) -> (r: Option<String>)
    ensures
        r.deep_view() == file_name(p@),
{
    let v = chars_of(p);
    assert(v@.take(v@.len() as int) =~= p@);
    let n = trimmed_length(&v, v.len());
    let mut t = v;
    t.truncate(n);
    assert(t@ =~= trim_path(p@));
    let from: usize = match rfind_char(&t, '/') {
        Some(k) => k + 1,
        None => 0,
    };
    let name = string_of(&t, from, n);
    assert(t@.subrange(from as int, n as int) =~= t@.skip(from as int));
    assert(t@.skip(0) =~= t@);
    if name.as_str().is_empty() || str_eq(&name, ".") || str_eq(&name, "..") {
        None
    } else {
        Some(name)
    }
}

/// A file's name without its extension.
pub fn file_stem(p: &str) -> (r: Option<String>)
    ensures
        match r {
            Some(s) => file_name(p@) matches Some(n) && s@ == stem_of(n),
            None => file_name(p@) is None,
        },
{
    match base_name(p) {
        Some(name) => {
            let v = chars_of(&name);
            match rfind_char(&v, '.') {
                Some(k) => {
                    if k == 0 {
                        Some(name)
                    } else {
                        assert(v@.subrange(0, k as int) =~= v@.take(k as int));
                        Some(string_of(&v, 0, k))
                    }
                },
                None => Some(name),
            }
        },
        None => None,
    }
}

/// The extension of a file.
pub open spec fn path_extension(p: Seq<char>) -> Option<Seq<char>> {
    match file_name(p) {
        Some(n) => extension_of(n),
        None => None,
    }
}

/// The extension of a file.
pub fn extension(p: &str) -> (r: Option<String>)
    ensures
        r.deep_view() == path_extension(p@),
{
    match base_name(p) {
        Some(name) => {
            let v = chars_of(&name);
            match rfind_char(&v, '.') {
                Some(k) => {
                    if k == 0 {
                        None
                    } else {
                        let n: usize = v.len();
                        assert(v@.subrange(k + 1, n as int) =~= v@.skip(k + 1));
                        Some(string_of(&v, k + 1, n))
                    }
                },
                None => None,
            }
        },
        None => None,
    }
}

/// Where the first `/` of a path from `i` on stands; its length where there is none.
pub open spec fn separator_from(p: Seq<char>, i: int) -> int
    decreases p.len() - i,
{
    if i >= p.len() {
        p.len() as int
    } else if p[i] == '/' {
        i
    } else {
        separator_from(p, i + 1)
    }
}

/// The length of a path's first component: the root, or a name.
pub open spec fn first_length(p: Seq<char>) -> int {
    if p.len() > 0 && p[0] == '/' {
        1
    } else {
        separator_from(p, 0)
    }
}

/// A path without separators and `.` components at its start.
pub open spec fn trim_front(p: Seq<char>) -> Seq<char>
    decreases p.len(),
{
    if p.len() > 0 && p[0] == '/' {
        trim_front(p.skip(1))
    } else if p.len() > 0 && p[0] == '.' && (p.len() == 1 || p[1] == '/') {
        trim_front(p.skip(1))
    } else {
        p
    }
}

/// What stands behind a path's first component.
pub open spec fn behind_first(p: Seq<char>) -> Seq<char> {
    trim_front(p.skip(first_length(p)))
}

/// What of a path stands behind the components of a directory; none where it does not begin
/// with those. A `.` is a component at the start of a path only, and separators that follow one
/// another are one.
pub open spec fn rest_below(p: Seq<char>, dir: Seq<char>) -> Option<Seq<char>>
    decreases dir.len(),
    via behind_first_is_shorter
{
    if dir.len() == 0 {
        Some(p)
    } else if p.len() > 0 && p.take(first_length(p)) == dir.take(first_length(dir)) {
        rest_below(behind_first(p), behind_first(dir))
    } else {
        None
    }
}

#[via_fn]
proof fn behind_first_is_shorter(p: Seq<char>, dir: Seq<char>) {
    if dir.len() > 0 {
        separator_fits(dir, 1);
        trimmed_front_fits(dir.skip(first_length(dir)));
    }
}

proof fn separator_fits(p: Seq<char>, i: int)
    requires
        0 <= i <= p.len(),
    ensures
        i <= separator_from(p, i) <= p.len(),
    decreases p.len() - i,
{
    if i < p.len() && p[i] != '/' {
        separator_fits(p, i + 1);
    }
}

proof fn trimmed_front_fits(p: Seq<char>)
    ensures
        trim_front(p).len() <= p.len(),
    decreases p.len(),
{
    if p.len() > 0 {
        trimmed_front_fits(p.skip(1));
    }
}

/// The path lies at the directory or below it, by their components.
pub open spec fn is_within(p: Seq<char>, dir: Seq<char>) -> bool {
    rest_below(p, dir) is Some
}

/// A path relative to a directory; the path itself where it does not lie there.
pub open spec fn relative_path(p: Seq<char>, dir: Seq<char>) -> Seq<char> {
    match rest_below(p, dir) {
        Some(rest) => trim_path(rest),
        None => p,
    }
}

/// What the paths below a directory begin with.
pub open spec fn below(dir: Seq<char>) -> Seq<char> {
    if dir.len() > 0 && dir.last() == '/' {
        dir
    } else {
        dir + "/"@
    }
}

fn below_of(dir: &str) -> (r: String)
    ensures
        r@ == below(dir@),
{
    let v = chars_of(dir);
    if v.len() > 0 && v[v.len() - 1] == '/' {
        dir.to_owned()
    } else {
        concat2(dir, "/")
    }
}

/// The path that `p` is when it is read from the directory `dir`.
pub open spec fn joined_path(dir: Seq<char>, p: Seq<char>) -> Seq<char> {
    if begins_with(p, "/"@) || dir.len() == 0 {
        p
    } else {
        below(dir) + p
    }
}

/// The path that `p` is when it is read from the directory `dir`.
pub fn join_path(dir: &str, p: &str) -> (r: String)
    ensures
        r@ == joined_path(dir@, p@),
{
    if starts_with(p, "/") || dir.is_empty() {
        p.to_owned()
    } else {
        concat2(&below_of(dir), p)
    }
}

/// Where the first component of `v[i..]` ends.
fn first_end(v: &Vec<char>, i: usize) -> (r: usize)
    requires
        i < v@.len(),
    ensures
        i < r <= v@.len(),
        r - i == first_length(v@.skip(i as int)),
{
    let ghost p = v@.skip(i as int);
    let n = v.len();
    if v[i] == '/' {
        return i + 1;
    }
    let mut k: usize = i;
    while k < n && v[k] != '/'
        invariant
            n == v@.len(),
            i <= k <= v@.len(),
            p == v@.skip(i as int),
            p[0] != '/',
            i < v@.len(),
            separator_from(p, 0) == separator_from(p, k - i),
        decreases v@.len() - k,
    {
        k = k + 1;
    }
    k
}

/// Where what is left of `v[i..]` without separators and `.` components at its start begins.
fn trimmed_start(v: &Vec<char>, i: usize) -> (r: usize)
    requires
        i <= v@.len(),
    ensures
        i <= r <= v@.len(),
        v@.skip(r as int) == trim_front(v@.skip(i as int)),
{
    let mut k: usize = i;
    while k < v.len() && (v[k] == '/' || (v[k] == '.' && (k + 1 == v.len() || v[k + 1] == '/')))
        invariant
            i <= k <= v@.len(),
            trim_front(v@.skip(i as int)) == trim_front(v@.skip(k as int)),
        decreases v@.len() - k,
    {
        assert(v@.skip(k as int).skip(1) =~= v@.skip(k + 1));
        k = k + 1;
    }
    k
}

/// Whether `a[i..m]` and `b[j..n]` are the same.
fn same_piece(a: &Vec<char>, i: usize, m: usize, b: &Vec<char>, j: usize, n: usize) -> (r: bool)
    requires
        i <= m <= a@.len(),
        j <= n <= b@.len(),
    ensures
        r == (a@.subrange(i as int, m as int) == b@.subrange(j as int, n as int)),
{
    let ghost x = a@.subrange(i as int, m as int);
    let ghost y = b@.subrange(j as int, n as int);
    if m - i != n - j {
        assert(x.len() != y.len());
        return false;
    }
    let mut k: usize = 0;
    while k < m - i
        invariant
            i <= m <= a@.len(),
            j <= n <= b@.len(),
            m - i == n - j,
            k <= m - i,
            x == a@.subrange(i as int, m as int),
            y == b@.subrange(j as int, n as int),
            forall|l: int| 0 <= l < k ==> x[l] == y[l],
        decreases m - i - k,
    {
        if a[i + k] != b[j + k] {
            assert(x[k as int] != y[k as int]);
            return false;
        }
        k = k + 1;
    }
    assert(x =~= y);
    true
}

/// Where what stands behind the components of a directory begins.
fn start_below(v: &Vec<char>, d: &Vec<char>) -> (r: Option<usize>)
    ensures
        match r {
            Some(k) => k <= v@.len() && rest_below(v@, d@) == Some(v@.skip(k as int)),
            None => rest_below(v@, d@) is None,
        },
{
    let mut i: usize = 0;
    let mut j: usize = 0;
    assert(v@.skip(0) =~= v@);
    assert(d@.skip(0) =~= d@);
    while j < d.len()
        invariant
            i <= v@.len(),
            j <= d@.len(),
            rest_below(v@, d@) == rest_below(v@.skip(i as int), d@.skip(j as int)),
        decreases d@.len() - j,
    {
        if i >= v.len() {
            return None;
        }
        let m = first_end(v, i);
        let n = first_end(d, j);
        assert(v@.skip(i as int).take(m - i) =~= v@.subrange(i as int, m as int));
        assert(d@.skip(j as int).take(n - j) =~= d@.subrange(j as int, n as int));
        if !same_piece(v, i, m, d, j, n) {
            return None;
        }
        assert(v@.skip(i as int).skip(m - i) =~= v@.skip(m as int));
        assert(d@.skip(j as int).skip(n - j) =~= d@.skip(n as int));
        i = trimmed_start(v, m);
        j = trimmed_start(d, n);
    }
    Some(i)
}

/// Whether the path lies at the directory or below it.
pub fn within(p: &str, dir: &str) -> (r: bool)
    ensures
        r == is_within(p@, dir@),
{
    start_below(&chars_of(p), &chars_of(dir)).is_some()
}

/// A path relative to a directory; the path itself where it does not lie there.
pub fn relative_to(p: &str, dir: &str) -> (r: String)
    ensures
        r@ == relative_path(p@, dir@),
{
    let v = chars_of(p);
    match start_below(&v, &chars_of(dir)) {
        Some(k) => {
            let n = v.len();
            let rest = string_of(&v, k, n);
            let t = chars_of(&rest);
            assert(v@.subrange(k as int, n as int) =~= v@.skip(k as int));
            assert(t@.take(t@.len() as int) =~= t@);
            let m = trimmed_length(&t, t.len());
            assert(t@.subrange(0, m as int) =~= t@.take(m as int));
            string_of(&t, 0, m)
        },
        None => p.to_owned(),
    }
}

proof fn last_one_is_found(s: Seq<char>, c: char, k: int)
    requires
        0 <= k < s.len(),
        s[k] == c,
        forall|j: int| k < j < s.len() ==> s[j] != c,
    ensures
        last_index(s, c) == Some(k),
    decreases s.len(),
{
    if k < s.len() - 1 {
        assert(s[s.len() - 1] != c);
        let less = s.drop_last();
        assert forall|j: int| k < j < less.len() implies less[j] != c by {
            assert(less[j] == s[j]);
        }
        last_one_is_found(less, c, k);
    }
}

/// The name of a file is what stands behind the last separator of its path, its stem what
/// stands before the last dot of the name, and its extension what stands behind it.
pub proof fn paths_end_in_names(dir: Seq<char>, stem: Seq<char>, ext: Seq<char>)
    requires
        dir.len() > 0,
        stem.len() > 0,
        ext.len() > 0,
        forall|i: int| 0 <= i < stem.len() ==> stem[i] != '/' && stem[i] != '.',
        forall|i: int| 0 <= i < ext.len() ==> ext[i] != '/' && ext[i] != '.',
    ensures
        file_name(dir + "/"@ + (stem + "."@ + ext)) == Some(stem + "."@ + ext),
        path_extension(dir + "/"@ + (stem + "."@ + ext)) == Some(ext),
        stem_of(stem + "."@ + ext) == stem,
{
    reveal_strlit("/");
    reveal_strlit(".");
    reveal_strlit("..");
    let name = stem + "."@ + ext;
    let p = dir + "/"@ + name;
    let n = p.len() as int;
    assert(p.last() == name.last() && name.last() == ext.last());
    assert(p.last() != '/' && p.last() != '.');
    assert(trim_path(p) == p);
    assert(p[dir.len() as int] == '/');
    assert forall|j: int| dir.len() < j < p.len() implies p[j] != '/' by {
        let i = j - dir.len() - 1;
        assert(p[j] == name[i]);
        if i < stem.len() {
            assert(name[i] == stem[i]);
        } else if i > stem.len() {
            assert(name[i] == ext[i - stem.len() - 1]);
        }
    }
    last_one_is_found(p, '/', dir.len() as int);
    assert(p.skip(dir.len() as int + 1) =~= name);
    assert(name[0] == stem[0]);
    assert(name != "."@ && name != ".."@) by {
        assert("."@[0] == '.' && ".."@[0] == '.');
    }
    assert(name[stem.len() as int] == '.');
    assert forall|j: int| stem.len() < j < name.len() implies name[j] != '.' by {
        assert(name[j] == ext[j - stem.len() - 1]);
    }
    last_one_is_found(name, '.', stem.len() as int);
    assert(name.skip(stem.len() as int + 1) =~= ext);
    assert(name.take(stem.len() as int) =~= stem);
}

/// The directory of a path is what stands before its last component.
pub proof fn parents_are_what_stands_before(dir: Seq<char>, name: Seq<char>)
    requires
        dir.len() > 0,
        dir.last() != '/',
        dir.last() != '.',
        name.len() > 0,
        forall|i: int| 0 <= i < name.len() ==> name[i] != '/',
        name.last() != '.',
    ensures
        parent_path(dir + "/"@ + name) == Some(dir),
{
    reveal_strlit("/");
    let p = dir + "/"@ + name;
    assert(p.last() == name.last());
    assert(p.last() != '/') by {
        assert(name[name.len() - 1] != '/');
    }
    assert(trim_path(p) == p);
    assert(p[dir.len() as int] == '/');
    assert forall|j: int| dir.len() < j < p.len() implies p[j] != '/' by {
        assert(p[j] == name[j - dir.len() - 1]);
    }
    last_one_is_found(p, '/', dir.len() as int);
    let t = p.take(dir.len() as int + 1);
    assert(t.last() == '/');
    assert(t.drop_last() =~= dir);
    reveal_with_fuel(trim_path, 3);
}

proof fn same_parts_are_passed(dir: Seq<char>, rest: Seq<char>)
    requires
        dir.len() > 0,
        no_detours(dir),
        rest.len() == 0 || rest[0] == '/',
    ensures
        rest_below(dir + rest, dir) == Some(if rest.len() == 0 {
            rest
        } else {
            trim_front(rest)
        }),
    decreases dir.len(),
{
    let p = dir + rest;
    let n = first_length(dir);
    separator_fits(dir, 0);
    separator_fits(dir, 1);
    separator_is_kept(dir, rest, 0);
    assert(first_length(p) == n);
    assert(p.take(n) =~= dir.take(n));
    let left = dir.skip(n);
    assert(p.skip(n) =~= left + rest);
    if left.len() == 0 {
        assert(left + rest =~= rest);
        assert(behind_first(dir) =~= Seq::<char>::empty()) by {
            assert(trim_front(left) == left);
        }
        assert(behind_first(p) == trim_front(rest));
        assert(rest_below(behind_first(p), behind_first(dir)) == Some(behind_first(p)));
    } else {
        if dir[0] == '/' {
            assert(dir.skip(1)[0] == dir[1]);
            assert(no_detours(dir.skip(1))) by {
                detours_stay_away(dir, 1);
            }
            assert(trim_front(left) == left);
            assert((left + rest)[0] == left[0]);
            assert(trim_front(left + rest) == left + rest);
            same_parts_are_passed(left, rest);
        } else {
            separator_is_there(dir, 0);
            assert(left[0] == '/');
            let tail = left.skip(1);
            assert(tail =~= dir.skip(n + 1));
            assert(no_detours(tail)) by {
                detours_stay_away(dir, n + 1);
            }
            assert(trim_front(tail) == tail);
            assert(trim_front(left) == tail);
            assert((left + rest).skip(1) =~= tail + rest);
            assert((tail + rest)[0] == tail[0]);
            assert(trim_front(tail + rest) == tail + rest);
            assert((left + rest)[0] == '/');
            assert(trim_front(left + rest) == tail + rest);
            same_parts_are_passed(tail, rest);
        }
    }
}

/// A path without `.` components, without separators one behind the other and without one at
/// its end.
pub open spec fn no_detours(p: Seq<char>) -> bool {
    &&& p.len() > 0 && p.last() != '/'
    &&& p[0] != '.'
    &&& forall|i: int| 0 <= i < p.len() - 1 && p[i] == '/' ==> #[trigger] p[i + 1] != '/' && p[i + 1]
        != '.'
}

proof fn detours_stay_away(p: Seq<char>, k: int)
    requires
        no_detours(p),
        0 < k < p.len(),
        p[k - 1] == '/',
    ensures
        no_detours(p.skip(k)),
{
    let q = p.skip(k);
    assert(p[k - 1 + 1] != '.');
    assert(q[0] == p[k]);
    assert forall|i: int| 0 <= i < q.len() - 1 && q[i] == '/' implies #[trigger] q[i + 1] != '/'
        && q[i + 1] != '.' by {
        assert(p[k + i] == '/');
        assert(p[k + i + 1] != '/');
    }
}

proof fn separator_is_kept(dir: Seq<char>, rest: Seq<char>, i: int)
    requires
        0 <= i <= dir.len(),
        rest.len() == 0 || rest[0] == '/',
    ensures
        separator_from(dir + rest, i) == separator_from(dir, i),
    decreases dir.len() - i,
{
    let p = dir + rest;
    if i < dir.len() {
        assert(p[i] == dir[i]);
        separator_is_kept(dir, rest, i + 1);
    } else if rest.len() > 0 {
        assert(p[i] == '/');
    }
}

proof fn separator_is_there(p: Seq<char>, i: int)
    requires
        0 <= i <= p.len(),
    ensures
        separator_from(p, i) < p.len() ==> p[separator_from(p, i)] == '/',
    decreases p.len() - i,
{
    if i < p.len() && p[i] != '/' {
        separator_is_there(p, i + 1);
    }
}

/// What lies below a directory is within it, and relative to it is what stands behind it; the
/// directory itself is within itself. A path that goes on behind its last name without a
/// separator is another one.
pub proof fn what_lies_below_is_within(dir: Seq<char>, name: Seq<char>)
    requires
        no_detours(dir),
        no_detours(name),
        name[0] != '/',
        name.last() != '.',
    ensures
        is_within(dir + ("/"@ + name), dir),
        relative_path(dir + ("/"@ + name), dir) == name,
        is_within(dir, dir),
        relative_path(dir, dir).len() == 0,
{
    reveal_strlit("/");
    let rest = "/"@ + name;
    same_parts_are_passed(dir, rest);
    assert(rest[0] == '/');
    assert(rest.skip(1) =~= name);
    assert(trim_front(name) == name);
    assert(trim_front(rest) == name);
    assert(trim_path(name) == name);
    let none = Seq::<char>::empty();
    same_parts_are_passed(dir, none);
    assert(dir + none =~= dir);
}

} // verus!
