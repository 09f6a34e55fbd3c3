//! Strings as sequences of characters: the searching, trimming, splitting and number
//! rendering that the rest of the library states its contracts over.

use vstd::prelude::*;
use vstd::utf8::{
    decode_utf8, encode_utf8, encode_utf8_decode_utf8, encode_utf8_valid_utf8, is_char_boundary,
    is_char_boundary_iff_not_is_continuation_byte, is_char_boundary_start_end_of_seq, valid_utf8,
    valid_utf8_split,
};

use crate::model::{group_views, views};

verus! {

broadcast use group_views;

/// `String::push` of std appends the given character and keeps what was there.
pub assume_specification[ String::push ](s: &mut String, c: char)
    ensures
        final(s)@ == old(s)@.push(c),
;

// ---------------------------------------------------------------------------
// Conversions
// ---------------------------------------------------------------------------

/// The characters of `s`, in order.
pub fn chars_of(s: &str) -> (v: Vec<char>)
    ensures
        v@ == s@,
{
    let mut v: Vec<char> = Vec::new();
    for c in it: s.chars()
        invariant
            it.seq() == s@,
            v@ == it.seq().take(it.index() as int),
    {
        v.push(c);
    }
    v
}

/// The string made of the characters `v[from..to]`.
pub fn string_of(v: &Vec<char>, from: usize, to: usize) -> (s: String)
    requires
        from <= to <= v@.len(),
    ensures
        s@ == v@.subrange(from as int, to as int),
{
    let mut s = String::new();
    let mut i: usize = from;
    while i < to
        invariant
            from <= i <= to <= v@.len(),
            s@ == v@.subrange(from as int, i as int),
        decreases to - i,
    {
        s.push(v[i]);
        i = i + 1;
        assert(v@.subrange(from as int, i as int) =~= v@.subrange(from as int, i - 1).push(v@[i - 1]));
    }
    s
}

/// Whether two strings hold the same characters.
pub fn str_eq(a: &str, b: &str) -> (r: bool)
    ensures
        r == (a@ == b@),
{
    let x = a.as_bytes();
    let y = b.as_bytes();
    proof {
        encode_utf8_decode_utf8(a@);
        encode_utf8_decode_utf8(b@);
    }
    if x.len() != y.len() {
        return false;
    }
    let mut i: usize = 0;
    while i < x.len()
        invariant
            i <= x.len(),
            x@.len() == y@.len(),
            x@ == encode_utf8(a@),
            y@ == encode_utf8(b@),
            forall|k: int| 0 <= k < i ==> x@[k] == y@[k],
        decreases x.len() - i,
    {
        if x[i] != y[i] {
            return false;
        }
        i = i + 1;
    }
    assert(x@ =~= y@);
    true
}

/// The concatenation of two strings.
pub fn concat2(a: &str, b: &str) -> (r: String)
    ensures
        r@ == a@ + b@,
{
    let mut s = a.to_owned();
    s.append(b);
    s
}

/// The concatenation of three strings.
pub fn concat3(a: &str, b: &str, c: &str) -> (r: String)
    ensures
        r@ == a@ + b@ + c@,
{
    let mut s = a.to_owned();
    s.append(b);
    s.append(c);
    s
}

// ---------------------------------------------------------------------------
// Searching
// ---------------------------------------------------------------------------

/// `p` stands in `s` at position `i`.
pub open spec fn occurs_at(s: Seq<char>, p: Seq<char>, i: int) -> bool {
    0 <= i && i + p.len() <= s.len() && s.subrange(i, i + p.len()) == p
}

/// The least position from `i` on at which `p` stands in `s`.
pub open spec fn find_from(s: Seq<char>, p: Seq<char>, i: int) -> Option<int>
    decreases s.len() + 1 - i,
{
    if i < 0 || i + p.len() > s.len() {
        None
    } else if occurs_at(s, p, i) {
        Some(i)
    } else {
        find_from(s, p, i + 1)
    }
}

/// `p` stands somewhere in `s`.
pub open spec fn has_str(s: Seq<char>, p: Seq<char>) -> bool {
    exists|i: int| occurs_at(s, p, i)
}

/// `s` begins with `p`.
pub open spec fn begins_with(s: Seq<char>, p: Seq<char>) -> bool {
    p.len() <= s.len() && s.take(p.len() as int) == p
}

/// `s` ends with `p`.
pub open spec fn finishes_with(s: Seq<char>, p: Seq<char>) -> bool {
    p.len() <= s.len() && s.skip(s.len() - p.len()) == p
}

/// `find_from` gives the least position from `i` on at which `p` stands, and gives none
/// only where there is no such position.
pub proof fn find_from_is_least(s: Seq<char>, p: Seq<char>, i: int)
    requires
        0 <= i,
    ensures
        match find_from(s, p, i) {
            Some(k) => {
                &&& i <= k
                &&& occurs_at(s, p, k)
                &&& forall|j: int| i <= j < k ==> !occurs_at(s, p, j)
            },
            None => forall|j: int| i <= j ==> !occurs_at(s, p, j),
        },
    decreases s.len() + 1 - i,
{
    if i + p.len() > s.len() {
    } else if occurs_at(s, p, i) {
    } else {
        find_from_is_least(s, p, i + 1);
    }
}

/// Whether `p` stands in `s` at position `i`.
pub fn occurs_here(s: &Vec<char>, p: &Vec<char>, i: usize) -> (r: bool)
    ensures
        r == occurs_at(s@, p@, i as int),
{
    if i > s.len() || p.len() > s.len() - i {
        return false;
    }
    let n: usize = s.len();
    let mut j: usize = 0;
    while j < p.len()
        invariant
            n == s@.len(),
            i + p@.len() <= n,
            j <= p@.len(),
            forall|k: int| 0 <= k < j ==> s@[i + k] == p@[k],
        decreases p.len() - j,
    {
        if s[i + j] != p[j] {
            assert(s@.subrange(i as int, i + p@.len())[j as int] == s@[i + j]);
            return false;
        }
        j = j + 1;
    }
    assert(s@.subrange(i as int, i + p@.len()) =~= p@);
    true
}

/// The least position from `from` on at which `p` stands in `s`.
pub fn find_chars(s: &Vec<char>, p: &Vec<char>, from: usize) -> (r: Option<usize>)
    ensures
        match r {
            Some(k) => find_from(s@, p@, from as int) == Some(k as int) && k <= s@.len(),
            None => find_from(s@, p@, from as int) is None,
        },
{
    let mut i: usize = from;
    while i <= s.len() && p.len() <= s.len() - i
        invariant
            find_from(s@, p@, from as int) == find_from(s@, p@, i as int),
            i <= s@.len() || i == from,
        decreases s@.len() - i,
    {
        if occurs_here(s, p, i) {
            return Some(i);
        }
        if i == s.len() {
            assert(find_from(s@, p@, i + 1) is None);
            return None;
        }
        i = i + 1;
    }
    None
}

/// Whether `p` stands somewhere in `s`.
pub fn contains(s: &str, p: &str) -> (r: bool)
    ensures
        r == has_str(s@, p@),
{
    let sv = chars_of(s);
    let pv = chars_of(p);
    proof {
        find_from_is_least(s@, p@, 0);
    }
    let found = find_chars(&sv, &pv, 0);
    found.is_some()
}

/// The position, in characters, at which `p` first stands in `s`.
pub fn find(s: &str, p: &str) -> (r: Option<usize>)
    ensures
        match r {
            Some(k) => find_from(s@, p@, 0) == Some(k as int) && k <= s@.len(),
            None => find_from(s@, p@, 0) is None,
        },
{
    let sv = chars_of(s);
    let pv = chars_of(p);
    find_chars(&sv, &pv, 0)
}

/// Whether `s` begins with `p`.
pub fn starts_with(s: &str, p: &str) -> (r: bool)
    ensures
        r == begins_with(s@, p@),
{
    let sv = chars_of(s);
    let pv = chars_of(p);
    let r = occurs_here(&sv, &pv, 0);
    assert(p@.len() <= s@.len() ==> s@.subrange(0, p@.len() as int) =~= s@.take(p@.len() as int));
    r
}

/// Whether `s` ends with `p`.
pub fn ends_with(s: &str, p: &str) -> (r: bool)
    ensures
        r == finishes_with(s@, p@),
{
    let sv = chars_of(s);
    let pv = chars_of(p);
    if pv.len() > sv.len() {
        return false;
    }
    let at: usize = sv.len() - pv.len();
    assert(s@.subrange(at as int, at + p@.len()) =~= s@.skip(at as int));
    occurs_here(&sv, &pv, at)
}

/// The part of `s` from character position `from` on.
pub fn suffix_from(s: &str, from: usize) -> (r: String)
    requires
        from <= s@.len(),
    ensures
        r@ == s@.skip(from as int),
{
    let v = chars_of(s);
    assert(v@.subrange(from as int, v@.len() as int) =~= s@.skip(from as int));
    string_of(&v, from, v.len())
}

/// The first `to` characters of `s`.
pub fn prefix_to(s: &str, to: usize) -> (r: String)
    requires
        to <= s@.len(),
    ensures
        r@ == s@.take(to as int),
{
    let v = chars_of(s);
    assert(v@.subrange(0, to as int) =~= s@.take(to as int));
    string_of(&v, 0, to)
}

/// `s` without the prefix `p`, where it has it.
pub open spec fn without_prefix(s: Seq<char>, p: Seq<char>) -> Option<Seq<char>> {
    if begins_with(s, p) {
        Some(s.skip(p.len() as int))
    } else {
        None
    }
}

/// `s` without the prefix `p`; `None` where `s` does not begin with `p`.
pub fn strip_prefix(s: &str, p: &str) -> (r: Option<String>)
    ensures
        match r {
            Some(t) => without_prefix(s@, p@) == Some(t@),
            None => without_prefix(s@, p@) is None,
        },
{
    if starts_with(s, p) {
        let pv = chars_of(p);
        Some(suffix_from(s, pv.len()))
    } else {
        None
    }
}

/// `s` without the suffix `p`, where it has it.
pub open spec fn without_suffix(s: Seq<char>, p: Seq<char>) -> Option<Seq<char>> {
    if finishes_with(s, p) {
        Some(s.take(s.len() - p.len()))
    } else {
        None
    }
}

/// `s` without the suffix `p`; `None` where `s` does not end with `p`.
pub fn strip_suffix(s: &str, p: &str) -> (r: Option<String>)
    ensures
        match r {
            Some(t) => without_suffix(s@, p@) == Some(t@),
            None => without_suffix(s@, p@) is None,
        },
{
    if ends_with(s, p) {
        let pv = chars_of(p);
        let sv = chars_of(s);
        Some(prefix_to(s, sv.len() - pv.len()))
    } else {
        None
    }
}

/// The last position of the character `c` in `s`.
pub open spec fn last_index(s: Seq<char>, c: char) -> Option<int>
    decreases s.len(),
{
    if s.len() == 0 {
        None
    } else if s.last() == c {
        Some(s.len() - 1)
    } else {
        last_index(s.drop_last(), c)
    }
}

/// The last position, in characters, of `c` in `s`.
pub fn rfind_char(s: &Vec<char>, c: char) -> (r: Option<usize>)
    ensures
        match r {
            Some(k) => last_index(s@, c) == Some(k as int) && k < s@.len(),
            None => last_index(s@, c) is None,
        },
{
    let mut i: usize = s.len();
    assert(s@.take(i as int) =~= s@);
    while i > 0
        invariant
            i <= s@.len(),
            last_index(s@, c) == last_index(s@.take(i as int), c),
        decreases i,
    {
        assert(s@.take(i as int).drop_last() =~= s@.take(i - 1));
        if s[i - 1] == c {
            return Some(i - 1);
        }
        i = i - 1;
    }
    None
}

/// The first position of the character `c` in `s` from `i` on, or the length of `s`.
pub open spec fn next_char(s: Seq<char>, c: char, i: int) -> int
    decreases s.len() - i,
{
    if i < 0 || i >= s.len() {
        s.len() as int
    } else if s[i] == c {
        i
    } else {
        next_char(s, c, i + 1)
    }
}

/// `next_char` gives a position within `s` that holds `c`, or the length of `s`, and `c`
/// does not stand before it.
pub proof fn next_char_is_least(s: Seq<char>, c: char, i: int)
    requires
        0 <= i <= s.len(),
    ensures
        i <= next_char(s, c, i) <= s.len(),
        next_char(s, c, i) < s.len() ==> s[next_char(s, c, i)] == c,
        forall|j: int| i <= j < next_char(s, c, i) ==> s[j] != c,
    decreases s.len() - i,
{
    if i < s.len() && s[i] != c {
        next_char_is_least(s, c, i + 1);
    }
}

/// The first position of `c` in `s` from `from` on, or the length of `s`.
pub fn index_char(s: &Vec<char>, c: char, from: usize) -> (r: usize)
    requires
        from <= s@.len(),
    ensures
        r == next_char(s@, c, from as int),
        from <= r <= s@.len(),
        r < s@.len() ==> s@[r as int] == c,
{
    let mut i: usize = from;
    while i < s.len()
        invariant
            from <= i <= s@.len(),
            next_char(s@, c, from as int) == next_char(s@, c, i as int),
        decreases s@.len() - i,
    {
        if s[i] == c {
            return i;
        }
        i = i + 1;
    }
    i
}

// ---------------------------------------------------------------------------
// Splitting and joining
// ---------------------------------------------------------------------------

/// The pieces of `s` between the occurrences of `c`; one piece more than occurrences.
pub open spec fn split_at_char(s: Seq<char>, c: char) -> Seq<Seq<char>>
    decreases s.len(),
{
    let k = next_char(s, c, 0);
    if k < 0 || k >= s.len() {
        seq![s]
    } else {
        seq![s.take(k)] + split_at_char(s.skip(k + 1), c)
    }
}

/// `next_char` from a later start, seen in the rest of the sequence.
proof fn next_char_shift(s: Seq<char>, c: char, k: int, i: int)
    requires
        0 <= k <= i <= s.len(),
    ensures
        next_char(s, c, i) == k + next_char(s.skip(k), c, i - k),
    decreases s.len() - i,
{
    if i < s.len() && s[i] != c {
        next_char_shift(s, c, k, i + 1);
    }
}

/// The pieces of `s` between the occurrences of `c`.
pub fn split_char(s: &str, c: char) -> (r: Vec<String>)
    ensures
        views(r@) == split_at_char(s@, c),
{
    let v = chars_of(s);
    let mut out: Vec<String> = Vec::new();
    let mut from: usize = 0;
    assert(s@.skip(0) =~= s@);
    assert(views(out@) + split_at_char(s@.skip(0), c) =~= split_at_char(s@, c));
    loop
        invariant
            v@ == s@,
            from <= v@.len(),
            views(out@) + split_at_char(s@.skip(from as int), c) == split_at_char(s@, c),
        decreases v@.len() - from,
    {
        let k = index_char(&v, c, from);
        proof {
            next_char_shift(s@, c, from as int, from as int);
        }
        let ghost before = out@;
        let piece = string_of(&v, from, k);
        out.push(piece);
        assert(views(out@) =~= views(before).push(piece@));
        let ghost rest = s@.skip(from as int);
        assert(rest.take(k - from) =~= s@.subrange(from as int, k as int));
        if k == v.len() {
            assert(rest =~= piece@);
            assert(split_at_char(rest, c) =~= seq![rest]);
            assert(views(out@) =~= views(before) + seq![piece@]);
            return out;
        }
        assert(rest.skip(k - from + 1) =~= s@.skip(k + 1));
        assert(views(out@) + split_at_char(s@.skip(k + 1), c) =~= views(before) + (seq![piece@]
            + split_at_char(s@.skip(k + 1), c)));
        from = k + 1;
    }
}

/// The pieces of `parts` with `sep` between each two.
pub open spec fn joined(parts: Seq<Seq<char>>, sep: Seq<char>) -> Seq<char>
    decreases parts.len(),
{
    if parts.len() == 0 {
        Seq::empty()
    } else if parts.len() == 1 {
        parts[0]
    } else {
        joined(parts.drop_last(), sep) + sep + parts.last()
    }
}

/// The strings of `parts` with `sep` between each two.
pub fn join(parts: &Vec<String>, sep: &str) -> (r: String)
    ensures
        r@ == joined(views(parts@), sep@),
{
    let mut s = String::new();
    let mut i: usize = 0;
    assert(views(parts@).take(0) =~= Seq::empty());
    while i < parts.len()
        invariant
            i <= parts@.len(),
            s@ == joined(views(parts@).take(i as int), sep@),
        decreases parts@.len() - i,
    {
        if i > 0 {
            s.append(sep);
        }
        s.append(&parts[i]);
        proof {
            let t = views(parts@).take(i + 1);
            assert(t.drop_last() =~= views(parts@).take(i as int));
            assert(t.last() == parts@[i as int]@);
            if i == 0 {
                assert(s@ =~= t[0]);
            }
        }
        i = i + 1;
    }
    assert(views(parts@).take(i as int) =~= views(parts@));
    s
}

// ---------------------------------------------------------------------------
// Trimming
// ---------------------------------------------------------------------------

/// The characters with Unicode's `White_Space` property.
pub open spec fn is_space(c: char) -> bool {
    let u = c as u32;
    (0x9 <= u && u <= 0xd) || u == 0x20 || u == 0x85 || u == 0xa0 || u == 0x1680 || (0x2000 <= u && u
        <= 0x200a) || u == 0x2028 || u == 0x2029 || u == 0x202f || u == 0x205f || u == 0x3000
}

/// Whether `c` has Unicode's `White_Space` property.
pub fn char_is_space(c: char) -> (r: bool)
    ensures
        r == is_space(c),
{
    let u: u32 = c as u32;
    (0x9 <= u && u <= 0xd) || u == 0x20 || u == 0x85 || u == 0xa0 || u == 0x1680 || (0x2000 <= u && u
        <= 0x200a) || u == 0x2028 || u == 0x2029 || u == 0x202f || u == 0x205f || u == 0x3000
}

/// `s` without leading white space.
pub open spec fn trimmed_start(s: Seq<char>) -> Seq<char>
    decreases s.len(),
{
    if s.len() > 0 && is_space(s[0]) {
        trimmed_start(s.skip(1))
    } else {
        s
    }
}

/// `s` without trailing white space.
pub open spec fn trimmed_end(s: Seq<char>) -> Seq<char>
    decreases s.len(),
{
    if s.len() > 0 && is_space(s.last()) {
        trimmed_end(s.drop_last())
    } else {
        s
    }
}

/// `s` without leading and trailing white space.
pub open spec fn trimmed(s: Seq<char>) -> Seq<char> {
    trimmed_end(trimmed_start(s))
}

/// The position of the first character that is no white space, or the length.
fn leading(v: &Vec<char>) -> (i: usize)
    ensures
        i <= v@.len(),
        trimmed_start(v@) == v@.skip(i as int),
{
    let mut i: usize = 0;
    assert(v@.skip(0) =~= v@);
    while i < v.len() && char_is_space(v[i])
        invariant
            i <= v@.len(),
            trimmed_start(v@) == trimmed_start(v@.skip(i as int)),
        decreases v@.len() - i,
    {
        assert(v@.skip(i as int).skip(1) =~= v@.skip(i + 1));
        i = i + 1;
    }
    i
}

/// One past the last character of `v[from..]` that is no white space, or `from`.
fn trailing(v: &Vec<char>, from: usize) -> (i: usize)
    requires
        from <= v@.len(),
    ensures
        from <= i <= v@.len(),
        trimmed_end(v@.skip(from as int)) == v@.subrange(from as int, i as int),
{
    let mut i: usize = v.len();
    assert(v@.subrange(from as int, i as int) =~= v@.skip(from as int));
    while i > from && char_is_space(v[i - 1])
        invariant
            from <= i <= v@.len(),
            trimmed_end(v@.skip(from as int)) == trimmed_end(v@.subrange(from as int, i as int)),
        decreases i,
    {
        assert(v@.subrange(from as int, i as int).drop_last() =~= v@.subrange(from as int, i - 1));
        i = i - 1;
    }
    i
}

/// `s` without leading and trailing white space.
pub fn trim(s: &str) -> (r: String)
    ensures
        r@ == trimmed(s@),
{
    let v = chars_of(s);
    let from = leading(&v);
    let to = trailing(&v, from);
    string_of(&v, from, to)
}

/// `s` without leading white space.
pub fn trim_start(s: &str) -> (r: String)
    ensures
        r@ == trimmed_start(s@),
{
    let v = chars_of(s);
    let from = leading(&v);
    assert(v@.subrange(from as int, v@.len() as int) =~= v@.skip(from as int));
    string_of(&v, from, v.len())
}

/// `s` without the leading occurrences of `p`, which is not empty.
pub open spec fn trimmed_of(s: Seq<char>, p: Seq<char>) -> Seq<char>
    decreases s.len(),
{
    if p.len() > 0 && begins_with(s, p) {
        trimmed_of(s.skip(p.len() as int), p)
    } else {
        s
    }
}

/// `s` without the leading occurrences of `p`.
pub fn trim_start_matches(s: &str, p: &str) -> (r: String)
    requires
        p@.len() > 0,
    ensures
        r@ == trimmed_of(s@, p@),
{
    let v = chars_of(s);
    let pv = chars_of(p);
    let n: usize = v.len();
    let mut i: usize = 0;
    assert(v@.skip(0) =~= v@);
    while occurs_here(&v, &pv, i)
        invariant
            n == v@.len(),
            v@ == s@,
            pv@ == p@,
            pv@.len() > 0,
            i <= v@.len(),
            trimmed_of(s@, p@) == trimmed_of(s@.skip(i as int), p@),
        decreases v@.len() - i,
    {
        assert(s@.skip(i as int).take(p@.len() as int) =~= s@.subrange(i as int, i + p@.len()));
        assert(s@.skip(i as int).skip(p@.len() as int) =~= s@.skip(i + p@.len()));
        i = i + pv.len();
    }
    proof {
        let t = s@.skip(i as int);
        if p@.len() <= t.len() {
            assert(t.take(p@.len() as int) =~= s@.subrange(i as int, i + p@.len()));
        }
        assert(v@.subrange(i as int, v@.len() as int) =~= t);
    }
    string_of(&v, i, v.len())
}

/// `s` without the trailing occurrences of the character `c`.
pub open spec fn trimmed_char_end(s: Seq<char>, c: char) -> Seq<char>
    decreases s.len(),
{
    if s.len() > 0 && s.last() == c {
        trimmed_char_end(s.drop_last(), c)
    } else {
        s
    }
}

/// `s` without the trailing occurrences of the character `c`.
pub fn trim_end_char(s: &str, c: char) -> (r: String)
    ensures
        r@ == trimmed_char_end(s@, c),
{
    let v = chars_of(s);
    let mut i: usize = v.len();
    assert(v@.take(i as int) =~= v@);
    while i > 0 && v[i - 1] == c
        invariant
            v@ == s@,
            i <= v@.len(),
            trimmed_char_end(s@, c) == trimmed_char_end(s@.take(i as int), c),
        decreases i,
    {
        assert(s@.take(i as int).drop_last() =~= s@.take(i - 1));
        i = i - 1;
    }
    assert(v@.subrange(0, i as int) =~= v@.take(i as int));
    string_of(&v, 0, i)
}

// ---------------------------------------------------------------------------
// Lines and replacement
// ---------------------------------------------------------------------------

/// `s` without one trailing carriage return.
pub open spec fn without_cr(s: Seq<char>) -> Seq<char> {
    if s.len() > 0 && s.last() == '\r' {
        s.drop_last()
    } else {
        s
    }
}

/// The lines of `s`: what stands before each line feed, without a carriage return at its
/// end, and what stands after the last line feed unless that is empty.
pub open spec fn line_seq(s: Seq<char>) -> Seq<Seq<char>> {
    let pieces = split_at_char(s, '\n');
    let all = Seq::new((pieces.len() - 1) as nat, |i: int| without_cr(pieces[i]));
    if pieces.last().len() == 0 {
        all
    } else {
        all.push(pieces.last())
    }
}

/// A text with a separator in it has the pieces before it, then those behind it.
pub proof fn split_parts(a: Seq<char>, b: Seq<char>, c: char)
    ensures
        split_at_char(a + seq![c] + b, c) == split_at_char(a, c) + split_at_char(b, c),
    decreases a.len(),
{
    let s = a + seq![c] + b;
    let n = a.len() as int;
    let k = next_char(a, c, 0);
    next_char_is_least(a, c, 0);
    next_char_is_least(s, c, 0);
    assert(s[n] == c);
    assert forall|i: int| 0 <= i < n implies s[i] == a[i] by {}
    if k < n {
        let m = next_char(s, c, 0);
        assert(a[k] == c && s[k] == c);
        assert(m == k) by {
            if m < k {
                assert(a[m] == s[m]);
            }
        }
        split_parts(a.skip(k + 1), b, c);
        assert(s.skip(k + 1) =~= a.skip(k + 1) + seq![c] + b);
        assert(s.take(k) =~= a.take(k));
        assert(split_at_char(s, c) =~= split_at_char(a, c) + split_at_char(b, c));
    } else {
        let m = next_char(s, c, 0);
        assert(m == n) by {
            if m < n {
                assert(a[m] == s[m]);
            }
        }
        assert(s.take(n) =~= a);
        assert(s.skip(n + 1) =~= b);
        assert(split_at_char(s, c) =~= split_at_char(a, c) + split_at_char(b, c));
    }
}

/// There is at least one piece.
pub proof fn split_is_not_empty(s: Seq<char>, c: char)
    ensures
        split_at_char(s, c).len() > 0,
    decreases s.len(),
{
}

/// `s` without one trailing carriage return.
fn drop_cr(s: &str) -> (r: String)
    ensures
        r@ == without_cr(s@),
{
    let v = chars_of(s);
    let n: usize = v.len();
    if n > 0 && v[n - 1] == '\r' {
        assert(v@.subrange(0, n - 1) =~= s@.drop_last());
        string_of(&v, 0, n - 1)
    } else {
        s.to_owned()
    }
}

/// The lines of `s`.
pub fn lines(s: &str) -> (r: Vec<String>)
    ensures
        views(r@) == line_seq(s@),
{
    let pieces = split_char(s, '\n');
    proof {
        split_is_not_empty(s@, '\n');
    }
    let ghost pv = split_at_char(s@, '\n');
    assert(views(pieces@).len() == pv.len());
    let mut out: Vec<String> = Vec::new();
    let n: usize = pieces.len();
    let mut i: usize = 0;
    while i < n - 1
        invariant
            n == pieces@.len(),
            n > 0,
            i <= n - 1,
            pv == views(pieces@),
            views(out@) =~= Seq::new(i as nat, |k: int| without_cr(pv[k])),
        decreases n - i,
    {
        let ghost before = out@;
        let line = drop_cr(&pieces[i]);
        out.push(line);
        assert(views(out@) =~= views(before).push(line@));
        i = i + 1;
    }
    let ghost before = out@;
    assert(pv.last() == pieces@[n - 1]@);
    if !pieces[n - 1].as_str().is_empty() {
        let last = pieces[n - 1].clone();
        out.push(last);
        assert(views(out@) =~= views(before).push(last@));
    }
    assert(views(out@) =~= line_seq(s@));
    out
}

/// `s` with every occurrence of `p`, from the left and without overlap, replaced by `by`.
pub open spec fn replaced(s: Seq<char>, p: Seq<char>, by: Seq<char>) -> Seq<char>
    decreases s.len(),
{
    if p.len() == 0 || s.len() < p.len() {
        s
    } else if begins_with(s, p) {
        by + replaced(s.skip(p.len() as int), p, by)
    } else {
        seq![s[0]] + replaced(s.skip(1), p, by)
    }
}

/// `s` with every occurrence of `p`, which is not empty, replaced by `by`.
pub fn replace(s: &str, p: &str, by: &str) -> (r: String)
    requires
        p@.len() > 0,
    ensures
        r@ == replaced(s@, p@, by@),
{
    let v = chars_of(s);
    let pv = chars_of(p);
    let mut out = String::new();
    let mut i: usize = 0;
    assert(s@.skip(0) =~= s@);
    assert(out@ + replaced(s@.skip(0), p@, by@) =~= replaced(s@, p@, by@));
    while i < v.len()
        invariant
            v@ == s@,
            pv@ == p@,
            p@.len() > 0,
            i <= v@.len(),
            out@ + replaced(s@.skip(i as int), p@, by@) == replaced(s@, p@, by@),
        decreases v@.len() - i,
    {
        let ghost before = out@;
        let ghost t = s@.skip(i as int);
        if occurs_here(&v, &pv, i) {
            assert(t.take(p@.len() as int) =~= s@.subrange(i as int, i + p@.len()));
            assert(t.skip(p@.len() as int) =~= s@.skip(i + p@.len()));
            out.append(by);
            assert(out@ + replaced(s@.skip(i + p@.len()), p@, by@) =~= before + (by@ + replaced(
                s@.skip(i + p@.len()),
                p@,
                by@,
            )));
            i = i + pv.len();
        } else {
            out.push(v[i]);
            assert(t.skip(1) =~= s@.skip(i + 1));
            proof {
                if p@.len() <= t.len() {
                    assert(t.take(p@.len() as int) =~= s@.subrange(i as int, i + p@.len()));
                } else {
                    assert(replaced(s@.skip(i + 1), p@, by@) =~= s@.skip(i + 1));
                    assert(t =~= seq![t[0]] + t.skip(1));
                }
            }
            assert(out@ + replaced(s@.skip(i + 1), p@, by@) =~= before + (seq![t[0]] + replaced(
                s@.skip(i + 1),
                p@,
                by@,
            )));
            i = i + 1;
        }
    }
    assert(s@.skip(i as int) =~= Seq::empty());
    assert(out@ + Seq::<char>::empty() =~= out@);
    out
}

// ---------------------------------------------------------------------------
// Numbers
// ---------------------------------------------------------------------------

/// The decimal digit of value `d`.
pub open spec fn digit_char(d: int) -> char {
    ('0' as u32 + d) as char
}

/// The decimal digits of `n`, without leading zeros.
pub open spec fn dec(n: nat) -> Seq<char>
    decreases n,
{
    if n < 10 {
        seq![digit_char(n as int)]
    } else {
        dec(n / 10).push(digit_char((n % 10) as int))
    }
}

/// The decimal text of an integer, with `-` before a negative one.
pub open spec fn int_text(i: int) -> Seq<char> {
    if i < 0 {
        seq!['-'] + dec((-i) as nat)
    } else {
        dec(i as nat)
    }
}

fn digit(d: u8) -> (c: char)
    requires
        d < 10,
    ensures
        c == digit_char(d as int),
{
    (48 + d) as char
}

/// The decimal digits of `n`.
pub fn u64_text(n: u64) -> (s: String)
    ensures
        s@ == dec(n as nat),
    decreases n,
{
    if n < 10 {
        let mut s = String::new();
        s.push(digit(n as u8));
        assert(s@ =~= seq![digit_char(n as int)]);
        s
    } else {
        let mut s = u64_text(n / 10);
        s.push(digit((n % 10) as u8));
        s
    }
}

/// The decimal digits of `n`.
pub fn usize_text(n: usize) -> (s: String)
    ensures
        s@ == dec(n as nat),
        s@ == int_text(n as int),
{
    u64_text(n as u64)
}

/// The decimal text of `n`.
pub fn i64_text(n: i64) -> (s: String)
    ensures
        s@ == int_text(n as int),
{
    if n >= 0 {
        u64_text(n as u64)
    } else {
        let m: u64 = (-(n as i128)) as u64;
        let d = u64_text(m);
        proof {
            reveal_strlit("-");
            assert("-"@ =~= seq!['-']);
        }
        concat2("-", &d)
    }
}

// ---------------------------------------------------------------------------
// Order
// ---------------------------------------------------------------------------

/// `a` stands strictly before `b` in lexicographic order of the characters' code points.
pub open spec fn lex_before(a: Seq<char>, b: Seq<char>) -> bool
    decreases a.len(),
{
    if b.len() == 0 {
        false
    } else if a.len() == 0 {
        true
    } else if a[0] == b[0] {
        lex_before(a.skip(1), b.skip(1))
    } else {
        (a[0] as u32) < (b[0] as u32)
    }
}

/// `lex_before` is a strict order, and two texts neither of which stands before the other
/// are equal.
pub proof fn lex_is_order(a: Seq<char>, b: Seq<char>, c: Seq<char>)
    ensures
        !(lex_before(a, b) && lex_before(b, a)),
        !lex_before(a, a),
        lex_before(a, b) && lex_before(b, c) ==> lex_before(a, c),
        !lex_before(b, a) && !lex_before(c, b) ==> !lex_before(c, a),
        !lex_before(a, b) && !lex_before(b, a) ==> a == b,
    decreases a.len() + b.len() + c.len(),
{
    if a.len() > 0 && b.len() > 0 && c.len() > 0 {
        lex_is_order(a.skip(1), b.skip(1), c.skip(1));
    } else if a.len() > 0 && b.len() > 0 {
        lex_is_order(a.skip(1), b.skip(1), c);
    } else if a.len() > 0 {
        lex_is_order(a.skip(1), b, c);
    }
    if !lex_before(a, b) && !lex_before(b, a) {
        if a.len() > 0 && b.len() > 0 {
            vstd::utf8::char_u32_cast(a[0], a[0] as u32);
            vstd::utf8::char_u32_cast(b[0], b[0] as u32);
            assert(a[0] == b[0]);
            assert(a.skip(1) == b.skip(1));
            assert(a =~= seq![a[0]] + a.skip(1));
            assert(b =~= seq![b[0]] + b.skip(1));
        } else {
            assert(a =~= b);
        }
    }
}

/// Whether `a` stands strictly before `b`.
pub fn str_precedes(a: &str, b: &str) -> (r: bool)
    ensures
        r == lex_before(a@, b@),
{
    let x = chars_of(a);
    let y = chars_of(b);
    let mut i: usize = 0;
    assert(a@.skip(0) =~= a@);
    assert(b@.skip(0) =~= b@);
    while i < x.len() && i < y.len()
        invariant
            x@ == a@,
            y@ == b@,
            i <= x@.len(),
            i <= y@.len(),
            lex_before(a@, b@) == lex_before(a@.skip(i as int), b@.skip(i as int)),
        decreases x@.len() - i,
    {
        assert(a@.skip(i as int).skip(1) =~= a@.skip(i + 1));
        assert(b@.skip(i as int).skip(1) =~= b@.skip(i + 1));
        if x[i] != y[i] {
            return (x[i] as u32) < (y[i] as u32);
        }
        i = i + 1;
    }
    i < y.len()
}

// ---------------------------------------------------------------------------
// Words, case and size
// ---------------------------------------------------------------------------

/// The words of `s`: its longest runs of characters that are no white space.
pub open spec fn words(s: Seq<char>) -> Seq<Seq<char>>
    decreases s.len(),
{
    if s.len() == 0 {
        Seq::empty()
    } else if is_space(s.last()) {
        words(s.drop_last())
    } else if s.len() == 1 || is_space(s[s.len() - 2]) {
        words(s.drop_last()).push(seq![s.last()])
    } else {
        let w = words(s.drop_last());
        w.drop_last().push(w.last().push(s.last()))
    }
}

/// The words of `s`.
pub fn split_whitespace(s: &str) -> (r: Vec<String>)
    ensures
        views(r@) == words(s@),
{
    let v = chars_of(s);
    let mut out: Vec<String> = Vec::new();
    let mut cur = String::new();
    let mut i: usize = 0;
    let mut inside = false;
    assert(s@.take(0).len() == 0);
    while i < v.len()
        invariant
            v@ == s@,
            i <= v@.len(),
            inside == (i > 0 && !is_space(s@[i - 1])),
            inside ==> words(s@.take(i as int)) == views(out@).push(cur@),
            !inside ==> words(s@.take(i as int)) == views(out@) && cur@.len() == 0,
        decreases v@.len() - i,
    {
        let ghost t = s@.take(i + 1);
        assert(t.drop_last() =~= s@.take(i as int));
        let c = v[i];
        if char_is_space(c) {
            if inside {
                out.push(cur);
                cur = String::new();
            }
            inside = false;
        } else {
            let ghost before = cur@;
            cur.push(c);
            proof {
                if inside {
                    assert(t[t.len() - 2] == s@[i - 1]);
                    assert(views(out@).push(before).drop_last() =~= views(out@));
                } else {
                    assert(cur@ =~= seq![c]);
                    if i > 0 {
                        assert(t[t.len() - 2] == s@[i - 1]);
                    }
                }
            }
            inside = true;
        }
        i = i + 1;
    }
    assert(s@.take(i as int) =~= s@);
    if inside {
        out.push(cur);
    }
    out
}

/// The text in lower case.
pub uninterp spec fn lowercase(s: Seq<char>) -> Seq<char>;

/// `str::to_lowercase` of std: the text in lower case, which depends on the text alone.
#[verifier::external_body]
pub(crate) fn to_lowercase(s: &str) -> (r: String)
    ensures
        r@ == lowercase(s@),
{
    s.to_lowercase()
}

/// The size of a text in bytes of UTF-8.
pub open spec fn byte_size(s: Seq<char>) -> nat {
    encode_utf8(s).len()
}

/// The size of a text in bytes of UTF-8.
pub fn byte_len(s: &str) -> (n: usize)
    ensures
        n == byte_size(s@),
{
    s.as_bytes().len()
}

/// An ASCII capital as the small letter; every other character as it is.
pub open spec fn small(c: char) -> char {
    if 'A' <= c && c <= 'Z' {
        (c as u32 + 32) as char
    } else {
        c
    }
}

/// The text with ASCII capitals made small.
pub open spec fn ascii_lower(s: Seq<char>) -> Seq<char> {
    Seq::new(s.len(), |i: int| small(s[i]))
}

fn small_char(c: char) -> (r: char)
    ensures
        r == small(c),
{
    if 'A' <= c && c <= 'Z' {
        ((c as u8) + 32) as char
    } else {
        c
    }
}

/// The text with ASCII capitals made small.
pub fn to_ascii_lowercase(s: &str) -> (r: String)
    ensures
        r@ == ascii_lower(s@),
{
    let v = chars_of(s);
    let mut out = String::new();
    let mut i: usize = 0;
    while i < v.len()
        invariant
            v@ == s@,
            i <= v@.len(),
            out@ =~= ascii_lower(s@).take(i as int),
        decreases v@.len() - i,
    {
        out.push(small_char(v[i]));
        i = i + 1;
    }
    assert(out@ =~= ascii_lower(s@));
    out
}

/// The text of a truth value.
pub open spec fn bool_text(b: bool) -> Seq<char> {
    if b {
        "true"@
    } else {
        "false"@
    }
}

/// The text of a truth value.
pub fn text_of_bool(b: bool) -> (r: String)
    ensures
        r@ == bool_text(b),
{
    if b {
        "true".to_owned()
    } else {
        "false".to_owned()
    }
}

/// The decimal digits of the number after `n`.
pub fn successor_text(n: usize) -> (s: String)
    ensures
        s@ == dec(1 + n as nat),
{
    if n < usize::MAX {
        usize_text(n + 1)
    } else {
        let mut s = u64_text(n as u64 / 10);
        proof {
            assert(usize::MAX % 10 == 5);
            assert((1 + n as nat) / 10 == n as nat / 10 && (1 + n as nat) % 10 == 6);
        }
        s.push('6');
        s
    }
}

// ---------------------------------------------------------------------------
// Reading numbers
// ---------------------------------------------------------------------------

/// The character is a decimal digit.
pub open spec fn is_digit(c: char) -> bool {
    '0' <= c && c <= '9'
}

/// All characters are decimal digits.
pub open spec fn all_digits(s: Seq<char>) -> bool {
    forall|i: int| 0 <= i < s.len() ==> is_digit(#[trigger] s[i])
}

/// The number that decimal digits write.
pub open spec fn digits_value(s: Seq<char>) -> int
    decreases s.len(),
{
    if s.len() == 0 {
        0
    } else {
        digits_value(s.drop_last()) * 10 + (s.last() as u32 - '0' as u32)
    }
}

/// The number that digits write, where they write one.
pub open spec fn digits_number(s: Seq<char>) -> Option<int> {
    if s.len() > 0 && all_digits(s) {
        Some(digits_value(s))
    } else {
        None
    }
}

/// The integer that a text writes: digits, with a sign before them or not. None where the
/// text writes no integer, or one that is out of the range of `i64`.
pub open spec fn int_value(s: Seq<char>) -> Option<int> {
    let n = if s.len() > 0 && s[0] == '-' {
        match digits_number(s.skip(1)) {
            Some(n) => Some(-n),
            None => None,
        }
    } else if s.len() > 0 && s[0] == '+' {
        digits_number(s.skip(1))
    } else {
        digits_number(s)
    };
    match n {
        Some(v) => if i64::MIN <= v <= i64::MAX {
            Some(v)
        } else {
            None
        },
        None => None,
    }
}

/// More digits write no lesser number.
proof fn more_digits_are_more(s: Seq<char>, n: int)
    requires
        0 <= n <= s.len(),
        all_digits(s),
    ensures
        0 <= digits_value(s.take(n)) <= digits_value(s),
    decreases s.len(),
{
    if n == s.len() {
        assert(s.take(n) =~= s);
        if s.len() > 0 {
            assert(is_digit(s.last()));
            more_digits_are_more(s.drop_last(), s.len() - 1);
            assert(s.drop_last().take(s.len() - 1) =~= s.drop_last());
        }
    } else {
        assert(is_digit(s.last()));
        more_digits_are_more(s.drop_last(), n);
        assert(s.drop_last().take(n) =~= s.take(n));
    }
}

/// The number that the digits from `from` on write, where they write one of at most
/// `limit`.
pub fn digits_from(v: &Vec<char>, from: usize, limit: u64) -> (r: Option<u64>)
    requires
        from <= v@.len(),
    ensures
        match r {
            Some(n) => digits_number(v@.skip(from as int)) == Some(n as int) && n <= limit,
            None => digits_number(v@.skip(from as int)) matches Some(n) ==> n > limit,
        },
{
    let ghost s = v@.skip(from as int);
    if from == v.len() {
        return None;
    }
    let mut n: u64 = 0;
    let mut i: usize = from;
    assert(s.take(0).len() == 0);
    while i < v.len()
        invariant
            s == v@.skip(from as int),
            from <= i <= v@.len(),
            n <= limit,
            forall|k: int| 0 <= k < i - from ==> is_digit(#[trigger] s[k]),
            n == digits_value(s.take(i - from)),
        decreases v@.len() - i,
    {
        let c = v[i];
        assert(c == s[i - from]);
        if !('0' <= c && c <= '9') {
            assert(!is_digit(s[i - from]));
            return None;
        }
        let d: u64 = (c as u8 - 48) as u64;
        assert(s.take(i - from + 1).drop_last() =~= s.take(i - from));
        let next: u128 = n as u128 * 10 + d as u128;
        assert(next == digits_value(s.take(i - from + 1)));
        if next > limit as u128 {
            proof {
                if all_digits(s) {
                    more_digits_are_more(s, i - from + 1);
                }
            }
            return None;
        }
        n = next as u64;
        i = i + 1;
    }
    assert(s.take(i - from) =~= s);
    Some(n)
}

/// The integer that a text writes.
pub fn parse_i64(s: &str) -> (r: Option<i64>)
    ensures
        match r {
            Some(n) => int_value(s@) == Some(n as int),
            None => int_value(s@) is None,
        },
{
    let v = chars_of(s);
    if v.len() > 0 && v[0] == '-' {
        match digits_from(&v, 1, 0x8000_0000_0000_0000) {
            Some(n) => Some((-(n as i128)) as i64),
            None => None,
        }
    } else if v.len() > 0 && v[0] == '+' {
        match digits_from(&v, 1, 0x7fff_ffff_ffff_ffff) {
            Some(n) => Some(n as i64),
            None => None,
        }
    } else {
        assert(v@.skip(0) =~= s@);
        match digits_from(&v, 0, 0x7fff_ffff_ffff_ffff) {
            Some(n) => Some(n as i64),
            None => None,
        }
    }
}

/// The character has Unicode's `Alphabetic` property or is a number.
pub uninterp spec fn alphanumeric(c: char) -> bool;

/// `char::is_alphanumeric` of std, which depends on the character alone.
#[verifier::external_body]
pub(crate) fn char_is_alphanumeric(c: char) -> (r: bool)
    ensures
        r == alphanumeric(c),
{
    c.is_alphanumeric()
}

// ---------------------------------------------------------------------------
// Bytes
// ---------------------------------------------------------------------------

/// The text that the bytes from `a` to `b` of a text's UTF-8 are; none where they are none.
pub open spec fn text_at(s: Seq<char>, a: int, b: int) -> Option<Seq<char>> {
    let bytes = encode_utf8(s);
    if 0 <= a <= b <= bytes.len() && is_char_boundary(bytes, a) && is_char_boundary(bytes, b) {
        Some(decode_utf8(bytes.subrange(a, b)))
    } else {
        None
    }
}

/// A boundary of a text is one of the part before a later boundary.
proof fn boundary_of_prefix(bytes: Seq<u8>, a: int, b: int)
    requires
        valid_utf8(bytes),
        0 <= a <= b <= bytes.len(),
        is_char_boundary(bytes, a),
        is_char_boundary(bytes, b),
    ensures
        valid_utf8(bytes.subrange(0, b)),
        is_char_boundary(bytes.subrange(0, b), a),
{
    valid_utf8_split(bytes, b);
    let left = bytes.subrange(0, b);
    if a == b {
        is_char_boundary_start_end_of_seq(left);
    } else {
        is_char_boundary_iff_not_is_continuation_byte(bytes, a);
        is_char_boundary_iff_not_is_continuation_byte(left, a);
    }
}

/// The text that the bytes from `a` to `b` are.
pub fn slice_text(s: &str, a: usize, b: usize) -> (r: Option<String>)
    ensures
        r.deep_view() == text_at(s@, a as int, b as int),
{
    let n: usize = byte_len(s);
    if a > b || b > n {
        return None;
    }
    proof {
        encode_utf8_valid_utf8(s@);
    }
    if !s.is_char_boundary(a) || !s.is_char_boundary(b) {
        return None;
    }
    let ghost bytes = encode_utf8(s@);
    proof {
        boundary_of_prefix(bytes, a as int, b as int);
    }
    let (left, _) = s.split_at(b);
    proof {
        assert(encode_utf8(left@) == bytes.subrange(0, b as int));
    }
    let (_, mid) = left.split_at(a);
    proof {
        assert(encode_utf8(mid@) =~= bytes.subrange(a as int, b as int));
        encode_utf8_decode_utf8(mid@);
    }
    Some(mid.to_owned())
}

/// The value of a hexadecimal digit.
pub open spec fn hex_char(d: int) -> char {
    if d < 10 {
        ('0' as u32 + d) as char
    } else {
        ('a' as u32 + (d - 10)) as char
    }
}

/// The last `width` hexadecimal digits of `n`.
pub open spec fn hex(n: nat, width: nat) -> Seq<char>
    decreases width,
{
    if width == 0 {
        Seq::empty()
    } else {
        hex(n / 16, (width - 1) as nat).push(hex_char((n % 16) as int))
    }
}

fn hex_digit(d: u8) -> (c: char)
    requires
        d < 16,
    ensures
        c == hex_char(d as int),
{
    if d < 10 {
        (48 + d) as char
    } else {
        (87 + d) as char
    }
}

/// The last `width` hexadecimal digits of `n`.
pub fn hex_text(n: u64, width: u32) -> (s: String)
    ensures
        s@ == hex(n as nat, width as nat),
    decreases width,
{
    if width == 0 {
        String::new()
    } else {
        let mut s = hex_text(n / 16, width - 1);
        s.push(hex_digit((n % 16) as u8));
        s
    }
}

/// The FNV-1a hash of bytes.
pub open spec fn fnv1a(bytes: Seq<u8>) -> u64
    decreases bytes.len(),
{
    if bytes.len() == 0 {
        14695981039346656037u64
    } else {
        (fnv1a(bytes.drop_last()) ^ (bytes.last() as u64)).wrapping_mul(1099511628211u64)
    }
}

/// The FNV-1a hash of the bytes from `a` to `b` of a text's UTF-8.
pub fn fnv1a_range(s: &str, a: usize, b: usize) -> (r: u64)
    requires
        a <= b <= encode_utf8(s@).len(),
    ensures
        r == fnv1a(encode_utf8(s@).subrange(a as int, b as int)),
{
    let v = s.as_bytes();
    let ghost part = v@.subrange(a as int, b as int);
    let mut hash: u64 = 14695981039346656037u64;
    let mut i: usize = a;
    assert(part.take(0).len() == 0);
    while i < b
        invariant
            a <= i <= b <= v@.len(),
            part == v@.subrange(a as int, b as int),
            hash == fnv1a(part.take(i - a)),
        decreases b - i,
    {
        assert(part.take(i - a + 1).drop_last() =~= part.take(i - a));
        assert(part.take(i - a + 1).last() == v@[i as int]);
        hash = (hash ^ (v[i] as u64)).wrapping_mul(1099511628211u64);
        i = i + 1;
    }
    assert(part.take(i - a) =~= part);
    hash
}

/// The FNV-1a hash of bytes.
pub fn fnv1a_bytes(v: &Vec<u8>) -> (r: u64)
    ensures
        r == fnv1a(v@),
{
    let mut hash: u64 = 14695981039346656037u64;
    let mut i: usize = 0;
    assert(v@.take(0).len() == 0);
    while i < v.len()
        invariant
            i <= v@.len(),
            hash == fnv1a(v@.take(i as int)),
        decreases v@.len() - i,
    {
        assert(v@.take(i + 1).drop_last() =~= v@.take(i as int));
        hash = (hash ^ (v[i] as u64)).wrapping_mul(1099511628211u64);
        i = i + 1;
    }
    assert(v@.take(i as int) =~= v@);
    hash
}

// ---------------------------------------------------------------------------
// Splitting by a text
// ---------------------------------------------------------------------------

/// The pieces of `s` between the occurrences of `p`, taken from the left and without
/// overlap.
pub open spec fn split_at_str(s: Seq<char>, p: Seq<char>) -> Seq<Seq<char>>
    decreases s.len(),
{
    match find_from(s, p, 0) {
        Some(k) => if p.len() == 0 || !(0 <= k && k + p.len() <= s.len()) {
            seq![s]
        } else {
            seq![s.take(k)] + split_at_str(s.skip(k + p.len()), p)
        },
        None => seq![s],
    }
}

/// `find_from` from a later start, seen in the rest of the sequence.
proof fn find_from_shift(s: Seq<char>, p: Seq<char>, k: int, i: int)
    requires
        0 <= k <= i <= s.len(),
    ensures
        find_from(s, p, i) == match find_from(s.skip(k), p, i - k) {
            Some(x) => Some(k + x),
            None => None,
        },
    decreases s.len() + 1 - i,
{
    let t = s.skip(k);
    if i + p.len() <= s.len() {
        assert(s.subrange(i, i + p.len()) =~= t.subrange(i - k, i - k + p.len()));
        if !occurs_at(s, p, i) && i < s.len() {
            find_from_shift(s, p, k, i + 1);
        }
    }
}

/// The pieces of `s` between the occurrences of `p`, which is not empty.
pub fn split_str(s: &str, p: &str) -> (r: Vec<String>)
    requires
        p@.len() > 0,
    ensures
        views(r@) == split_at_str(s@, p@),
        r@.len() > 0,
{
    let v = chars_of(s);
    let pv = chars_of(p);
    let n: usize = v.len();
    let mut out: Vec<String> = Vec::new();
    let mut from: usize = 0;
    assert(s@.skip(0) =~= s@);
    assert(views(out@) + split_at_str(s@.skip(0), p@) =~= split_at_str(s@, p@));
    loop
        invariant
            v@ == s@,
            pv@ == p@,
            p@.len() > 0,
            n == v@.len(),
            from <= n,
            views(out@) + split_at_str(s@.skip(from as int), p@) == split_at_str(s@, p@),
        decreases n - from,
    {
        let found = find_chars(&v, &pv, from);
        let ghost rest = s@.skip(from as int);
        let ghost before = out@;
        proof {
            find_from_shift(s@, p@, from as int, from as int);
            find_from_is_least(s@, p@, from as int);
        }
        match found {
            Some(k) => {
                let piece = string_of(&v, from, k);
                out.push(piece);
                assert(rest.take(k - from) =~= s@.subrange(from as int, k as int));
                assert(rest.skip(k - from + p@.len()) =~= s@.skip(k + p@.len()));
                assert(views(out@) + split_at_str(s@.skip(k + p@.len()), p@) =~= views(before) + (
                seq![piece@] + split_at_str(s@.skip(k + p@.len()), p@)));
                from = k + pv.len();
            },
            None => {
                let piece = string_of(&v, from, n);
                out.push(piece);
                assert(rest =~= piece@);
                assert(split_at_str(rest, p@) =~= seq![rest]);
                assert(views(out@) =~= views(before) + seq![piece@]);
                return out;
            },
        }
    }
}

/// The bytes of two texts one behind the other are the bytes of both.
pub proof fn encoding_joins(a: Seq<char>, b: Seq<char>)
    ensures
        encode_utf8(a + b) == encode_utf8(a) + encode_utf8(b),
    decreases a.len(),
{
    if a.len() == 0 {
        assert(a + b =~= b);
        assert(encode_utf8(a) + encode_utf8(b) =~= encode_utf8(b));
    } else {
        encoding_joins(a.drop_first(), b);
        assert((a + b).drop_first() =~= a.drop_first() + b);
        assert(encode_utf8(a + b) =~= encode_utf8(a) + encode_utf8(b));
    }
}

/// The bytes of a part of a text are the part's bytes.
pub proof fn part_has_its_bytes(s: Seq<char>, a: int, b: int)
    requires
        text_at(s, a, b) is Some,
    ensures
        encode_utf8(text_at(s, a, b)->0) == encode_utf8(s).subrange(a, b),
{
    let bytes = encode_utf8(s);
    encode_utf8_valid_utf8(s);
    boundary_of_prefix(bytes, a, b);
    let left = bytes.subrange(0, b);
    valid_utf8_split(left, a);
    assert(left.subrange(a, left.len() as int) =~= bytes.subrange(a, b));
    vstd::utf8::decode_utf8_encode_utf8(bytes.subrange(a, b));
}

// ---------------------------------------------------------------------------
// Laws
// ---------------------------------------------------------------------------

proof fn joined_from_front(first: Seq<char>, rest: Seq<Seq<char>>, sep: Seq<char>)
    requires
        rest.len() > 0,
    ensures
        joined(seq![first] + rest, sep) == first + sep + joined(rest, sep),
    decreases rest.len(),
{
    let all = seq![first] + rest;
    assert(all.drop_last() =~= seq![first] + rest.drop_last());
    assert(all.last() == rest.last());
    if rest.len() == 1 {
        assert(all.drop_last() =~= seq![first]);
        assert(joined(seq![first], sep) == first);
        assert(joined(rest, sep) == rest[0]);
    } else {
        joined_from_front(first, rest.drop_last(), sep);
        assert(joined(all, sep) =~= first + sep + joined(rest, sep));
    }
}

/// What is split at a character joins up again with it to what it was, and no piece holds it.
pub proof fn pieces_join_up(s: Seq<char>, c: char)
    ensures
        joined(split_at_char(s, c), seq![c]) == s,
        forall|i: int|
            0 <= i < split_at_char(s, c).len() ==> !(#[trigger] split_at_char(s, c)[i]).contains(c),
    decreases s.len(),
{
    next_char_is_least(s, c, 0);
    let k = next_char(s, c, 0);
    let all = split_at_char(s, c);
    if k < s.len() {
        let rest = split_at_char(s.skip(k + 1), c);
        pieces_join_up(s.skip(k + 1), c);
        split_is_not_empty(s.skip(k + 1), c);
        joined_from_front(s.take(k), rest, seq![c]);
        assert(s.take(k) + seq![c] + s.skip(k + 1) =~= s);
        assert forall|i: int| 0 <= i < all.len() implies !(#[trigger] all[i]).contains(c) by {
            if i > 0 {
                assert(all[i] == rest[i - 1]);
            } else {
                assert forall|j: int| 0 <= j < k implies s.take(k)[j] != c by {
                    assert(s[j] != c);
                }
            }
        }
    } else {
        assert(all =~= seq![s]);
    }
}

/// Pieces that are joined with a character that none of them holds come out again when the
/// whole is split at it.
pub proof fn joined_pieces_split_up(parts: Seq<Seq<char>>, c: char)
    requires
        parts.len() > 0,
        forall|i: int| 0 <= i < parts.len() ==> !(#[trigger] parts[i]).contains(c),
    ensures
        split_at_char(joined(parts, seq![c]), c) == parts,
    decreases parts.len(),
{
    let last = parts.last();
    assert(!parts[parts.len() - 1].contains(c));
    next_char_is_least(last, c, 0);
    assert(split_at_char(last, c) =~= seq![last]) by {
        let k = next_char(last, c, 0);
        if k < last.len() {
            assert(last[k] == c);
        }
    }
    if parts.len() > 1 {
        let before = parts.drop_last();
        assert forall|i: int| 0 <= i < before.len() implies !(#[trigger] before[i]).contains(c) by {
            assert(before[i] == parts[i]);
        }
        joined_pieces_split_up(before, c);
        split_parts(joined(before, seq![c]), last, c);
        assert(before + seq![last] =~= parts);
    } else {
        assert(parts =~= seq![last]);
    }
}

/// What is split at a text joins up again with it to what it was.
pub proof fn pieces_between_texts_join_up(s: Seq<char>, p: Seq<char>)
    requires
        p.len() > 0,
    ensures
        split_at_str(s, p).len() > 0,
        joined(split_at_str(s, p), p) == s,
        !has_str(s, p) ==> split_at_str(s, p) == seq![s],
    decreases s.len(),
{
    find_from_is_least(s, p, 0);
    match find_from(s, p, 0) {
        Some(k) => {
            let rest = s.skip(k + p.len());
            pieces_between_texts_join_up(rest, p);
            joined_from_front(s.take(k), split_at_str(rest, p), p);
            assert(s.subrange(k, k + p.len()) == p);
            assert(s.take(k) + p + rest =~= s);
        },
        None => {
            assert(joined(seq![s], p) == s);
        },
    }
}

proof fn nothing_is_replaced_before(s: Seq<char>, p: Seq<char>, by: Seq<char>, k: int)
    requires
        p.len() > 0,
        0 <= k <= s.len(),
        forall|j: int| 0 <= j < k ==> !#[trigger] occurs_at(s, p, j),
    ensures
        replaced(s, p, by) == s.take(k) + replaced(s.skip(k), p, by),
    decreases k,
{
    if k == 0 {
        assert(s.skip(0) =~= s);
        assert(s.take(0) + replaced(s, p, by) =~= replaced(s, p, by));
    } else {
        let t = s.skip(1);
        assert forall|j: int| 0 <= j < k - 1 implies !#[trigger] occurs_at(t, p, j) by {
            assert(!occurs_at(s, p, j + 1));
            if j + p.len() <= t.len() {
                assert(t.subrange(j, j + p.len()) =~= s.subrange(j + 1, j + 1 + p.len()));
            }
        }
        nothing_is_replaced_before(t, p, by, k - 1);
        assert(t.skip(k - 1) =~= s.skip(k));
        assert(!occurs_at(s, p, 0));
        if s.len() >= p.len() {
            assert(s.subrange(0, p.len() as int) =~= s.take(p.len() as int));
            assert(seq![s[0]] + (t.take(k - 1) + replaced(s.skip(k), p, by)) =~= s.take(k)
                + replaced(s.skip(k), p, by));
        } else {
            assert(s.take(k) + s.skip(k) =~= s);
        }
    }
}

/// To replace a text is to split at it and to join up with what takes its place. Where the
/// text does not occur nothing changes.
pub proof fn replacing_splits_and_joins(s: Seq<char>, p: Seq<char>, by: Seq<char>)
    requires
        p.len() > 0,
    ensures
        replaced(s, p, by) == joined(split_at_str(s, p), by),
        !has_str(s, p) ==> replaced(s, p, by) == s,
    decreases s.len(),
{
    find_from_is_least(s, p, 0);
    match find_from(s, p, 0) {
        Some(k) => {
            let rest = s.skip(k + p.len());
            nothing_is_replaced_before(s, p, by, k);
            let t = s.skip(k);
            assert(s.subrange(k, k + p.len()) =~= t.take(p.len() as int));
            assert(t.skip(p.len() as int) =~= rest);
            replacing_splits_and_joins(rest, p, by);
            pieces_between_texts_join_up(rest, p);
            joined_from_front(s.take(k), split_at_str(rest, p), by);
            assert(s.take(k) + (by + replaced(rest, p, by)) =~= s.take(k) + by + replaced(
                rest,
                p,
                by,
            ));
        },
        None => {
            nothing_is_replaced_before(s, p, by, s.len() as int);
            assert(s.skip(s.len() as int).len() == 0);
            assert(replaced(s.skip(s.len() as int), p, by) =~= Seq::empty());
            assert(s.take(s.len() as int) + Seq::<char>::empty() =~= s);
            assert(joined(seq![s], by) == s);
        },
    }
}

/// The last place of a character is one where it stands, and it stands nowhere behind it.
pub proof fn last_place_is_last(s: Seq<char>, c: char)
    ensures
        last_index(s, c) is None <==> !s.contains(c),
        last_index(s, c) matches Some(k) ==> 0 <= k < s.len() && s[k] == c && forall|j: int|
            k < j < s.len() ==> s[j] != c,
    decreases s.len(),
{
    if s.len() > 0 {
        if s.last() == c {
            assert(s[s.len() - 1] == c);
        } else {
            let t = s.drop_last();
            last_place_is_last(t, c);
            if s.contains(c) {
                let j = choose|j: int| 0 <= j < s.len() && s[j] == c;
                assert(t[j] == c);
            }
            if t.contains(c) {
                let j = choose|j: int| 0 <= j < t.len() && t[j] == c;
                assert(s[j] == c);
            }
            if let Some(k) = last_index(t, c) {
                assert(t[k] == s[k]);
                assert forall|j: int| k < j < s.len() implies s[j] != c by {
                    if j < s.len() - 1 {
                        assert(t[j] == s[j]);
                    }
                }
            }
        }
    }
}

/// Spaces, tabs and line ends are blank; what can be seen of ASCII is not, and what cannot,
/// besides tabs, spaces and line ends, is not either.
pub proof fn blanks_are_not_seen(c: char)
    ensures
        c == ' ' || c == '\t' || c == '\n' || c == '\r' ==> is_space(c),
        '!' <= c <= '~' ==> !is_space(c),
        (c as u32) < 9 || 13 < (c as u32) < 32 ==> !is_space(c),
{
}

/// A text loses its blanks at the front, all of them and nothing else.
pub proof fn front_is_trimmed(s: Seq<char>)
    ensures
        trimmed_start(s).len() <= s.len(),
        s.skip(s.len() - trimmed_start(s).len()) == trimmed_start(s),
        forall|i: int| 0 <= i < s.len() - trimmed_start(s).len() ==> is_space(#[trigger] s[i]),
        trimmed_start(s).len() > 0 ==> !is_space(trimmed_start(s)[0]),
    decreases s.len(),
{
    if s.len() > 0 && is_space(s[0]) {
        let t = s.skip(1);
        front_is_trimmed(t);
        assert(s.skip(s.len() - trimmed_start(s).len()) =~= t.skip(
            t.len() - trimmed_start(t).len(),
        ));
        assert forall|i: int| 0 <= i < s.len() - trimmed_start(s).len() implies is_space(
            #[trigger] s[i],
        ) by {
            if i > 0 {
                assert(t[i - 1] == s[i]);
            }
        }
    } else {
        assert(s.skip(0) =~= s);
    }
}

/// A text loses its blanks at the end, all of them and nothing else.
pub proof fn end_is_trimmed(s: Seq<char>)
    ensures
        trimmed_end(s).len() <= s.len(),
        s.take(trimmed_end(s).len() as int) == trimmed_end(s),
        forall|i: int| trimmed_end(s).len() <= i < s.len() ==> is_space(#[trigger] s[i]),
        trimmed_end(s).len() > 0 ==> !is_space(trimmed_end(s).last()),
    decreases s.len(),
{
    if s.len() > 0 && is_space(s.last()) {
        let t = s.drop_last();
        end_is_trimmed(t);
        assert(s.take(trimmed_end(s).len() as int) =~= t.take(trimmed_end(t).len() as int));
        assert forall|i: int| trimmed_end(s).len() <= i < s.len() implies is_space(
            #[trigger] s[i],
        ) by {
            if i < t.len() {
                assert(t[i] == s[i]);
            }
        }
    } else {
        assert(s.take(s.len() as int) =~= s);
    }
}

/// A trimmed text is a part of the text that starts and ends with something to see; all that
/// stands before it and behind it is blank.
pub proof fn trimmed_is_what_can_be_seen(s: Seq<char>)
    ensures
        exists|a: int, b: int|
            0 <= a <= b <= s.len() && trimmed(s) == #[trigger] s.subrange(a, b) && (forall|i: int|
                0 <= i < a || b <= i < s.len() ==> is_space(#[trigger] s[i])),
        trimmed(s).len() > 0 ==> !is_space(trimmed(s)[0]) && !is_space(trimmed(s).last()),
{
    front_is_trimmed(s);
    let t = trimmed_start(s);
    end_is_trimmed(t);
    let a = s.len() - t.len();
    let b = a + trimmed(s).len();
    assert(s.subrange(a, b) =~= trimmed(s)) by {
        assert(s.skip(a).take(trimmed(s).len() as int) =~= s.subrange(a, b));
    }
    assert forall|i: int| 0 <= i < a || b <= i < s.len() implies is_space(#[trigger] s[i]) by {
        if b <= i {
            assert(s.skip(a)[i - a] == s[i]);
            assert(t[i - a] == s[i]);
        }
    }
    if trimmed(s).len() > 0 {
        assert(trimmed(s)[0] == t[0]);
    }
}

/// A text loses a start as often as it has it.
pub proof fn starts_are_taken_off(s: Seq<char>, p: Seq<char>)
    requires
        p.len() > 0,
    ensures
        trimmed_of(p + s, p) == trimmed_of(s, p),
        !begins_with(s, p) ==> trimmed_of(s, p) == s,
        !begins_with(trimmed_of(s, p), p),
    decreases s.len(),
{
    assert((p + s).take(p.len() as int) =~= p);
    assert((p + s).skip(p.len() as int) =~= s);
    if begins_with(s, p) {
        starts_are_taken_off(s.skip(p.len() as int), p);
    }
}

/// A text loses a character at its end as often as it has it.
pub proof fn ends_are_taken_off(s: Seq<char>, c: char)
    ensures
        trimmed_char_end(s.push(c), c) == trimmed_char_end(s, c),
        s.len() == 0 || s.last() != c ==> trimmed_char_end(s, c) == s,
{
    assert(s.push(c).drop_last() =~= s);
}

/// A line ends at a line feed, and a carriage return before it belongs to the end. What stands
/// behind the last line feed is a line where there is anything.
pub proof fn lines_end_at_line_feeds(line: Seq<char>, rest: Seq<char>)
    requires
        !line.contains('\n'),
    ensures
        line.len() == 0 ==> line_seq(line).len() == 0,
        line.len() > 0 ==> line_seq(line) == seq![line],
        line.len() == 0 || line.last() != '\r' ==> line_seq(line + seq!['\n'] + rest) == seq![line]
            + line_seq(rest),
        line_seq(line + seq!['\r', '\n'] + rest) == seq![line] + line_seq(rest),
{
    let whole = line.push('\r');
    assert(!whole.contains('\n')) by {
        if whole.contains('\n') {
            let j = choose|j: int| 0 <= j < whole.len() && whole[j] == '\n';
            assert(line[j] == '\n');
        }
    }
    assert(line + seq!['\r', '\n'] + rest =~= whole + seq!['\n'] + rest);
    one_line_is_split_off(line, rest);
    one_line_is_split_off(whole, rest);
    assert(whole.drop_last() =~= line);
    assert(without_cr(whole) == line);
}

proof fn one_line_is_split_off(line: Seq<char>, rest: Seq<char>)
    requires
        !line.contains('\n'),
    ensures
        split_at_char(line, '\n') == seq![line],
        line.len() == 0 ==> line_seq(line).len() == 0,
        line.len() > 0 ==> line_seq(line) == seq![line],
        line_seq(line + seq!['\n'] + rest) == seq![without_cr(line)] + line_seq(rest),
{
    next_char_is_least(line, '\n', 0);
    let k = next_char(line, '\n', 0);
    assert(k == line.len()) by {
        if k < line.len() {
            assert(line[k] == '\n');
        }
    }
    assert(split_at_char(line, '\n') =~= seq![line]);
    split_parts(line, rest, '\n');
    split_is_not_empty(rest, '\n');
    let pieces = split_at_char(rest, '\n');
    let all = seq![line] + pieces;
    assert(all.last() == pieces.last());
    assert(line_seq(line) =~= if line.len() == 0 {
        Seq::empty()
    } else {
        seq![line]
    });
    assert(line_seq(line + seq!['\n'] + rest) =~= seq![without_cr(line)] + line_seq(rest));
}

/// A number in decimal is made of digits, reads as that number again, and does not start with
/// a zero unless it is zero.
pub proof fn decimals_read_as_their_number(n: nat)
    ensures
        digits_number(dec(n)) == Some(n as int),
        n > 0 ==> dec(n)[0] != '0',
        dec(n).len() > 0,
    decreases n,
{
    if n >= 10 {
        decimals_read_as_their_number(n / 10);
        let d = digit_char((n % 10) as int);
        assert(dec(n).drop_last() =~= dec(n / 10));
        assert(dec(n).last() == d);
        assert(dec(n)[0] == dec(n / 10)[0]);
        assert forall|i: int| 0 <= i < dec(n).len() implies is_digit(#[trigger] dec(n)[i]) by {
            if i < dec(n).len() - 1 {
                assert(dec(n)[i] == dec(n / 10)[i]);
            }
        }
    } else {
        assert(dec(n).drop_last() =~= Seq::empty());
        assert(digits_value(dec(n).drop_last()) == 0);
    }
}

/// An integer that is shown reads as that integer again.
pub proof fn integers_read_as_their_number(i: int)
    requires
        i64::MIN <= i <= i64::MAX,
    ensures
        int_value(int_text(i)) == Some(i),
{
    let n = (if i < 0 {
        -i
    } else {
        i
    }) as nat;
    decimals_read_as_their_number(n);
    assert((seq!['-'] + dec(n)).skip(1) =~= dec(n));
    assert(is_digit(dec(n)[0]));
}

/// Texts are ordered by the first character in which they differ, and a text stands before any
/// that goes on from it.
pub proof fn first_difference_decides(a: Seq<char>, b: Seq<char>, k: int)
    requires
        0 <= k <= a.len(),
        k < b.len(),
        forall|i: int| 0 <= i < k ==> a[i] == b[i],
    ensures
        k == a.len() ==> lex_before(a, b),
        k < a.len() && a[k] != b[k] ==> (lex_before(a, b) <==> (a[k] as u32) < (b[k] as u32)),
    decreases k,
{
    if k > 0 {
        assert(a[0] == b[0]);
        first_difference_decides(a.skip(1), b.skip(1), k - 1);
    }
}

proof fn words_end(s: Seq<char>)
    requires
        s.len() > 0,
        !is_space(s.last()),
    ensures
        words(s).len() > 0,
    decreases s.len(),
{
}

/// A blank parts words.
pub proof fn blanks_part_words(a: Seq<char>, blank: char, b: Seq<char>)
    requires
        is_space(blank),
    ensures
        words(a + seq![blank] + b) == words(a) + words(b),
    decreases b.len(),
{
    let s = a + seq![blank] + b;
    if b.len() == 0 {
        assert(s.drop_last() =~= a);
        assert(words(a) + words(b) =~= words(a));
    } else {
        let c = b.drop_last();
        let t = a + seq![blank] + c;
        blanks_part_words(a, blank, c);
        assert(s.drop_last() =~= t);
        assert(s.last() == b.last());
        if !is_space(b.last()) {
            if b.len() == 1 {
                assert(s[s.len() - 2] == blank);
                assert(words(c) =~= Seq::empty());
                assert(words(s) =~= words(a) + words(b));
            } else {
                assert(s[s.len() - 2] == b[b.len() - 2]);
                if is_space(b[b.len() - 2]) {
                    assert(words(s) =~= words(a) + words(b));
                } else {
                    words_end(c);
                    let w = words(t);
                    assert(w.last() == words(c).last());
                    assert(w.drop_last() =~= words(a) + words(c).drop_last());
                    assert(words(s) =~= words(a) + words(b));
                }
            }
        }
    }
}

/// A text without blanks is one word, and an empty one is none.
pub proof fn texts_without_blanks_are_words(s: Seq<char>)
    requires
        forall|i: int| 0 <= i < s.len() ==> !is_space(#[trigger] s[i]),
    ensures
        s.len() > 0 ==> words(s) == seq![s],
        s.len() == 0 ==> words(s).len() == 0,
    decreases s.len(),
{
    if s.len() > 1 {
        let t = s.drop_last();
        assert forall|i: int| 0 <= i < t.len() implies !is_space(#[trigger] t[i]) by {
            assert(t[i] == s[i]);
        }
        texts_without_blanks_are_words(t);
        assert(!is_space(s[s.len() - 1]));
        assert(!is_space(s[s.len() - 2]));
        assert(t.push(s.last()) =~= s);
        assert(words(s) =~= seq![s]);
    } else if s.len() == 1 {
        assert(!is_space(s[0]));
        assert(seq![s.last()] =~= s);
        assert(words(s.drop_last()) =~= Seq::empty());
        assert(words(s) =~= seq![s]);
    }
}

/// Of a text in small letters, capitals of ASCII become small and nothing else changes.
pub proof fn capitals_become_small(s: Seq<char>, i: int)
    requires
        0 <= i < s.len(),
    ensures
        ascii_lower(s).len() == s.len(),
        !('A' <= ascii_lower(s)[i] <= 'Z'),
        'A' <= s[i] <= 'Z' ==> 'a' <= ascii_lower(s)[i] <= 'z' && ascii_lower(s)[i] as int
            - 'a' as int == s[i] as int - 'A' as int,
        !('A' <= s[i] <= 'Z') ==> ascii_lower(s)[i] == s[i],
{
}

/// A hash starts at the offset basis of 64 bits, and each byte is mixed in before the product
/// with the prime.
pub proof fn bytes_are_hashed_in_turn(bytes: Seq<u8>, b: u8)
    ensures
        fnv1a(Seq::empty()) == 0xcbf2_9ce4_8422_2325u64,
        fnv1a(bytes.push(b)) == (fnv1a(bytes) ^ (b as u64)).wrapping_mul(0x100_0000_01b3u64),
{
    assert(bytes.push(b).drop_last() =~= bytes);
}

/// A number in hexadecimal has the width that is asked for, and its digits, from the last, are
/// what division by 16 leaves.
pub proof fn hexadecimals_have_their_width(n: nat, width: nat)
    ensures
        hex(n, width).len() == width,
        width > 0 ==> hex(n, width).drop_last() == hex(n / 16, (width - 1) as nat),
        width > 0 && n % 16 < 10 ==> hex(n, width).last() as int == '0' as int + n % 16,
        width > 0 && n % 16 >= 10 ==> hex(n, width).last() as int == 'a' as int + n % 16 - 10,
    decreases width,
{
    if width > 0 {
        hexadecimals_have_their_width(n / 16, (width - 1) as nat);
        assert(hex(n, width).drop_last() =~= hex(n / 16, (width - 1) as nat));
    }
}

/// A truth value is shown by its word.
pub proof fn truth_values_have_words()
    ensures
        bool_text(true) == "true"@,
        bool_text(false) == "false"@,
{
}

/// What stands behind a start, or before an end, is what is left without it.
pub proof fn starts_and_ends_come_off(s: Seq<char>, p: Seq<char>)
    ensures
        without_prefix(p + s, p) == Some(s),
        without_suffix(s + p, p) == Some(s),
        !begins_with(s, p) ==> without_prefix(s, p) is None,
        !finishes_with(s, p) ==> without_suffix(s, p) is None,
{
    assert((p + s).take(p.len() as int) =~= p);
    assert((p + s).skip(p.len() as int) =~= s);
    assert((s + p).skip(s.len() as int) =~= p);
    assert((s + p).take(s.len() as int) =~= s);
}

} // verus!
